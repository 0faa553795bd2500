use vstd::prelude::*;

verus! {

/// Enumeration representing the different types of platform.
#[derive(Debug, Clone, Copy, PartialEq)]
pub enum PlatformType {
    Compositor,
    Direct,
}

} // verus!
