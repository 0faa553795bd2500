use vstd::prelude::*;

verus! {

/// Possible error while creating surface.
#[derive(Debug, Clone, Copy, PartialEq)]
pub enum SurfaceError {
    TooManySurfaces,
    Unsupported,
}

/// Possible error while setting cursor mode.
#[derive(Debug, Clone, Copy, PartialEq)]
pub enum CursorModeError {
    Unsupported,
}

/// Possible error while setting key repeat.
#[derive(Debug, Clone, Copy, PartialEq)]
pub enum KeyRepeatError {
    Unsupported,
}

/// Possible error while setting keyboard layout.
#[derive(Debug, Clone, Copy, PartialEq)]
pub enum KeyboardLayoutError {
    Unsupported,
}

} // verus!
