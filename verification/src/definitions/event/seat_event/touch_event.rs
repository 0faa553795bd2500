use vstd::prelude::*;

verus! {

/// Possible touch events.
#[derive(Clone, Debug, PartialEq)]
pub enum TouchEvent {
    Added(TouchInfo),
    Removed,
}

/// Touch informations.
#[derive(Clone, Debug, PartialEq)]
pub struct TouchInfo {}

} // verus!
