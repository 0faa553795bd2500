use vstd::prelude::*;

verus! {

/// Possible gamepad events.
#[derive(Clone, Debug, PartialEq)]
pub enum GamepadEvent {
    Added(GamepadInfo),
    Removed,
}

/// Gamepad informations.
#[derive(Clone, Debug, PartialEq)]
pub struct GamepadInfo {}

} // verus!
