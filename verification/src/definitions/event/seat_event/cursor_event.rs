use crate::definitions::common::CursorMode;
use vstd::prelude::*;

verus! {

/// Source of the axis event.
#[derive(Clone, Copy, Debug, PartialEq)]
pub enum AxisSource {
    Wheel,
}

/// Direction of the axis event.
#[derive(Clone, Copy, Debug, PartialEq)]
pub enum AxisDirection {
    Horizontal,
    Vertical,
}

/// Possible buttons for button events.
#[derive(Clone, Copy, Debug, PartialEq)]
pub enum Button {
    Left,
    Right,
    Middle,
}

/// Image kind for the cursor.
#[derive(Clone, Debug, PartialEq)]
pub enum CursorImage {
    Custom(Vec<u8>),
    Default,
    Hidden,
}

/// Cursor informations.
#[derive(Clone, Debug, PartialEq)]
pub struct CursorInfo {
    pub mode: CursorMode,
    pub theme: CursorImage,
    pub visible: bool,
}

} // verus!
