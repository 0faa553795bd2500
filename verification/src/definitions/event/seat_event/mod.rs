pub mod cursor_event;
pub mod gamepad_event;
pub mod keyboard_event;
pub mod touch_event;

use vstd::prelude::*;
use vstd::std_specs::convert::FromSpecImpl;

verus! {

/// Seat identifier.
#[derive(Debug, PartialEq, Hash, Copy, Clone, Eq, Structural)]
pub struct SeatId(pub usize);

impl From<SeatId> for usize {
    fn from(id: SeatId) -> (ret: usize) {
        id.0
    }
}

impl FromSpecImpl<SeatId> for usize {
    open spec fn obeys_from_spec() -> bool {
        true
    }

    open spec fn from_spec(id: SeatId) -> usize {
        id.0
    }
}

impl From<usize> for SeatId {
    fn from(hash: usize) -> (ret: Self) {
        Self(hash)
    }
}

impl FromSpecImpl<usize> for SeatId {
    open spec fn obeys_from_spec() -> bool {
        true
    }

    open spec fn from_spec(hash: usize) -> Self {
        SeatId(hash)
    }
}

impl From<u32> for SeatId {
    fn from(id: u32) -> (ret: Self) {
        Self(id as usize)
    }
}

impl FromSpecImpl<u32> for SeatId {
    open spec fn obeys_from_spec() -> bool {
        true
    }

    open spec fn from_spec(id: u32) -> Self {
        SeatId(id as usize)
    }
}

impl From<i32> for SeatId {
    fn from(id: i32) -> (ret: Self) {
        Self(id as usize)
    }
}

impl FromSpecImpl<i32> for SeatId {
    open spec fn obeys_from_spec() -> bool {
        true
    }

    open spec fn from_spec(id: i32) -> Self {
        SeatId(id as usize)
    }
}

/// Seat informations.
#[derive(Debug, Clone, PartialEq)]
pub struct SeatInfo {
    pub id: SeatId,
    pub name: String,
}

} // verus!
