use crate::definitions::common::{Mode, Position2D, Size2D, Subpixel};
use vstd::prelude::*;
use vstd::std_specs::convert::FromSpecImpl;

verus! {

/// What can happen to an output.
#[derive(Clone, Debug, PartialEq)]
pub enum OutputEvent {
    Added(OutputInfo),
    ModeAdded(Mode),
    ModeChanged(Mode),
    Moved(Position2D<u32>),
    Removed,
}

/// Handle of an output, chosen by the caller. Two handles are the same output
/// exactly when their numbers are equal.
#[derive(Debug, PartialEq, Hash, Copy, Clone, Eq, Ord, PartialOrd, Structural)]
pub struct OutputId(pub usize);

impl OutputId {
    /// The number behind the handle, as decimal digits.
    pub fn to_text(&self) -> (text: String)
        ensures
            text@ == decimal_text(self.0 as nat),
    {
        number_text(self.0)
    }
}

/// `format!` of a number with `{}`: the number written in decimal digits, the
/// most significant first, without sign, padding or leading zeros; zero is
/// written as one `0`.
#[verifier::external_body]
fn number_text(number: usize) -> (text: String)
    ensures
        text@ == decimal_text(number as nat),
{
    format!("{}", number)
}

/// The character of a decimal digit.
pub open spec fn digit_char(digit: nat) -> char {
    seq!['0', '1', '2', '3', '4', '5', '6', '7', '8', '9'][digit as int]
}

/// A number in decimal digits, the most significant first. Zero is one `0`;
/// no other number starts with a `0`.
pub open spec fn decimal_text(number: nat) -> Seq<char>
    decreases number,
{
    if number < 10 {
        seq![digit_char(number)]
    } else {
        decimal_text(number / 10).push(digit_char(number % 10))
    }
}

impl From<usize> for OutputId {
    fn from(id: usize) -> (ret: Self) {
        Self(id)
    }
}

impl FromSpecImpl<usize> for OutputId {
    open spec fn obeys_from_spec() -> bool {
        true
    }

    open spec fn from_spec(id: usize) -> Self {
        OutputId(id)
    }
}

impl From<OutputId> for usize {
    fn from(id: OutputId) -> (ret: usize) {
        id.0
    }
}

impl FromSpecImpl<OutputId> for usize {
    open spec fn obeys_from_spec() -> bool {
        true
    }

    open spec fn from_spec(id: OutputId) -> usize {
        id.0
    }
}

impl From<u32> for OutputId {
    fn from(id: u32) -> (ret: Self) {
        Self(id as usize)
    }
}

impl FromSpecImpl<u32> for OutputId {
    open spec fn obeys_from_spec() -> bool {
        true
    }

    open spec fn from_spec(id: u32) -> Self {
        OutputId(id as usize)
    }
}

impl From<i32> for OutputId {
    fn from(id: i32) -> (ret: Self) {
        Self(id as usize)
    }
}

impl FromSpecImpl<i32> for OutputId {
    open spec fn obeys_from_spec() -> bool {
        true
    }

    open spec fn from_spec(id: i32) -> Self {
        OutputId(id as usize)
    }
}

/// What is known of an output when it appears.
#[derive(Debug, Clone, PartialEq)]
pub struct OutputInfo {
    pub position: Position2D<u32>,
    pub selected_mode: Mode,
    pub available_modes: Vec<Mode>,
    pub physical_size: Size2D<u32>,
    pub subpixel: Subpixel,
}

} // verus!
