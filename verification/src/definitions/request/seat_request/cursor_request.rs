use crate::definitions::common::CursorMode;
use crate::definitions::event::seat_event::cursor_event::CursorImage;
use vstd::prelude::*;

verus! {

/// Possible cursor requests.
#[derive(Debug, Clone)]
pub enum CursorRequest {
    ChangeMode(CursorMode),
    ChangeImage(CursorImage),
}

} // verus!
