use crate::definitions::event::seat_event::cursor_event::Button;
use vstd::prelude::*;

verus! {

/// The keysym of the first pointer button.
pub const KEY_POINTER_BUTTON1: u32 = 0xfee9;

/// The keysym of the second pointer button.
pub const KEY_POINTER_BUTTON2: u32 = 0xfeea;

/// The keysym of the third pointer button.
pub const KEY_POINTER_BUTTON3: u32 = 0xfeeb;

/// The button code of the left mouse button.
pub const BUTTON_LEFT: u32 = 272;

/// The button code of the middle mouse button.
pub const BUTTON_MIDDLE: u32 = 273;

/// The button code of the right mouse button.
pub const BUTTON_RIGHT: u32 = 274;

/// The button code that stands for scrolling up.
pub const BUTTON_SCROLL_UP: u32 = 275;

/// The button code that stands for scrolling down.
pub const BUTTON_SCROLL_DOWN: u32 = 276;

/// A key of the writing block, named by its place: a letter key, counted
/// from `A`, or a digit key, counted from `0`.
#[derive(Debug, Clone, Copy, PartialEq, Eq)]
pub enum W3cKey {
    Letter(u8),
    Digit(u8),
}

/// The key that a keysym stands for: the letter key for a Latin letter of
/// either case, the digit key for a digit, none for any other keysym.
pub open spec fn keysym_key(keysym: u32) -> Option<W3cKey> {
    if 0x41 <= keysym <= 0x5a {
        Some(W3cKey::Letter((keysym - 0x41) as u8))
    } else if 0x61 <= keysym <= 0x7a {
        Some(W3cKey::Letter((keysym - 0x61) as u8))
    } else if 0x30 <= keysym <= 0x39 {
        Some(W3cKey::Digit((keysym - 0x30) as u8))
    } else {
        None
    }
}

/// The mouse button that a keysym stands for: the first pointer button is the
/// left one, the second the middle one, the third the right one.
pub open spec fn keysym_button(keysym: u32) -> Option<Button> {
    if keysym == KEY_POINTER_BUTTON1 {
        Some(Button::Left)
    } else if keysym == KEY_POINTER_BUTTON2 {
        Some(Button::Middle)
    } else if keysym == KEY_POINTER_BUTTON3 {
        Some(Button::Right)
    } else {
        None
    }
}

/// The button code of a core protocol button: the first five buttons have
/// their own codes, the others follow behind the scroll codes.
pub open spec fn button_code(detail: u32) -> int {
    if detail == 0 {
        0
    } else if detail <= 5 {
        271 + detail
    } else {
        detail - 8 + 275
    }
}

/// The mouse button of a button code.
pub open spec fn code_button(code: u32) -> Option<Button> {
    if code == BUTTON_LEFT {
        Some(Button::Left)
    } else if code == BUTTON_MIDDLE {
        Some(Button::Middle)
    } else if code == BUTTON_RIGHT {
        Some(Button::Right)
    } else {
        None
    }
}

/// Finds the key of the writing block that a keysym stands for.
pub fn keysym_to_w3c_keycode(keysym: u32) -> (key: Option<W3cKey>)
    ensures
        key == keysym_key(keysym),
{
    if 0x41 <= keysym && keysym <= 0x5a {
        Some(W3cKey::Letter((keysym - 0x41) as u8))
    } else if 0x61 <= keysym && keysym <= 0x7a {
        Some(W3cKey::Letter((keysym - 0x61) as u8))
    } else if 0x30 <= keysym && keysym <= 0x39 {
        Some(W3cKey::Digit((keysym - 0x30) as u8))
    } else {
        None
    }
}

/// Finds the mouse button that a keysym stands for.
pub fn keysym_to_button(keysym: u32) -> (button: Option<Button>)
    ensures
        button == keysym_button(keysym),
{
    if keysym == KEY_POINTER_BUTTON1 {
        Some(Button::Left)
    } else if keysym == KEY_POINTER_BUTTON2 {
        Some(Button::Middle)
    } else if keysym == KEY_POINTER_BUTTON3 {
        Some(Button::Right)
    } else {
        None
    }
}

/// Turns the number of a core protocol button into its button code. The
/// numbers six and seven have no code.
pub fn detail_to_button_code(detail: u32) -> (code: u32)
    requires
        detail <= 5 || 8 <= detail,
        detail <= u32::MAX - 267,
    ensures
        code == button_code(detail),
{
    if detail == 0 {
        0
    } else if detail <= 5 {
        271 + detail
    } else {
        detail - 8 + 275
    }
}

/// Finds the mouse button of a button code.
pub fn button_of_code(code: u32) -> (button: Option<Button>)
    ensures
        button == code_button(code),
{
    if code == BUTTON_LEFT {
        Some(Button::Left)
    } else if code == BUTTON_MIDDLE {
        Some(Button::Middle)
    } else if code == BUTTON_RIGHT {
        Some(Button::Right)
    } else {
        None
    }
}

/// The step of the wheel that the release of a button stands for: one step
/// back for the scroll-up code, one step on for the scroll-down code, none
/// for any other code.
pub fn wheel_step_of_release(code: u32) -> (step: Option<i32>)
    ensures
        step == (if code == BUTTON_SCROLL_UP {
            Some(-1i32)
        } else if code == BUTTON_SCROLL_DOWN {
            Some(1i32)
        } else {
            None
        }),
{
    if code == BUTTON_SCROLL_UP {
        Some(-1)
    } else if code == BUTTON_SCROLL_DOWN {
        Some(1)
    } else {
        None
    }
}

} // verus!
