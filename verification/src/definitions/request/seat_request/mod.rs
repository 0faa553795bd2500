pub mod cursor_request;
pub mod keyboard_request;
