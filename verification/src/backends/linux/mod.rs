//! What the Linux backends share.

pub mod common;

pub use common::{keysym_to_button, keysym_to_w3c_keycode, W3cKey};
