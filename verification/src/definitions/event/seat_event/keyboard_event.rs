use vstd::prelude::*;

verus! {

/// Keyboard informations.
#[derive(Clone, Debug, PartialEq)]
pub struct KeyboardInfo {
    pub layout: String,
    pub autorepeat: bool,
    pub encoding: KeyEncoding,
}

/// Keystroke encoding.
#[derive(Clone, Debug, PartialEq)]
pub enum KeyEncoding {
    XkbV1,
}

} // verus!
