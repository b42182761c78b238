use vstd::prelude::*;

verus! {

/// A key press as the keyboard front end reports it.
#[derive(Debug, Clone)]
pub enum KeyEvent {
    /// Printable text produced by the key.
    Char(String),
    Backspace,
    Enter,
    Escape,
}

} // verus!
