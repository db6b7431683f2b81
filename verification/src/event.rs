//! What the input loop hands to the session and what the session asks of it.

use vstd::prelude::*;

verus! {

/// A key of the keyboard.
#[derive(Debug, Clone, Copy, PartialEq, Eq, Structural)]
pub enum Key {
    Enter,
    Tab,
    Backspace,
    Esc,
    Left,
    Right,
    Up,
    Down,
    Ins,
    Delete,
    Home,
    End,
    PageUp,
    PageDown,
    Char(char),
    Ctrl(char),
    Alt(char),
    Unknown,
}

/// An event of the input loop.
#[derive(Debug, Clone, Copy, PartialEq, Eq, Structural)]
pub enum Event {
    Input(Key),
    Tick,
}

/// Where an attachment lies below the storage directory: in the directory
/// named by `key`, under the name `file`.
#[derive(Debug, PartialEq, Eq)]
pub struct AttachmentLocation {
    pub key: String,
    pub file: String,
}

/// What the input loop is to do after a key.
#[derive(Debug, PartialEq, Eq)]
pub enum Action {
    /// Go on with the next event.
    Continue,
    /// Leave the loop.
    Quit,
    /// Open this attachment in the viewer, then go on.
    Open(AttachmentLocation),
}

} // verus!
