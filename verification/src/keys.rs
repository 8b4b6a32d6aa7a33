//! Keys, and what the interface asks of the rest of the program.

use vstd::prelude::*;

verus! {

/// The keys that the interface tells apart.
#[derive(Clone, Copy, PartialEq, Eq, Debug, Structural)]
pub enum KeyCode {
    Char(char),
    Esc,
    Enter,
    Backspace,
    Tab,
    Up,
    Down,
    PageUp,
    PageDown,
    /// Any other key.
    Other,
}

/// A key event of the terminal.
#[derive(Clone, Copy, PartialEq, Eq, Debug, Structural)]
pub struct KeyEvent {
    pub code: KeyCode,
    /// The control key is held.
    pub ctrl: bool,
    /// The key went down, as opposed to a repeat or a release.
    pub pressed: bool,
}

/// The flags that the interface shares with the worker.
#[derive(Clone, Copy, PartialEq, Eq, Debug, Structural)]
pub struct Signals {
    /// The program is to end.
    pub stop: bool,
    /// The reverse cache is to be read again.
    pub refresh: bool,
    /// Captured payloads are to be written out.
    pub payload: bool,
}

} // verus!
