//! The abstract key-event vocabulary the editor consumes. The host maps the
//! keyboard library's events onto these before handing them to the widget.

use vstd::prelude::*;

verus! {

/// One key event. A tab expands to four spaces and a carriage return is
/// normalised to a line feed at the point of input handling; page, home and
/// end keys drive the viewport; anything else the editor ignores.
#[derive(Clone, Copy, PartialEq, Eq, Structural, Debug)]
pub enum KeyEvent {
    Char(char),
    Backspace,
    Delete,
    Left,
    Right,
    Up,
    Down,
    PageUp,
    PageDown,
    Home,
    End,
    Esc,
}

impl KeyEvent {
    /// The events that edit the buffer at the cursor, and therefore need the
    /// cursor on a character boundary.
    pub open spec fn edits_at_cursor(self) -> bool {
        match self {
            KeyEvent::Char(_) => true,
            KeyEvent::Backspace => true,
            KeyEvent::Delete => true,
            _ => false,
        }
    }
}

} // verus!
