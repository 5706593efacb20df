//! A terminal text-entry core: an editable UTF-8 buffer with a byte-offset
//! cursor, character-wise and line-wise navigation, a scroll viewport, and a
//! renderer that turns the buffer into styled display lines with a visible
//! cursor cell and a line-number gutter.
//!
//! The pieces, leaves first: [`input_field::Input`] owns the content and the
//! cursor; [`viewport::Viewport`] owns the first visible line;
//! [`render`] turns buffer state, focus and wall-clock time into display
//! lines; [`editing_widget::EditingWidget`] ties them together and consumes
//! the [`keys::KeyEvent`] vocabulary. [`global::Global`] carries the
//! session-wide state. Terminal drawing, key capture and file writes live in
//! the host around this crate.
//!
//! Every operation is total over well-formed states: each boundary condition
//! (empty buffer, cursor at either end, a line feed typed into a single-line
//! field, scroll at either end) is a defined no-op rather than an error.
//!
//! Known limitation, kept deliberately: vertical cursor movement preserves
//! the byte width from the line start, not the rendered column, so on lines
//! with multi-byte characters it can misalign the cursor and even leave it
//! inside a character's encoding. The character-level operations demand the
//! boundary back (`cursor_at_boundary` tells a caller where it stands), which
//! mirrors the fatal-assertion behaviour these states have always had.

pub mod editing_widget;
pub mod global;
pub mod input_field;
pub mod keys;
pub mod render;
pub mod text;
pub mod viewport;
