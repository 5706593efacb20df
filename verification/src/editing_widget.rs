//! The editing widget: a text buffer plus viewport, title and focus flag,
//! driven by key events.

use vstd::prelude::*;
use vstd::utf8::{valid_utf8, encode_scalar};
use crate::input_field::{
    Input, up_cursor, down_cursor, prev_stop, next_stop, inserted, tab_inserted,
};
use crate::keys::KeyEvent;
use crate::text::{count_lf, lemma_count_lf_bounds};
use crate::viewport::{Viewport, clamped};

verus! {

/// An editable text area: buffer, scroll position, title and focus.
pub struct EditingWidget {
    input: Input,
    viewport: Viewport,
    title: String,
    focused: bool,
}

/// What one key event does to the widget: the new content, cursor and scroll
/// as functions of the old state. A tab becomes four spaces; a carriage
/// return becomes a line feed; a line feed is rejected in single-line mode;
/// character edits re-clamp the scroll against the new line count; the
/// remaining keys move the cursor or the viewport exactly as the matching
/// buffer or viewport operation does.
pub open spec fn handle_key_post(pre: EditingWidget, post: EditingWidget, key: KeyEvent) -> bool {
    let s = pre.spec_content();
    let c = pre.spec_cursor();
    let v = pre.spec_scroll();
    match key {
        KeyEvent::Char(ch) => {
            let cc = if ch == '\r' {
                '\n'
            } else {
                ch
            };
            if ch == '\t' {
                &&& post.spec_content() == tab_inserted(s, c)
                &&& post.spec_cursor() == c + 4
                &&& post.spec_scroll() == clamped(v, count_lf(post.spec_content()) + 1)
            } else if pre.spec_single_line() && cc == '\n' {
                &&& post.spec_content() == s
                &&& post.spec_cursor() == c
                &&& post.spec_scroll() == v
            } else {
                &&& post.spec_content() == inserted(s, c, cc)
                &&& post.spec_cursor() == c + encode_scalar(cc as u32).len()
                &&& post.spec_scroll() == clamped(v, count_lf(post.spec_content()) + 1)
            }
        },
        KeyEvent::Backspace => {
            &&& post.spec_content() == if c == 0 {
                s
            } else {
                s.subrange(0, prev_stop(s, c)) + s.subrange(c, s.len() as int)
            }
            &&& post.spec_cursor() == if c == 0 {
                0int
            } else {
                prev_stop(s, c)
            }
            &&& post.spec_scroll() == clamped(v, count_lf(post.spec_content()) + 1)
        },
        KeyEvent::Delete => {
            &&& post.spec_content() == if c >= s.len() {
                s
            } else {
                s.subrange(0, c) + s.subrange(next_stop(s, c), s.len() as int)
            }
            &&& post.spec_cursor() == c
            &&& post.spec_scroll() == clamped(v, count_lf(post.spec_content()) + 1)
        },
        KeyEvent::Left => {
            &&& post.spec_content() == s
            &&& post.spec_cursor() == if c == 0 {
                0int
            } else {
                prev_stop(s, c)
            }
            &&& post.spec_scroll() == v
        },
        KeyEvent::Right => {
            &&& post.spec_content() == s
            &&& post.spec_cursor() == if c >= s.len() {
                c
            } else {
                next_stop(s, c)
            }
            &&& post.spec_scroll() == v
        },
        KeyEvent::Up => {
            &&& post.spec_content() == s
            &&& post.spec_cursor() == up_cursor(s, c)
            &&& post.spec_scroll() == v
        },
        KeyEvent::Down => {
            &&& post.spec_content() == s
            &&& post.spec_cursor() == down_cursor(s, c)
            &&& post.spec_scroll() == v
        },
        KeyEvent::PageUp => {
            &&& post.spec_content() == s
            &&& post.spec_cursor() == c
            &&& post.spec_scroll() == if v == 0 {
                0int
            } else {
                v - 1
            }
        },
        KeyEvent::PageDown => {
            &&& post.spec_content() == s
            &&& post.spec_cursor() == c
            &&& post.spec_scroll() == if v + 1 >= count_lf(s) + 1 {
                v
            } else {
                v + 1
            }
        },
        KeyEvent::Home => {
            &&& post.spec_content() == s
            &&& post.spec_cursor() == c
            &&& post.spec_scroll() == 0
        },
        KeyEvent::End => {
            &&& post.spec_content() == s
            &&& post.spec_cursor() == c
            &&& post.spec_scroll() == count_lf(s)
        },
        KeyEvent::Esc => {
            &&& post.spec_content() == s
            &&& post.spec_cursor() == c
            &&& post.spec_scroll() == v
        },
    }
}

impl EditingWidget {
    /// The underlying buffer.
    pub closed spec fn spec_input(&self) -> Input {
        self.input
    }

    /// The first visible line.
    pub closed spec fn spec_scroll(&self) -> int {
        self.viewport.spec_scroll()
    }

    /// The widget's title.
    pub closed spec fn spec_title(&self) -> Seq<char> {
        self.title@
    }

    /// Whether the widget has input focus.
    pub closed spec fn spec_focused(&self) -> bool {
        self.focused
    }

    /// The buffer's bytes.
    pub open spec fn spec_content(&self) -> Seq<u8> {
        self.spec_input().spec_content()
    }

    /// The cursor's byte offset.
    pub open spec fn spec_cursor(&self) -> int {
        self.spec_input().spec_cursor()
    }

    /// Whether the field rejects line feeds.
    pub open spec fn spec_single_line(&self) -> bool {
        self.spec_input().spec_single_line()
    }

    /// The buffer is well formed and the scroll offset stays below the line
    /// count.
    pub open spec fn wf(&self) -> bool {
        &&& self.spec_input().wf()
        &&& 0 <= self.spec_scroll() < count_lf(self.spec_content()) + 1
    }

    /// The cursor rests on a character boundary.
    pub open spec fn cursor_ok(&self) -> bool {
        self.spec_input().cursor_ok()
    }

    /// An empty, focused, untitled single-line field.
    pub fn single_line() -> (r: EditingWidget)
        ensures
            r.wf(),
            r.cursor_ok(),
            r.spec_single_line(),
            r.spec_content() == Seq::<u8>::empty(),
            r.spec_cursor() == 0,
            r.spec_scroll() == 0,
            r.spec_title() == Seq::<char>::empty(),
            r.spec_focused(),
    {
        EditingWidget {
            input: Input::single_line(),
            viewport: Viewport::new(),
            title: String::new(),
            focused: true,
        }
    }

    /// An empty, focused, untitled multi-line field.
    pub fn multi_line() -> (r: EditingWidget)
        ensures
            r.wf(),
            r.cursor_ok(),
            !r.spec_single_line(),
            r.spec_content() == Seq::<u8>::empty(),
            r.spec_cursor() == 0,
            r.spec_scroll() == 0,
            r.spec_title() == Seq::<char>::empty(),
            r.spec_focused(),
    {
        EditingWidget {
            input: Input::multi_line(),
            viewport: Viewport::new(),
            title: String::new(),
            focused: true,
        }
    }

    pub fn set_title(&mut self, title: &str)
        ensures
            final(self).spec_title() == title@,
            final(self).spec_input() == old(self).spec_input(),
            final(self).spec_scroll() == old(self).spec_scroll(),
            final(self).spec_focused() == old(self).spec_focused(),
            old(self).wf() ==> final(self).wf(),
    {
        self.title = title.to_owned();
    }

    pub fn get_title(&self) -> (r: &String)
        ensures
            r@ == self.spec_title(),
    {
        &self.title
    }

    pub fn set_focused(&mut self, focused: bool)
        ensures
            final(self).spec_focused() == focused,
            final(self).spec_input() == old(self).spec_input(),
            final(self).spec_scroll() == old(self).spec_scroll(),
            final(self).spec_title() == old(self).spec_title(),
            old(self).wf() ==> final(self).wf(),
    {
        self.focused = focused;
    }

    pub fn get_focused(&self) -> (r: bool)
        ensures
            r == self.spec_focused(),
    {
        self.focused
    }

    /// Replace the content, reset the cursor to the start, and clamp the
    /// scroll against the new line count.
    pub fn set_content(&mut self, text: Vec<u8>)
        requires
            old(self).wf(),
            valid_utf8(text@),
            old(self).spec_single_line() ==> forall|j: int|
                0 <= j < text@.len() ==> text@[j] != 0x0a,
            text@.len() < usize::MAX,
        ensures
            final(self).wf(),
            final(self).cursor_ok(),
            final(self).spec_content() == text@,
            final(self).spec_cursor() == 0,
            final(self).spec_scroll() == clamped(old(self).spec_scroll(), count_lf(text@) + 1),
            final(self).spec_single_line() == old(self).spec_single_line(),
            final(self).spec_title() == old(self).spec_title(),
            final(self).spec_focused() == old(self).spec_focused(),
    {
        self.input.set_content(text);
        let t = self.input.total_lines();
        proof {
            lemma_count_lf_bounds(self.input.spec_content());
        }
        self.viewport.clamp(t);
    }

    pub fn get_content(&self) -> (r: &Vec<u8>)
        ensures
            r@ == self.spec_content(),
    {
        self.input.get_content()
    }

    pub fn cursor(&self) -> (r: usize)
        ensures
            r == self.spec_cursor(),
    {
        self.input.cursor()
    }

    pub fn is_single_line(&self) -> (r: bool)
        ensures
            r == self.spec_single_line(),
    {
        self.input.is_single_line()
    }

    pub fn scroll(&self) -> (r: usize)
        ensures
            r == self.spec_scroll(),
    {
        self.viewport.scroll()
    }

    /// Whether the cursor currently rests on a character boundary.
    pub fn cursor_at_boundary(&self) -> (r: bool)
        requires
            self.wf(),
        ensures
            r == self.cursor_ok(),
    {
        self.input.cursor_at_boundary()
    }

    /// The number of logical lines of the content.
    pub fn total_lines(&self) -> (r: usize)
        requires
            self.wf(),
            self.spec_content().len() < usize::MAX,
        ensures
            r == count_lf(self.spec_content()) + 1,
            r >= 1,
    {
        proof {
            lemma_count_lf_bounds(self.spec_content());
        }
        self.input.total_lines()
    }

    /// Apply one key event: edit the buffer, move the cursor or move the
    /// viewport, exactly as `handle_key_post` states.
    pub fn handle_key(&mut self, key: KeyEvent)
        requires
            old(self).wf(),
            old(self).spec_content().len() + 8 <= usize::MAX,
            key.edits_at_cursor() ==> old(self).cursor_ok(),
        ensures
            final(self).wf(),
            final(self).spec_single_line() == old(self).spec_single_line(),
            final(self).spec_title() == old(self).spec_title(),
            final(self).spec_focused() == old(self).spec_focused(),
            key.edits_at_cursor() ==> final(self).cursor_ok(),
            handle_key_post(*old(self), *final(self), key),
    {
        proof {
            lemma_count_lf_bounds(old(self).spec_content());
        }
        match key {
            KeyEvent::Char(_) | KeyEvent::Backspace | KeyEvent::Delete => {
                self.input.put_char(key);
                proof {
                    lemma_count_lf_bounds(self.input.spec_content());
                    if old(self).spec_cursor() > 0 {
                        crate::input_field::lemma_prev_stop_props(
                            old(self).spec_content(),
                            old(self).spec_cursor(),
                        );
                    }
                    if old(self).spec_cursor() < old(self).spec_content().len() {
                        crate::input_field::lemma_next_stop_props(
                            old(self).spec_content(),
                            old(self).spec_cursor(),
                        );
                    }
                    assert(self.input.spec_content().len() <= old(self).spec_content().len() + 4);
                }
                let t = self.input.total_lines();
                self.viewport.clamp(t);
            },
            KeyEvent::Left => {
                self.input.put_char(key);
            },
            KeyEvent::Right => {
                self.input.put_char(key);
            },
            KeyEvent::Up => {
                self.input.put_char(key);
            },
            KeyEvent::Down => {
                self.input.put_char(key);
            },
            KeyEvent::PageUp => {
                self.viewport.page_up();
            },
            KeyEvent::PageDown => {
                let t = self.input.total_lines();
                self.viewport.page_down(t);
            },
            KeyEvent::Home => {
                self.viewport.home();
            },
            KeyEvent::End => {
                let t = self.input.total_lines();
                self.viewport.end(t);
            },
            KeyEvent::Esc => {},
        }
    }
}

} // verus!
