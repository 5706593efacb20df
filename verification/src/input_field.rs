//! The editable text buffer: UTF-8 content with a byte-offset cursor.
//!
//! The cursor is a byte offset that the character-level operations keep on a
//! UTF-8 scalar boundary. Vertical movement (`move_up` / `move_down`) works on
//! raw byte widths and is allowed to leave the boundary on lines that contain
//! multi-byte characters; that quirk is part of the observable behaviour and
//! is deliberately kept (see the crate documentation).

use vstd::prelude::*;
use vstd::utf8::{
    valid_utf8, is_char_boundary, is_continuation_byte, encode_scalar, encode_utf8,
    length_of_first_scalar, valid_first_scalar, valid_utf8_split, valid_utf8_concat,
    is_char_boundary_start_end_of_seq, is_char_boundary_iff_not_is_continuation_byte,
    encode_utf8_valid_utf8, char_is_scalar, char_u32_cast,
};
use crate::keys::KeyEvent;
use crate::text::{last_lf, next_lf};

verus! {

/// The first byte-offset at or before `c - 1` that does not hold a UTF-8
/// continuation byte, or 0. For a cursor on a boundary this is the previous
/// character boundary.
pub open spec fn prev_stop(s: Seq<u8>, c: int) -> int
    decreases c,
{
    if c <= 1 {
        0
    } else if !is_continuation_byte(s[c - 1]) {
        c - 1
    } else {
        prev_stop(s, c - 1)
    }
}

/// The first byte-offset after `c` that does not hold a UTF-8 continuation
/// byte, or `s.len()`. For a cursor on a boundary this is the next character
/// boundary.
pub open spec fn next_stop(s: Seq<u8>, c: int) -> int
    decreases s.len() - c,
{
    if c + 1 >= s.len() {
        s.len() as int
    } else if !is_continuation_byte(s[c + 1]) {
        c + 1
    } else {
        next_stop(s, c + 1)
    }
}

pub proof fn lemma_prev_stop_props(s: Seq<u8>, c: int)
    requires
        0 < c <= s.len(),
    ensures
        0 <= prev_stop(s, c) < c,
        prev_stop(s, c) > 0 ==> !is_continuation_byte(s[prev_stop(s, c)]),
        forall|j: int| prev_stop(s, c) < j < c ==> is_continuation_byte(s[j]),
    decreases c,
{
    if c > 1 && is_continuation_byte(s[c - 1]) {
        lemma_prev_stop_props(s, c - 1);
    }
}

pub proof fn lemma_next_stop_props(s: Seq<u8>, c: int)
    requires
        0 <= c < s.len(),
    ensures
        c < next_stop(s, c) <= s.len(),
        next_stop(s, c) < s.len() ==> !is_continuation_byte(s[next_stop(s, c)]),
        forall|j: int| c < j < next_stop(s, c) ==> is_continuation_byte(s[j]),
    decreases s.len() - c,
{
    if c + 1 < s.len() && is_continuation_byte(s[c + 1]) {
        lemma_next_stop_props(s, c + 1);
    }
}

/// The cursor's target when moving up one line, per the byte-width algorithm:
/// scan back to the start of the current line, then across the previous line,
/// and land at the same byte width within it, capped at that line's width
/// (with the historical off-by-one when the previous line starts the buffer).
/// On the first line the move is a no-op.
pub open spec fn up_cursor(s: Seq<u8>, c: int) -> int {
    if c <= 1 {
        c
    } else {
        let p1 = last_lf(s, c);
        if p1 == -1 {
            c
        } else if p1 <= 1 {
            p1
        } else {
            let w = c - p1;
            let p2 = last_lf(s, p1);
            let uw = if p2 >= 0 {
                p1 - p2
            } else {
                p1
            };
            let m = if uw < w {
                uw
            } else {
                w
            };
            if p2 >= 0 {
                p2 + m
            } else {
                m - 1
            }
        }
    }
}

/// The cursor's target when moving down one line: the start of the next line
/// plus the byte distance from the current line's start, clamped to
/// `s.len() - 1`. On the last line the move is a no-op.
pub open spec fn down_cursor(s: Seq<u8>, c: int) -> int {
    let e = next_lf(s, c);
    if e == s.len() {
        c
    } else {
        let ls = last_lf(s, c) + 1;
        let target = e + 1 + (c - ls);
        if target <= s.len() - 1 {
            target
        } else {
            s.len() - 1
        }
    }
}

/// An editable text field: UTF-8 bytes plus a byte-offset cursor.
/// In single-line mode the content never contains a line feed.
pub struct Input {
    single_line: bool,
    content: Vec<u8>,
    cursor: usize,
}

impl Input {
    /// The buffer's bytes.
    pub closed spec fn spec_content(&self) -> Seq<u8> {
        self.content@
    }

    /// The cursor's byte offset.
    pub closed spec fn spec_cursor(&self) -> int {
        self.cursor as int
    }

    /// Whether the field rejects line feeds.
    pub closed spec fn spec_single_line(&self) -> bool {
        self.single_line
    }

    /// Structural invariant: the content is valid UTF-8, the cursor is in
    /// range, and a single-line field holds no line feed.
    pub open spec fn wf(&self) -> bool {
        &&& valid_utf8(self.spec_content())
        &&& 0 <= self.spec_cursor() <= self.spec_content().len()
        &&& self.spec_single_line() ==> forall|j: int|
            0 <= j < self.spec_content().len() ==> self.spec_content()[j] != 0x0a
    }

    /// The cursor rests on a UTF-8 scalar boundary.
    pub open spec fn cursor_ok(&self) -> bool {
        is_char_boundary(self.spec_content(), self.spec_cursor())
    }

    /// An empty field that rejects line feeds.
    pub fn single_line() -> (r: Input)
        ensures
            r.wf(),
            r.cursor_ok(),
            r.spec_single_line(),
            r.spec_content() == Seq::<u8>::empty(),
            r.spec_cursor() == 0,
    {
        Input { single_line: true, content: Vec::new(), cursor: 0 }
    }

    /// An empty field that accepts line feeds.
    pub fn multi_line() -> (r: Input)
        ensures
            r.wf(),
            r.cursor_ok(),
            !r.spec_single_line(),
            r.spec_content() == Seq::<u8>::empty(),
            r.spec_cursor() == 0,
    {
        Input { single_line: false, content: Vec::new(), cursor: 0 }
    }

    pub fn get_content(&self) -> (r: &Vec<u8>)
        ensures
            r@ == self.spec_content(),
    {
        &self.content
    }

    pub fn cursor(&self) -> (r: usize)
        ensures
            r == self.spec_cursor(),
    {
        self.cursor
    }

    pub fn is_single_line(&self) -> (r: bool)
        ensures
            r == self.spec_single_line(),
    {
        self.single_line
    }

    /// The number of logical lines: one more than the number of line feeds.
    pub fn total_lines(&self) -> (r: usize)
        requires
            self.wf(),
            self.spec_content().len() < usize::MAX,
        ensures
            r == crate::text::count_lf(self.spec_content()) + 1,
    {
        let n = crate::text::count_line_feeds(&self.content);
        proof {
            crate::text::lemma_count_lf_bounds(self.content@);
        }
        n + 1
    }

    /// Replace the whole content and reset the cursor to the start.
    pub fn set_content(&mut self, text: Vec<u8>)
        requires
            valid_utf8(text@),
            old(self).spec_single_line() ==> forall|j: int|
                0 <= j < text@.len() ==> text@[j] != 0x0a,
        ensures
            final(self).wf(),
            final(self).cursor_ok(),
            final(self).spec_content() == text@,
            final(self).spec_cursor() == 0,
            final(self).spec_single_line() == old(self).spec_single_line(),
    {
        self.content = text;
        self.cursor = 0;
    }

    /// Move the cursor one character to the left, skipping continuation
    /// bytes; no-op at the start of the buffer.
    pub fn move_left(&mut self)
        requires
            old(self).wf(),
        ensures
            final(self).wf(),
            final(self).cursor_ok(),
            final(self).spec_content() == old(self).spec_content(),
            final(self).spec_single_line() == old(self).spec_single_line(),
            final(self).spec_cursor() == if old(self).spec_cursor() == 0 {
                0int
            } else {
                prev_stop(old(self).spec_content(), old(self).spec_cursor())
            },
    {
        let ghost s = self.content@;
        let ghost c0 = self.cursor as int;
        if self.cursor == 0 {
            proof {
                assert(is_char_boundary(s, 0));
            }
            return;
        }
        self.cursor = self.cursor - 1;
        while self.cursor > 0 && self.content[self.cursor] >= 0x80 && self.content[self.cursor]
            <= 0xbf
            invariant
                self.content@ == s,
                self.single_line == old(self).single_line,
                0 <= self.cursor < c0 <= s.len(),
                prev_stop(s, c0) == prev_stop(s, self.cursor as int + 1),
            decreases self.cursor,
        {
            self.cursor = self.cursor - 1;
        }
        proof {
            assert(self.cursor as int == prev_stop(s, c0));
            lemma_prev_stop_props(s, c0);
            if self.cursor > 0 {
                is_char_boundary_iff_not_is_continuation_byte(s, self.cursor as int);
            } else {
                assert(is_char_boundary(s, 0));
            }
        }
    }

    /// Move the cursor one character to the right, skipping continuation
    /// bytes; no-op at the end of the buffer.
    pub fn move_right(&mut self)
        requires
            old(self).wf(),
        ensures
            final(self).wf(),
            final(self).cursor_ok(),
            final(self).spec_content() == old(self).spec_content(),
            final(self).spec_single_line() == old(self).spec_single_line(),
            final(self).spec_cursor() == if old(self).spec_cursor()
                >= old(self).spec_content().len() {
                old(self).spec_cursor()
            } else {
                next_stop(old(self).spec_content(), old(self).spec_cursor())
            },
    {
        let ghost s = self.content@;
        let ghost c0 = self.cursor as int;
        if self.cursor >= self.content.len() {
            proof {
                is_char_boundary_start_end_of_seq(s);
            }
            return;
        }
        self.cursor = self.cursor + 1;
        while self.cursor < self.content.len() && self.content[self.cursor] >= 0x80
            && self.content[self.cursor] <= 0xbf
            invariant
                self.content@ == s,
                self.single_line == old(self).single_line,
                0 <= c0 < self.cursor <= s.len(),
                next_stop(s, c0) == next_stop(s, self.cursor as int - 1),
            decreases s.len() - self.cursor,
        {
            self.cursor = self.cursor + 1;
        }
        proof {
            assert(self.cursor as int == next_stop(s, c0));
            if (self.cursor as int) < s.len() {
                is_char_boundary_iff_not_is_continuation_byte(s, self.cursor as int);
            } else {
                is_char_boundary_start_end_of_seq(s);
            }
        }
    }
}

/// Bit patterns produced when assembling UTF-8 leading and continuation bytes.
proof fn lemma_or_byte_ranges(b: u8)
    by (bit_vector)
    ensures
        (0x80u8 | b) >= 0x80,
        (0xc0u8 | b) >= 0xc0,
        (0xe0u8 | b) >= 0xe0,
        (0xf0u8 | b) >= 0xf0,
{
}

/// Facts about the UTF-8 encoding of a single `char`: it is valid UTF-8,
/// one to four bytes long, and contains a line feed exactly when the
/// character is the line feed itself.
pub proof fn lemma_encode_char(c: char)
    ensures
        valid_utf8(encode_scalar(c as u32)),
        1 <= encode_scalar(c as u32).len() <= 4,
        c != '\n' ==> forall|j: int|
            0 <= j < encode_scalar(c as u32).len() ==> #[trigger] encode_scalar(c as u32)[j]
                != 0x0a,
        c == '\n' ==> encode_scalar(c as u32) =~= seq![0x0au8],
{
    char_is_scalar(c);
    let u = c as u32;
    let e = encode_scalar(u);
    encode_utf8_valid_utf8(seq![c]);
    assert(seq![c].drop_first() =~= Seq::<char>::empty());
    assert(encode_utf8(seq![c]) == encode_scalar(u) + encode_utf8(Seq::<char>::empty()));
    assert(encode_scalar(u) + Seq::<u8>::empty() =~= encode_scalar(u));
    if c == '\n' {
        assert(u == 0x0a);
        assert((0x0au32 & 0x7f) as u8 == 0x0au8) by (bit_vector);
    } else {
        if u <= 0x7f {
            assert(u != 0x0a) by {
                if u == 0x0a {
                    char_u32_cast(c, u);
                    char_u32_cast('\n', 0x0a);
                }
            }
            assert(u <= 0x7f && u != 0x0a ==> (u & 0x7f) as u8 != 0x0au8) by (bit_vector);
        } else {
            assert forall|j: int| 0 <= j < e.len() implies e[j] != 0x0a by {
                lemma_or_byte_ranges(((u >> 6) & 0x1f) as u8);
                lemma_or_byte_ranges((u & 0x3f) as u8);
                lemma_or_byte_ranges(((u >> 12) & 0x0f) as u8);
                lemma_or_byte_ranges(((u >> 6) & 0x3f) as u8);
                lemma_or_byte_ranges(((u >> 18) & 0x7) as u8);
                lemma_or_byte_ranges(((u >> 12) & 0x3f) as u8);
            }
        }
    }
}

/// Replacing the bytes between two character boundaries of a valid UTF-8
/// sequence by another valid UTF-8 sequence yields valid UTF-8, and the end
/// of the inserted part is again a character boundary.
pub proof fn lemma_splice_valid_utf8(s: Seq<u8>, b1: int, b2: int, t: Seq<u8>)
    requires
        valid_utf8(s),
        0 <= b1 <= b2 <= s.len(),
        is_char_boundary(s, b1),
        is_char_boundary(s, b2),
        valid_utf8(t),
    ensures
        valid_utf8(s.subrange(0, b1) + t + s.subrange(b2, s.len() as int)),
        is_char_boundary(s.subrange(0, b1) + t + s.subrange(b2, s.len() as int), b1 + t.len()),
{
    valid_utf8_split(s, b1);
    valid_utf8_split(s, b2);
    let pre = s.subrange(0, b1);
    let suf = s.subrange(b2, s.len() as int);
    valid_utf8_concat(t, suf);
    valid_utf8_concat(pre, t + suf);
    assert(pre + (t + suf) =~= pre + t + suf);
    let n = pre + t + suf;
    if b2 < s.len() {
        is_char_boundary_iff_not_is_continuation_byte(s, b2);
        assert(n[b1 + t.len()] == s[b2]);
        is_char_boundary_iff_not_is_continuation_byte(n, b1 + t.len());
    } else {
        is_char_boundary_start_end_of_seq(n);
        assert(b1 + t.len() == n.len());
    }
}

/// UTF-8 encoding of `c`, as executable bytes.
fn encode_char_bytes(c: char) -> (v: Vec<u8>)
    ensures
        v@ == encode_scalar(c as u32),
        1 <= v@.len() <= 4,
{
    proof {
        char_is_scalar(c);
    }
    let u = c as u32;
    let mut v: Vec<u8> = Vec::new();
    if u <= 0x7f {
        proof {
            assert((u & 0x7f) <= 0x7f) by (bit_vector);
        }
        v.push((u & 0x7f) as u8);
        proof {
            assert(v@ =~= encode_scalar(c as u32));
        }
    } else if u <= 0x7ff {
        proof {
            assert(((u >> 6) & 0x1f) <= 0x1f) by (bit_vector);
            assert((u & 0x3f) <= 0x3f) by (bit_vector);
        }
        v.push(0xc0 | ((u >> 6) & 0x1f) as u8);
        v.push(0x80 | (u & 0x3f) as u8);
        proof {
            assert(v@ =~= encode_scalar(c as u32));
        }
    } else if u <= 0xffff {
        proof {
            assert(((u >> 12) & 0x0f) <= 0x0f) by (bit_vector);
            assert(((u >> 6) & 0x3f) <= 0x3f) by (bit_vector);
            assert((u & 0x3f) <= 0x3f) by (bit_vector);
        }
        v.push(0xe0 | ((u >> 12) & 0x0f) as u8);
        v.push(0x80 | ((u >> 6) & 0x3f) as u8);
        v.push(0x80 | (u & 0x3f) as u8);
        proof {
            assert(v@ =~= encode_scalar(c as u32));
        }
    } else {
        proof {
            assert(((u >> 18) & 0x7) <= 0x7) by (bit_vector);
            assert(((u >> 12) & 0x3f) <= 0x3f) by (bit_vector);
            assert(((u >> 6) & 0x3f) <= 0x3f) by (bit_vector);
            assert((u & 0x3f) <= 0x3f) by (bit_vector);
        }
        v.push(0xf0 | ((u >> 18) & 0x7) as u8);
        v.push(0x80 | ((u >> 12) & 0x3f) as u8);
        v.push(0x80 | ((u >> 6) & 0x3f) as u8);
        v.push(0x80 | (u & 0x3f) as u8);
        proof {
            assert(v@ =~= encode_scalar(c as u32));
        }
    }
    v
}

impl Input {
    /// Insert `ch`'s UTF-8 encoding at the cursor and advance the cursor past
    /// it. In single-line mode a line feed is rejected: the field is left
    /// unchanged.
    pub fn insert_char(&mut self, ch: char)
        requires
            old(self).wf(),
            old(self).cursor_ok(),
            old(self).spec_content().len() + 4 <= usize::MAX,
        ensures
            final(self).wf(),
            final(self).cursor_ok(),
            final(self).spec_single_line() == old(self).spec_single_line(),
            old(self).spec_single_line() && ch == '\n' ==> final(self).spec_content() == old(self).spec_content() && final(self).spec_cursor() == old(self).spec_cursor(),
            !(old(self).spec_single_line() && ch == '\n') ==> final(self).spec_content() == old(self).spec_content().subrange(0, old(self).spec_cursor()) + encode_scalar(ch as u32) + old(self).spec_content().subrange(
                old(self).spec_cursor(),
                old(self).spec_content().len() as int,
            ),
            !(old(self).spec_single_line() && ch == '\n') ==> final(self).spec_cursor() == old(self).spec_cursor() + encode_scalar(ch as u32).len(),
    {
        if self.single_line && ch == '\n' {
            return;
        }
        let ghost s = self.content@;
        let ghost c0 = self.cursor as int;
        let enc = encode_char_bytes(ch);
        proof {
            lemma_encode_char(ch);
            lemma_splice_valid_utf8(s, c0, c0, enc@);
            assert(s.subrange(0, c0) + enc@.subrange(0, 0) + s.subrange(c0, s.len() as int) =~= s);
        }
        let mut k: usize = 0;
        while k < enc.len()
            invariant
                k <= enc.len(),
                1 <= enc.len() <= 4,
                self.cursor == c0,
                self.single_line == old(self).single_line,
                0 <= c0 <= s.len(),
                s.len() + 4 <= usize::MAX,
                self.content@ =~= s.subrange(0, c0) + enc@.subrange(0, k as int) + s.subrange(
                    c0,
                    s.len() as int,
                ),
            decreases enc.len() - k,
        {
            let b = enc[k];
            self.content.insert(self.cursor + k, b);
            proof {
                assert(self.content@ =~= s.subrange(0, c0) + enc@.subrange(0, k as int + 1)
                    + s.subrange(c0, s.len() as int));
            }
            k = k + 1;
        }
        self.cursor = self.cursor + enc.len();
        proof {
            assert(enc@.subrange(0, enc@.len() as int) =~= enc@);
            if self.single_line {
                let n = self.content@;
                assert forall|j: int| 0 <= j < n.len() implies n[j] != 0x0a by {
                    if j < c0 {
                        assert(n[j] == s[j]);
                    } else if j < c0 + enc@.len() {
                        assert(n[j] == enc@[j - c0]);
                    } else {
                        assert(n[j] == s[j - enc@.len()]);
                    }
                }
            }
        }
    }

    /// Delete the character before the cursor: move the cursor to the
    /// previous boundary and remove the bytes up to the old cursor. No-op at
    /// the start of the buffer.
    pub fn delete_backward(&mut self)
        requires
            old(self).wf(),
            old(self).cursor_ok(),
        ensures
            final(self).wf(),
            final(self).cursor_ok(),
            final(self).spec_single_line() == old(self).spec_single_line(),
            old(self).spec_cursor() == 0 ==> final(self).spec_content() == old(self).spec_content() && final(self).spec_cursor() == 0,
            old(self).spec_cursor() > 0 ==> final(self).spec_cursor() == prev_stop(
                old(self).spec_content(),
                old(self).spec_cursor(),
            ),
            old(self).spec_cursor() > 0 ==> final(self).spec_content() == old(self).spec_content().subrange(
                0,
                prev_stop(old(self).spec_content(), old(self).spec_cursor()),
            ) + old(self).spec_content().subrange(
                old(self).spec_cursor(),
                old(self).spec_content().len() as int,
            ),
    {
        if self.cursor == 0 {
            return;
        }
        let ghost s = self.content@;
        let ghost c0 = self.cursor as int;
        let target = self.cursor;
        self.move_left();
        let b = self.cursor;
        proof {
            lemma_prev_stop_props(s, c0);
            lemma_splice_valid_utf8(s, b as int, c0, Seq::<u8>::empty());
            assert(s.subrange(0, b as int) + Seq::<u8>::empty() + s.subrange(c0, s.len() as int)
                =~= s.subrange(0, b as int) + s.subrange(c0, s.len() as int));
            assert(s.subrange(0, b as int) + s.subrange(b as int, s.len() as int) =~= s);
        }
        let mut removed: usize = 0;
        while removed < target - b
            invariant
                b <= target <= s.len(),
                b + removed <= s.len(),
                removed <= target - b,
                self.cursor == b,
                self.single_line == old(self).single_line,
                self.content@ =~= s.subrange(0, b as int) + s.subrange(
                    b + removed,
                    s.len() as int,
                ),
            decreases target - b - removed,
        {
            self.content.remove(b);
            proof {
                assert(self.content@ =~= s.subrange(0, b as int) + s.subrange(
                    b + removed + 1,
                    s.len() as int,
                ));
            }
            removed = removed + 1;
        }
        proof {
            if self.single_line {
                let n = self.content@;
                assert forall|j: int| 0 <= j < n.len() implies n[j] != 0x0a by {
                    if j < b as int {
                        assert(n[j] == s[j]);
                    } else {
                        assert(n[j] == s[j + (c0 - b)]);
                    }
                }
            }
        }
    }

    /// Delete the character at the cursor, leaving the cursor in place.
    /// No-op at the end of the buffer.
    pub fn delete_forward(&mut self)
        requires
            old(self).wf(),
            old(self).cursor_ok(),
        ensures
            final(self).wf(),
            final(self).cursor_ok(),
            final(self).spec_single_line() == old(self).spec_single_line(),
            final(self).spec_cursor() == old(self).spec_cursor(),
            old(self).spec_cursor() >= old(self).spec_content().len() ==> final(self).spec_content() == old(self).spec_content(),
            old(self).spec_cursor() < old(self).spec_content().len() ==> final(self).spec_content() == old(self).spec_content().subrange(0, old(self).spec_cursor())
                + old(self).spec_content().subrange(
                next_stop(old(self).spec_content(), old(self).spec_cursor()),
                old(self).spec_content().len() as int,
            ),
    {
        if self.cursor >= self.content.len() {
            return;
        }
        let ghost s = self.content@;
        let ghost c0 = self.cursor as int;
        let lead = self.content[self.cursor];
        let l: usize = if lead < 0x80 {
            1
        } else if lead < 0xe0 {
            2
        } else if lead < 0xf0 {
            3
        } else {
            4
        };
        proof {
            lemma_char_len_at_boundary(s, c0);
            assert(c0 + l == next_stop(s, c0));
            lemma_next_stop_props(s, c0);
            lemma_splice_valid_utf8(s, c0, c0 + l, Seq::<u8>::empty());
            assert(s.subrange(0, c0) + Seq::<u8>::empty() + s.subrange(c0 + l, s.len() as int)
                =~= s.subrange(0, c0) + s.subrange(c0 + l, s.len() as int));
        }
        let mut removed: usize = 0;
        while removed < l
            invariant
                0 <= c0,
                c0 + l <= s.len(),
                removed <= l,
                self.cursor == c0,
                self.single_line == old(self).single_line,
                self.content@ =~= s.subrange(0, c0) + s.subrange(c0 + removed, s.len() as int),
            decreases l - removed,
        {
            self.content.remove(self.cursor);
            proof {
                assert(self.content@ =~= s.subrange(0, c0) + s.subrange(
                    c0 + removed + 1,
                    s.len() as int,
                ));
            }
            removed = removed + 1;
        }
        proof {
            if self.single_line {
                let n = self.content@;
                assert forall|j: int| 0 <= j < n.len() implies n[j] != 0x0a by {
                    if j < c0 {
                        assert(n[j] == s[j]);
                    } else {
                        assert(n[j] == s[j + l]);
                    }
                }
            }
        }
    }
}

impl Input {
    /// Whether the cursor currently rests on a character boundary. Vertical
    /// movement can leave the boundary on lines with multi-byte characters,
    /// and the character-level operations demand it back; callers outside the
    /// crate check with this.
    pub fn cursor_at_boundary(&self) -> (r: bool)
        requires
            self.wf(),
        ensures
            r == self.cursor_ok(),
    {
        if self.cursor >= self.content.len() {
            proof {
                is_char_boundary_start_end_of_seq(self.content@);
            }
            true
        } else {
            let b = self.content[self.cursor];
            proof {
                is_char_boundary_iff_not_is_continuation_byte(self.content@, self.cursor as int);
            }
            !(b >= 0x80 && b <= 0xbf)
        }
    }

    /// Move the cursor up one line, to the same byte width within the
    /// previous line, capped at that line's width; no-op on the first line.
    /// The landing offset is a raw byte position and may fall inside a
    /// multi-byte character.
    pub fn move_up(&mut self)
        requires
            old(self).wf(),
        ensures
            final(self).wf(),
            final(self).spec_content() == old(self).spec_content(),
            final(self).spec_single_line() == old(self).spec_single_line(),
            final(self).spec_cursor() == up_cursor(
                old(self).spec_content(),
                old(self).spec_cursor(),
            ),
    {
        let ghost s = self.content@;
        let ghost c0 = self.cursor as int;
        if self.cursor <= 1 {
            return;
        }
        let mut p: usize = self.cursor - 1;
        while self.content[p] != 0x0a && p > 0
            invariant
                self.content@ == s,
                self.cursor == c0,
                self.single_line == old(self).single_line,
                2 <= c0 <= s.len(),
                0 <= p <= c0 - 1,
                last_lf(s, c0) == last_lf(s, p as int + 1),
            decreases p,
        {
            p = p - 1;
        }
        if self.content[p] != 0x0a {
            proof {
                assert(p == 0);
                assert(last_lf(s, 0) == -1);
                assert(last_lf(s, c0) == -1);
            }
            return;
        }
        proof {
            assert(last_lf(s, c0) == p as int);
        }
        let width = self.cursor - p;
        if p <= 1 {
            self.cursor = p;
            return;
        }
        let mut q: usize = p - 1;
        while self.content[q] != 0x0a && q > 0
            invariant
                self.content@ == s,
                self.cursor == c0,
                self.single_line == old(self).single_line,
                2 <= p <= c0 - 1,
                c0 <= s.len(),
                0 <= q <= p - 1,
                last_lf(s, p as int) == last_lf(s, q as int + 1),
            decreases q,
        {
            q = q - 1;
        }
        let upper_width = p - q;
        let m = if upper_width < width {
            upper_width
        } else {
            width
        };
        if self.content[q] == 0x0a {
            proof {
                assert(last_lf(s, p as int) == q as int);
            }
            self.cursor = q + m;
        } else {
            proof {
                assert(q == 0);
                assert(last_lf(s, 0) == -1);
                assert(last_lf(s, p as int) == -1);
            }
            self.cursor = m - 1;
        }
    }

    /// Move the cursor down one line, to the start of the next line plus the
    /// byte distance from the current line's start, clamped to the last byte;
    /// no-op on the last line. The landing offset is a raw byte position and
    /// may fall inside a multi-byte character.
    pub fn move_down(&mut self)
        requires
            old(self).wf(),
        ensures
            final(self).wf(),
            final(self).spec_content() == old(self).spec_content(),
            final(self).spec_single_line() == old(self).spec_single_line(),
            final(self).spec_cursor() == down_cursor(
                old(self).spec_content(),
                old(self).spec_cursor(),
            ),
    {
        let ghost s = self.content@;
        let ghost c0 = self.cursor as int;
        let mut e: usize = self.cursor;
        while e < self.content.len() && self.content[e] != 0x0a
            invariant
                self.content@ == s,
                self.cursor == c0,
                self.single_line == old(self).single_line,
                0 <= c0 <= e <= s.len(),
                next_lf(s, c0) == next_lf(s, e as int),
            decreases s.len() - e,
        {
            e = e + 1;
        }
        proof {
            assert(next_lf(s, c0) == e as int);
        }
        if e >= self.content.len() {
            return;
        }
        let mut t: usize = self.cursor;
        while t > 0 && self.content[t - 1] != 0x0a
            invariant
                self.content@ == s,
                self.cursor == c0,
                self.single_line == old(self).single_line,
                0 <= t <= c0 <= s.len(),
                last_lf(s, c0) == last_lf(s, t as int),
            decreases t,
        {
            t = t - 1;
        }
        proof {
            assert(last_lf(s, c0) + 1 == t as int);
        }
        let dist = self.cursor - t;
        let len = self.content.len();
        if dist >= (len - 1) - e {
            self.cursor = len - 1;
        } else {
            self.cursor = e + 1 + dist;
        }
    }
}

/// The buffer bytes after inserting the UTF-8 encoding of `ch` at offset `c`.
pub open spec fn inserted(s: Seq<u8>, c: int, ch: char) -> Seq<u8> {
    s.subrange(0, c) + encode_scalar(ch as u32) + s.subrange(c, s.len() as int)
}

/// The buffer bytes after a tab: four spaces inserted at offset `c`.
pub open spec fn tab_inserted(s: Seq<u8>, c: int) -> Seq<u8> {
    s.subrange(0, c) + seq![0x20u8, 0x20u8, 0x20u8, 0x20u8] + s.subrange(c, s.len() as int)
}

/// What one key event does to the buffer: the new content and cursor as
/// functions of the old state. A tab becomes four spaces; a carriage return
/// becomes a line feed; a line feed is rejected in single-line mode; the
/// remaining keys edit or move exactly as the matching operation does, and
/// events the buffer does not know are ignored.
pub open spec fn put_char_post(pre: Input, post: Input, key: KeyEvent) -> bool {
    let s = pre.spec_content();
    let c = pre.spec_cursor();
    match key {
        KeyEvent::Char(ch) => {
            let cc = if ch == '\r' {
                '\n'
            } else {
                ch
            };
            if ch == '\t' {
                &&& post.spec_content() == tab_inserted(s, c)
                &&& post.spec_cursor() == c + 4
            } else if pre.spec_single_line() && cc == '\n' {
                &&& post.spec_content() == s
                &&& post.spec_cursor() == c
            } else {
                &&& post.spec_content() == inserted(s, c, cc)
                &&& post.spec_cursor() == c + encode_scalar(cc as u32).len()
            }
        },
        KeyEvent::Backspace => {
            &&& post.spec_content() == if c == 0 {
                s
            } else {
                s.subrange(0, prev_stop(s, c)) + s.subrange(c, s.len() as int)
            }
            &&& post.spec_cursor() == if c == 0 {
                0int
            } else {
                prev_stop(s, c)
            }
        },
        KeyEvent::Delete => {
            &&& post.spec_content() == if c >= s.len() {
                s
            } else {
                s.subrange(0, c) + s.subrange(next_stop(s, c), s.len() as int)
            }
            &&& post.spec_cursor() == c
        },
        KeyEvent::Left => {
            &&& post.spec_content() == s
            &&& post.spec_cursor() == if c == 0 {
                0int
            } else {
                prev_stop(s, c)
            }
        },
        KeyEvent::Right => {
            &&& post.spec_content() == s
            &&& post.spec_cursor() == if c >= s.len() {
                c
            } else {
                next_stop(s, c)
            }
        },
        KeyEvent::Up => {
            &&& post.spec_content() == s
            &&& post.spec_cursor() == up_cursor(s, c)
        },
        KeyEvent::Down => {
            &&& post.spec_content() == s
            &&& post.spec_cursor() == down_cursor(s, c)
        },
        _ => {
            &&& post.spec_content() == s
            &&& post.spec_cursor() == c
        },
    }
}

impl Input {
    /// Apply one key event to the buffer: insert, delete or move the cursor,
    /// exactly as `put_char_post` states. Viewport keys and escape are
    /// ignored here.
    pub fn put_char(&mut self, key: KeyEvent)
        requires
            old(self).wf(),
            old(self).spec_content().len() + 8 <= usize::MAX,
            key.edits_at_cursor() ==> old(self).cursor_ok(),
        ensures
            final(self).wf(),
            final(self).spec_single_line() == old(self).spec_single_line(),
            key.edits_at_cursor() ==> final(self).cursor_ok(),
            put_char_post(*old(self), *final(self), key),
    {
        match key {
            KeyEvent::Char(ch) => {
                let ghost s = self.spec_content();
                let ghost c = self.spec_cursor();
                if ch == '\t' {
                    proof {
                        assert((0x20u32 & 0x7f) as u8 == 0x20u8) by (bit_vector);
                        assert(encode_scalar(' ' as u32) =~= seq![0x20u8]);
                    }
                    self.insert_char(' ');
                    proof {
                        assert(self.spec_content() =~= s.subrange(0, c) + seq![0x20u8]
                            + s.subrange(c, s.len() as int));
                    }
                    self.insert_char(' ');
                    proof {
                        assert(self.spec_content() =~= s.subrange(0, c) + seq![0x20u8, 0x20u8]
                            + s.subrange(c, s.len() as int));
                    }
                    self.insert_char(' ');
                    proof {
                        assert(self.spec_content() =~= s.subrange(0, c) + seq![
                            0x20u8,
                            0x20u8,
                            0x20u8,
                        ] + s.subrange(c, s.len() as int));
                    }
                    self.insert_char(' ');
                    proof {
                        assert(self.spec_content() =~= tab_inserted(s, c));
                    }
                } else if ch == '\r' {
                    self.insert_char('\n');
                } else {
                    self.insert_char(ch);
                }
            },
            KeyEvent::Backspace => {
                self.delete_backward();
            },
            KeyEvent::Delete => {
                self.delete_forward();
            },
            KeyEvent::Left => {
                self.move_left();
            },
            KeyEvent::Right => {
                self.move_right();
            },
            KeyEvent::Up => {
                self.move_up();
            },
            KeyEvent::Down => {
                self.move_down();
            },
            _ => {},
        }
    }
}

/// Law: from any character boundary except the start of the buffer, moving
/// left and then right returns the cursor to where it was. `move_left` lands
/// on `prev_stop` and `move_right` from there lands on `next_stop` of it.
pub proof fn lemma_left_then_right(s: Seq<u8>, c: int)
    requires
        valid_utf8(s),
        is_char_boundary(s, c),
        0 < c <= s.len(),
    ensures
        0 <= prev_stop(s, c) < s.len(),
        is_char_boundary(s, prev_stop(s, c)),
        next_stop(s, prev_stop(s, c)) == c,
{
    lemma_prev_stop_props(s, c);
    let b = prev_stop(s, c);
    lemma_next_stop_props(s, b);
    if c < s.len() {
        is_char_boundary_iff_not_is_continuation_byte(s, c);
    }
    let ns = next_stop(s, b);
    if ns < c {
        assert(is_continuation_byte(s[ns]));
        assert(false);
    }
    if ns > c {
        assert(is_continuation_byte(s[c]));
        assert(false);
    }
    if b > 0 {
        is_char_boundary_iff_not_is_continuation_byte(s, b);
    } else {
        assert(is_char_boundary(s, 0));
    }
}

/// Law: from any character boundary except the end of the buffer, moving
/// right and then left returns the cursor to where it was. `move_right`
/// lands on `next_stop` and `move_left` from there lands on `prev_stop` of
/// it.
pub proof fn lemma_right_then_left(s: Seq<u8>, c: int)
    requires
        valid_utf8(s),
        is_char_boundary(s, c),
        0 <= c < s.len(),
    ensures
        0 < next_stop(s, c) <= s.len(),
        is_char_boundary(s, next_stop(s, c)),
        prev_stop(s, next_stop(s, c)) == c,
{
    lemma_next_stop_props(s, c);
    let d = next_stop(s, c);
    lemma_prev_stop_props(s, d);
    is_char_boundary_iff_not_is_continuation_byte(s, c);
    let p = prev_stop(s, d);
    if p < c {
        assert(is_continuation_byte(s[c]));
        assert(false);
    }
    if p > c {
        assert(is_continuation_byte(s[p]));
        assert(!is_continuation_byte(s[p]));
        assert(false);
    }
    if d < s.len() {
        is_char_boundary_iff_not_is_continuation_byte(s, d);
    } else {
        is_char_boundary_start_end_of_seq(s);
    }
}

/// At a character boundary strictly inside valid UTF-8, the width read off
/// the leading byte is the scalar's length, the bytes after it up to the next
/// stop are continuation bytes, and the next stop is the next boundary.
pub proof fn lemma_char_len_at_boundary(s: Seq<u8>, c: int)
    requires
        valid_utf8(s),
        is_char_boundary(s, c),
        0 <= c < s.len(),
    ensures
        next_stop(s, c) == c + length_of_first_scalar(s.subrange(c, s.len() as int)),
        c + length_of_first_scalar(s.subrange(c, s.len() as int)) <= s.len(),
        is_char_boundary(s, c + length_of_first_scalar(s.subrange(c, s.len() as int))),
        s[c] < 0x80 ==> length_of_first_scalar(s.subrange(c, s.len() as int)) == 1,
        0xc0 <= s[c] < 0xe0 ==> length_of_first_scalar(s.subrange(c, s.len() as int)) == 2,
        0xe0 <= s[c] < 0xf0 ==> length_of_first_scalar(s.subrange(c, s.len() as int)) == 3,
        0xf0 <= s[c] ==> length_of_first_scalar(s.subrange(c, s.len() as int)) == 4,
        0x80 <= s[c] < 0xc0 ==> false,
        s[c] >= 0xf8 ==> false,
{
    valid_utf8_split(s, c);
    let suf = s.subrange(c, s.len() as int);
    assert(valid_utf8(suf));
    assert(suf.len() > 0);
    assert(valid_first_scalar(suf));
    let l = length_of_first_scalar(suf);
    assert(1 <= l <= 4 && l <= suf.len());
    assert(forall|j: int| 0 < j < l ==> is_continuation_byte(suf[j]));
    let rest = suf.subrange(l, suf.len() as int);
    assert(valid_utf8(rest)) by {
        assert(rest =~= vstd::utf8::pop_first_scalar(suf));
    }
    if c + l < s.len() {
        assert(rest.len() > 0);
        assert(valid_first_scalar(rest));
        assert(!is_continuation_byte(rest[0]));
        assert(rest[0] == s[c + l]);
        lemma_next_stop_props(s, c);
        assert forall|j: int| c < j < c + l implies is_continuation_byte(s[j]) by {
            assert(s[j] == suf[j - c]);
        }
        assert(next_stop(s, c) == c + l) by {
            let ns = next_stop(s, c);
            if ns < c + l {
                assert(is_continuation_byte(s[ns]));
            } else if ns > c + l {
                assert(is_continuation_byte(s[c + l]));
            }
        }
        is_char_boundary_iff_not_is_continuation_byte(s, c + l);
    } else {
        assert(c + l == s.len());
        lemma_next_stop_props(s, c);
        assert forall|j: int| c < j < c + l implies is_continuation_byte(s[j]) by {
            assert(s[j] == suf[j - c]);
        }
        assert(next_stop(s, c) == c + l) by {
            let ns = next_stop(s, c);
            if ns < c + l {
                assert(is_continuation_byte(s[ns]));
            }
        }
        is_char_boundary_start_end_of_seq(s);
    }
}

} // verus!
