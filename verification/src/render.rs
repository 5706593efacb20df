//! The line renderer: a pure transform from buffer state, focus and wall
//! clock to styled display lines with an embedded cursor cell.
//!
//! The content splits into logical lines on line feeds (a trailing line feed
//! shows as a blank final line). In multi-line mode every row carries a
//! dimmed gutter label: the 1-based line number zero-padded to the digit
//! count of the line-feed total. The single character at the cursor becomes
//! its own span whose style follows the blink phase of the wall clock; at a
//! line end the cursor cell is the line-break glyph (U+21B5) or, at the end
//! of the buffer, a space.

use vstd::prelude::*;
use vstd::utf8::{valid_utf8, is_char_boundary, is_continuation_byte};
use crate::input_field::{next_stop, lemma_next_stop_props, lemma_char_len_at_boundary};
use crate::text::{
    count_lf, next_lf, lemma_next_lf_props, lemma_count_lf_step, lemma_count_lf_bounds,
    lemma_count_lf_split, lemma_no_lf_count, count_line_feeds,
};

verus! {

/// How one rendered span is styled.
#[derive(Clone, Copy, PartialEq, Eq, Structural, Debug)]
pub enum SpanStyle {
    /// Ordinary text.
    Plain,
    /// The dimmed line-number gutter.
    Dim,
    /// The single cursor cell; `inverted` follows the blink phase.
    Cursor { inverted: bool },
}

/// One styled run of bytes within a display line.
pub struct Span {
    pub text: Vec<u8>,
    pub style: SpanStyle,
}

/// Spec-level value of a span.
#[verifier::ext_equal]
pub struct SpanModel {
    pub text: Seq<u8>,
    pub style: SpanStyle,
}

impl View for Span {
    type V = SpanModel;

    open spec fn view(&self) -> SpanModel {
        SpanModel { text: self.text@, style: self.style }
    }
}

/// One rendered row: gutter, text and cursor-cell spans, in order.
pub struct DisplayLine {
    pub spans: Vec<Span>,
}

impl View for DisplayLine {
    type V = Seq<SpanModel>;

    open spec fn view(&self) -> Seq<SpanModel> {
        Seq::new(self.spans@.len(), |i: int| self.spans@[i]@)
    }
}

/// The views of all display lines in `r`.
pub open spec fn lines_view(r: Seq<DisplayLine>) -> Seq<Seq<SpanModel>> {
    Seq::new(r.len(), |i: int| r[i]@)
}

/// Number of decimal digits of `n`; zero for zero.
pub open spec fn num_digits(n: int) -> int
    decreases n,
{
    if n <= 0 {
        0
    } else {
        1 + num_digits(n / 10)
    }
}

/// ASCII decimal digits of `n`, most significant first.
pub open spec fn dec_rep(n: int) -> Seq<u8>
    recommends
        n >= 0,
    decreases n,
{
    if n < 10 {
        seq![(0x30 + n) as u8]
    } else {
        dec_rep(n / 10).push((0x30 + n % 10) as u8)
    }
}

/// `rep` left-padded with ASCII zeros to width `w`.
pub open spec fn zero_pad(rep: Seq<u8>, w: int) -> Seq<u8> {
    if rep.len() >= w {
        rep
    } else {
        Seq::new((w - rep.len()) as nat, |i: int| 0x30u8) + rep
    }
}

/// The gutter label of the 1-based line number `cur`: the number zero-padded
/// to the digit count of `total` (the line-feed count), then two spaces.
pub open spec fn gutter_text(cur: int, total: int) -> Seq<u8> {
    zero_pad(dec_rep(cur), num_digits(total)) + seq![0x20u8, 0x20u8]
}

/// The cursor cell is drawn inverted during the second half of each
/// wall-clock second, only while focused and never in single-line mode.
pub open spec fn blink_inverted(millis: u64, focused: bool, single_line: bool) -> bool {
    focused && !single_line && millis as int % 1000 >= 500
}

/// Start offset of line `i` (0-based): one past the `i`-th line feed.
pub open spec fn line_start(s: Seq<u8>, i: int) -> int
    decreases i,
{
    if i <= 0 {
        0
    } else {
        next_lf(s, line_start(s, i - 1)) + 1
    }
}

/// The gutter span of line `i` of `s`; present in multi-line mode only.
pub open spec fn gutter_spans(s: Seq<u8>, i: int, multi: bool) -> Seq<SpanModel> {
    if multi {
        seq![SpanModel { text: gutter_text(i + 1, count_lf(s)), style: SpanStyle::Dim }]
    } else {
        Seq::<SpanModel>::empty()
    }
}

/// The cursor cell at a line end: the line-break glyph when the cursor sits
/// on a line feed, else a single space.
pub open spec fn end_cursor_span(s: Seq<u8>, c: int, inv: bool) -> SpanModel {
    SpanModel {
        text: if 0 <= c < s.len() && s[c] == 0x0a {
            seq![0xe2u8, 0x86u8, 0xb5u8]
        } else {
            seq![0x20u8]
        },
        style: SpanStyle::Cursor { inverted: inv },
    }
}

/// Display line `i` of non-empty content: the optional gutter, then the
/// line's text, split around the cursor cell when the cursor is on this line.
pub open spec fn spec_display_line(s: Seq<u8>, c: int, i: int, multi: bool, inv: bool) -> Seq<
    SpanModel,
> {
    let st = line_start(s, i);
    let en = next_lf(s, st);
    let g = gutter_spans(s, i, multi);
    if st <= c < en {
        let ns = next_stop(s, c);
        g + seq![
            SpanModel { text: s.subrange(st, c), style: SpanStyle::Plain },
            SpanModel { text: s.subrange(c, ns), style: SpanStyle::Cursor { inverted: inv } },
            SpanModel { text: s.subrange(ns, en), style: SpanStyle::Plain },
        ]
    } else if c == en {
        g + seq![
            SpanModel { text: s.subrange(st, en), style: SpanStyle::Plain },
            end_cursor_span(s, c, inv),
        ]
    } else {
        g + seq![SpanModel { text: s.subrange(st, en), style: SpanStyle::Plain }]
    }
}

/// All display lines: one per logical line of `s`; empty content renders as
/// a single line holding just the cursor cell.
pub open spec fn spec_render(s: Seq<u8>, c: int, multi: bool, inv: bool) -> Seq<Seq<SpanModel>> {
    if s.len() == 0 {
        seq![
            gutter_spans(s, 0, multi) + seq![
                SpanModel { text: seq![0x20u8], style: SpanStyle::Cursor { inverted: inv } },
            ],
        ]
    } else {
        Seq::new((count_lf(s) + 1) as nat, |i: int| spec_display_line(s, c, i, multi, inv))
    }
}

/// Copy of the bytes `v[a..b]`.
fn copy_range(v: &Vec<u8>, a: usize, b: usize) -> (r: Vec<u8>)
    requires
        a <= b <= v@.len(),
    ensures
        r@ == v@.subrange(a as int, b as int),
{
    let mut r: Vec<u8> = Vec::new();
    let mut j: usize = a;
    proof {
        assert(r@ =~= v@.subrange(a as int, a as int));
    }
    while j < b
        invariant
            a <= j <= b <= v@.len(),
            r@ == v@.subrange(a as int, j as int),
        decreases b - j,
    {
        r.push(v[j]);
        proof {
            assert(v@.subrange(a as int, j as int).push(v@[j as int]) =~= v@.subrange(
                a as int,
                j as int + 1,
            ));
        }
        j = j + 1;
    }
    r
}

pub proof fn lemma_num_digits_bounds(n: int)
    ensures
        0 <= num_digits(n) <= if n >= 0 {
            n
        } else {
            0
        },
    decreases n,
{
    if n > 0 {
        lemma_num_digits_bounds(n / 10);
    }
}

/// The gutter label bytes for the 1-based line number `cur` under the
/// line-feed count `total`.
pub fn gutter_label(cur: usize, total: usize) -> (r: Vec<u8>)
    ensures
        r@ == gutter_text(cur as int, total as int),
{
    proof {
        lemma_num_digits_bounds(total as int);
    }
    let mut w: usize = 0;
    let mut n: usize = total;
    while n > 0
        invariant
            num_digits(total as int) == w + num_digits(n as int),
            0 <= num_digits(n as int),
            w <= num_digits(total as int) <= total,
            n <= total,
        decreases n,
    {
        proof {
            lemma_num_digits_bounds((n / 10) as int);
        }
        n = n / 10;
        w = w + 1;
    }
    let mut digits: Vec<u8> = Vec::new();
    let mut m: usize = cur;
    digits.push((0x30 + m % 10) as u8);
    proof {
        assert(digits@ =~= seq![(0x30 + (cur as int) % 10) as u8]);
        if cur < 10 {
            assert((cur as int) % 10 == cur as int);
            assert(digits@ == dec_rep(cur as int));
        } else {
            assert(dec_rep(cur as int) == dec_rep((cur as int) / 10).push(
                (0x30 + (cur as int) % 10) as u8,
            ));
            assert(dec_rep(cur as int) =~= dec_rep((cur as int) / 10) + digits@);
        }
    }
    m = m / 10;
    while m > 0
        invariant
            digits@.len() >= 1,
            m > 0 ==> dec_rep(cur as int) == dec_rep(m as int) + digits@,
            m == 0 ==> dec_rep(cur as int) == digits@,
        decreases m,
    {
        let ghost pre = digits@;
        let d: u8 = (0x30 + m % 10) as u8;
        digits.insert(0, d);
        proof {
            assert(digits@ =~= seq![d] + pre);
            if m >= 10 {
                assert(dec_rep(m as int) == dec_rep((m as int) / 10).push(d));
                assert(dec_rep(m as int) =~= dec_rep((m as int) / 10) + seq![d]);
                assert(dec_rep((m as int) / 10) + seq![d] + pre =~= dec_rep((m as int) / 10) + (
                seq![d] + pre));
            } else {
                assert((m as int) % 10 == m as int);
                assert(dec_rep(m as int) =~= seq![d]);
            }
        }
        m = m / 10;
    }
    let mut label: Vec<u8> = Vec::new();
    let mut k: usize = digits.len();
    proof {
        assert(label@ =~= Seq::new((k - digits@.len()) as nat, |i: int| 0x30u8));
    }
    while k < w
        invariant
            k >= digits@.len(),
            k <= w || k == digits@.len(),
            digits@ == dec_rep(cur as int),
            label@ =~= Seq::new((k - digits@.len()) as nat, |i: int| 0x30u8),
        decreases w - k,
    {
        label.push(0x30);
        proof {
            assert(label@ =~= Seq::new((k + 1 - digits@.len()) as nat, |i: int| 0x30u8));
        }
        k = k + 1;
    }
    proof {
        let rep = dec_rep(cur as int);
        let nd = num_digits(total as int);
        assert(w == nd);
        if rep.len() >= w {
            assert(label@ + rep =~= zero_pad(rep, nd));
        } else {
            assert(k == w);
            assert(label@ + rep =~= zero_pad(rep, nd));
        }
    }
    let ghost pad = label@;
    let mut rest = digits;
    label.append(&mut rest);
    proof {
        assert(label@ == pad + dec_rep(cur as int));
    }
    label.push(0x20);
    label.push(0x20);
    proof {
        assert(label@ =~= (pad + dec_rep(cur as int)) + seq![0x20u8, 0x20u8]);
        assert(label@ =~= gutter_text(cur as int, total as int));
    }
    label
}

/// Render the buffer into styled display lines: the pure transform of
/// content, cursor, mode, focus and wall clock that `spec_render` states.
pub fn render_text(content: &Vec<u8>, cursor: usize, single_line: bool, focused: bool, millis: u64) -> (r: Vec<DisplayLine>)
    requires
        valid_utf8(content@),
        cursor as int <= content@.len(),
        is_char_boundary(content@, cursor as int),
        content@.len() < usize::MAX,
    ensures
        lines_view(r@) == spec_render(
            content@,
            cursor as int,
            !single_line,
            blink_inverted(millis, focused, single_line),
        ),
        r@.len() >= 1,
{
    let ghost s = content@;
    let ghost c = cursor as int;
    let inv = focused && !single_line && millis % 1000 >= 500;
    let multi = !single_line;
    let total = count_line_feeds(content);
    proof {
        lemma_count_lf_bounds(s);
    }
    let mut out: Vec<DisplayLine> = Vec::new();
    if content.len() == 0 {
        let mut spans: Vec<Span> = Vec::new();
        if multi {
            let g = gutter_label(1, total);
            spans.push(Span { text: g, style: SpanStyle::Dim });
        }
        let mut cell: Vec<u8> = Vec::new();
        cell.push(0x20);
        spans.push(Span { text: cell, style: SpanStyle::Cursor { inverted: inv } });
        let line = DisplayLine { spans };
        proof {
            assert(line@ =~~= gutter_spans(s, 0, multi) + seq![
                SpanModel { text: seq![0x20u8], style: SpanStyle::Cursor { inverted: inv } },
            ]);
        }
        out.push(line);
        proof {
            assert(lines_view(out@) =~~= spec_render(s, c, multi, blink_inverted(
                millis,
                focused,
                single_line,
            )));
        }
        return out;
    }
    let mut offset: usize = 0;
    let mut lineno: usize = 1;
    let mut done: bool = false;
    let ghost mut i: int = 0;
    proof {
        assert(s.subrange(0, 0) =~= Seq::<u8>::empty());
    }
    while !done
        invariant
            s == content@,
            c == cursor as int,
            valid_utf8(s),
            is_char_boundary(s, c),
            0 <= c <= s.len(),
            0 < s.len() < usize::MAX,
            total == count_lf(s),
            multi == !single_line,
            inv == blink_inverted(millis, focused, single_line),
            forall|j: int|
                0 <= j < out@.len() ==> #[trigger] out@[j]@ =~~= spec_display_line(
                    s,
                    c,
                    j,
                    multi,
                    inv,
                ),
            !done ==> {
                &&& out@.len() == i
                &&& 0 <= i <= count_lf(s)
                &&& lineno == i + 1
                &&& 0 <= offset <= s.len()
                &&& offset == line_start(s, i)
                &&& count_lf(s.subrange(0, offset as int)) == i
            },
            done ==> out@.len() == count_lf(s) + 1,
        decreases 2 * (s.len() - offset) + if done {
            0int
        } else {
            1int
        },
    {
        let ghost offset0 = offset;
        let mut e: usize = offset;
        while e < content.len() && content[e] != 0x0a
            invariant
                s == content@,
                offset <= e <= s.len(),
                next_lf(s, offset as int) == next_lf(s, e as int),
            decreases s.len() - e,
        {
            e = e + 1;
        }
        proof {
            assert(next_lf(s, offset as int) == e as int);
            lemma_next_lf_props(s, offset as int);
        }
        let mut spans: Vec<Span> = Vec::new();
        if multi {
            let g = gutter_label(lineno, total);
            spans.push(Span { text: g, style: SpanStyle::Dim });
        }
        let ghost gn: int = if multi {
            1int
        } else {
            0int
        };
        if offset <= cursor && cursor < e {
            let lead = content[cursor];
            let l: usize = if lead < 0x80 {
                1
            } else if lead < 0xe0 {
                2
            } else if lead < 0xf0 {
                3
            } else {
                4
            };
            proof {
                lemma_char_len_at_boundary(s, c);
                lemma_next_stop_props(s, c);
                assert(next_stop(s, c) == c + l);
                assert(c + l <= e as int) by {
                    if c + l > e as int {
                        assert(is_continuation_byte(s[e as int]));
                    }
                }
            }
            let ns = cursor + l;
            spans.push(Span { text: copy_range(content, offset, cursor), style: SpanStyle::Plain });
            spans.push(
                Span { text: copy_range(content, cursor, ns), style: SpanStyle::Cursor { inverted: inv } },
            );
            spans.push(Span { text: copy_range(content, ns, e), style: SpanStyle::Plain });
        } else if cursor == e {
            spans.push(Span { text: copy_range(content, offset, e), style: SpanStyle::Plain });
            let cell: Vec<u8> = if e < content.len() {
                vec![0xe2, 0x86, 0xb5]
            } else {
                vec![0x20]
            };
            spans.push(Span { text: cell, style: SpanStyle::Cursor { inverted: inv } });
        } else {
            spans.push(Span { text: copy_range(content, offset, e), style: SpanStyle::Plain });
        }
        let line = DisplayLine { spans };
        proof {
            assert(line@ =~~= spec_display_line(s, c, i, multi, inv));
        }
        out.push(line);
        if e >= content.len() {
            proof {
                lemma_no_lf_count(s, offset as int, s.len() as int);
                assert(s.subrange(0, s.len() as int) =~= s);
                assert(count_lf(s) == i);
            }
            done = true;
        } else {
            proof {
                lemma_no_lf_count(s, offset as int, e as int);
                lemma_count_lf_step(s, e as int);
                lemma_count_lf_split(s, e as int + 1);
                lemma_count_lf_bounds(s.subrange(e as int + 1, s.len() as int));
                lemma_count_lf_bounds(s);
                i = i + 1;
                assert(line_start(s, i) == e + 1);
            }
            offset = e + 1;
            lineno = lineno + 1;
        }
    }
    proof {
        assert(lines_view(out@) =~~= spec_render(s, c, multi, blink_inverted(
            millis,
            focused,
            single_line,
        )));
    }
    out
}

impl crate::input_field::Input {
    /// The rendered display lines of this field at the given wall-clock
    /// time; a bare field always counts as focused.
    pub fn get_element(&self, millis: u64) -> (r: Vec<DisplayLine>)
        requires
            self.wf(),
            self.cursor_ok(),
            self.spec_content().len() < usize::MAX,
        ensures
            lines_view(r@) == spec_render(
                self.spec_content(),
                self.spec_cursor(),
                !self.spec_single_line(),
                blink_inverted(millis, true, self.spec_single_line()),
            ),
            r@.len() >= 1,
    {
        render_text(self.get_content(), self.cursor(), self.is_single_line(), true, millis)
    }
}

impl crate::editing_widget::EditingWidget {
    /// The rendered display lines of the widget at the given wall-clock time.
    pub fn get_text(&self, millis: u64) -> (r: Vec<DisplayLine>)
        requires
            self.wf(),
            self.cursor_ok(),
            self.spec_content().len() < usize::MAX,
        ensures
            lines_view(r@) == spec_render(
                self.spec_content(),
                self.spec_cursor(),
                !self.spec_single_line(),
                blink_inverted(millis, self.spec_focused(), self.spec_single_line()),
            ),
            r@.len() >= 1,
    {
        render_text(
            self.get_content(),
            self.cursor(),
            self.is_single_line(),
            self.get_focused(),
            millis,
        )
    }
}

} // verus!
