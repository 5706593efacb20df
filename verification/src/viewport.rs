//! The viewport: the index of the first visible logical line.

use vstd::prelude::*;

verus! {

/// `v` clamped to stay below `total`: the scroll offset never moves past the
/// last line.
pub open spec fn clamped(v: int, total: int) -> int {
    if v < total {
        v
    } else {
        total - 1
    }
}

/// Scroll state of a multi-line field: the first visible line.
pub struct Viewport {
    scroll: usize,
}

impl Viewport {
    /// The first visible line index.
    pub closed spec fn spec_scroll(&self) -> int {
        self.scroll as int
    }

    pub fn new() -> (v: Viewport)
        ensures
            v.spec_scroll() == 0,
    {
        Viewport { scroll: 0 }
    }

    pub fn scroll(&self) -> (r: usize)
        ensures
            r == self.spec_scroll(),
    {
        self.scroll
    }

    /// Scroll down one line; refused when it would make the last line the
    /// top line (or scroll past it). Despite the name this moves by a single
    /// line.
    pub fn page_down(&mut self, total_lines: usize)
        requires
            total_lines >= 1,
        ensures
            final(self).spec_scroll() == if old(self).spec_scroll() + 1 >= total_lines {
                old(self).spec_scroll()
            } else {
                old(self).spec_scroll() + 1
            },
    {
        if self.scroll >= total_lines - 1 {
            return;
        }
        self.scroll = self.scroll + 1;
    }

    /// Scroll up one line; no-op at the top.
    pub fn page_up(&mut self)
        ensures
            final(self).spec_scroll() == if old(self).spec_scroll() == 0 {
                0int
            } else {
                old(self).spec_scroll() - 1
            },
    {
        if self.scroll > 0 {
            self.scroll = self.scroll - 1;
        }
    }

    /// Jump to the first line.
    pub fn home(&mut self)
        ensures
            final(self).spec_scroll() == 0,
    {
        self.scroll = 0;
    }

    /// Jump so the last line is the top line.
    pub fn end(&mut self, total_lines: usize)
        requires
            total_lines >= 1,
        ensures
            final(self).spec_scroll() == total_lines - 1,
    {
        self.scroll = total_lines - 1;
    }

    /// Re-establish `scroll < total_lines` after an edit changed the line
    /// count.
    pub fn clamp(&mut self, total_lines: usize)
        requires
            total_lines >= 1,
        ensures
            final(self).spec_scroll() == clamped(old(self).spec_scroll(), total_lines as int),
    {
        if self.scroll >= total_lines {
            self.scroll = total_lines - 1;
        }
    }
}

} // verus!
