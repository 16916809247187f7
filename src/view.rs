//! The viewport: a window of `height` lines and `width` columns over the
//! buffer, with a cursor inside it. Edits are made at the cursor, and every
//! move scrolls the window by the least amount that keeps the cursor inside.

use vstd::prelude::*;
use vstd::view::View as _;
use crate::buffer::{deleted, inserted, joined_text, line_deleted, split_at, Buffer};

verus! {

/// `v` clamped to `[lo, hi]`.
pub open spec fn clamp(v: int, lo: int, hi: int) -> int {
    if v < lo {
        lo
    } else if v > hi {
        hi
    } else {
        v
    }
}

/// Along one axis, the new window start and the cursor's offset in the window
/// once the window `[start, start + size)` has moved the least to hold `target`.
pub open spec fn scroll_axis(start: int, size: int, target: int) -> (int, int) {
    if target < start {
        (target, 0)
    } else if target >= start + size {
        (target - size + 1, size - 1)
    } else {
        (start, target - start)
    }
}

/// The part of line `start_line + i` of `t` that the window shows: from column
/// `start_col`, at most `width` characters; empty when there is no such line
/// or it ends before `start_col`.
pub open spec fn visible(t: Seq<Seq<char>>, start_line: int, start_col: int, width: int, i: int) -> Seq<char> {
    let y = start_line + i;
    if y >= t.len() || start_col >= t[y].len() {
        Seq::empty()
    } else if start_col + width < t[y].len() {
        t[y].subrange(start_col, start_col + width)
    } else {
        t[y].subrange(start_col, t[y].len() as int)
    }
}

/// The window over the buffer.
pub struct View {
    /// The text shown.
    pub buffer: Buffer,
    /// Buffer line shown on the window's first row.
    pub start_line: usize,
    /// Buffer column shown in the window's first column.
    pub start_col: usize,
    /// Number of rows.
    pub height: usize,
    /// Number of columns.
    pub width: usize,
    /// Cursor position in window coordinates: (column, row).
    pub cursor: (usize, usize),
}

/// Where the window and the cursor stand once the window `(start_line,
/// start_col)` of `height` rows and `width` columns, with the cursor at
/// `(cx, cy)`, has moved the cursor by `(dx, dy)` over the text `t`: the target
/// row is clamped to the lines of `t`, the target column to the length of the
/// target row; then each axis scrolls by the least amount that keeps the
/// target inside the window. The result is `(start_line, start_col, cx, cy,
/// scrolled)`, where `scrolled` tells whether the window moved. With no rows
/// or no columns the window stays and the cursor is pinned at `(0, 0)`.
pub open spec fn nav(
    start_line: int,
    start_col: int,
    cx: int,
    cy: int,
    height: int,
    width: int,
    t: Seq<Seq<char>>,
    dx: int,
    dy: int,
) -> (int, int, int, int, bool) {
    if height == 0 || width == 0 {
        (start_line, start_col, 0, 0, false)
    } else {
        let ty = clamp(start_line + cy + dy, 0, t.len() - 1);
        let tx = clamp(start_col + cx + dx, 0, t[ty].len() as int);
        let (sl, ny) = scroll_axis(start_line, height, ty);
        let (sc, nx) = scroll_axis(start_col, width, tx);
        (sl, sc, nx, ny, sl != start_line || sc != start_col)
    }
}

/// `after` is where `nav` puts the window and the cursor, and `scrolled` is its verdict.
pub open spec fn moved_from(
    start_line: int,
    start_col: int,
    cx: int,
    cy: int,
    height: int,
    width: int,
    t: Seq<Seq<char>>,
    dx: int,
    dy: int,
    after: View,
    scrolled: bool,
) -> bool {
    let n = nav(start_line, start_col, cx, cy, height, width, t, dx, dy);
    &&& after.start_line == n.0
    &&& after.start_col == n.1
    &&& after.cursor.0 == n.2
    &&& after.cursor.1 == n.3
    &&& scrolled == n.4
}

/// `after` is `before` with the cursor moved by `(dx, dy)` over the text `t`,
/// as `moved_from` says; the size of the window stays.
pub open spec fn moved(before: View, t: Seq<Seq<char>>, dx: int, dy: int, after: View, scrolled: bool) -> bool {
    &&& after.height == before.height
    &&& after.width == before.width
    &&& moved_from(
        before.start_line as int,
        before.start_col as int,
        before.cursor.0 as int,
        before.cursor.1 as int,
        before.height as int,
        before.width as int,
        t,
        dx,
        dy,
        after,
        scrolled,
    )
}

/// The largest first line that a window of `height` rows over `len` lines needs.
pub open spec fn max_start(len: int, height: int) -> int {
    if len > height {
        len - height
    } else {
        0
    }
}

/// How far back the cursor goes on a backspace at `(x, y)` of `t`: one column,
/// or, at the start of a line, up one line and across the former length of
/// the line above.
pub open spec fn backspace_step(t: Seq<Seq<char>>, x: int, y: int) -> (int, int) {
    if x > 0 {
        (-1, 0)
    } else if 0 < y <= t.len() {
        (t[y - 1].len() as int, -1)
    } else {
        (0, -1)
    }
}

/// `v` clamped to `[lo, hi]`.
fn clamp_wide(v: i128, lo: i128, hi: i128) -> (r: i128)
    requires
        lo <= hi,
    ensures
        r == clamp(v as int, lo as int, hi as int),
{
    if v < lo {
        lo
    } else if v > hi {
        hi
    } else {
        v
    }
}

/// The least move of the window `[start, start + size)` that holds `target`.
fn scroll(start: usize, size: usize, target: usize) -> (r: (usize, usize))
    requires
        size > 0,
    ensures
        r.0 == scroll_axis(start as int, size as int, target as int).0,
        r.1 == scroll_axis(start as int, size as int, target as int).1,
{
    if target < start {
        (target, 0)
    } else if target - start >= size {
        (target - size + 1, size - 1)
    } else {
        (start, target - start)
    }
}

impl View {
    /// The text of the buffer.
    pub open spec fn text(&self) -> Seq<Seq<char>> {
        self.buffer@
    }

    /// The extension whose highlighter colors the buffer, if any.
    pub open spec fn syntax(&self) -> Option<Seq<char>> {
        self.buffer.syntax()
    }

    /// The buffer keeps its own invariant.
    pub open spec fn buffer_wf(&self) -> bool {
        self.buffer.wf()
    }

    /// The cursor lies inside the window; with no rows or no columns it sits at `(0, 0)`.
    pub open spec fn frame_ok(&self) -> bool {
        if self.height == 0 || self.width == 0 {
            self.cursor == (0usize, 0usize)
        } else {
            self.cursor.0 < self.width && self.cursor.1 < self.height
        }
    }

    /// Absolute column of the cursor.
    pub open spec fn abs_x(&self) -> int {
        self.start_col + self.cursor.0
    }

    /// Absolute line of the cursor.
    pub open spec fn abs_y(&self) -> int {
        self.start_line + self.cursor.1
    }

    /// The cursor points at an existing line, at most one column past its end.
    pub open spec fn pos_ok(&self) -> bool {
        self.height > 0 && self.width > 0 ==> {
            &&& self.abs_y() < self.text().len()
            &&& self.abs_x() <= self.text()[self.abs_y()].len()
        }
    }

    /// The view's invariant.
    pub open spec fn wf(&self) -> bool {
        &&& self.buffer_wf()
        &&& self.frame_ok()
        &&& self.pos_ok()
    }

    /// A view of `buffer` with the given size, at the top left, cursor at `(0, 0)`.
    pub fn new(buffer: Buffer, height: usize, width: usize) -> (r: Self)
        requires
            buffer.wf(),
        ensures
            r.wf(),
            r.text() == buffer@,
            r.syntax() == buffer.syntax(),
            r.start_line == 0 && r.start_col == 0 && r.cursor == (0usize, 0usize),
            r.height == height && r.width == width,
    {
        proof {
            buffer.lemma_lines_ok();
        }
        View { buffer, start_line: 0, start_col: 0, height, width, cursor: (0, 0) }
    }

    /// Number of lines of the buffer.
    pub fn len(&self) -> (r: usize)
        requires
            self.buffer_wf(),
        ensures
            r == self.text().len(),
    {
        self.buffer.len()
    }

    /// Move the cursor by `(dx, dy)`, as `moved_from` says, keeping the size.
    fn shift(&mut self, dx: i128, dy: i128) -> (r: bool)
        requires
            old(self).buffer_wf(),
            -0x1_0000_0000_0000_0000 <= dx <= 0x1_0000_0000_0000_0000,
            -0x1_0000_0000_0000_0000 <= dy <= 0x1_0000_0000_0000_0000,
        ensures
            final(self).wf(),
            final(self).buffer == old(self).buffer,
            moved(*old(self), old(self).text(), dx as int, dy as int, *final(self), r),
    {
        proof {
            self.buffer.lemma_lines_ok();
        }
        if self.height == 0 || self.width == 0 {
            self.cursor = (0, 0);
            return false;
        }
        let ghost t = self.text();
        let len = self.buffer.len();
        let ay = self.start_line as i128 + self.cursor.1 as i128 + dy;
        let ty = clamp_wide(ay, 0, (len - 1) as i128) as usize;
        let (sl, cy) = scroll(self.start_line, self.height, ty);
        let ll = match self.buffer.line_len(ty) {
            Some(n) => n,
            None => 0,
        };
        let ax = self.start_col as i128 + self.cursor.0 as i128 + dx;
        let tx = clamp_wide(ax, 0, ll as i128) as usize;
        let (sc, cx) = scroll(self.start_col, self.width, tx);
        proof {
            assert(ty as int == clamp(self.start_line + self.cursor.1 + dy, 0, t.len() - 1));
            assert(ll == t[ty as int].len());
            assert(tx as int == clamp(self.start_col + self.cursor.0 + dx, 0, t[ty as int].len() as int));
        }
        let scrolled = sl != self.start_line || sc != self.start_col;
        self.start_line = sl;
        self.start_col = sc;
        self.cursor = (cx, cy);
        scrolled
    }

    /// Move the cursor by `(dx, dy)` in the buffer, scrolling as `moved` says.
    /// Returns whether the window scrolled. A window whose first line was
    /// within `max_start` stays within it.
    pub fn navigate(&mut self, dx: isize, dy: isize) -> (r: bool)
        requires
            old(self).buffer_wf(),
        ensures
            final(self).wf(),
            final(self).buffer == old(self).buffer,
            moved(*old(self), old(self).text(), dx as int, dy as int, *final(self), r),
            old(self).start_line <= max_start(old(self).text().len() as int, old(self).height as int)
                ==> final(self).start_line <= max_start(final(self).text().len() as int, final(self).height as int),
    {
        proof {
            self.buffer.lemma_lines_ok();
        }
        self.shift(dx as i128, dy as i128)
    }

    /// Absolute cursor position `(x, y)`.
    fn abs_pos(&self) -> (r: (usize, usize))
        requires
            self.wf(),
        ensures
            r.0 == self.abs_x(),
            r.1 == self.abs_y(),
    {
        proof {
            self.buffer.lemma_lines_ok();
        }
        (self.start_col + self.cursor.0, self.start_line + self.cursor.1)
    }

    /// Insert `c` at the cursor, then move one column right.
    /// Returns whether the window scrolled.
    pub fn insert(&mut self, c: char) -> (r: bool)
        requires
            old(self).wf(),
        ensures
            final(self).wf(),
            final(self).syntax() == old(self).syntax(),
            final(self).text() == inserted(old(self).text(), old(self).abs_y(), old(self).abs_x(), c),
            moved(*old(self), final(self).text(), 1, 0, *final(self), r),
    {
        let (x, y) = self.abs_pos();
        self.buffer.insert(y, x, c);
        self.shift(1, 0)
    }

    /// Split the line at the cursor, then move to the start of the next line.
    /// Returns whether the window scrolled.
    pub fn insert_new_line(&mut self) -> (r: bool)
        requires
            old(self).wf(),
        ensures
            final(self).wf(),
            final(self).syntax() == old(self).syntax(),
            final(self).text() == split_at(old(self).text(), old(self).abs_y(), old(self).abs_x()),
            moved(*old(self), final(self).text(), -old(self).abs_x(), 1, *final(self), r),
    {
        let (x, y) = self.abs_pos();
        self.buffer.split_line(y, x);
        self.shift(-(x as i128), 1)
    }

    /// Backspace at the cursor, then move back as `backspace_step` says.
    /// Returns whether the window scrolled.
    pub fn delete(&mut self) -> (r: bool)
        requires
            old(self).wf(),
        ensures
            final(self).wf(),
            final(self).syntax() == old(self).syntax(),
            final(self).text() == deleted(old(self).text(), old(self).abs_y(), old(self).abs_x()),
            moved(
                *old(self),
                final(self).text(),
                backspace_step(old(self).text(), old(self).abs_x(), old(self).abs_y()).0,
                backspace_step(old(self).text(), old(self).abs_x(), old(self).abs_y()).1,
                *final(self),
                r,
            ),
    {
        proof {
            self.buffer.lemma_lines_ok();
        }
        let (x, y) = self.abs_pos();
        let prev_len: usize = if y > 0 {
            match self.buffer.line_len(y - 1) {
                Some(n) => n,
                None => 0,
            }
        } else {
            0
        };
        self.buffer.delete(y, x);
        if x > 0 {
            self.shift(-1, 0)
        } else {
            self.shift(prev_len as i128, -1)
        }
    }

    /// Remove the cursor's line, then move to the start of the line now there.
    /// Returns whether the window scrolled.
    pub fn delete_line(&mut self) -> (r: bool)
        requires
            old(self).wf(),
        ensures
            final(self).wf(),
            final(self).syntax() == old(self).syntax(),
            final(self).text() == line_deleted(old(self).text(), old(self).abs_y()),
            moved(*old(self), final(self).text(), -old(self).abs_x(), 0, *final(self), r),
    {
        let (x, y) = self.abs_pos();
        self.buffer.delete_line(y);
        self.shift(-(x as i128), 0)
    }

    /// Give the window a new size, then bring the cursor back inside it by the
    /// least scroll.
    pub fn resize(&mut self, height: usize, width: usize)
        requires
            old(self).wf(),
        ensures
            final(self).wf(),
            final(self).buffer == old(self).buffer,
            final(self).height == height,
            final(self).width == width,
            moved_from(
                old(self).start_line as int,
                old(self).start_col as int,
                old(self).cursor.0 as int,
                old(self).cursor.1 as int,
                height as int,
                width as int,
                old(self).text(),
                0,
                0,
                *final(self),
                final(self).start_line != old(self).start_line || final(self).start_col != old(self).start_col,
            ),
    {
        self.height = height;
        self.width = width;
        self.shift(0, 0);
    }

    /// The text, for saving: the lines joined by line feeds.
    pub fn dump_file(&self) -> (r: String)
        ensures
            r@ == joined_text(self.text()),
    {
        self.buffer.to_string()
    }

    /// Number of rows that show a line of the buffer.
    pub open spec fn shown_rows(&self) -> int {
        let below = self.text().len() - self.start_line;
        if below <= 0 {
            0
        } else if below < self.height {
            below
        } else {
            self.height as int
        }
    }

    /// The rows of the window that show a line of the buffer.
    pub open spec fn shown(&self) -> Seq<Seq<char>> {
        Seq::new(
            self.shown_rows() as nat,
            |i: int| visible(self.text(), self.start_line as int, self.start_col as int, self.width as int, i),
        )
    }

    /// The window's rows that show a line, joined by line feeds.
    pub fn to_string(&self) -> (r: String)
        requires
            self.buffer_wf(),
        ensures
            r@ == joined_text(self.shown()),
    {
        let len = self.buffer.len();
        let below = if len > self.start_line {
            len - self.start_line
        } else {
            0
        };
        let bottom = if below < self.height {
            below
        } else {
            self.height
        };
        let ghost rows = self.shown();
        let mut r = String::new();
        let mut i: usize = 0;
        while i < bottom
            invariant
                bottom == rows.len(),
                rows == self.shown(),
                self.buffer_wf(),
                i <= bottom,
                r@ == joined_text(rows.subrange(0, i as int)),
            decreases bottom - i,
        {
            if i > 0 {
                r.push('\n');
            }
            let line = self.get_line(i);
            r.append(line.as_str());
            proof {
                let p = rows.subrange(0, i + 1);
                assert(p.drop_last() =~= rows.subrange(0, i as int));
                assert(p.last() == line@);
                if i == 0 {
                    assert(p =~= seq![line@]);
                }
            }
            i = i + 1;
        }
        proof {
            assert(rows.subrange(0, bottom as int) =~= rows);
        }
        r
    }

    /// Row `index` of the window, as `visible` says.
    pub fn get_line(&self, index: usize) -> (r: String)
        requires
            self.buffer_wf(),
        ensures
            r@ == visible(self.text(), self.start_line as int, self.start_col as int, self.width as int, index as int),
    {
        proof {
            self.buffer.lemma_lines_ok();
        }
        let ghost t = self.text();
        let mut r = String::new();
        if index > usize::MAX - self.start_line {
            return r;
        }
        let y = index + self.start_line;
        let n = match self.buffer.line_len(y) {
            Some(n) => n,
            None => {
                return r;
            },
        };
        let sc = self.start_col;
        if sc >= n {
            return r;
        }
        let end = if self.width < n - sc {
            sc + self.width
        } else {
            n
        };
        let mut j: usize = sc;
        while j < end
            invariant
                sc <= j <= end,
                end <= n,
                n == t[y as int].len(),
                y < t.len(),
                t == self.text(),
                self.buffer_wf(),
                r@ == t[y as int].subrange(sc as int, j as int),
            decreases end - j,
        {
            let c = self.buffer.char_at(y, j);
            r.push(c);
            j = j + 1;
            proof {
                assert(r@ =~= t[y as int].subrange(sc as int, j as int));
            }
        }
        r
    }
}

} // verus!
