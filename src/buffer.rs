//! The editable text: an ordered sequence of lines, each an ordered sequence
//! of characters. There is always at least one line, and no line holds a
//! line feed: line feeds exist only as separators between lines.

use vstd::prelude::*;
use crate::highlight::{colorize, colors_of, zip_colors, ColorChar, Rgb};

verus! {

/// Relies on `String::push`: appends `ch` at the end of the string.
pub assume_specification[ String::push ](s: &mut String, ch: char)
    ensures
        final(s)@ == old(s)@.push(ch),
;

/// The characters that `bytes` decode to in UTF-8, each invalid sequence
/// replaced by U+FFFD.
pub uninterp spec fn utf8_lossy(bytes: Seq<u8>) -> Seq<char>;

/// Relies on `String::from_utf8_lossy`: the result depends on the bytes
/// alone, and valid UTF-8 decodes to its characters.
#[verifier::external_body]
fn decode_lossy(bytes: &[u8]) -> (r: String)
    ensures
        r@ == utf8_lossy(bytes@),
        vstd::utf8::valid_utf8(bytes@) ==> r@ == vstd::utf8::decode_utf8(bytes@),
{
    String::from_utf8_lossy(bytes).into_owned()
}

/// True when no line of `t` holds a line feed.
pub open spec fn no_line_feed(t: Seq<Seq<char>>) -> bool {
    forall|i: int, j: int| 0 <= i < t.len() && 0 <= j < t[i].len() ==> #[trigger] t[i][j] != '\n'
}

/// The shape every buffer keeps: at least one line, and no line feed inside a line.
pub open spec fn lines_ok(t: Seq<Seq<char>>) -> bool {
    t.len() >= 1 && no_line_feed(t)
}

/// `t` with line `line` cut in two at column `col`, when that position exists.
pub open spec fn split_at(t: Seq<Seq<char>>, line: int, col: int) -> Seq<Seq<char>> {
    if 0 <= line < t.len() && 0 <= col <= t[line].len() {
        t.subrange(0, line).push(t[line].subrange(0, col)).push(
            t[line].subrange(col, t[line].len() as int),
        ) + t.subrange(line + 1, t.len() as int)
    } else {
        t
    }
}

/// `t` after inserting `c` at `(line, col)`; a line feed splits the line there.
pub open spec fn inserted(t: Seq<Seq<char>>, line: int, col: int, c: char) -> Seq<Seq<char>> {
    if 0 <= line < t.len() && 0 <= col <= t[line].len() {
        if c == '\n' {
            split_at(t, line, col)
        } else {
            t.update(line, t[line].insert(col, c))
        }
    } else {
        t
    }
}

/// `t` with line `line` appended to line `line - 1`.
pub open spec fn joined(t: Seq<Seq<char>>, line: int) -> Seq<Seq<char>> {
    t.subrange(0, line - 1).push(t[line - 1] + t[line]) + t.subrange(line + 1, t.len() as int)
}

/// `t` after a backspace at `(line, col)`.
pub open spec fn deleted(t: Seq<Seq<char>>, line: int, col: int) -> Seq<Seq<char>> {
    if line < 0 || line >= t.len() || col < 0 {
        t
    } else if col == 0 {
        if line == 0 {
            t
        } else {
            joined(t, line)
        }
    } else if col <= t[line].len() {
        t.update(line, t[line].remove(col - 1))
    } else {
        t
    }
}

/// `t` without line `line`; the sole line is emptied instead.
pub open spec fn line_deleted(t: Seq<Seq<char>>, line: int) -> Seq<Seq<char>> {
    if line < 0 || line >= t.len() {
        t
    } else if t.len() == 1 {
        seq![Seq::empty()]
    } else {
        t.remove(line)
    }
}

/// The lines joined by line feeds.
pub open spec fn joined_text(t: Seq<Seq<char>>) -> Seq<char>
    decreases t.len(),
{
    if t.len() == 0 {
        Seq::empty()
    } else if t.len() == 1 {
        t[0]
    } else {
        joined_text(t.drop_last()).push('\n') + t.last()
    }
}

/// The lines of `s`, cut at each line feed; a text always has at least one line.
pub open spec fn split_text(s: Seq<char>) -> Seq<Seq<char>>
    decreases s.len(),
{
    if s.len() == 0 {
        seq![Seq::empty()]
    } else {
        let prev = split_text(s.drop_last());
        if s.last() == '\n' {
            prev.push(Seq::empty())
        } else {
            prev.update(prev.len() - 1, prev.last().push(s.last()))
        }
    }
}

/// `s` with each tab replaced by four spaces.
pub open spec fn expand_tabs(s: Seq<char>) -> Seq<char>
    decreases s.len(),
{
    if s.len() == 0 {
        Seq::empty()
    } else if s.last() == '\t' {
        expand_tabs(s.drop_last()) + seq![' ', ' ', ' ', ' ']
    } else {
        expand_tabs(s.drop_last()).push(s.last())
    }
}

/// The lines that loading the text `s` produces.
pub open spec fn loaded(s: Seq<char>) -> Seq<Seq<char>> {
    split_text(expand_tabs(s))
}

proof fn lemma_split_push(s: Seq<char>, c: char)
    ensures
        split_text(s.push(c)) == (if c == '\n' {
            split_text(s).push(Seq::empty())
        } else {
            split_text(s).update(split_text(s).len() - 1, split_text(s).last().push(c))
        }),
{
    assert(s.push(c).drop_last() =~= s);
}

/// True when no line of `t` holds a tab.
pub open spec fn no_tab(t: Seq<Seq<char>>) -> bool {
    forall|i: int, j: int| 0 <= i < t.len() && 0 <= j < t[i].len() ==> #[trigger] t[i][j] != '\t'
}

proof fn lemma_expand_no_tab(s: Seq<char>)
    ensures
        forall|i: int| 0 <= i < expand_tabs(s).len() ==> #[trigger] expand_tabs(s)[i] != '\t',
        (forall|i: int| 0 <= i < s.len() ==> #[trigger] s[i] != '\t') ==> expand_tabs(s) == s,
    decreases s.len(),
{
    if s.len() > 0 {
        lemma_expand_no_tab(s.drop_last());
        let e = expand_tabs(s.drop_last());
        if s.last() == '\t' {
            assert forall|i: int| 0 <= i < expand_tabs(s).len() implies #[trigger] expand_tabs(s)[i] != '\t' by {
                if i >= e.len() {
                    assert(expand_tabs(s)[i] == ' ');
                } else {
                    assert(expand_tabs(s)[i] == e[i]);
                }
            }
        } else {
            assert forall|i: int| 0 <= i < expand_tabs(s).len() implies #[trigger] expand_tabs(s)[i] != '\t' by {
                if i < e.len() {
                    assert(expand_tabs(s)[i] == e[i]);
                }
            }
            if forall|i: int| 0 <= i < s.len() ==> #[trigger] s[i] != '\t' {
                assert forall|i: int| 0 <= i < s.drop_last().len() implies #[trigger] s.drop_last()[i] != '\t' by {
                    assert(s.drop_last()[i] == s[i]);
                }
                assert(s.drop_last().push(s.last()) =~= s);
            }
        }
    }
}

/// Loading a text gives the same lines as loading it with its tabs already
/// replaced by four spaces.
pub proof fn lemma_tabs_normalised(s: Seq<char>)
    ensures
        loaded(s) == loaded(expand_tabs(s)),
{
    lemma_expand_no_tab(s);
    lemma_expand_no_tab(expand_tabs(s));
}

proof fn lemma_split_line_tail(s: Seq<char>, l: Seq<char>)
    requires
        forall|i: int| 0 <= i < l.len() ==> #[trigger] l[i] != '\n',
    ensures
        split_text(s + l) == split_text(s).update(split_text(s).len() - 1, split_text(s).last() + l),
    decreases l.len(),
{
    lemma_split_nonempty(s);
    if l.len() == 0 {
        assert(s + l =~= s);
        assert(split_text(s).last() + l =~= split_text(s).last());
        assert(split_text(s).update(split_text(s).len() - 1, split_text(s).last()) =~= split_text(s));
    } else {
        let l0 = l.drop_last();
        assert forall|i: int| 0 <= i < l0.len() implies #[trigger] l0[i] != '\n' by {
            assert(l0[i] == l[i]);
        }
        lemma_split_line_tail(s, l0);
        assert((s + l).drop_last() =~= s + l0);
        assert((s + l).last() == l.last());
        assert(l.last() == l[l.len() - 1]);
        let p = split_text(s);
        let q = split_text(s + l0);
        assert(q =~= p.update(p.len() - 1, p.last() + l0));
        assert(split_text(s + l) =~= q.update(q.len() - 1, q.last().push(l.last())));
        assert(q.len() == p.len());
        assert(q.last() == p.last() + l0);
        assert((p.last() + l0).push(l.last()) =~= p.last() + l);
        assert(q.update(q.len() - 1, q.last().push(l.last())) =~= p.update(p.len() - 1, p.last() + l));
    }
}

proof fn lemma_split_nonempty(s: Seq<char>)
    ensures
        split_text(s).len() >= 1,
    decreases s.len(),
{
    if s.len() > 0 {
        lemma_split_nonempty(s.drop_last());
    }
}

proof fn lemma_split_joined(t: Seq<Seq<char>>)
    requires
        t.len() >= 1,
        no_line_feed(t),
    ensures
        split_text(joined_text(t)) == t,
    decreases t.len(),
{
    if t.len() == 1 {
        assert forall|i: int| 0 <= i < t[0].len() implies #[trigger] t[0][i] != '\n' by {
            assert(t[0][i] != '\n');
        }
        lemma_split_line_tail(Seq::empty(), t[0]);
        assert(Seq::<char>::empty() + t[0] =~= t[0]);
        assert(split_text(Seq::<char>::empty()) =~= seq![Seq::<char>::empty()]);
        assert(seq![Seq::<char>::empty()].update(0, Seq::<char>::empty() + t[0]) =~= t);
    } else {
        let r = t.drop_last();
        assert forall|i: int, j: int| 0 <= i < r.len() && 0 <= j < r[i].len() implies #[trigger] r[i][j] != '\n' by {
            assert(r[i] == t[i]);
        }
        lemma_split_joined(r);
        let base = joined_text(r).push('\n');
        lemma_split_push(joined_text(r), '\n');
        let l = t.last();
        assert forall|i: int| 0 <= i < l.len() implies #[trigger] l[i] != '\n' by {
            assert(l[i] == t[t.len() - 1][i]);
        }
        lemma_split_line_tail(base, l);
        let p = split_text(base);
        assert(p =~= r.push(Seq::empty()));
        assert(Seq::<char>::empty() + l =~= l);
        assert(p.update(p.len() - 1, p.last() + l) =~= t);
    }
}

/// Saving the text and loading what was saved gives the same lines back,
/// when no line holds a tab.
pub proof fn lemma_save_then_load(t: Seq<Seq<char>>)
    requires
        lines_ok(t),
        no_tab(t),
    ensures
        loaded(joined_text(t)) == t,
    decreases t.len(),
{
    lemma_joined_no_tab(t);
    lemma_expand_no_tab(joined_text(t));
    lemma_split_joined(t);
}

proof fn lemma_joined_no_tab(t: Seq<Seq<char>>)
    requires
        no_tab(t),
    ensures
        forall|i: int| 0 <= i < joined_text(t).len() ==> #[trigger] joined_text(t)[i] != '\t',
    decreases t.len(),
{
    if t.len() == 1 {
        assert forall|i: int| 0 <= i < joined_text(t).len() implies #[trigger] joined_text(t)[i] != '\t' by {
            assert(t[0][i] != '\t');
        }
    } else if t.len() > 1 {
        let r = t.drop_last();
        assert forall|i: int, j: int| 0 <= i < r.len() && 0 <= j < r[i].len() implies #[trigger] r[i][j] != '\t' by {
            assert(r[i] == t[i]);
        }
        lemma_joined_no_tab(r);
        let a = joined_text(r).push('\n');
        let l = t.last();
        assert(joined_text(t) == a + l);
        assert forall|i: int| 0 <= i < joined_text(t).len() implies #[trigger] joined_text(t)[i] != '\t' by {
            if i < joined_text(r).len() {
                assert(joined_text(t)[i] == joined_text(r)[i]);
            } else if i == joined_text(r).len() {
                assert(joined_text(t)[i] == '\n');
            } else {
                assert(joined_text(t)[i] == l[i - a.len()]);
                assert(t[t.len() - 1][i - a.len()] != '\t');
            }
        }
    }
}

/// The text buffer.
pub struct Buffer {
    lines: Vec<Vec<char>>,
    colors: Vec<Vec<Rgb>>,
    syntax: Option<String>,
}

impl View for Buffer {
    type V = Seq<Seq<char>>;

    closed spec fn view(&self) -> Seq<Seq<char>> {
        self.lines@.map_values(|l: Vec<char>| l@)
    }
}

impl Buffer {
    /// The buffer's invariant.
    pub closed spec fn wf(&self) -> bool {
        &&& lines_ok(self@)
        &&& self.colors@.map_values(|l: Vec<Rgb>| l@) == self.colors_spec()
    }

    /// A well-formed buffer has at least one line, and no line holds a line feed.
    pub proof fn lemma_lines_ok(&self)
        requires
            self.wf(),
        ensures
            lines_ok(self@),
            self@.len() <= usize::MAX,
            forall|i: int| 0 <= i < self@.len() ==> #[trigger] self@[i].len() <= usize::MAX,
    {
        assert(self.lines.len() == self.lines@.len());
        assert forall|i: int| 0 <= i < self@.len() implies #[trigger] self@[i].len() <= usize::MAX by {
            assert(self@[i] == self.lines@[i]@);
            assert(self.lines@[i].len() == self.lines@[i]@.len());
        }
    }

    /// The extension whose highlighter colors the text, if any.
    pub closed spec fn syntax(&self) -> Option<Seq<char>> {
        match self.syntax {
            None => None,
            Some(e) => Some(e@),
        }
    }

    /// The color of each character: what the highlighter gives for the whole
    /// current text, or plain without a highlighter.
    pub open spec fn colors_spec(&self) -> Seq<Seq<Rgb>> {
        colors_of(self@, joined_text(self@), self.syntax())
    }

    /// Recompute the colors from the current text.
    fn recolor(&mut self)
        requires
            lines_ok(old(self)@),
        ensures
            final(self).wf(),
            final(self)@ == old(self)@,
            final(self).syntax() == old(self).syntax(),
    {
        let text = self.to_string();
        self.colors = colorize(&self.lines, &text, &self.syntax);
    }

    /// A buffer holding the text `s`, split at line feeds, with each tab
    /// replaced by four spaces; `syntax` names the extension whose highlighter
    /// colors it.
    pub fn from_text(s: &str, syntax: Option<String>) -> (r: Self)
        ensures
            r.wf(),
            r@ == loaded(s@),
            r.syntax() == (match syntax {
                None => None,
                Some(e) => Some(e@),
            }),
    {
        let n = s.unicode_len();
        let mut done: Vec<Vec<char>> = Vec::new();
        let mut cur: Vec<char> = Vec::new();
        let mut i: usize = 0;
        proof {
            assert(s@.subrange(0, 0) =~= Seq::<char>::empty());
            assert(done@.map_values(|l: Vec<char>| l@).push(cur@) =~= seq![Seq::<char>::empty()]);
        }
        while i < n
            invariant
                n == s@.len(),
                i <= n,
                loaded(s@.subrange(0, i as int)) == done@.map_values(|l: Vec<char>| l@).push(cur@),
                no_line_feed(done@.map_values(|l: Vec<char>| l@).push(cur@)),
            decreases n - i,
        {
            let c = s.get_char(i);
            let ghost pre = s@.subrange(0, i as int);
            let ghost old_done = done@.map_values(|l: Vec<char>| l@);
            let ghost old_cur = cur@;
            proof {
                let p = s@.subrange(0, i + 1);
                assert(p.drop_last() =~= pre);
                assert(p.last() == c);
            }
            if c == '\t' {
                let ghost e = expand_tabs(pre);
                proof {
                    lemma_split_push(e, ' ');
                    lemma_split_push(e.push(' '), ' ');
                    lemma_split_push(e.push(' ').push(' '), ' ');
                    lemma_split_push(e.push(' ').push(' ').push(' '), ' ');
                    assert(e + seq![' ', ' ', ' ', ' '] =~= e.push(' ').push(' ').push(' ').push(' '));
                }
                cur.push(' ');
                cur.push(' ');
                cur.push(' ');
                cur.push(' ');
                proof {
                    assert(old_done.push(old_cur).last() == old_cur);
                    assert(split_text(e) == old_done.push(old_cur));
                    assert(split_text(e.push(' ')) =~= old_done.push(old_cur.push(' ')));
                    assert(split_text(e.push(' ').push(' ')) =~= old_done.push(old_cur.push(' ').push(' ')));
                    assert(split_text(e.push(' ').push(' ').push(' ')) =~= old_done.push(old_cur.push(' ').push(' ').push(' ')));
                    assert(cur@ =~= old_cur.push(' ').push(' ').push(' ').push(' '));
                    assert(split_text(e.push(' ').push(' ').push(' ').push(' ')) =~= old_done.push(cur@));
                }
            } else if c == '\n' {
                proof {
                    lemma_split_push(expand_tabs(pre), c);
                }
                done.push(cur);
                cur = Vec::new();
                proof {
                    assert(done@.map_values(|l: Vec<char>| l@) =~= old_done.push(old_cur));
                }
            } else {
                proof {
                    lemma_split_push(expand_tabs(pre), c);
                }
                cur.push(c);
                proof {
                    assert(old_done.push(old_cur).last() == old_cur);
                }
            }
            i = i + 1;
            proof {
                let t = done@.map_values(|l: Vec<char>| l@).push(cur@);
                assert forall|a: int, b: int| 0 <= a < t.len() && 0 <= b < t[a].len() implies
                    #[trigger] t[a][b] != '\n' by {
                    if a < t.len() - 1 {
                        assert(t[a] == old_done.push(old_cur)[a]);
                    } else if b < old_cur.len() {
                        assert(t[a][b] == old_done.push(old_cur)[old_done.len() as int][b]);
                    }
                }
            }
        }
        done.push(cur);
        proof {
            assert(s@.subrange(0, n as int) =~= s@);
        }
        let mut r = Buffer { lines: done, colors: Vec::new(), syntax };
        proof {
            assert(r@ =~= loaded(s@));
        }
        r.recolor();
        r
    }

    /// A buffer holding the text that `bytes` encode in UTF-8, loaded as
    /// `from_text` does, without a highlighter.
    pub fn from_bytes(bytes: &[u8]) -> (r: Self)
        ensures
            r.wf(),
            r.syntax() is None,
            r@ == loaded(utf8_lossy(bytes@)),
            vstd::utf8::valid_utf8(bytes@) ==> r@ == loaded(vstd::utf8::decode_utf8(bytes@)),
    {
        let s = decode_lossy(bytes);
        Buffer::from_text(s.as_str(), None)
    }

    /// The text: the lines joined by line feeds.
    pub fn to_string(&self) -> (r: String)
        ensures
            r@ == joined_text(self@),
    {
        let mut r = String::new();
        let mut i: usize = 0;
        while i < self.lines.len()
            invariant
                i <= self.lines@.len(),
                r@ == joined_text(self@.subrange(0, i as int)),
            decreases self.lines@.len() - i,
        {
            let ghost before = r@;
            if i > 0 {
                r.push('\n');
            }
            let line = &self.lines[i];
            let mut j: usize = 0;
            while j < line.len()
                invariant
                    j <= line@.len(),
                    i > 0 ==> r@ == before.push('\n') + line@.subrange(0, j as int),
                    i == 0 ==> r@ == line@.subrange(0, j as int),
                decreases line@.len() - j,
            {
                r.push(line[j]);
                j = j + 1;
                proof {
                    if i > 0 {
                        assert(r@ =~= before.push('\n') + line@.subrange(0, j as int));
                    } else {
                        assert(r@ =~= line@.subrange(0, j as int));
                    }
                }
            }
            proof {
                let t = self@.subrange(0, i + 1);
                assert(t.drop_last() =~= self@.subrange(0, i as int));
                assert(line@.subrange(0, j as int) =~= line@);
                assert(t.last() == line@);
                if i == 0 {
                    assert(t =~= seq![line@]);
                }
            }
            i = i + 1;
        }
        proof {
            assert(self@.subrange(0, self@.len() as int) =~= self@);
        }
        r
    }

    /// Character `col` of line `line`.
    pub fn char_at(&self, line: usize, col: usize) -> (r: char)
        requires
            line < self@.len(),
            col < self@[line as int].len(),
        ensures
            r == self@[line as int][col as int],
    {
        self.lines[line][col]
    }

    /// Line `i` with the color of each character, or `None` past the last line.
    pub fn line(&self, i: usize) -> (r: Option<Vec<ColorChar>>)
        requires
            self.wf(),
        ensures
            i >= self@.len() ==> r is None,
            i < self@.len() ==> r is Some && r->0@.len() == self@[i as int].len() && forall|j: int|
                0 <= j < r->0@.len() ==> (#[trigger] r->0@[j]).ch == self@[i as int][j]
                    && r->0@[j].color == self.colors_spec()[i as int][j],
    {
        if i >= self.lines.len() {
            return None;
        }
        proof {
            let cv = self.colors@.map_values(|l: Vec<Rgb>| l@);
            assert(self.colors_spec().len() == self@.len());
            assert(cv.len() == self.colors@.len());
            assert(cv[i as int] == self.colors@[i as int]@);
            assert(self.colors_spec()[i as int].len() == self@[i as int].len());
        }
        let line = &self.lines[i];
        let colors = &self.colors[i];
        proof {
            assert(self@[i as int] == line@);
        }
        Some(zip_colors(line, colors))
    }

    /// A fresh buffer: one empty line.
    pub fn new() -> (r: Self)
        ensures
            r.wf(),
            r@ == seq![Seq::<char>::empty()],
            r.syntax() is None,
    {
        let mut lines: Vec<Vec<char>> = Vec::new();
        lines.push(Vec::new());
        let mut r = Buffer { lines, colors: Vec::new(), syntax: None };
        assert(r@ =~= seq![Seq::<char>::empty()]);
        r.recolor();
        r
    }

    /// Number of lines; never zero.
    pub fn len(&self) -> (r: usize)
        requires
            self.wf(),
        ensures
            r == self@.len(),
            r >= 1,
    {
        self.lines.len()
    }

    /// Number of characters on line `i`, or `None` past the last line.
    pub fn line_len(&self, i: usize) -> (r: Option<usize>)
        ensures
            i < self@.len() ==> r is Some && r->0 == self@[i as int].len(),
            i >= self@.len() ==> r is None,
    {
        if i < self.lines.len() {
            Some(self.lines[i].len())
        } else {
            None
        }
    }

    /// Insert `c` at `(line, col)`; out-of-range positions leave the buffer as it is.
    pub fn insert(&mut self, line: usize, col: usize, c: char)
        requires
            old(self).wf(),
        ensures
            final(self).wf(),
            final(self)@ == inserted(old(self)@, line as int, col as int, c),
            final(self).syntax() == old(self).syntax(),
    {
        if line >= self.lines.len() || col > self.lines[line].len() {
            return;
        }
        if c == '\n' {
            self.split_line(line, col);
            return;
        }
        let ghost t = self@;
        let mut l: Vec<char> = Vec::new();
        self.lines.set_and_swap(line, &mut l);
        l.insert(col, c);
        self.lines.set(line, l);
        assert(self@ =~= t.update(line as int, t[line as int].insert(col as int, c)));
        assert forall|i: int, j: int| 0 <= i < self@.len() && 0 <= j < self@[i].len() implies
            #[trigger] self@[i][j] != '\n' by {
            if i == line && j != col {
                if j < col {
                    assert(self@[i][j] == t[i][j]);
                } else {
                    assert(self@[i][j] == t[i][j - 1]);
                }
            }
        }
        self.recolor();
    }

    /// Cut line `line` in two at column `col`; out-of-range positions leave the buffer as it is.
    pub fn split_line(&mut self, line: usize, col: usize)
        requires
            old(self).wf(),
        ensures
            final(self).wf(),
            final(self)@ == split_at(old(self)@, line as int, col as int),
            final(self).syntax() == old(self).syntax(),
    {
        if line >= self.lines.len() || col > self.lines[line].len() {
            return;
        }
        let ghost t = self@;
        let mut l: Vec<char> = Vec::new();
        self.lines.set_and_swap(line, &mut l);
        let rest = l.split_off(col);
        self.lines.set(line, l);
        self.lines.insert(line + 1, rest);
        assert(self@ =~= split_at(t, line as int, col as int));
        assert forall|i: int, j: int| 0 <= i < self@.len() && 0 <= j < self@[i].len() implies
            #[trigger] self@[i][j] != '\n' by {
            if i < line {
                assert(self@[i] == t[i]);
            } else if i == line {
                assert(self@[i][j] == t[i][j]);
            } else if i == line + 1 {
                assert(self@[i][j] == t[line as int][j + col]);
            } else {
                assert(self@[i] == t[i - 1]);
            }
        }
        self.recolor();
    }

    /// Backspace at `(line, col)`: joins the line onto the previous one at
    /// column 0, removes the character before `col` otherwise.
    pub fn delete(&mut self, line: usize, col: usize)
        requires
            old(self).wf(),
        ensures
            final(self).wf(),
            final(self)@ == deleted(old(self)@, line as int, col as int),
            final(self).syntax() == old(self).syntax(),
    {
        if line >= self.lines.len() {
            return;
        }
        let ghost t = self@;
        if col == 0 {
            if line > 0 {
                let mut tail = self.lines.remove(line);
                let mut prev: Vec<char> = Vec::new();
                self.lines.set_and_swap(line - 1, &mut prev);
                prev.append(&mut tail);
                self.lines.set(line - 1, prev);
                assert(self@ =~= joined(t, line as int));
                assert forall|i: int, j: int| 0 <= i < self@.len() && 0 <= j < self@[i].len()
                    implies #[trigger] self@[i][j] != '\n' by {
                    if i < line - 1 {
                        assert(self@[i] == t[i]);
                    } else if i == line - 1 {
                        if j < t[i].len() {
                            assert(self@[i][j] == t[i][j]);
                        } else {
                            assert(self@[i][j] == t[line as int][j - t[i].len()]);
                        }
                    } else {
                        assert(self@[i] == t[i + 1]);
                    }
                }
                self.recolor();
            }
        } else if col <= self.lines[line].len() {
            let mut l: Vec<char> = Vec::new();
            self.lines.set_and_swap(line, &mut l);
            l.remove(col - 1);
            self.lines.set(line, l);
            assert(self@ =~= t.update(line as int, t[line as int].remove(col - 1)));
            assert forall|i: int, j: int| 0 <= i < self@.len() && 0 <= j < self@[i].len() implies
                #[trigger] self@[i][j] != '\n' by {
                if i == line {
                    if j < col - 1 {
                        assert(self@[i][j] == t[i][j]);
                    } else {
                        assert(self@[i][j] == t[i][j + 1]);
                    }
                }
            }
            self.recolor();
        }
    }

    /// Remove line `line`; the sole line is emptied instead.
    pub fn delete_line(&mut self, line: usize)
        requires
            old(self).wf(),
        ensures
            final(self).wf(),
            final(self)@ == line_deleted(old(self)@, line as int),
            final(self).syntax() == old(self).syntax(),
    {
        if line >= self.lines.len() {
            return;
        }
        let ghost t = self@;
        if self.lines.len() == 1 {
            self.lines.set(0, Vec::new());
            assert(self@ =~= seq![Seq::<char>::empty()]);
        } else {
            self.lines.remove(line);
            assert(self@ =~= t.remove(line as int));
            assert forall|i: int, j: int| 0 <= i < self@.len() && 0 <= j < self@[i].len() implies
                #[trigger] self@[i][j] != '\n' by {
                if i >= line {
                    assert(self@[i] == t[i + 1]);
                }
            }
        }
        self.recolor();
    }
}

} // verus!
