//! The editor: the view, the current mode and the file's name. It executes
//! commands and answers each with the part of the screen to redraw.

use vstd::prelude::*;
use vstd::view::View as _;
use crate::buffer::{deleted, inserted, joined, line_deleted, lines_ok, loaded, split_at, Buffer};
use crate::command::{parse_spec, Command, Key, Mode};
use crate::view::{backspace_step, nav, scroll_axis, View};

verus! {

/// Relies on `String::pop`: removes and returns the last character, if any.
pub assume_specification[ String::pop ](s: &mut String) -> (r: Option<char>)
    ensures
        old(s)@.len() == 0 ==> r is None && final(s)@ == old(s)@,
        old(s)@.len() > 0 ==> r == Some(old(s)@.last()) && final(s)@ == old(s)@.drop_last(),
;

/// Which part of the screen to redraw.
#[derive(Debug)]
pub enum RefreshOrder {
    /// Nothing to redraw.
    Nothing,
    /// Restore the terminal and end.
    Terminate,
    /// Only the cursor.
    CursorPos,
    /// The status bar.
    StatusBar,
    /// The version-control marks in the gutter.
    GitIndicators,
    /// These rows of the window.
    Lines(Vec<usize>),
    /// The whole window.
    AllLines,
    /// The terminal changed size.
    Resize,
}

/// The meaning of a `RefreshOrder`, with its rows as a set.
pub enum Intent {
    Nothing,
    Terminate,
    CursorPos,
    StatusBar,
    GitIndicators,
    Lines(Set<usize>),
    AllLines,
    Resize,
}

impl vstd::view::View for RefreshOrder {
    type V = Intent;

    open spec fn view(&self) -> Intent {
        match self {
            RefreshOrder::Nothing => Intent::Nothing,
            RefreshOrder::Terminate => Intent::Terminate,
            RefreshOrder::CursorPos => Intent::CursorPos,
            RefreshOrder::StatusBar => Intent::StatusBar,
            RefreshOrder::GitIndicators => Intent::GitIndicators,
            RefreshOrder::Lines(v) => Intent::Lines(v@.to_set()),
            RefreshOrder::AllLines => Intent::AllLines,
            RefreshOrder::Resize => Intent::Resize,
        }
    }
}

/// Two intents merged: `Nothing` gives way to the other, two sets of rows
/// unite, any other pair redraws everything.
pub open spec fn merge_spec(a: Intent, b: Intent) -> Intent {
    if a is Nothing {
        b
    } else if b is Nothing {
        a
    } else if a is Lines && b is Lines {
        Intent::Lines(a->Lines_0.union(b->Lines_0))
    } else {
        Intent::AllLines
    }
}

/// The rows `lo .. hi`.
pub open spec fn row_range(lo: int, hi: int) -> Set<usize> {
    Set::new(|x: usize| lo <= x < hi)
}

/// The rows `lo .. hi`.
fn rows(lo: usize, hi: usize) -> (r: RefreshOrder)
    ensures
        r@ == Intent::Lines(row_range(lo as int, hi as int)),
{
    let mut v: Vec<usize> = Vec::new();
    if lo >= hi {
        assert(v@.to_set() =~= row_range(lo as int, hi as int));
        return RefreshOrder::Lines(v);
    }
    let mut x: usize = lo;
    while x < hi
        invariant
            lo <= x <= hi,
            v@.len() == x - lo,
            forall|k: int| 0 <= k < v@.len() ==> #[trigger] v@[k] == lo + k,
        decreases hi - x,
    {
        v.push(x);
        x = x + 1;
    }
    assert forall|y: usize| #[trigger] v@.contains(y) <==> lo <= y < hi by {
        if lo <= y < hi {
            assert(v@[y - lo] == y);
        }
    }
    assert(v@.to_set() =~= row_range(lo as int, hi as int));
    RefreshOrder::Lines(v)
}

/// Merge two refresh orders, as `merge_spec` says.
pub fn merge(a: RefreshOrder, b: RefreshOrder) -> (r: RefreshOrder)
    ensures
        r@ == merge_spec(a@, b@),
{
    match (a, b) {
        (RefreshOrder::Nothing, b) => b,
        (a, RefreshOrder::Nothing) => a,
        (RefreshOrder::Lines(mut x), RefreshOrder::Lines(mut y)) => {
            let ghost xs = x@;
            let ghost ys = y@;
            x.append(&mut y);
            proof {
                assert forall|e: usize| #[trigger] x@.contains(e) <==> xs.contains(e) || ys.contains(e) by {
                    if x@.contains(e) {
                        let k = choose|k: int| 0 <= k < x@.len() && x@[k] == e;
                        if k >= xs.len() {
                            assert(ys[k - xs.len()] == e);
                        }
                    }
                    if xs.contains(e) {
                        let k = choose|k: int| 0 <= k < xs.len() && xs[k] == e;
                        assert(x@[k] == e);
                    }
                    if ys.contains(e) {
                        let k = choose|k: int| 0 <= k < ys.len() && ys[k] == e;
                        assert(x@[k + xs.len()] == e);
                    }
                }
                assert(x@.to_set() =~= xs.to_set().union(ys.to_set()));
            }
            RefreshOrder::Lines(x)
        },
        (_, _) => RefreshOrder::AllLines,
    }
}

/// What the commands act on: the text, the window and cursor, the mode, the
/// file name, and whether a save was asked for.
pub struct EditorModel {
    pub text: Seq<Seq<char>>,
    pub start_line: int,
    pub start_col: int,
    pub height: int,
    pub width: int,
    pub cx: int,
    pub cy: int,
    pub mode: Mode,
    pub file_name: Seq<char>,
    pub save_requested: bool,
}

/// `m` over the text `t` with the cursor moved by `(dx, dy)`, and whether the window scrolled.
pub open spec fn with_nav(m: EditorModel, t: Seq<Seq<char>>, dx: int, dy: int) -> (EditorModel, bool) {
    let n = nav(m.start_line, m.start_col, m.cx, m.cy, m.height, m.width, t, dx, dy);
    (EditorModel { text: t, start_line: n.0, start_col: n.1, cx: n.2, cy: n.3, ..m }, n.4)
}

/// The mode after `ToggleMode`.
pub open spec fn toggled(m: Mode) -> Mode {
    match m {
        Mode::Normal => Mode::Insert,
        Mode::Insert => Mode::Normal,
        Mode::Rename => Mode::Normal,
    }
}

/// The mode after `ToggleRename`.
pub open spec fn toggled_rename(m: Mode) -> Mode {
    match m {
        Mode::Normal => Mode::Rename,
        _ => Mode::Normal,
    }
}

/// The file name after `Rename(c)`: `None` drops the last character; a space
/// or an apostrophe adds `'_'`; any other character is added as it is.
pub open spec fn renamed(name: Seq<char>, c: Option<char>) -> Seq<char> {
    match c {
        None => if name.len() > 0 {
            name.drop_last()
        } else {
            name
        },
        Some(ch) => if ch == ' ' || ch == '\'' {
            name.push('_')
        } else {
            name.push(ch)
        },
    }
}

/// The rows from `lo` (at least 0) to the bottom of the window.
pub open spec fn rows_from(lo: int, height: int) -> Intent {
    Intent::Lines(row_range(if lo < 0 { 0 } else { lo }, height))
}

/// The state after executing `c` on `m`, and the intent it answers with.
pub open spec fn step(m: EditorModel, c: Command) -> (EditorModel, Intent)
    decreases c, 0nat,
{
    let ax = m.start_col + m.cx;
    let ay = m.start_line + m.cy;
    match c {
        Command::Quit => (m, Intent::Terminate),
        Command::Move(dx, dy) => {
            let (n, s) = with_nav(m, m.text, dx as int, dy as int);
            (n, if s { Intent::AllLines } else { Intent::CursorPos })
        },
        Command::Save => (EditorModel { save_requested: true, ..m }, Intent::StatusBar),
        Command::Rename(o) => (EditorModel { file_name: renamed(m.file_name, o), ..m }, Intent::StatusBar),
        Command::ToggleMode => (EditorModel { mode: toggled(m.mode), ..m }, Intent::StatusBar),
        Command::ToggleRename => (EditorModel { mode: toggled_rename(m.mode), ..m }, Intent::StatusBar),
        Command::Insert(ch) => {
            let (n, s) = with_nav(m, inserted(m.text, ay, ax, ch), 1, 0);
            (n, if s { Intent::AllLines } else { Intent::Lines(row_range(n.cy, n.cy + 1)) })
        },
        Command::InsertNewLine => {
            let (n, s) = with_nav(m, split_at(m.text, ay, ax), -ax, 1);
            (n, if s { Intent::AllLines } else { rows_from(n.cy - 1, n.height) })
        },
        Command::Delete => {
            let d = backspace_step(m.text, ax, ay);
            let (n, s) = with_nav(m, deleted(m.text, ay, ax), d.0, d.1);
            (n, if s { Intent::AllLines } else { rows_from(n.cy, n.height) })
        },
        Command::DeleteLine => {
            let (n, s) = with_nav(m, line_deleted(m.text, ay), -ax, 0);
            (n, Intent::AllLines)
        },
        Command::CommandBlock(v) => fold(m, v@, v@.len() as int),
    }
}

/// The state after executing the first `k` commands of `cs` left to right,
/// and their intents merged in order.
pub open spec fn fold(m: EditorModel, cs: Seq<Command>, k: int) -> (EditorModel, Intent)
    decreases cs, k,
{
    if k <= 0 || k > cs.len() {
        (m, Intent::Nothing)
    } else {
        let (m1, i1) = fold(m, cs, k - 1);
        let (m2, i2) = step(m1, cs[k - 1]);
        (m2, merge_spec(i1, i2))
    }
}

/// Executing a block is executing its commands left to right, from the same
/// state, with their intents merged in order.
pub proof fn lemma_block_is_fold(m: EditorModel, v: Vec<Command>)
    ensures
        step(m, Command::CommandBlock(v)) == fold(m, v@, v@.len() as int),
{
}

/// A model whose window has rows and columns, over a well-formed text, with
/// the cursor inside the window at an existing position.
pub open spec fn model_ok(m: EditorModel) -> bool {
    &&& lines_ok(m.text)
    &&& m.height > 0 && m.width > 0
    &&& 0 <= m.cx < m.width && 0 <= m.cy < m.height
    &&& m.start_line >= 0 && m.start_col >= 0
    &&& m.start_line + m.cy < m.text.len()
    &&& m.start_col + m.cx <= m.text[m.start_line + m.cy].len()
}

/// Absolute cursor position `(x, y)` of `m`.
pub open spec fn abs_of(m: EditorModel) -> (int, int) {
    (m.start_col + m.cx, m.start_line + m.cy)
}

proof fn lemma_scroll(start: int, size: int, target: int)
    requires
        size > 0,
        start >= 0,
        target >= 0,
    ensures
        scroll_axis(start, size, target).0 + scroll_axis(start, size, target).1 == target,
        0 <= scroll_axis(start, size, target).1 < size,
        scroll_axis(start, size, target).0 >= 0,
        start <= target < start + size ==> scroll_axis(start, size, target).0 == start,
{
}

/// Where the cursor lands: after a move by `(dx, dy)` over `t`, the absolute
/// position is the target clamped to the text.
proof fn lemma_nav_target(m: EditorModel, t: Seq<Seq<char>>, dx: int, dy: int)
    requires
        model_ok(m),
        t.len() >= 1,
    ensures
        ({
            let (n, s) = with_nav(m, t, dx, dy);
            let ty = crate::view::clamp(m.start_line + m.cy + dy, 0, t.len() - 1);
            &&& abs_of(n).1 == ty
            &&& abs_of(n).0 == crate::view::clamp(m.start_col + m.cx + dx, 0, t[ty].len() as int)
        }),
{
    let ty = crate::view::clamp(m.start_line + m.cy + dy, 0, t.len() - 1);
    lemma_scroll(m.start_line, m.height, ty);
    lemma_scroll(m.start_col, m.width, crate::view::clamp(m.start_col + m.cx + dx, 0, t[ty].len() as int));
}

/// A backspace at the very start of the text changes nothing.
pub proof fn lemma_delete_at_origin(m: EditorModel)
    requires
        model_ok(m),
        abs_of(m) == (0int, 0int),
    ensures
        step(m, Command::Delete).0 == m,
{
    assert(deleted(m.text, 0, 0) == m.text);
    lemma_scroll(m.start_line, m.height, 0);
    lemma_scroll(m.start_col, m.width, 0);
}

/// A backspace at the start of line `y > 0` joins line `y` onto line `y - 1`
/// and puts the cursor where line `y - 1` used to end.
pub proof fn lemma_delete_joins(m: EditorModel)
    requires
        model_ok(m),
        abs_of(m).0 == 0,
        abs_of(m).1 > 0,
    ensures
        step(m, Command::Delete).0.text == joined(m.text, abs_of(m).1),
        abs_of(step(m, Command::Delete).0) == (m.text[abs_of(m).1 - 1].len() as int, abs_of(m).1 - 1),
{
    let y = abs_of(m).1;
    let t2 = joined(m.text, y);
    assert(t2.len() == m.text.len() - 1);
    assert(t2[y - 1] == m.text[y - 1] + m.text[y]);
    lemma_nav_target(m, t2, m.text[y - 1].len() as int, -1);
}

/// A line feed at the end of the text adds one empty line and puts the cursor
/// at its start.
pub proof fn lemma_newline_at_end(m: EditorModel)
    requires
        model_ok(m),
        abs_of(m).1 == m.text.len() - 1,
        abs_of(m).0 == m.text.last().len(),
    ensures
        step(m, Command::InsertNewLine).0.text == m.text.push(Seq::empty()),
        abs_of(step(m, Command::InsertNewLine).0) == (0int, abs_of(m).1 + 1),
{
    let y = abs_of(m).1;
    let x = abs_of(m).0;
    let t2 = split_at(m.text, y, x);
    assert(m.text[y].subrange(0, x) =~= m.text[y]);
    assert(m.text[y].subrange(x, x) =~= Seq::<char>::empty());
    assert(m.text.subrange(y + 1, m.text.len() as int) =~= Seq::<Seq<char>>::empty());
    assert(m.text.subrange(0, y).push(m.text[y]) =~= m.text);
    assert(t2 =~= m.text.push(Seq::empty()));
    lemma_nav_target(m, t2, -x, 1);
}

/// Moving by the largest step right reaches the end of the line; by the
/// largest step left, its start.
pub proof fn lemma_move_line_ends(m: EditorModel)
    requires
        model_ok(m),
        m.text[abs_of(m).1].len() <= isize::MAX,
    ensures
        abs_of(step(m, Command::Move(isize::MAX, 0)).0) == (m.text[abs_of(m).1].len() as int, abs_of(m).1),
        abs_of(step(m, Command::Move((-isize::MAX) as isize, 0)).0) == (0int, abs_of(m).1),
{
    lemma_nav_target(m, m.text, isize::MAX as int, 0);
    lemma_nav_target(m, m.text, -isize::MAX as int, 0);
}

/// Moving by the largest step down reaches the last line, with the column
/// clamped to that line's length.
pub proof fn lemma_move_to_last_line(m: EditorModel)
    requires
        model_ok(m),
        m.text.len() <= isize::MAX,
    ensures
        abs_of(step(m, Command::Move(0, isize::MAX)).0).1 == m.text.len() - 1,
        abs_of(step(m, Command::Move(0, isize::MAX)).0).0 == (if abs_of(m).0 < m.text.last().len() {
            abs_of(m).0
        } else {
            m.text.last().len() as int
        }),
{
    lemma_nav_target(m, m.text, 0, isize::MAX as int);
}

/// Index of the last `c` in `s`, or -1 when there is none.
pub open spec fn last_index(s: Seq<char>, c: char) -> int
    decreases s.len(),
{
    if s.len() == 0 {
        -1
    } else if s.last() == c {
        s.len() - 1
    } else {
        last_index(s.drop_last(), c)
    }
}

/// The directory of `path`: what stands before its last slash, or `.` when
/// that is empty, followed by a slash.
pub open spec fn dir_of(path: Seq<char>) -> Seq<char> {
    let k = last_index(path, '/');
    if k <= 0 {
        seq!['.', '/']
    } else {
        path.subrange(0, k + 1)
    }
}

/// The file name of `path`: what stands after its last slash.
pub open spec fn name_of(path: Seq<char>) -> Seq<char> {
    path.subrange(last_index(path, '/') + 1, path.len() as int)
}

/// The extension of a file name: what stands after its last dot, unless that
/// dot is its first character or there is none.
pub open spec fn ext_of(name: Seq<char>) -> Seq<char> {
    let k = last_index(name, '.');
    if k <= 0 {
        Seq::empty()
    } else {
        name.subrange(k + 1, name.len() as int)
    }
}

proof fn lemma_last_index_range(s: Seq<char>, c: char)
    ensures
        -1 <= last_index(s, c) < s.len(),
    decreases s.len(),
{
    if s.len() > 0 {
        lemma_last_index_range(s.drop_last(), c);
    }
}

fn find_last(s: &str, c: char) -> (r: Option<usize>)
    ensures
        r is None <==> last_index(s@, c) < 0,
        r is Some ==> r->0 == last_index(s@, c),
{
    proof {
        lemma_last_index_range(s@, c);
    }
    let n = s.unicode_len();
    let mut j: usize = n;
    proof {
        assert(s@.subrange(0, n as int) =~= s@);
    }
    while j > 0
        invariant
            j <= n,
            n == s@.len(),
            last_index(s@, c) == last_index(s@.subrange(0, j as int), c),
        decreases j,
    {
        let ghost p = s@.subrange(0, j as int);
        proof {
            assert(p.drop_last() =~= s@.subrange(0, j - 1));
        }
        if s.get_char(j - 1) == c {
            return Some(j - 1);
        }
        j = j - 1;
    }
    None
}

/// The characters `s[a..b]`.
fn chars_between(s: &str, a: usize, b: usize) -> (r: String)
    requires
        a <= b <= s@.len(),
    ensures
        r@ == s@.subrange(a as int, b as int),
{
    let mut r = String::new();
    let mut i: usize = a;
    while i < b
        invariant
            a <= i <= b,
            b <= s@.len(),
            r@ =~= s@.subrange(a as int, i as int),
        decreases b - i,
    {
        r.push(s.get_char(i));
        i = i + 1;
    }
    r
}

/// Split `path` into its directory (ending in a slash), its file name and
/// the file name's extension.
pub fn split_path_name(path: &str) -> (r: (String, String, String))
    ensures
        r.0@ == dir_of(path@),
        r.1@ == name_of(path@),
        r.2@ == ext_of(name_of(path@)),
{
    proof {
        lemma_last_index_range(path@, '/');
    }
    let n = path.unicode_len();
    let (dir, start) = match find_last(path, '/') {
        Some(k) if k > 0 => (chars_between(path, 0, k + 1), k + 1),
        Some(k) => {
            let mut d = String::new();
            d.push('.');
            d.push('/');
            proof {
                assert(d@ =~= seq!['.', '/']);
            }
            (d, k + 1)
        },
        None => {
            let mut d = String::new();
            d.push('.');
            d.push('/');
            proof {
                assert(d@ =~= seq!['.', '/']);
            }
            (d, 0)
        },
    };
    let name = chars_between(path, start, n);
    let nl = name.as_str().unicode_len();
    proof {
        lemma_last_index_range(name@, '.');
    }
    let ext = match find_last(name.as_str(), '.') {
        Some(d) if d > 0 => chars_between(name.as_str(), d + 1, nl),
        _ => String::new(),
    };
    (dir, name, ext)
}

/// Commands that leave the text as it is.
pub open spec fn keeps_text(c: Command) -> bool {
    match c {
        Command::Quit | Command::Move(_, _) | Command::Save | Command::Rename(_) | Command::ToggleMode
        | Command::ToggleRename => true,
        _ => false,
    }
}

proof fn lemma_step_keeps_text(m: EditorModel, c: Command)
    requires
        keeps_text(c),
    ensures
        step(m, c).0.text == m.text,
{
    match c {
        Command::Move(dx, dy) => {
            assert(with_nav(m, m.text, dx as int, dy as int).0.text == m.text);
        },
        _ => {},
    }
}

proof fn lemma_fold_keeps_text(m: EditorModel, cs: Seq<Command>, k: int)
    requires
        forall|i: int| 0 <= i < cs.len() ==> keeps_text(#[trigger] cs[i]),
    ensures
        fold(m, cs, k).0.text == m.text,
    decreases k,
{
    if 0 < k <= cs.len() {
        lemma_fold_keeps_text(m, cs, k - 1);
        assert(keeps_text(cs[k - 1]));
        lemma_step_keeps_text(fold(m, cs, k - 1).0, cs[k - 1]);
    }
}

/// Decoding a key and executing the command it stands for changes the text
/// as the key's documented effect says: in rename mode, and in normal mode
/// for every key but `o`, `O` and `d`, the text stays; `d` deletes the
/// cursor's line; in insert mode a character other than a tab is inserted
/// at the cursor (a line feed splits the line there), backspace deletes
/// before the cursor, and the other keys leave the text as it is.
pub proof fn lemma_parse_then_execute(m: EditorModel, key: Key, r: Result<Command, &'static str>)
    requires
        parse_spec(key, m.mode, r),
        r is Ok,
    ensures
        ({
            let t = step(m, r->Ok_0).0.text;
            let (ax, ay) = abs_of(m);
            &&& m.mode == Mode::Rename ==> t == m.text
            &&& m.mode == Mode::Normal && key != Key::Char('o') && key != Key::Char('O') && key
                != Key::Char('d') ==> t == m.text
            &&& m.mode == Mode::Normal && key == Key::Char('d') ==> t == line_deleted(m.text, ay)
            &&& m.mode == Mode::Insert && key == Key::Backspace ==> t == deleted(m.text, ay, ax)
            &&& m.mode == Mode::Insert && key == Key::Char('\n') ==> t == split_at(m.text, ay, ax)
            &&& m.mode == Mode::Insert && (key matches Key::Char(c) && c != '\n' && c != '\t') ==> t
                == inserted(m.text, ay, ax, key->Char_0)
            &&& m.mode == Mode::Insert && !(key is Char) && key != Key::Backspace ==> t == m.text
        }),
{
    let c = r->Ok_0;
    if c is CommandBlock {
        let v = c->CommandBlock_0;
        assert forall|i: int| 0 <= i < v@.len() && m.mode == Mode::Normal && key != Key::Char('o') && key
            != Key::Char('O') implies keeps_text(#[trigger] v@[i]) by {}
        if m.mode == Mode::Normal && key != Key::Char('o') && key != Key::Char('O') {
            lemma_fold_keeps_text(m, v@, v@.len() as int);
        }
    }
}

/// The editor's state.
pub struct Editor {
    /// The window over the text.
    pub view: View,
    /// The current mode.
    pub mode: Mode,
    /// Directory of the file, ending in `/`.
    pub file_dir: String,
    /// Name of the file; `Rename` edits it.
    pub file_name: String,
    /// Branch, tag or commit of the working copy, if the file is in one.
    pub git_ref: Option<String>,
    /// Set by `Save`; whoever writes the file clears it.
    pub save_requested: bool,
}

impl Editor {
    /// What the commands act on.
    pub open spec fn model(&self) -> EditorModel {
        EditorModel {
            text: self.view.text(),
            start_line: self.view.start_line as int,
            start_col: self.view.start_col as int,
            height: self.view.height as int,
            width: self.view.width as int,
            cx: self.view.cursor.0 as int,
            cy: self.view.cursor.1 as int,
            mode: self.mode,
            file_name: self.file_name@,
            save_requested: self.save_requested,
        }
    }

    /// The editor's invariant: the view's.
    pub open spec fn wf(&self) -> bool {
        self.view.wf()
    }

    /// An editor on the text `content` of the file at `path`, in normal mode,
    /// with a window of no rows or columns until it is resized. The file's
    /// extension, if it has one, picks the highlighter.
    pub fn new(path: &str, content: &str, git_ref: Option<String>) -> (r: Self)
        ensures
            r.wf(),
            r.view.text() == loaded(content@),
            r.view.start_line == 0 && r.view.start_col == 0 && r.view.cursor == (0usize, 0usize),
            r.view.height == 0 && r.view.width == 0,
            r.mode == Mode::Normal,
            r.file_dir@ == dir_of(path@),
            r.file_name@ == name_of(path@),
            r.git_ref == git_ref,
            !r.save_requested,
    {
        let (dir, name, ext) = split_path_name(path);
        let syntax = if ext.as_str().unicode_len() == 0 {
            None
        } else {
            Some(ext)
        };
        let buffer = Buffer::from_text(content, syntax);
        Editor {
            view: View::new(buffer, 0, 0),
            mode: Mode::Normal,
            file_dir: dir,
            file_name: name,
            git_ref,
            save_requested: false,
        }
    }

    /// Where a save writes: the directory and the current file name; `None`
    /// when the name is empty.
    pub fn save_path(&self) -> (r: Option<String>)
        ensures
            self.file_name@.len() == 0 ==> r is None,
            self.file_name@.len() > 0 ==> r is Some && r->0@ == self.file_dir@ + self.file_name@,
    {
        if self.file_name.as_str().unicode_len() == 0 {
            return None;
        }
        let mut p = self.file_dir.clone();
        p.append(self.file_name.as_str());
        Some(p)
    }

    /// Execute `cmd`, as `step` says, and answer with what to redraw.
    pub fn execute(&mut self, cmd: &Command) -> (r: RefreshOrder)
        requires
            old(self).wf(),
        ensures
            final(self).wf(),
            final(self).model() == step(old(self).model(), *cmd).0,
            r@ == step(old(self).model(), *cmd).1,
            final(self).file_dir == old(self).file_dir,
            final(self).git_ref == old(self).git_ref,
            final(self).view.syntax() == old(self).view.syntax(),
        decreases cmd,
    {
        let ghost m = self.model();
        match cmd {
            Command::Quit => RefreshOrder::Terminate,
            Command::Move(dx, dy) => {
                let scrolled = self.view.navigate(*dx, *dy);
                proof {
                    assert(self.model() == with_nav(m, m.text, *dx as int, *dy as int).0);
                }
                if scrolled {
                    RefreshOrder::AllLines
                } else {
                    RefreshOrder::CursorPos
                }
            },
            Command::Save => {
                self.save_requested = true;
                RefreshOrder::StatusBar
            },
            Command::Rename(c) => {
                match c {
                    None => {
                        self.file_name.pop();
                    },
                    Some(ch) => {
                        if *ch == ' ' || *ch == '\'' {
                            self.file_name.push('_');
                        } else {
                            self.file_name.push(*ch);
                        }
                    },
                }
                RefreshOrder::StatusBar
            },
            Command::ToggleMode => {
                self.mode = match self.mode {
                    Mode::Normal => Mode::Insert,
                    Mode::Insert => Mode::Normal,
                    Mode::Rename => Mode::Normal,
                };
                RefreshOrder::StatusBar
            },
            Command::ToggleRename => {
                self.mode = match self.mode {
                    Mode::Normal => Mode::Rename,
                    _ => Mode::Normal,
                };
                RefreshOrder::StatusBar
            },
            Command::Insert(c) => {
                let scrolled = self.view.insert(*c);
                proof {
                    assert(self.model() == with_nav(m, inserted(m.text, m.start_line + m.cy, m.start_col + m.cx, *c), 1, 0).0);
                }
                if scrolled {
                    RefreshOrder::AllLines
                } else {
                    rows(self.view.cursor.1, self.view.cursor.1 + 1)
                }
            },
            Command::InsertNewLine => {
                let scrolled = self.view.insert_new_line();
                proof {
                    assert(self.model() == with_nav(m, split_at(m.text, m.start_line + m.cy, m.start_col + m.cx), -(m.start_col + m.cx), 1).0);
                }
                if scrolled {
                    RefreshOrder::AllLines
                } else {
                    let cy = self.view.cursor.1;
                    let lo = if cy > 0 {
                        cy - 1
                    } else {
                        0
                    };
                    rows(lo, self.view.height)
                }
            },
            Command::Delete => {
                let scrolled = self.view.delete();
                proof {
                    let d = backspace_step(m.text, m.start_col + m.cx, m.start_line + m.cy);
                    assert(self.model() == with_nav(m, deleted(m.text, m.start_line + m.cy, m.start_col + m.cx), d.0, d.1).0);
                }
                if scrolled {
                    RefreshOrder::AllLines
                } else {
                    rows(self.view.cursor.1, self.view.height)
                }
            },
            Command::DeleteLine => {
                self.view.delete_line();
                proof {
                    assert(self.model() == with_nav(m, line_deleted(m.text, m.start_line + m.cy), -(m.start_col + m.cx), 0).0);
                }
                RefreshOrder::AllLines
            },
            Command::CommandBlock(cmds) => {
                assert(*cmd == Command::CommandBlock(*cmds));
                let mut acc = RefreshOrder::Nothing;
                let mut i: usize = 0;
                while i < cmds.len()
                    invariant
                        i <= cmds@.len(),
                        *cmd == Command::CommandBlock(*cmds),
                        self.wf(),
                        self.model() == fold(m, cmds@, i as int).0,
                        acc@ == fold(m, cmds@, i as int).1,
                        self.file_dir == old(self).file_dir,
                        self.git_ref == old(self).git_ref,
                        self.view.syntax() == old(self).view.syntax(),
                    decreases cmds@.len() - i,
                {
                    proof {
                        let c = *cmd;
                        let v = c->CommandBlock_0;
                        assert(decreases_to!(c => c->CommandBlock_0));
                        assert(decreases_to!(v => v@));
                        assert(decreases_to!(v@ => v@[i as int]));
                        assert(v@[i as int] == cmds@[i as int]);
                        assert(decreases_to!(c => cmds@[i as int]));
                    }
                    let o = self.execute(&cmds[i]);
                    acc = merge(acc, o);
                    i = i + 1;
                }
                acc
            },
        }
    }
}

} // verus!
