//! Editor commands, and the decoding of keys into commands under each mode.
//!
//! A single key may stand for several commands: `CommandBlock` runs its
//! children left to right (`I` goes to the start of the line, then enters
//! insert mode).

use vstd::prelude::*;

verus! {

/// A key as the terminal reports it.
#[derive(Clone, Copy, Debug, PartialEq, Eq, Structural)]
pub enum Key {
    /// A character; Enter is `'\n'` and Tab is `'\t'`.
    Char(char),
    Backspace,
    Left,
    Right,
    Up,
    Down,
    Esc,
    /// A key that carries nothing.
    Null,
}

/// Mode of the editor.
#[derive(Clone, Copy, Debug, PartialEq, Eq, Structural)]
pub enum Mode {
    /// Keys move and run commands.
    Normal,
    /// Keys insert text.
    Insert,
    /// Keys edit the file name.
    Rename,
}

impl Mode {
    /// The token shown in the status bar.
    pub fn name(&self) -> (r: &'static str)
        ensures
            *self == Mode::Normal ==> r@ == "NORMAL"@,
            *self == Mode::Insert ==> r@ == "INSERT"@,
            *self == Mode::Rename ==> r@ == "RENAME"@,
    {
        match self {
            Mode::Normal => {
                proof {
                    reveal_strlit("NORMAL");
                }
                "NORMAL"
            },
            Mode::Insert => {
                proof {
                    reveal_strlit("INSERT");
                }
                "INSERT"
            },
            Mode::Rename => {
                proof {
                    reveal_strlit("RENAME");
                }
                "RENAME"
            },
        }
    }
}

/// Commands that the editor executes.
#[derive(Debug, PartialEq)]
pub enum Command {
    /// Quit the editor.
    Quit,
    /// Move the cursor by `(dx, dy)`.
    Move(isize, isize),
    /// Save the file.
    Save,
    /// Edit the file name: `None` removes its last character.
    Rename(Option<char>),
    /// Switch between normal and insert mode.
    ToggleMode,
    /// Switch between normal and rename mode.
    ToggleRename,
    /// Insert a character.
    Insert(char),
    /// Delete the character before the cursor.
    Delete,
    /// Split the line at the cursor.
    InsertNewLine,
    /// Commands run left to right.
    CommandBlock(Vec<Command>),
    /// Delete the cursor's line.
    DeleteLine,
}

/// The answer to a key that means nothing under the current mode.
pub open spec fn invalid_spec() -> Result<Command, &'static str> {
    Err("Invalid command")
}

/// The result holds a block whose commands are `cs`.
pub open spec fn is_block(r: Result<Command, &'static str>, cs: Seq<Command>) -> bool {
    r matches Ok(Command::CommandBlock(v)) && v@ == cs
}

/// The largest step: a move by it reaches the end (or, negated, the start) of a line.
pub open spec fn far() -> int {
    isize::MAX as int
}

/// What a key decodes to in normal mode.
pub open spec fn normal_spec(key: Key, r: Result<Command, &'static str>) -> bool {
    if key == Key::Char('i') {
        r == Ok::<Command, &'static str>(Command::ToggleMode)
    } else if key == Key::Char('I') {
        is_block(r, seq![Command::Move(-far() as isize, 0), Command::ToggleMode])
    } else if key == Key::Char('a') {
        is_block(r, seq![Command::Move(1, 0), Command::ToggleMode])
    } else if key == Key::Char('A') {
        is_block(r, seq![Command::Move(far() as isize, 0), Command::ToggleMode])
    } else if key == Key::Char('o') {
        is_block(r, seq![Command::Move(far() as isize, 0), Command::InsertNewLine, Command::ToggleMode])
    } else if key == Key::Char('O') {
        is_block(
            r,
            seq![
                Command::Move(-far() as isize, 0),
                Command::InsertNewLine,
                Command::Move(0, -1isize),
                Command::ToggleMode,
            ],
        )
    } else if key == Key::Char('q') {
        r == Ok::<Command, &'static str>(Command::Quit)
    } else if key == Key::Char('j') || key == Key::Down {
        r == Ok::<Command, &'static str>(Command::Move(0, 1))
    } else if key == Key::Char('k') || key == Key::Up {
        r == Ok::<Command, &'static str>(Command::Move(0, -1isize))
    } else if key == Key::Char('h') || key == Key::Left {
        r == Ok::<Command, &'static str>(Command::Move(-1isize, 0))
    } else if key == Key::Char('l') || key == Key::Right {
        r == Ok::<Command, &'static str>(Command::Move(1, 0))
    } else if key == Key::Char('$') {
        r == Ok::<Command, &'static str>(Command::Move(far() as isize, 0))
    } else if key == Key::Char('0') {
        r == Ok::<Command, &'static str>(Command::Move(-far() as isize, 0))
    } else if key == Key::Char('w') {
        r == Ok::<Command, &'static str>(Command::Save)
    } else if key == Key::Char('R') {
        r == Ok::<Command, &'static str>(Command::ToggleRename)
    } else if key == Key::Char('d') {
        r == Ok::<Command, &'static str>(Command::DeleteLine)
    } else {
        r == invalid_spec()
    }
}

/// What a character decodes to in insert mode.
pub open spec fn insert_char_spec(c: char, r: Result<Command, &'static str>) -> bool {
    if c == '\n' {
        r == Ok::<Command, &'static str>(Command::InsertNewLine)
    } else if c == '\t' {
        is_block(r, seq![Command::Insert(' '), Command::Insert(' '), Command::Insert(' '), Command::Insert(' ')])
    } else {
        r == Ok::<Command, &'static str>(Command::Insert(c))
    }
}

/// What a key decodes to in insert mode.
pub open spec fn insert_spec(key: Key, r: Result<Command, &'static str>) -> bool {
    match key {
        Key::Esc => r == Ok::<Command, &'static str>(Command::ToggleMode),
        Key::Char(c) => insert_char_spec(c, r),
        Key::Backspace => r == Ok::<Command, &'static str>(Command::Delete),
        Key::Right => r == Ok::<Command, &'static str>(Command::Move(1, 0)),
        Key::Left => r == Ok::<Command, &'static str>(Command::Move(-1isize, 0)),
        Key::Up => r == Ok::<Command, &'static str>(Command::Move(0, -1isize)),
        Key::Down => r == Ok::<Command, &'static str>(Command::Move(0, 1)),
        Key::Null => r == invalid_spec(),
    }
}

/// What a key decodes to in rename mode.
pub open spec fn rename_spec(key: Key, r: Result<Command, &'static str>) -> bool {
    match key {
        Key::Backspace => r == Ok::<Command, &'static str>(Command::Rename(None)),
        Key::Char(c) => if c == '\n' {
            r == Ok::<Command, &'static str>(Command::ToggleMode)
        } else {
            r == Ok::<Command, &'static str>(Command::Rename(Some(c)))
        },
        _ => r == invalid_spec(),
    }
}

/// What a key decodes to under `mode`.
pub open spec fn parse_spec(key: Key, mode: Mode, r: Result<Command, &'static str>) -> bool {
    match mode {
        Mode::Normal => normal_spec(key, r),
        Mode::Insert => insert_spec(key, r),
        Mode::Rename => rename_spec(key, r),
    }
}

/// The error for a key that means nothing under the current mode.
pub fn invalid() -> (r: Result<Command, &'static str>)
    ensures
        r == invalid_spec(),
{
    Err("Invalid command")
}

/// The commands of `c` with every block, at any depth, opened in place.
pub open spec fn flat(c: Command) -> Seq<Command>
    decreases c, 0nat,
{
    match c {
        Command::CommandBlock(v) => flat_seq(v@, v@.len() as int),
        _ => seq![c],
    }
}

/// The first `k` commands of `cs`, each opened as `flat` says, in order.
pub open spec fn flat_seq(cs: Seq<Command>, k: int) -> Seq<Command>
    decreases cs, k,
{
    if k <= 0 || k > cs.len() {
        Seq::empty()
    } else {
        flat_seq(cs, k - 1) + flat(cs[k - 1])
    }
}

/// `s` in reverse order.
pub open spec fn reversed(s: Seq<Command>) -> Seq<Command> {
    Seq::new(s.len(), |i: int| s[s.len() - 1 - i])
}

/// The elements of `s` whose flag in `keep` is set, in order.
pub open spec fn kept(s: Seq<Command>, keep: Seq<bool>) -> Seq<Command>
    decreases s.len(),
{
    if s.len() == 0 || keep.len() != s.len() {
        Seq::empty()
    } else if keep.last() {
        kept(s.drop_last(), keep.drop_last()).push(s.last())
    } else {
        kept(s.drop_last(), keep.drop_last())
    }
}

/// Append the commands of `c`, opened as `flat` says, to `out`.
fn flatten_into(c: Command, out: &mut Vec<Command>)
    ensures
        final(out)@ == old(out)@ + flat(c),
    decreases c,
{
    match c {
        Command::CommandBlock(v) => {
            let ghost whole = c;
            let ghost orig = v@;
            let ghost start = out@;
            assert(v.len() == v@.len());
            let mut v = v;
            let mut stack: Vec<Command> = Vec::new();
            while v.len() > 0
                invariant
                    v@.len() <= orig.len(),
                    v@ == orig.subrange(0, v@.len() as int),
                    stack@ == reversed(orig.subrange(v@.len() as int, orig.len() as int)),
                decreases v@.len(),
            {
                let e = v.pop().unwrap();
                stack.push(e);
                proof {
                    assert(v@ =~= orig.subrange(0, v@.len() as int));
                    assert(stack@ =~= reversed(orig.subrange(v@.len() as int, orig.len() as int)));
                }
            }
            proof {
                assert(orig.subrange(0, 0) =~= Seq::<Command>::empty());
            }
            let mut k: usize = 0;
            while stack.len() > 0
                invariant
                    k + stack@.len() == orig.len(),
                    stack@ == reversed(orig.subrange(k as int, orig.len() as int)),
                    out@ == start + flat_seq(orig, k as int),
                    whole == c,
                    whole is CommandBlock,
                    orig == (whole->CommandBlock_0)@,
                    orig.len() <= usize::MAX,
                decreases stack@.len(),
            {
                let e = stack.pop().unwrap();
                proof {
                    assert(e == orig[k as int]);
                    let w = whole->CommandBlock_0;
                    assert(decreases_to!(whole => whole->CommandBlock_0));
                    assert(decreases_to!(w => w@));
                    assert(decreases_to!(w@ => w@[k as int]));
                }
                flatten_into(e, out);
                k = k + 1;
                proof {
                    assert(stack@ =~= reversed(orig.subrange(k as int, orig.len() as int)));
                    assert(out@ =~= start + flat_seq(orig, k as int));
                }
            }
        },
        _ => {
            out.push(c);
            proof {
                assert(out@ =~= old(out)@ + seq![c]);
            }
        },
    }
}

impl Command {
    /// Decode `key` under `mode`.
    pub fn parse(key: Key, mode: &Mode) -> (r: Result<Self, &'static str>)
        ensures
            parse_spec(key, *mode, r),
    {
        match mode {
            Mode::Normal => Self::parse_normal_mode(key),
            Mode::Insert => Self::parse_insert_mode(key),
            Mode::Rename => Self::parse_rename_mode(key),
        }
    }

    /// Decode `key` in normal mode.
    pub fn parse_normal_mode(key: Key) -> (r: Result<Self, &'static str>)
        ensures
            normal_spec(key, r),
    {
        let line_start: isize = -isize::MAX;
        match key {
            Key::Char('i') => Ok(Command::ToggleMode),
            Key::Char('I') => Ok(Command::CommandBlock(vec![Command::Move(line_start, 0), Command::ToggleMode])),
            Key::Char('a') => Ok(Command::CommandBlock(vec![Command::Move(1, 0), Command::ToggleMode])),
            Key::Char('A') => Ok(Command::CommandBlock(vec![Command::Move(isize::MAX, 0), Command::ToggleMode])),
            Key::Char('o') => Ok(
                Command::CommandBlock(
                    vec![Command::Move(isize::MAX, 0), Command::InsertNewLine, Command::ToggleMode],
                ),
            ),
            Key::Char('O') => Ok(
                Command::CommandBlock(
                    vec![
                        Command::Move(line_start, 0),
                        Command::InsertNewLine,
                        Command::Move(0, -1isize),
                        Command::ToggleMode,
                    ],
                ),
            ),
            Key::Char('q') => Ok(Command::Quit),
            Key::Char('j') | Key::Down => Ok(Command::Move(0, 1)),
            Key::Char('k') | Key::Up => Ok(Command::Move(0, -1isize)),
            Key::Char('h') | Key::Left => Ok(Command::Move(-1isize, 0)),
            Key::Char('l') | Key::Right => Ok(Command::Move(1, 0)),
            Key::Char('$') => Ok(Command::Move(isize::MAX, 0)),
            Key::Char('0') => Ok(Command::Move(line_start, 0)),
            Key::Char('w') => Ok(Command::Save),
            Key::Char('R') => Ok(Command::ToggleRename),
            Key::Char('d') => Ok(Command::DeleteLine),
            _ => invalid(),
        }
    }

    /// Decode `key` in insert mode.
    pub fn parse_insert_mode(key: Key) -> (r: Result<Self, &'static str>)
        ensures
            insert_spec(key, r),
    {
        match key {
            Key::Esc => Ok(Command::ToggleMode),
            Key::Char(c) => Self::parse_insert_mode_char(c),
            Key::Backspace => Ok(Command::Delete),
            Key::Right => Ok(Command::Move(1, 0)),
            Key::Left => Ok(Command::Move(-1isize, 0)),
            Key::Up => Ok(Command::Move(0, -1isize)),
            Key::Down => Ok(Command::Move(0, 1)),
            _ => invalid(),
        }
    }

    /// Decode `key` in rename mode.
    pub fn parse_rename_mode(key: Key) -> (r: Result<Self, &'static str>)
        ensures
            rename_spec(key, r),
    {
        match key {
            Key::Backspace => Ok(Command::Rename(None)),
            Key::Char('\n') => Ok(Command::ToggleMode),
            Key::Char(c) => Ok(Command::Rename(Some(c))),
            _ => invalid(),
        }
    }

    /// One block holding the commands of `self` with every nested block
    /// opened in place; a single command becomes a block of itself.
    pub fn flatten(self) -> (r: Self)
        ensures
            r matches Command::CommandBlock(w) && w@ == flat(self),
    {
        let mut out: Vec<Command> = Vec::new();
        flatten_into(self, &mut out);
        proof {
            assert(out@ =~= flat(self));
        }
        Command::CommandBlock(out)
    }

    /// The block with only the commands for which `f` holds, in order; any
    /// other command is returned as it is.
    pub fn filter<F: Fn(&Command) -> bool>(self, f: F) -> (r: Self)
        requires
            forall|c: &Command| f.requires((c,)),
        ensures
            !(self is CommandBlock) ==> r == self,
            self matches Command::CommandBlock(v) ==> r matches Command::CommandBlock(w) && exists|keep: Seq<bool>|
                {
                    &&& keep.len() == v@.len()
                    &&& forall|i: int| 0 <= i < v@.len() ==> f.ensures((&v@[i],), #[trigger] keep[i])
                    &&& w@ == kept(v@, keep)
                },
    {
        match self {
            Command::CommandBlock(v) => {
                let ghost orig = v@;
                assert(v.len() == v@.len());
                let mut v = v;
                let mut stack: Vec<Command> = Vec::new();
                while v.len() > 0
                    invariant
                        v@.len() <= orig.len(),
                        v@ == orig.subrange(0, v@.len() as int),
                        stack@ == reversed(orig.subrange(v@.len() as int, orig.len() as int)),
                    decreases v@.len(),
                {
                    let e = v.pop().unwrap();
                    stack.push(e);
                    proof {
                        assert(v@ =~= orig.subrange(0, v@.len() as int));
                        assert(stack@ =~= reversed(orig.subrange(v@.len() as int, orig.len() as int)));
                    }
                }
                let mut out: Vec<Command> = Vec::new();
                let ghost mut keep: Seq<bool> = Seq::empty();
                let mut k: usize = 0;
                proof {
                    assert(orig.subrange(0, 0) =~= Seq::<Command>::empty());
                }
                while stack.len() > 0
                    invariant
                        k + stack@.len() == orig.len(),
                        stack@ == reversed(orig.subrange(k as int, orig.len() as int)),
                        keep.len() == k,
                        forall|i: int| 0 <= i < k ==> f.ensures((&orig[i],), #[trigger] keep[i]),
                        out@ == kept(orig.subrange(0, k as int), keep),
                        forall|c: &Command| f.requires((c,)),
                        orig.len() <= usize::MAX,
                    decreases stack@.len(),
                {
                    let e = stack.pop().unwrap();
                    proof {
                        assert(e == orig[k as int]);
                    }
                    let b = f(&e);
                    if b {
                        out.push(e);
                    }
                    proof {
                        let pre = orig.subrange(0, k as int);
                        let nk = keep.push(b);
                        let p = orig.subrange(0, k + 1);
                        assert(p.drop_last() =~= pre);
                        assert(nk.drop_last() =~= keep);
                        keep = nk;
                    }
                    k = k + 1;
                    proof {
                        assert(stack@ =~= reversed(orig.subrange(k as int, orig.len() as int)));
                    }
                }
                proof {
                    assert(orig.subrange(0, orig.len() as int) =~= orig);
                    assert(keep.len() == orig.len());
                }
                Command::CommandBlock(out)
            },
            other => other,
        }
    }

    /// The block with its commands in reverse order; any other command is
    /// returned as it is.
    pub fn rev(self) -> (r: Self)
        ensures
            !(self is CommandBlock) ==> r == self,
            self matches Command::CommandBlock(v) ==> r matches Command::CommandBlock(w) && w@ == reversed(v@),
    {
        match self {
            Command::CommandBlock(v) => {
                let ghost orig = v@;
                let mut v = v;
                let mut out: Vec<Command> = Vec::new();
                while v.len() > 0
                    invariant
                        v@.len() <= orig.len(),
                        v@ == orig.subrange(0, v@.len() as int),
                        out@ == reversed(orig.subrange(v@.len() as int, orig.len() as int)),
                    decreases v@.len(),
                {
                    let e = v.pop().unwrap();
                    out.push(e);
                    proof {
                        assert(v@ =~= orig.subrange(0, v@.len() as int));
                        assert(out@ =~= reversed(orig.subrange(v@.len() as int, orig.len() as int)));
                    }
                }
                proof {
                    assert(orig.subrange(0, orig.len() as int) =~= orig);
                }
                Command::CommandBlock(out)
            },
            other => other,
        }
    }

    /// Decode a character typed in insert mode: a line feed splits the line,
    /// a tab inserts four spaces.
    pub fn parse_insert_mode_char(c: char) -> (r: Result<Self, &'static str>)
        ensures
            insert_char_spec(c, r),
    {
        match c {
            '\n' => Ok(Command::InsertNewLine),
            '\t' => Ok(
                Command::CommandBlock(
                    vec![Command::Insert(' '), Command::Insert(' '), Command::Insert(' '), Command::Insert(' ')],
                ),
            ),
            _ => Ok(Command::Insert(c)),
        }
    }
}

} // verus!
