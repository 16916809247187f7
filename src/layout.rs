//! Screen layout: the window's size inside the terminal, the gutter (a
//! right-aligned line number, a version-control mark, a space) and the status
//! bar (mode on the left, file name in the middle, reference on the right).

use vstd::prelude::*;
use crate::diff::PatchType;

verus! {

/// Columns taken by the gutter: three digits, a space, the mark column.
pub const GUTTER_WIDTH: usize = 5;

/// Rows taken by the status bar.
pub const STATUS_BAR_HEIGHT: usize = 1;

/// The window's `(width, height)` in a terminal of `cols` columns and `rows` rows.
pub fn view_size(cols: usize, rows: usize) -> (r: (usize, usize))
    ensures
        r.0 == (if cols > GUTTER_WIDTH { cols - GUTTER_WIDTH } else { 0 }),
        r.1 == (if rows > STATUS_BAR_HEIGHT { rows - STATUS_BAR_HEIGHT } else { 0 }),
{
    (
        if cols > GUTTER_WIDTH {
            cols - GUTTER_WIDTH
        } else {
            0
        },
        if rows > STATUS_BAR_HEIGHT {
            rows - STATUS_BAR_HEIGHT
        } else {
            0
        },
    )
}

/// The terminal cell (0-based column, row) of the window cell `cursor`.
pub fn screen_pos(cursor: (usize, usize)) -> (r: (usize, usize))
    requires
        cursor.0 + GUTTER_WIDTH <= usize::MAX,
    ensures
        r.0 == cursor.0 + GUTTER_WIDTH && r.1 == cursor.1,
{
    (cursor.0 + GUTTER_WIDTH, cursor.1)
}

/// The character for the decimal digit `d`.
pub open spec fn digit_char(d: nat) -> char {
    seq!['0', '1', '2', '3', '4', '5', '6', '7', '8', '9'][d as int]
}

/// `n` written in decimal.
pub open spec fn decimal(n: nat) -> Seq<char>
    decreases n,
{
    if n < 10 {
        seq![digit_char(n)]
    } else {
        decimal(n / 10).push(digit_char(n % 10))
    }
}

/// `k` spaces.
pub open spec fn spaces(k: int) -> Seq<char> {
    Seq::new(if k > 0 { k as nat } else { 0 }, |i: int| ' ')
}

fn digit(d: usize) -> (c: char)
    requires
        d < 10,
    ensures
        c == digit_char(d as nat),
{
    match d {
        0 => '0',
        1 => '1',
        2 => '2',
        3 => '3',
        4 => '4',
        5 => '5',
        6 => '6',
        7 => '7',
        8 => '8',
        _ => '9',
    }
}

fn push_decimal(n: usize, out: &mut String)
    ensures
        final(out)@ == old(out)@ + decimal(n as nat),
    decreases n,
{
    if n >= 10 {
        push_decimal(n / 10, out);
    }
    out.push(digit(n % 10));
    proof {
        if n >= 10 {
            assert(old(out)@ + decimal(n as nat) =~= old(out)@ + decimal((n / 10) as nat) + seq![digit_char((n % 10) as nat)]);
        } else {
            assert(old(out)@ + decimal(n as nat) =~= old(out)@.push(digit_char(n as nat)));
        }
    }
}

fn push_spaces(k: usize, out: &mut String)
    ensures
        final(out)@ == old(out)@ + spaces(k as int),
{
    let mut i: usize = 0;
    while i < k
        invariant
            i <= k,
            out@ =~= old(out)@ + spaces(i as int),
        decreases k - i,
    {
        out.push(' ');
        i = i + 1;
    }
}

/// The gutter's number for line `n`: right-aligned on three columns, then a space.
pub open spec fn number_label(n: nat) -> Seq<char> {
    spaces(3 - decimal(n).len()) + decimal(n) + seq![' ']
}

/// The gutter's number for line `n`, as `number_label` says.
pub fn line_number_label(n: usize) -> (r: String)
    ensures
        r@ == number_label(n as nat),
{
    let mut digits = String::new();
    push_decimal(n, &mut digits);
    let len = digits.as_str().unicode_len();
    let mut r = String::new();
    if len < 3 {
        push_spaces(3 - len, &mut r);
    } else {
        proof {
            assert(spaces(3 - len) =~= Seq::<char>::empty());
        }
    }
    r.append(digits.as_str());
    r.push(' ');
    proof {
        assert(digits@ == Seq::<char>::empty() + decimal(n as nat));
        assert(digits@ =~= decimal(n as nat));
    }
    r
}

/// The status bar of `width` columns: a space and the mode on the left, the
/// file name centred, the reference (if any) and a space on the right; the
/// gaps shrink to nothing when the bar is too narrow.
pub open spec fn status_line(mode: Seq<char>, name: Seq<char>, git_ref: Seq<char>, width: int) -> Seq<char> {
    let left = seq![' '] + mode;
    let name_at = (width - name.len()) / 2;
    let first = left + spaces(name_at - left.len()) + name;
    first + spaces(width - 1 - git_ref.len() - first.len()) + git_ref + seq![' ']
}

/// The status bar, as `status_line` says.
pub fn status_bar_text(mode: &str, name: &str, git_ref: &str, width: usize) -> (r: String)
    ensures
        r@ == status_line(mode@, name@, git_ref@, width as int),
{
    let ml = mode.unicode_len();
    let nl = name.unicode_len();
    let rl = git_ref.unicode_len();
    let mut r = String::new();
    r.push(' ');
    r.append(mode);
    let left_len: usize = if ml < usize::MAX { ml + 1 } else { usize::MAX };
    let name_at: usize = if width > nl { (width - nl) / 2 } else { 0 };
    let ghost w = width as int;
    proof {
        assert(r@ =~= seq![' '] + mode@);
    }
    if ml < usize::MAX && name_at > left_len {
        push_spaces(name_at - left_len, &mut r);
    } else {
        proof {
            assert(((w - nl) / 2) - (1 + ml) <= 0) by {
                if width > nl {
                    assert((w - nl) / 2 == name_at as int);
                } else {
                    assert((w - nl) / 2 <= 0) by (nonlinear_arith) requires w - nl <= 0;
                }
            }
            assert(r@ =~= r@ + spaces((w - nl) / 2 - (1 + ml)));
        }
    }
    proof {
        if width > nl {
            assert((w - nl) / 2 == name_at as int);
        }
    }
    r.append(name);
    let ghost first = r@;
    let fl = r.as_str().unicode_len();
    let used: u128 = fl as u128 + rl as u128 + 1;
    if (width as u128) > used {
        push_spaces((width as u128 - used) as usize, &mut r);
    } else {
        proof {
            assert(r@ =~= r@ + spaces(w - 1 - rl - fl));
        }
    }
    r.append(git_ref);
    r.push(' ');
    r
}

/// For each of `height` rows from line `start_line`, the mark of its line.
pub open spec fn row_marks(marks: Map<usize, PatchType>, start_line: int, height: int) -> Seq<Option<PatchType>> {
    Seq::new(
        if height > 0 { height as nat } else { 0 },
        |i: int|
            if start_line + i <= usize::MAX && marks.contains_key((start_line + i) as usize) {
                Some(marks[(start_line + i) as usize])
            } else {
                None
            },
    )
}

/// The mark of each row of the window, as `row_marks` says.
pub fn marks_for_rows(
    marks: &std::collections::HashMap<usize, PatchType>,
    start_line: usize,
    height: usize,
) -> (r: Vec<Option<PatchType>>)
    ensures
        r@ == row_marks(marks@, start_line as int, height as int),
{
    broadcast use vstd::std_specs::hash::group_hash_axioms;
    let mut r: Vec<Option<PatchType>> = Vec::new();
    let mut i: usize = 0;
    while i < height
        invariant
            i <= height,
            r@ =~= row_marks(marks@, start_line as int, height as int).subrange(0, i as int),
        decreases height - i,
    {
        if start_line > usize::MAX - i {
            r.push(None);
        } else {
            match marks.get(&(start_line + i)) {
                Some(k) => r.push(Some(*k)),
                None => r.push(None),
            }
        }
        i = i + 1;
    }
    r
}

} // verus!
