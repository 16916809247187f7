//! Version-control marks for the gutter. A line diff of the committed copy of
//! the file against the working text gives hunks; each hunk becomes a patch
//! (a first line, a number of lines, and whether they were added, changed or
//! deleted), and the patches become a map from line to mark.
//!
//! The hunks come either from libgit2 or from the header lines (`1c1,3`,
//! `38a39,40`, `40,41d39`) of the output of `diff`.

use vstd::prelude::*;
use crate::buffer::split_text;

verus! {

/// How a range of lines differs from the committed copy.
#[derive(Clone, Copy, Debug, PartialEq, Eq, Structural)]
pub enum PatchType {
    Added,
    Deleted,
    Changed,
}

/// `count` lines from line `start` (0-based) of the working text.
#[derive(Clone, Copy, Debug, PartialEq, Eq, Structural)]
pub struct Patch {
    pub start: usize,
    pub count: usize,
    pub patch_type: PatchType,
}

/// A patch by kind; a deletion marks a single line.
#[derive(Clone, Copy, Debug, PartialEq, Eq, Structural)]
pub enum Patches {
    /// `count` lines have been changed starting at `start`.
    Changed { start: usize, count: usize },
    /// `count` lines have been added starting at `start`.
    Added { start: usize, count: usize },
    /// Lines have been deleted at `start`.
    Deleted { start: usize },
}

/// A `diff` output that could not be read.
#[derive(Clone, Copy, Debug, PartialEq, Eq, Structural)]
pub struct DiffError;

impl Patch {
    /// The same patch told by kind.
    pub fn to_patches(&self) -> (r: Patches)
        ensures
            self.patch_type == PatchType::Added ==> r == (Patches::Added { start: self.start, count: self.count }),
            self.patch_type == PatchType::Changed ==> r == (Patches::Changed { start: self.start, count: self.count }),
            self.patch_type == PatchType::Deleted ==> r == (Patches::Deleted { start: self.start }),
    {
        match self.patch_type {
            PatchType::Added => Patches::Added { start: self.start, count: self.count },
            PatchType::Changed => Patches::Changed { start: self.start, count: self.count },
            PatchType::Deleted => Patches::Deleted { start: self.start },
        }
    }
}

/// The patch for a hunk that starts at line `new_start` (1-based) of the
/// working text and spans `old_lines` committed lines and `new_lines` working
/// lines: as many lines on both sides is a change, more working lines an
/// addition, fewer a deletion, which marks the one line where it begins.
pub open spec fn classified(new_start: u32, old_lines: u32, new_lines: u32) -> Patch {
    let kind = if old_lines == new_lines {
        PatchType::Changed
    } else if old_lines < new_lines {
        PatchType::Added
    } else {
        PatchType::Deleted
    };
    Patch {
        start: if kind == PatchType::Deleted || new_start == 0 {
            new_start as usize
        } else {
            (new_start - 1) as usize
        },
        count: if kind == PatchType::Deleted {
            1
        } else {
            new_lines as usize
        },
        patch_type: kind,
    }
}

/// The patch for one hunk, as `classified` says.
pub fn classify(new_start: u32, old_lines: u32, new_lines: u32) -> (r: Patch)
    ensures
        r == classified(new_start, old_lines, new_lines),
{
    let kind = if old_lines == new_lines {
        PatchType::Changed
    } else if old_lines < new_lines {
        PatchType::Added
    } else {
        PatchType::Deleted
    };
    let deleted = match kind {
        PatchType::Deleted => true,
        _ => false,
    };
    Patch {
        start: if deleted || new_start == 0 {
            new_start as usize
        } else {
            (new_start - 1) as usize
        },
        count: if deleted {
            1
        } else {
            new_lines as usize
        },
        patch_type: kind,
    }
}

/// The marks that the patches `ps` give, later patches over earlier ones.
pub open spec fn marks_spec(ps: Seq<Patch>) -> Map<usize, PatchType>
    decreases ps.len(),
{
    if ps.len() == 0 {
        Map::empty()
    } else {
        let p = ps.last();
        marks_spec(ps.drop_last()).union_prefer_right(
            Map::new(|l: usize| p.start <= l < p.start + p.count, |l: usize| p.patch_type),
        )
    }
}

/// The marks that the patches give, line by line.
pub fn marks(ps: &Vec<Patch>) -> (r: std::collections::HashMap<usize, PatchType>)
    ensures
        r@ == marks_spec(ps@),
{
    broadcast use vstd::std_specs::hash::group_hash_axioms;
    let mut m: std::collections::HashMap<usize, PatchType> = std::collections::HashMap::new();
    let mut k: usize = 0;
    while k < ps.len()
        invariant
            k <= ps@.len(),
            m@ == marks_spec(ps@.subrange(0, k as int)),
        decreases ps@.len() - k,
    {
        let p = ps[k];
        let ghost base = m@;
        let mut i: usize = 0;
        while i < p.count
            invariant
                i <= p.count,
                m@ == base.union_prefer_right(
                    Map::new(|l: usize| p.start <= l < p.start + i, |l: usize| p.patch_type),
                ),
            decreases p.count - i,
        {
            if p.start > usize::MAX - i {
                proof {
                    assert(m@ =~= base.union_prefer_right(
                        Map::new(|l: usize| p.start <= l < p.start + p.count, |l: usize| p.patch_type),
                    ));
                }
                i = p.count;
            } else {
                m.insert(p.start + i, p.patch_type);
                i = i + 1;
                proof {
                    assert(m@ =~= base.union_prefer_right(
                        Map::new(|l: usize| p.start <= l < p.start + i, |l: usize| p.patch_type),
                    ));
                }
            }
        }
        proof {
            let s = ps@.subrange(0, k + 1);
            assert(s.drop_last() =~= ps@.subrange(0, k as int));
            assert(s.last() == p);
        }
        k = k + 1;
    }
    assert(ps@.subrange(0, ps@.len() as int) =~= ps@);
    m
}

/// The hunks of a line diff of `old` against `new`, each as
/// `(new_start, old_lines, new_lines)`; `None` when the diff cannot be made.
pub uninterp spec fn diff_hunks(old: Seq<char>, new: Seq<char>) -> Option<Seq<(u32, u32, u32)>>;

/// Relies on git2's `Patch::from_buffers` (zero context lines) and
/// `Patch::hunk`: the hunks of the line diff of `old` against `new`, in order,
/// each as its `(new_start, old_lines, new_lines)`; `None` when libgit2
/// cannot make the diff.
#[verifier::external_body]
fn line_diff(old: &str, new: &str) -> (r: Option<Vec<(u32, u32, u32)>>)
    ensures
        r is None <==> diff_hunks(old@, new@) is None,
        r is Some ==> diff_hunks(old@, new@) == Some(r->0@),
{
    let mut opts = git2::DiffOptions::new();
    opts.context_lines(0);
    let patch = git2::Patch::from_buffers(old.as_bytes(), None, new.as_bytes(), None, Some(&mut opts)).ok()?;
    (0..patch.num_hunks()).map(|i| patch.hunk(i).ok().map(|(h, _)| (h.new_start(), h.old_lines(), h.new_lines()))).collect()
}

/// The patches for hunks `hs`, one for each, in order.
pub open spec fn patches_of(hs: Seq<(u32, u32, u32)>) -> Seq<Patch> {
    Seq::new(hs.len(), |i: int| classified(hs[i].0, hs[i].1, hs[i].2))
}

/// The patches for the hunks, as `patches_of` says.
pub fn classify_all(hs: &Vec<(u32, u32, u32)>) -> (r: Vec<Patch>)
    ensures
        r@ == patches_of(hs@),
{
    let mut r: Vec<Patch> = Vec::new();
    let mut i: usize = 0;
    while i < hs.len()
        invariant
            i <= hs@.len(),
            r@ =~= patches_of(hs@).subrange(0, i as int),
        decreases hs@.len() - i,
    {
        let (a, b, c) = hs[i];
        r.push(classify(a, b, c));
        i = i + 1;
    }
    assert(r@ =~= patches_of(hs@));
    r
}

/// The marks for the working text `content` against the committed text
/// `committed`; `None` when the diff could not be made. A file that was never
/// committed is diffed against the empty text.
pub fn compute_diff(committed: &str, content: &str) -> (r: Option<std::collections::HashMap<usize, PatchType>>)
    ensures
        r is None <==> diff_hunks(committed@, content@) is None,
        r is Some ==> r->0@ == marks_spec(patches_of(diff_hunks(committed@, content@)->0)),
{
    match line_diff(committed, content) {
        None => None,
        Some(hs) => {
            let ps = classify_all(&hs);
            Some(marks(&ps))
        },
    }
}

/// An ASCII digit.
pub open spec fn is_digit(c: char) -> bool {
    '0' <= c <= '9'
}

/// An ASCII letter.
pub open spec fn is_alpha(c: char) -> bool {
    ('a' <= c <= 'z') || ('A' <= c <= 'Z')
}

/// The value of the decimal digits `s`.
pub open spec fn digits_value(s: Seq<char>) -> int
    decreases s.len(),
{
    if s.len() == 0 {
        0
    } else {
        digits_value(s.drop_last()) * 10 + ((s.last() as u32) as int - ('0' as u32) as int)
    }
}

/// The number that `s` writes in decimal, when it is one that fits a `usize`.
pub open spec fn number(s: Seq<char>) -> Option<int> {
    if s.len() > 0 && (forall|i: int| 0 <= i < s.len() ==> is_digit(#[trigger] s[i])) && digits_value(s)
        <= usize::MAX {
        Some(digits_value(s))
    } else {
        None
    }
}

/// Index of the first letter of `l`, or its length when it has none.
pub open spec fn first_alpha(l: Seq<char>) -> int
    decreases l.len(),
{
    if l.len() == 0 {
        0
    } else {
        let k = first_alpha(l.drop_last());
        if k < l.len() - 1 {
            k
        } else if is_alpha(l.last()) {
            l.len() - 1
        } else {
            l.len() as int
        }
    }
}

/// Index of the first comma of `l`, or its length when it has none.
pub open spec fn first_comma(l: Seq<char>) -> int
    decreases l.len(),
{
    if l.len() == 0 {
        0
    } else {
        let k = first_comma(l.drop_last());
        if k < l.len() - 1 {
            k
        } else if l.last() == ',' {
            l.len() - 1
        } else {
            l.len() as int
        }
    }
}

/// The text after the first letter of `l`.
pub open spec fn after_letter(l: Seq<char>) -> Seq<char> {
    let k = first_alpha(l);
    if k < l.len() {
        l.subrange(k + 1, l.len() as int)
    } else {
        Seq::empty()
    }
}

/// What a header line `l` of `diff` output says: `None` when it is no header
/// (it does not start with a digit); `Some(None)` when the first number after
/// the letter is missing or too large. After the letter stand the first line
/// and, after a comma, the last line of the working text, 1-based. The count
/// is the last line less the 0-based start (0 when that number is unreadable),
/// or 1 without a comma. An `a` anywhere in the line makes an addition, else a
/// `d` a deletion, else it is a change.
pub open spec fn line_patch(l: Seq<char>) -> Option<Option<Patch>> {
    if l.len() == 0 || !is_digit(l[0]) {
        None
    } else {
        let rhs = after_letter(l);
        let c = first_comma(rhs);
        match number(rhs.subrange(0, c)) {
            None => Some(None),
            Some(n) => {
                let start = if n > 0 { n - 1 } else { 0 };
                let count = if c < rhs.len() {
                    let rest = rhs.subrange(c + 1, rhs.len() as int);
                    let m = match number(rest.subrange(0, first_comma(rest))) {
                        Some(m) => m,
                        None => 0,
                    };
                    if m > start {
                        m - start
                    } else {
                        0
                    }
                } else {
                    1
                };
                let kind = if l.contains('a') {
                    PatchType::Added
                } else if l.contains('d') {
                    PatchType::Deleted
                } else {
                    PatchType::Changed
                };
                Some(Some(Patch { start: start as usize, count: count as usize, patch_type: kind }))
            },
        }
    }
}

/// The patches that the header lines of `lines` give, in order; `None` when one is unreadable.
pub open spec fn parsed_lines(lines: Seq<Seq<char>>) -> Option<Seq<Patch>>
    decreases lines.len(),
{
    if lines.len() == 0 {
        Some(Seq::empty())
    } else {
        match parsed_lines(lines.drop_last()) {
            None => None,
            Some(ps) => match line_patch(lines.last()) {
                None => Some(ps),
                Some(None) => None,
                Some(Some(p)) => Some(ps.push(p)),
            },
        }
    }
}

proof fn lemma_first_alpha_prefix(l: Seq<char>, j: int)
    requires
        0 <= j <= l.len(),
        first_alpha(l.subrange(0, j)) < j,
    ensures
        first_alpha(l) == first_alpha(l.subrange(0, j)),
    decreases l.len() - j,
{
    if j < l.len() {
        let p = l.subrange(0, j + 1);
        assert(p.drop_last() =~= l.subrange(0, j));
        lemma_first_alpha_prefix(l, j + 1);
    } else {
        assert(l.subrange(0, j) =~= l);
    }
}

proof fn lemma_first_comma_prefix(l: Seq<char>, j: int)
    requires
        0 <= j <= l.len(),
        first_comma(l.subrange(0, j)) < j,
    ensures
        first_comma(l) == first_comma(l.subrange(0, j)),
    decreases l.len() - j,
{
    if j < l.len() {
        let p = l.subrange(0, j + 1);
        assert(p.drop_last() =~= l.subrange(0, j));
        lemma_first_comma_prefix(l, j + 1);
    } else {
        assert(l.subrange(0, j) =~= l);
    }
}

proof fn lemma_digits_grow(s: Seq<char>, j: int)
    requires
        0 <= j <= s.len(),
        forall|i: int| 0 <= i < s.len() ==> is_digit(#[trigger] s[i]),
    ensures
        digits_value(s.subrange(0, j)) <= digits_value(s),
    decreases s.len() - j,
{
    if j < s.len() {
        let p = s.subrange(0, j + 1);
        assert(p.drop_last() =~= s.subrange(0, j));
        assert(is_digit(s[j]));
        lemma_digits_nonneg(s.subrange(0, j));
        lemma_digits_grow(s, j + 1);
    } else {
        assert(s.subrange(0, j) =~= s);
    }
}

proof fn lemma_digits_nonneg(s: Seq<char>)
    requires
        forall|i: int| 0 <= i < s.len() ==> is_digit(#[trigger] s[i]),
    ensures
        digits_value(s) >= 0,
    decreases s.len(),
{
    if s.len() > 0 {
        assert(is_digit(s[s.len() - 1]));
        lemma_digits_nonneg(s.drop_last());
    }
}

proof fn lemma_failure_sticks(t: Seq<Seq<char>>, k: int)
    requires
        0 <= k <= t.len(),
        parsed_lines(t.subrange(0, k)) is None,
    ensures
        parsed_lines(t) is None,
    decreases t.len() - k,
{
    if k < t.len() {
        let q = t.subrange(0, k + 1);
        assert(q.drop_last() =~= t.subrange(0, k));
        lemma_failure_sticks(t, k + 1);
    } else {
        assert(t.subrange(0, k) =~= t);
    }
}

/// `l[a..b]`.
fn slice_of(l: &Vec<char>, a: usize, b: usize) -> (r: Vec<char>)
    requires
        a <= b <= l@.len(),
    ensures
        r@ == l@.subrange(a as int, b as int),
{
    let mut r: Vec<char> = Vec::new();
    let mut i: usize = a;
    while i < b
        invariant
            a <= i <= b,
            b <= l@.len(),
            r@ =~= l@.subrange(a as int, i as int),
        decreases b - i,
    {
        r.push(l[i]);
        i = i + 1;
    }
    r
}

/// Index of the first letter of `l`, as `first_alpha` says.
fn find_alpha(l: &Vec<char>) -> (r: usize)
    ensures
        r == first_alpha(l@),
{
    let mut j: usize = 0;
    proof {
        assert(l@.subrange(0, 0) =~= Seq::<char>::empty());
    }
    while j < l.len()
        invariant
            j <= l@.len(),
            first_alpha(l@.subrange(0, j as int)) == j,
        decreases l@.len() - j,
    {
        let c = l[j];
        proof {
            let p = l@.subrange(0, j + 1);
            assert(p.drop_last() =~= l@.subrange(0, j as int));
        }
        if ('a' <= c && c <= 'z') || ('A' <= c && c <= 'Z') {
            proof {
                lemma_first_alpha_prefix(l@, j + 1);
            }
            return j;
        }
        j = j + 1;
    }
    proof {
        assert(l@.subrange(0, j as int) =~= l@);
    }
    j
}

/// Index of the first comma of `l`, as `first_comma` says.
fn find_comma(l: &Vec<char>) -> (r: usize)
    ensures
        r == first_comma(l@),
{
    let mut j: usize = 0;
    proof {
        assert(l@.subrange(0, 0) =~= Seq::<char>::empty());
    }
    while j < l.len()
        invariant
            j <= l@.len(),
            first_comma(l@.subrange(0, j as int)) == j,
        decreases l@.len() - j,
    {
        let c = l[j];
        proof {
            let p = l@.subrange(0, j + 1);
            assert(p.drop_last() =~= l@.subrange(0, j as int));
        }
        if c == ',' {
            proof {
                lemma_first_comma_prefix(l@, j + 1);
            }
            return j;
        }
        j = j + 1;
    }
    proof {
        assert(l@.subrange(0, j as int) =~= l@);
    }
    j
}

/// The number that `s` writes in decimal, as `number` says.
fn read_number(s: &Vec<char>) -> (r: Option<usize>)
    ensures
        r is Some <==> number(s@) is Some,
        r is Some ==> r->0 == number(s@)->0,
{
    if s.len() == 0 {
        return None;
    }
    let mut v: usize = 0;
    let mut j: usize = 0;
    proof {
        assert(s@.subrange(0, 0) =~= Seq::<char>::empty());
    }
    while j < s.len()
        invariant
            j <= s@.len(),
            s@.len() > 0,
            v == digits_value(s@.subrange(0, j as int)),
            forall|i: int| 0 <= i < j ==> is_digit(#[trigger] s@[i]),
        decreases s@.len() - j,
    {
        let c = s[j];
        if !('0' <= c && c <= '9') {
            assert(!is_digit(s@[j as int]));
            return None;
        }
        let d = (c as u32 - '0' as u32) as usize;
        proof {
            let p = s@.subrange(0, j + 1);
            assert(p.drop_last() =~= s@.subrange(0, j as int));
            assert(p.last() == c);
        }
        if v > (usize::MAX - d) / 10 {
            proof {
                assert(v * 10 + d > usize::MAX) by (nonlinear_arith)
                    requires v > (usize::MAX - d) / 10, d <= 9;
                if forall|i: int| 0 <= i < s@.len() ==> is_digit(#[trigger] s@[i]) {
                    lemma_digits_grow(s@, j + 1);
                }
            }
            return None;
        }
        v = v * 10 + d;
        j = j + 1;
    }
    proof {
        assert(s@.subrange(0, j as int) =~= s@);
    }
    Some(v)
}

/// The patch that a header line says, as `line_patch` says.
fn parse_line(l: &Vec<char>) -> (r: Option<Option<Patch>>)
    ensures
        r == line_patch(l@),
{
    if l.len() == 0 || !('0' <= l[0] && l[0] <= '9') {
        return None;
    }
    let k = find_alpha(l);
    let rhs = if k < l.len() {
        slice_of(l, k + 1, l.len())
    } else {
        Vec::new()
    };
    assert(rhs@ == after_letter(l@));
    let c = find_comma(&rhs);
    let first = slice_of(&rhs, 0, c);
    let n = match read_number(&first) {
        None => {
            return Some(None);
        },
        Some(n) => n,
    };
    let start = if n > 0 {
        n - 1
    } else {
        0
    };
    let count = if c < rhs.len() {
        let rest = slice_of(&rhs, c + 1, rhs.len());
        let c2 = find_comma(&rest);
        let last = slice_of(&rest, 0, c2);
        let m = match read_number(&last) {
            Some(m) => m,
            None => 0,
        };
        if m > start {
            m - start
        } else {
            0
        }
    } else {
        1
    };
    let mut has_a = false;
    let mut has_d = false;
    let mut j: usize = 0;
    while j < l.len()
        invariant
            j <= l@.len(),
            has_a <==> l@.subrange(0, j as int).contains('a'),
            has_d <==> l@.subrange(0, j as int).contains('d'),
        decreases l@.len() - j,
    {
        let ghost pre = l@.subrange(0, j as int);
        if l[j] == 'a' {
            has_a = true;
        }
        if l[j] == 'd' {
            has_d = true;
        }
        j = j + 1;
        proof {
            let p = l@.subrange(0, j as int);
            assert(p =~= pre.push(l@[j - 1]));
            if has_a && !pre.contains('a') {
                assert(p[j - 1] == 'a');
            }
            if p.contains('a') && !pre.contains('a') {
                let i = choose|i: int| 0 <= i < p.len() && p[i] == 'a';
                if i < j - 1 {
                    assert(pre[i] == 'a');
                }
            }
            if pre.contains('a') {
                let i = choose|i: int| 0 <= i < pre.len() && pre[i] == 'a';
                assert(p[i] == 'a');
            }
            if has_d && !pre.contains('d') {
                assert(p[j - 1] == 'd');
            }
            if p.contains('d') && !pre.contains('d') {
                let i = choose|i: int| 0 <= i < p.len() && p[i] == 'd';
                if i < j - 1 {
                    assert(pre[i] == 'd');
                }
            }
            if pre.contains('d') {
                let i = choose|i: int| 0 <= i < pre.len() && pre[i] == 'd';
                assert(p[i] == 'd');
            }
        }
    }
    proof {
        assert(l@.subrange(0, j as int) =~= l@);
    }
    let kind = if has_a {
        PatchType::Added
    } else if has_d {
        PatchType::Deleted
    } else {
        PatchType::Changed
    };
    Some(Some(Patch { start, count, patch_type: kind }))
}

/// The lines of `s`, cut at each line feed.
fn split_lines(s: &str) -> (r: Vec<Vec<char>>)
    ensures
        r@.map_values(|l: Vec<char>| l@) == split_text(s@),
{
    let n = s.unicode_len();
    let mut done: Vec<Vec<char>> = Vec::new();
    let mut cur: Vec<char> = Vec::new();
    let mut i: usize = 0;
    proof {
        assert(s@.subrange(0, 0) =~= Seq::<char>::empty());
        assert(done@.map_values(|l: Vec<char>| l@).push(cur@) =~= seq![Seq::<char>::empty()]);
    }
    while i < n
        invariant
            n == s@.len(),
            i <= n,
            split_text(s@.subrange(0, i as int)) == done@.map_values(|l: Vec<char>| l@).push(cur@),
        decreases n - i,
    {
        let c = s.get_char(i);
        let ghost pre = s@.subrange(0, i as int);
        let ghost old_done = done@.map_values(|l: Vec<char>| l@);
        let ghost old_cur = cur@;
        proof {
            let p = s@.subrange(0, i + 1);
            assert(p.drop_last() =~= pre);
            assert(p.last() == c);
            assert(old_done.push(old_cur).last() == old_cur);
        }
        if c == '\n' {
            done.push(cur);
            cur = Vec::new();
            proof {
                assert(done@.map_values(|l: Vec<char>| l@) =~= old_done.push(old_cur));
            }
        } else {
            cur.push(c);
        }
        i = i + 1;
    }
    done.push(cur);
    proof {
        assert(s@.subrange(0, n as int) =~= s@);
    }
    done
}

/// The marks of a file that the repository does not track: every non-empty
/// line of `t` is added.
pub open spec fn untracked_spec(t: Seq<Seq<char>>) -> Map<usize, PatchType> {
    Map::new(|l: usize| l < t.len() && t[l as int].len() > 0, |l: usize| PatchType::Added)
}

/// The marks of the untracked text `content`, as `untracked_spec` says of its lines.
pub fn untracked_marks(content: &str) -> (r: std::collections::HashMap<usize, PatchType>)
    ensures
        r@ == untracked_spec(split_text(content@)),
{
    broadcast use vstd::std_specs::hash::group_hash_axioms;
    let lines = split_lines(content);
    let ghost t = split_text(content@);
    let mut m: std::collections::HashMap<usize, PatchType> = std::collections::HashMap::new();
    let mut i: usize = 0;
    while i < lines.len()
        invariant
            i <= lines@.len(),
            t == lines@.map_values(|l: Vec<char>| l@),
            m@ == Map::new(|l: usize| l < i && t[l as int].len() > 0, |l: usize| PatchType::Added),
        decreases lines@.len() - i,
    {
        proof {
            assert(t[i as int] == lines@[i as int]@);
        }
        if lines[i].len() > 0 {
            m.insert(i, PatchType::Added);
        }
        i = i + 1;
        proof {
            assert(m@ =~= Map::new(|l: usize| l < i && t[l as int].len() > 0, |l: usize| PatchType::Added));
        }
    }
    proof {
        assert(m@ =~= untracked_spec(t));
    }
    m
}

/// The patches that the header lines of a `diff` output give, in order, as
/// `parsed_lines` says; an error when one of them is unreadable.
pub fn parse_diff_result(diff: &str) -> (r: Result<Vec<Patch>, DiffError>)
    ensures
        parsed_lines(split_text(diff@)) is None ==> r is Err,
        parsed_lines(split_text(diff@)) is Some ==> r is Ok && r->Ok_0@ == parsed_lines(split_text(diff@))->0,
{
    let lines = split_lines(diff);
    let ghost t = split_text(diff@);
    let mut result: Vec<Patch> = Vec::new();
    let mut i: usize = 0;
    proof {
        assert(t.subrange(0, 0) =~= Seq::<Seq<char>>::empty());
    }
    while i < lines.len()
        invariant
            i <= lines@.len(),
            t == lines@.map_values(|l: Vec<char>| l@),
            t == split_text(diff@),
            parsed_lines(t.subrange(0, i as int)) == Some(result@),
        decreases lines@.len() - i,
    {
        let ghost pre = t.subrange(0, i as int);
        proof {
            let p = t.subrange(0, i + 1);
            assert(p.drop_last() =~= pre);
            assert(p.last() == lines@[i as int]@);
        }
        match parse_line(&lines[i]) {
            None => {},
            Some(None) => {
                proof {
                    let q = t.subrange(0, i + 1);
                    assert(q.drop_last() =~= pre);
                    assert(q.last() == t[i as int]);
                    assert(line_patch(q.last()) == Some(None::<Patch>));
                    assert(parsed_lines(q) is None);
                    lemma_failure_sticks(t, i + 1);
                }
                return Err(DiffError);
            },
            Some(Some(p)) => {
                result.push(p);
            },
        }
        i = i + 1;
    }
    proof {
        assert(t.subrange(0, t.len() as int) =~= t);
    }
    Ok(result)
}

} // verus!
