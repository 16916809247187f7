//! Foreground colors for the buffer's characters. The colors come from a
//! syntax highlighter that reads the whole text and hands back, for each
//! line, runs of characters that share one foreground color.

use vstd::prelude::*;

verus! {

/// An RGB foreground color.
#[derive(Clone, Copy, Debug, PartialEq, Eq, Structural)]
pub struct Rgb {
    pub r: u8,
    pub g: u8,
    pub b: u8,
}

/// A character with its foreground color.
#[derive(Clone, Copy, Debug, PartialEq, Eq, Structural)]
pub struct ColorChar {
    pub ch: char,
    pub color: Rgb,
}

impl ColorChar {
    /// `ch` drawn in `color`.
    pub fn new(ch: char, color: Rgb) -> (r: Self)
        ensures
            r.ch == ch,
            r.color == color,
    {
        ColorChar { ch, color }
    }
}

/// A run of highlighted text: its foreground color as `(r, g, b)` and its characters.
pub type Run = (u8, u8, u8, String);

/// The color of characters that no highlighter has colored.
pub open spec fn plain_spec() -> Rgb {
    Rgb { r: 255, g: 255, b: 255 }
}

/// The color of characters that no highlighter has colored.
pub fn plain() -> (r: Rgb)
    ensures
        r == plain_spec(),
{
    Rgb { r: 255, g: 255, b: 255 }
}

/// The runs, line by line, that the highlighter gives for `text` read as a
/// file with extension `ext`.
pub uninterp spec fn highlight_runs(ext: Seq<char>, text: Seq<char>) -> Seq<Seq<(u8, u8, u8, Seq<char>)>>;

/// Relies on syntect's `HighlightLines::highlight_line` over
/// `LinesWithEndings`, with syntect's default syntaxes (the one for `ext`, else
/// plain text) and its default theme "base16-ocean.dark": for each line of
/// `text`, the runs of one foreground color, in order. The result depends on
/// `ext` and `text` alone.
#[verifier::external_body]
fn highlight(ext: &str, text: &str) -> (r: Vec<Vec<Run>>)
    ensures
        r.deep_view() == highlight_runs(ext@, text@),
{
    let ps = syntect::parsing::SyntaxSet::load_defaults_newlines();
    let ts = syntect::highlighting::ThemeSet::load_defaults();
    let syntax = ps.find_syntax_by_extension(ext).unwrap_or(ps.find_syntax_plain_text());
    let mut h = syntect::easy::HighlightLines::new(syntax, &ts.themes["base16-ocean.dark"]);
    syntect::util::LinesWithEndings::from(text).map(|line| {
        let runs = h.highlight_line(line, &ps).unwrap_or_default();
        runs.into_iter().map(|(st, p)| (st.foreground.r, st.foreground.g, st.foreground.b, p.to_string())).collect()
    }).collect()
}

/// One color per character of `piece`, line feeds left out.
pub open spec fn piece_colors(color: Rgb, piece: Seq<char>) -> Seq<Rgb>
    decreases piece.len(),
{
    if piece.len() == 0 {
        Seq::empty()
    } else if piece.last() == '\n' {
        piece_colors(color, piece.drop_last())
    } else {
        piece_colors(color, piece.drop_last()).push(color)
    }
}

/// The colors of a line's runs, one per character, in order.
pub open spec fn run_colors(runs: Seq<(u8, u8, u8, Seq<char>)>) -> Seq<Rgb>
    decreases runs.len(),
{
    if runs.len() == 0 {
        Seq::empty()
    } else {
        let last = runs.last();
        run_colors(runs.drop_last()) + piece_colors(Rgb { r: last.0, g: last.1, b: last.2 }, last.3)
    }
}

/// `cs` cut or padded with the plain color to length `n`.
pub open spec fn fit_colors(cs: Seq<Rgb>, n: nat) -> Seq<Rgb> {
    Seq::new(n, |j: int| if j < cs.len() { cs[j] } else { plain_spec() })
}

/// The colors of the lines `t`, taken from `runs` line by line.
pub open spec fn painted(t: Seq<Seq<char>>, runs: Seq<Seq<(u8, u8, u8, Seq<char>)>>) -> Seq<Seq<Rgb>> {
    Seq::new(
        t.len(),
        |i: int|
            fit_colors(
                if i < runs.len() {
                    run_colors(runs[i])
                } else {
                    Seq::empty()
                },
                t[i].len(),
            ),
    )
}

/// Append the colors of one run to `out`.
fn push_piece_colors(color: Rgb, piece: &String, out: &mut Vec<Rgb>)
    ensures
        final(out)@ == old(out)@ + piece_colors(color, piece@),
{
    let n = piece.as_str().unicode_len();
    let mut j: usize = 0;
    while j < n
        invariant
            n == piece@.len(),
            j <= n,
            out@ == old(out)@ + piece_colors(color, piece@.subrange(0, j as int)),
        decreases n - j,
    {
        let c = piece.as_str().get_char(j);
        proof {
            let p = piece@.subrange(0, j + 1);
            assert(p.drop_last() =~= piece@.subrange(0, j as int));
            assert(p.last() == c);
        }
        if c != '\n' {
            out.push(color);
        }
        j = j + 1;
        proof {
            assert(out@ =~= old(out)@ + piece_colors(color, piece@.subrange(0, j as int)));
        }
    }
    assert(piece@.subrange(0, n as int) =~= piece@);
}

/// The colors of one line of `n` characters, from its runs.
fn line_colors(runs: &Vec<Run>, n: usize) -> (r: Vec<Rgb>)
    ensures
        r@ == fit_colors(run_colors(runs.deep_view()), n as nat),
{
    let mut cs: Vec<Rgb> = Vec::new();
    let mut k: usize = 0;
    while k < runs.len()
        invariant
            k <= runs.len(),
            cs@ == run_colors(runs.deep_view().subrange(0, k as int)),
        decreases runs.len() - k,
    {
        let run = &runs[k];
        let color = Rgb { r: run.0, g: run.1, b: run.2 };
        push_piece_colors(color, &run.3, &mut cs);
        proof {
            let rs = runs.deep_view().subrange(0, k + 1);
            assert(rs.drop_last() =~= runs.deep_view().subrange(0, k as int));
            assert(rs.last() == runs.deep_view()[k as int]);
        }
        k = k + 1;
    }
    assert(runs.deep_view().subrange(0, runs.len() as int) =~= runs.deep_view());
    let mut r: Vec<Rgb> = Vec::new();
    let mut j: usize = 0;
    while j < n
        invariant
            j <= n,
            r@ =~= fit_colors(cs@, n as nat).subrange(0, j as int),
        decreases n - j,
    {
        if j < cs.len() {
            r.push(cs[j]);
        } else {
            r.push(plain());
        }
        j = j + 1;
    }
    assert(r@ =~= fit_colors(cs@, n as nat));
    r
}

/// The colors of all lines, from the runs that the highlighter gave.
pub fn paint(lines: &Vec<Vec<char>>, runs: &Vec<Vec<Run>>) -> (r: Vec<Vec<Rgb>>)
    ensures
        r@.map_values(|l: Vec<Rgb>| l@) == painted(lines@.map_values(|l: Vec<char>| l@), runs.deep_view()),
{
    let ghost t = lines@.map_values(|l: Vec<char>| l@);
    let ghost dv = runs.deep_view();
    let empty: Vec<Run> = Vec::new();
    let mut r: Vec<Vec<Rgb>> = Vec::new();
    let mut i: usize = 0;
    while i < lines.len()
        invariant
            i <= lines.len(),
            t == lines@.map_values(|l: Vec<char>| l@),
            dv == runs.deep_view(),
            empty@.len() == 0,
            r@.len() == i,
            forall|k: int| 0 <= k < i ==> #[trigger] r@[k]@ == painted(t, dv)[k],
        decreases lines.len() - i,
    {
        let n = lines[i].len();
        let lc = if i < runs.len() {
            line_colors(&runs[i], n)
        } else {
            proof {
                assert(empty.deep_view() =~= Seq::<(u8, u8, u8, Seq<char>)>::empty());
            }
            line_colors(&empty, n)
        };
        proof {
            assert(t[i as int] == lines@[i as int]@);
            assert(lc@ == painted(t, dv)[i as int]);
        }
        r.push(lc);
        i = i + 1;
    }
    assert(r@.map_values(|l: Vec<Rgb>| l@) =~= painted(t, dv));
    r
}

/// The colors of the lines `t` under the highlighter for `syntax`, or plain
/// when there is none.
pub open spec fn colors_of(t: Seq<Seq<char>>, text: Seq<char>, syntax: Option<Seq<char>>) -> Seq<Seq<Rgb>> {
    match syntax {
        None => painted(t, Seq::empty()),
        Some(ext) => painted(t, highlight_runs(ext, text)),
    }
}

/// The colors of `lines`, whose text joined by line feeds is `text`, under the
/// highlighter for `syntax`.
pub fn colorize(lines: &Vec<Vec<char>>, text: &String, syntax: &Option<String>) -> (r: Vec<Vec<Rgb>>)
    ensures
        r@.map_values(|l: Vec<Rgb>| l@) == colors_of(
            lines@.map_values(|l: Vec<char>| l@),
            text@,
            match syntax {
                None => None,
                Some(e) => Some(e@),
            },
        ),
{
    match syntax {
        None => {
            let runs: Vec<Vec<Run>> = Vec::new();
            proof {
                assert(runs.deep_view() =~= Seq::<Seq<(u8, u8, u8, Seq<char>)>>::empty());
            }
            paint(lines, &runs)
        },
        Some(ext) => {
            let runs = highlight(ext.as_str(), text.as_str());
            paint(lines, &runs)
        },
    }
}

/// Each character of `line` with the color at the same index.
pub fn zip_colors(line: &Vec<char>, colors: &Vec<Rgb>) -> (out: Vec<ColorChar>)
    requires
        colors@.len() == line@.len(),
    ensures
        out@.len() == line@.len(),
        forall|k: int| 0 <= k < line@.len() ==> (#[trigger] out@[k]).ch == line@[k] && out@[k].color == colors@[k],
{
    let mut out: Vec<ColorChar> = Vec::new();
    let mut j: usize = 0;
    while j < line.len()
        invariant
            j <= line@.len(),
            colors@.len() == line@.len(),
            out@.len() == j,
            forall|k: int| 0 <= k < j ==> (#[trigger] out@[k]).ch == line@[k] && out@[k].color == colors@[k],
        decreases line@.len() - j,
    {
        out.push(ColorChar::new(line[j], colors[j]));
        j = j + 1;
    }
    out
}

} // verus!
