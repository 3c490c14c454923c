//! Mermaid diagrams drawn as text: the drawing engines produce box-drawing text, which is cut
//! into rows of runs by what each character is (border, edge marker or label text).
use vstd::prelude::*;

use crate::markdown::front_matter::{lines_of, text_lines, views};
use crate::render::wrap::{str_columns, width};
use crate::text::{string_of, trim_end, trimmed_end};

verus! {

/// What a run of characters in a drawing is.
#[derive(Debug, Clone, Copy, PartialEq, Eq, Structural)]
pub enum Kind {
    Text,
    Border,
    Edge,
}

/// The arrow heads and node markers that end or mark an edge.
pub open spec fn is_edge_char(c: char) -> bool {
    ||| c == '▲' || c == '▼' || c == '◀' || c == '▶' || c == '◄' || c == '►'
    ||| c == '▴' || c == '▾' || c == '◂' || c == '▸' || c == '△' || c == '▽'
    ||| c == '◁' || c == '▷' || c == '●' || c == '◉' || c == '○' || c == '✕'
    ||| c == '◆' || c == '◇'
}

/// The kind of a character: edge markers, then the box-drawing block `U+2500..=U+257F`, then
/// text.
pub open spec fn kind_of(c: char) -> Kind {
    if is_edge_char(c) {
        Kind::Edge
    } else if 0x2500 <= (c as u32) && (c as u32) <= 0x257f {
        Kind::Border
    } else {
        Kind::Text
    }
}

pub fn classify(ch: char) -> (k: Kind)
    ensures
        k == kind_of(ch),
{
    if ch == '▲' || ch == '▼' || ch == '◀' || ch == '▶' || ch == '◄' || ch == '►' || ch == '▴'
        || ch == '▾' || ch == '◂' || ch == '▸' || ch == '△' || ch == '▽' || ch == '◁' || ch
        == '▷' || ch == '●' || ch == '◉' || ch == '○' || ch == '✕' || ch == '◆' || ch == '◇' {
        Kind::Edge
    } else {
        let u = ch as u32;
        if 0x2500 <= u && u <= 0x257f {
            Kind::Border
        } else {
            Kind::Text
        }
    }
}

/// A row as runs: consecutive characters of one kind form one run, in order.
pub open spec fn runs(s: Seq<char>) -> Seq<(Kind, Seq<char>)>
    decreases s.len(),
{
    if s.len() == 0 {
        seq![]
    } else {
        let r = runs(s.drop_last());
        let c = s.last();
        let k = kind_of(c);
        if r.len() > 0 && r.last().0 == k {
            r.update(r.len() - 1, (k, r.last().1.push(c)))
        } else {
            r.push((k, seq![c]))
        }
    }
}

/// `rows` without its trailing empty rows.
pub open spec fn drop_empty_tail(rows: Seq<Seq<(Kind, Seq<char>)>>) -> Seq<Seq<(Kind, Seq<char>)>>
    decreases rows.len(),
{
    if rows.len() > 0 && rows.last().len() == 0 {
        drop_empty_tail(rows.drop_last())
    } else {
        rows
    }
}

/// The runs of each line of `text` (each line without its trailing whitespace).
pub open spec fn line_runs(lines: Seq<Seq<char>>) -> Seq<Seq<(Kind, Seq<char>)>>
    decreases lines.len(),
{
    if lines.len() == 0 {
        seq![]
    } else {
        line_runs(lines.drop_last()).push(runs(trim_end(lines.last())))
    }
}

/// The rows of the drawing that `text` is.
pub open spec fn drawing_rows(text: Seq<char>) -> Seq<Seq<(Kind, Seq<char>)>> {
    drop_empty_tail(line_runs(lines_of(text)))
}

/// The columns a row takes: the sum of its runs' widths.
pub open spec fn row_columns(row: Seq<(Kind, Seq<char>)>) -> nat
    decreases row.len(),
{
    if row.len() == 0 {
        0
    } else {
        row_columns(row.drop_last()) + str_columns(row.last().1)
    }
}

/// The widest row's columns, 0 for no rows.
pub open spec fn max_columns(rows: Seq<Seq<(Kind, Seq<char>)>>) -> nat
    decreases rows.len(),
{
    if rows.len() == 0 {
        0
    } else {
        let a = max_columns(rows.drop_last());
        let b = row_columns(rows.last());
        if a >= b {
            a
        } else {
            b
        }
    }
}

/// A row's text: its runs one after the other.
pub open spec fn row_text(row: Seq<(Kind, Seq<char>)>) -> Seq<char>
    decreases row.len(),
{
    if row.len() == 0 {
        seq![]
    } else {
        row_text(row.drop_last()) + row.last().1
    }
}

/// Some run of some row takes a column.
pub open spec fn has_columns(rows: Seq<Seq<(Kind, Seq<char>)>>) -> bool {
    exists|i: int, j: int|
        0 <= i < rows.len() && 0 <= j < rows[i].len() && str_columns(#[trigger] rows[i][j].1) > 0
}

pub open spec fn run_view(p: (Kind, String)) -> (Kind, Seq<char>) {
    (p.0, p.1@)
}

pub open spec fn row_view(r: Vec<(Kind, String)>) -> Seq<(Kind, Seq<char>)> {
    r@.map_values(|p: (Kind, String)| run_view(p))
}

/// A diagram drawn as rows of runs.
#[derive(Debug, Clone)]
pub struct Drawing {
    pub rows: Vec<Vec<(Kind, String)>>,
}

impl View for Drawing {
    type V = Seq<Seq<(Kind, Seq<char>)>>;

    open spec fn view(&self) -> Seq<Seq<(Kind, Seq<char>)>> {
        self.rows@.map_values(|r: Vec<(Kind, String)>| row_view(r))
    }
}

proof fn lemma_row_columns_prefix(row: Seq<(Kind, Seq<char>)>, i: int)
    requires
        0 <= i <= row.len(),
    ensures
        row_columns(row.take(i)) <= row_columns(row),
    decreases row.len() - i,
{
    if i < row.len() {
        lemma_row_columns_prefix(row, i + 1);
        assert(row.take(i + 1).drop_last() =~= row.take(i));
    } else {
        assert(row.take(i) =~= row);
    }
}

/// The widest row is at least as wide as each row.
proof fn lemma_max_columns_at_least(rows: Seq<Seq<(Kind, Seq<char>)>>, i: int)
    requires
        0 <= i < rows.len(),
    ensures
        row_columns(rows[i]) <= max_columns(rows),
    decreases rows.len(),
{
    if i < rows.len() - 1 {
        lemma_max_columns_at_least(rows.drop_last(), i);
    }
}

proof fn lemma_has_columns(rows: Seq<Seq<(Kind, Seq<char>)>>)
    ensures
        has_columns(rows) <==> max_columns(rows) > 0,
    decreases rows.len(),
{
    if rows.len() > 0 {
        let init = rows.drop_last();
        lemma_has_columns(init);
        lemma_row_columns_positive(rows.last());
        if has_columns(init) {
            let (i, j) = choose|i: int, j: int|
                0 <= i < init.len() && 0 <= j < init[i].len() && str_columns(#[trigger] init[i][j].1) > 0;
            assert(rows[i][j] == init[i][j]);
        }
        if has_columns(rows) {
            let (i, j) = choose|i: int, j: int|
                0 <= i < rows.len() && 0 <= j < rows[i].len() && str_columns(#[trigger] rows[i][j].1) > 0;
            if i < rows.len() - 1 {
                assert(init[i][j] == rows[i][j]);
            }
        }
        if row_columns(rows.last()) > 0 {
            let j = choose|j: int|
                0 <= j < rows.last().len() && str_columns(#[trigger] rows.last()[j].1) > 0;
            assert(rows[rows.len() - 1][j] == rows.last()[j]);
        }
    }
}

proof fn lemma_row_columns_positive(row: Seq<(Kind, Seq<char>)>)
    ensures
        row_columns(row) > 0 <==> exists|j: int|
            0 <= j < row.len() && str_columns(#[trigger] row[j].1) > 0,
    decreases row.len(),
{
    if row.len() > 0 {
        let init = row.drop_last();
        lemma_row_columns_positive(init);
        if row_columns(init) > 0 {
            let j = choose|j: int| 0 <= j < init.len() && str_columns(#[trigger] init[j].1) > 0;
            assert(row[j] == init[j]);
        }
        if exists|j: int| 0 <= j < row.len() && str_columns(#[trigger] row[j].1) > 0 {
            let j = choose|j: int| 0 <= j < row.len() && str_columns(#[trigger] row[j].1) > 0;
            if j < row.len() - 1 {
                assert(init[j] == row[j]);
            }
        }
    }
}

/// Appends `ch` to the runs in `out`: to the last run if it has `ch`'s kind, else as a new run.
fn push_char_run(out: &mut Vec<(Kind, Vec<char>)>, ch: char)
    ensures
        ({
            let k = kind_of(ch);
            let r = chars_runs(old(out)@);
            chars_runs(final(out)@) == if r.len() > 0 && r.last().0 == k {
                r.update(r.len() - 1, (k, r.last().1.push(ch)))
            } else {
                r.push((k, seq![ch]))
            }
        }),
{
    let kind = classify(ch);
    let n = out.len();
    if n > 0 && out[n - 1].0 == kind {
        let mut last = out.pop().unwrap();
        last.1.push(ch);
        out.push(last);
        assert(chars_runs(out@) =~= chars_runs(old(out)@).update(n - 1, (kind, chars_runs(old(out)@).last().1.push(ch))));
    } else {
        let mut v: Vec<char> = Vec::new();
        v.push(ch);
        assert(v@ =~= seq![ch]);
        out.push((kind, v));
        assert(chars_runs(out@) =~= chars_runs(old(out)@).push((kind, seq![ch])));
    }
}

pub open spec fn chars_runs(v: Seq<(Kind, Vec<char>)>) -> Seq<(Kind, Seq<char>)> {
    v.map_values(|p: (Kind, Vec<char>)| (p.0, p.1@))
}

/// The runs of one line.
fn line_runs_exec(line: &Vec<char>) -> (r: Vec<(Kind, String)>)
    ensures
        row_view(r) == runs(trim_end(line@)),
{
    let t = trimmed_end(line);
    let mut acc: Vec<(Kind, Vec<char>)> = Vec::new();
    let mut i: usize = 0;
    while i < t.len()
        invariant
            i <= t.len(),
            chars_runs(acc@) == runs(t@.take(i as int)),
        decreases t.len() - i,
    {
        push_char_run(&mut acc, t[i]);
        assert(t@.take(i + 1).drop_last() =~= t@.take(i as int));
        i = i + 1;
    }
    assert(t@.take(t.len() as int) =~= t@);
    let mut out: Vec<(Kind, String)> = Vec::new();
    let mut j: usize = 0;
    while j < acc.len()
        invariant
            j <= acc.len(),
            out@.len() == j,
            row_view(out) == chars_runs(acc@).take(j as int),
        decreases acc.len() - j,
    {
        let s = string_of(&acc[j].1);
        let ghost before = out@;
        out.push((acc[j].0, s));
        assert(run_view(out@[j as int]) == chars_runs(acc@)[j as int]);
        assert(forall|k: int| 0 <= k < j ==> out@[k] == before[k]);
        assert(row_view(out) =~= chars_runs(acc@).take(j + 1));
        j = j + 1;
    }
    assert(chars_runs(acc@).take(acc.len() as int) =~= chars_runs(acc@));
    out
}

impl Drawing {
    /// The drawing that `text` is: one row per line, each line cut into runs of one kind,
    /// trailing blank rows dropped.
    pub fn from_text(text: &str) -> (d: Drawing)
        ensures
            d@ == drawing_rows(text@),
    {
        let lines = text_lines(text);
        let ghost ls = views(lines@);
        let mut rows: Vec<Vec<(Kind, String)>> = Vec::new();
        let mut i: usize = 0;
        while i < lines.len()
            invariant
                i <= lines.len(),
                ls == views(lines@),
                (Drawing { rows })@ == line_runs(ls.take(i as int)),
            decreases lines.len() - i,
        {
            let row = line_runs_exec(&lines[i]);
            rows.push(row);
            assert(ls.take(i + 1).drop_last() =~= ls.take(i as int));
            assert(ls[i as int] == lines@[i as int]@);
            assert((Drawing { rows })@ =~= line_runs(ls.take(i as int)).push(runs(trim_end(ls[i as int]))));
            i = i + 1;
        }
        assert(ls.take(lines.len() as int) =~= ls);
        while rows.len() > 0 && rows[rows.len() - 1].len() == 0
            invariant
                drop_empty_tail((Drawing { rows })@) == drop_empty_tail(line_runs(ls)),
            decreases rows.len(),
        {
            let ghost before = (Drawing { rows })@;
            rows.pop();
            assert((Drawing { rows })@ =~= before.drop_last());
        }
        let d = Drawing { rows };
        assert(d@ == drop_empty_tail(d@));
        d
    }

    /// The columns of the widest row.
    pub fn width(&self) -> (w: usize)
        requires
            forall|i: int| 0 <= i < self@.len() ==> row_columns(#[trigger] self@[i]) <= usize::MAX,
        ensures
            w == max_columns(self@),
    {
        let mut best: usize = 0;
        let mut i: usize = 0;
        while i < self.rows.len()
            invariant
                i <= self.rows.len(),
                forall|k: int| 0 <= k < self@.len() ==> row_columns(#[trigger] self@[k]) <= usize::MAX,
                best == max_columns(self@.take(i as int)),
            decreases self.rows.len() - i,
        {
            let row = &self.rows[i];
            let ghost rv = self@[i as int];
            assert(rv == row_view(*row));
            let mut sum: usize = 0;
            let mut j: usize = 0;
            while j < row.len()
                invariant
                    j <= row.len(),
                    rv == row_view(*row),
                    row_columns(rv) <= usize::MAX,
                    sum == row_columns(rv.take(j as int)),
                decreases row.len() - j,
            {
                proof {
                    lemma_row_columns_prefix(rv, j + 1);
                    assert(rv.take(j + 1).drop_last() =~= rv.take(j as int));
                }
                let w = width(row[j].1.as_str());
                sum = sum + w;
                j = j + 1;
            }
            assert(rv.take(row.len() as int) =~= rv);
            if sum > best {
                best = sum;
            }
            assert(self@.take(i + 1).drop_last() =~= self@.take(i as int));
            i = i + 1;
        }
        assert(self@.take(self.rows.len() as int) =~= self@);
        best
    }

    /// Whether the widest row takes at most `limit` columns.
    pub fn fits_in(&self, limit: usize) -> (b: bool)
        ensures
            b == (max_columns(self@) <= limit),
    {
        let mut i: usize = 0;
        while i < self.rows.len()
            invariant
                i <= self.rows.len(),
                max_columns(self@.take(i as int)) <= limit,
            decreases self.rows.len() - i,
        {
            let row = &self.rows[i];
            let ghost rv = self@[i as int];
            assert(rv == row_view(*row));
            let mut sum: usize = 0;
            let mut j: usize = 0;
            while j < row.len()
                invariant
                    j <= row.len(),
                    rv == row_view(*row),
                    rv == self@[i as int],
                    i < self@.len(),
                    sum == row_columns(rv.take(j as int)),
                    sum <= limit,
                decreases row.len() - j,
            {
                assert(rv.take(j + 1).drop_last() =~= rv.take(j as int));
                let w = width(row[j].1.as_str());
                if w > limit - sum {
                    proof {
                        lemma_row_columns_prefix(rv, j + 1);
                        lemma_max_columns_at_least(self@, i as int);
                    }
                    return false;
                }
                sum = sum + w;
                j = j + 1;
            }
            assert(rv.take(row.len() as int) =~= rv);
            assert(self@.take(i + 1).drop_last() =~= self@.take(i as int));
            i = i + 1;
        }
        assert(self@.take(self.rows.len() as int) =~= self@);
        true
    }

    /// Whether some run takes a column: the drawing is wider than nothing.
    pub fn has_width(&self) -> (b: bool)
        ensures
            b == (max_columns(self@) > 0),
    {
        proof {
            lemma_has_columns(self@);
        }
        let mut i: usize = 0;
        while i < self.rows.len()
            invariant
                i <= self.rows.len(),
                has_columns(self@) <==> max_columns(self@) > 0,
                forall|a: int, b: int|
                    0 <= a < i && 0 <= b < self@[a].len() ==> str_columns(#[trigger] self@[a][b].1) == 0,
            decreases self.rows.len() - i,
        {
            let row = &self.rows[i];
            let ghost rv = self@[i as int];
            assert(rv == row_view(*row));
            let mut j: usize = 0;
            while j < row.len()
                invariant
                    j <= row.len(),
                    rv == row_view(*row),
                    i < self.rows.len(),
                    rv == self@[i as int],
                    has_columns(self@) <==> max_columns(self@) > 0,
                    forall|b: int| 0 <= b < j ==> str_columns(#[trigger] rv[b].1) == 0,
                decreases row.len() - j,
            {
                if width(row[j].1.as_str()) > 0 {
                    assert(str_columns(self@[i as int][j as int].1) > 0);
                    return true;
                }
                j = j + 1;
            }
            assert forall|a: int, b: int|
                0 <= a < i + 1 && 0 <= b < self@[a].len() implies str_columns(#[trigger] self@[a][b].1) == 0 by {
                if a == i {
                    assert(self@[a][b] == rv[b]);
                }
            }
            i = i + 1;
        }
        false
    }

    /// Each row's text.
    pub fn plain(&self) -> (r: Vec<String>)
        ensures
            r@.len() == self@.len(),
            forall|i: int| 0 <= i < r@.len() ==> #[trigger] r@[i]@ == row_text(self@[i]),
    {
        let mut out: Vec<String> = Vec::new();
        let mut i: usize = 0;
        while i < self.rows.len()
            invariant
                i <= self.rows.len(),
                out@.len() == i,
                forall|k: int| 0 <= k < i ==> #[trigger] out@[k]@ == row_text(self@[k]),
            decreases self.rows.len() - i,
        {
            let row = &self.rows[i];
            let ghost rv = self@[i as int];
            assert(rv == row_view(*row));
            let mut acc: Vec<char> = Vec::new();
            let mut j: usize = 0;
            while j < row.len()
                invariant
                    j <= row.len(),
                    rv == row_view(*row),
                    acc@ == row_text(rv.take(j as int)),
                decreases row.len() - j,
            {
                let s = row[j].1.as_str();
                for c in it: s.chars()
                    invariant
                        acc@ == row_text(rv.take(j as int)) + it.seq().take(it.index() as int),
                        it.seq() == s@,
                {
                    acc.push(c);
                    assert(acc@ =~= row_text(rv.take(j as int)) + it.seq().take(it.index() + 1));
                }
                assert(rv.take(j + 1).drop_last() =~= rv.take(j as int));
                assert(s@.take(s@.len() as int) =~= s@);
                j = j + 1;
            }
            assert(rv.take(row.len() as int) =~= rv);
            out.push(string_of(&acc));
            i = i + 1;
        }
        out
    }

    /// The drawing of `text`, kept only when it takes a column.
    pub fn accept(text: Option<String>) -> (r: Option<Drawing>)
        ensures
            match text {
                Some(t) => if max_columns(drawing_rows(t@)) > 0 {
                    r matches Some(d) && d@ == drawing_rows(t@)
                } else {
                    r is None
                },
                None => r is None,
            },
    {
        match text {
            Some(t) => {
                let d = Drawing::from_text(t.as_str());
                if d.has_width() {
                    Some(d)
                } else {
                    None
                }
            },
            None => None,
        }
    }
}

/// Whether `mmdflux` recognises the source as a diagram it draws.
pub uninterp spec fn mmdflux_detects(source: Seq<char>) -> bool;

/// `mmdflux::detect_diagram(source).is_some()`: the crate tries its diagram detectors in a
/// fixed order; the contract names the answer.
#[verifier::external_body]
fn detects(source: &str) -> (r: bool)
    ensures
        r == mmdflux_detects(source@),
{
    mmdflux::detect_diagram(source).is_some()
}

/// The text `mmdflux::render_diagram` draws of `source` with the default configuration, or
/// `None` on its error.
pub uninterp spec fn mmdflux_drawing(source: Seq<char>) -> Option<Seq<char>>;

/// The text `mermaid_text::render_with_width` draws of `source` within `max_width` columns,
/// or `None` on its error.
pub uninterp spec fn mermaid_drawing(source: Seq<char>, max_width: usize) -> Option<Seq<char>>;

pub open spec fn opt_chars(o: Option<String>) -> Option<Seq<char>> {
    match o {
        Some(t) => Some(t@),
        None => None,
    }
}

/// `mmdflux::render_diagram` to Unicode text with the default configuration, `None` on its
/// error. The crate documents its layout as deterministic; the contract names the answer.
#[verifier::external_body]
fn mmdflux_text(source: &str) -> (r: Option<String>)
    ensures
        opt_chars(r) == mmdflux_drawing(source@),
{
    mmdflux::render_diagram(source, mmdflux::OutputFormat::Text, &mmdflux::RenderConfig::default()).ok()
}

/// `mermaid_text::render_with_width(source, Some(max_width))`, `None` on its error. The crate
/// documents its output as deterministic; the contract names the answer.
#[verifier::external_body]
fn mermaid_text(source: &str, max_width: usize) -> (r: Option<String>)
    ensures
        opt_chars(r) == mermaid_drawing(source@, max_width),
{
    mermaid_text::render_with_width(source, Some(max_width)).ok()
}

/// The text the renderers give for `source`: `mmdflux`'s drawing when it recognises the
/// source and draws it, else `mermaid-text`'s within `max_width` columns.
pub open spec fn drawn_text(source: Seq<char>, max_width: usize) -> Option<Seq<char>> {
    if mmdflux_detects(source) && mmdflux_drawing(source) is Some {
        mmdflux_drawing(source)
    } else {
        mermaid_drawing(source, max_width)
    }
}

/// What `render` gives for `source` in `max_width` columns: the rows of the drawn text, when
/// there is one and it takes a column.
pub open spec fn render_spec(source: Seq<char>, max_width: usize) -> Option<Seq<Seq<(Kind, Seq<char>)>>> {
    match drawn_text(source, max_width) {
        Some(t) => if max_columns(drawing_rows(t)) > 0 {
            Some(drawing_rows(t))
        } else {
            None
        },
        None => None,
    }
}

pub open spec fn drawing_view(d: Option<Drawing>) -> Option<Seq<Seq<(Kind, Seq<char>)>>> {
    match d {
        Some(x) => Some(x@),
        None => None,
    }
}

/// A mermaid diagram drawn as text: `mmdflux` draws what it recognises, and `mermaid-text`
/// is asked, with `max_width`, when it does not or fails; a drawing that takes no column is
/// none.
pub fn render(source: &str, max_width: usize) -> (r: Option<Drawing>)
    ensures
        drawing_view(r) == render_spec(source@, max_width),
{
    let detected = detects(source);
    let primary = if detected {
        mmdflux_text(source)
    } else {
        None
    };
    let text = match primary {
        Some(t) => Some(t),
        None => mermaid_text(source, max_width),
    };
    assert(opt_chars(text) == drawn_text(source@, max_width));
    let r = Drawing::accept(text);
    r
}

} // verus!
