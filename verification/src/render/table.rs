//! Tables drawn as boxes: the columns share the width (see `fit`), each cell wraps in its
//! column and is aligned in it, and rules of box drawing go above, under the header and below.
use vstd::prelude::*;

use crate::markdown::document::Alignment;
use crate::render::fit::{
    cell_widths, col_max, col_min, column_widths, column_widths_spec, pieces_columns,
    pieces_min_columns, pieces_min_width, pieces_width,
};
use crate::render::styles::fg_style;
use crate::render::theme::Theme;
use crate::render::wrap::{
    lines_view, patch_spec, sat, spans_view, str_columns, width, wrap, wrapped, Piece, Span, Style,
};
use crate::text::string_of;

verus! {

/// `n` spaces.
pub open spec fn spaces(n: nat) -> Seq<char> {
    Seq::new(n, |i: int| ' ')
}

/// `n` copies of `c`.
pub open spec fn repeat(c: char, n: nat) -> Seq<char> {
    Seq::new(n, |i: int| c)
}

/// The inside of a rule over the first `n` columns: each column's fill two wider than the
/// column, with `m` between columns.
pub open spec fn rule_body(fill: char, m: char, widths: Seq<usize>, n: int) -> Seq<char>
    decreases n,
{
    if n <= 0 {
        seq![]
    } else {
        rule_body(fill, m, widths, n - 1) + (if n - 1 > 0 {
            seq![m]
        } else {
            seq![]
        }) + repeat(fill, sat((widths[n - 1] + 2) as nat))
    }
}

/// A rule across the table: `l`, the columns' fill joined by `m`, then `r`.
pub open spec fn rule_text(l: char, fill: char, m: char, r: char, widths: Seq<usize>) -> Seq<char> {
    seq![l] + rule_body(fill, m, widths, widths.len() as int) + seq![r]
}

pub(crate) fn push_n(out: &mut Vec<char>, c: char, n: usize)
    ensures
        final(out)@ == old(out)@ + repeat(c, n as nat),
{
    let mut i: usize = 0;
    while i < n
        invariant
            i <= n,
            out@ == old(out)@ + repeat(c, i as nat),
        decreases n - i,
    {
        out.push(c);
        i = i + 1;
        assert(out@ =~= old(out)@ + repeat(c, i as nat));
    }
}

/// The rule as one span in `style`.
fn rule(l: char, fill: char, m: char, r: char, widths: &Vec<usize>, style: Style) -> (line: Vec<Span>)
    ensures
        spans_view(line@) == seq![(rule_text(l, fill, m, r, widths@), style)],
{
    let mut s: Vec<char> = Vec::new();
    s.push(l);
    let mut c: usize = 0;
    while c < widths.len()
        invariant
            c <= widths.len(),
            s@ == seq![l] + rule_body(fill, m, widths@, c as int),
        decreases widths.len() - c,
    {
        if c > 0 {
            s.push(m);
        }
        push_n(&mut s, fill, widths[c].saturating_add(2));
        c = c + 1;
        assert(s@ =~= seq![l] + rule_body(fill, m, widths@, c as int));
    }
    s.push(r);
    assert(s@ =~= rule_text(l, fill, m, r, widths@));
    let mut line: Vec<Span> = Vec::new();
    line.push(Span { content: string_of(&s), style });
    assert(spans_view(line@) =~= seq![(rule_text(l, fill, m, r, widths@), style)]);
    line
}

/// The columns of a line's spans together.
pub open spec fn line_columns(line: Seq<(Seq<char>, Style)>) -> nat
    decreases line.len(),
{
    if line.len() == 0 {
        0
    } else {
        sat(line_columns(line.drop_last()) + str_columns(line.last().0))
    }
}

/// The spaces left and right of a cell's text with `pad` columns to spare.
pub open spec fn pads(align: Alignment, pad: nat) -> (nat, nat) {
    match align {
        Alignment::Left => (0, pad),
        Alignment::Right => (pad, 0),
        Alignment::Center => (pad / 2, (pad - pad / 2) as nat),
    }
}

/// Column `c`'s alignment, left when none is given.
pub open spec fn align_at(aligns: Seq<Alignment>, c: int) -> Alignment {
    if 0 <= c < aligns.len() {
        aligns[c]
    } else {
        Alignment::Left
    }
}

/// Line `i` of a wrapped cell, nothing past its last.
pub open spec fn cell_line(cell: Seq<Seq<(Seq<char>, Style)>>, i: int) -> Seq<(Seq<char>, Style)> {
    if 0 <= i < cell.len() {
        cell[i]
    } else {
        seq![]
    }
}

/// One cell's part of a row line: its line padded to the column by its alignment, then a bar.
pub open spec fn cell_part(line: Seq<(Seq<char>, Style)>, w: usize, align: Alignment, border: Style) -> Seq<(Seq<char>, Style)> {
    let used = line_columns(line);
    let pad: nat = if w >= used {
        (w - used) as nat
    } else {
        0
    };
    let (left, right) = pads(align, pad);
    seq![(spaces(sat(left + 1)), Style { fg: None, bg: None, modifiers: 0 })] + line + seq![
        (spaces(sat(right + 1)), Style { fg: None, bg: None, modifiers: 0 }),
        (seq!['│'], border),
    ]
}

/// The spans of line `i` of a row over its first `n` cells.
pub open spec fn row_cells(
    cells: Seq<Seq<Seq<(Seq<char>, Style)>>>,
    widths: Seq<usize>,
    aligns: Seq<Alignment>,
    i: int,
    border: Style,
    n: int,
) -> Seq<(Seq<char>, Style)>
    decreases n,
{
    if n <= 0 {
        seq![]
    } else {
        row_cells(cells, widths, aligns, i, border, n - 1) + cell_part(
            cell_line(cells[n - 1], i),
            widths[n - 1],
            align_at(aligns, n - 1),
            border,
        )
    }
}

fn cell_part_exec(line: &Vec<Span>, w: usize, align: Alignment, border: Style) -> (r: Vec<Span>)
    ensures
        spans_view(r@) == cell_part(spans_view(line@), w, align, border),
{
    let used = line_width(line);
    let pad: usize = if w >= used {
        w - used
    } else {
        0
    };
    let (left, right): (usize, usize) = match align {
        Alignment::Left => (0, pad),
        Alignment::Right => (pad, 0),
        Alignment::Center => (pad / 2, pad - pad / 2),
    };
    assert(pads(align, pad as nat) == (left as nat, right as nat));
    let mut out: Vec<Span> = Vec::new();
    let l1 = left.saturating_add(1);
    assert(l1 == sat((left + 1) as nat));
    out.push(spaces_span(l1));
    let ghost lead = spans_view(out@);
    assert(lead =~= seq![(spaces(sat((left + 1) as nat)), Style { fg: None, bg: None, modifiers: 0 })]);
    let mut j: usize = 0;
    while j < line.len()
        invariant
            j <= line.len(),
            spans_view(out@) == lead + spans_view(line@).take(j as int),
        decreases line.len() - j,
    {
        let ghost prev = spans_view(out@);
        out.push(line[j].clone_span());
        assert(spans_view(out@) =~= prev.push(spans_view(line@)[j as int]));
        j = j + 1;
        assert(spans_view(out@) =~= lead + spans_view(line@).take(j as int));
    }
    assert(spans_view(line@).take(line.len() as int) =~= spans_view(line@));
    let ghost mid = spans_view(out@);
    let r1 = right.saturating_add(1);
    assert(r1 == sat((right + 1) as nat));
    out.push(spaces_span(r1));
    out.push(bar(border));
    assert(spans_view(out@) =~= mid + seq![
        (spaces(sat((right + 1) as nat)), Style { fg: None, bg: None, modifiers: 0 }),
        (seq!['│'], border),
    ]);
    assert(spans_view(out@) =~= cell_part(spans_view(line@), w, align, border));
    out
}

fn extend_spans(dst: &mut Vec<Span>, src: Vec<Span>)
    ensures
        spans_view(final(dst)@) == spans_view(old(dst)@) + spans_view(src@),
{
    let ghost start = spans_view(dst@);
    let mut k: usize = 0;
    while k < src.len()
        invariant
            k <= src.len(),
            spans_view(dst@) == start + spans_view(src@).take(k as int),
        decreases src.len() - k,
    {
        let ghost prev = spans_view(dst@);
        dst.push(src[k].clone_span());
        assert(spans_view(dst@) =~= prev.push(spans_view(src@)[k as int]));
        k = k + 1;
        assert(spans_view(dst@) =~= start + spans_view(src@).take(k as int));
    }
    assert(spans_view(src@).take(src.len() as int) =~= spans_view(src@));
}

/// The spans laid over with `band`, when there is one.
pub open spec fn banded(spans: Seq<(Seq<char>, Style)>, band: Option<Style>) -> Seq<(Seq<char>, Style)> {
    match band {
        Some(b) => spans.map_values(|s: (Seq<char>, Style)| (s.0, patch_spec(s.1, b))),
        None => spans,
    }
}

/// Line `i` of a row.
pub open spec fn row_line(
    cells: Seq<Seq<Seq<(Seq<char>, Style)>>>,
    widths: Seq<usize>,
    aligns: Seq<Alignment>,
    i: int,
    border: Style,
    band: Option<Style>,
) -> Seq<(Seq<char>, Style)> {
    banded(seq![(seq!['│'], border)] + row_cells(cells, widths, aligns, i, border, widths.len() as int), band)
}

/// The most lines a cell of the first `n` wraps into, at least one.
pub open spec fn row_height(cells: Seq<Seq<Seq<(Seq<char>, Style)>>>, n: int) -> nat
    decreases n,
{
    if n <= 0 {
        1
    } else {
        let a = row_height(cells, n - 1);
        let b = cells[n - 1].len();
        if a >= b {
            a
        } else {
            b
        }
    }
}

/// Each cell of a row wrapped to its column; a missing cell is empty.
pub open spec fn wrapped_cells(row: Seq<Vec<Piece>>, widths: Seq<usize>) -> Seq<Seq<Seq<(Seq<char>, Style)>>> {
    Seq::new(
        widths.len(),
        |c: int|
            if c < row.len() {
                wrapped(row[c]@, widths[c] as nat)
            } else {
                seq![]
            },
    )
}

/// The lines of a row.
pub open spec fn row_lines(
    row: Seq<Vec<Piece>>,
    widths: Seq<usize>,
    aligns: Seq<Alignment>,
    border: Style,
    band: Option<Style>,
) -> Seq<Seq<(Seq<char>, Style)>> {
    let cells = wrapped_cells(row, widths);
    Seq::new(
        row_height(cells, widths.len() as int),
        |i: int| row_line(cells, widths, aligns, i, border, band),
    )
}

pub(crate) fn line_width(line: &Vec<Span>) -> (r: usize)
    ensures
        r == line_columns(spans_view(line@)),
{
    let ghost lv = spans_view(line@);
    let mut total: usize = 0;
    let mut i: usize = 0;
    while i < line.len()
        invariant
            i <= line.len(),
            lv == spans_view(line@),
            total == line_columns(lv.take(i as int)),
        decreases line.len() - i,
    {
        assert(lv.take(i + 1).drop_last() =~= lv.take(i as int));
        total = total.saturating_add(width(line[i].content.as_str()));
        i = i + 1;
    }
    assert(lv.take(line.len() as int) =~= lv);
    total
}

pub(crate) fn spaces_span(n: usize) -> (s: Span)
    ensures
        s.content@ == spaces(n as nat),
        s.style == (Style { fg: None, bg: None, modifiers: 0 }),
{
    let mut v: Vec<char> = Vec::new();
    push_n(&mut v, ' ', n);
    assert(v@ =~= spaces(n as nat));
    Span { content: string_of(&v), style: Style::new() }
}

fn bar(border: Style) -> (s: Span)
    ensures
        s.content@ == seq!['│'],
        s.style == border,
{
    let mut v: Vec<char> = Vec::new();
    v.push('│');
    Span { content: string_of(&v), style: border }
}

/// The lines of one table row: each cell wrapped to its column (a missing cell is empty),
/// padded by its alignment (left when none is given), bars around and between the cells, and
/// `band` laid over the whole row when given.
pub fn table_row(
    cells: &Vec<Vec<Piece>>,
    widths: &Vec<usize>,
    aligns: &Vec<Alignment>,
    border: Style,
    band: Option<Style>,
) -> (r: Vec<Vec<Span>>)
    ensures
        lines_view(r@) == row_lines(cells@, widths@, aligns@, border, band),
{
    let ghost cv = wrapped_cells(cells@, widths@);
    let mut wrapped_all: Vec<Vec<Vec<Span>>> = Vec::new();
    let mut c: usize = 0;
    while c < widths.len()
        invariant
            c <= widths.len(),
            cv == wrapped_cells(cells@, widths@),
            wrapped_all@.len() == c,
            forall|k: int| 0 <= k < c ==> lines_view((#[trigger] wrapped_all@[k])@) == cv[k],
        decreases widths.len() - c,
    {
        if c < cells.len() {
            let w = wrap(cells[c].as_slice(), widths[c]);
            wrapped_all.push(w);
        } else {
            let w: Vec<Vec<Span>> = Vec::new();
            assert(lines_view(w@) =~= Seq::<Seq<(Seq<char>, Style)>>::empty());
            wrapped_all.push(w);
        }
        c = c + 1;
    }
    let mut height: usize = 1;
    let mut k: usize = 0;
    while k < wrapped_all.len()
        invariant
            k <= wrapped_all.len() == widths.len(),
            forall|j: int| 0 <= j < wrapped_all@.len() ==> lines_view((#[trigger] wrapped_all@[j])@) == cv[j],
            cv.len() == widths.len(),
            height == row_height(cv, k as int),
        decreases wrapped_all.len() - k,
    {
        assert(lines_view(wrapped_all@[k as int]@).len() == wrapped_all@[k as int]@.len());
        if wrapped_all[k].len() > height {
            height = wrapped_all[k].len();
        }
        k = k + 1;
    }
    let mut out: Vec<Vec<Span>> = Vec::new();
    let mut i: usize = 0;
    while i < height
        invariant
            i <= height,
            height == row_height(cv, widths@.len() as int),
            wrapped_all@.len() == widths@.len(),
            cv.len() == widths@.len(),
            forall|j: int| 0 <= j < wrapped_all@.len() ==> lines_view((#[trigger] wrapped_all@[j])@) == cv[j],
            out@.len() == i,
            forall|q: int| 0 <= q < i ==> spans_view((#[trigger] out@[q])@) == row_line(cv, widths@, aligns@, q, border, band),
        decreases height - i,
    {
        let mut spans: Vec<Span> = Vec::new();
        spans.push(bar(border));
        assert(spans_view(spans@) =~= seq![(seq!['│'], border)] + row_cells(cv, widths@, aligns@, i as int, border, 0));
        let mut c: usize = 0;
        while c < widths.len()
            invariant
                c <= widths.len(),
                wrapped_all@.len() == widths@.len(),
                cv.len() == widths@.len(),
                forall|j: int| 0 <= j < wrapped_all@.len() ==> lines_view((#[trigger] wrapped_all@[j])@) == cv[j],
                spans_view(spans@) == seq![(seq!['│'], border)] + row_cells(cv, widths@, aligns@, i as int, border, c as int),
            decreases widths.len() - c,
        {
            let cell = &wrapped_all[c];
            assert(lines_view(cell@) == cv[c as int]);
            let empty: Vec<Span> = Vec::new();
            let line: &Vec<Span> = if i < cell.len() {
                &cell[i]
            } else {
                &empty
            };
            assert(spans_view(line@) == cell_line(cv[c as int], i as int)) by {
                if i < cell.len() {
                    assert(lines_view(cell@)[i as int] == spans_view(cell@[i as int]@));
                } else {
                    assert(spans_view(line@) =~= Seq::<(Seq<char>, Style)>::empty());
                }
            }
            let align = if c < aligns.len() {
                aligns[c]
            } else {
                Alignment::Left
            };
            let part = cell_part_exec(line, widths[c], align, border);
            extend_spans(&mut spans, part);
            c = c + 1;
            assert(spans_view(spans@) =~= seq![(seq!['│'], border)] + row_cells(cv, widths@, aligns@, i as int, border, c as int));
        }
        match band {
            Some(b) => {
                let ghost plain = spans_view(spans@);
                let mut banded_spans: Vec<Span> = Vec::new();
                let mut q: usize = 0;
                while q < spans.len()
                    invariant
                        q <= spans.len(),
                        plain == spans_view(spans@),
                        banded_spans@.len() == q,
                        forall|x: int| 0 <= x < q ==> (#[trigger] banded_spans@[x]).content@ == plain[x].0
                            && banded_spans@[x].style == patch_spec(plain[x].1, b),
                    decreases spans.len() - q,
                {
                    let s = spans[q].clone_span();
                    banded_spans.push(Span { content: s.content, style: s.style.patch(b) });
                    q = q + 1;
                }
                assert(spans_view(banded_spans@) =~= banded(plain, band));
                out.push(banded_spans);
            },
            None => {
                out.push(spans);
            },
        }
        i = i + 1;
    }
    assert(lines_view(out@) =~= row_lines(cells@, widths@, aligns@, border, band));
    out
}


/// How many columns a table has: its widest row, header included.
pub open spec fn column_count(header: Seq<Vec<Piece>>, rows: Seq<Vec<Vec<Piece>>>, n: int) -> nat
    decreases n,
{
    if n <= 0 {
        header.len()
    } else {
        let a = column_count(header, rows, n - 1);
        let b = rows[n - 1]@.len();
        if a >= b {
            a
        } else {
            b
        }
    }
}

/// Column `c`'s widest cell, header included (at least 1).
pub open spec fn table_max(header: Seq<Vec<Piece>>, rows: Seq<Vec<Vec<Piece>>>, c: int) -> nat {
    let a = col_max(rows, c, rows.len() as int);
    let b = if c < header.len() {
        pieces_columns(header[c]@)
    } else {
        0
    };
    if a >= b {
        a
    } else {
        b
    }
}

/// The least column `c`'s cells need, header included (at least 1).
pub open spec fn table_min(header: Seq<Vec<Piece>>, rows: Seq<Vec<Vec<Piece>>>, c: int) -> nat {
    let a = col_min(rows, c, rows.len() as int);
    let b = if c < header.len() {
        pieces_min_columns(header[c]@)
    } else {
        0
    };
    if a >= b {
        a
    } else {
        b
    }
}

/// The body rows' lines, each row's lines after the one before's.
pub open spec fn body_lines(
    rows: Seq<Vec<Vec<Piece>>>,
    widths: Seq<usize>,
    aligns: Seq<Alignment>,
    border: Style,
    n: int,
) -> Seq<Seq<(Seq<char>, Style)>>
    decreases n,
{
    if n <= 0 {
        seq![]
    } else {
        body_lines(rows, widths, aligns, border, n - 1) + row_lines(rows[n - 1]@, widths, aligns, border, None)
    }
}

/// A table's lines in `avail` columns with the column widths `widths`: the top rule, the
/// header rows on the header band, the rule under the header, the body rows, the bottom rule.
pub open spec fn table_spec(
    header: Seq<Vec<Piece>>,
    rows: Seq<Vec<Vec<Piece>>>,
    aligns: Seq<Alignment>,
    widths: Seq<usize>,
    border: Style,
    band: Style,
) -> Seq<Seq<(Seq<char>, Style)>> {
    seq![seq![(rule_text('┌', '─', '┬', '┐', widths), border)]] + row_lines(
        header,
        widths,
        aligns,
        border,
        Some(band),
    ) + seq![seq![(rule_text('┝', '━', '┿', '┥', widths), border)]] + body_lines(
        rows,
        widths,
        aligns,
        border,
        rows.len() as int,
    ) + seq![seq![(rule_text('└', '─', '┴', '┘', widths), border)]]
}

fn copy_line(line: &Vec<Span>) -> (r: Vec<Span>)
    ensures
        spans_view(r@) == spans_view(line@),
{
    let mut out: Vec<Span> = Vec::new();
    extend_spans_ref(&mut out, line);
    assert(spans_view(out@) =~= spans_view(line@));
    out
}

fn extend_spans_ref(dst: &mut Vec<Span>, src: &Vec<Span>)
    ensures
        spans_view(final(dst)@) == spans_view(old(dst)@) + spans_view(src@),
{
    let ghost start = spans_view(dst@);
    let mut k: usize = 0;
    while k < src.len()
        invariant
            k <= src.len(),
            spans_view(dst@) == start + spans_view(src@).take(k as int),
        decreases src.len() - k,
    {
        let ghost prev = spans_view(dst@);
        dst.push(src[k].clone_span());
        assert(spans_view(dst@) =~= prev.push(spans_view(src@)[k as int]));
        k = k + 1;
        assert(spans_view(dst@) =~= start + spans_view(src@).take(k as int));
    }
    assert(spans_view(src@).take(src.len() as int) =~= spans_view(src@));
}

fn extend_lines(dst: &mut Vec<Vec<Span>>, src: &Vec<Vec<Span>>)
    ensures
        lines_view(final(dst)@) == lines_view(old(dst)@) + lines_view(src@),
{
    let ghost start = lines_view(dst@);
    let ghost sv = lines_view(src@);
    let mut k: usize = 0;
    while k < src.len()
        invariant
            k <= src@.len(),
            sv == lines_view(src@),
            lines_view(dst@) == start + sv.take(k as int),
        decreases src.len() - k,
    {
        let line = copy_line(&src[k]);
        assert(spans_view(line@) == sv[k as int]);
        let ghost prev = lines_view(dst@);
        dst.push(line);
        assert(lines_view(dst@) =~= prev.push(sv[k as int]));
        k = k + 1;
        assert(lines_view(dst@) =~= start + sv.take(k as int));
    }
    assert(sv.take(src.len() as int) =~= sv);
}

/// A table's lines in `avail` columns, given its header cells and body rows as pieces (a
/// row short of cells has empty ones): each column as wide as its widest cell, narrowed
/// until the table fits (see `column_widths`); nothing for a table without columns.
pub fn table_lines(
    header: &Vec<Vec<Piece>>,
    rows: &Vec<Vec<Vec<Piece>>>,
    aligns: &Vec<Alignment>,
    avail: usize,
    theme: &Theme,
) -> (r: Vec<Vec<Span>>)
    ensures
        column_count(header@, rows@, rows@.len() as int) == 0 ==> r@.len() == 0,
        column_count(header@, rows@, rows@.len() as int) > 0 ==> exists|widths: Seq<usize>|
            widths.len() == column_count(header@, rows@, rows@.len() as int) && widths
                == column_widths_spec(
                Seq::new(widths.len(), |c: int| table_max(header@, rows@, c) as usize),
                Seq::new(widths.len(), |c: int| table_min(header@, rows@, c) as usize),
                avail,
            ) && lines_view(r@) == table_spec(
                header@,
                rows@,
                aligns@,
                widths,
                fg_style(theme.table_border, 0),
                (Style { fg: None, bg: Some(theme.surface), modifiers: 0 }),
            ),
{
    let mut ncols: usize = header.len();
    let mut k: usize = 0;
    while k < rows.len()
        invariant
            k <= rows.len(),
            ncols == column_count(header@, rows@, k as int),
        decreases rows.len() - k,
    {
        if rows[k].len() > ncols {
            ncols = rows[k].len();
        }
        k = k + 1;
    }
    if ncols == 0 {
        return Vec::new();
    }
    let (body_max, body_min) = cell_widths(rows, ncols);
    let mut max_w: Vec<usize> = Vec::new();
    let mut min_w: Vec<usize> = Vec::new();
    let mut c: usize = 0;
    while c < ncols
        invariant
            c <= ncols,
            body_max@.len() == ncols,
            body_min@.len() == ncols,
            forall|q: int| 0 <= q < ncols ==> body_max@[q] == col_max(rows@, q, rows@.len() as int),
            forall|q: int| 0 <= q < ncols ==> body_min@[q] == col_min(rows@, q, rows@.len() as int),
            max_w@.len() == c,
            min_w@.len() == c,
            forall|q: int| 0 <= q < c ==> max_w@[q] == table_max(header@, rows@, q),
            forall|q: int| 0 <= q < c ==> min_w@[q] == table_min(header@, rows@, q),
        decreases ncols - c,
    {
        let (hw, hm) = if c < header.len() {
            (pieces_width(header[c].as_slice()), pieces_min_width(header[c].as_slice()))
        } else {
            (0, 0)
        };
        max_w.push(if body_max[c] >= hw {
            body_max[c]
        } else {
            hw
        });
        min_w.push(if body_min[c] >= hm {
            body_min[c]
        } else {
            hm
        });
        c = c + 1;
    }
    let widths = column_widths(&max_w, &min_w, avail);
    proof {
        assert(max_w@ =~= Seq::new(ncols as nat, |q: int| table_max(header@, rows@, q) as usize));
        assert(min_w@ =~= Seq::new(ncols as nat, |q: int| table_min(header@, rows@, q) as usize));
    }
    let border = theme.table_border();
    let band = theme.table_band();
    let mut out: Vec<Vec<Span>> = Vec::new();
    let top = rule('┌', '─', '┬', '┐', &widths, border);
    out.push(top);
    assert(lines_view(out@) =~= seq![seq![(rule_text('┌', '─', '┬', '┐', widths@), border)]]);
    let head = table_row(header, &widths, aligns, border, Some(band));
    extend_lines(&mut out, &head);
    let ghost with_head = lines_view(out@);
    let mid = rule('┝', '━', '┿', '┥', &widths, border);
    out.push(mid);
    assert(lines_view(out@) =~= with_head.push(seq![(rule_text('┝', '━', '┿', '┥', widths@), border)]));
    let ghost before_body = lines_view(out@);
    assert(body_lines(rows@, widths@, aligns@, border, 0) =~= seq![]);
    assert(before_body =~= before_body + body_lines(rows@, widths@, aligns@, border, 0));
    let mut k: usize = 0;
    while k < rows.len()
        invariant
            k <= rows.len(),
            lines_view(out@) == before_body + body_lines(rows@, widths@, aligns@, border, k as int),
        decreases rows.len() - k,
    {
        let lines = table_row(&rows[k], &widths, aligns, border, None);
        extend_lines(&mut out, &lines);
        k = k + 1;
        assert(lines_view(out@) =~= before_body + body_lines(rows@, widths@, aligns@, border, k as int));
    }
    let ghost with_body = lines_view(out@);
    let bottom = rule('└', '─', '┴', '┘', &widths, border);
    out.push(bottom);
    assert(lines_view(out@) =~= with_body.push(seq![(rule_text('└', '─', '┴', '┘', widths@), border)]));
    assert(lines_view(out@) =~= table_spec(header@, rows@, aligns@, widths@, border, band));
    assert(widths@ == column_widths_spec(
        Seq::new(widths@.len(), |c: int| table_max(header@, rows@, c) as usize),
        Seq::new(widths@.len(), |c: int| table_min(header@, rows@, c) as usize),
        avail,
    ));
    out
}

} // verus!
