//! Fitting text into columns: how wide pieces of text are, how a table's columns share the
//! width, and cutting a line's spans at a width.
use vstd::prelude::*;

use crate::render::wrap::{char_columns, char_width, sat, str_columns, width, Piece, Span, Style};
use crate::text::{chars_of, split, split_vec, string_of};

verus! {

/// The columns a piece takes: its text's, none for a break.
pub open spec fn piece_columns(p: Piece) -> nat {
    match p {
        Piece::Text { text, .. } => str_columns(text@),
        Piece::Break => 0,
    }
}

/// The columns of pieces side by side.
pub open spec fn pieces_columns(ps: Seq<Piece>) -> nat
    decreases ps.len(),
{
    if ps.len() == 0 {
        0
    } else {
        sat(pieces_columns(ps.drop_last()) + piece_columns(ps.last()))
    }
}

/// The columns of pieces side by side.
pub fn pieces_width(pieces: &[Piece]) -> (r: usize)
    ensures
        r == pieces_columns(pieces@),
{
    let mut total: usize = 0;
    let mut i: usize = 0;
    while i < pieces.len()
        invariant
            i <= pieces.len(),
            total == pieces_columns(pieces@.take(i as int)),
        decreases pieces.len() - i,
    {
        assert(pieces@.take(i + 1).drop_last() =~= pieces@.take(i as int));
        let w = match &pieces[i] {
            Piece::Text { text, .. } => width(text.as_str()),
            Piece::Break => 0,
        };
        total = total.saturating_add(w);
        i = i + 1;
    }
    assert(pieces@.take(pieces.len() as int) =~= pieces@);
    total
}

/// The widest of some texts, 0 for none.
pub open spec fn widest(parts: Seq<Seq<char>>) -> nat
    decreases parts.len(),
{
    if parts.len() == 0 {
        0
    } else {
        let a = widest(parts.drop_last());
        let b = str_columns(parts.last());
        if a >= b {
            a
        } else {
            b
        }
    }
}

/// The least columns a piece needs: an atomic piece all of its text, a breakable one its
/// widest word (words split at single spaces), a break none.
pub open spec fn piece_min_columns(p: Piece) -> nat {
    match p {
        Piece::Text { text, atomic, .. } => if atomic {
            str_columns(text@)
        } else {
            widest(split(text@, ' '))
        },
        Piece::Break => 0,
    }
}

/// The least columns pieces need: the most any of them needs.
pub open spec fn pieces_min_columns(ps: Seq<Piece>) -> nat
    decreases ps.len(),
{
    if ps.len() == 0 {
        0
    } else {
        let a = pieces_min_columns(ps.drop_last());
        let b = piece_min_columns(ps.last());
        if a >= b {
            a
        } else {
            b
        }
    }
}

fn widest_word(text: &String) -> (r: usize)
    ensures
        r == widest(split(text@, ' ')),
{
    let cs = chars_of(text.as_str());
    let parts = split_vec(&cs, ' ');
    let ghost pv = parts@.map_values(|l: Vec<char>| l@);
    let mut best: usize = 0;
    let mut i: usize = 0;
    while i < parts.len()
        invariant
            i <= parts.len(),
            pv == parts@.map_values(|l: Vec<char>| l@),
            best == widest(pv.take(i as int)),
        decreases parts.len() - i,
    {
        assert(pv.take(i + 1).drop_last() =~= pv.take(i as int));
        assert(pv[i as int] == parts@[i as int]@);
        let s = string_of(&parts[i]);
        let w = width(s.as_str());
        if w > best {
            best = w;
        }
        i = i + 1;
    }
    assert(pv.take(parts.len() as int) =~= pv);
    best
}

/// The least columns pieces need.
pub fn pieces_min_width(pieces: &[Piece]) -> (r: usize)
    ensures
        r == pieces_min_columns(pieces@),
{
    let mut best: usize = 0;
    let mut i: usize = 0;
    while i < pieces.len()
        invariant
            i <= pieces.len(),
            best == pieces_min_columns(pieces@.take(i as int)),
        decreases pieces.len() - i,
    {
        assert(pieces@.take(i + 1).drop_last() =~= pieces@.take(i as int));
        let w = match &pieces[i] {
            Piece::Text { text, atomic, .. } => if *atomic {
                width(text.as_str())
            } else {
                widest_word(text)
            },
            Piece::Break => 0,
        };
        if w > best {
            best = w;
        }
        i = i + 1;
    }
    assert(pieces@.take(pieces.len() as int) =~= pieces@);
    best
}

// ---------------------------------------------------------------------------------------------
// Table columns
// ---------------------------------------------------------------------------------------------
/// The sum of the widths, stopped at the largest `usize`.
pub open spec fn total(w: Seq<usize>) -> nat
    decreases w.len(),
{
    if w.len() == 0 {
        0
    } else {
        sat(total(w.drop_last()) + w.last() as nat)
    }
}

/// Among the first `n` columns wider than their least width, the widest (the last of equals).
pub open spec fn pick_over_min(w: Seq<usize>, m: Seq<usize>, n: int) -> Option<int>
    decreases n,
{
    if n <= 0 {
        None
    } else {
        let prev = pick_over_min(w, m, n - 1);
        if w[n - 1] > m[n - 1] {
            match prev {
                Some(p) => if w[n - 1] >= w[p] {
                    Some(n - 1)
                } else {
                    Some(p)
                },
                None => Some(n - 1),
            }
        } else {
            prev
        }
    }
}

/// Among the first `n` columns wider than 1, the widest (the last of equals).
pub open spec fn pick_over_one(w: Seq<usize>, n: int) -> Option<int>
    decreases n,
{
    if n <= 0 {
        None
    } else {
        let prev = pick_over_one(w, n - 1);
        if w[n - 1] > 1 {
            match prev {
                Some(p) => if w[n - 1] >= w[p] {
                    Some(n - 1)
                } else {
                    Some(p)
                },
                None => Some(n - 1),
            }
        } else {
            prev
        }
    }
}

/// The column to narrow next: the widest still wider than what it needs, else the widest
/// wider than one column.
pub open spec fn pick(w: Seq<usize>, m: Seq<usize>) -> Option<int> {
    match pick_over_min(w, m, w.len() as int) {
        Some(c) => Some(c),
        None => pick_over_one(w, w.len() as int),
    }
}

/// The widths after taking `excess` columns away one at a time, each from the column `pick`
/// names, stopping when none can give one.
pub open spec fn shrink(w: Seq<usize>, m: Seq<usize>, excess: nat) -> Seq<usize>
    decreases excess,
{
    if excess == 0 {
        w
    } else {
        match pick(w, m) {
            Some(c) => if 0 <= c < w.len() && w[c] > 0 {
                shrink(w.update(c, (w[c] - 1) as usize), m, (excess - 1) as nat)
            } else {
                w
            },
            None => w,
        }
    }
}

/// The text columns a table of `ncols` columns has in `avail` columns, after its borders and
/// padding (three per column and one more).
pub open spec fn table_inner(avail: usize, ncols: usize) -> nat {
    let chrome = sat((3 * ncols + 1) as nat);
    if avail >= chrome {
        (avail - chrome) as nat
    } else {
        0
    }
}

/// The columns' widths: each as wide as its widest cell, then narrowed until the table fits.
pub open spec fn column_widths_spec(max_w: Seq<usize>, min_w: Seq<usize>, avail: usize) -> Seq<usize> {
    let inner = table_inner(avail, max_w.len() as usize);
    let t = total(max_w);
    shrink(max_w, min_w, if t >= inner { (t - inner) as nat } else { 0 })
}

/// Shrinking keeps one width per column.
proof fn lemma_shrink_len(w: Seq<usize>, m: Seq<usize>, excess: nat)
    ensures
        shrink(w, m, excess).len() == w.len(),
    decreases excess,
{
    if excess > 0 {
        if let Some(c) = pick(w, m) {
            if 0 <= c < w.len() && w[c] > 0 {
                lemma_shrink_len(w.update(c, (w[c] - 1) as usize), m, (excess - 1) as nat);
            }
        }
    }
}

proof fn lemma_pick_in_range(w: Seq<usize>, m: Seq<usize>, n: int)
    requires
        0 <= n <= w.len(),
        m.len() == w.len(),
    ensures
        pick_over_min(w, m, n) matches Some(c) ==> 0 <= c < n && w[c] > m[c],
        pick_over_one(w, n) matches Some(c) ==> 0 <= c < n && w[c] > 1,
    decreases n,
{
    if n > 0 {
        lemma_pick_in_range(w, m, n - 1);
    }
}

/// The sum of the widths.
pub open spec fn sum(w: Seq<usize>) -> nat
    decreases w.len(),
{
    if w.len() == 0 {
        0
    } else {
        sum(w.drop_last()) + w.last() as nat
    }
}

proof fn lemma_sum_update(w: Seq<usize>, c: int, v: usize)
    requires
        0 <= c < w.len(),
    ensures
        sum(w.update(c, v)) + w[c] == sum(w) + v,
    decreases w.len(),
{
    let u = w.update(c, v);
    if c < w.len() - 1 {
        assert(u.drop_last() =~= w.drop_last().update(c, v));
        lemma_sum_update(w.drop_last(), c, v);
    } else {
        assert(u.drop_last() =~= w.drop_last());
    }
}

proof fn lemma_total_is_sum(w: Seq<usize>)
    requires
        sum(w) <= usize::MAX,
    ensures
        total(w) == sum(w),
    decreases w.len(),
{
    if w.len() > 0 {
        lemma_total_is_sum(w.drop_last());
    }
}

proof fn lemma_none_over_one(w: Seq<usize>, n: int)
    requires
        0 <= n <= w.len(),
        pick_over_one(w, n) is None,
    ensures
        forall|c: int| 0 <= c < n ==> w[c] <= 1,
    decreases n,
{
    if n > 0 {
        lemma_none_over_one(w, n - 1);
    }
}

/// Each step takes one column from the sum; shrinking stops early only when no column can
/// give one.
proof fn lemma_shrink_sum(w: Seq<usize>, m: Seq<usize>, excess: nat)
    requires
        m.len() == w.len(),
    ensures
        sum(shrink(w, m, excess)) + excess >= sum(w),
        sum(shrink(w, m, excess)) + excess == sum(w) || pick(shrink(w, m, excess), m) is None,
    decreases excess,
{
    if excess > 0 {
        lemma_pick_in_range(w, m, w.len() as int);
        if let Some(c) = pick(w, m) {
            let w2 = w.update(c, (w[c] - 1) as usize);
            lemma_sum_update(w, c, (w[c] - 1) as usize);
            lemma_shrink_sum(w2, m, (excess - 1) as nat);
        }
    }
}

/// Shrinking takes no column below one, and widens none.
proof fn lemma_shrink_bounds(w: Seq<usize>, m: Seq<usize>, excess: nat)
    requires
        m.len() == w.len(),
        forall|c: int| 0 <= c < w.len() ==> w[c] >= 1 && m[c] >= 1,
    ensures
        shrink(w, m, excess).len() == w.len(),
        forall|c: int|
            0 <= c < w.len() ==> 1 <= #[trigger] shrink(w, m, excess)[c] <= w[c],
    decreases excess,
{
    lemma_shrink_len(w, m, excess);
    if excess > 0 {
        lemma_pick_in_range(w, m, w.len() as int);
        if let Some(c) = pick(w, m) {
            let w2 = w.update(c, (w[c] - 1) as usize);
            lemma_shrink_bounds(w2, m, (excess - 1) as nat);
            assert forall|k: int| 0 <= k < w.len() implies 1 <= #[trigger] shrink(w, m, excess)[k]
                <= w[k] by {
                assert(shrink(w, m, excess) == shrink(w2, m, (excess - 1) as nat));
            }
        }
    }
}

/// A table's columns fit the room inside it, unless every column is down to one column.
pub proof fn law_columns_fit_when_they_can(max_w: Seq<usize>, min_w: Seq<usize>, avail: usize)
    requires
        min_w.len() == max_w.len(),
        sum(max_w) <= usize::MAX,
    ensures
        sum(column_widths_spec(max_w, min_w, avail)) <= table_inner(avail, max_w.len() as usize)
            || forall|c: int|
            0 <= c < max_w.len() ==> #[trigger] column_widths_spec(max_w, min_w, avail)[c] <= 1,
{
    let inner = table_inner(avail, max_w.len() as usize);
    lemma_total_is_sum(max_w);
    let t = total(max_w);
    let e: nat = if t >= inner {
        (t - inner) as nat
    } else {
        0
    };
    let r = shrink(max_w, min_w, e);
    lemma_shrink_sum(max_w, min_w, e);
    lemma_shrink_len(max_w, min_w, e);
    if pick(r, min_w) is None {
        lemma_none_over_one(r, r.len() as int);
    }
}

/// Narrowing a table keeps every column between one column and its widest cell.
pub proof fn law_columns_stay_within_their_cells(max_w: Seq<usize>, min_w: Seq<usize>, avail: usize)
    requires
        min_w.len() == max_w.len(),
        forall|c: int| 0 <= c < max_w.len() ==> max_w[c] >= 1 && min_w[c] >= 1,
    ensures
        column_widths_spec(max_w, min_w, avail).len() == max_w.len(),
        forall|c: int|
            0 <= c < max_w.len() ==> 1 <= #[trigger] column_widths_spec(max_w, min_w, avail)[c]
                <= max_w[c],
{
    let inner = table_inner(avail, max_w.len() as usize);
    let t = total(max_w);
    let e: nat = if t >= inner {
        (t - inner) as nat
    } else {
        0
    };
    lemma_shrink_bounds(max_w, min_w, e);
}

fn pick_exec(w: &Vec<usize>, m: &Vec<usize>) -> (r: Option<usize>)
    requires
        m@.len() == w@.len(),
    ensures
        r matches Some(c) ==> pick(w@, m@) == Some(c as int),
        r is None ==> pick(w@, m@) is None,
{
    let mut best: Option<usize> = None;
    let mut c: usize = 0;
    while c < w.len()
        invariant
            c <= w.len(),
            m@.len() == w@.len(),
            best matches Some(b) ==> pick_over_min(w@, m@, c as int) == Some(b as int) && b < c,
            best is None ==> pick_over_min(w@, m@, c as int) is None,
        decreases w.len() - c,
    {
        if w[c] > m[c] {
            best = match best {
                Some(b) => if w[c] >= w[b] {
                    Some(c)
                } else {
                    Some(b)
                },
                None => Some(c),
            };
        }
        c = c + 1;
    }
    if best.is_some() {
        return best;
    }
    let mut c: usize = 0;
    while c < w.len()
        invariant
            c <= w.len(),
            best matches Some(b) ==> pick_over_one(w@, c as int) == Some(b as int) && b < c,
            best is None ==> pick_over_one(w@, c as int) is None,
            pick_over_min(w@, m@, w@.len() as int) is None,
            m@.len() == w@.len(),
        decreases w.len() - c,
    {
        if w[c] > 1 {
            best = match best {
                Some(b) => if w[c] >= w[b] {
                    Some(c)
                } else {
                    Some(b)
                },
                None => Some(c),
            };
        }
        c = c + 1;
    }
    best
}

/// The widths of a table's columns in `avail` columns, given each column's widest cell and
/// the least each needs: each starts as wide as its widest cell; while the table is too wide,
/// the widest column still wider than it needs (the last of equals) gives up a column, else
/// the widest wider than one; the table stays too wide when no column can give one.
pub fn column_widths(max_w: &Vec<usize>, min_w: &Vec<usize>, avail: usize) -> (r: Vec<usize>)
    requires
        min_w@.len() == max_w@.len(),
    ensures
        r@ == column_widths_spec(max_w@, min_w@, avail),
        r@.len() == max_w@.len(),
{
    let ncols = max_w.len();
    proof {
        let inner = table_inner(avail, ncols);
        let t = total(max_w@);
        lemma_shrink_len(max_w@, min_w@, if t >= inner { (t - inner) as nat } else { 0 });
    }
    let chrome: usize = if ncols > (usize::MAX - 1) / 3 {
        assert(3 * ncols + 1 > usize::MAX) by (nonlinear_arith)
            requires
                ncols > (usize::MAX - 1) / 3,
        ;
        usize::MAX
    } else {
        assert(3 * ncols + 1 <= usize::MAX) by (nonlinear_arith)
            requires
                ncols <= (usize::MAX - 1) / 3,
        ;
        3 * ncols + 1
    };
    let inner = avail.saturating_sub(chrome);
    let mut sum: usize = 0;
    let mut i: usize = 0;
    while i < ncols
        invariant
            i <= ncols == max_w@.len(),
            sum == total(max_w@.take(i as int)),
        decreases ncols - i,
    {
        assert(max_w@.take(i + 1).drop_last() =~= max_w@.take(i as int));
        sum = sum.saturating_add(max_w[i]);
        i = i + 1;
    }
    assert(max_w@.take(ncols as int) =~= max_w@);
    let mut widths = max_w.clone();
    assert(widths@ =~= max_w@);
    let mut excess = sum.saturating_sub(inner);
    assert(table_inner(avail, ncols) == inner);
    let ghost goal = column_widths_spec(max_w@, min_w@, avail);
    assert(shrink(widths@, min_w@, excess as nat) == goal);
    while excess > 0
        invariant
            widths@.len() == ncols,
            min_w@.len() == ncols,
            max_w@.len() == ncols,
            shrink(widths@, min_w@, excess as nat) == goal,
            goal == column_widths_spec(max_w@, min_w@, avail),
        decreases excess,
    {
        proof {
            lemma_pick_in_range(widths@, min_w@, widths@.len() as int);
        }
        match pick_exec(&widths, min_w) {
            Some(c) => {
                let ghost before = widths@;
                let v = widths[c] - 1;
                widths.set(c, v);
                assert(widths@ == before.update(c as int, v));
                excess = excess - 1;
            },
            None => {
                assert(shrink(widths@, min_w@, excess as nat) == widths@);
                return widths;
            },
        }
    }
    widths
}

/// The widest cell of column `c` (at least 1); a row without that cell counts as empty.
pub open spec fn col_max(rows: Seq<Vec<Vec<Piece>>>, c: int, n: int) -> nat
    decreases n,
{
    if n <= 0 {
        1
    } else {
        let a = col_max(rows, c, n - 1);
        let b = if c < rows[n - 1]@.len() {
            pieces_columns(rows[n - 1]@[c]@)
        } else {
            0
        };
        if a >= b {
            a
        } else {
            b
        }
    }
}

/// The most that a cell of column `c` needs (at least 1).
pub open spec fn col_min(rows: Seq<Vec<Vec<Piece>>>, c: int, n: int) -> nat
    decreases n,
{
    if n <= 0 {
        1
    } else {
        let a = col_min(rows, c, n - 1);
        let b = if c < rows[n - 1]@.len() {
            pieces_min_columns(rows[n - 1]@[c]@)
        } else {
            0
        };
        if a >= b {
            a
        } else {
            b
        }
    }
}

/// Each of `ncols` columns' widest cell and the least its cells need, each at least 1; a
/// row short of a cell counts it as empty.
pub fn cell_widths(rows: &Vec<Vec<Vec<Piece>>>, ncols: usize) -> (r: (Vec<usize>, Vec<usize>))
    ensures
        r.0@.len() == ncols,
        r.1@.len() == ncols,
        forall|c: int| 0 <= c < ncols ==> r.0@[c] == col_max(rows@, c, rows@.len() as int),
        forall|c: int| 0 <= c < ncols ==> r.1@[c] == col_min(rows@, c, rows@.len() as int),
{
    let mut max_w: Vec<usize> = Vec::new();
    let mut min_w: Vec<usize> = Vec::new();
    let mut c: usize = 0;
    while c < ncols
        invariant
            c <= ncols,
            max_w@.len() == c,
            min_w@.len() == c,
            forall|j: int| 0 <= j < c ==> max_w@[j] == col_max(rows@, j, rows@.len() as int),
            forall|j: int| 0 <= j < c ==> min_w@[j] == col_min(rows@, j, rows@.len() as int),
        decreases ncols - c,
    {
        let mut hi: usize = 1;
        let mut lo: usize = 1;
        let mut k: usize = 0;
        while k < rows.len()
            invariant
                k <= rows.len(),
                c < ncols,
                hi == col_max(rows@, c as int, k as int),
                lo == col_min(rows@, c as int, k as int),
            decreases rows.len() - k,
        {
            let (w, m) = if c < rows[k].len() {
                let cell = &rows[k][c];
                (pieces_width(cell.as_slice()), pieces_min_width(cell.as_slice()))
            } else {
                (0, 0)
            };
            if w > hi {
                hi = w;
            }
            if m > lo {
                lo = m;
            }
            k = k + 1;
        }
        max_w.push(hi);
        min_w.push(lo);
        c = c + 1;
    }
    (max_w, min_w)
}

// ---------------------------------------------------------------------------------------------
// Cutting a line
// ---------------------------------------------------------------------------------------------
/// A character's columns, 0 for a control character.
pub open spec fn char_cols_of(c: char) -> nat {
    match char_columns(c) {
        Some(w) => w,
        None => 0,
    }
}

/// The longest start of `cs` that fits in `room` columns, character by character.
pub open spec fn fitting(cs: Seq<char>, room: nat) -> Seq<char>
    decreases cs.len(),
{
    if cs.len() == 0 || char_cols_of(cs[0]) > room {
        seq![]
    } else {
        seq![cs[0]] + fitting(cs.drop_first(), (room - char_cols_of(cs[0])) as nat)
    }
}

/// The spans that fit in `room` columns: whole spans while they fit, then the start of the
/// first that does not (if any of it fits), then nothing.
pub open spec fn truncated(spans: Seq<(Seq<char>, Style)>, room: nat) -> Seq<(Seq<char>, Style)>
    decreases spans.len(),
{
    if spans.len() == 0 {
        seq![]
    } else if str_columns(spans[0].0) <= room {
        seq![spans[0]] + truncated(spans.drop_first(), (room - str_columns(spans[0].0)) as nat)
    } else {
        let t = fitting(spans[0].0, room);
        if t.len() > 0 {
            seq![(t, spans[0].1)]
        } else {
            seq![]
        }
    }
}

pub open spec fn run_views(v: Seq<Span>) -> Seq<(Seq<char>, Style)> {
    v.map_values(|s: Span| (s.content@, s.style))
}

pub(crate) fn fit_chars(text: &String, room: usize) -> (r: Vec<char>)
    ensures
        r@ == fitting(text@, room as nat),
{
    let cs = chars_of(text.as_str());
    let mut out: Vec<char> = Vec::new();
    let mut left: usize = room;
    let mut i: usize = 0;
    assert(cs@.skip(0) =~= cs@);
    assert(out@ + fitting(cs@.skip(0), room as nat) =~= fitting(cs@, room as nat));
    while i < cs.len()
        invariant
            i <= cs.len(),
            cs@ == text@,
            out@ + fitting(cs@.skip(i as int), left as nat) == fitting(text@, room as nat),
        decreases cs.len() - i,
    {
        let ch = cs[i];
        let cw = match char_width(ch) {
            Some(w) => w,
            None => 0,
        };
        let ghost rest = cs@.skip(i as int);
        assert(rest[0] == ch);
        if cw > left {
            assert(fitting(rest, left as nat) =~= Seq::<char>::empty());
            assert(out@ + Seq::<char>::empty() =~= out@);
            return out;
        }
        assert(rest.drop_first() =~= cs@.skip(i + 1));
        out.push(ch);
        left = left - cw;
        i = i + 1;
    }
    assert(fitting(cs@.skip(cs.len() as int), left as nat) =~= Seq::<char>::empty());
    assert(out@ + Seq::<char>::empty() =~= out@);
    out
}

/// The spans cut to `max` columns.
pub fn truncate(spans: Vec<Span>, max: usize) -> (r: Vec<Span>)
    ensures
        run_views(r@) == truncated(run_views(spans@), max as nat),
{
    let ghost sv = run_views(spans@);
    let mut out: Vec<Span> = Vec::new();
    let mut left: usize = max;
    let mut i: usize = 0;
    assert(sv.skip(0) =~= sv);
    assert(run_views(out@) + truncated(sv.skip(0), left as nat) =~= truncated(sv, max as nat));
    while i < spans.len()
        invariant
            i <= spans.len(),
            sv == run_views(spans@),
            run_views(out@) + truncated(sv.skip(i as int), left as nat) == truncated(sv, max as nat),
        decreases spans.len() - i,
    {
        let ghost rest = sv.skip(i as int);
        assert(rest[0] == (spans@[i as int].content@, spans@[i as int].style));
        let w = width(spans[i].content.as_str());
        if w <= left {
            let ghost before = out@;
            out.push(spans[i].clone_span());
            assert(run_views(out@) =~= run_views(before).push(rest[0]));
            assert(rest.drop_first() =~= sv.skip(i + 1));
            left = left - w;
            i = i + 1;
        } else {
            let t = fit_chars(&spans[i].content, left);
            if t.len() > 0 {
                let ghost before = out@;
                out.push(Span { content: string_of(&t), style: spans[i].style });
                assert(run_views(out@) =~= run_views(before) + truncated(rest, left as nat));
            } else {
                assert(run_views(out@) =~= run_views(out@) + truncated(rest, left as nat));
            }
            return out;
        }
    }
    assert(truncated(sv.skip(spans.len() as int), left as nat) =~= Seq::<(Seq<char>, Style)>::empty());
    assert(run_views(out@) + Seq::<(Seq<char>, Style)>::empty() =~= run_views(out@));
    out
}

impl Span {
    /// A copy of the span.
    pub fn clone_span(&self) -> (r: Span)
        ensures
            r.content@ == self.content@,
            r.style == self.style,
    {
        Span { content: self.content.clone(), style: self.style }
    }
}

} // verus!
