//! Finding text in the laid-out lines: smart case (a query with a capital letter matches
//! case exactly, any other ignores case) and matches reported in display columns.
use vstd::prelude::*;

use crate::render::layout::{spans_text, Layout};
use crate::render::wrap::{str_columns, width, Span};
use crate::text::{chars_of, is_uppercase, string_of_range, to_lowercase, unicode_lowercase, unicode_uppercase};

verus! {

/// A match: the line, and the columns it starts at and ends before.
#[derive(Debug, Clone, Copy, PartialEq, Eq, Structural)]
pub struct Match {
    pub line: usize,
    pub start: u16,
    pub end: u16,
}

/// The search ignores case: the query has no uppercase letter.
pub open spec fn insensitive(query: Seq<char>) -> bool {
    !exists|i: int| 0 <= i < query.len() && unicode_uppercase(#[trigger] query[i])
}

/// A character as the search compares it: its first lowercase character when case is ignored.
pub open spec fn fold_spec(c: char, insensitive: bool) -> char {
    if insensitive && unicode_lowercase(c).len() > 0 {
        unicode_lowercase(c)[0]
    } else {
        c
    }
}

pub open spec fn folded(s: Seq<char>, insensitive: bool) -> Seq<char> {
    s.map_values(|c: char| fold_spec(c, insensitive))
}

/// The matches of `needle` in the folded `line` from character `i` on, left to right, each
/// search going on after the end of the match before.
pub open spec fn line_matches(line: Seq<char>, needle: Seq<char>, line_no: usize, ins: bool, i: int) -> Seq<Match>
    decreases line.len() - i,
{
    if needle.len() > 0 && 0 <= i && i + needle.len() <= line.len() {
        if folded(line, ins).subrange(i, i + needle.len()) == needle {
            seq![Match {
                line: line_no,
                start: str_columns(line.take(i)) as u16,
                end: str_columns(line.take(i + needle.len())) as u16,
            }] + line_matches(line, needle, line_no, ins, i + needle.len())
        } else {
            line_matches(line, needle, line_no, ins, i + 1)
        }
    } else {
        seq![]
    }
}

/// The matches in the first `n` lines.
pub open spec fn find_spec(lines: Seq<Seq<char>>, query: Seq<char>, n: int) -> Seq<Match>
    decreases n,
{
    if n <= 0 {
        seq![]
    } else {
        let ins = insensitive(query);
        find_spec(lines, query, n - 1) + line_matches(lines[n - 1], folded(query, ins), (n - 1) as usize, ins, 0)
    }
}

/// Where `line_matches` finds its matches: the character offsets, left to right.
pub open spec fn match_offsets(line: Seq<char>, needle: Seq<char>, ins: bool, i: int) -> Seq<int>
    decreases line.len() - i,
{
    if needle.len() > 0 && 0 <= i && i + needle.len() <= line.len() {
        if folded(line, ins).subrange(i, i + needle.len()) == needle {
            seq![i] + match_offsets(line, needle, ins, i + needle.len())
        } else {
            match_offsets(line, needle, ins, i + 1)
        }
    } else {
        seq![]
    }
}

/// The matches in one line stand at offsets where the folded line spells the needle, each
/// reported by the columns before its start and its end, and no two of them overlap: each
/// begins at or after the end of the one before.
pub proof fn law_line_matches_do_not_overlap(line: Seq<char>, needle: Seq<char>, line_no: usize, ins: bool, i: int)
    requires
        0 <= i,
    ensures
        ({
            let ms = line_matches(line, needle, line_no, ins, i);
            let os = match_offsets(line, needle, ins, i);
            &&& ms.len() == os.len()
            &&& forall|k: int| #![trigger os[k]] 0 <= k < os.len() ==> {
                &&& i <= os[k]
                &&& os[k] + needle.len() <= line.len()
                &&& folded(line, ins).subrange(os[k], os[k] + needle.len()) == needle
                &&& ms[k] == Match {
                    line: line_no,
                    start: str_columns(line.take(os[k])) as u16,
                    end: str_columns(line.take(os[k] + needle.len())) as u16,
                }
            }
            &&& forall|j: int, k: int| 0 <= j < k < os.len() ==> #[trigger] os[j] + needle.len() <= #[trigger] os[k]
        }),
    decreases line.len() - i,
{
    let n = needle.len();
    if n > 0 && i + n <= line.len() {
        if folded(line, ins).subrange(i, i + n) == needle {
            law_line_matches_do_not_overlap(line, needle, line_no, ins, i + n);
        } else {
            law_line_matches_do_not_overlap(line, needle, line_no, ins, i + 1);
        }
    }
}

/// Where `find_spec`'s matches stand in their lines, as character offsets.
pub open spec fn find_offsets(lines: Seq<Seq<char>>, query: Seq<char>, n: int) -> Seq<int>
    decreases n,
{
    if n <= 0 {
        seq![]
    } else {
        let ins = insensitive(query);
        find_offsets(lines, query, n - 1) + match_offsets(lines[n - 1], folded(query, ins), ins, 0)
    }
}

/// Every match of the first `n` lines is an occurrence: at its offset the line, folded as the
/// query asks, spells the folded query, and the match reports the columns before its start
/// and its end. Matches come in order: by line, and within a line each starts at or after
/// the end of the one before.
pub open spec fn occurrences_in_order(lines: Seq<Seq<char>>, query: Seq<char>, n: int) -> bool {
    let r = find_spec(lines, query, n);
    let os = find_offsets(lines, query, n);
    let ins = insensitive(query);
    let nd = folded(query, ins);
    &&& r.len() == os.len()
    &&& forall|k: int| #![trigger r[k]] 0 <= k < r.len() ==> {
        &&& r[k].line < n
        &&& 0 <= os[k]
        &&& os[k] + nd.len() <= lines[r[k].line as int].len()
        &&& folded(lines[r[k].line as int], ins).subrange(os[k], os[k] + nd.len()) == nd
        &&& r[k].start == str_columns(lines[r[k].line as int].take(os[k])) as u16
        &&& r[k].end == str_columns(lines[r[k].line as int].take(os[k] + nd.len())) as u16
    }
    &&& forall|j: int, k: int| 0 <= j < k < r.len() ==> #[trigger] r[j].line < #[trigger] r[k].line || (
        r[j].line == r[k].line && os[j] + nd.len() <= os[k])
}

proof fn lemma_occurrences(lines: Seq<Seq<char>>, query: Seq<char>, n: int)
    requires
        0 <= n <= lines.len(),
        n <= usize::MAX + 1,
    ensures
        occurrences_in_order(lines, query, n),
    decreases n,
{
    if n > 0 {
        lemma_occurrences(lines, query, n - 1);
        let ins = insensitive(query);
        let nd = folded(query, ins);
        let before = find_spec(lines, query, n - 1);
        let bos = find_offsets(lines, query, n - 1);
        let here = line_matches(lines[n - 1], nd, (n - 1) as usize, ins, 0);
        law_line_matches_do_not_overlap(lines[n - 1], nd, (n - 1) as usize, ins, 0);
        let hos = match_offsets(lines[n - 1], nd, ins, 0);
        let all = find_spec(lines, query, n);
        let os = find_offsets(lines, query, n);
        assert(all == before + here);
        assert(os == bos + hos);
        let b = before.len() as int;
        assert forall|k: int| #![trigger all[k]] 0 <= k < all.len() implies {
            &&& all[k].line < n
            &&& 0 <= os[k]
            &&& os[k] + nd.len() <= lines[all[k].line as int].len()
            &&& folded(lines[all[k].line as int], ins).subrange(os[k], os[k] + nd.len()) == nd
            &&& all[k].start == str_columns(lines[all[k].line as int].take(os[k])) as u16
            &&& all[k].end == str_columns(lines[all[k].line as int].take(os[k] + nd.len())) as u16
        } by {
            if k < b {
                assert(all[k] == before[k] && os[k] == bos[k]);
            } else {
                assert(all[k] == here[k - b] && os[k] == hos[k - b]);
                assert(hos[k - b] >= 0);
            }
        }
        assert forall|j: int, k: int| 0 <= j < k < all.len() implies #[trigger] all[j].line < #[trigger] all[k].line || (
            all[j].line == all[k].line && os[j] + nd.len() <= os[k]) by {
            if k < b {
                assert(all[j] == before[j] && all[k] == before[k] && os[j] == bos[j] && os[k] == bos[k]);
            } else if j < b {
                assert(all[j] == before[j] && all[k] == here[k - b]);
                assert(before[j].line < n - 1);
            } else {
                assert(all[j] == here[j - b] && all[k] == here[k - b] && os[j] == hos[j - b] && os[k] == hos[k - b]);
                assert(hos[j - b] + nd.len() <= hos[k - b]);
            }
        }
    }
}

/// What `find` reports are the occurrences of the query, in order: each match names a line
/// of the layout where, at its offset, the line folded as the query asks (smart case) spells
/// the folded query, with the columns before its start and its end; matches go by line, and
/// within a line do not overlap.
pub proof fn law_find_reports_occurrences_in_order(layout: Layout, query: Seq<char>)
    ensures
        occurrences_in_order(layout_texts(layout.lines@), query, layout.lines@.len() as int),
{
    assert(layout.lines@.len() == layout.lines.len());
    lemma_occurrences(layout_texts(layout.lines@), query, layout.lines@.len() as int);
}

proof fn lemma_unfolded(s: Seq<char>)
    ensures
        folded(s, false) == s,
{
    assert(folded(s, false) =~= s);
}

/// Every match of `find_spec` on the first `n` lines spells `query` exactly, character for
/// character, at its place in its line.
pub open spec fn spelled_exactly(lines: Seq<Seq<char>>, query: Seq<char>, n: int) -> bool {
    let r = find_spec(lines, query, n);
    let os = find_offsets(lines, query, n);
    &&& r.len() == os.len()
    &&& forall|k: int| #![trigger os[k]] 0 <= k < os.len() ==> {
        &&& 0 <= os[k]
        &&& os[k] + query.len() <= lines[r[k].line as int].len()
        &&& lines[r[k].line as int].subrange(os[k], os[k] + query.len()) =~= query
    }
}

/// Smart case: a query with an uppercase character anywhere in it is matched exactly, case
/// included: every match `find` reports spells the query, character for character, at its
/// place in its line.
pub proof fn law_capitals_make_the_search_exact(layout: Layout, query: Seq<char>, upper_at: int)
    requires
        0 <= upper_at < query.len(),
        unicode_uppercase(query[upper_at]),
    ensures
        spelled_exactly(layout_texts(layout.lines@), query, layout.lines@.len() as int),
{
    let lines = layout_texts(layout.lines@);
    let n = layout.lines@.len() as int;
    assert(!insensitive(query));
    law_find_reports_occurrences_in_order(layout, query);
    lemma_unfolded(query);
    let r = find_spec(lines, query, n);
    let os = find_offsets(lines, query, n);
    assert(occurrences_in_order(lines, query, n));
    assert forall|k: int| #![trigger os[k]] 0 <= k < os.len() implies {
        &&& 0 <= os[k]
        &&& os[k] + query.len() <= lines[r[k].line as int].len()
        &&& lines[r[k].line as int].subrange(os[k], os[k] + query.len()) == query
    } by {
        let l = lines[r[k].line as int];
        lemma_unfolded(l);
        assert(folded(l, false).subrange(os[k], os[k] + query.len()) == folded(query, false));
    }
    assert(spelled_exactly(lines, query, n));
}

pub open spec fn string_views(v: Seq<String>) -> Seq<Seq<char>> {
    v.map_values(|s: String| s@)
}

fn fold(c: char, insensitive: bool) -> (r: char)
    ensures
        r == fold_spec(c, insensitive),
{
    if insensitive {
        let l = to_lowercase(c);
        if l.len() > 0 {
            return l[0];
        }
    }
    c
}

fn fold_all(s: &Vec<char>, insensitive: bool) -> (r: Vec<char>)
    ensures
        r@ == folded(s@, insensitive),
{
    let mut out: Vec<char> = Vec::new();
    let mut i: usize = 0;
    while i < s.len()
        invariant
            i <= s.len(),
            out@ == folded(s@.take(i as int), insensitive),
        decreases s.len() - i,
    {
        out.push(fold(s[i], insensitive));
        i = i + 1;
        assert(out@ =~= folded(s@.take(i as int), insensitive));
    }
    assert(s@.take(s.len() as int) =~= s@);
    out
}

fn has_uppercase(q: &Vec<char>) -> (r: bool)
    ensures
        r == !insensitive(q@),
{
    let mut i: usize = 0;
    while i < q.len()
        invariant
            i <= q.len(),
            forall|k: int| 0 <= k < i ==> !unicode_uppercase(#[trigger] q@[k]),
        decreases q.len() - i,
    {
        if is_uppercase(q[i]) {
            return true;
        }
        i = i + 1;
    }
    false
}

/// The columns of the first `n` characters of `line`.
fn columns_before(line: &Vec<char>, n: usize) -> (r: usize)
    requires
        n <= line.len(),
    ensures
        r == str_columns(line@.take(n as int)),
{
    let s = string_of_range(line, 0, n);
    assert(line@.subrange(0, n as int) =~= line@.take(n as int));
    width(s.as_str())
}

fn window_eq(hay: &Vec<char>, at: usize, needle: &Vec<char>) -> (r: bool)
    requires
        at + needle.len() <= hay.len(),
    ensures
        r == (hay@.subrange(at as int, at + needle.len()) == needle@),
{
    let mut k: usize = 0;
    while k < needle.len()
        invariant
            k <= needle.len(),
            at + needle.len() <= hay.len(),
            forall|j: int| 0 <= j < k ==> hay@[at + j] == needle@[j],
        decreases needle.len() - k,
    {
        if hay[at + k] != needle[k] {
            assert(hay@.subrange(at as int, at + needle.len())[k as int] != needle@[k as int]);
            return false;
        }
        k = k + 1;
    }
    assert(hay@.subrange(at as int, at + needle.len()) =~= needle@);
    true
}

fn matches_in_line(line: &Vec<char>, needle: &Vec<char>, line_no: usize, ins: bool, out: &mut Vec<Match>)
    requires
        needle.len() > 0,
    ensures
        final(out)@ == old(out)@ + line_matches(line@, needle@, line_no, ins, 0),
{
    let hay = fold_all(line, ins);
    let ghost before = out@;
    let mut i: usize = 0;
    while i <= line.len() && needle.len() <= line.len() - i
        invariant
            needle.len() > 0,
            hay@ == folded(line@, ins),
            hay@.len() == line@.len(),
            before + line_matches(line@, needle@, line_no, ins, 0) == out@ + line_matches(line@, needle@, line_no, ins, i as int),
        decreases line.len() + 1 - i,
    {
        if window_eq(&hay, i, needle) {
            let start = columns_before(line, i);
            let end = columns_before(line, i + needle.len());
            let m = Match { line: line_no, start: start as u16, end: end as u16 };
            let ghost o = out@;
            out.push(m);
            assert(out@ == o + seq![m]);
            assert(o + line_matches(line@, needle@, line_no, ins, i as int) =~= out@ + line_matches(line@, needle@, line_no, ins, i + needle.len()));
            i = i + needle.len();
        } else {
            i = i + 1;
        }
    }
    assert(out@ + line_matches(line@, needle@, line_no, ins, i as int) =~= out@);
}

/// The text of each line of a layout.
pub open spec fn layout_texts(lines: Seq<Vec<Span>>) -> Seq<Seq<char>> {
    lines.map_values(|l: Vec<Span>| spans_text(l@))
}

/// Every match of `query` in the layout's lines, line by line and left to right within a
/// line; after a match the search goes on past its end.
pub fn find(layout: &Layout, query: &str) -> (r: Vec<Match>)
    requires
        query@.len() > 0,
    ensures
        r@ == find_spec(layout_texts(layout.lines@), query@, layout.lines@.len() as int),
{
    let lines = layout.plain_lines();
    assert(string_views(lines@) =~= layout_texts(layout.lines@));
    find_in(&lines, query)
}

fn find_in(lines: &Vec<String>, query: &str) -> (r: Vec<Match>)
    requires
        query@.len() > 0,
    ensures
        r@ == find_spec(string_views(lines@), query@, lines@.len() as int),
{
    let q = chars_of(query);
    let ins = !has_uppercase(&q);
    let needle = fold_all(&q, ins);
    let mut out: Vec<Match> = Vec::new();
    let mut n: usize = 0;
    while n < lines.len()
        invariant
            n <= lines.len(),
            q@ == query@,
            q@.len() > 0,
            ins == insensitive(query@),
            needle@ == folded(query@, ins),
            out@ == find_spec(string_views(lines@), query@, n as int),
        decreases lines.len() - n,
    {
        let line = chars_of(lines[n].as_str());
        assert(string_views(lines@)[n as int] == line@);
        matches_in_line(&line, &needle, n, ins, &mut out);
        n = n + 1;
    }
    out
}

} // verus!
