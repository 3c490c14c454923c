//! The file finder: the project's files as "path  title" labels, ranked by how well they
//! match a fuzzy query.
use nucleo_matcher::pattern::{CaseMatching, Normalization, Pattern};
use nucleo_matcher::{Config, Matcher, Utf32String};
use vstd::prelude::*;

use crate::project::scan::{display_path, held_path, lossy_text_of, slashes_spec, Entry, Project};
use crate::text::{chars_of, extend, string_of, trim, trimmed};

verus! {

/// The most hits the finder lists.
pub const MAX_RESULTS: usize = 200;

/// A file the finder lists: its entry in the project, its label, and the label's characters
/// that the query matched, in increasing order.
#[derive(Debug, Clone, PartialEq, Eq)]
pub struct Hit {
    pub entry: usize,
    pub label: String,
    pub indices: Vec<u32>,
}

pub open spec fn label_spec(path: Seq<char>, title: Option<Seq<char>>) -> Seq<char> {
    match title {
        Some(t) => if t.len() > 0 {
            path + seq![' ', ' '] + t
        } else {
            path
        },
        None => path,
    }
}

pub open spec fn opt_view(t: Option<String>) -> Option<Seq<char>> {
    match t {
        Some(s) => Some(s@),
        None => None,
    }
}

/// A file's label: its path, then two spaces and its title when it has one.
pub fn label(path: &str, title: Option<&str>) -> (r: String)
    ensures
        r@ == label_spec(
            path@,
            match title {
                Some(t) => Some(t@),
                None => None,
            },
        ),
{
    let mut out = chars_of(path);
    match title {
        Some(t) => {
            let tc = chars_of(t);
            if tc.len() > 0 {
                out.push(' ');
                out.push(' ');
                extend(&mut out, &tc);
            }
        },
        None => {},
    }
    string_of(&out)
}

// ---------------------------------------------------------------------------------------------
// Match positions
// ---------------------------------------------------------------------------------------------
pub open spec fn strictly_increasing(v: Seq<u32>) -> bool {
    forall|i: int, j: int| 0 <= i < j < v.len() ==> v[i] < v[j]
}

/// `r` holds the values of `v` once each, in increasing order.
pub open spec fn sorted_set_of(r: Seq<u32>, v: Seq<u32>) -> bool {
    &&& strictly_increasing(r)
    &&& forall|x: u32| r.contains(x) <==> v.contains(x)
}

/// The values of `v` once each, in increasing order (a sort and a dedup).
pub fn sort_dedup(v: &Vec<u32>) -> (r: Vec<u32>)
    ensures
        sorted_set_of(r@, v@),
{
    let mut out: Vec<u32> = Vec::new();
    let mut i: usize = 0;
    while i < v.len()
        invariant
            i <= v.len(),
            strictly_increasing(out@),
            forall|x: u32| out@.contains(x) <==> v@.take(i as int).contains(x),
        decreases v.len() - i,
    {
        let x = v[i];
        let mut k: usize = 0;
        while k < out.len() && out[k] < x
            invariant
                k <= out.len(),
                strictly_increasing(out@),
                forall|j: int| 0 <= j < k ==> out@[j] < x,
            decreases out.len() - k,
        {
            k = k + 1;
        }
        let ghost before = out@;
        assert(v@.take(i + 1) =~= v@.take(i as int).push(x));
        if k < out.len() && out[k] == x {
            assert(before.contains(x));
            assert forall|y: u32| out@.contains(y) <==> v@.take(i + 1).contains(y) by {
                if v@.take(i + 1).contains(y) {
                    let j = choose|j: int| 0 <= j < i + 1 && #[trigger] v@.take(i + 1)[j] == y;
                    if j < i {
                        assert(v@.take(i as int)[j] == y);
                    }
                }
                if v@.take(i as int).contains(y) {
                    let j = choose|j: int| 0 <= j < i && #[trigger] v@.take(i as int)[j] == y;
                    assert(v@.take(i + 1)[j] == y);
                }
                if y == x {
                    assert(v@.take(i + 1)[i as int] == y);
                }
            }
        } else {
            out.insert(k, x);
            assert(out@ =~= before.insert(k as int, x));
            assert forall|a: int, b: int| 0 <= a < b < out@.len() implies out@[a] < out@[b] by {
                if b < k {
                } else if b == k {
                } else if a < k {
                    assert(out@[b] == before[b - 1]);
                } else if a == k {
                    assert(out@[b] == before[b - 1]);
                    assert(k < before.len() ==> before[k as int] > x);
                    if b - 1 > k {
                        assert(before[k as int] < before[b - 1]);
                    }
                } else {
                    assert(out@[a] == before[a - 1]);
                    assert(out@[b] == before[b - 1]);
                }
            }
            assert forall|y: u32| out@.contains(y) <==> v@.take(i + 1).contains(y) by {
                if v@.take(i + 1).contains(y) {
                    let j = choose|j: int| 0 <= j < i + 1 && #[trigger] v@.take(i + 1)[j] == y;
                    if j < i {
                        assert(v@.take(i as int)[j] == y);
                    }
                }
                if v@.take(i as int).contains(y) {
                    let j = choose|j: int| 0 <= j < i && #[trigger] v@.take(i as int)[j] == y;
                    assert(v@.take(i + 1)[j] == y);
                }
                if out@.contains(y) {
                    let j = choose|j: int| 0 <= j < out@.len() && out@[j] == y;
                    if j < k {
                        assert(before[j] == y);
                    } else if j > k {
                        assert(before[j - 1] == y);
                    }
                }
                if before.contains(y) {
                    let j = choose|j: int| 0 <= j < before.len() && before[j] == y;
                    if j < k {
                        assert(out@[j] == y);
                    } else {
                        assert(out@[j + 1] == y);
                    }
                }
                if y == x {
                    assert(out@[k as int] == y);
                    assert(v@.take(i + 1)[i as int] == y);
                }
            }
        }
        i = i + 1;
    }
    assert(v@.take(v.len() as int) =~= v@);
    out
}

// ---------------------------------------------------------------------------------------------
// Ranking
// ---------------------------------------------------------------------------------------------
/// A scored file: score, entry, label, match positions.
pub open spec fn ranks_before(a: (u32, usize), b: (u32, usize)) -> bool {
    a.0 > b.0 || (a.0 == b.0 && a.1 < b.1)
}

pub open spec fn key(h: (u32, usize, Seq<char>, Seq<u32>)) -> (u32, usize) {
    (h.0, h.1)
}

pub open spec fn ranked(s: Seq<(u32, usize, Seq<char>, Seq<u32>)>) -> bool {
    forall|i: int, j: int| 0 <= i < j < s.len() ==> ranks_before(key(s[i]), key(s[j]))
}

pub open spec fn scored_view(h: (u32, usize, String, Vec<u32>)) -> (u32, usize, Seq<char>, Seq<u32>) {
    (h.0, h.1, h.2@, h.3@)
}

pub open spec fn scored_views(v: Seq<(u32, usize, String, Vec<u32>)>) -> Seq<(u32, usize, Seq<char>, Seq<u32>)> {
    v.map_values(|h: (u32, usize, String, Vec<u32>)| scored_view(h))
}

proof fn lemma_ranked_insert(s: Seq<(u32, usize, Seq<char>, Seq<u32>)>, k: int, x: (u32, usize, Seq<char>, Seq<u32>))
    requires
        ranked(s),
        0 <= k <= s.len(),
        forall|j: int| 0 <= j < k ==> ranks_before(key(s[j]), key(x)),
        k < s.len() ==> ranks_before(key(x), key(s[k])),
    ensures
        ranked(s.insert(k, x)),
{
    let t = s.insert(k, x);
    assert forall|a: int, b: int| 0 <= a < b < t.len() implies ranks_before(key(t[a]), key(t[b])) by {
        if b < k {
        } else if b == k {
        } else if a < k {
            assert(t[b] == s[b - 1]);
            if b - 1 >= k {
                assert(ranks_before(key(x), key(s[k])));
            }
        } else if a == k {
            assert(t[b] == s[b - 1]);
            if b - 1 > k {
                assert(ranks_before(key(s[k]), key(s[b - 1])));
            }
        } else {
            assert(t[a] == s[a - 1]);
            assert(t[b] == s[b - 1]);
        }
    }
}

/// The candidate whose entry is `entry`.
pub open spec fn cand_of(cands: Seq<(usize, String)>, entry: usize) -> int {
    choose|j: int| 0 <= j < cands.len() && cands[j].0 == entry
}

pub open spec fn increasing_entries(cands: Seq<(usize, String)>) -> bool {
    forall|i: int, j: int| 0 <= i < j < cands.len() ==> cands[i].0 < cands[j].0
}

proof fn lemma_cand_of(cands: Seq<(usize, String)>, j: int)
    requires
        increasing_entries(cands),
        0 <= j < cands.len(),
    ensures
        cand_of(cands, cands[j].0) == j,
{
    let k = cand_of(cands, cands[j].0);
    assert(0 <= k < cands.len() && cands[k].0 == cands[j].0);
    if k < j {
        assert(cands[k].0 < cands[j].0);
    } else if k > j {
        assert(cands[j].0 < cands[k].0);
    }
}

/// The score of the candidate with entry `entry`.
pub open spec fn score_of(cands: Seq<(usize, String)>, results: Seq<Option<(u32, Vec<u32>)>>, entry: usize) -> u32 {
    match results[cand_of(cands, entry)] {
        Some(m) => m.0,
        None => 0,
    }
}

/// `h` is the hit candidate `j` makes.
pub open spec fn hit_from(cands: Seq<(usize, String)>, results: Seq<Option<(u32, Vec<u32>)>>, j: int, h: (u32, usize, Seq<char>, Seq<u32>)) -> bool {
    &&& 0 <= j < cands.len()
    &&& results[j] matches Some(m)
    &&& h.0 == m.0
    &&& h.1 == cands[j].0
    &&& h.2 == cands[j].1@
    &&& sorted_set_of(h.3, m.1@)
}

/// The matched candidates in rank order: best score first, then earlier entries; at most
/// `MAX_RESULTS` of them, and every matched candidate left out ranks after all that are in.
pub fn hits_of(cands: &Vec<(usize, String)>, results: Vec<Option<(u32, Vec<u32>)>>) -> (r: Vec<Hit>)
    requires
        results@.len() == cands@.len(),
        increasing_entries(cands@),
    ensures
        r@.len() <= MAX_RESULTS,
        forall|a: int|
            0 <= a < r@.len() ==> hit_from(
                cands@,
                results@,
                cand_of(cands@, r@[a].entry),
                (score_of(cands@, results@, r@[a].entry), r@[a].entry, r@[a].label@, r@[a].indices@),
            ),
        forall|a: int, b: int|
            0 <= a < b < r@.len() ==> ranks_before(
                (score_of(cands@, results@, r@[a].entry), r@[a].entry),
                (score_of(cands@, results@, r@[b].entry), r@[b].entry),
            ),
        forall|j: int|
            0 <= j < cands@.len() && results@[j] is Some ==> (exists|a: int|
                0 <= a < r@.len() && r@[a].entry == cands@[j].0) || (r@.len() == MAX_RESULTS
                && ranks_before(
                (score_of(cands@, results@, r@[r@.len() - 1].entry), r@[r@.len() - 1].entry),
                ((results@[j]->0).0, cands@[j].0),
            )),
{
    let ghost cv = cands@;
    let ghost rv = results@;
    let mut sorted: Vec<(u32, usize, String, Vec<u32>)> = Vec::new();
    let mut i: usize = 0;
    let mut results = results;
    while i < cands.len()
        invariant
            i <= cands.len(),
            cv == cands@,
            increasing_entries(cv),
            results@.len() == cv.len(),
            forall|j: int| i <= j < cv.len() ==> results@[j] == rv[j],
            rv.len() == cv.len(),
            ranked(scored_views(sorted@)),
            forall|k: int|
                0 <= k < sorted@.len() ==> cand_of(cv, (#[trigger] sorted@[k]).1) < i && hit_from(
                    cv,
                    rv,
                    cand_of(cv, sorted@[k].1),
                    scored_view(sorted@[k]),
                ),
            forall|j: int|
                0 <= j < i && rv[j] is Some ==> exists|k: int| 0 <= k < sorted@.len() && (#[trigger] sorted@[k]).1 == cv[j].0,
        decreases cands.len() - i,
    {
        let mut taken: Option<(u32, Vec<u32>)> = None;
        std::mem::swap(&mut taken, &mut results[i]);
        match taken {
            Some((score, raw)) => {
                let idx = sort_dedup(&raw);
                let entry = cands[i].0;
                let lbl = cands[i].1.clone();
                let ghost x = (score, entry, lbl@, idx@);
                proof {
                    lemma_cand_of(cv, i as int);
                }
                let ghost sv = scored_views(sorted@);
                let mut k: usize = 0;
                while k < sorted.len() && !(score > sorted[k].0 || (score == sorted[k].0 && entry < sorted[k].1))
                    invariant
                        k <= sorted.len(),
                        sv == scored_views(sorted@),
                        key(x) == (score, entry),
                        forall|j: int| 0 <= j < k ==> !ranks_before(key(x), key(sv[j])),
                    decreases sorted.len() - k,
                {
                    assert(sv[k as int] == scored_view(sorted@[k as int]));
                    k = k + 1;
                }
                proof {
                    if k < sorted.len() {
                        assert(sv[k as int] == scored_view(sorted@[k as int]));
                    }
                    assert forall|j: int| 0 <= j < k implies ranks_before(key(sv[j]), key(x)) by {
                        assert(sv[j] == scored_view(sorted@[j]));
                        let c = cand_of(cv, sorted@[j].1);
                        assert(cv[c].0 < cv[i as int].0);
                    }
                    lemma_ranked_insert(sv, k as int, x);
                }
                let ghost old_sorted = sorted@;
                sorted.insert(k, (score, entry, lbl, idx));
                proof {
                    assert(scored_views(sorted@) =~= sv.insert(k as int, x));
                    assert forall|m: int| 0 <= m < sorted@.len() implies cand_of(cv, (#[trigger] sorted@[m]).1) < i + 1
                        && hit_from(cv, rv, cand_of(cv, sorted@[m].1), scored_view(sorted@[m])) by {
                        if m < k {
                            assert(sorted@[m] == old_sorted[m]);
                        } else if m > k {
                            assert(sorted@[m] == old_sorted[m - 1]);
                        }
                    }
                    assert forall|j: int| 0 <= j < i + 1 && rv[j] is Some implies exists|m: int|
                        0 <= m < sorted@.len() && (#[trigger] sorted@[m]).1 == cv[j].0 by {
                        if j < i {
                            let m = choose|m: int| 0 <= m < old_sorted.len() && old_sorted[m].1 == cv[j].0;
                            if m < k {
                                assert(sorted@[m] == old_sorted[m]);
                            } else {
                                assert(sorted@[m + 1] == old_sorted[m]);
                            }
                        } else {
                            assert(sorted@[k as int].1 == cv[j].0);
                        }
                    }
                }
            },
            None => {
                proof {
                    assert forall|j: int| 0 <= j < i + 1 && rv[j] is Some implies exists|m: int|
                        0 <= m < sorted@.len() && (#[trigger] sorted@[m]).1 == cv[j].0 by {
                        if j == i {
                            assert(rv[j] is None);
                        }
                    }
                }
            },
        }
        i = i + 1;
    }
    let mut out: Vec<Hit> = Vec::new();
    let mut k: usize = 0;
    let n = if sorted.len() < MAX_RESULTS {
        sorted.len()
    } else {
        MAX_RESULTS
    };
    while k < n
        invariant
            k <= n <= sorted.len(),
            n <= MAX_RESULTS,
            out@.len() == k,
            forall|m: int|
                0 <= m < k ==> (#[trigger] out@[m]).entry == sorted@[m].1 && out@[m].label@ == sorted@[m].2@
                    && out@[m].indices@ == sorted@[m].3@,
        decreases n - k,
    {
        out.push(Hit { entry: sorted[k].1, label: sorted[k].2.clone(), indices: sorted[k].3.clone() });
        k = k + 1;
    }
    proof {
        let sv = scored_views(sorted@);
        assert forall|a: int| 0 <= a < out@.len() implies score_of(cv, rv, out@[a].entry) == sorted@[a].0 && hit_from(
            cv,
            rv,
            cand_of(cv, out@[a].entry),
            (score_of(cv, rv, out@[a].entry), out@[a].entry, out@[a].label@, out@[a].indices@),
        ) by {
            assert(scored_view(sorted@[a]) == (sorted@[a].0, sorted@[a].1, sorted@[a].2@, sorted@[a].3@));
        }
        assert forall|a: int, b: int| 0 <= a < b < out@.len() implies ranks_before(
            (score_of(cv, rv, out@[a].entry), out@[a].entry),
            (score_of(cv, rv, out@[b].entry), out@[b].entry),
        ) by {
            assert(sv[a] == scored_view(sorted@[a]));
            assert(sv[b] == scored_view(sorted@[b]));
            assert(hit_from(cv, rv, cand_of(cv, sorted@[a].1), scored_view(sorted@[a])));
            assert(hit_from(cv, rv, cand_of(cv, sorted@[b].1), scored_view(sorted@[b])));
            assert(out@[a].entry == sorted@[a].1);
            assert(out@[b].entry == sorted@[b].1);
            assert(score_of(cv, rv, out@[a].entry) == sorted@[a].0);
            assert(score_of(cv, rv, out@[b].entry) == sorted@[b].0);
            assert(ranks_before(key(sv[a]), key(sv[b])));
        }
        assert forall|j: int| 0 <= j < cv.len() && rv[j] is Some implies (exists|a: int|
            0 <= a < out@.len() && out@[a].entry == cv[j].0) || (out@.len() == MAX_RESULTS
            && ranks_before(
            (score_of(cv, rv, out@[out@.len() - 1].entry), out@[out@.len() - 1].entry),
            ((rv[j]->0).0, cv[j].0),
        )) by {
            let m = choose|m: int| 0 <= m < sorted@.len() && (#[trigger] sorted@[m]).1 == cv[j].0;
            lemma_cand_of(cv, j);
            if m < n {
                assert(out@[m].entry == cv[j].0);
            } else {
                let last = n - 1;
                assert(sv[last] == scored_view(sorted@[last]));
                assert(sv[m] == scored_view(sorted@[m]));
                assert(cand_of(cv, sorted@[m].1) == j);
                assert(hit_from(cv, rv, cand_of(cv, sorted@[m].1), scored_view(sorted@[m])));
                assert(hit_from(cv, rv, cand_of(cv, sorted@[last].1), scored_view(sorted@[last])));
                assert(out@[last].entry == sorted@[last].1);
                assert(ranks_before(key(sv[last]), key(sv[m])));
            }
        }
    }
    out
}

// ---------------------------------------------------------------------------------------------
// The finder
// ---------------------------------------------------------------------------------------------
/// The indices of the entries that are files, among the first `n`.
pub open spec fn file_positions(entries: Seq<Entry>, n: int) -> Seq<usize>
    decreases n,
{
    if n <= 0 {
        seq![]
    } else if entries[n - 1].is_dir {
        file_positions(entries, n - 1)
    } else {
        file_positions(entries, n - 1).push((n - 1) as usize)
    }
}

pub open spec fn cand_entries(c: Seq<(usize, String)>) -> Seq<usize> {
    c.map_values(|p: (usize, String)| p.0)
}

proof fn lemma_file_positions(entries: Seq<Entry>, n: int)
    requires
        0 <= n <= entries.len(),
        entries.len() <= usize::MAX,
    ensures
        forall|k: int| 0 <= k < file_positions(entries, n).len() ==> (#[trigger] file_positions(entries, n)[k]) < n
            && !entries[file_positions(entries, n)[k] as int].is_dir,
        forall|a: int, b: int|
            0 <= a < b < file_positions(entries, n).len() ==> file_positions(entries, n)[a] < file_positions(entries, n)[b],
    decreases n,
{
    if n > 0 {
        lemma_file_positions(entries, n - 1);
        let p = file_positions(entries, n - 1);
        if !entries[n - 1].is_dir {
            let q = p.push((n - 1) as usize);
            assert(file_positions(entries, n) == q);
            assert forall|k: int| 0 <= k < q.len() implies (#[trigger] q[k]) < n && !entries[q[k] as int].is_dir by {
                if k < p.len() {
                    assert(q[k] == p[k]);
                }
            }
            assert forall|a: int, b: int| 0 <= a < b < q.len() implies q[a] < q[b] by {
                assert(q[a] == p[a]);
                if b < p.len() {
                    assert(q[b] == p[b]);
                }
            }
        }
    }
}

/// `label` is the label of entry `i`: its path as shown (with `/` or the platform's
/// separator between components) and its title.
pub open spec fn entry_label(entries: Seq<Entry>, i: int, label: Seq<char>) -> bool {
    exists|sep: char|
        (sep == '/' || sep == '\\') && label == #[trigger] label_spec(
            slashes_spec(lossy_text_of(held_path(&entries[i].path)), sep),
            opt_view(entries[i].title),
        )
}

/// Each file of the project with its label, in the project's order.
pub fn candidates(project: &Project) -> (r: Vec<(usize, String)>)
    ensures
        cand_entries(r@) == file_positions(project.entries@, project.entries@.len() as int),
        increasing_entries(r@),
        forall|k: int|
            0 <= k < r@.len() ==> entry_label(project.entries@, (#[trigger] r@[k]).0 as int, r@[k].1@),
{
    let entries = &project.entries;
    let mut out: Vec<(usize, String)> = Vec::new();
    let mut i: usize = 0;
    while i < entries.len()
        invariant
            i <= entries.len(),
            entries@ == project.entries@,
            cand_entries(out@) == file_positions(entries@, i as int),
            forall|k: int|
                0 <= k < out@.len() ==> entry_label(entries@, (#[trigger] out@[k]).0 as int, out@[k].1@),
        decreases entries.len() - i,
    {
        let e = &entries[i];
        if !e.is_dir {
            let d = display_path(e.path.as_path());
            let l = match &e.title {
                Some(t) => label(d.as_str(), Some(t.as_str())),
                None => label(d.as_str(), None),
            };
            let ghost before = out@;
            out.push((i, l));
            assert(cand_entries(out@) =~= cand_entries(before).push(i));
            assert(out@[out@.len() - 1].1@ == label_spec(d@, opt_view(entries@[i as int].title)));
            assert forall|k: int| 0 <= k < out@.len() implies entry_label(entries@, (#[trigger] out@[k]).0 as int, out@[k].1@) by {
                if k < before.len() {
                    assert(out@[k] == before[k]);
                } else {
                    let sep = choose|sep: char| (sep == '/' || sep == '\\') && d@ == #[trigger] slashes_spec(lossy_text_of(held_path(&e.path)), sep);
                    assert(out@[k].0 == i);
                }
            }
        }
        i = i + 1;
    }
    proof {
        lemma_file_positions(entries@, entries@.len() as int);
        assert forall|a: int, b: int| 0 <= a < b < out@.len() implies out@[a].0 < out@[b].0 by {
            assert(cand_entries(out@)[a] == out@[a].0);
            assert(cand_entries(out@)[b] == out@[b].0);
        }
    }
    out
}

/// The first `MAX_RESULTS` candidates, in order, with nothing marked.
pub fn first_hits(cands: &Vec<(usize, String)>) -> (r: Vec<Hit>)
    ensures
        r@.len() == if cands@.len() < MAX_RESULTS {
            cands@.len()
        } else {
            MAX_RESULTS as nat
        },
        forall|a: int|
            0 <= a < r@.len() ==> (#[trigger] r@[a]).entry == cands@[a].0 && r@[a].label@ == cands@[a].1@
                && r@[a].indices@.len() == 0,
{
    let n = if cands.len() < MAX_RESULTS {
        cands.len()
    } else {
        MAX_RESULTS
    };
    let mut out: Vec<Hit> = Vec::new();
    let mut k: usize = 0;
    while k < n
        invariant
            k <= n <= cands.len(),
            out@.len() == k,
            forall|a: int|
                0 <= a < k ==> (#[trigger] out@[a]).entry == cands@[a].0 && out@[a].label@ == cands@[a].1@
                    && out@[a].indices@.len() == 0,
        decreases n - k,
    {
        out.push(Hit { entry: cands[k].0, label: cands[k].1.clone(), indices: Vec::new() });
        k = k + 1;
    }
    out
}

/// What `nucleo-matcher` answers for `query` against `label` with a matcher set up for paths:
/// the score and the matched character positions, or nothing when the label does not match.
pub uninterp spec fn fuzzy_match(query: Seq<char>, label: Seq<char>) -> Option<(u32, Seq<u32>)>;

/// `Pattern::parse(query, CaseMatching::Smart, Normalization::Smart).indices(..)` on `label`,
/// with a `Matcher` made here by `Matcher::new` on the default configuration tuned for paths
/// (`Config::set_match_paths`). The contract names the answer.
#[verifier::external_body]
fn fuzzy_indices(query: &str, label: &str) -> (r: Option<(u32, Vec<u32>)>)
    ensures
        match r {
            Some(m) => fuzzy_match(query@, label@) == Some((m.0, m.1@)),
            None => fuzzy_match(query@, label@) is None,
        },
{
    let mut config = Config::DEFAULT;
    config.set_match_paths();
    let mut matcher = Matcher::new(config);
    let pattern = Pattern::parse(query, CaseMatching::Smart, Normalization::Smart);
    let haystack = Utf32String::from(label);
    let mut indices = Vec::new();
    pattern.indices(haystack.slice(..), &mut matcher, &mut indices).map(|score| (score, indices))
}

/// Each candidate's label matched against the query.
fn score_all(query: &String, cands: &Vec<(usize, String)>) -> (r: Vec<Option<(u32, Vec<u32>)>>)
    ensures
        r@.len() == cands@.len(),
        forall|j: int|
            0 <= j < cands@.len() ==> match #[trigger] r@[j] {
                Some(m) => fuzzy_match(query@, cands@[j].1@) == Some((m.0, m.1@)),
                None => fuzzy_match(query@, cands@[j].1@) is None,
            },
{
    let mut results: Vec<Option<(u32, Vec<u32>)>> = Vec::new();
    let mut k: usize = 0;
    while k < cands.len()
        invariant
            k <= cands.len(),
            results@.len() == k,
            forall|j: int|
                0 <= j < k ==> match #[trigger] results@[j] {
                    Some(m) => fuzzy_match(query@, cands@[j].1@) == Some((m.0, m.1@)),
                    None => fuzzy_match(query@, cands@[j].1@) is None,
                },
        decreases cands.len() - k,
    {
        let m = fuzzy_indices(query.as_str(), cands[k].1.as_str());
        results.push(m);
        k = k + 1;
    }
    results
}

/// The finder: its query, the files it lists, and the one selected.
pub struct Finder {
    pub query: String,
    pub hits: Vec<Hit>,
    pub selected: usize,
}

/// The hit's label matches the query, and its marked positions are the match's.
pub open spec fn matched_hit(query: Seq<char>, h: Hit) -> bool {
    &&& fuzzy_match(query, h.label@) is Some
    &&& sorted_set_of(h.indices@, (fuzzy_match(query, h.label@)->0).1)
}

/// Every candidate whose label matches `query` is among the hits, or the hits are full and
/// it ranks after the last of them.
pub open spec fn listed_all(query: Seq<char>, cs: Seq<(usize, String)>, hits: Seq<Hit>) -> bool {
    forall|j: int|
        0 <= j < cs.len() && #[trigger] fuzzy_match(query, cs[j].1@) is Some ==> (exists|a: int|
            0 <= a < hits.len() && hits[a].entry == cs[j].0) || (hits.len() == MAX_RESULTS
            && ranks_before(
            ((fuzzy_match(query, hits[hits.len() - 1].label@)->0).0, hits[hits.len() - 1].entry),
            ((fuzzy_match(query, cs[j].1@)->0).0, cs[j].0),
        ))
}

pub open spec fn clamp_selected(selected: usize, n: nat) -> usize {
    let last: int = if n > 0 {
        n - 1
    } else {
        0
    };
    if selected <= last {
        selected
    } else {
        last as usize
    }
}

impl Finder {
    /// An empty finder.
    pub fn new() -> (f: Finder)
        ensures
            f.query@.len() == 0,
            f.hits@.len() == 0,
            f.selected == 0,
    {
        Finder { query: String::new(), hits: Vec::new(), selected: 0 }
    }

    /// The finder opened on `project`: no query, the first entry selected, the files listed.
    pub fn open(&mut self, project: &Project)
        ensures
            final(self).query@.len() == 0,
            final(self).selected == 0,
            final(self).hits@.len() == if file_positions(
                project.entries@,
                project.entries@.len() as int,
            ).len() < MAX_RESULTS {
                file_positions(project.entries@, project.entries@.len() as int).len()
            } else {
                MAX_RESULTS as nat
            },
            forall|a: int|
                0 <= a < final(self).hits@.len() ==> (#[trigger] final(self).hits@[a]).entry == file_positions(
                    project.entries@,
                    project.entries@.len() as int,
                )[a] && final(self).hits@[a].indices@.len() == 0,
    {
        self.query = String::new();
        self.selected = 0;
        self.search(project);
    }

    /// The hits for the query: with a blank query the first files in order, else the files
    /// whose label matches, best first (see `hits_of`); the selection moves back onto the
    /// last hit when it was past it.
    pub fn search(&mut self, project: &Project)
        ensures
            final(self).query == old(self).query,
            final(self).hits@.len() <= MAX_RESULTS,
            final(self).selected == clamp_selected(old(self).selected, final(self).hits@.len()),
            trim(old(self).query@).len() == 0 ==> final(self).hits@.len() == if file_positions(
                project.entries@,
                project.entries@.len() as int,
            ).len() < MAX_RESULTS {
                file_positions(project.entries@, project.entries@.len() as int).len()
            } else {
                MAX_RESULTS as nat
            },
            trim(old(self).query@).len() == 0 ==> forall|a: int|
                0 <= a < final(self).hits@.len() ==> (#[trigger] final(self).hits@[a]).entry == file_positions(
                    project.entries@,
                    project.entries@.len() as int,
                )[a] && final(self).hits@[a].indices@.len() == 0,
            trim(old(self).query@).len() > 0 ==> forall|a: int|
                0 <= a < final(self).hits@.len() ==> matched_hit(old(self).query@, #[trigger] final(self).hits@[a]),
            trim(old(self).query@).len() > 0 ==> forall|a: int, b: int|
                0 <= a < b < final(self).hits@.len() ==> ranks_before(
                    (
                        (fuzzy_match(old(self).query@, final(self).hits@[a].label@)->0).0,
                        final(self).hits@[a].entry,
                    ),
                    (
                        (fuzzy_match(old(self).query@, final(self).hits@[b].label@)->0).0,
                        final(self).hits@[b].entry,
                    ),
                ),
            trim(old(self).query@).len() > 0 ==> exists|cs: Seq<(usize, String)>|
                #[trigger] cand_entries(cs) == file_positions(
                    project.entries@,
                    project.entries@.len() as int,
                ) && (forall|k: int|
                    0 <= k < cs.len() ==> entry_label(project.entries@, (#[trigger] cs[k]).0 as int, cs[k].1@))
                    && listed_all(old(self).query@, cs, final(self).hits@),
            forall|a: int|
                0 <= a < final(self).hits@.len() ==> entry_label(
                    project.entries@,
                    (#[trigger] final(self).hits@[a]).entry as int,
                    final(self).hits@[a].label@,
                ),
    {
        let cands = candidates(project);
        let q = chars_of(self.query.as_str());
        let t = trimmed(&q);
        let hits = if t.len() == 0 {
            first_hits(&cands)
        } else {
            let results = score_all(&self.query, &cands);
            let ghost rv = results@;
            let h = hits_of(&cands, results);
            proof {
                let q = self.query@;
                let cs = cands@;
                if h@.len() > 0 {
                    let l = h@.len() - 1;
                    let c = cand_of(cs, h@[l].entry);
                    assert(hit_from(
                        cs,
                        rv,
                        c,
                        (score_of(cs, rv, h@[l].entry), h@[l].entry, h@[l].label@, h@[l].indices@),
                    ));
                    assert(rv[c] is Some);
                }
                assert forall|j: int|
                    0 <= j < cs.len() && fuzzy_match(q, cs[j].1@) is Some implies (exists|a: int|
                        0 <= a < h@.len() && h@[a].entry == cs[j].0) || (h@.len() == MAX_RESULTS
                        && ranks_before(
                        ((fuzzy_match(q, h@[h@.len() - 1].label@)->0).0, h@[h@.len() - 1].entry),
                        ((fuzzy_match(q, cs[j].1@)->0).0, cs[j].0),
                    )) by {
                    assert(rv[j] is Some);
                }
                assert(listed_all(q, cs, h@));
            }
            proof {
                assert forall|a: int| 0 <= a < h@.len() implies matched_hit(self.query@, #[trigger] h@[a])
                    && (fuzzy_match(self.query@, h@[a].label@)->0).0 == score_of(cands@, rv, h@[a].entry) by {
                    let c = cand_of(cands@, h@[a].entry);
                    assert(hit_from(
                        cands@,
                        rv,
                        c,
                        (score_of(cands@, rv, h@[a].entry), h@[a].entry, h@[a].label@, h@[a].indices@),
                    ));
                    assert(rv[c] is Some);
                }
            }
            h
        };
        self.hits = hits;
        let n = self.hits.len();
        let last = if n > 0 {
            n - 1
        } else {
            0
        };
        if self.selected > last {
            self.selected = last;
        }
    }

    /// The selection moved by `delta` hits, kept on the list.
    pub fn step(&mut self, delta: isize)
        ensures
            final(self).query == old(self).query,
            final(self).hits == old(self).hits,
            old(self).hits@.len() == 0 ==> final(self).selected == old(self).selected,
            old(self).hits@.len() > 0 ==> final(self).selected == ({
                let moved = old(self).selected + delta;
                let s: int = if moved < 0 {
                    0
                } else if moved > usize::MAX {
                    usize::MAX as int
                } else {
                    moved
                };
                if s <= old(self).hits@.len() - 1 {
                    s
                } else {
                    old(self).hits@.len() - 1
                }
            }),
    {
        if self.hits.len() == 0 {
            return;
        }
        let last = self.hits.len() - 1;
        let moved: usize = if delta >= 0 {
            self.selected.saturating_add(delta as usize)
        } else {
            let back: usize = ((-(delta + 1)) as usize) + 1;
            self.selected.saturating_sub(back)
        };
        self.selected = if moved <= last {
            moved
        } else {
            last
        };
    }

    /// The entry of the selected hit, if any.
    pub fn chosen(&self) -> (r: Option<usize>)
        ensures
            r == if self.selected < self.hits@.len() {
                Some(self.hits@[self.selected as int].entry)
            } else {
                None::<usize>
            },
    {
        if self.selected < self.hits.len() {
            Some(self.hits[self.selected].entry)
        } else {
            None
        }
    }
}

} // verus!
