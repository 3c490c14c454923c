//! The project's file tree as a listing: at each level folders before files, each in name
//! order (lowercase first, then as written), and each folder listed just before what it holds.
use std::path::PathBuf;
use vstd::prelude::*;

use crate::project::scan::Entry;
use crate::text::{chars_of, lower_seq, lemma_text_lt_total, lemma_text_lt_trans, text_less, text_lt};

verus! {

/// What `str::to_lowercase` gives for `s`: std's Unicode lowercase mapping of the string.
pub uninterp spec fn unicode_str_lowercase(s: Seq<char>) -> Seq<char>;

/// `str::to_lowercase`. Its characters come from std's Unicode tables; the contract names them,
/// and states the documented ASCII case: ASCII text has `A`–`Z` turned to `a`–`z`, the rest
/// kept.
#[verifier::external_body]
fn str_lowercase(s: &str) -> (r: String)
    ensures
        r@ == unicode_str_lowercase(s@),
        (forall|i: int| 0 <= i < s@.len() ==> (#[trigger] s@[i] as u32) < 128) ==> r@ == lower_seq(s@),
{
    s.to_lowercase()
}

/// `PathBuf::from_iter` over the names: the folder path they spell. Nothing is claimed of it.
#[verifier::external_body]
fn folder_path(names: &Vec<String>) -> PathBuf {
    names.iter().collect()
}

/// The first `n` names.
fn first_names(names: &Vec<String>, n: usize) -> (r: Vec<String>)
    requires
        n <= names@.len(),
    ensures
        r@.len() == n,
        forall|i: int| 0 <= i < n ==> (#[trigger] r@[i])@ == names@[i]@,
{
    let mut out: Vec<String> = Vec::new();
    let mut i: usize = 0;
    while i < n
        invariant
            i <= n <= names@.len(),
            out@.len() == i,
            forall|j: int| 0 <= j < i ==> (#[trigger] out@[j])@ == names@[j]@,
        decreases n - i,
    {
        out.push(names[i].clone());
        i = i + 1;
    }
    out
}

/// `a` sorts before `b`: by lowercase first, then as written.
pub open spec fn name_lt(a: Seq<char>, b: Seq<char>) -> bool {
    let la = unicode_str_lowercase(a);
    let lb = unicode_str_lowercase(b);
    text_lt(la, lb) || (la == lb && text_lt(a, b))
}

proof fn lemma_name_lt(a: Seq<char>, b: Seq<char>, c: Seq<char>)
    ensures
        !name_lt(a, a),
        !(name_lt(a, b) && name_lt(b, a)),
        a == b || name_lt(a, b) || name_lt(b, a),
        name_lt(a, b) && name_lt(b, c) ==> name_lt(a, c),
{
    let (la, lb, lc) = (unicode_str_lowercase(a), unicode_str_lowercase(b), unicode_str_lowercase(c));
    lemma_text_lt_total(la, lb);
    lemma_text_lt_total(a, b);
    lemma_text_lt_total(lb, lc);
    lemma_text_lt_total(la, lc);
    if text_lt(la, lb) && text_lt(lb, lc) {
        lemma_text_lt_trans(la, lb, lc);
    }
    if text_lt(a, b) && text_lt(b, c) {
        lemma_text_lt_trans(a, b, c);
    }
}

/// File `p` comes before file `q` in the listing: where their paths part, a folder comes
/// before a file, and otherwise the names decide.
pub open spec fn tree_before(p: Seq<Seq<char>>, q: Seq<Seq<char>>) -> bool
    decreases p.len(),
{
    if p.len() == 0 || q.len() == 0 {
        false
    } else {
        let pd = p.len() > 1;
        let qd = q.len() > 1;
        if pd != qd {
            pd
        } else if name_lt(p[0], q[0]) {
            true
        } else if name_lt(q[0], p[0]) {
            false
        } else if pd && p[0] == q[0] {
            tree_before(p.drop_first(), q.drop_first())
        } else {
            false
        }
    }
}

proof fn lemma_tree_before(p: Seq<Seq<char>>, q: Seq<Seq<char>>)
    requires
        p.len() > 0,
        q.len() > 0,
    ensures
        !tree_before(p, p),
        !(tree_before(p, q) && tree_before(q, p)),
        p == q || tree_before(p, q) || tree_before(q, p),
    decreases p.len(),
{
    lemma_name_lt(p[0], q[0], p[0]);
    lemma_name_lt(p[0], p[0], p[0]);
    if p.len() > 1 && q.len() > 1 {
        lemma_tree_before(p.drop_first(), q.drop_first());
        lemma_tree_before(p.drop_first(), p.drop_first());
        if p[0] == q[0] && p.drop_first() == q.drop_first() {
            assert(p =~= seq![p[0]] + p.drop_first());
            assert(q =~= seq![q[0]] + q.drop_first());
        }
    } else if p.len() == 1 && q.len() == 1 {
        if p[0] == q[0] {
            assert(p =~= q);
        }
    }
    if p.len() > 1 {
        lemma_tree_before(p.drop_first(), p.drop_first());
    }
}

proof fn lemma_tree_trans(p: Seq<Seq<char>>, q: Seq<Seq<char>>, r: Seq<Seq<char>>)
    requires
        tree_before(p, q),
        tree_before(q, r),
    ensures
        tree_before(p, r),
    decreases p.len(),
{
    lemma_name_lt(p[0], q[0], r[0]);
    lemma_name_lt(q[0], r[0], p[0]);
    lemma_name_lt(r[0], p[0], q[0]);
    lemma_name_lt(p[0], r[0], q[0]);
    if p.len() > 1 && q.len() > 1 && r.len() > 1 && p[0] == q[0] && q[0] == r[0] {
        lemma_tree_trans(p.drop_first(), q.drop_first(), r.drop_first());
    }
}

// ---------------------------------------------------------------------------------------------
// The listing
// ---------------------------------------------------------------------------------------------
/// A file: the names along its path, and the path itself.
pub open spec fn file_view(f: (Vec<String>, PathBuf)) -> (Seq<Seq<char>>, PathBuf) {
    (f.0@.map_values(|s: String| s@), f.1)
}

pub open spec fn files_view(fs: Seq<(Vec<String>, PathBuf)>) -> Seq<(Seq<Seq<char>>, PathBuf)> {
    fs.map_values(|f: (Vec<String>, PathBuf)| file_view(f))
}

/// Each file before the next in the listing, each with a name.
pub open spec fn tree_sorted(s: Seq<(Seq<Seq<char>>, PathBuf)>) -> bool {
    &&& forall|i: int| 0 <= i < s.len() ==> (#[trigger] s[i]).0.len() > 0
    &&& forall|i: int, j: int| 0 <= i < j < s.len() ==> tree_before(#[trigger] s[i].0, #[trigger] s[j].0)
}

/// The path that the last of the first `n` files with the names `names` carries.
pub open spec fn last_path(files: Seq<(Seq<Seq<char>>, PathBuf)>, names: Seq<Seq<char>>, n: int) -> Option<PathBuf>
    decreases n,
{
    if n <= 0 {
        None
    } else if files[n - 1].0 == names && names.len() > 0 {
        Some(files[n - 1].1)
    } else {
        last_path(files, names, n - 1)
    }
}

/// `s` holds each file of the first `n` (a file without names holds nothing), once, with the
/// path its last occurrence carries.
pub open spec fn holds_files(s: Seq<(Seq<Seq<char>>, PathBuf)>, files: Seq<(Seq<Seq<char>>, PathBuf)>, n: int) -> bool {
    &&& forall|i: int| 0 <= i < s.len() ==> last_path(files, (#[trigger] s[i]).0, n) == Some(s[i].1)
    &&& forall|j: int|
        0 <= j < n && (#[trigger] files[j]).0.len() > 0 ==> exists|i: int| 0 <= i < s.len() && s[i].0 == files[j].0
}

/// An entry of the listing: name, depth, whether a folder, and a file's path.
pub open spec fn entry_view(e: Entry) -> (Seq<char>, usize, bool, Option<PathBuf>) {
    (e.name@, e.depth, e.is_dir, if e.is_dir { None } else { Some(e.path) })
}

pub open spec fn entries_view(es: Seq<Entry>) -> Seq<(Seq<char>, usize, bool, Option<PathBuf>)> {
    es.map_values(|e: Entry| entry_view(e))
}

/// The file before shares the folder at level `i` of `cur`.
pub open spec fn shares_folder(prev: Option<Seq<Seq<char>>>, cur: Seq<Seq<char>>, i: int) -> bool {
    prev matches Some(p) && p.len() - 1 > i && p.take(i + 1) == cur.take(i + 1)
}

/// The folder entries a file brings from level `i` on: those it does not share with the file
/// before.
pub open spec fn folders_for(prev: Option<Seq<Seq<char>>>, cur: Seq<Seq<char>>, i: int) -> Seq<(Seq<char>, usize, bool, Option<PathBuf>)>
    decreases cur.len() - i,
{
    if i < 0 || i >= cur.len() - 1 {
        seq![]
    } else {
        let here: Seq<(Seq<char>, usize, bool, Option<PathBuf>)> = if shares_folder(prev, cur, i) {
            seq![]
        } else {
            seq![(cur[i], (i + 1) as usize, true, None::<PathBuf>)]
        };
        here + folders_for(prev, cur, i + 1)
    }
}

/// The listing of the sorted files: for each, the folders it opens, then the file.
pub open spec fn emit(s: Seq<(Seq<Seq<char>>, PathBuf)>) -> Seq<(Seq<char>, usize, bool, Option<PathBuf>)>
    decreases s.len(),
{
    if s.len() == 0 {
        seq![]
    } else {
        let prev = if s.len() > 1 {
            Some(s[s.len() - 2].0)
        } else {
            None
        };
        let cur = s.last();
        emit(s.drop_last()) + folders_for(prev, cur.0, 0) + seq![
            (cur.0.last(), cur.0.len() as usize, false, Some(cur.1)),
        ]
    }
}

/// A file with its names as characters and lowercase characters.
struct FileKey {
    names: Vec<String>,
    chars: Vec<Vec<char>>,
    lowers: Vec<Vec<char>>,
    path: PathBuf,
}

impl FileKey {
    spec fn wf(&self) -> bool {
        &&& self.chars@.len() == self.names@.len()
        &&& self.lowers@.len() == self.names@.len()
        &&& forall|i: int| 0 <= i < self.names@.len() ==> (#[trigger] self.chars@[i])@ == self.names@[i]@
        &&& forall|i: int|
            0 <= i < self.names@.len() ==> (#[trigger] self.lowers@[i])@ == unicode_str_lowercase(self.names@[i]@)
    }

    spec fn names_view(&self) -> Seq<Seq<char>> {
        self.names@.map_values(|s: String| s@)
    }

    spec fn view_file(&self) -> (Seq<Seq<char>>, PathBuf) {
        (self.names_view(), self.path)
    }
}

fn make_key(names: &Vec<String>, path: &PathBuf) -> (k: FileKey)
    ensures
        k.wf(),
        k.names_view() == names@.map_values(|s: String| s@),
        k.path == *path,
{
    let mut own: Vec<String> = Vec::new();
    let mut chars: Vec<Vec<char>> = Vec::new();
    let mut lowers: Vec<Vec<char>> = Vec::new();
    let mut i: usize = 0;
    while i < names.len()
        invariant
            i <= names.len(),
            own@.len() == i,
            chars@.len() == i,
            lowers@.len() == i,
            forall|j: int| 0 <= j < i ==> (#[trigger] own@[j])@ == names@[j]@,
            forall|j: int| 0 <= j < i ==> (#[trigger] chars@[j])@ == names@[j]@,
            forall|j: int| 0 <= j < i ==> (#[trigger] lowers@[j])@ == unicode_str_lowercase(names@[j]@),
        decreases names.len() - i,
    {
        own.push(names[i].clone());
        chars.push(chars_of(names[i].as_str()));
        let l = str_lowercase(names[i].as_str());
        lowers.push(chars_of(l.as_str()));
        i = i + 1;
    }
    let k = FileKey { names: own, chars, lowers, path: path.clone() };
    assert(k.names_view() =~= names@.map_values(|s: String| s@));
    k
}

fn name_less(a: &FileKey, b: &FileKey, i: usize) -> (r: bool)
    requires
        a.wf(),
        b.wf(),
        i < a.names@.len(),
        i < b.names@.len(),
    ensures
        r == name_lt(a.names@[i as int]@, b.names@[i as int]@),
{
    let la = &a.lowers[i];
    let lb = &b.lowers[i];
    if text_less(la, lb) {
        return true;
    }
    crate::text::chars_eq(la, lb) && text_less(&a.chars[i], &b.chars[i])
}

/// Whether file `p` comes before file `q` in the listing.
fn before(p: &FileKey, q: &FileKey) -> (r: bool)
    requires
        p.wf(),
        q.wf(),
    ensures
        r == tree_before(p.names_view(), q.names_view()),
{
    let ghost pv = p.names_view();
    let ghost qv = q.names_view();
    let mut i: usize = 0;
    assert(pv.skip(0) =~= pv && qv.skip(0) =~= qv);
    while i < p.names.len() && i < q.names.len()
        invariant
            p.wf(),
            q.wf(),
            pv == p.names_view(),
            qv == q.names_view(),
            i <= p.names@.len(),
            i <= q.names@.len(),
            tree_before(pv, qv) == tree_before(pv.skip(i as int), qv.skip(i as int)),
        decreases p.names.len() - i,
    {
        let ghost ps = pv.skip(i as int);
        let ghost qs = qv.skip(i as int);
        assert(ps[0] == p.names@[i as int]@);
        assert(qs[0] == q.names@[i as int]@);
        let pd = p.names.len() - i > 1;
        let qd = q.names.len() - i > 1;
        if pd != qd {
            return pd;
        }
        if name_less(p, q, i) {
            return true;
        }
        if name_less(q, p, i) {
            return false;
        }
        if pd && crate::text::chars_eq(&p.chars[i], &q.chars[i]) {
            assert(ps.drop_first() =~= pv.skip(i + 1));
            assert(qs.drop_first() =~= qv.skip(i + 1));
            i = i + 1;
        } else {
            return false;
        }
    }
    false
}

spec fn keys_view(v: Seq<FileKey>) -> Seq<(Seq<Seq<char>>, PathBuf)> {
    v.map_values(|k: FileKey| k.view_file())
}

spec fn all_wf(v: Seq<FileKey>) -> bool {
    forall|i: int| 0 <= i < v.len() ==> (#[trigger] v[i]).wf()
}

proof fn lemma_sorted_insert(s: Seq<(Seq<Seq<char>>, PathBuf)>, k: int, x: (Seq<Seq<char>>, PathBuf))
    requires
        tree_sorted(s),
        x.0.len() > 0,
        0 <= k <= s.len(),
        forall|j: int| 0 <= j < k ==> tree_before(s[j].0, x.0),
        k < s.len() ==> tree_before(x.0, s[k].0),
    ensures
        tree_sorted(s.insert(k, x)),
{
    let t = s.insert(k, x);
    assert forall|a: int| 0 <= a < t.len() implies (#[trigger] t[a]).0.len() > 0 by {
        if a < k {
            assert(t[a] == s[a]);
        } else if a > k {
            assert(t[a] == s[a - 1]);
        }
    }
    assert forall|a: int, b: int| 0 <= a < b < t.len() implies tree_before(#[trigger] t[a].0, #[trigger] t[b].0) by {
        if b < k {
            assert(t[a] == s[a] && t[b] == s[b]);
        } else if b == k {
            assert(t[a] == s[a]);
        } else if a < k {
            assert(t[a] == s[a] && t[b] == s[b - 1]);
            if b - 1 > k {
                assert(tree_before(s[k].0, s[b - 1].0));
                lemma_tree_trans(x.0, s[k].0, s[b - 1].0);
            }
            lemma_tree_trans(s[a].0, x.0, s[b - 1].0);
        } else if a == k {
            assert(t[b] == s[b - 1]);
            if b - 1 > k {
                assert(tree_before(s[k].0, s[b - 1].0));
                lemma_tree_trans(x.0, s[k].0, s[b - 1].0);
            }
        } else {
            assert(t[a] == s[a - 1] && t[b] == s[b - 1]);
        }
    }
}

fn names_eq(a: &FileKey, b: &FileKey, n: usize) -> (r: bool)
    requires
        a.wf(),
        b.wf(),
        n <= a.names@.len(),
        n <= b.names@.len(),
    ensures
        r == (a.names_view().take(n as int) == b.names_view().take(n as int)),
{
    let mut i: usize = 0;
    while i < n
        invariant
            a.wf(),
            b.wf(),
            i <= n <= a.names@.len(),
            n <= b.names@.len(),
            forall|j: int| 0 <= j < i ==> a.names@[j]@ == b.names@[j]@,
        decreases n - i,
    {
        if !crate::text::chars_eq(&a.chars[i], &b.chars[i]) {
            assert(a.names_view().take(n as int)[i as int] != b.names_view().take(n as int)[i as int]);
            return false;
        }
        i = i + 1;
    }
    assert(a.names_view().take(n as int) =~= b.names_view().take(n as int));
    true
}

/// The named files, sorted into listing order, each once with the path its last occurrence
/// carries.
fn sort_files(files: &Vec<(Vec<String>, PathBuf)>) -> (r: Vec<FileKey>)
    ensures
        all_wf(r@),
        tree_sorted(keys_view(r@)),
        holds_files(keys_view(r@), files_view(files@), files@.len() as int),
{
    let ghost fv = files_view(files@);
    let mut sorted: Vec<FileKey> = Vec::new();
    let mut i: usize = 0;
    while i < files.len()
        invariant
            i <= files.len(),
            fv == files_view(files@),
            all_wf(sorted@),
            tree_sorted(keys_view(sorted@)),
            holds_files(keys_view(sorted@), fv, i as int),
        decreases files.len() - i,
    {
        let ghost sv = keys_view(sorted@);
        assert(fv[i as int] == file_view(files@[i as int]));
        if files[i].0.len() > 0 {
            let x = make_key(&files[i].0, &files[i].1);
            let ghost xv = x.view_file();
            assert(xv == fv[i as int]);
            let mut k: usize = 0;
            while k < sorted.len() && before(&sorted[k], &x)
                invariant
                    k <= sorted.len(),
                    all_wf(sorted@),
                    x.wf(),
                    xv == x.view_file(),
                    sv == keys_view(sorted@),
                    forall|j: int| 0 <= j < k ==> tree_before(sv[j].0, xv.0),
                decreases sorted.len() - k,
            {
                assert(sv[k as int] == sorted@[k as int].view_file());
                k = k + 1;
            }
            proof {
                if k < sorted.len() {
                    assert(sv[k as int] == sorted@[k as int].view_file());
                    lemma_tree_before(sv[k as int].0, xv.0);
                }
            }
            proof {
                if k < sorted.len() {
                    assert(sorted@[k as int].wf());
                }
            }
            let same = k < sorted.len() && sorted[k].names.len() == x.names.len() && names_eq(
                &sorted[k],
                &x,
                x.names.len(),
            );
            proof {
                if k < sorted.len() {
                    if sorted[k as int].names@.len() == x.names@.len() {
                        assert(sorted@[k as int].names_view().take(x.names@.len() as int) =~= sv[k as int].0);
                        assert(x.names_view().take(x.names@.len() as int) =~= xv.0);
                    }
                    if sv[k as int].0 == xv.0 {
                        assert(sorted@[k as int].names_view().len() == x.names_view().len());
                    }
                }
            }
            if same {
                assert(sv[k as int].0 == xv.0);
                let ghost before_sorted = sorted@;
                sorted.set(k, x);
                proof {
                    let nv = keys_view(sorted@);
                    assert(nv =~= sv.update(k as int, xv));
                    assert forall|a: int, b: int| 0 <= a < b < nv.len() implies tree_before(#[trigger] nv[a].0, #[trigger] nv[b].0) by {
                        assert(tree_before(sv[a].0, sv[b].0));
                    }
                    assert forall|a: int| 0 <= a < nv.len() implies last_path(fv, (#[trigger] nv[a]).0, i + 1) == Some(nv[a].1) by {
                        if a != k {
                            if a < k {
                                assert(tree_before(sv[a].0, sv[k as int].0));
                            } else {
                                assert(tree_before(sv[k as int].0, sv[a].0));
                            }
                            lemma_tree_before(sv[a].0, sv[a].0);
                        }
                    }
                    assert forall|j: int| 0 <= j < i + 1 && (#[trigger] fv[j]).0.len() > 0 implies exists|a: int|
                        0 <= a < nv.len() && nv[a].0 == fv[j].0 by {
                        if j < i {
                            let a = choose|a: int| 0 <= a < sv.len() && sv[a].0 == fv[j].0;
                            assert(nv[a].0 == sv[a].0);
                        } else {
                            assert(nv[k as int].0 == fv[j].0);
                        }
                    }
                    assert forall|a: int| 0 <= a < sorted@.len() implies (#[trigger] sorted@[a]).wf() by {
                        if a != k {
                            assert(sorted@[a] == before_sorted[a]);
                        }
                    }
                }
            } else {
                proof {
                    if k < sorted.len() {
                        assert(sv[k as int].0 != xv.0);
                    }
                    lemma_sorted_insert(sv, k as int, xv);
                }
                let ghost before_sorted = sorted@;
                sorted.insert(k, x);
                proof {
                    let nv = keys_view(sorted@);
                    assert(nv =~= sv.insert(k as int, xv));
                    assert forall|a: int| 0 <= a < nv.len() implies last_path(fv, (#[trigger] nv[a]).0, i + 1) == Some(nv[a].1) by {
                        if a < k {
                            assert(nv[a] == sv[a]);
                            assert(tree_before(sv[a].0, xv.0));
                            lemma_tree_before(sv[a].0, sv[a].0);
                        } else if a > k {
                            assert(nv[a] == sv[a - 1]);
                            if sv[a - 1].0 == xv.0 {
                                if a - 1 > k {
                                    assert(tree_before(sv[k as int].0, sv[a - 1].0));
                                }
                            }
                        }
                    }
                    assert forall|j: int| 0 <= j < i + 1 && (#[trigger] fv[j]).0.len() > 0 implies exists|a: int|
                        0 <= a < nv.len() && nv[a].0 == fv[j].0 by {
                        if j < i {
                            let a = choose|a: int| 0 <= a < sv.len() && sv[a].0 == fv[j].0;
                            if a < k {
                                assert(nv[a].0 == fv[j].0);
                            } else {
                                assert(nv[a + 1].0 == fv[j].0);
                            }
                        } else {
                            assert(nv[k as int].0 == fv[j].0);
                        }
                    }
                    assert forall|a: int| 0 <= a < sorted@.len() implies (#[trigger] sorted@[a]).wf() by {
                        if a < k {
                            assert(sorted@[a] == before_sorted[a]);
                        } else if a > k {
                            assert(sorted@[a] == before_sorted[a - 1]);
                        }
                    }
                }
            }
        } else {
            proof {
                assert forall|a: int| 0 <= a < sv.len() implies last_path(fv, (#[trigger] sv[a]).0, i + 1) == Some(sv[a].1) by {
                }
            }
        }
        i = i + 1;
    }
    sorted
}

pub open spec fn no_titles(es: Seq<Entry>) -> bool {
    forall|i: int| 0 <= i < es.len() ==> (#[trigger] es[i]).title is None
}

/// The listing of a folder's files, given each file's names along its path and its path:
/// at each level folders before files, each in name order (lowercase first, then as
/// written), each folder just before what it holds; folders at depth 1 and down, files at
/// the depth of their last name. A file listed twice is listed once, with its last path;
/// a file without names is not listed. Titles are left to be read.
pub fn listing(files: &Vec<(Vec<String>, PathBuf)>) -> (r: Vec<Entry>)
    ensures
        exists|s: Seq<(Seq<Seq<char>>, PathBuf)>|
            tree_sorted(s) && holds_files(s, files_view(files@), files@.len() as int) && entries_view(r@)
                == emit(s),
        no_titles(r@),
{
    let sorted = sort_files(files);
    let ghost sv = keys_view(sorted@);
    let mut out: Vec<Entry> = Vec::new();
    let mut k: usize = 0;
    while k < sorted.len()
        invariant
            k <= sorted.len(),
            all_wf(sorted@),
            sv == keys_view(sorted@),
            tree_sorted(sv),
            entries_view(out@) == emit(sv.take(k as int)),
            no_titles(out@),
        decreases sorted.len() - k,
    {
        let cur = &sorted[k];
        assert(cur.wf());
        assert(sv[k as int] == cur.view_file());
        let n = cur.names.len();
        let ghost curv = sv[k as int].0;
        let ghost prev: Option<Seq<Seq<char>>> = if k > 0 {
            Some(sv[k - 1].0)
        } else {
            None
        };
        let ghost base = entries_view(out@);
        let mut i: usize = 0;
        while i + 1 < n
            invariant
                n == cur.names@.len(),
                n > 0,
                cur.wf(),
                curv == cur.names_view(),
                k < sorted@.len(),
                cur == sorted@[k as int],
                all_wf(sorted@),
                sv == keys_view(sorted@),
                tree_sorted(sv),
                k > 0 ==> prev == Some(sv[k - 1].0),
                k == 0 ==> prev is None,
                i + 1 <= n,
                entries_view(out@) + folders_for(prev, curv, i as int) == base + folders_for(prev, curv, 0),
                no_titles(out@),
            decreases n - i,
        {
            let ghost rest = folders_for(prev, curv, i as int);
            let shared = if k > 0 {
                let p = &sorted[k - 1];
                assert(p.wf());
                assert(sv[k - 1] == p.view_file());
                assert(sv[k - 1].0.len() > 0);
                p.names.len() - 1 > i && names_eq(p, cur, i + 1)
            } else {
                false
            };
            proof {
                if k > 0 {
                    let p = sorted@[k - 1];
                    assert(p.names_view().len() == p.names@.len());
                }
            }
            let ghost before = out@;
            if !shared {
                let e = Entry {
                    path: folder_path(&first_names(&cur.names, i + 1)),
                    name: cur.names[i].clone(),
                    depth: i + 1,
                    is_dir: true,
                    title: None,
                };
                out.push(e);
                assert(entries_view(out@) =~= entries_view(before).push(entry_view(e)));
                assert(curv[i as int] == cur.names@[i as int]@);
            } else {
                assert(shares_folder(prev, curv, i as int));
            }
            assert(rest =~= (if shares_folder(prev, curv, i as int) {
                Seq::<(Seq<char>, usize, bool, Option<PathBuf>)>::empty()
            } else {
                seq![(curv[i as int], (i + 1) as usize, true, None::<PathBuf>)]
            }) + folders_for(prev, curv, i + 1));
            assert forall|j: int| 0 <= j < out@.len() implies (#[trigger] out@[j]).title is None by {
                if j < before.len() {
                    assert(out@[j] == before[j]);
                }
            }
            i = i + 1;
        }
        assert(folders_for(prev, curv, i as int) =~= Seq::<(Seq<char>, usize, bool, Option<PathBuf>)>::empty());
        let ghost mid = out@;
        let e = Entry {
            path: cur.path.clone(),
            name: cur.names[n - 1].clone(),
            depth: n,
            is_dir: false,
            title: None,
        };
        out.push(e);
        proof {
            assert(entries_view(out@) =~= entries_view(mid).push(entry_view(e)));
            assert(curv.last() == cur.names@[n - 1]@);
            let t = sv.take(k + 1);
            assert(t.drop_last() =~= sv.take(k as int));
            assert(t.last() == sv[k as int]);
            if k > 0 {
                assert(t[t.len() - 2] == sv[k - 1]);
            }
            assert(entries_view(out@) =~= emit(t));
            assert forall|j: int| 0 <= j < out@.len() implies (#[trigger] out@[j]).title is None by {
                if j < mid.len() {
                    assert(out@[j] == mid[j]);
                }
            }
        }
        k = k + 1;
    }
    assert(sv.take(sorted.len() as int) =~= sv);
    out
}

} // verus!
