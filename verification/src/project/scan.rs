//! A project: the Markdown files under a folder, as a tree of entries, and the title each
//! file's first heading gives it.
use std::path::{Path, PathBuf};
use vstd::prelude::*;

use crate::markdown::front_matter::{lines_of, text_lines};
use crate::render::badge::{lossy_string, utf8_lossy};
use crate::text::{
    chars_of, eq_lit, lower_seq, lower_vec, slice, string_of, trim, trim_end, trimmed,
    trimmed_end, views,
};

verus! {

#[verifier::external_type_specification]
#[verifier::external_body]
pub struct ExPath(Path);

#[verifier::external_type_specification]
#[verifier::external_body]
pub struct ExPathBuf(PathBuf);

/// A folder or Markdown file of a project, at its depth in the tree (the root is at depth 0).
#[derive(Debug, Clone, PartialEq, Eq)]
pub struct Entry {
    pub path: PathBuf,
    pub name: String,
    pub depth: usize,
    pub is_dir: bool,
    pub title: Option<String>,
}

/// A folder's Markdown files: the root, then folders before files at each level, each level
/// in name order.
#[derive(Debug, Default, Clone)]
pub struct Project {
    pub root: PathBuf,
    pub entries: Vec<Entry>,
}

// ---------------------------------------------------------------------------------------------
// Paths
// ---------------------------------------------------------------------------------------------
/// The extension `Path::extension` finds in a path, when it is valid Unicode.
pub uninterp spec fn extension_of(path: &Path) -> Option<Seq<char>>;

/// `Path::extension`, when it is valid Unicode: what it is is named, not stated (the crate's
/// rule for the last component's text after its last dot).
#[verifier::external_body]
fn path_extension(path: &Path) -> (r: Option<String>)
    ensures
        match r {
            Some(e) => extension_of(path) == Some(e@),
            None => extension_of(path) is None,
        },
{
    match path.extension() {
        Some(e) => match e.to_str() {
            Some(s) => Some(s.to_string()),
            None => None,
        },
        None => None,
    }
}

/// The text `Path::to_string_lossy` gives for a path.
pub uninterp spec fn lossy_text_of(path: &Path) -> Seq<char>;

/// `Path::to_string_lossy`: the path's text, what cannot be read as Unicode replaced; named,
/// not stated.
#[verifier::external_body]
fn path_text(path: &Path) -> (r: String)
    ensures
        r@ == lossy_text_of(path),
{
    path.to_string_lossy().into_owned()
}

/// `std::path::MAIN_SEPARATOR`, which depends on the platform: `\\` on Windows, `/` elsewhere.
#[verifier::external_body]
fn main_separator() -> (r: char)
    ensures
        r == '/' || r == '\\',
{
    std::path::MAIN_SEPARATOR
}

/// `PathBuf::clone`: an equal path.
pub assume_specification[ <PathBuf as Clone>::clone ](path: &PathBuf) -> (r: PathBuf)
    ensures
        r == *path,
;

/// The path a `PathBuf` holds.
pub uninterp spec fn held_path(path: &PathBuf) -> &Path;

/// `PathBuf::as_path`: the path the buffer holds, named.
pub assume_specification[ PathBuf::as_path ](path: &PathBuf) -> (r: &Path)
    ensures
        r == held_path(path),
;

/// Whether `PathBuf == Path` holds of the two paths.
pub uninterp spec fn paths_equal(a: PathBuf, b: &Path) -> bool;

/// `PathBuf == Path`, which compares paths component by component; the answer is named, not
/// stated.
#[verifier::external_body]
fn same_path(a: &PathBuf, b: &Path) -> (r: bool)
    ensures
        r == paths_equal(*a, b),
{
    a == b
}

/// The path `Path::join` makes of `a` and `b`.
pub uninterp spec fn joined_path(a: PathBuf, b: &Path) -> PathBuf;

/// `Path::join`: `b` under `a` (or `b` itself when it is absolute); the path is named, not
/// stated.
#[verifier::external_body]
fn join_path(a: &PathBuf, b: &Path) -> (r: PathBuf)
    ensures
        r == joined_path(*a, b),
{
    a.join(b)
}

/// The extensions of Markdown files.
pub open spec fn markdown_extension_spec(ext: Seq<char>) -> bool {
    let e = lower_seq(ext);
    e == "md"@ || e == "markdown"@ || e == "mdown"@ || e == "mkd"@ || e == "mdx"@
}

/// Whether an extension is one of Markdown's, in any ASCII case.
pub fn markdown_extension(ext: &str) -> (r: bool)
    ensures
        r == markdown_extension_spec(ext@),
{
    let v = chars_of(ext);
    let e = lower_vec(&v);
    eq_lit(&e, "md") || eq_lit(&e, "markdown") || eq_lit(&e, "mdown") || eq_lit(&e, "mkd")
        || eq_lit(&e, "mdx")
}

/// Whether the path names a Markdown file, by its extension.
pub fn is_markdown(path: &Path) -> (r: bool)
    ensures
        r == match extension_of(path) {
            Some(e) => markdown_extension_spec(e),
            None => false,
        },
{
    match path_extension(path) {
        Some(e) => markdown_extension(e.as_str()),
        None => false,
    }
}

/// `text` with each `sep` replaced by `/`.
pub open spec fn slashes_spec(text: Seq<char>, sep: char) -> Seq<char> {
    text.map_values(|c: char| if c == sep { '/' } else { c })
}

/// The text of a path with its separators written as `/`.
pub fn forward_slashes(text: &str, sep: char) -> (r: String)
    ensures
        r@ == slashes_spec(text@, sep),
{
    let v = chars_of(text);
    let mut out = String::new();
    let mut i: usize = 0;
    while i < v.len()
        invariant
            i <= v.len(),
            v@ == text@,
            out@ == slashes_spec(v@.take(i as int), sep),
        decreases v.len() - i,
    {
        let c = if v[i] == sep {
            '/'
        } else {
            v[i]
        };
        crate::text::push_char(&mut out, c);
        i = i + 1;
        assert(out@ =~= slashes_spec(v@.take(i as int), sep));
    }
    assert(v@.take(v.len() as int) =~= v@);
    out
}

/// A path as shown to the reader: its text, with `/` between components on every platform.
pub fn display_path(path: &Path) -> (r: String)
    ensures
        exists|sep: char|
            (sep == '/' || sep == '\\') && r@ == #[trigger] slashes_spec(lossy_text_of(path), sep),
{
    let text = path_text(path);
    forward_slashes(text.as_str(), main_separator())
}

// ---------------------------------------------------------------------------------------------
// Looking things up
// ---------------------------------------------------------------------------------------------
/// The entries that are files, in order.
pub open spec fn files_of(s: Seq<Entry>) -> Seq<Entry>
    decreases s.len(),
{
    if s.len() == 0 {
        seq![]
    } else if s.last().is_dir {
        files_of(s.drop_last())
    } else {
        files_of(s.drop_last()).push(s.last())
    }
}

/// The first file at the top of the project whose name is `name` in any ASCII case.
pub open spec fn root_file(s: Seq<Entry>, name: Seq<char>, k: int) -> Option<int>
    decreases s.len() - k,
{
    if k < 0 || k >= s.len() {
        None
    } else if !s[k].is_dir && s[k].depth == 1 && lower_seq(s[k].name@) == lower_seq(name) {
        Some(k)
    } else {
        root_file(s, name, k + 1)
    }
}

/// The first file of all.
pub open spec fn first_file(s: Seq<Entry>, k: int) -> Option<int>
    decreases s.len() - k,
{
    if k < 0 || k >= s.len() {
        None
    } else if !s[k].is_dir {
        Some(k)
    } else {
        first_file(s, k + 1)
    }
}

/// The file to open first: `README.md` at the top, else `index.md`, else the first file.
pub open spec fn entry_index(s: Seq<Entry>) -> Option<int> {
    match root_file(s, "README.md"@, 0) {
        Some(i) => Some(i),
        None => match root_file(s, "index.md"@, 0) {
            Some(i) => Some(i),
            None => first_file(s, 0),
        },
    }
}

fn first_file_index(entries: &Vec<Entry>) -> (r: Option<usize>)
    ensures
        r is None ==> first_file(entries@, 0) is None,
        r matches Some(i) ==> first_file(entries@, 0) == Some(i as int) && i < entries@.len(),
{
    let mut k: usize = 0;
    while k < entries.len()
        invariant
            k <= entries.len(),
            first_file(entries@, 0) == first_file(entries@, k as int),
        decreases entries.len() - k,
    {
        if !entries[k].is_dir {
            return Some(k);
        }
        k = k + 1;
    }
    None
}

fn find_root_file(entries: &Vec<Entry>, name: &str) -> (r: Option<usize>)
    ensures
        r is None ==> root_file(entries@, name@, 0) is None,
        r matches Some(i) ==> root_file(entries@, name@, 0) == Some(i as int) && i < entries@.len(),
{
    let want = chars_of(name);
    let lw = lower_vec(&want);
    let mut k: usize = 0;
    while k < entries.len()
        invariant
            k <= entries.len(),
            lw@ == lower_seq(name@),
            root_file(entries@, name@, 0) == root_file(entries@, name@, k as int),
        decreases entries.len() - k,
    {
        let e = &entries[k];
        if !e.is_dir && e.depth == 1 {
            let n = chars_of(e.name.as_str());
            let ln = lower_vec(&n);
            if crate::text::chars_eq(&ln, &lw) {
                return Some(k);
            }
        }
        k = k + 1;
    }
    None
}

impl Project {
    /// The files of the project, in order.
    pub fn files(&self) -> (r: Vec<&Entry>)
        ensures
            r@.len() == files_of(self.entries@).len(),
            forall|i: int| 0 <= i < r@.len() ==> *r@[i] == files_of(self.entries@)[i],
    {
        let mut out: Vec<&Entry> = Vec::new();
        let mut k: usize = 0;
        assert(self.entries@.take(0) =~= Seq::<Entry>::empty());
        while k < self.entries.len()
            invariant
                k <= self.entries.len(),
                out@.len() == files_of(self.entries@.take(k as int)).len(),
                forall|i: int|
                    0 <= i < out@.len() ==> *out@[i] == files_of(self.entries@.take(k as int))[i],
            decreases self.entries.len() - k,
        {
            assert(self.entries@.take(k + 1).drop_last() =~= self.entries@.take(k as int));
            let e = &self.entries[k];
            if !e.is_dir {
                out.push(e);
            }
            k = k + 1;
        }
        assert(self.entries@.take(self.entries.len() as int) =~= self.entries@);
        out
    }

    /// The file to open first: `README.md` at the top of the project, else `index.md` (in any
    /// ASCII case), else the first file.
    pub fn entry_file(&self) -> (r: Option<PathBuf>)
        ensures
            r is None ==> entry_index(self.entries@) is None,
            r matches Some(p) ==> entry_index(self.entries@) matches Some(i) && p
                == self.entries@[i].path,
    {
        proof {
            reveal_strlit("README.md");
            reveal_strlit("index.md");
        }
        let i = match find_root_file(&self.entries, "README.md") {
            Some(i) => i,
            None => match find_root_file(&self.entries, "index.md") {
                Some(i) => i,
                None => match first_file_index(&self.entries) {
                    Some(k) => k,
                    None => return None,
                },
            },
        };
        Some(self.entries[i].path.clone())
    }

    /// The index of the entry for `path`, if the project has one. Paths are compared as
    /// `Path` compares them.
    pub fn index_of(&self, path: &Path) -> (r: Option<usize>)
        ensures
            r matches Some(i) ==> i < self.entries@.len() && paths_equal(self.entries@[i as int].path, path)
                && forall|j: int| 0 <= j < i ==> !paths_equal(#[trigger] self.entries@[j].path, path),
            r is None ==> forall|j: int|
                0 <= j < self.entries@.len() ==> !paths_equal(#[trigger] self.entries@[j].path, path),
    {
        let mut k: usize = 0;
        while k < self.entries.len()
            invariant
                k <= self.entries.len(),
                forall|j: int| 0 <= j < k ==> !paths_equal(#[trigger] self.entries@[j].path, path),
            decreases self.entries.len() - k,
        {
            if same_path(&self.entries[k].path, path) {
                return Some(k);
            }
            k = k + 1;
        }
        None
    }

    /// The path under the project's root.
    pub fn absolute(&self, path: &Path) -> (r: PathBuf)
        ensures
            r == joined_path(self.root, path),
    {
        join_path(&self.root, path)
    }
}

// ---------------------------------------------------------------------------------------------
// Titles
// ---------------------------------------------------------------------------------------------
/// How much of a file is read for its title.
pub const TITLE_SCAN_BYTES: usize = 8192;

/// The first index at or after `k` whose line reads `---`, trailing whitespace aside.
pub open spec fn fence_from(lines: Seq<Seq<char>>, k: int) -> Option<int>
    decreases lines.len() - k,
{
    if k < 0 || k >= lines.len() {
        None
    } else if trim_end(lines[k]) == "---"@ {
        Some(k)
    } else {
        fence_from(lines, k + 1)
    }
}

/// The first line after front matter fenced by `---`.
pub open spec fn body_start(lines: Seq<Seq<char>>) -> int {
    if lines.len() > 0 && trim_end(lines[0]) == "---"@ {
        match fence_from(lines, 1) {
            Some(j) => j + 1,
            None => lines.len() as int,
        }
    } else {
        0
    }
}

/// `s` without its leading `#`s.
pub open spec fn drop_hashes(s: Seq<char>) -> Seq<char>
    decreases s.len(),
{
    if s.len() > 0 && s[0] == '#' {
        drop_hashes(s.drop_first())
    } else {
        s
    }
}

/// `s` without its trailing `#`s.
pub open spec fn drop_end_hashes(s: Seq<char>) -> Seq<char>
    decreases s.len(),
{
    if s.len() > 0 && s.last() == '#' {
        drop_end_hashes(s.drop_last())
    } else {
        s
    }
}

/// The title of an ATX heading line (already trimmed): the text between its `#`s.
pub open spec fn atx_title(t: Seq<char>) -> Option<Seq<char>> {
    if t.len() > 0 && t[0] == '#' {
        let title = trim(drop_end_hashes(trim(drop_hashes(t.drop_first()))));
        if title.len() > 0 {
            Some(title)
        } else {
            None
        }
    } else {
        None
    }
}

/// A line of only `=`, the underline of a setext heading.
pub open spec fn setext_line(t: Seq<char>) -> bool {
    t.len() > 0 && forall|i: int| 0 <= i < t.len() ==> #[trigger] t[i] == '='
}

/// The first heading from line `k` on, `prev` being the line before it.
pub open spec fn heading_from(lines: Seq<Seq<char>>, k: int, prev: Option<Seq<char>>) -> Option<
    Seq<char>,
>
    decreases lines.len() - k,
{
    if k < 0 || k >= lines.len() {
        None
    } else {
        let t = trim(lines[k]);
        match atx_title(t) {
            Some(x) => Some(x),
            None => if setext_line(t) && prev is Some && trim(prev->0).len() > 0 {
                Some(trim(prev->0))
            } else {
                heading_from(lines, k + 1, Some(lines[k]))
            },
        }
    }
}

/// The first heading of a Markdown text, after its front matter: an ATX heading's text, or
/// the line above a setext underline.
pub open spec fn first_heading_spec(text: Seq<char>) -> Option<Seq<char>> {
    let lines = lines_of(text);
    heading_from(lines, body_start(lines), None)
}

fn drop_hashes_exec(s: &Vec<char>) -> (r: Vec<char>)
    ensures
        r@ == drop_hashes(s@),
{
    let mut k: usize = 0;
    assert(s@.skip(0) =~= s@);
    while k < s.len() && s[k] == '#'
        invariant
            k <= s.len(),
            drop_hashes(s@) == drop_hashes(s@.skip(k as int)),
        decreases s.len() - k,
    {
        assert(s@.skip(k as int).drop_first() =~= s@.skip(k + 1));
        k = k + 1;
    }
    let r = slice(s, k, s.len());
    assert(r@ =~= s@.skip(k as int));
    r
}

fn drop_end_hashes_exec(s: &Vec<char>) -> (r: Vec<char>)
    ensures
        r@ == drop_end_hashes(s@),
{
    let mut n = s.len();
    assert(s@.take(n as int) =~= s@);
    while n > 0 && s[n - 1] == '#'
        invariant
            n <= s.len(),
            drop_end_hashes(s@) == drop_end_hashes(s@.take(n as int)),
        decreases n,
    {
        assert(s@.take(n as int).drop_last() =~= s@.take(n - 1));
        n = n - 1;
    }
    slice(s, 0, n)
}

fn atx_title_exec(t: &Vec<char>) -> (r: Option<Vec<char>>)
    ensures
        r is None ==> atx_title(t@) is None,
        r matches Some(x) ==> atx_title(t@) == Some(x@),
{
    if t.len() > 0 && t[0] == '#' {
        let rest = slice(t, 1, t.len());
        assert(rest@ =~= t@.drop_first());
        let a = drop_hashes_exec(&rest);
        let b = trimmed(&a);
        let c = drop_end_hashes_exec(&b);
        let title = trimmed(&c);
        if title.len() > 0 {
            Some(title)
        } else {
            None
        }
    } else {
        None
    }
}

fn is_setext_line(t: &Vec<char>) -> (r: bool)
    ensures
        r == setext_line(t@),
{
    if t.len() == 0 {
        return false;
    }
    let mut i: usize = 0;
    while i < t.len()
        invariant
            i <= t.len(),
            forall|j: int| 0 <= j < i ==> t@[j] == '=',
        decreases t.len() - i,
    {
        if t[i] != '=' {
            return false;
        }
        i = i + 1;
    }
    true
}

fn is_fence(line: &Vec<char>) -> (r: bool)
    ensures
        r == (trim_end(line@) == "---"@),
{
    let t = trimmed_end(line);
    eq_lit(&t, "---")
}

/// The first heading of a Markdown text, after its front matter: an ATX heading's text
/// between its `#`s, or the line above a setext `===` underline.
pub fn first_heading_in(text: &str) -> (r: Option<String>)
    ensures
        r is None ==> first_heading_spec(text@) is None,
        r matches Some(t) ==> first_heading_spec(text@) == Some(t@),
{
    let lines = text_lines(text);
    let ghost ls = views(lines@);
    let mut k: usize = 0;
    if lines.len() > 0 && is_fence(&lines[0]) {
        k = 1;
        while k < lines.len() && !is_fence(&lines[k])
            invariant
                1 <= k <= lines.len(),
                ls == views(lines@),
                ls == lines_of(text@),
                fence_from(ls, 1) == fence_from(ls, k as int),
            decreases lines.len() - k,
        {
            k = k + 1;
        }
        if k < lines.len() {
            k = k + 1;
        }
    }
    assert(k == body_start(ls));
    let mut prev: Option<Vec<char>> = None;
    while k < lines.len()
        invariant
            k <= lines.len(),
            ls == views(lines@),
            ls == lines_of(text@),
            heading_from(ls, body_start(ls), None) == heading_from(
                ls,
                k as int,
                match prev {
                    Some(p) => Some(p@),
                    None => None,
                },
            ),
        decreases lines.len() - k,
    {
        let t = trimmed(&lines[k]);
        match atx_title_exec(&t) {
            Some(x) => return Some(string_of(&x)),
            None => {},
        }
        if is_setext_line(&t) {
            match &prev {
                Some(p) => {
                    let tp = trimmed(p);
                    if tp.len() > 0 {
                        return Some(string_of(&tp));
                    }
                },
                None => {},
            }
        }
        prev = Some(slice(&lines[k], 0, lines[k].len()));
        assert(prev->0@ =~= ls[k as int]);
        k = k + 1;
    }
    None
}

/// The title of a file from its first bytes: the first heading of what the first
/// [`TITLE_SCAN_BYTES`] read as, UTF-8 errors replaced.
pub fn title_of(bytes: &Vec<u8>) -> (r: Option<String>)
    ensures
        r is None ==> first_heading_spec(
            utf8_lossy(bytes@.take(if bytes@.len() < TITLE_SCAN_BYTES { bytes@.len() as int } else { TITLE_SCAN_BYTES as int })),
        ) is None,
        r matches Some(t) ==> first_heading_spec(
            utf8_lossy(bytes@.take(if bytes@.len() < TITLE_SCAN_BYTES { bytes@.len() as int } else { TITLE_SCAN_BYTES as int })),
        ) == Some(t@),
{
    let n = if bytes.len() < TITLE_SCAN_BYTES {
        bytes.len()
    } else {
        TITLE_SCAN_BYTES
    };
    let mut head: Vec<u8> = Vec::new();
    let mut i: usize = 0;
    while i < n
        invariant
            i <= n <= bytes.len(),
            head@ == bytes@.take(i as int),
        decreases n - i,
    {
        head.push(bytes[i]);
        i = i + 1;
        assert(head@ =~= bytes@.take(i as int));
    }
    let text = lossy_string(&head);
    first_heading_in(text.as_str())
}

} // verus!
