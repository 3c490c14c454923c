//! Reading the fields of YAML and TOML front matter as flat `key = value` pairs.
//!
//! Nested maps become dotted keys, lists and arrays become comma separated values, quotes are
//! taken off and block scalars are folded onto one line.
use vstd::prelude::*;

use super::document::{FrontMatter, MetaFormat};
use crate::text::{
    chars_of, extend, find_char, find_char_from, join, join_vec, lemma_find_char_from,
    lemma_find_char_shift, slice, split, split_vec, string_of, trim, trimmed,
};

verus! {

/// Views of a run of character vectors.
pub open spec fn views(ls: Seq<Vec<char>>) -> Seq<Seq<char>> {
    ls.map_values(|l: Vec<char>| l@)
}

/// A field as plain character sequences.
pub type Field = (Seq<char>, Seq<char>);

pub open spec fn field_views(fs: Seq<(Vec<char>, Vec<char>)>) -> Seq<Field> {
    fs.map_values(|f: (Vec<char>, Vec<char>)| (f.0@, f.1@))
}

pub open spec fn string_field_views(fs: Seq<(String, String)>) -> Seq<Field> {
    fs.map_values(|f: (String, String)| (f.0@, f.1@))
}

// ---------------------------------------------------------------------------------------------
// Lines
// ---------------------------------------------------------------------------------------------
/// A line without the `\r` of a `\r\n` ending.
pub open spec fn strip_cr(l: Seq<char>) -> Seq<char> {
    if l.len() > 0 && l.last() == '\r' {
        l.drop_last()
    } else {
        l
    }
}

/// `str::lines`: split at `\n` (dropping a `\r` before it), with no empty last line for a
/// final line ending.
pub open spec fn lines_of(s: Seq<char>) -> Seq<Seq<char>>
    decreases s.len(),
{
    if s.len() == 0 {
        seq![]
    } else {
        match find_char_from(s, '\n', 0) {
            Some(i) => if 0 <= i < s.len() {
                seq![strip_cr(s.take(i))] + lines_of(s.skip(i + 1))
            } else {
                seq![s]
            },
            None => seq![s],
        }
    }
}

fn strip_cr_exec(l: Vec<char>) -> (r: Vec<char>)
    ensures
        r@ == strip_cr(l@),
{
    let mut l = l;
    if l.len() > 0 && l[l.len() - 1] == '\r' {
        l.pop();
    }
    l
}

/// The lines of `s`, as `str::lines` splits them.
pub fn split_lines(s: &Vec<char>) -> (r: Vec<Vec<char>>)
    ensures
        views(r@) == lines_of(s@),
{
    let mut out: Vec<Vec<char>> = Vec::new();
    let mut start: usize = 0;
    assert(s@.skip(0) =~= s@);
    assert(views(out@) + lines_of(s@) =~= lines_of(s@));
    while start < s.len()
        invariant
            start <= s.len(),
            views(out@) + lines_of(s@.skip(start as int)) == lines_of(s@),
        decreases s.len() - start,
    {
        let ghost rest = s@.skip(start as int);
        let ghost before = views(out@);
        proof {
            lemma_find_char_shift(s@, '\n', start as int);
        }
        match find_char(s, '\n', start) {
            Some(i) => {
                proof {
                    lemma_find_char_from(s@, '\n', start as int);
                }
                let line = slice(s, start, i);
                let line = strip_cr_exec(line);
                assert(line@ == strip_cr(rest.take(i - start)));
                assert(rest.skip(i - start + 1) =~= s@.skip(i + 1));
                out.push(line);
                assert(views(out@) =~= before.push(line@));
                start = i + 1;
            },
            None => {
                let line = slice(s, start, s.len());
                assert(line@ =~= rest);
                out.push(line);
                assert(views(out@) =~= before.push(line@));
                assert(lines_of(s@.skip(s.len() as int)) =~= Seq::<Seq<char>>::empty());
                start = s.len();
            },
        }
    }
    assert(lines_of(s@.skip(start as int)) =~= Seq::<Seq<char>>::empty()) by {
        assert(s@.skip(start as int).len() == 0);
    }
    assert(views(out@) + Seq::<Seq<char>>::empty() =~= views(out@));
    out
}

// ---------------------------------------------------------------------------------------------
// Values
// ---------------------------------------------------------------------------------------------
/// Wrapped in a matching pair of double or single quotes.
pub open spec fn quoted(t: Seq<char>) -> bool {
    t.len() >= 2 && ((t[0] == '"' && t.last() == '"') || (t[0] == '\'' && t.last() == '\''))
}

/// The value trimmed, and without its quotes when it is quoted.
pub open spec fn unquote(v: Seq<char>) -> Seq<char> {
    let t = trim(v);
    if quoted(t) {
        t.subrange(1, t.len() - 1)
    } else {
        t
    }
}

pub fn unquote_exec(v: &Vec<char>) -> (r: Vec<char>)
    ensures
        r@ == unquote(v@),
{
    let t = trimmed(v);
    let n = t.len();
    if n >= 2 && ((t[0] == '"' && t[n - 1] == '"') || (t[0] == '\'' && t[n - 1] == '\'')) {
        slice(&t, 1, n - 1)
    } else {
        t
    }
}

/// The non-empty pieces, each unquoted.
pub open spec fn unquoted_items(parts: Seq<Seq<char>>) -> Seq<Seq<char>>
    decreases parts.len(),
{
    if parts.len() == 0 {
        seq![]
    } else {
        let r = unquoted_items(parts.drop_last());
        let u = unquote(parts.last());
        if u.len() > 0 {
            r.push(u)
        } else {
            r
        }
    }
}

/// A bracketed inline list: `[a, "b"]`.
pub open spec fn bracketed(t: Seq<char>) -> bool {
    t.len() >= 2 && t[0] == '[' && t.last() == ']'
}

/// A scalar or inline list as text: lists become their unquoted items joined by `, `.
pub open spec fn scalar(v: Seq<char>) -> Seq<char> {
    let t = trim(v);
    if bracketed(t) {
        join(unquoted_items(split(t.subrange(1, t.len() - 1), ',')), ", "@)
    } else {
        unquote(t)
    }
}

fn comma_space() -> (r: Vec<char>)
    ensures
        r@ == ", "@,
{
    chars_of(", ")
}

pub fn scalar_exec(v: &Vec<char>) -> (r: Vec<char>)
    ensures
        r@ == scalar(v@),
{
    let t = trimmed(v);
    let n = t.len();
    if n >= 2 && t[0] == '[' && t[n - 1] == ']' {
        let inner = slice(&t, 1, n - 1);
        let parts = split_vec(&inner, ',');
        let ghost pv = parts@.map_values(|l: Vec<char>| l@);
        let mut items: Vec<Vec<char>> = Vec::new();
        let mut i: usize = 0;
        while i < parts.len()
            invariant
                i <= parts.len(),
                pv == parts@.map_values(|l: Vec<char>| l@),
                items@.map_values(|l: Vec<char>| l@) == unquoted_items(pv.take(i as int)),
            decreases parts.len() - i,
        {
            let ghost before = items@.map_values(|l: Vec<char>| l@);
            assert(pv.take(i + 1).drop_last() =~= pv.take(i as int));
            let u = unquote_exec(&parts[i]);
            if u.len() > 0 {
                items.push(u);
                assert(items@.map_values(|l: Vec<char>| l@) =~= before.push(u@));
            }
            i = i + 1;
        }
        assert(pv.take(parts.len() as int) =~= pv);
        join_vec(&items, &comma_space())
    } else {
        unquote_exec(&t)
    }
}

// ---------------------------------------------------------------------------------------------
// YAML
// ---------------------------------------------------------------------------------------------
/// Leading spaces and tabs.
pub open spec fn lead_indent(l: Seq<char>) -> nat
    decreases l.len(),
{
    if l.len() > 0 && (l[0] == ' ' || l[0] == '\t') {
        1 + lead_indent(l.drop_first())
    } else {
        0
    }
}

proof fn lemma_lead_indent_is(s: Seq<char>, i: int)
    requires
        0 <= i <= s.len(),
        forall|j: int| 0 <= j < i ==> (#[trigger] s[j] == ' ' || s[j] == '\t'),
        i == s.len() || !(s[i] == ' ' || s[i] == '\t'),
    ensures
        lead_indent(s) == i,
    decreases i,
{
    if i > 0 {
        let t = s.drop_first();
        assert forall|j: int| 0 <= j < i - 1 implies (#[trigger] t[j] == ' ' || t[j] == '\t') by {
            assert(t[j] == s[j + 1]);
        }
        if i - 1 < t.len() {
            assert(t[i - 1] == s[i]);
        }
        lemma_lead_indent_is(t, i - 1);
    }
}

pub fn indent_of(l: &Vec<char>) -> (r: usize)
    ensures
        r == lead_indent(l@),
{
    let mut i: usize = 0;
    while i < l.len() && (l[i] == ' ' || l[i] == '\t')
        invariant
            i <= l.len(),
            forall|j: int| 0 <= j < i ==> (#[trigger] l@[j] == ' ' || l@[j] == '\t'),
        decreases l.len() - i,
    {
        i = i + 1;
    }
    proof {
        lemma_lead_indent_is(l@, i as int);
    }
    i
}

/// A list item line: `- x` or a lone `-`.
pub open spec fn is_item(b: Seq<char>) -> bool {
    (b.len() >= 2 && b[0] == '-' && b[1] == ' ') || b =~= seq!['-']
}

fn is_item_exec(b: &Vec<char>) -> (r: bool)
    ensures
        r == is_item(b@),
{
    let r = (b.len() >= 2 && b[0] == '-' && b[1] == ' ') || (b.len() == 1 && b[0] == '-');
    assert(b.len() == 1 && b[0] == '-' ==> b@ =~= seq!['-']);
    r
}

/// A colon that ends a key: followed by a space or the end of the line.
pub open spec fn colon_ok(b: Seq<char>, i: int) -> bool {
    b[i] == ':' && (i + 1 >= b.len() || b[i + 1] == ' ')
}

/// The first key-ending colon at or after `i`, or 0 when there is none.
pub open spec fn colon_from(b: Seq<char>, i: int) -> int
    decreases b.len() - i,
{
    if i < 0 || i >= b.len() {
        0
    } else if colon_ok(b, i) {
        i
    } else {
        colon_from(b, i + 1)
    }
}

/// `key: rest` in a mapping line, with the key trimmed. List items are not pairs.
pub open spec fn yaml_pair(b: Seq<char>) -> Option<(Seq<char>, Seq<char>)> {
    if is_item(b) {
        None
    } else {
        let at = colon_from(b, 0);
        if 0 <= at < b.len() && b[at] == ':' && trim(b.take(at)).len() > 0 {
            Some((trim(b.take(at)), b.skip(at + 1)))
        } else {
            None
        }
    }
}

fn colon_index(b: &Vec<char>) -> (r: usize)
    ensures
        r == colon_from(b@, 0),
{
    let mut i: usize = 0;
    while i < b.len()
        invariant
            i <= b.len(),
            colon_from(b@, 0) == colon_from(b@, i as int),
        decreases b.len() - i,
    {
        if b[i] == ':' && (i + 1 >= b.len() || b[i + 1] == ' ') {
            return i;
        }
        i = i + 1;
    }
    0
}

fn yaml_pair_exec(b: &Vec<char>) -> (r: Option<(Vec<char>, Vec<char>)>)
    ensures
        r is None ==> yaml_pair(b@) is None,
        r matches Some(p) ==> yaml_pair(b@) == Some((p.0@, p.1@)),
{
    if is_item_exec(b) {
        return None;
    }
    let at = colon_index(b);
    if at < b.len() && b[at] == ':' {
        let head = slice(b, 0, at);
        let key = trimmed(&head);
        if key.len() > 0 {
            let rest = slice(b, at + 1, b.len());
            assert(rest@ =~= b@.skip(at + 1));
            return Some((key, rest));
        }
    }
    None
}

pub open spec fn blank(l: Seq<char>) -> bool {
    trim(l).len() == 0
}

/// The first line at or after `j` that is not blank and not indented past `indent`: where a
/// key's block of children ends.
pub open spec fn block_end(lines: Seq<Seq<char>>, indent: nat, j: int) -> int
    decreases lines.len() - j,
{
    if j < 0 || j >= lines.len() {
        lines.len() as int
    } else if !blank(lines[j]) && lead_indent(lines[j]) <= indent {
        j
    } else {
        block_end(lines, indent, j + 1)
    }
}

pub proof fn lemma_block_end(lines: Seq<Seq<char>>, indent: nat, j: int)
    requires
        0 <= j <= lines.len(),
    ensures
        j <= block_end(lines, indent, j) <= lines.len(),
    decreases lines.len() - j,
{
    if j < lines.len() && !(!blank(lines[j]) && lead_indent(lines[j]) <= indent) {
        lemma_block_end(lines, indent, j + 1);
    }
}

/// The smallest indent among the non-blank lines.
pub open spec fn min_indent(ls: Seq<Seq<char>>) -> Option<nat>
    decreases ls.len(),
{
    if ls.len() == 0 {
        None
    } else {
        let r = min_indent(ls.drop_last());
        let l = ls.last();
        if blank(l) {
            r
        } else {
            match r {
                None => Some(lead_indent(l)),
                Some(m) => Some(if m <= lead_indent(l) { m } else { lead_indent(l) }),
            }
        }
    }
}

/// The trimmed non-blank lines indented exactly `ci`.
pub open spec fn direct(ls: Seq<Seq<char>>, ci: nat) -> Seq<Seq<char>>
    decreases ls.len(),
{
    if ls.len() == 0 {
        seq![]
    } else {
        let r = direct(ls.drop_last(), ci);
        let l = ls.last();
        if !blank(l) && lead_indent(l) == ci {
            r.push(trim(l))
        } else {
            r
        }
    }
}

/// `s` without its leading dashes.
pub open spec fn strip_dashes(s: Seq<char>) -> Seq<char>
    decreases s.len(),
{
    if s.len() > 0 && s[0] == '-' {
        strip_dashes(s.drop_first())
    } else {
        s
    }
}

/// The values of list items, without the dashes, skipping empty ones.
pub open spec fn item_values(ds: Seq<Seq<char>>) -> Seq<Seq<char>>
    decreases ds.len(),
{
    if ds.len() == 0 {
        seq![]
    } else {
        let r = item_values(ds.drop_last());
        let v = scalar(trim(strip_dashes(ds.last())));
        if v.len() > 0 {
            r.push(v)
        } else {
            r
        }
    }
}

/// The trimmed non-blank lines of a block scalar.
pub open spec fn block_lines(ls: Seq<Seq<char>>) -> Seq<Seq<char>>
    decreases ls.len(),
{
    if ls.len() == 0 {
        seq![]
    } else {
        let r = block_lines(ls.drop_last());
        if blank(ls.last()) {
            r
        } else {
            r.push(trim(ls.last()))
        }
    }
}

/// Fields of the YAML mapping in `lines` from line `i` on, whose keys sit at column `indent`
/// and get `prefix` in front of them.
pub open spec fn yaml_from(lines: Seq<Seq<char>>, indent: nat, prefix: Seq<char>, i: int) -> Seq<
    Field,
>
    decreases lines.len(), lines.len() - i,
{
    if i < 0 || i >= lines.len() {
        seq![]
    } else {
        let line = lines[i];
        let body = trim(line);
        if body.len() == 0 || body[0] == '#' || lead_indent(line) != indent {
            yaml_from(lines, indent, prefix, i + 1)
        } else {
            match yaml_pair(body) {
                None => yaml_from(lines, indent, prefix, i + 1),
                Some((k, rest)) => {
                    proof {
                        lemma_block_end(lines, indent, i + 1);
                    }
                    let end = block_end(lines, indent, i + 1);
                    let children = lines.subrange(i + 1, end);
                    let key = prefix + unquote(k);
                    let value = trim(rest);
                    let is_block = value.len() > 0 && (value[0] == '|' || value[0] == '>');
                    let here: Seq<Field> = if value.len() > 0 && !is_block {
                        seq![(key, scalar(value))]
                    } else if is_block {
                        seq![(key, join(block_lines(children), " "@))]
                    } else {
                        match min_indent(children) {
                            None => seq![(key, Seq::<char>::empty())],
                            Some(ci) => {
                                let ds = direct(children, ci);
                                if forall|d: int| 0 <= d < ds.len() ==> is_item(#[trigger] ds[d]) {
                                    seq![(key, join(item_values(ds), ", "@))]
                                } else {
                                    yaml_from(children, ci, key.push('.'), 0)
                                }
                            },
                        }
                    };
                    here + yaml_from(lines, indent, prefix, end)
                },
            }
        }
    }
}

/// The lines of `ls` that hold more than whitespace, trimmed.
pub open spec fn kept_lines(ls: Seq<Seq<char>>) -> Seq<Seq<char>> {
    ls.filter(|l: Seq<char>| trim(l).len() > 0).map_values(|l: Seq<char>| trim(l))
}

proof fn lemma_block_lines_are_kept(ls: Seq<Seq<char>>)
    ensures
        block_lines(ls) == kept_lines(ls),
    decreases ls.len(),
{
    reveal(Seq::filter);
    if ls.len() > 0 {
        lemma_block_lines_are_kept(ls.drop_last());
        let f = |l: Seq<char>| trim(l).len() > 0;
        let t = |l: Seq<char>| trim(l);
        let sub = ls.drop_last().filter(f);
        if f(ls.last()) {
            assert(ls.filter(f) == sub.push(ls.last()));
            assert(sub.push(ls.last()).map_values(t) =~= sub.map_values(t).push(trim(ls.last())));
        } else {
            assert(ls.filter(f) == sub);
        }
    }
}

proof fn lemma_block_end_at(lines: Seq<Seq<char>>, indent: nat, j: int, end: int)
    requires
        0 <= j <= end <= lines.len(),
        forall|m: int| j <= m < end ==> blank(#[trigger] lines[m]) || lead_indent(lines[m]) > indent,
        end < lines.len() ==> !blank(lines[end]) && lead_indent(lines[end]) <= indent,
    ensures
        block_end(lines, indent, j) == end,
    decreases end - j,
{
    if j < end {
        lemma_block_end_at(lines, indent, j + 1, end);
    }
}

/// A YAML key whose value is a block scalar (it starts with `|`, literal, or `>`, folded)
/// takes as its value the lines of the block indented under it (up to the next line that is
/// not blank and not indented further than the key), trimmed, without the blank ones, joined
/// by spaces: the field of the key line `i` is the first field read from it.
pub proof fn law_block_scalars_join_their_lines(
    lines: Seq<Seq<char>>,
    indent: nat,
    prefix: Seq<char>,
    i: int,
    end: int,
    key: Seq<char>,
    rest: Seq<char>,
)
    requires
        0 <= i < end <= lines.len(),
        lead_indent(lines[i]) == indent,
        trim(lines[i]).len() > 0,
        trim(lines[i])[0] != '#',
        yaml_pair(trim(lines[i])) == Some((key, rest)),
        trim(rest).len() > 0,
        trim(rest)[0] == '|' || trim(rest)[0] == '>',
        forall|m: int| i < m < end ==> blank(#[trigger] lines[m]) || lead_indent(lines[m]) > indent,
        end < lines.len() ==> !blank(lines[end]) && lead_indent(lines[end]) <= indent,
    ensures
        yaml_from(lines, indent, prefix, i).len() > 0,
        yaml_from(lines, indent, prefix, i)[0] == (
            prefix + unquote(key),
            join(kept_lines(lines.subrange(i + 1, end)), " "@),
        ),
{
    lemma_block_end_at(lines, indent, i + 1, end);
    lemma_block_lines_are_kept(lines.subrange(i + 1, end));
}

/// The values of list items: each without its dashes, trimmed and unquoted, the empty ones
/// left out.
pub open spec fn listed(ds: Seq<Seq<char>>) -> Seq<Seq<char>> {
    ds.map_values(|d: Seq<char>| scalar(trim(strip_dashes(d)))).filter(|v: Seq<char>| v.len() > 0)
}

proof fn lemma_item_values_are_listed(ds: Seq<Seq<char>>)
    ensures
        item_values(ds) == listed(ds),
    decreases ds.len(),
{
    reveal(Seq::filter);
    if ds.len() > 0 {
        lemma_item_values_are_listed(ds.drop_last());
        let m = |d: Seq<char>| scalar(trim(strip_dashes(d)));
        let f = |v: Seq<char>| v.len() > 0;
        let mapped = ds.map_values(m);
        assert(mapped.drop_last() =~= ds.drop_last().map_values(m));
        assert(mapped.last() == m(ds.last()));
        assert(mapped.len() > 0);
        assert(mapped.filter(f) == if f(mapped.last()) {
            mapped.drop_last().filter(f).push(mapped.last())
        } else {
            mapped.drop_last().filter(f)
        });
    }
}

/// A YAML key with nothing after its colon whose indented lines are a list (every line at
/// their least indent is an item, `- value`) takes as its value the items, without their
/// dashes, trimmed and unquoted, the empty ones left out, joined by `, `.
pub proof fn law_lists_join_their_items(
    lines: Seq<Seq<char>>,
    indent: nat,
    prefix: Seq<char>,
    i: int,
    end: int,
    key: Seq<char>,
    rest: Seq<char>,
    ci: nat,
)
    requires
        0 <= i < end <= lines.len(),
        lead_indent(lines[i]) == indent,
        trim(lines[i]).len() > 0,
        trim(lines[i])[0] != '#',
        yaml_pair(trim(lines[i])) == Some((key, rest)),
        trim(rest).len() == 0,
        forall|m: int| i < m < end ==> blank(#[trigger] lines[m]) || lead_indent(lines[m]) > indent,
        end < lines.len() ==> !blank(lines[end]) && lead_indent(lines[end]) <= indent,
        min_indent(lines.subrange(i + 1, end)) == Some(ci),
        forall|d: int|
            0 <= d < direct(lines.subrange(i + 1, end), ci).len() ==> is_item(
                #[trigger] direct(lines.subrange(i + 1, end), ci)[d],
            ),
    ensures
        yaml_from(lines, indent, prefix, i).len() > 0,
        yaml_from(lines, indent, prefix, i)[0] == (
            prefix + unquote(key),
            join(listed(direct(lines.subrange(i + 1, end), ci)), ", "@),
        ),
{
    lemma_block_end_at(lines, indent, i + 1, end);
    lemma_item_values_are_listed(direct(lines.subrange(i + 1, end), ci));
}

fn is_blank(l: &Vec<char>) -> (r: bool)
    ensures
        r == blank(l@),
{
    let t = trimmed(l);
    t.len() == 0
}

fn block_end_exec(lines: &Vec<Vec<char>>, indent: usize, j: usize) -> (r: usize)
    requires
        j <= lines.len(),
    ensures
        r as int == block_end(views(lines@), indent as nat, j as int),
        j <= r <= lines.len(),
{
    let ghost ls = views(lines@);
    let mut k = j;
    while k < lines.len()
        invariant
            j <= k <= lines.len(),
            ls == views(lines@),
            block_end(ls, indent as nat, j as int) == block_end(ls, indent as nat, k as int),
        decreases lines.len() - k,
    {
        assert(ls[k as int] == lines@[k as int]@);
        if !is_blank(&lines[k]) && indent_of(&lines[k]) <= indent {
            return k;
        }
        k = k + 1;
    }
    k
}

fn sub_lines(lines: &Vec<Vec<char>>, a: usize, b: usize) -> (r: Vec<Vec<char>>)
    requires
        a <= b <= lines.len(),
    ensures
        views(r@) == views(lines@).subrange(a as int, b as int),
{
    let mut out: Vec<Vec<char>> = Vec::new();
    let mut i = a;
    while i < b
        invariant
            a <= i <= b <= lines.len(),
            views(out@) == views(lines@).subrange(a as int, i as int),
        decreases b - i,
    {
        let l = &lines[i];
        let copy = slice(l, 0, l.len());
        assert(copy@ =~= l@);
        let ghost before = views(out@);
        out.push(copy);
        assert(views(out@) =~= before.push(l@));
        assert(views(lines@).subrange(a as int, i + 1) =~= views(lines@).subrange(a as int, i as int).push(l@));
        i = i + 1;
    }
    out
}

fn min_indent_exec(ls: &Vec<Vec<char>>) -> (r: Option<usize>)
    ensures
        r matches Some(m) ==> min_indent(views(ls@)) == Some(m as nat),
        r is None ==> min_indent(views(ls@)) is None,
{
    let ghost v = views(ls@);
    let mut best: Option<usize> = None;
    let mut i: usize = 0;
    while i < ls.len()
        invariant
            i <= ls.len(),
            v == views(ls@),
            best matches Some(m) ==> min_indent(v.take(i as int)) == Some(m as nat),
            best is None ==> min_indent(v.take(i as int)) is None,
        decreases ls.len() - i,
    {
        assert(v.take(i + 1).drop_last() =~= v.take(i as int));
        assert(v.take(i + 1).last() == ls@[i as int]@);
        if !is_blank(&ls[i]) {
            let d = indent_of(&ls[i]);
            best = match best {
                None => Some(d),
                Some(m) => Some(if m <= d { m } else { d }),
            };
        }
        i = i + 1;
    }
    assert(v.take(ls.len() as int) =~= v);
    best
}

fn direct_exec(ls: &Vec<Vec<char>>, ci: usize) -> (r: Vec<Vec<char>>)
    ensures
        views(r@) == direct(views(ls@), ci as nat),
{
    let ghost v = views(ls@);
    let mut out: Vec<Vec<char>> = Vec::new();
    let mut i: usize = 0;
    while i < ls.len()
        invariant
            i <= ls.len(),
            v == views(ls@),
            views(out@) == direct(v.take(i as int), ci as nat),
        decreases ls.len() - i,
    {
        assert(v.take(i + 1).drop_last() =~= v.take(i as int));
        assert(v.take(i + 1).last() == ls@[i as int]@);
        if !is_blank(&ls[i]) && indent_of(&ls[i]) == ci {
            let t = trimmed(&ls[i]);
            let ghost before = views(out@);
            out.push(t);
            assert(views(out@) =~= before.push(t@));
        }
        i = i + 1;
    }
    assert(v.take(ls.len() as int) =~= v);
    out
}

fn all_items(ds: &Vec<Vec<char>>) -> (r: bool)
    ensures
        r == forall|d: int| 0 <= d < ds@.len() ==> is_item(#[trigger] views(ds@)[d]),
{
    let mut i: usize = 0;
    while i < ds.len()
        invariant
            i <= ds.len(),
            forall|d: int| 0 <= d < i ==> is_item(#[trigger] views(ds@)[d]),
        decreases ds.len() - i,
    {
        assert(views(ds@)[i as int] == ds@[i as int]@);
        if !is_item_exec(&ds[i]) {
            return false;
        }
        i = i + 1;
    }
    true
}

proof fn lemma_strip_dashes_is(s: Seq<char>, k: int)
    requires
        0 <= k <= s.len(),
        forall|j: int| 0 <= j < k ==> #[trigger] s[j] == '-',
        k == s.len() || s[k] != '-',
    ensures
        strip_dashes(s) == s.skip(k),
    decreases k,
{
    if k > 0 {
        let t = s.drop_first();
        assert forall|j: int| 0 <= j < k - 1 implies #[trigger] t[j] == '-' by {
            assert(t[j] == s[j + 1]);
        }
        if k - 1 < t.len() {
            assert(t[k - 1] == s[k]);
        }
        lemma_strip_dashes_is(t, k - 1);
        assert(t.skip(k - 1) =~= s.skip(k));
    } else {
        assert(s.skip(0) =~= s);
    }
}

fn strip_dashes_exec(s: &Vec<char>) -> (r: Vec<char>)
    ensures
        r@ == strip_dashes(s@),
{
    let mut k: usize = 0;
    while k < s.len() && s[k] == '-'
        invariant
            k <= s.len(),
            forall|j: int| 0 <= j < k ==> #[trigger] s@[j] == '-',
        decreases s.len() - k,
    {
        k = k + 1;
    }
    proof {
        lemma_strip_dashes_is(s@, k as int);
    }
    let r = slice(s, k, s.len());
    assert(r@ =~= s@.skip(k as int));
    r
}

fn item_values_exec(ds: &Vec<Vec<char>>) -> (r: Vec<Vec<char>>)
    ensures
        views(r@) == item_values(views(ds@)),
{
    let ghost v = views(ds@);
    let mut out: Vec<Vec<char>> = Vec::new();
    let mut i: usize = 0;
    while i < ds.len()
        invariant
            i <= ds.len(),
            v == views(ds@),
            views(out@) == item_values(v.take(i as int)),
        decreases ds.len() - i,
    {
        assert(v.take(i + 1).drop_last() =~= v.take(i as int));
        assert(v.take(i + 1).last() == ds@[i as int]@);
        let stripped = strip_dashes_exec(&ds[i]);
        let t = trimmed(&stripped);
        let value = scalar_exec(&t);
        if value.len() > 0 {
            let ghost before = views(out@);
            out.push(value);
            assert(views(out@) =~= before.push(value@));
        }
        i = i + 1;
    }
    assert(v.take(ds.len() as int) =~= v);
    out
}

fn block_lines_exec(ls: &Vec<Vec<char>>) -> (r: Vec<Vec<char>>)
    ensures
        views(r@) == block_lines(views(ls@)),
{
    let ghost v = views(ls@);
    let mut out: Vec<Vec<char>> = Vec::new();
    let mut i: usize = 0;
    while i < ls.len()
        invariant
            i <= ls.len(),
            v == views(ls@),
            views(out@) == block_lines(v.take(i as int)),
        decreases ls.len() - i,
    {
        assert(v.take(i + 1).drop_last() =~= v.take(i as int));
        assert(v.take(i + 1).last() == ls@[i as int]@);
        let t = trimmed(&ls[i]);
        if t.len() > 0 {
            let ghost before = views(out@);
            out.push(t);
            assert(views(out@) =~= before.push(t@));
        }
        i = i + 1;
    }
    assert(v.take(ls.len() as int) =~= v);
    out
}

fn yaml_fields(
    lines: &Vec<Vec<char>>,
    indent: usize,
    prefix: &Vec<char>,
    out: &mut Vec<(Vec<char>, Vec<char>)>,
)
    ensures
        field_views(final(out)@) == field_views(old(out)@) + yaml_from(
            views(lines@),
            indent as nat,
            prefix@,
            0,
        ),
    decreases lines@.len(),
{
    let ghost ls = views(lines@);
    let ghost start = field_views(out@);
    let mut i: usize = 0;
    assert(start + yaml_from(ls, indent as nat, prefix@, 0) =~= start + yaml_from(
        ls,
        indent as nat,
        prefix@,
        0,
    ));
    while i < lines.len()
        invariant
            i <= lines.len(),
            ls == views(lines@),
            field_views(out@) + yaml_from(ls, indent as nat, prefix@, i as int) == start
                + yaml_from(ls, indent as nat, prefix@, 0),
        decreases lines.len() - i,
    {
        let line = &lines[i];
        assert(ls[i as int] == line@);
        let body = trimmed(line);
        if body.len() == 0 || body[0] == '#' || indent_of(line) != indent {
            i = i + 1;
            continue ;
        }
        match yaml_pair_exec(&body) {
            None => {
                i = i + 1;
            },
            Some((k, rest)) => {
                let ghost before = field_views(out@);
                let end = block_end_exec(lines, indent, i + 1);
                let children = sub_lines(lines, i + 1, end);
                let mut key = slice(prefix, 0, prefix.len());
                assert(key@ =~= prefix@);
                let uk = unquote_exec(&k);
                extend(&mut key, &uk);
                let value = trimmed(&rest);
                let is_block = value.len() > 0 && (value[0] == '|' || value[0] == '>');
                if value.len() > 0 && !is_block {
                    let sv = scalar_exec(&value);
                    out.push((key, sv));
                    assert(field_views(out@) =~= before.push((key@, sv@)));
                } else if is_block {
                    let bl = block_lines_exec(&children);
                    let text = join_vec(&bl, &chars_of(" "));
                    out.push((key, text));
                    assert(field_views(out@) =~= before.push((key@, text@)));
                } else {
                    match min_indent_exec(&children) {
                        None => {
                            let empty: Vec<char> = Vec::new();
                            out.push((key, empty));
                            assert(field_views(out@) =~= before.push((key@, empty@)));
                            assert(empty@ =~= Seq::<char>::empty());
                        },
                        Some(ci) => {
                            let ds = direct_exec(&children, ci);
                            if all_items(&ds) {
                                let values = item_values_exec(&ds);
                                let joined = join_vec(&values, &comma_space());
                                out.push((key, joined));
                                assert(field_views(out@) =~= before.push((key@, joined@)));
                            } else {
                                let mut p = key;
                                p.push('.');
                                yaml_fields(&children, ci, &p, out);
                            }
                        },
                    }
                }
                i = end;
            },
        }
    }
}

// ---------------------------------------------------------------------------------------------
// TOML
// ---------------------------------------------------------------------------------------------
/// `s` without `[` and `]` at either end: `trim_matches(['[', ']'])`.
pub open spec fn strip_brackets(s: Seq<char>) -> Seq<char>
    decreases s.len(),
{
    if s.len() > 0 && (s[0] == '[' || s[0] == ']') {
        strip_brackets(s.drop_first())
    } else if s.len() > 0 && (s.last() == '[' || s.last() == ']') {
        strip_brackets(s.drop_last())
    } else {
        s
    }
}

fn strip_brackets_exec(s: &Vec<char>) -> (r: Vec<char>)
    ensures
        r@ == strip_brackets(s@),
{
    let mut lo: usize = 0;
    let mut hi: usize = s.len();
    assert(s@.subrange(0, s.len() as int) =~= s@);
    while lo < hi && (s[lo] == '[' || s[lo] == ']' || s[hi - 1] == '[' || s[hi - 1] == ']')
        invariant
            lo <= hi <= s.len(),
            strip_brackets(s@) == strip_brackets(s@.subrange(lo as int, hi as int)),
        decreases hi - lo,
    {
        let ghost t = s@.subrange(lo as int, hi as int);
        if s[lo] == '[' || s[lo] == ']' {
            assert(t[0] == s@[lo as int]);
            assert(t.drop_first() =~= s@.subrange(lo + 1, hi as int));
            lo = lo + 1;
        } else {
            assert(t[0] == s@[lo as int]);
            assert(t.last() == s@[hi - 1]);
            assert(t.drop_last() =~= s@.subrange(lo as int, hi - 1));
            hi = hi - 1;
        }
    }
    assert(s@.subrange(0, s.len() as int) =~= s@);
    slice(s, lo, hi)
}

/// A value that opens an array without closing it on the same line takes the following
/// lines, trimmed and joined with spaces, until it closes or the lines run out.
pub open spec fn toml_value(lines: Seq<Seq<char>>, v: Seq<char>, j: int) -> (Seq<char>, int)
    decreases lines.len() - j,
{
    if v.len() > 0 && v[0] == '[' && !(v.last() == ']') && 0 <= j < lines.len() {
        toml_value(lines, v.push(' ') + trim(lines[j]), j + 1)
    } else {
        (v, j)
    }
}

/// Fields of the TOML in `lines` from line `i` on, under the table `prefix`.
pub open spec fn toml_from(lines: Seq<Seq<char>>, prefix: Seq<char>, i: int) -> Seq<Field>
    decreases lines.len() - i,
{
    if i < 0 || i >= lines.len() {
        seq![]
    } else {
        let body = trim(lines[i]);
        if body.len() == 0 || body[0] == '#' {
            toml_from(lines, prefix, i + 1)
        } else if body[0] == '[' && body.last() == ']' {
            let name = trim(strip_brackets(body));
            toml_from(lines, if name.len() == 0 { seq![] } else { name.push('.') }, i + 1)
        } else {
            match find_char_from(body, '=', 0) {
                None => toml_from(lines, prefix, i + 1),
                Some(at) => {
                    proof {
                        lemma_toml_value(lines, trim(body.skip(at + 1)), i + 1);
                    }
                    let (value, j) = toml_value(lines, trim(body.skip(at + 1)), i + 1);
                    seq![(prefix + unquote(body.take(at)), scalar(value))] + toml_from(
                        lines,
                        prefix,
                        j,
                    )
                },
            }
        }
    }
}

pub proof fn lemma_toml_value(lines: Seq<Seq<char>>, v: Seq<char>, j: int)
    requires
        0 <= j,
    ensures
        j <= toml_value(lines, v, j).1,
        j <= lines.len() ==> toml_value(lines, v, j).1 <= lines.len(),
    decreases lines.len() - j,
{
    if v.len() > 0 && v[0] == '[' && !(v.last() == ']') && 0 <= j < lines.len() {
        lemma_toml_value(lines, v.push(' ') + trim(lines[j]), j + 1);
    }
}

fn toml_fields(lines: &Vec<Vec<char>>, out: &mut Vec<(Vec<char>, Vec<char>)>)
    ensures
        field_views(final(out)@) == field_views(old(out)@) + toml_from(
            views(lines@),
            Seq::<char>::empty(),
            0,
        ),
{
    let ghost ls = views(lines@);
    let ghost start = field_views(out@);
    let mut prefix: Vec<char> = Vec::new();
    let mut i: usize = 0;
    assert(prefix@ =~= Seq::<char>::empty());
    while i < lines.len()
        invariant
            i <= lines.len(),
            ls == views(lines@),
            field_views(out@) + toml_from(ls, prefix@, i as int) == start + toml_from(
                ls,
                Seq::<char>::empty(),
                0,
            ),
        decreases lines.len() - i,
    {
        assert(ls[i as int] == lines@[i as int]@);
        let body = trimmed(&lines[i]);
        let n = body.len();
        if n == 0 || body[0] == '#' {
            i = i + 1;
            continue ;
        }
        if body[0] == '[' && body[n - 1] == ']' {
            let stripped = strip_brackets_exec(&body);
            let name = trimmed(&stripped);
            if name.len() == 0 {
                prefix = Vec::new();
                assert(prefix@ =~= Seq::<char>::empty());
            } else {
                prefix = name;
                prefix.push('.');
            }
            i = i + 1;
            continue ;
        }
        match find_char(&body, '=', 0) {
            None => {
                i = i + 1;
            },
            Some(at) => {
                proof {
                    lemma_find_char_from(body@, '=', 0);
                }
                let after = slice(&body, at + 1, body.len());
                assert(after@ =~= body@.skip(at + 1));
                let mut value = trimmed(&after);
                let mut j = i + 1;
                proof {
                    lemma_toml_value(ls, value@, j as int);
                }
                while value.len() > 0 && value[0] == '[' && !(value[value.len() - 1] == ']') && j
                    < lines.len()
                    invariant
                        i < j <= lines.len(),
                        ls == views(lines@),
                        toml_value(ls, trim(body@.skip(at + 1)), i + 1) == toml_value(
                            ls,
                            value@,
                            j as int,
                        ),
                    decreases lines.len() - j,
                {
                    value.push(' ');
                    let t = trimmed(&lines[j]);
                    assert(ls[j as int] == lines@[j as int]@);
                    extend(&mut value, &t);
                    j = j + 1;
                }
                let head = slice(&body, 0, at);
                let mut key = slice(&prefix, 0, prefix.len());
                assert(key@ =~= prefix@);
                let uk = unquote_exec(&head);
                extend(&mut key, &uk);
                let sv = scalar_exec(&value);
                let ghost before = field_views(out@);
                out.push((key, sv));
                assert(field_views(out@) =~= before.push((key@, sv@)));
                assert(seq![(key@, sv@)] + toml_from(ls, prefix@, j as int) =~= toml_from(
                    ls,
                    prefix@,
                    i as int,
                ));
                i = j;
            },
        }
    }
}

/// The lines of `text` as character vectors.
pub fn text_lines(text: &str) -> (r: Vec<Vec<char>>)
    ensures
        views(r@) == lines_of(text@),
{
    let cs = chars_of(text);
    split_lines(&cs)
}

/// The fields of front matter in `format` written as `text`.
pub open spec fn fields_spec(format: MetaFormat, text: Seq<char>) -> Seq<Field> {
    match format {
        MetaFormat::Yaml => yaml_from(lines_of(text), 0, seq![], 0),
        MetaFormat::Toml => toml_from(lines_of(text), seq![], 0),
    }
}

fn to_strings(fs: &Vec<(Vec<char>, Vec<char>)>) -> (r: Vec<(String, String)>)
    ensures
        string_field_views(r@) == field_views(fs@),
{
    let mut out: Vec<(String, String)> = Vec::new();
    let mut i: usize = 0;
    while i < fs.len()
        invariant
            i <= fs.len(),
            string_field_views(out@) == field_views(fs@).take(i as int),
        decreases fs.len() - i,
    {
        let k = string_of(&fs[i].0);
        let v = string_of(&fs[i].1);
        let ghost before = string_field_views(out@);
        out.push((k, v));
        assert(string_field_views(out@) =~= before.push((k@, v@)));
        assert(field_views(fs@).take(i + 1) =~= field_views(fs@).take(i as int).push(
            (fs@[i as int].0@, fs@[i as int].1@),
        ));
        i = i + 1;
    }
    assert(field_views(fs@).take(fs.len() as int) =~= field_views(fs@));
    out
}

impl FrontMatter {
    /// The front matter as `(key, value)` pairs in source order. Nested YAML maps and TOML
    /// tables give dotted keys, lists give their items joined by `, `.
    pub fn fields(&self) -> (r: Vec<(String, String)>)
        ensures
            string_field_views(r@) == fields_spec(self.format, self.text@),
    {
        let lines = text_lines(self.text.as_str());
        let mut out: Vec<(Vec<char>, Vec<char>)> = Vec::new();
        match self.format {
            MetaFormat::Yaml => {
                let prefix: Vec<char> = Vec::new();
                yaml_fields(&lines, 0, &prefix, &mut out);
                assert(prefix@ =~= Seq::<char>::empty());
            },
            MetaFormat::Toml => toml_fields(&lines, &mut out),
        }
        assert(field_views(out@) =~= fields_spec(self.format, self.text@));
        to_strings(&out)
    }

    /// The keys of `fields`, in the same order.
    pub fn keys(&self) -> (r: Vec<String>)
        ensures
            r@.len() == fields_spec(self.format, self.text@).len(),
            forall|i: int|
                0 <= i < r@.len() ==> #[trigger] r@[i]@ == fields_spec(self.format, self.text@)[i].0,
    {
        let fields = self.fields();
        let mut out: Vec<String> = Vec::new();
        let mut i: usize = 0;
        while i < fields.len()
            invariant
                i <= fields.len(),
                out@.len() == i,
                string_field_views(fields@) == fields_spec(self.format, self.text@),
                forall|j: int| 0 <= j < i ==> #[trigger] out@[j]@ == fields@[j].0@,
            decreases fields.len() - i,
        {
            out.push(fields[i].0.clone());
            i = i + 1;
        }
        assert forall|j: int| 0 <= j < out@.len() implies #[trigger] out@[j]@ == fields_spec(
            self.format,
            self.text@,
        )[j].0 by {
            assert(string_field_views(fields@)[j] == (fields@[j].0@, fields@[j].1@));
        }
        out
    }
}

} // verus!
