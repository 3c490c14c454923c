//! GitHub style heading anchors.
use vstd::prelude::*;

use crate::text::{
    ascii_lower, chars_eq, chars_of, decimal, decimal_of, extend, is_alphanumeric, is_ws, lead_ws,
    string_of, to_lowercase, trim, trim_start, trimmed, unicode_alphanumeric, unicode_lowercase,
};

verus! {

/// What one character of a heading becomes in its anchor: letters, digits, `_` and `-`
/// lowercased, a space a `-`, anything else dropped.
pub open spec fn slug_char(c: char) -> Seq<char> {
    if (c as u32) < 128 {
        if ascii_alnum(c) || c == '_' || c == '-' {
            seq![ascii_lower(c)]
        } else if c == ' ' {
            seq!['-']
        } else {
            seq![]
        }
    } else if unicode_alphanumeric(c) {
        unicode_lowercase(c)
    } else {
        seq![]
    }
}

/// An ASCII letter or digit.
pub open spec fn ascii_alnum(c: char) -> bool {
    ('a' <= c && c <= 'z') || ('A' <= c && c <= 'Z') || ('0' <= c && c <= '9')
}

/// A character an anchor of ASCII text is made of: a lowercase letter, a digit, `_` or `-`.
pub open spec fn anchor_char(c: char) -> bool {
    ('a' <= c && c <= 'z') || ('0' <= c && c <= '9') || c == '_' || c == '-'
}

proof fn lemma_slug_of_ascii(s: Seq<char>)
    requires
        forall|i: int| 0 <= i < s.len() ==> (#[trigger] s[i] as u32) < 128,
    ensures
        slug_of(s).len() <= s.len(),
        forall|i: int| 0 <= i < slug_of(s).len() ==> anchor_char(#[trigger] slug_of(s)[i]),
    decreases s.len(),
{
    if s.len() > 0 {
        assert forall|i: int| 0 <= i < s.drop_last().len() implies (#[trigger] s.drop_last()[i] as u32)
            < 128 by {
            assert(s.drop_last()[i] == s[i]);
        }
        lemma_slug_of_ascii(s.drop_last());
        let c = s.last();
        assert(s[s.len() - 1] == c);
        if ascii_alnum(c) || c == '_' || c == '-' {
            assert(anchor_char(ascii_lower(c)));
        }
    }
}

proof fn lemma_slug_of_anchor(r: Seq<char>)
    requires
        forall|i: int| 0 <= i < r.len() ==> anchor_char(#[trigger] r[i]),
    ensures
        slug_of(r) == r,
    decreases r.len(),
{
    if r.len() > 0 {
        assert forall|i: int| 0 <= i < r.drop_last().len() implies anchor_char(#[trigger] r.drop_last()[i]) by {
            assert(r.drop_last()[i] == r[i]);
        }
        lemma_slug_of_anchor(r.drop_last());
        let c = r.last();
        assert(anchor_char(r[r.len() - 1]));
        assert((c as u32) < 128 && (ascii_alnum(c) || c == '_' || c == '-') && ascii_lower(c) == c);
        assert(slug_of(r) =~= r.drop_last() + seq![c]);
    }
}

/// A heading of ASCII text gets an anchor of lowercase letters, digits, `_` and `-`, no
/// longer than its trimmed text, whose own slug is itself.
pub proof fn law_ascii_anchors_are_plain(text: Seq<char>)
    requires
        forall|i: int| 0 <= i < text.len() ==> (#[trigger] text[i] as u32) < 128,
    ensures
        forall|i: int| 0 <= i < slug_spec(text).len() ==> anchor_char(#[trigger] slug_spec(text)[i]),
        slug_spec(text).len() <= trim(text).len(),
        slug_spec(slug_spec(text)) == slug_spec(text),
{
    let t = trim(text);
    crate::text::lemma_lead_ws_bound(text);
    crate::text::lemma_trail_ws_bound(trim_start(text));
    assert forall|i: int| 0 <= i < t.len() implies (#[trigger] t[i] as u32) < 128 by {
        assert(t[i] == text[i + lead_ws(text)]);
    }
    lemma_slug_of_ascii(t);
    let r = slug_spec(text);
    lemma_slug_of_anchor(r);
    assert forall|j: int| 0 <= j < r.len() implies !is_ws(#[trigger] r[j]) by {
        assert(anchor_char(r[j]));
    }
    if r.len() > 0 {
        assert(!is_ws(r[0]));
        assert(!is_ws(r[r.len() - 1]));
    }
    crate::text::lemma_lead_ws_is(r, 0);
    assert(trim_start(r) =~= r);
    crate::text::lemma_trail_ws_is(r, 0);
    assert(trim(r) =~= r);
}

pub open spec fn slug_of(s: Seq<char>) -> Seq<char>
    decreases s.len(),
{
    if s.len() == 0 {
        seq![]
    } else {
        slug_of(s.drop_last()) + slug_char(s.last())
    }
}

/// The anchor GitHub gives a heading with text `text`.
pub open spec fn slug_spec(text: Seq<char>) -> Seq<char> {
    slug_of(trim(text))
}

fn slug_chars(text: &str) -> (r: Vec<char>)
    ensures
        r@ == slug_spec(text@),
{
    let all = chars_of(text);
    let t = trimmed(&all);
    let mut out: Vec<char> = Vec::new();
    let mut i: usize = 0;
    while i < t.len()
        invariant
            i <= t.len(),
            out@ == slug_of(t@.take(i as int)),
        decreases t.len() - i,
    {
        let c = t[i];
        assert(t@.take(i + 1).drop_last() =~= t@.take(i as int));
        if is_alphanumeric(c) || c == '_' || c == '-' {
            let lower = to_lowercase(c);
            extend(&mut out, &lower);
        } else if c == ' ' {
            out.push('-');
        }
        i = i + 1;
        assert(out@ =~= slug_of(t@.take(i as int)));
    }
    assert(t@.take(t.len() as int) =~= t@);
    out
}

/// The anchor of a heading: trimmed, lowercased, spaces to `-`, punctuation dropped.
pub fn slug(text: &str) -> (r: String)
    ensures
        r@ == slug_spec(text@),
{
    let v = slug_chars(text);
    string_of(&v)
}

/// Hands out anchors that are unique within one document.
#[derive(Debug)]
pub struct Slugger {
    seen: Vec<(String, usize)>,
}

/// The index of the first entry for `base`.
pub open spec fn first_entry(entries: Seq<(String, usize)>, base: Seq<char>, from: int) -> Option<
    int,
>
    decreases entries.len() - from,
{
    if from < 0 || from >= entries.len() {
        None
    } else if entries[from].0@ == base {
        Some(from)
    } else {
        first_entry(entries, base, from + 1)
    }
}

impl Slugger {
    /// Whether the anchor `a` was handed out.
    pub closed spec fn handed(&self, a: Seq<char>) -> bool {
        first_entry(self.seen@, a, 0) is Some
    }

    /// How many times a slug handed out as an anchor was asked for again, so far (0 for one
    /// never handed out).
    pub closed spec fn count_of(&self, base: Seq<char>) -> nat {
        match first_entry(self.seen@, base, 0) {
            Some(k) => self.seen@[k].1 as nat,
            None => 0,
        }
    }

    /// How many anchors were handed out.
    pub closed spec fn size(&self) -> nat {
        self.seen@.len()
    }

    /// The anchor `base` gets with the number `count`: `base` itself for 0, else `base-count`.
    pub open spec fn numbered(base: Seq<char>, count: nat) -> Seq<char> {
        if count == 0 {
            base
        } else {
            base + seq!['-'] + decimal(count)
        }
    }

    fn find_entry(&self, base: &String) -> (r: Option<usize>)
        ensures
            r matches Some(k) ==> first_entry(self.seen@, base@, 0) == Some(k as int),
            r is None ==> first_entry(self.seen@, base@, 0) is None,
    {
        let mut k: usize = 0;
        while k < self.seen.len()
            invariant
                k <= self.seen.len(),
                first_entry(self.seen@, base@, 0) == first_entry(self.seen@, base@, k as int),
            decreases self.seen.len() - k,
        {
            let same = self.seen[k].0 == *base;
            if same {
                return Some(k);
            }
            assert(self.seen@[k as int].0@ != base@);
            k = k + 1;
        }
        None
    }

    pub fn new() -> (r: Self)
        ensures
            forall|b: Seq<char>| !r.handed(b) && r.count_of(b) == 0,
            r.size() == 0,
    {
        Slugger { seen: Vec::new() }
    }

    /// The anchor for a heading, as GitHub gives it: its slug when no anchor is that yet, else
    /// the slug with `-1`, `-2`, ... added, counting on from where that slug's count stands and
    /// skipping anchors already handed out. No anchor is handed out twice.
    pub fn unique(&mut self, text: &str) -> (r: String)
        requires
            old(self).count_of(slug_spec(text@)) + old(self).size() + 1 < usize::MAX,
        ensures
            !old(self).handed(r@),
            forall|a: Seq<char>| #[trigger] final(self).handed(a) == (old(self).handed(a) || a == r@),
            final(self).size() == old(self).size() + 1,
            !old(self).handed(slug_spec(text@)) ==> r@ == slug_spec(text@)
                && final(self).count_of(r@) == 0,
            old(self).handed(slug_spec(text@)) ==> exists|n: nat|
                #![trigger Self::numbered(slug_spec(text@), n)]
                n > old(self).count_of(slug_spec(text@)) && r@ == Self::numbered(slug_spec(text@), n)
                    && (forall|m: nat|
                    old(self).count_of(slug_spec(text@)) < m < n ==> old(self).handed(
                        #[trigger] Self::numbered(slug_spec(text@), m),
                    )) && final(self).count_of(slug_spec(text@)) == n && final(self).count_of(r@)
                    == 0,
            forall|a: Seq<char>|
                a != slug_spec(text@) && a != r@ ==> #[trigger] final(self).count_of(a)
                    == old(self).count_of(a),
    {
        let base = slug(text);
        let ghost b = base@;
        let ghost entries = self.seen@;
        let found = self.find_entry(&base);
        proof {
            lemma_first_entry(entries, b, 0);
        }
        match found {
            None => {
                let out = base.clone();
                self.seen.push((base, 0));
                proof {
                    lemma_first_entry_push(entries, b, 0);
                    assert forall|a: Seq<char>| #[trigger] self.handed(a) == (old(self).handed(a)
                        || a == out@) by {
                        if a != b {
                            assert(first_entry(self.seen@, a, 0) == first_entry(entries, a, 0));
                        }
                    }
                    assert forall|a: Seq<char>| a != b implies #[trigger] self.count_of(a)
                        == old(self).count_of(a) by {
                        match first_entry(entries, a, 0) {
                            Some(m) => {
                                lemma_first_entry(entries, a, 0);
                                assert(self.seen@[m] == entries[m]);
                            },
                            None => {},
                        }
                    }
                }
                out
            },
            Some(k) => {
                let c = self.seen[k].1;
                let mut n: usize = c + 1;
                let ghost size = entries.len();
                let mut cand = Self::numbered_exec(&base, n);
                let mut at = self.find_entry(&cand);
                while at.is_some()
                    invariant
                        base@ == b,
                        self.seen@ == entries,
                        entries.len() == size,
                        first_entry(entries, b, 0) == Some(k as int),
                        c == entries[k as int].1,
                        c + size + 1 < usize::MAX,
                        c < n <= c + size + 1,
                        cand@ == Self::numbered(b, n as nat),
                        at is Some <==> first_entry(entries, cand@, 0) is Some,
                        forall|m: nat| c < m < n ==> first_entry(
                            entries,
                            #[trigger] Self::numbered(b, m),
                            0,
                        ) is Some,
                    decreases c + size + 1 - n,
                {
                    proof {
                        lemma_all_taken(entries, b, c as nat, (n - c) as nat);
                    }
                    n = n + 1;
                    cand = Self::numbered_exec(&base, n);
                    at = self.find_entry(&cand);
                }
                let out = cand.clone();
                self.seen.set(k, (base, n));
                let ghost mid = self.seen@;
                proof {
                    lemma_first_entry_update(entries, b, k as int, n);
                }
                self.seen.push((cand, 0));
                proof {
                    lemma_decimal_pos(b, n as nat);
                    assert(out@ != b);
                    assert(first_entry(mid, out@, 0) == first_entry(entries, out@, 0));
                    lemma_first_entry_push(mid, out@, 0);
                    assert(first_entry(self.seen@, b, 0) == Some(k as int)) by {
                        lemma_first_entry(mid, b, 0);
                        lemma_first_entry(self.seen@, b, 0);
                        assert(self.seen@[k as int] == mid[k as int]);
                    }
                    assert forall|a: Seq<char>| #[trigger] self.handed(a) == (old(self).handed(a)
                        || a == out@) by {
                        if a != out@ && a != b {
                            assert(first_entry(self.seen@, a, 0) == first_entry(mid, a, 0));
                            assert(first_entry(mid, a, 0) == first_entry(entries, a, 0));
                        }
                    }
                    assert forall|a: Seq<char>| a != b && a != out@ implies #[trigger] self.count_of(a)
                        == old(self).count_of(a) by {
                        assert(first_entry(self.seen@, a, 0) == first_entry(mid, a, 0));
                        assert(first_entry(mid, a, 0) == first_entry(entries, a, 0));
                        match first_entry(entries, a, 0) {
                            Some(m) => {
                                lemma_first_entry(entries, a, 0);
                                assert(m != k);
                                assert(self.seen@[m] == entries[m]);
                            },
                            None => {},
                        }
                    }
                    let nn = n as nat;
                    assert(self.count_of(b) == nn);
                    assert(self.count_of(out@) == 0);
                    assert(out@ == Self::numbered(b, nn));
                }
                out
            },
        }
    }

    /// `base-n`.
    fn numbered_exec(base: &String, n: usize) -> (r: String)
        requires
            n > 0,
        ensures
            r@ == Self::numbered(base@, n as nat),
    {
        let mut v = chars_of(base.as_str());
        v.push('-');
        extend(&mut v, &decimal_of(n));
        string_of(&v)
    }
}

/// A numbered anchor is never its slug.
proof fn lemma_decimal_pos(b: Seq<char>, n: nat)
    requires
        n > 0,
    ensures
        Slugger::numbered(b, n) != b,
{
    lemma_decimal_len(n);
    assert(Slugger::numbered(b, n).len() > b.len());
}

/// The entries cannot hold `k` different numbered anchors of one slug unless there are at
/// least `k` of them.
proof fn lemma_all_taken(entries: Seq<(String, usize)>, b: Seq<char>, c: nat, k: nat)
    requires
        forall|m: nat| c < m <= c + k ==> first_entry(
            entries,
            #[trigger] Slugger::numbered(b, m),
            0,
        ) is Some,
    ensures
        k <= entries.len(),
{
    let x = vstd::set_lib::set_int_range(c as int + 1, (c + k + 1) as int);
    vstd::set_lib::lemma_int_range(c as int + 1, (c + k + 1) as int);
    let f = |m: int| Slugger::numbered(b, m as nat);
    let keys = entries.map_values(|e: (String, usize)| e.0@);
    assert(vstd::relations::injective_on(f, x)) by {
        assert forall|p: int, q: int| x.contains(p) && x.contains(q) && #[trigger] f(p) == #[trigger] f(q) implies p == q by {
            if p != q {
                law_repeated_slugs_get_new_anchors(b, p as nat, q as nat);
            }
        }
    }
    let y = x.map(f);
    vstd::set_lib::lemma_map_size(x, y, f);
    assert(y.subset_of(keys.to_set())) by {
        assert forall|a: Seq<char>| y.contains(a) implies keys.to_set().contains(a) by {
            let m = choose|m: int| x.contains(m) && f(m) == a;
            assert(first_entry(entries, Slugger::numbered(b, m as nat), 0) is Some);
            lemma_first_entry(entries, a, 0);
            let j = first_entry(entries, a, 0)->0;
            assert(keys[j] == a);
            assert(keys.contains(a));
        }
    }
    keys.lemma_cardinality_of_set();
    vstd::seq_lib::seq_to_set_is_finite(keys);
    vstd::set_lib::lemma_len_subset(y, keys.to_set());
}

pub proof fn lemma_first_entry(entries: Seq<(String, usize)>, base: Seq<char>, from: int)
    requires
        0 <= from,
    ensures
        first_entry(entries, base, from) matches Some(k) ==> from <= k < entries.len()
            && entries[k].0@ == base && forall|j: int| from <= j < k ==> entries[j].0@ != base,
        first_entry(entries, base, from) is None ==> forall|j: int|
            from <= j < entries.len() ==> entries[j].0@ != base,
    decreases entries.len() - from,
{
    if from < entries.len() && entries[from].0@ != base {
        lemma_first_entry(entries, base, from + 1);
    }
}

proof fn lemma_first_entry_same(a: Seq<(String, usize)>, c: Seq<(String, usize)>, b: Seq<char>)
    requires
        a.len() <= c.len(),
        forall|j: int| 0 <= j < a.len() ==> (#[trigger] c[j]).0@ == a[j].0@,
        first_entry(a, b, 0) is Some,
    ensures
        first_entry(c, b, 0) == first_entry(a, b, 0),
{
    lemma_first_entry(a, b, 0);
    lemma_first_entry(c, b, 0);
    let k = first_entry(a, b, 0)->0;
    assert(c[k].0@ == b);
    match first_entry(c, b, 0) {
        Some(m) => {
            if m < k {
                assert(a[m].0@ == c[m].0@);
            }
        },
        None => {},
    }
}

proof fn lemma_first_entry_update(
    entries: Seq<(String, usize)>,
    base: Seq<char>,
    k: int,
    count: usize,
)
    requires
        first_entry(entries, base, 0) == Some(k),
    ensures
        forall|v: String|
            v@ == base ==> first_entry(entries.update(k, (v, count)), base, 0) == Some(k),
        forall|v: String, b: Seq<char>|
            v@ == base && b != base ==> first_entry(entries.update(k, (v, count)), b, 0)
                == first_entry(entries, b, 0),
{
    lemma_first_entry(entries, base, 0);
    assert forall|v: String| v@ == base implies first_entry(entries.update(k, (v, count)), base, 0)
        == Some(k) by {
        let c = entries.update(k, (v, count));
        lemma_first_entry_same(entries, c, base);
    }
    assert forall|v: String, b: Seq<char>| v@ == base && b != base implies first_entry(
        entries.update(k, (v, count)),
        b,
        0,
    ) == first_entry(entries, b, 0) by {
        let c = entries.update(k, (v, count));
        assert forall|j: int| 0 <= j < c.len() implies (j < entries.len() && #[trigger] c[j].0@
            == entries[j].0@) || j == k by {}
        lemma_first_entry(entries, b, 0);
        lemma_first_entry(c, b, 0);
        match first_entry(entries, b, 0) {
            Some(m) => {
                assert(m != k);
                match first_entry(c, b, 0) {
                    Some(n) => {
                        if n < m {
                            assert(n != k);
                            assert(c[n].0@ == entries[n].0@);
                        }
                        if m < n {
                            assert(c[m].0@ == entries[m].0@);
                        }
                    },
                    None => {
                        assert(c[m].0@ == entries[m].0@);
                    },
                }
            },
            None => {
                match first_entry(c, b, 0) {
                    Some(n) => {
                        assert(n != k);
                        assert(c[n].0@ == entries[n].0@);
                    },
                    None => {},
                }
            },
        }
    }
}

proof fn lemma_first_entry_push(entries: Seq<(String, usize)>, base: Seq<char>, cnt: usize)
    requires
        first_entry(entries, base, 0) is None,
    ensures
        forall|v: String|
            v@ == base ==> first_entry(entries.push((v, cnt)), base, 0) == Some(
                entries.len() as int,
            ),
        forall|v: String, b: Seq<char>|
            v@ == base && b != base ==> first_entry(entries.push((v, cnt)), b, 0)
                == first_entry(entries, b, 0),
{
    lemma_first_entry(entries, base, 0);
    assert forall|v: String| v@ == base implies first_entry(entries.push((v, cnt)), base, 0)
        == Some(entries.len() as int) by {
        let c = entries.push((v, cnt));
        lemma_first_entry(c, base, 0);
        match first_entry(c, base, 0) {
            Some(n) => {
                if n < entries.len() {
                    assert(c[n] == entries[n]);
                }
            },
            None => {
                assert(c[entries.len() as int].0@ == base);
            },
        }
    }
    assert forall|v: String, b: Seq<char>| v@ == base && b != base implies first_entry(
        entries.push((v, cnt)),
        b,
        0,
    ) == first_entry(entries, b, 0) by {
        let c = entries.push((v, cnt));
        lemma_first_entry(entries, b, 0);
        lemma_first_entry(c, b, 0);
        match first_entry(entries, b, 0) {
            Some(m) => {
                assert(c[m] == entries[m]);
                match first_entry(c, b, 0) {
                    Some(n) => {
                        if n < m {
                            assert(c[n] == entries[n]);
                        }
                    },
                    None => {},
                }
            },
            None => {
                match first_entry(c, b, 0) {
                    Some(n) => {
                        if n < entries.len() {
                            assert(c[n] == entries[n]);
                        }
                    },
                    None => {},
                }
            },
        }
    }
}

impl Default for Slugger {
    fn default() -> (r: Self)
        ensures
            forall|b: Seq<char>| !r.handed(b) && r.count_of(b) == 0,
            r.size() == 0,
    {
        Slugger::new()
    }
}


proof fn lemma_decimal_len(n: nat)
    ensures
        decimal(n).len() >= 1,
        n >= 10 ==> decimal(n).len() >= 2,
    decreases n,
{
    if n >= 10 {
        lemma_decimal_len(n / 10);
    }
}

proof fn lemma_digit(a: nat, b: nat)
    requires
        a < 10,
        b < 10,
        (0x30 + a) as char == (0x30 + b) as char,
    ensures
        a == b,
{
    assert(((0x30 + a) as char) as u32 == 0x30 + a);
    assert(((0x30 + b) as char) as u32 == 0x30 + b);
}

proof fn lemma_decimal_injective(n: nat, m: nat)
    requires
        decimal(n) == decimal(m),
    ensures
        n == m,
    decreases n,
{
    lemma_decimal_len(n);
    lemma_decimal_len(m);
    if n < 10 && m < 10 {
        assert(decimal(n) == seq![(0x30 + n) as char]);
        assert(decimal(m) == seq![(0x30 + m) as char]);
        assert(decimal(n)[0] == (0x30 + n) as char);
        assert(decimal(m)[0] == (0x30 + m) as char);
        lemma_digit(n, m);
    } else if n >= 10 && m >= 10 {
        assert(decimal(n) == decimal(n / 10).push((0x30 + n % 10) as char));
        assert(decimal(m) == decimal(m / 10).push((0x30 + m % 10) as char));
        assert(decimal(n).last() == (0x30 + n % 10) as char);
        assert(decimal(m).last() == (0x30 + m % 10) as char);
        lemma_digit(n % 10, m % 10);
        assert(decimal(n).drop_last() =~= decimal(n / 10));
        assert(decimal(m).drop_last() =~= decimal(m / 10));
        lemma_decimal_injective(n / 10, m / 10);
    } else if n < 10 {
        assert(decimal(n).len() == 1);
    } else {
        assert(decimal(m).len() == 1);
    }
}

/// A heading seen again gets an anchor its slug was not given before: the anchors handed out
/// for one slug are all different.
pub proof fn law_repeated_slugs_get_new_anchors(base: Seq<char>, n: nat, m: nat)
    requires
        n != m,
    ensures
        Slugger::numbered(base, n) != Slugger::numbered(base, m),
{
    lemma_decimal_len(n);
    lemma_decimal_len(m);
    if n > 0 && m > 0 && Slugger::numbered(base, n) == Slugger::numbered(base, m) {
        let a = Slugger::numbered(base, n);
        let b = Slugger::numbered(base, m);
        assert(a.skip(base.len() as int + 1) =~= decimal(n));
        assert(b.skip(base.len() as int + 1) =~= decimal(m));
        lemma_decimal_injective(n, m);
    }
}

} // verus!
