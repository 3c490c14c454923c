//! Badges: recognising badge images, and reading their text and colors from the badge URL
//! or the SVG the service returns.
use vstd::prelude::*;

use crate::markdown::document::{Block, BlockKind, Definition, Document, Footnote, Inline, ListItem};
use crate::text::{
    chars_of, eq_lit, extend, find, find_at, find_char, find_char_from, find_from,
    hex_digit, hex_value, ascii_lower, lemma_find_char_from, lemma_find_from, lower_seq, lower_vec, occurs_at,
    replace_all, replace_vec, slice, split, split_once, split_vec, starts_with, starts_with_lit,
    string_of, strip_prefix, strip_prefix_lit, trim, trimmed, is_ws, lead_ws, trail_ws, before_char, before_char_vec, views, replace_lit, find_lit, sub_lines, join, join_vec,
};

verus! {

pub type Rgb = (u8, u8, u8);

/// What is known of each badge, by its URL.
pub type Badges = std::collections::HashMap<String, BadgeText>;

/// What a badge says: its label, an optional value, and the colors of the two halves.
#[derive(Debug, Clone, PartialEq, Eq)]
pub struct BadgeText {
    pub label: String,
    pub value: Option<String>,
    pub color: Option<Rgb>,
    pub label_color: Option<Rgb>,
}

impl Default for BadgeText {
    fn default() -> (r: Self)
        ensures
            r.label@ == Seq::<char>::empty(),
            r.value is None,
            r.color is None,
            r.label_color is None,
    {
        BadgeText { label: String::new(), value: None, color: None, label_color: None }
    }
}

// ---------------------------------------------------------------------------------------------
// Colors
// ---------------------------------------------------------------------------------------------
/// The hex digits of a named shields.io or CSS color.
pub open spec fn named_color(name: Seq<char>) -> Option<Seq<char>> {
    if name == "brightgreen"@ || name == "success"@ {
        Some("4c1"@)
    } else if name == "green"@ {
        Some("97ca00"@)
    } else if name == "yellow"@ {
        Some("dfb317"@)
    } else if name == "yellowgreen"@ {
        Some("a4a61d"@)
    } else if name == "orange"@ || name == "important"@ {
        Some("fe7d37"@)
    } else if name == "red"@ || name == "critical"@ {
        Some("e05d44"@)
    } else if name == "blue"@ || name == "informational"@ {
        Some("007ec6"@)
    } else if name == "grey"@ || name == "gray"@ {
        Some("555"@)
    } else if name == "lightgrey"@ || name == "lightgray"@ || name == "inactive"@ {
        Some("9f9f9f"@)
    } else if name == "black"@ {
        Some("000"@)
    } else if name == "white"@ {
        Some("fff"@)
    } else if name == "silver"@ {
        Some("c0c0c0"@)
    } else if name == "darkgrey"@ || name == "darkgray"@ || name == "dimgrey"@ || name == "dimgray"@ {
        Some("696969"@)
    } else if name == "navy"@ {
        Some("000080"@)
    } else if name == "darkblue"@ {
        Some("00008b"@)
    } else if name == "royalblue"@ {
        Some("4169e1"@)
    } else if name == "dodgerblue"@ {
        Some("1e90ff"@)
    } else if name == "deepskyblue"@ {
        Some("00bfff"@)
    } else if name == "skyblue"@ {
        Some("87ceeb"@)
    } else if name == "steelblue"@ {
        Some("4682b4"@)
    } else if name == "cornflowerblue"@ {
        Some("6495ed"@)
    } else if name == "lightblue"@ {
        Some("add8e6"@)
    } else if name == "teal"@ {
        Some("008080"@)
    } else if name == "cyan"@ || name == "aqua"@ {
        Some("00ffff"@)
    } else if name == "turquoise"@ {
        Some("40e0d0"@)
    } else if name == "darkgreen"@ {
        Some("006400"@)
    } else if name == "forestgreen"@ {
        Some("228b22"@)
    } else if name == "seagreen"@ {
        Some("2e8b57"@)
    } else if name == "limegreen"@ {
        Some("32cd32"@)
    } else if name == "lime"@ {
        Some("00ff00"@)
    } else if name == "lightgreen"@ {
        Some("90ee90"@)
    } else if name == "olive"@ {
        Some("808000"@)
    } else if name == "gold"@ {
        Some("ffd700"@)
    } else if name == "goldenrod"@ {
        Some("daa520"@)
    } else if name == "khaki"@ {
        Some("f0e68c"@)
    } else if name == "darkorange"@ {
        Some("ff8c00"@)
    } else if name == "orangered"@ {
        Some("ff4500"@)
    } else if name == "tomato"@ {
        Some("ff6347"@)
    } else if name == "coral"@ {
        Some("ff7f50"@)
    } else if name == "salmon"@ {
        Some("fa8072"@)
    } else if name == "crimson"@ {
        Some("dc143c"@)
    } else if name == "firebrick"@ {
        Some("b22222"@)
    } else if name == "darkred"@ {
        Some("8b0000"@)
    } else if name == "maroon"@ {
        Some("800000"@)
    } else if name == "brown"@ {
        Some("a52a2a"@)
    } else if name == "chocolate"@ {
        Some("d2691e"@)
    } else if name == "sienna"@ {
        Some("a0522d"@)
    } else if name == "pink"@ {
        Some("ffc0cb"@)
    } else if name == "hotpink"@ {
        Some("ff69b4"@)
    } else if name == "deeppink"@ {
        Some("ff1493"@)
    } else if name == "magenta"@ || name == "fuchsia"@ {
        Some("ff00ff"@)
    } else if name == "purple"@ {
        Some("800080"@)
    } else if name == "indigo"@ {
        Some("4b0082"@)
    } else if name == "violet"@ {
        Some("ee82ee"@)
    } else if name == "blueviolet"@ {
        Some("8a2be2"@)
    } else if name == "orchid"@ {
        Some("da70d6"@)
    } else if name == "plum"@ {
        Some("dda0dd"@)
    } else if name == "lavender"@ {
        Some("e6e6fa"@)
    } else {
        None
    }
}

fn named_color_exec(name: &Vec<char>) -> (r: Option<&'static str>)
    ensures
        r is None ==> named_color(name@) is None,
        r matches Some(h) ==> named_color(name@) == Some(h@),
{
    if eq_lit(name, "brightgreen") || eq_lit(name, "success") {
        Some("4c1")
    } else if eq_lit(name, "green") {
        Some("97ca00")
    } else if eq_lit(name, "yellow") {
        Some("dfb317")
    } else if eq_lit(name, "yellowgreen") {
        Some("a4a61d")
    } else if eq_lit(name, "orange") || eq_lit(name, "important") {
        Some("fe7d37")
    } else if eq_lit(name, "red") || eq_lit(name, "critical") {
        Some("e05d44")
    } else if eq_lit(name, "blue") || eq_lit(name, "informational") {
        Some("007ec6")
    } else if eq_lit(name, "grey") || eq_lit(name, "gray") {
        Some("555")
    } else if eq_lit(name, "lightgrey") || eq_lit(name, "lightgray") || eq_lit(name, "inactive") {
        Some("9f9f9f")
    } else if eq_lit(name, "black") {
        Some("000")
    } else if eq_lit(name, "white") {
        Some("fff")
    } else if eq_lit(name, "silver") {
        Some("c0c0c0")
    } else if eq_lit(name, "darkgrey") || eq_lit(name, "darkgray") || eq_lit(name, "dimgrey") || eq_lit(name, "dimgray") {
        Some("696969")
    } else if eq_lit(name, "navy") {
        Some("000080")
    } else if eq_lit(name, "darkblue") {
        Some("00008b")
    } else if eq_lit(name, "royalblue") {
        Some("4169e1")
    } else if eq_lit(name, "dodgerblue") {
        Some("1e90ff")
    } else if eq_lit(name, "deepskyblue") {
        Some("00bfff")
    } else if eq_lit(name, "skyblue") {
        Some("87ceeb")
    } else if eq_lit(name, "steelblue") {
        Some("4682b4")
    } else if eq_lit(name, "cornflowerblue") {
        Some("6495ed")
    } else if eq_lit(name, "lightblue") {
        Some("add8e6")
    } else if eq_lit(name, "teal") {
        Some("008080")
    } else if eq_lit(name, "cyan") || eq_lit(name, "aqua") {
        Some("00ffff")
    } else if eq_lit(name, "turquoise") {
        Some("40e0d0")
    } else if eq_lit(name, "darkgreen") {
        Some("006400")
    } else if eq_lit(name, "forestgreen") {
        Some("228b22")
    } else if eq_lit(name, "seagreen") {
        Some("2e8b57")
    } else if eq_lit(name, "limegreen") {
        Some("32cd32")
    } else if eq_lit(name, "lime") {
        Some("00ff00")
    } else if eq_lit(name, "lightgreen") {
        Some("90ee90")
    } else if eq_lit(name, "olive") {
        Some("808000")
    } else if eq_lit(name, "gold") {
        Some("ffd700")
    } else if eq_lit(name, "goldenrod") {
        Some("daa520")
    } else if eq_lit(name, "khaki") {
        Some("f0e68c")
    } else if eq_lit(name, "darkorange") {
        Some("ff8c00")
    } else if eq_lit(name, "orangered") {
        Some("ff4500")
    } else if eq_lit(name, "tomato") {
        Some("ff6347")
    } else if eq_lit(name, "coral") {
        Some("ff7f50")
    } else if eq_lit(name, "salmon") {
        Some("fa8072")
    } else if eq_lit(name, "crimson") {
        Some("dc143c")
    } else if eq_lit(name, "firebrick") {
        Some("b22222")
    } else if eq_lit(name, "darkred") {
        Some("8b0000")
    } else if eq_lit(name, "maroon") {
        Some("800000")
    } else if eq_lit(name, "brown") {
        Some("a52a2a")
    } else if eq_lit(name, "chocolate") {
        Some("d2691e")
    } else if eq_lit(name, "sienna") {
        Some("a0522d")
    } else if eq_lit(name, "pink") {
        Some("ffc0cb")
    } else if eq_lit(name, "hotpink") {
        Some("ff69b4")
    } else if eq_lit(name, "deeppink") {
        Some("ff1493")
    } else if eq_lit(name, "magenta") || eq_lit(name, "fuchsia") {
        Some("ff00ff")
    } else if eq_lit(name, "purple") {
        Some("800080")
    } else if eq_lit(name, "indigo") {
        Some("4b0082")
    } else if eq_lit(name, "violet") {
        Some("ee82ee")
    } else if eq_lit(name, "blueviolet") {
        Some("8a2be2")
    } else if eq_lit(name, "orchid") {
        Some("da70d6")
    } else if eq_lit(name, "plum") {
        Some("dda0dd")
    } else if eq_lit(name, "lavender") {
        Some("e6e6fa")
    } else {
        None
    }
}

/// `s` without its leading `#`s.
pub open spec fn strip_hashes(s: Seq<char>) -> Seq<char>
    decreases s.len(),
{
    if s.len() > 0 && s[0] == '#' {
        strip_hashes(s.drop_first())
    } else {
        s
    }
}

fn strip_hashes_exec(s: &Vec<char>) -> (r: Vec<char>)
    ensures
        r@ == strip_hashes(s@),
{
    let mut k: usize = 0;
    assert(s@.skip(0) =~= s@);
    while k < s.len() && s[k] == '#'
        invariant
            k <= s.len(),
            strip_hashes(s@) == strip_hashes(s@.skip(k as int)),
        decreases s.len() - k,
    {
        assert(s@.skip(k as int).drop_first() =~= s@.skip(k + 1));
        k = k + 1;
    }
    let r = slice(s, k, s.len());
    assert(r@ =~= s@.skip(k as int));
    r
}

/// Every character as a hex digit, or `None` when one is not.
pub open spec fn hex_digits(h: Seq<char>) -> Option<Seq<u8>>
    decreases h.len(),
{
    if h.len() == 0 {
        Some(seq![])
    } else {
        match hex_digits(h.drop_last()) {
            None => None,
            Some(d) => match hex_value(h.last()) {
                Some(v) => Some(d.push(v)),
                None => None,
            },
        }
    }
}

/// Three digits (each doubled) or six digits as a color.
pub open spec fn rgb_of(d: Seq<u8>) -> Option<Rgb> {
    if d.len() == 3 {
        Some(((d[0] * 17) as u8, (d[1] * 17) as u8, (d[2] * 17) as u8))
    } else if d.len() == 6 {
        Some(
            ((d[0] * 16 + d[1]) as u8, (d[2] * 16 + d[3]) as u8, (d[4] * 16 + d[5]) as u8),
        )
    } else {
        None
    }
}

/// The color a badge names: a shields.io or CSS name, or 3 or 6 hex digits, with or without
/// `#`, in any case.
pub open spec fn color_spec(text: Seq<char>) -> Option<Rgb> {
    let name = lower_seq(strip_hashes(trim(text)));
    let hex = match named_color(name) {
        Some(h) => h,
        None => name,
    };
    match hex_digits(hex) {
        Some(d) => rgb_of(d),
        None => None,
    }
}

proof fn lemma_hex_digits_none(h: Seq<char>, i: int)
    requires
        0 <= i < h.len(),
        hex_value(h[i]) is None,
    ensures
        hex_digits(h) is None,
    decreases h.len(),
{
    if i < h.len() - 1 {
        assert(h.drop_last()[i] == h[i]);
        lemma_hex_digits_none(h.drop_last(), i);
    }
}

fn color_of(text: &Vec<char>) -> (r: Option<Rgb>)
    ensures
        r == color_spec(text@),
{
    let t = trimmed(text);
    let t = strip_hashes_exec(&t);
    let name = lower_vec(&t);
    let hex = match named_color_exec(&name) {
        Some(h) => chars_of(h),
        None => name,
    };
    let mut digits: Vec<u8> = Vec::new();
    let mut i: usize = 0;
    assert(hex@.take(0) =~= Seq::<char>::empty());
    while i < hex.len()
        invariant
            i <= hex.len(),
            hex_digits(hex@.take(i as int)) == Some(digits@),
            forall|j: int| 0 <= j < digits.len() ==> digits@[j] < 16,
            name@ == lower_seq(strip_hashes(trim(text@))),
            hex@ == (match named_color(name@) {
                Some(h) => h,
                None => name@,
            }),
        decreases hex.len() - i,
    {
        assert(hex@.take(i + 1).drop_last() =~= hex@.take(i as int));
        match hex_digit(hex[i]) {
            Some(v) => {
                digits.push(v);
            },
            None => {
                proof {
                    assert(hex@.take(i + 1)[i as int] == hex@[i as int]);
                    lemma_hex_digits_none(hex@.take(i + 1), i as int);
                    lemma_hex_digits_prefix_none(hex@, i + 1);
                }
                return None;
            },
        }
        i = i + 1;
    }
    assert(hex@.take(hex.len() as int) =~= hex@);
    if digits.len() == 3 {
        Some((digits[0] * 17, digits[1] * 17, digits[2] * 17))
    } else if digits.len() == 6 {
        Some((digits[0] * 16 + digits[1], digits[2] * 16 + digits[3], digits[4] * 16 + digits[5]))
    } else {
        None
    }
}

proof fn lemma_hex_digits_prefix_none(h: Seq<char>, n: int)
    requires
        0 <= n <= h.len(),
        hex_digits(h.take(n)) is None,
    ensures
        hex_digits(h) is None,
    decreases h.len() - n,
{
    if n < h.len() {
        assert(h.take(n + 1).drop_last() =~= h.take(n));
        lemma_hex_digits_prefix_none(h, n + 1);
    } else {
        assert(h.take(n) =~= h);
    }
}

/// The color `text` names, as badges write colors.
pub fn parse_color(text: &str) -> (r: Option<Rgb>)
    ensures
        r == color_spec(text@),
{
    let v = chars_of(text);
    color_of(&v)
}

/// The sixteen digits, as a color is written in hex.
pub open spec fn hex_chars() -> Seq<char> {
    seq!['0', '1', '2', '3', '4', '5', '6', '7', '8', '9', 'a', 'b', 'c', 'd', 'e', 'f']
}

/// A color written as `#` and six lowercase hex digits.
pub open spec fn hex_text(c: Rgb) -> Seq<char> {
    seq![
        '#',
        hex_chars()[c.0 as int / 16],
        hex_chars()[c.0 as int % 16],
        hex_chars()[c.1 as int / 16],
        hex_chars()[c.1 as int % 16],
        hex_chars()[c.2 as int / 16],
        hex_chars()[c.2 as int % 16],
    ]
}

proof fn lemma_hex_chars_read_back()
    ensures
        forall|v: int| 0 <= v < 16 ==> hex_value(#[trigger] hex_chars()[v]) == Some(v as u8),
{
    assert forall|v: int| 0 <= v < 16 implies hex_value(#[trigger] hex_chars()[v]) == Some(v as u8) by {
        assert(hex_value('0') == Some(0u8));
        assert(hex_value('9') == Some(9u8));
        assert(hex_value('a') == Some(10u8));
        assert(hex_value('f') == Some(15u8));
    }
}

proof fn lemma_no_name_is_hex(name: Seq<char>)
    requires
        forall|i: int| 0 <= i < name.len() ==> hex_value(#[trigger] name[i]) is Some,
    ensures
        named_color(name) is None,
{
        reveal_strlit("brightgreen");
        reveal_strlit("success");
        reveal_strlit("green");
        reveal_strlit("yellow");
        reveal_strlit("yellowgreen");
        reveal_strlit("orange");
        reveal_strlit("important");
        reveal_strlit("red");
        reveal_strlit("critical");
        reveal_strlit("blue");
        reveal_strlit("informational");
        reveal_strlit("grey");
        reveal_strlit("gray");
        reveal_strlit("lightgrey");
        reveal_strlit("lightgray");
        reveal_strlit("inactive");
        reveal_strlit("black");
        reveal_strlit("white");
        reveal_strlit("silver");
        reveal_strlit("darkgrey");
        reveal_strlit("darkgray");
        reveal_strlit("dimgrey");
        reveal_strlit("dimgray");
        reveal_strlit("navy");
        reveal_strlit("darkblue");
        reveal_strlit("royalblue");
        reveal_strlit("dodgerblue");
        reveal_strlit("deepskyblue");
        reveal_strlit("skyblue");
        reveal_strlit("steelblue");
        reveal_strlit("cornflowerblue");
        reveal_strlit("lightblue");
        reveal_strlit("teal");
        reveal_strlit("cyan");
        reveal_strlit("aqua");
        reveal_strlit("turquoise");
        reveal_strlit("darkgreen");
        reveal_strlit("forestgreen");
        reveal_strlit("seagreen");
        reveal_strlit("limegreen");
        reveal_strlit("lime");
        reveal_strlit("lightgreen");
        reveal_strlit("olive");
        reveal_strlit("gold");
        reveal_strlit("goldenrod");
        reveal_strlit("khaki");
        reveal_strlit("darkorange");
        reveal_strlit("orangered");
        reveal_strlit("tomato");
        reveal_strlit("coral");
        reveal_strlit("salmon");
        reveal_strlit("crimson");
        reveal_strlit("firebrick");
        reveal_strlit("darkred");
        reveal_strlit("maroon");
        reveal_strlit("brown");
        reveal_strlit("chocolate");
        reveal_strlit("sienna");
        reveal_strlit("pink");
        reveal_strlit("hotpink");
        reveal_strlit("deeppink");
        reveal_strlit("magenta");
        reveal_strlit("fuchsia");
        reveal_strlit("purple");
        reveal_strlit("indigo");
        reveal_strlit("violet");
        reveal_strlit("blueviolet");
        reveal_strlit("orchid");
        reveal_strlit("plum");
        reveal_strlit("lavender");
        assert(named_color(name) is None) by {
            if name.len() > 0 {
                assert(hex_value(name[0]) is Some);
            }
            if name.len() > 1 {
                assert(hex_value(name[1]) is Some);
            }
            if name.len() > 2 {
                assert(hex_value(name[2]) is Some);
            }
            if name.len() > 3 {
                assert(hex_value(name[3]) is Some);
            }
        }
}

/// A color written out in hex reads back as itself: `parse_color` of `#rrggbb` gives the
/// three bytes the digits spell.
pub proof fn law_hex_colors_read_back(c: Rgb)
    ensures
        color_spec(hex_text(c)) == Some(c),
{
    let t = hex_text(c);
    let d = t.drop_first();
    lemma_hex_chars_read_back();
    assert forall|i: int| 0 <= i < t.len() implies !is_ws(#[trigger] t[i]) by {
        if i > 0 {
            assert(hex_value(t[i]) is Some);
        }
    }
    assert(lead_ws(t) == 0);
    assert(t.skip(0) =~= t);
    assert(trail_ws(t) == 0);
    assert(t.take(t.len() as int) =~= t);
    assert(trim(t) == t);
    assert(strip_hashes(d) == d);
    assert(strip_hashes(t) == d);
    assert forall|i: int| 0 <= i < d.len() implies hex_value(#[trigger] d[i]) is Some by {
        assert(d[i] == t[i + 1]);
    }
    assert(lower_seq(d) =~= d);
    lemma_no_name_is_hex(d);
    let ds = seq![
        (c.0 / 16) as u8, (c.0 % 16) as u8, (c.1 / 16) as u8,
        (c.1 % 16) as u8, (c.2 / 16) as u8, (c.2 % 16) as u8,
    ];
    assert(d.drop_last().drop_last().drop_last().drop_last().drop_last().drop_last() =~= seq![]);
    reveal_with_fuel(hex_digits, 7);
    assert(hex_digits(d) == Some(ds));
    assert(rgb_of(ds) == Some(c));
}

/// The values of hex digits.
pub open spec fn digit_values(h: Seq<char>) -> Seq<u8> {
    h.map_values(|c: char| hex_value(c)->0)
}

proof fn lemma_hex_digits_all(h: Seq<char>)
    requires
        forall|i: int| 0 <= i < h.len() ==> hex_value(#[trigger] h[i]) is Some,
    ensures
        hex_digits(h) == Some(digit_values(h)),
    decreases h.len(),
{
    if h.len() > 0 {
        lemma_hex_digits_all(h.drop_last());
        assert(hex_value(h[h.len() - 1]) is Some);
        assert(digit_values(h.drop_last()).push(hex_value(h.last())->0) =~= digit_values(h));
    }
}

proof fn lemma_lower_hex_digit(c: char)
    requires
        hex_value(c) is Some,
    ensures
        hex_value(ascii_lower(c)) == hex_value(c),
{
    if 'A' <= c && c <= 'F' {
        let u = (c as u32) + 32;
        assert(0x61 <= u <= 0x66);
        assert(((u as u8) as char) as u32 == u);
        assert(ascii_lower(c) == u as char);
    }
}

/// A color written as three or six hex digits, in either case, with or without a leading
/// `#`, reads as the color they spell: six digits as three bytes, three digits each doubled.
pub proof fn law_hex_colors_read(hashed: bool, h: Seq<char>)
    requires
        h.len() == 3 || h.len() == 6,
        forall|i: int| 0 <= i < h.len() ==> hex_value(#[trigger] h[i]) is Some,
    ensures
        color_spec((if hashed { seq!['#'] } else { seq![] }) + h) == rgb_of(digit_values(h)),
        h.len() == 6 ==> color_spec((if hashed { seq!['#'] } else { seq![] }) + h) == Some(
            (
                (hex_value(h[0])->0 * 16 + hex_value(h[1])->0) as u8,
                (hex_value(h[2])->0 * 16 + hex_value(h[3])->0) as u8,
                (hex_value(h[4])->0 * 16 + hex_value(h[5])->0) as u8,
            ),
        ),
        h.len() == 3 ==> color_spec((if hashed { seq!['#'] } else { seq![] }) + h) == Some(
            (
                (hex_value(h[0])->0 * 17) as u8,
                (hex_value(h[1])->0 * 17) as u8,
                (hex_value(h[2])->0 * 17) as u8,
            ),
        ),
{
    let t = (if hashed { seq!['#'] } else { seq![] }) + h;
    assert forall|i: int| 0 <= i < t.len() implies !is_ws(#[trigger] t[i]) by {
        if hashed && i == 0 {
        } else if hashed {
            assert(t[i] == h[i - 1]);
            assert(hex_value(h[i - 1]) is Some);
        } else {
            assert(t[i] == h[i]);
            assert(hex_value(h[i]) is Some);
        }
    }
    assert(lead_ws(t) == 0);
    assert(t.skip(0) =~= t);
    assert(trail_ws(t) == 0);
    assert(t.take(t.len() as int) =~= t);
    assert(trim(t) == t);
    assert(hex_value(h[0]) is Some);
    assert(strip_hashes(h) == h);
    if hashed {
        assert(t.drop_first() =~= h);
    } else {
        assert(t =~= h);
    }
    assert(strip_hashes(t) == h);
    let l = lower_seq(h);
    assert forall|i: int| 0 <= i < l.len() implies hex_value(#[trigger] l[i]) == hex_value(h[i]) by {
        lemma_lower_hex_digit(h[i]);
    }
    assert forall|i: int| 0 <= i < l.len() implies hex_value(#[trigger] l[i]) is Some by {
        assert(hex_value(l[i]) == hex_value(h[i]));
    }
    lemma_no_name_is_hex(l);
    lemma_hex_digits_all(l);
    assert(digit_values(l) =~= digit_values(h)) by {
        assert forall|i: int| 0 <= i < h.len() implies #[trigger] digit_values(l)[i] == digit_values(h)[i] by {
            assert(hex_value(l[i]) == hex_value(h[i]));
        }
    }
}

// ---------------------------------------------------------------------------------------------
// Recognising badges
// ---------------------------------------------------------------------------------------------
/// The part of a lowercased URL after `https://` or `http://`.
pub open spec fn after_scheme(u: Seq<char>) -> Option<Seq<char>> {
    match strip_prefix(u, "https://"@) {
        Some(r) => Some(r),
        None => strip_prefix(u, "http://"@),
    }
}

fn after_scheme_exec(u: &Vec<char>) -> (r: Option<Vec<char>>)
    ensures
        r is None ==> after_scheme(u@) is None,
        r matches Some(x) ==> after_scheme(u@) == Some(x@),
{
    match strip_prefix_lit(u, "https://") {
        Some(r) => Some(r),
        None => strip_prefix_lit(u, "http://"),
    }
}

/// The index of the first `a` or `b` at or after `from`.
pub open spec fn find_either(s: Seq<char>, a: char, b: char, from: int) -> Option<int>
    decreases s.len() - from,
{
    if from < 0 || from >= s.len() {
        None
    } else if s[from] == a || s[from] == b {
        Some(from)
    } else {
        find_either(s, a, b, from + 1)
    }
}

fn before_either(s: &Vec<char>, a: char, b: char) -> (r: Vec<char>)
    ensures
        r@ == (match find_either(s@, a, b, 0) {
            Some(i) => s@.take(i),
            None => s@,
        }),
{
    let mut i: usize = 0;
    while i < s.len()
        invariant
            i <= s.len(),
            find_either(s@, a, b, 0) == find_either(s@, a, b, i as int),
        decreases s.len() - i,
    {
        if s[i] == a || s[i] == b {
            return slice(s, 0, i);
        }
        i = i + 1;
    }
    let r = slice(s, 0, s.len());
    assert(r@ =~= s@);
    r
}

/// The hosts that serve only badges.
pub open spec fn badge_host(h: Seq<char>) -> bool {
    ||| h == "img.shields.io"@
    ||| h == "shields.io"@
    ||| h == "badgen.net"@
    ||| h == "flat.badgen.net"@
    ||| h == "badge.fury.io"@
    ||| h == "forthebadge.com"@
    ||| h == "deps.rs"@
}

fn badge_host_exec(h: &Vec<char>) -> (r: bool)
    ensures
        r == badge_host(h@),
{
    eq_lit(h, "img.shields.io") || eq_lit(h, "shields.io") || eq_lit(h, "badgen.net") || eq_lit(
        h,
        "flat.badgen.net",
    ) || eq_lit(h, "badge.fury.io") || eq_lit(h, "forthebadge.com") || eq_lit(h, "deps.rs")
}

/// A path segment that marks a badge: `badge`, `badges` or `badge.<ext>`.
pub open spec fn badge_segment(seg: Seq<char>) -> bool {
    seg == "badge"@ || seg == "badges"@ || starts_with(seg, "badge."@)
}

/// The host of a URL without its scheme, and the path after it, without query or fragment.
pub open spec fn host_and_path(rest: Seq<char>) -> (Seq<char>, Seq<char>) {
    let (host, path) = match split_once(rest, '/') {
        Some(hp) => hp,
        None => (rest, Seq::<char>::empty()),
    };
    let path = match find_either(path, '?', '#', 0) {
        Some(i) => path.take(i),
        None => path,
    };
    (host, path)
}

/// Whether some `/`-separated segment of `path` marks a badge.
pub open spec fn has_badge_segment(path: Seq<char>) -> bool {
    exists|k: int| 0 <= k < split(path, '/').len() && badge_segment(#[trigger] split(path, '/')[k])
}

/// Whether `url` points at a badge: a web URL on a badge host, or whose path has a badge
/// segment. Case does not matter.
pub open spec fn badge_url(url: Seq<char>) -> bool {
    match after_scheme(lower_seq(url)) {
        None => false,
        Some(rest) => badge_host(host_and_path(rest).0) || has_badge_segment(host_and_path(rest).1),
    }
}

fn badge_url_exec(url: &Vec<char>) -> (r: bool)
    ensures
        r == badge_url(url@),
{
    let lower = lower_vec(url);
    let rest = match after_scheme_exec(&lower) {
        Some(r) => r,
        None => return false,
    };
    proof {
        lemma_find_char_from(rest@, '/', 0);
    }
    let (host, path) = match find_char(&rest, '/', 0) {
        Some(i) => (slice(&rest, 0, i), slice(&rest, i + 1, rest.len())),
        None => (slice(&rest, 0, rest.len()), Vec::new()),
    };
    assert(rest@.subrange(0, rest@.len() as int) =~= rest@);
    assert(path@.len() == 0 ==> path@ =~= Seq::<char>::empty());
    proof {
        match find_char_from(rest@, '/', 0) {
            Some(i) => {
                assert(rest@.subrange(i + 1, rest@.len() as int) =~= rest@.skip(i + 1));
            },
            None => {},
        }
    }
    let ghost hp = match split_once(rest@, '/') {
        Some(hp) => hp,
        None => (rest@, Seq::<char>::empty()),
    };
    assert(hp.0 == host@ && hp.1 == path@);
    if badge_host_exec(&host) {
        return true;
    }
    let path = before_either(&path, '?', '#');
    let segs = split_vec(&path, '/');
    let r = any_badge_segment(&segs);
    let ghost parts = split(path@, '/');
    assert(path@ == (match find_either(hp.1, '?', '#', 0) {
        Some(i) => hp.1.take(i),
        None => hp.1,
    }));
    assert(views(segs@) == parts);
    assert(segs@.len() == parts.len());
    if r {
        let ghost j = choose|j: int| 0 <= j < segs@.len() && badge_segment(#[trigger] views(segs@)[j]);
        assert(badge_segment(parts[j]));
        assert(0 <= j < split(path@, '/').len() && badge_segment(split(path@, '/')[j]));
        assert(has_badge_segment(path@));
    } else {
        assert forall|k: int| 0 <= k < parts.len() implies !badge_segment(#[trigger] parts[k]) by {
            assert(views(segs@)[k] == parts[k]);
        }
    }
    r
}

fn any_badge_segment(segs: &Vec<Vec<char>>) -> (r: bool)
    ensures
        r == exists|j: int| 0 <= j < segs@.len() && badge_segment(#[trigger] views(segs@)[j]),
{
    let ghost sv = views(segs@);
    let mut k: usize = 0;
    while k < segs.len()
        invariant
            k <= segs.len(),
            sv == views(segs@),
            forall|j: int| 0 <= j < k ==> !badge_segment(#[trigger] sv[j]),
        decreases segs.len() - k,
    {
        let seg = &segs[k];
        assert(sv[k as int] == seg@);
        if eq_lit(seg, "badge") || eq_lit(seg, "badges") || starts_with_lit(seg, "badge.") {
            assert(badge_segment(sv[k as int]));
            return true;
        }
        k = k + 1;
    }
    false
}

/// Whether `url` is a badge image: a shields.io style host, or a path with a `badge` segment.
pub fn is_badge(url: &str) -> (r: bool)
    ensures
        r == badge_url(url@),
{
    let v = chars_of(url);
    badge_url_exec(&v)
}

// ---------------------------------------------------------------------------------------------
// Reading badge URLs
// ---------------------------------------------------------------------------------------------
/// What `String::from_utf8_lossy` gives for `bytes`.
pub uninterp spec fn utf8_lossy(bytes: Seq<u8>) -> Seq<char>;

/// `String::from_utf8_lossy`: the bytes as text, with U+FFFD for each invalid sequence. Of
/// valid UTF-8 the contract says it decodes it; for invalid input it only names the result.
#[verifier::external_body]
pub(crate) fn lossy_string(bytes: &Vec<u8>) -> (r: String)
    ensures
        r@ == utf8_lossy(bytes@),
        vstd::utf8::valid_utf8(bytes@) ==> r@ == vstd::utf8::decode_utf8(bytes@),
{
    String::from_utf8_lossy(bytes).into_owned()
}

/// A byte as a hex digit, as `(byte as char).to_digit(16)` reads it.
pub open spec fn hex_byte(b: u8) -> Option<u8> {
    hex_value(b as char)
}

/// The bytes with each `%XX` escape decoded.
pub open spec fn pct_bytes(b: Seq<u8>) -> Seq<u8>
    decreases b.len(),
{
    if b.len() == 0 {
        seq![]
    } else if b[0] == 0x25 && 2 < b.len() && hex_byte(b[1]) is Some && hex_byte(b[2]) is Some {
        seq![((hex_byte(b[1])->0 * 16 + hex_byte(b[2])->0) as u8)] + pct_bytes(b.skip(3))
    } else {
        seq![b[0]] + pct_bytes(b.drop_first())
    }
}

/// `text` with its `%XX` escapes decoded, read as UTF-8.
pub open spec fn percent_decoded(text: Seq<char>) -> Seq<char> {
    utf8_lossy(pct_bytes(vstd::utf8::encode_utf8(text)))
}

fn hex_byte_exec(b: u8) -> (r: Option<u8>)
    ensures
        r == hex_byte(b),
        r matches Some(v) ==> v < 16,
{
    hex_digit(b as char)
}

fn percent_decode(text: &Vec<char>) -> (r: Vec<char>)
    ensures
        r@ == percent_decoded(text@),
{
    let s = string_of(text);
    let bytes = s.as_str().as_bytes();
    let ghost b = bytes@;
    assert(b == vstd::utf8::encode_utf8(text@));
    let mut out: Vec<u8> = Vec::new();
    let mut i: usize = 0;
    assert(b.skip(0) =~= b);
    while i < bytes.len()
        invariant
            i <= bytes.len(),
            b == bytes@,
            out@ + pct_bytes(b.skip(i as int)) == pct_bytes(b),
        decreases bytes.len() - i,
    {
        let ghost rest = b.skip(i as int);
        if bytes[i] == 0x25 && bytes.len() - i > 2 {
            let hi = hex_byte_exec(bytes[i + 1]);
            let lo = hex_byte_exec(bytes[i + 2]);
            assert(rest[1] == b[i + 1] && rest[2] == b[i + 2]);
            if hi.is_some() && lo.is_some() {
                let h = hi.unwrap();
                let l = lo.unwrap();
                out.push(h * 16 + l);
                assert(rest.skip(3) =~= b.skip(i + 3));
                i = i + 3;
                continue ;
            }
        }
        assert(rest.drop_first() =~= b.skip(i + 1));
        out.push(bytes[i]);
        i = i + 1;
    }
    assert(b.skip(i as int) =~= Seq::<u8>::empty());
    assert(out@ =~= pct_bytes(b));
    let decoded = lossy_string(&out);
    chars_of(decoded.as_str())
}

/// The value of `name` in a query string: the first `name=value` pair, with `+` read as a
/// space and escapes decoded.
pub open spec fn param_in(pairs: Seq<Seq<char>>, name: Seq<char>, k: int) -> Option<Seq<char>>
    decreases pairs.len() - k,
{
    if k < 0 || k >= pairs.len() {
        None
    } else {
        match split_once(pairs[k], '=') {
            Some((key, value)) => if key == name {
                Some(percent_decoded(replace_all(value, seq!['+'], seq![' '])))
            } else {
                param_in(pairs, name, k + 1)
            },
            None => param_in(pairs, name, k + 1),
        }
    }
}

pub open spec fn param_spec(query: Seq<char>, name: Seq<char>) -> Option<Seq<char>> {
    param_in(split(query, '&'), name, 0)
}

fn param(query: &Vec<char>, name: &str) -> (r: Option<Vec<char>>)
    ensures
        r is None ==> param_spec(query@, name@) is None,
        r matches Some(v) ==> param_spec(query@, name@) == Some(v@),
{
    let pairs = split_vec(query, '&');
    let ghost pv = pairs@.map_values(|l: Vec<char>| l@);
    let mut plus: Vec<char> = Vec::new();
    plus.push('+');
    let mut space: Vec<char> = Vec::new();
    space.push(' ');
    assert(plus@ =~= seq!['+'] && space@ =~= seq![' ']);
    let mut k: usize = 0;
    while k < pairs.len()
        invariant
            k <= pairs.len(),
            pv == pairs@.map_values(|l: Vec<char>| l@),
            pv == split(query@, '&'),
            plus@ == seq!['+'],
            space@ == seq![' '],
            param_in(pv, name@, 0) == param_in(pv, name@, k as int),
        decreases pairs.len() - k,
    {
        let pair = &pairs[k];
        assert(pv[k as int] == pair@);
        proof {
            lemma_find_char_from(pair@, '=', 0);
        }
        match find_char(pair, '=', 0) {
            Some(i) => {
                assert(i < pair.len());
                let key = slice(pair, 0, i);
                if eq_lit(&key, name) {
                    let value = slice(pair, i + 1, pair.len());
                    assert(value@ =~= pair@.skip(i + 1));
                    let replaced = replace_vec(&value, &plus, &space);
                    return Some(percent_decode(&replaced));
                }
            },
            None => {},
        }
        k = k + 1;
    }
    None
}

// ---------------------------------------------------------------------------------------------
// Badge text as values
// ---------------------------------------------------------------------------------------------
/// A badge's text as plain values.
pub struct BadgeView {
    pub label: Seq<char>,
    pub value: Option<Seq<char>>,
    pub color: Option<Rgb>,
    pub label_color: Option<Rgb>,
}

pub open spec fn opt_view(o: Option<String>) -> Option<Seq<char>> {
    match o {
        Some(s) => Some(s@),
        None => None,
    }
}

impl View for BadgeText {
    type V = BadgeView;

    open spec fn view(&self) -> BadgeView {
        BadgeView {
            label: self.label@,
            value: opt_view(self.value),
            color: self.color,
            label_color: self.label_color,
        }
    }
}

/// A badge with only a label.
pub open spec fn labelled(label: Seq<char>) -> BadgeView {
    BadgeView { label, value: None, color: None, label_color: None }
}

// ---------------------------------------------------------------------------------------------
// Static badges: `/badge/<label>-<message>-<color>`
// ---------------------------------------------------------------------------------------------
/// One part of a static badge path: `_` is a space, and the escapes `--` and `__` (already
/// turned into the marks U+0001 and U+0002) stand for `-` and `_`.
pub open spec fn unmark(p: Seq<char>) -> Seq<char> {
    replace_all(replace_all(replace_all(p, "_"@, " "@), seq!['\u{1}'], "-"@), seq!['\u{2}'], "_"@)
}

/// The parts of a static badge's content, split at the single dashes.
pub open spec fn static_parts(content: Seq<char>) -> Seq<Seq<char>> {
    let marked = replace_all(replace_all(content, "--"@, seq!['\u{1}']), "__"@, seq!['\u{2}']);
    split(marked, '-').map_values(|p: Seq<char>| unmark(p))
}

/// A static badge: the first part is the label, the last the color, and what lies between is
/// the message, joined by dashes.
pub open spec fn static_spec(content: Seq<char>) -> BadgeView {
    let parts = static_parts(content);
    let n = parts.len();
    if n == 0 {
        labelled(seq![])
    } else if n == 1 {
        labelled(parts[0])
    } else if n == 2 {
        BadgeView { label: parts[0], value: None, color: color_spec(parts[1]), label_color: None }
    } else {
        BadgeView {
            label: parts[0],
            value: Some(join(parts.subrange(1, n - 1), "-"@)),
            color: color_spec(parts[n - 1]),
            label_color: None,
        }
    }
}

fn unmark_exec(p: &Vec<char>) -> (r: Vec<char>)
    ensures
        r@ == unmark(p@),
{
    proof {
        reveal_strlit("_");
        reveal_strlit("\u{1}");
        reveal_strlit("\u{2}");
    }
    let a = replace_lit(p, "_", " ");
    let b = replace_lit(&a, "\u{1}", "-");
    let c = replace_lit(&b, "\u{2}", "_");
    assert("\u{1}"@ =~= seq!['\u{1}'] && "\u{2}"@ =~= seq!['\u{2}']);
    c
}

fn static_badge(content: &Vec<char>) -> (r: BadgeText)
    ensures
        r@ == static_spec(content@),
{
    proof {
        reveal_strlit("--");
        reveal_strlit("__");
        reveal_strlit("\u{1}");
        reveal_strlit("\u{2}");
    }
    let a = replace_lit(content, "--", "\u{1}");
    let b = replace_lit(&a, "__", "\u{2}");
    assert("\u{1}"@ =~= seq!['\u{1}'] && "\u{2}"@ =~= seq!['\u{2}']);
    let pieces = split_vec(&b, '-');
    let ghost pv = views(pieces@);
    let ghost want = static_parts(content@);
    assert(pv == split(b@, '-'));
    let mut parts: Vec<Vec<char>> = Vec::new();
    let mut i: usize = 0;
    while i < pieces.len()
        invariant
            i <= pieces.len(),
            pv == views(pieces@),
            want == pv.map_values(|p: Seq<char>| unmark(p)),
            views(parts@) == want.take(i as int),
        decreases pieces.len() - i,
    {
        let u = unmark_exec(&pieces[i]);
        let ghost before = views(parts@);
        parts.push(u);
        assert(views(parts@) =~= before.push(u@));
        assert(want.take(i + 1) =~= want.take(i as int).push(want[i as int]));
        i = i + 1;
    }
    assert(want.take(pieces.len() as int) =~= want);
    let ghost ps = views(parts@);
    assert(ps == want);
    let n = parts.len();
    if n == 0 {
        BadgeText::default()
    } else if n == 1 {
        let label = string_of(&parts[0]);
        assert(ps[0] == parts@[0]@);
        BadgeText { label, value: None, color: None, label_color: None }
    } else if n == 2 {
        assert(ps[0] == parts@[0]@ && ps[1] == parts@[1]@);
        let label = string_of(&parts[0]);
        let color = color_of(&parts[1]);
        BadgeText { label, value: None, color, label_color: None }
    } else {
        assert(ps[0] == parts@[0]@ && ps[n - 1] == parts@[n - 1]@);
        let label = string_of(&parts[0]);
        let middle = sub_lines(&parts, 1, n - 1);
        let dash = chars_of("-");
        let value = join_vec(&middle, &dash);
        let color = color_of(&parts[n - 1]);
        BadgeText { label, value: Some(string_of(&value)), color, label_color: None }
    }
}

// ---------------------------------------------------------------------------------------------
// Badges from their URL
// ---------------------------------------------------------------------------------------------
/// The non-empty strings of `s`, in order.
pub open spec fn non_empty(s: Seq<Seq<char>>) -> Seq<Seq<char>>
    decreases s.len(),
{
    if s.len() == 0 {
        seq![]
    } else if s.last().len() > 0 {
        non_empty(s.drop_last()).push(s.last())
    } else {
        non_empty(s.drop_last())
    }
}

/// The non-empty path segments after the host.
pub open spec fn path_segments(rest: Seq<char>) -> Seq<Seq<char>> {
    non_empty(split(rest, '/').drop_first())
}

/// The URL without its fragment, split at the first `?` into path and query.
pub open spec fn path_and_query(url: Seq<char>) -> (Seq<char>, Seq<char>) {
    let u = before_char(url, '#');
    match split_once(u, '?') {
        Some(pq) => pq,
        None => (u, Seq::<char>::empty()),
    }
}

/// The color a query parameter names, if it is there and names one; else `old`.
pub open spec fn color_param(query: Seq<char>, name: Seq<char>, old: Option<Rgb>) -> Option<Rgb> {
    match param_spec(query, name) {
        Some(c) => match color_spec(c) {
            Some(x) => Some(x),
            None => old,
        },
        None => old,
    }
}

/// What the badge's URL says of it: a static badge's path, or the `label`, `message`,
/// `color` and `labelColor` query parameters. `None` when the URL says nothing of its text.
pub open spec fn from_url_spec(url: Seq<char>) -> Option<BadgeView> {
    let (path, query) = path_and_query(url);
    let label = param_spec(query, "label"@);
    match after_scheme(path) {
        None => None,
        Some(rest) => {
            let segs = path_segments(rest);
            let base = if segs.len() == 2 && segs[0] == "badge"@ {
                Some(static_spec(percent_decoded(segs[1])))
            } else if segs.len() == 2 && segs[0] == "static"@ && segs[1] == "v1"@ {
                Some(
                    BadgeView {
                        label: match label {
                            Some(l) => l,
                            None => seq![],
                        },
                        value: param_spec(query, "message"@),
                        color: None,
                        label_color: None,
                    },
                )
            } else {
                match label {
                    Some(l) => Some(labelled(l)),
                    None => None,
                }
            };
            match base {
                None => None,
                Some(b) => Some(
                    BadgeView {
                        label: match label {
                            Some(l) => l,
                            None => b.label,
                        },
                        value: b.value,
                        color: color_param(query, "color"@, b.color),
                        label_color: color_param(query, "labelColor"@, b.label_color),
                    },
                ),
            }
        },
    }
}

fn non_empty_segments(rest: &Vec<char>) -> (r: Vec<Vec<char>>)
    ensures
        views(r@) == path_segments(rest@),
{
    let pieces = split_vec(rest, '/');
    let ghost pv = views(pieces@);
    let ghost all = pv.drop_first();
    let mut out: Vec<Vec<char>> = Vec::new();
    let mut i: usize = 1;
    assert(split(rest@, '/').len() >= 1);
    assert(all.take(0) =~= Seq::<Seq<char>>::empty());
    while i < pieces.len()
        invariant
            1 <= i <= pieces.len(),
            pv == views(pieces@),
            all == pv.drop_first(),
            views(out@) == non_empty(all.take(i - 1)),
        decreases pieces.len() - i,
    {
        let ghost before = views(out@);
        assert(all.take(i as int).drop_last() =~= all.take(i - 1));
        assert(all.take(i as int).last() == pieces@[i as int]@);
        if pieces[i].len() > 0 {
            let p = slice(&pieces[i], 0, pieces[i].len());
            assert(p@ =~= pieces@[i as int]@);
            out.push(p);
            assert(views(out@) =~= before.push(p@));
        }
        i = i + 1;
    }
    assert(all.take(pieces.len() - 1) =~= all);
    out
}

fn set_color(query: &Vec<char>, name: &str, old: Option<Rgb>) -> (r: Option<Rgb>)
    ensures
        r == color_param(query@, name@, old),
{
    match param(query, name) {
        Some(c) => match color_of(&c) {
            Some(x) => Some(x),
            None => old,
        },
        None => old,
    }
}

fn from_url_exec(url: &Vec<char>) -> (r: Option<BadgeText>)
    ensures
        r is None ==> from_url_spec(url@) is None,
        r matches Some(b) ==> from_url_spec(url@) == Some(b@),
{
    let u = before_char_vec(url, '#');
    proof {
        lemma_find_char_from(u@, '?', 0);
    }
    let (path, query) = match find_char(&u, '?', 0) {
        Some(i) => (slice(&u, 0, i), slice(&u, i + 1, u.len())),
        None => (slice(&u, 0, u.len()), Vec::new()),
    };
    proof {
        assert(u@.subrange(0, u@.len() as int) =~= u@);
        match find_char_from(u@, '?', 0) {
            Some(i) => {
                assert(u@.subrange(i + 1, u@.len() as int) =~= u@.skip(i + 1));
            },
            None => {
                assert(query@ =~= Seq::<char>::empty());
            },
        }
    }
    assert(path_and_query(url@) == (path@, query@));
    let label = param(&query, "label");
    let rest = match after_scheme_exec(&path) {
        Some(r) => r,
        None => return None,
    };
    let segs = non_empty_segments(&rest);
    let ghost sv = views(segs@);
    let base = if segs.len() == 2 && eq_lit(&segs[0], "badge") {
        assert(sv[0] == segs@[0]@ && sv[1] == segs@[1]@);
        let content = percent_decode(&segs[1]);
        static_badge(&content)
    } else if segs.len() == 2 && eq_lit(&segs[0], "static") && eq_lit(&segs[1], "v1") {
        assert(sv[0] == segs@[0]@ && sv[1] == segs@[1]@);
        let l = match &label {
            Some(l) => string_of(l),
            None => String::new(),
        };
        let message = match param(&query, "message") {
            Some(m) => Some(string_of(&m)),
            None => None,
        };
        BadgeText { label: l, value: message, color: None, label_color: None }
    } else {
        proof {
            if segs.len() == 2 {
                assert(sv[0] == segs@[0]@ && sv[1] == segs@[1]@);
            }
        }
        match &label {
            Some(l) => BadgeText { label: string_of(l), value: None, color: None, label_color: None },
            None => return None,
        }
    };
    let label_text = match &label {
        Some(l) => string_of(l),
        None => base.label,
    };
    let color = set_color(&query, "color", base.color);
    let label_color = set_color(&query, "labelColor", base.label_color);
    Some(BadgeText { label: label_text, value: base.value, color, label_color })
}

/// What a badge's URL says of its text: the path of a static badge
/// (`/badge/<label>-<message>-<color>`, with `--` and `__` for `-` and `_`), `/static/v1` with
/// `label` and `message`, or any badge with a `label` parameter; `color` and `labelColor`
/// parameters set the colors. `None` when the URL names no text.
pub fn from_url(url: &str) -> (r: Option<BadgeText>)
    ensures
        r is None ==> from_url_spec(url@) is None,
        r matches Some(b) ==> from_url_spec(url@) == Some(b@),
{
    let v = chars_of(url);
    from_url_exec(&v)
}

// ---------------------------------------------------------------------------------------------
// Badges from their SVG
// ---------------------------------------------------------------------------------------------
/// `text` with the XML entities a badge title uses replaced, one entity after another.
pub open spec fn unescape_spec(text: Seq<char>) -> Seq<char> {
    let a = replace_all(text, "&amp;"@, "&"@);
    let b = replace_all(a, "&lt;"@, "<"@);
    let c = replace_all(b, "&gt;"@, ">"@);
    let d = replace_all(c, "&quot;"@, "\""@);
    let e = replace_all(d, "&#39;"@, "'"@);
    replace_all(e, "&apos;"@, "'"@)
}

fn unescape(text: &Vec<char>) -> (r: Vec<char>)
    ensures
        r@ == unescape_spec(text@),
{
    proof {
        reveal_strlit("&amp;");
        reveal_strlit("&lt;");
        reveal_strlit("&gt;");
        reveal_strlit("&quot;");
        reveal_strlit("&#39;");
        reveal_strlit("&apos;");
    }
    let a = replace_lit(text, "&amp;", "&");
    let b = replace_lit(&a, "&lt;", "<");
    let c = replace_lit(&b, "&gt;", ">");
    let d = replace_lit(&c, "&quot;", "\"");
    let e = replace_lit(&d, "&#39;", "'");
    replace_lit(&e, "&apos;", "'")
}

/// The value of the attribute `name` in a tag's text: what follows ` name="` up to the next
/// quote.
pub open spec fn attr_spec(tag: Seq<char>, name: Seq<char>) -> Option<Seq<char>> {
    match find(tag, seq![' '] + name + seq!['=', '"']) {
        Some(i) => Some(before_char(tag.skip(i + name.len() + 3), '"')),
        None => None,
    }
}

fn attr(tag: &Vec<char>, name: &str) -> (r: Option<Vec<char>>)
    ensures
        r is None ==> attr_spec(tag@, name@) is None,
        r matches Some(v) ==> attr_spec(tag@, name@) == Some(v@),
{
    let mut pat: Vec<char> = Vec::new();
    pat.push(' ');
    let n = chars_of(name);
    extend(&mut pat, &n);
    pat.push('=');
    pat.push('"');
    assert(pat@ =~= seq![' '] + name@ + seq!['=', '"']);
    proof {
        lemma_find_from(tag@, pat@, 0);
    }
    match find_at(tag, &pat, 0) {
        Some(i) => {
            assert(occurs_at(tag@, pat@, i as int));
            let tl = tag.len();
            let at = i + n.len() + 3;
            let rest = slice(tag, at, tag.len());
            assert(rest@ =~= tag@.skip(at as int));
            Some(before_char_vec(&rest, '"'))
        },
        None => None,
    }
}

/// The id a `fill="url(#id)"` refers to.
pub open spec fn fill_ref(fill: Seq<char>) -> Option<Seq<char>> {
    match strip_prefix(fill, "url(#"@) {
        Some(f) => if f.len() > 0 && f.last() == ')' {
            Some(f.drop_last())
        } else {
            None
        },
        None => None,
    }
}

/// The part of `s` after the first `<stop`, up to the next one.
pub open spec fn first_stop(s: Seq<char>) -> Option<Seq<char>> {
    match find(s, "<stop"@) {
        Some(i) => {
            let rest = s.skip(i + 5);
            Some(
                match find(rest, "<stop"@) {
                    Some(j) => rest.take(j),
                    None => rest,
                },
            )
        },
        None => None,
    }
}

/// The color a `fill` names: a color, or a gradient defined in the SVG, whose first stop gives
/// the color unless that stop is translucent.
pub open spec fn resolve_fill_spec(svg: Seq<char>, fill: Seq<char>) -> Option<Rgb> {
    match fill_ref(fill) {
        None => color_spec(fill),
        Some(id) => match find(svg, "id=\""@ + id + "\""@) {
            None => None,
            Some(at) => match first_stop(svg.skip(at)) {
                None => None,
                Some(piece) => {
                    let stop = before_char(piece, '>');
                    if attr_spec(stop, "stop-opacity"@) is Some {
                        None
                    } else {
                        match attr_spec(stop, "stop-color"@) {
                            Some(c) => color_spec(c),
                            None => None,
                        }
                    }
                },
            },
        },
    }
}

fn resolve_fill(svg: &Vec<char>, fill: &Vec<char>) -> (r: Option<Rgb>)
    ensures
        r == resolve_fill_spec(svg@, fill@),
{
    let id = match strip_prefix_lit(fill, "url(#") {
        Some(f) => if f.len() > 0 && f[f.len() - 1] == ')' {
            slice(&f, 0, f.len() - 1)
        } else {
            return color_of(fill);
        },
        None => return color_of(fill),
    };
    assert(fill_ref(fill@) == Some(id@));
    let mut key = chars_of("id=\"");
    extend(&mut key, &id);
    let quote = chars_of("\"");
    extend(&mut key, &quote);
    let at = match find_at(svg, &key, 0) {
        Some(at) => at,
        None => return None,
    };
    proof {
        lemma_find_from(svg@, key@, 0);
        reveal_strlit("<stop");
    }
    let s = slice(svg, at, svg.len());
    assert(s@ =~= svg@.skip(at as int));
    let i = match find_lit(&s, "<stop", 0) {
        Some(i) => i,
        None => return None,
    };
    proof {
        lemma_find_from(s@, "<stop"@, 0);
    }
    let rest = slice(&s, i + 5, s.len());
    assert(rest@ =~= s@.skip(i + 5));
    let piece = match find_lit(&rest, "<stop", 0) {
        Some(j) => {
            proof {
                lemma_find_from(rest@, "<stop"@, 0);
            }
            slice(&rest, 0, j)
        },
        None => rest,
    };
    assert(first_stop(s@) == Some(piece@));
    let stop = before_char_vec(&piece, '>');
    if attr(&stop, "stop-opacity").is_some() {
        return None;
    }
    match attr(&stop, "stop-color") {
        Some(c) => color_of(&c),
        None => None,
    }
}

/// A filled shape of an SVG tag that starts with `rect` or `path`: its `x` attribute, if it
/// has one, and its color. Rounded shapes (`rx`) are the badge's outline and are left out.
pub open spec fn fill_entry(svg: Seq<char>, tag: Seq<char>) -> Option<(Option<Seq<char>>, Rgb)> {
    let shape = match strip_prefix(tag, "rect"@) {
        Some(t) => Some(t),
        None => strip_prefix(tag, "path"@),
    };
    match shape {
        None => None,
        Some(t0) => {
            let t = before_char(t0, '>');
            if attr_spec(t, "rx"@) is Some {
                None
            } else {
                match attr_spec(t, "fill"@) {
                    None => None,
                    Some(f) => match resolve_fill_spec(svg, f) {
                        None => None,
                        Some(c) => Some((attr_spec(t, "x"@), c)),
                    },
                }
            }
        },
    }
}

/// The filled shapes of the tags, in order.
pub open spec fn fills_of(svg: Seq<char>, tags: Seq<Seq<char>>) -> Seq<(Option<Seq<char>>, Rgb)>
    decreases tags.len(),
{
    if tags.len() == 0 {
        seq![]
    } else {
        match fill_entry(svg, tags.last()) {
            Some(e) => fills_of(svg, tags.drop_last()).push(e),
            None => fills_of(svg, tags.drop_last()),
        }
    }
}

/// The filled shapes of a badge's SVG, in document order.
pub open spec fn shapes_spec(svg: Seq<char>) -> Seq<(Option<Seq<char>>, Rgb)> {
    fills_of(svg, split(svg, '<').drop_first())
}

/// The first index at or after `k` whose answer is `true`.
pub open spec fn first_true(offsets: Seq<bool>, k: int) -> Option<int>
    decreases offsets.len() - k,
{
    if k < 0 || k >= offsets.len() {
        None
    } else if offsets[k] {
        Some(k)
    } else {
        first_true(offsets, k + 1)
    }
}

/// The color of a badge's value half: the first shape that is offset to the right, else the
/// second shape.
pub open spec fn pick_fill_spec(shapes: Seq<(Option<Seq<char>>, Rgb)>, offsets: Seq<bool>) -> Option<
    Rgb,
> {
    match first_true(offsets, 0) {
        Some(j) => Some(shapes[j].1),
        None => if shapes.len() > 1 {
            Some(shapes[1].1)
        } else {
            None
        },
    }
}

/// The shapes' offsets are answers for them: a shape without `x` is not offset.
pub open spec fn offsets_fit(shapes: Seq<(Option<Seq<char>>, Rgb)>, offsets: Seq<bool>) -> bool {
    &&& offsets.len() == shapes.len()
    &&& forall|i: int| 0 <= i < shapes.len() && (#[trigger] shapes[i]).0 is None ==> !offsets[i]
}

/// Each offset is what `positive` answered for its shape's `x`.
pub open spec fn offsets_answered<F: Fn(&str) -> bool>(
    positive: F,
    shapes: Seq<(Option<Seq<char>>, Rgb)>,
    offsets: Seq<bool>,
) -> bool {
    forall|i: int|
        0 <= i < shapes.len() && (#[trigger] shapes[i]).0 is Some ==> exists|t: &str|
            t@ == shapes[i].0->0 && call_ensures(positive, (t,), offsets[i])
}

fn fill_entry_exec(svg: &Vec<char>, tag: &Vec<char>) -> (r: Option<(Option<Vec<char>>, Rgb)>)
    ensures
        r is None ==> fill_entry(svg@, tag@) is None,
        r matches Some((x, c)) ==> fill_entry(svg@, tag@) == Some((opt_chars(x), c)),
{
    let t0 = match strip_prefix_lit(tag, "rect") {
        Some(t) => t,
        None => match strip_prefix_lit(tag, "path") {
            Some(t) => t,
            None => return None,
        },
    };
    let t = before_char_vec(&t0, '>');
    if attr(&t, "rx").is_some() {
        return None;
    }
    let f = match attr(&t, "fill") {
        Some(f) => f,
        None => return None,
    };
    let c = match resolve_fill(svg, &f) {
        Some(c) => c,
        None => return None,
    };
    let x = attr(&t, "x");
    Some((x, c))
}

/// The text of an optional line.
pub open spec fn opt_chars(o: Option<Vec<char>>) -> Option<Seq<char>> {
    match o {
        Some(v) => Some(v@),
        None => None,
    }
}

/// The shapes as values.
pub open spec fn shape_views(v: Seq<(Option<Vec<char>>, Rgb)>) -> Seq<(Option<Seq<char>>, Rgb)> {
    v.map_values(|e: (Option<Vec<char>>, Rgb)| (opt_chars(e.0), e.1))
}

fn shapes_exec(svg: &Vec<char>) -> (r: Vec<(Option<Vec<char>>, Rgb)>)
    ensures
        shape_views(r@) == shapes_spec(svg@),
{
    let pieces = split_vec(svg, '<');
    let ghost tags = views(pieces@).drop_first();
    assert(split(svg@, '<').len() >= 1);
    let mut fills: Vec<(Option<Vec<char>>, Rgb)> = Vec::new();
    let mut i: usize = 1;
    assert(tags.take(0) =~= Seq::<Seq<char>>::empty());
    while i < pieces.len()
        invariant
            1 <= i <= pieces.len(),
            tags == views(pieces@).drop_first(),
            shape_views(fills@) == fills_of(svg@, tags.take(i - 1)),
        decreases pieces.len() - i,
    {
        assert(tags.take(i as int).drop_last() =~= tags.take(i - 1));
        assert(tags.take(i as int).last() == pieces@[i as int]@);
        let ghost before = shape_views(fills@);
        match fill_entry_exec(svg, &pieces[i]) {
            Some(e) => {
                fills.push(e);
                assert(shape_views(fills@) =~= before.push((opt_chars(e.0), e.1)));
            },
            None => {},
        }
        i = i + 1;
    }
    assert(tags.take(pieces.len() - 1) =~= tags);
    fills
}

/// The filled shapes of a badge's SVG, in order: each with its `x` attribute and its color.
pub fn svg_shapes(svg: &str) -> (r: Vec<(Option<String>, Rgb)>)
    ensures
        r@.len() == shapes_spec(svg@).len(),
        forall|i: int|
            0 <= i < r@.len() ==> (opt_view(#[trigger] r@[i].0), r@[i].1) == shapes_spec(svg@)[i],
{
    let s = chars_of(svg);
    let shapes = shapes_exec(&s);
    let ghost sv = shape_views(shapes@);
    let mut out: Vec<(Option<String>, Rgb)> = Vec::new();
    let mut i: usize = 0;
    while i < shapes.len()
        invariant
            i <= shapes.len(),
            sv == shape_views(shapes@),
            out@.len() == i,
            forall|j: int| 0 <= j < i ==> (opt_view(#[trigger] out@[j].0), out@[j].1) == sv[j],
        decreases shapes.len() - i,
    {
        let x = match &shapes[i].0 {
            Some(v) => Some(string_of(v)),
            None => None,
        };
        out.push((x, shapes[i].1));
        i = i + 1;
    }
    out
}

/// The color of a badge's value half, given for each shape whether it is offset to the right:
/// the first offset shape, else the second shape.
pub fn pick_fill(shapes: &Vec<(Option<String>, Rgb)>, offsets: &Vec<bool>) -> (r: Option<Rgb>)
    requires
        offsets.len() == shapes.len(),
    ensures
        r == pick_fill_spec(
            shapes@.map_values(|e: (Option<String>, Rgb)| (opt_view(e.0), e.1)),
            offsets@,
        ),
{
    let ghost sv = shapes@.map_values(|e: (Option<String>, Rgb)| (opt_view(e.0), e.1));
    let mut k: usize = 0;
    while k < offsets.len()
        invariant
            k <= offsets.len(),
            offsets.len() == shapes.len(),
            sv == shapes@.map_values(|e: (Option<String>, Rgb)| (opt_view(e.0), e.1)),
            first_true(offsets@, 0) == first_true(offsets@, k as int),
        decreases offsets.len() - k,
    {
        if offsets[k] {
            assert(sv[k as int].1 == shapes@[k as int].1);
            return Some(shapes[k].1);
        }
        k = k + 1;
    }
    if shapes.len() > 1 {
        assert(sv[1].1 == shapes@[1].1);
        Some(shapes[1].1)
    } else {
        None
    }
}

/// `s` split at the first `p`.
pub open spec fn split_once_at(s: Seq<char>, p: Seq<char>) -> Option<(Seq<char>, Seq<char>)> {
    match find(s, p) {
        Some(i) => Some((s.take(i), s.skip(i + p.len()))),
        None => None,
    }
}

/// The label and value a badge's SVG title gives: the `<title>`, trimmed and unescaped, split
/// at `": "` or else at `" - "`. `None` without a non-empty title.
pub open spec fn svg_title_spec(svg: Seq<char>) -> Option<(Seq<char>, Option<Seq<char>>)> {
    match find(svg, "<title>"@) {
        None => None,
        Some(i) => match find_from(svg, "</title>"@, i + 7) {
            None => None,
            Some(end) => {
                let title = unescape_spec(trim(svg.subrange(i + 7, end)));
                if title.len() == 0 {
                    None
                } else {
                    match split_once_at(title, ": "@) {
                        Some((l, v)) => Some((l, Some(v))),
                        None => match split_once_at(title, " - "@) {
                            Some((l, v)) => Some((l, Some(v))),
                            None => Some((title, None)),
                        },
                    }
                }
            },
        },
    }
}

fn split_once_lit(s: &Vec<char>, p: &str) -> (r: Option<(Vec<char>, Vec<char>)>)
    ensures
        r is None ==> split_once_at(s@, p@) is None,
        r matches Some((a, b)) ==> split_once_at(s@, p@) == Some((a@, b@)),
{
    proof {
        lemma_find_from(s@, p@, 0);
    }
    match find_lit(s, p, 0) {
        Some(i) => {
            assert(occurs_at(s@, p@, i as int));
            let sl = s.len();
            let a = slice(s, 0, i);
            let b = slice(s, i + p.unicode_len(), sl);
            assert(b@ =~= s@.skip(i + p@.len()));
            Some((a, b))
        },
        None => None,
    }
}

/// What a badge's SVG says of it: the `<title>` (split into label and value at `": "`, or
/// else at `" - "`), with entities unescaped, and the color of its value half, which is the
/// first shape that `positive` finds offset to the right (its `x` attribute read as a number
/// above zero), else the second shape. `None` when the SVG has no non-empty title.
pub fn from_svg<F: Fn(&str) -> bool>(svg: &str, positive: F) -> (r: Option<BadgeText>)
    requires
        forall|t: &str| positive.requires((t,)),
    ensures
        r is None <==> svg_title_spec(svg@) is None,
        r matches Some(b) ==> {
            &&& svg_title_spec(svg@) == Some((b.label@, opt_view(b.value)))
            &&& b.label_color is None
            &&& exists|offsets: Seq<bool>|
                offsets_fit(shapes_spec(svg@), offsets) && offsets_answered(
                    positive,
                    shapes_spec(svg@),
                    offsets,
                ) && b.color == pick_fill_spec(shapes_spec(svg@), offsets)
        },
{
    let s = chars_of(svg);
    proof {
        reveal_strlit("<title>");
        lemma_find_from(s@, "<title>"@, 0);
    }
    let i = match find_lit(&s, "<title>", 0) {
        Some(i) => i,
        None => return None,
    };
    assert(occurs_at(s@, "<title>"@, i as int));
    let sl = s.len();
    let start = i + 7;
    proof {
        lemma_find_from(s@, "</title>"@, start as int);
    }
    let end = match find_lit(&s, "</title>", start) {
        Some(e) => e,
        None => return None,
    };
    let inner = slice(&s, start, end);
    let t = trimmed(&inner);
    let title = unescape(&t);
    if title.len() == 0 {
        return None;
    }
    let (label, value) = match split_once_lit(&title, ": ") {
        Some((l, v)) => (l, Some(string_of(&v))),
        None => match split_once_lit(&title, " - ") {
            Some((l, v)) => (l, Some(string_of(&v))),
            None => (title, None),
        },
    };
    let shapes = svg_shapes(svg);
    let ghost want = shapes_spec(svg@);
    let mut offsets: Vec<bool> = Vec::new();
    let mut k: usize = 0;
    while k < shapes.len()
        invariant
            k <= shapes.len(),
            offsets@.len() == k,
            forall|t: &str| positive.requires((t,)),
            shapes@.len() == want.len(),
            forall|j: int|
                0 <= j < shapes@.len() ==> (opt_view(#[trigger] shapes@[j].0), shapes@[j].1)
                    == want[j],
            forall|j: int| 0 <= j < k && (#[trigger] want[j]).0 is None ==> !offsets@[j],
            offsets_answered(positive, want.take(k as int), offsets@),
        decreases shapes.len() - k,
    {
        let ghost before = offsets@;
        let o = match &shapes[k].0 {
            Some(x) => {
                let xs = x.as_str();
                let a = positive(xs);
                assert(xs@ == want[k as int].0->0 && call_ensures(positive, (xs,), a));
                a
            },
            None => false,
        };
        assert(want[k as int].0 is None ==> shapes@[k as int].0 is None);
        offsets.push(o);
        assert forall|i: int|
            0 <= i < want.take(k + 1).len() && (#[trigger] want.take(k + 1)[i]).0 is Some implies exists|t: &str|
                t@ == want.take(k + 1)[i].0->0 && call_ensures(positive, (t,), offsets@[i]) by {
            if i < k {
                assert(want.take(k as int)[i] == want.take(k + 1)[i]);
                assert(offsets@[i] == before[i]);
            }
        }
        k = k + 1;
    }
    assert(want.take(shapes.len() as int) =~= want);
    let color = pick_fill(&shapes, &offsets);
    assert(shapes@.map_values(|e: (Option<String>, Rgb)| (opt_view(e.0), e.1)) =~= want);
    assert(offsets_fit(want, offsets@));
    assert(offsets_answered(positive, want, offsets@));
    Some(BadgeText { label: string_of(&label), value, color, label_color: None })
}

// ---------------------------------------------------------------------------------------------
// Badges in a document
// ---------------------------------------------------------------------------------------------
/// The badge images among inlines, in order, looking inside emphasis and links (not inside an
/// image's alt text).
pub open spec fn inline_badges(x: Inline) -> Seq<Seq<char>>
    decreases x,
{
    match x {
        Inline::Image { url, .. } => if badge_url(url@) {
            seq![url@]
        } else {
            seq![]
        },
        Inline::Emphasis(c) => inlines_badges(c@),
        Inline::Strong(c) => inlines_badges(c@),
        Inline::Strikethrough(c) => inlines_badges(c@),
        Inline::Link { content, .. } => inlines_badges(content@),
        Inline::WikiLink { content, .. } => inlines_badges(content@),
        _ => seq![],
    }
}

pub open spec fn inlines_badges(s: Seq<Inline>) -> Seq<Seq<char>>
    decreases s,
{
    if s.len() == 0 {
        seq![]
    } else {
        inlines_badges(s.drop_last()) + inline_badges(s.last())
    }
}

/// The badge images of a block and the blocks inside it, in document order: headings,
/// paragraphs, quotes, list items, definitions and table cells.
pub open spec fn block_badges(b: Block) -> Seq<Seq<char>>
    decreases b,
{
    match b.kind {
        BlockKind::Heading { content, .. } => inlines_badges(content@),
        BlockKind::Paragraph(c) => inlines_badges(c@),
        BlockKind::BlockQuote { blocks, .. } => blocks_badges(blocks@),
        BlockKind::List(l) => items_badges(l.items@),
        BlockKind::DefinitionList(d) => defs_badges(d@),
        BlockKind::Table(t) => cells_badges(t.header@) + rows_badges(t.rows@),
        _ => seq![],
    }
}

pub open spec fn blocks_badges(s: Seq<Block>) -> Seq<Seq<char>>
    decreases s,
{
    if s.len() == 0 {
        seq![]
    } else {
        blocks_badges(s.drop_last()) + block_badges(s.last())
    }
}

pub open spec fn items_badges(s: Seq<ListItem>) -> Seq<Seq<char>>
    decreases s,
{
    if s.len() == 0 {
        seq![]
    } else {
        items_badges(s.drop_last()) + blocks_badges(s.last().blocks@)
    }
}

pub open spec fn details_badges(s: Seq<Vec<Block>>) -> Seq<Seq<char>>
    decreases s,
{
    if s.len() == 0 {
        seq![]
    } else {
        details_badges(s.drop_last()) + blocks_badges(s.last()@)
    }
}

pub open spec fn defs_badges(s: Seq<Definition>) -> Seq<Seq<char>>
    decreases s,
{
    if s.len() == 0 {
        seq![]
    } else {
        defs_badges(s.drop_last()) + inlines_badges(s.last().term@) + details_badges(
            s.last().details@,
        )
    }
}

pub open spec fn cells_badges(s: Seq<Vec<Inline>>) -> Seq<Seq<char>>
    decreases s,
{
    if s.len() == 0 {
        seq![]
    } else {
        cells_badges(s.drop_last()) + inlines_badges(s.last()@)
    }
}

pub open spec fn rows_badges(s: Seq<Vec<Vec<Inline>>>) -> Seq<Seq<char>>
    decreases s,
{
    if s.len() == 0 {
        seq![]
    } else {
        rows_badges(s.drop_last()) + cells_badges(s.last()@)
    }
}

pub open spec fn notes_badges(s: Seq<Footnote>) -> Seq<Seq<char>>
    decreases s.len(),
{
    if s.len() == 0 {
        seq![]
    } else {
        notes_badges(s.drop_last()) + blocks_badges(s.last().blocks@)
    }
}

/// `acc` with `x` added at the end, unless it is there already.
pub open spec fn add_one(acc: Seq<Seq<char>>, x: Seq<char>) -> Seq<Seq<char>> {
    if acc.contains(x) {
        acc
    } else {
        acc.push(x)
    }
}

/// `acc` with each of `items` added in turn, skipping those already there.
pub open spec fn add_all(acc: Seq<Seq<char>>, items: Seq<Seq<char>>) -> Seq<Seq<char>>
    decreases items.len(),
{
    if items.len() == 0 {
        acc
    } else {
        add_one(add_all(acc, items.drop_last()), items.last())
    }
}

pub proof fn lemma_add_all_concat(acc: Seq<Seq<char>>, a: Seq<Seq<char>>, b: Seq<Seq<char>>)
    ensures
        add_all(acc, a + b) == add_all(add_all(acc, a), b),
    decreases b.len(),
{
    if b.len() == 0 {
        assert(a + b =~= a);
    } else {
        assert((a + b).drop_last() =~= a + b.drop_last());
        lemma_add_all_concat(acc, a, b.drop_last());
    }
}

/// The text of each string.
pub open spec fn str_views(v: Seq<String>) -> Seq<Seq<char>> {
    v.map_values(|s: String| s@)
}

fn add_url(urls: &mut Vec<String>, url: &String)
    ensures
        str_views(final(urls)@) == add_one(str_views(old(urls)@), url@),
{
    let ghost sv = str_views(urls@);
    let mut j: usize = 0;
    while j < urls.len()
        invariant
            j <= urls.len(),
            sv == str_views(urls@),
            forall|k: int| 0 <= k < j ==> sv[k] != url@,
        decreases urls.len() - j,
    {
        if urls[j] == *url {
            assert(sv[j as int] == url@);
            assert(sv.contains(url@));
            return;
        }
        j = j + 1;
    }
    assert(!sv.contains(url@));
    urls.push(url.clone());
    assert(str_views(urls@) =~= sv.push(url@));
}

fn walk_inlines(inlines: &Vec<Inline>, urls: &mut Vec<String>)
    ensures
        str_views(final(urls)@) == add_all(str_views(old(urls)@), inlines_badges(inlines@)),
    decreases inlines,
{
    let ghost start = str_views(urls@);
    let mut i: usize = 0;
    assert(inlines@.take(0) =~= Seq::<Inline>::empty());
    while i < inlines.len()
        invariant
            i <= inlines.len(),
            str_views(urls@) == add_all(start, inlines_badges(inlines@.take(i as int))),
        decreases inlines.len() - i,
    {
        let ghost before = str_views(urls@);
        let x = &inlines[i];
        assert(inlines@.take(i + 1).drop_last() =~= inlines@.take(i as int));
        match x {
            Inline::Image { url, .. } => {
                if is_badge(url.as_str()) {
                    add_url(urls, url);
                    assert(add_all(before, seq![url@]) == add_one(before, url@)) by {
                        assert(seq![url@].drop_last() =~= Seq::<Seq<char>>::empty());
                        assert(add_all(before, Seq::<Seq<char>>::empty()) == before);
                        assert(seq![url@].last() == url@);
                    }
                } else {
                    assert(add_all(before, Seq::<Seq<char>>::empty()) == before);
                }
            },
            Inline::Emphasis(c) => walk_inlines(c, urls),
            Inline::Strong(c) => walk_inlines(c, urls),
            Inline::Strikethrough(c) => walk_inlines(c, urls),
            Inline::Link { content, .. } => walk_inlines(content, urls),
            Inline::WikiLink { content, .. } => walk_inlines(content, urls),
            _ => {
                assert(add_all(before, Seq::<Seq<char>>::empty()) == before);
            },
        }
        proof {
            lemma_add_all_concat(start, inlines_badges(inlines@.take(i as int)), inline_badges(*x));
        }
        i = i + 1;
    }
    assert(inlines@.take(inlines.len() as int) =~= inlines@);
}

fn walk_blocks(blocks: &Vec<Block>, urls: &mut Vec<String>)
    ensures
        str_views(final(urls)@) == add_all(str_views(old(urls)@), blocks_badges(blocks@)),
    decreases blocks,
{
    let ghost start = str_views(urls@);
    let mut i: usize = 0;
    assert(blocks@.take(0) =~= Seq::<Block>::empty());
    while i < blocks.len()
        invariant
            i <= blocks.len(),
            str_views(urls@) == add_all(start, blocks_badges(blocks@.take(i as int))),
        decreases blocks.len() - i,
    {
        assert(blocks@.take(i + 1).drop_last() =~= blocks@.take(i as int));
        walk_block(&blocks[i], urls);
        proof {
            lemma_add_all_concat(start, blocks_badges(blocks@.take(i as int)), block_badges(blocks@[i as int]));
        }
        i = i + 1;
    }
    assert(blocks@.take(blocks.len() as int) =~= blocks@);
}

fn walk_cells(cells: &Vec<Vec<Inline>>, urls: &mut Vec<String>)
    ensures
        str_views(final(urls)@) == add_all(str_views(old(urls)@), cells_badges(cells@)),
{
    let ghost start = str_views(urls@);
    let mut i: usize = 0;
    assert(cells@.take(0) =~= Seq::<Vec<Inline>>::empty());
    while i < cells.len()
        invariant
            i <= cells.len(),
            str_views(urls@) == add_all(start, cells_badges(cells@.take(i as int))),
        decreases cells.len() - i,
    {
        assert(cells@.take(i + 1).drop_last() =~= cells@.take(i as int));
        walk_inlines(&cells[i], urls);
        proof {
            lemma_add_all_concat(start, cells_badges(cells@.take(i as int)), inlines_badges(cells@[i as int]@));
        }
        i = i + 1;
    }
    assert(cells@.take(cells.len() as int) =~= cells@);
}

fn walk_items(items: &Vec<ListItem>, urls: &mut Vec<String>)
    ensures
        str_views(final(urls)@) == add_all(str_views(old(urls)@), items_badges(items@)),
    decreases items,
{
    let ghost start = str_views(urls@);
    let mut i: usize = 0;
    assert(items@.take(0) =~= Seq::<ListItem>::empty());
    while i < items.len()
        invariant
            i <= items.len(),
            str_views(urls@) == add_all(start, items_badges(items@.take(i as int))),
        decreases items.len() - i,
    {
        assert(items@.take(i + 1).drop_last() =~= items@.take(i as int));
        let item = &items[i];
        walk_blocks(&item.blocks, urls);
        proof {
            lemma_add_all_concat(
                start,
                items_badges(items@.take(i as int)),
                blocks_badges(items@[i as int].blocks@),
            );
        }
        i = i + 1;
    }
    assert(items@.take(items.len() as int) =~= items@);
}

fn walk_details(details: &Vec<Vec<Block>>, urls: &mut Vec<String>)
    ensures
        str_views(final(urls)@) == add_all(str_views(old(urls)@), details_badges(details@)),
    decreases details,
{
    let ghost start = str_views(urls@);
    let mut k: usize = 0;
    assert(details@.take(0) =~= Seq::<Vec<Block>>::empty());
    while k < details.len()
        invariant
            k <= details.len(),
            str_views(urls@) == add_all(start, details_badges(details@.take(k as int))),
        decreases details.len() - k,
    {
        assert(details@.take(k + 1).drop_last() =~= details@.take(k as int));
        let detail = &details[k];
        walk_blocks(detail, urls);
        proof {
            lemma_add_all_concat(
                start,
                details_badges(details@.take(k as int)),
                blocks_badges(details@[k as int]@),
            );
        }
        k = k + 1;
    }
    assert(details@.take(details.len() as int) =~= details@);
}

fn walk_defs(defs: &Vec<Definition>, urls: &mut Vec<String>)
    ensures
        str_views(final(urls)@) == add_all(str_views(old(urls)@), defs_badges(defs@)),
    decreases defs,
{
    let ghost start = str_views(urls@);
    let mut i: usize = 0;
    assert(defs@.take(0) =~= Seq::<Definition>::empty());
    while i < defs.len()
        invariant
            i <= defs.len(),
            str_views(urls@) == add_all(start, defs_badges(defs@.take(i as int))),
        decreases defs.len() - i,
    {
        assert(defs@.take(i + 1).drop_last() =~= defs@.take(i as int));
        let ghost at_def = str_views(urls@);
        let def = &defs[i];
        walk_inlines(&def.term, urls);
        walk_details(&def.details, urls);
        proof {
            lemma_add_all_concat(at_def, inlines_badges(def.term@), details_badges(def.details@));
            lemma_add_all_concat(
                start,
                defs_badges(defs@.take(i as int)),
                inlines_badges(def.term@) + details_badges(def.details@),
            );
            assert(defs_badges(defs@.take(i as int)) + inlines_badges(def.term@) + details_badges(
                def.details@,
            ) =~= defs_badges(defs@.take(i as int)) + (inlines_badges(def.term@) + details_badges(
                def.details@,
            )));
        }
        i = i + 1;
    }
    assert(defs@.take(defs.len() as int) =~= defs@);
}

fn walk_block(block: &Block, urls: &mut Vec<String>)
    ensures
        str_views(final(urls)@) == add_all(str_views(old(urls)@), block_badges(*block)),
    decreases block,
{
    let ghost start = str_views(urls@);
    match &block.kind {
        BlockKind::Heading { content, .. } => walk_inlines(content, urls),
        BlockKind::Paragraph(content) => walk_inlines(content, urls),
        BlockKind::BlockQuote { blocks, .. } => walk_blocks(blocks, urls),
        BlockKind::List(list) => walk_items(&list.items, urls),
        BlockKind::DefinitionList(defs) => walk_defs(defs, urls),
        BlockKind::Table(table) => {
            walk_cells(&table.header, urls);
            let ghost mid = str_views(urls@);
            let rows = &table.rows;
            let mut i: usize = 0;
            assert(rows@.take(0) =~= Seq::<Vec<Vec<Inline>>>::empty());
            while i < rows.len()
                invariant
                    i <= rows.len(),
                    str_views(urls@) == add_all(mid, rows_badges(rows@.take(i as int))),
                decreases rows.len() - i,
            {
                assert(rows@.take(i + 1).drop_last() =~= rows@.take(i as int));
                walk_cells(&rows[i], urls);
                proof {
                    lemma_add_all_concat(mid, rows_badges(rows@.take(i as int)), cells_badges(rows@[i as int]@));
                }
                i = i + 1;
            }
            assert(rows@.take(rows.len() as int) =~= rows@);
            proof {
                lemma_add_all_concat(start, cells_badges(table.header@), rows_badges(rows@));
            }
        },
        _ => {
            assert(add_all(start, Seq::<Seq<char>>::empty()) == start);
        },
    }
}

/// The badge images of the whole document, body then footnotes.
pub open spec fn document_badges(doc: Document) -> Seq<Seq<char>> {
    blocks_badges(doc.blocks@) + notes_badges(doc.footnotes@)
}

/// The URLs of the badge images anywhere in the document, body first, then footnotes, each
/// once, in the order they first appear.
pub fn badge_urls(doc: &Document) -> (r: Vec<String>)
    ensures
        str_views(r@) == add_all(seq![], document_badges(*doc)),
{
    let mut urls: Vec<String> = Vec::new();
    assert(str_views(urls@) =~= Seq::<Seq<char>>::empty());
    walk_blocks(&doc.blocks, &mut urls);
    let ghost mid = str_views(urls@);
    let notes = &doc.footnotes;
    let mut i: usize = 0;
    assert(notes@.take(0) =~= Seq::<Footnote>::empty());
    while i < notes.len()
        invariant
            i <= notes.len(),
            str_views(urls@) == add_all(mid, notes_badges(notes@.take(i as int))),
        decreases notes.len() - i,
    {
        assert(notes@.take(i + 1).drop_last() =~= notes@.take(i as int));
        walk_blocks(&notes[i].blocks, &mut urls);
        proof {
            lemma_add_all_concat(mid, notes_badges(notes@.take(i as int)), blocks_badges(notes@[i as int].blocks@));
        }
        i = i + 1;
    }
    assert(notes@.take(notes.len() as int) =~= notes@);
    proof {
        lemma_add_all_concat(seq![], blocks_badges(doc.blocks@), notes_badges(notes@));
    }
    urls
}

} // verus!
