//! Themes: the colors of every token the viewer paints, read from a theme file, and the
//! color forms theme files and badges write.
use ratatui_core::style::Color as RColor;
use std::str::FromStr;
use two_face::theme::{EmbeddedLazyThemeSet, EmbeddedThemeName};
use vstd::prelude::*;

use crate::project::tree::unicode_str_lowercase;
use crate::render::glyphs::{GlyphTier, Glyphs};
use crate::text::{
    chars_eq, ends_with, extend, matches_at, occurs_at, replace_all,
    chars_of, decimal, decimal_of, eq_lit, hex_digit, hex_value, is_ws, join, join_vec, lower_seq,
    lower_vec, push_char, string_of, trim, trimmed, views,
};

verus! {

/// The version of the theme file format this library reads.
pub const SCHEMA: u32 = 1;

/// A terminal color, as ratatui names them.
#[derive(Debug, Clone, Copy, PartialEq, Eq, Hash, Structural)]
pub enum Color {
    Reset,
    Black,
    Red,
    Green,
    Yellow,
    Blue,
    Magenta,
    Cyan,
    Gray,
    DarkGray,
    LightRed,
    LightGreen,
    LightYellow,
    LightBlue,
    LightMagenta,
    LightCyan,
    White,
    Rgb(u8, u8, u8),
    Indexed(u8),
}

/// Which of the three wrappers below reads a color: the first named colors, the light ones,
/// or RGB and indexed colors.
pub open spec fn color_group(c: Color) -> int {
    match c {
        Color::Reset => 0,
        Color::Black => 0,
        Color::Red => 0,
        Color::Green => 0,
        Color::Yellow => 0,
        Color::Blue => 0,
        Color::Magenta => 0,
        Color::Cyan => 0,
        Color::Gray => 0,
        Color::DarkGray => 1,
        Color::LightRed => 1,
        Color::LightGreen => 1,
        Color::LightYellow => 1,
        Color::LightBlue => 1,
        Color::LightMagenta => 1,
        Color::LightCyan => 1,
        Color::White => 1,
        Color::Rgb(_, _, _) => 2,
        Color::Indexed(_) => 2,
    }
}

/// The color if it is in group `g`.
pub open spec fn in_group(o: Option<Color>, g: int) -> Option<Color> {
    match o {
        Some(c) => if color_group(c) == g {
            Some(c)
        } else {
            None
        },
        None => None,
    }
}

/// A text as ratatui normalises a color name: lowercased, spaces, `-` and `_` taken out,
/// `bright` read as `light`, `grey` and `silver` as `gray`, `lightblack` as `darkgray`, and
/// `lightwhite` and `lightgray` as `white`, in that order.
pub open spec fn ratatui_name(text: Seq<char>) -> Seq<char> {
    let a = unicode_str_lowercase(text).filter(|c: char| c != ' ' && c != '-' && c != '_');
    let b = replace_all(a, "bright"@, "light"@);
    let c = replace_all(b, "grey"@, "gray"@);
    let d = replace_all(c, "silver"@, "gray"@);
    let e = replace_all(d, "lightblack"@, "darkgray"@);
    let f = replace_all(e, "lightwhite"@, "white"@);
    replace_all(f, "lightgray"@, "white"@)
}

/// The named colors ratatui knows.
pub open spec fn ratatui_named(n: Seq<char>) -> Option<Color> {
    if n == "reset"@ {
        Some(Color::Reset)
    } else if n == "black"@ {
        Some(Color::Black)
    } else if n == "red"@ {
        Some(Color::Red)
    } else if n == "green"@ {
        Some(Color::Green)
    } else if n == "yellow"@ {
        Some(Color::Yellow)
    } else if n == "blue"@ {
        Some(Color::Blue)
    } else if n == "magenta"@ {
        Some(Color::Magenta)
    } else if n == "cyan"@ {
        Some(Color::Cyan)
    } else if n == "gray"@ {
        Some(Color::Gray)
    } else if n == "darkgray"@ {
        Some(Color::DarkGray)
    } else if n == "lightred"@ {
        Some(Color::LightRed)
    } else if n == "lightgreen"@ {
        Some(Color::LightGreen)
    } else if n == "lightyellow"@ {
        Some(Color::LightYellow)
    } else if n == "lightblue"@ {
        Some(Color::LightBlue)
    } else if n == "lightmagenta"@ {
        Some(Color::LightMagenta)
    } else if n == "lightcyan"@ {
        Some(Color::LightCyan)
    } else if n == "white"@ {
        Some(Color::White)
    } else {
        None
    }
}

/// The number ASCII digits spell.
pub open spec fn digits_value(d: Seq<char>) -> int
    decreases d.len(),
{
    if d.len() == 0 {
        0
    } else {
        digits_value(d.drop_last()) * 10 + (d.last() as u32 - 0x30)
    }
}

/// `u8::from_str`: decimal digits after an optional `+`, at most 255.
pub open spec fn u8_text(s: Seq<char>) -> Option<u8> {
    let d = if s.len() > 0 && s[0] == '+' {
        s.drop_first()
    } else {
        s
    };
    if d.len() > 0 && (forall|i: int| 0 <= i < d.len() ==> '0' <= #[trigger] d[i] <= '9') && digits_value(d)
        <= 255 {
        Some(digits_value(d) as u8)
    } else {
        None
    }
}

/// `u8::from_str_radix(pair, 16)`: two hex digits, or `+` and one.
pub open spec fn hex_pair(a: char, b: char) -> Option<u8> {
    if a == '+' {
        hex_value(b)
    } else if hex_value(a) is Some && hex_value(b) is Some {
        Some((hex_value(a)->0 * 16 + hex_value(b)->0) as u8)
    } else {
        None
    }
}

/// What ratatui's `Color::from_str` reads from a text: a color name once normalised (see
/// `ratatui_name`), else an index `u8::from_str` reads, else `#` and three byte pairs in hex.
pub open spec fn ratatui_color(text: Seq<char>) -> Option<Color> {
    match ratatui_named(ratatui_name(text)) {
        Some(c) => Some(c),
        None => match u8_text(text) {
            Some(i) => Some(Color::Indexed(i)),
            None => if text.len() == 7 && text[0] == '#' && hex_pair(text[1], text[2]) is Some
                && hex_pair(text[3], text[4]) is Some && hex_pair(text[5], text[6]) is Some {
                Some(
                    Color::Rgb(
                        hex_pair(text[1], text[2])->0,
                        hex_pair(text[3], text[4])->0,
                        hex_pair(text[5], text[6])->0,
                    ),
                )
            } else {
                None
            },
        },
    }
}

/// `ratatui_core::style::Color::from_str`, for the colors `Reset` to `Gray`; the contract states
/// the answer as the crate's source reads it (`ratatui_color`).
#[verifier::external_body]
fn ratatui_basic(text: &str) -> (r: Option<Color>)
    ensures
        r == in_group(ratatui_color(text@), 0),
{
    match RColor::from_str(text) {
        Ok(RColor::Reset) => Some(Color::Reset),
        Ok(RColor::Black) => Some(Color::Black),
        Ok(RColor::Red) => Some(Color::Red),
        Ok(RColor::Green) => Some(Color::Green),
        Ok(RColor::Yellow) => Some(Color::Yellow),
        Ok(RColor::Blue) => Some(Color::Blue),
        Ok(RColor::Magenta) => Some(Color::Magenta),
        Ok(RColor::Cyan) => Some(Color::Cyan),
        Ok(RColor::Gray) => Some(Color::Gray),
        _ => None,
    }
}

/// `ratatui_core::style::Color::from_str`, for the colors `DarkGray` to `White`; the contract
/// states the answer (`ratatui_color`).
#[verifier::external_body]
fn ratatui_light(text: &str) -> (r: Option<Color>)
    ensures
        r == in_group(ratatui_color(text@), 1),
{
    match RColor::from_str(text) {
        Ok(RColor::DarkGray) => Some(Color::DarkGray),
        Ok(RColor::LightRed) => Some(Color::LightRed),
        Ok(RColor::LightGreen) => Some(Color::LightGreen),
        Ok(RColor::LightYellow) => Some(Color::LightYellow),
        Ok(RColor::LightBlue) => Some(Color::LightBlue),
        Ok(RColor::LightMagenta) => Some(Color::LightMagenta),
        Ok(RColor::LightCyan) => Some(Color::LightCyan),
        Ok(RColor::White) => Some(Color::White),
        _ => None,
    }
}

/// `ratatui_core::style::Color::from_str`, for RGB and indexed colors; the contract states the
/// answer (`ratatui_color`).
#[verifier::external_body]
fn ratatui_numeric(text: &str) -> (r: Option<Color>)
    ensures
        r == in_group(ratatui_color(text@), 2),
{
    match RColor::from_str(text) {
        Ok(RColor::Rgb(r, g, b)) => Some(Color::Rgb(r, g, b)),
        Ok(RColor::Indexed(i)) => Some(Color::Indexed(i)),
        _ => None,
    }
}

/// The color ratatui reads from a text.
fn ratatui_parse(text: &str) -> (r: Option<Color>)
    ensures
        r == ratatui_color(text@),
{
    match ratatui_basic(text) {
        Some(c) => Some(c),
        None => match ratatui_light(text) {
            Some(c) => Some(c),
            None => ratatui_numeric(text),
        },
    }
}

// ---------------------------------------------------------------------------------------------
// Theme colors
// ---------------------------------------------------------------------------------------------
/// A color as theme files write it: `default`, `none` or `reset` (any case) for the terminal's
/// own, `#rgb`, or any form ratatui reads; surrounding whitespace is ignored.
pub open spec fn parse_color_spec(value: Seq<char>) -> Option<Color> {
    let v = trim(value);
    let l = lower_seq(v);
    if l == "default"@ || l == "none"@ || l == "reset"@ {
        Some(Color::Reset)
    } else if v.len() == 4 && v[0] == '#' && hex_value(v[1]) is Some && hex_value(v[2]) is Some
        && hex_value(v[3]) is Some {
        Some(
            Color::Rgb(
                (hex_value(v[1])->0 * 17) as u8,
                (hex_value(v[2])->0 * 17) as u8,
                (hex_value(v[3])->0 * 17) as u8,
            ),
        )
    } else {
        ratatui_color(v)
    }
}

/// Reads a color as theme files write it.
pub fn parse_color(value: &str) -> (r: Option<Color>)
    ensures
        r == parse_color_spec(value@),
{
    let all = chars_of(value);
    let v = trimmed(&all);
    let l = lower_vec(&v);
    if eq_lit(&l, "default") || eq_lit(&l, "none") || eq_lit(&l, "reset") {
        return Some(Color::Reset);
    }
    if v.len() == 4 && v[0] == '#' {
        match (hex_digit(v[1]), hex_digit(v[2]), hex_digit(v[3])) {
            (Some(r), Some(g), Some(b)) => {
                assert(r < 16 && g < 16 && b < 16);
                return Some(Color::Rgb(r * 17, g * 17, b * 17));
            },
            _ => {},
        }
    }
    let s = string_of(&v);
    ratatui_parse(s.as_str())
}

/// How many colors a terminal shows.
#[derive(Debug, Clone, Copy, PartialEq, Eq, Structural)]
pub enum ColorMode {
    TrueColor,
    Indexed,
    Mono,
}

/// Whether a theme is for a dark or a light background.
#[derive(Debug, Clone, Copy, PartialEq, Eq, Structural)]
pub enum Kind {
    Dark,
    Light,
}

/// A kind by its name, or what is wrong with the name.
pub open spec fn kind_spec(s: Seq<char>) -> Result<Kind, Seq<char>> {
    if s == "dark"@ {
        Ok(Kind::Dark)
    } else if s == "light"@ {
        Ok(Kind::Light)
    } else {
        Err("unknown kind `"@ + s + "`, expected dark or light"@)
    }
}

impl Kind {
    /// Reads a kind's name.
    pub fn from_str(s: &str) -> (r: Result<Kind, String>)
        ensures
            r matches Ok(k) ==> kind_spec(s@) == Ok::<Kind, Seq<char>>(k),
            r matches Err(e) ==> kind_spec(s@) == Err::<Kind, Seq<char>>(e@),
    {
        let v = chars_of(s);
        if eq_lit(&v, "dark") {
            Ok(Kind::Dark)
        } else if eq_lit(&v, "light") {
            Ok(Kind::Light)
        } else {
            let mut e = String::new();
            e.append("unknown kind `");
            e.append(s);
            e.append("`, expected dark or light");
            Err(e)
        }
    }

    /// The kind's name.
    pub fn to_string(&self) -> (r: String)
        ensures
            *self == Kind::Dark ==> r@ == "dark"@,
            *self == Kind::Light ==> r@ == "light"@,
    {
        match self {
            Kind::Dark => "dark".to_string(),
            Kind::Light => "light".to_string(),
        }
    }
}

/// What is wrong with a theme file.
#[derive(Debug, Clone, PartialEq, Eq)]
pub struct ThemeError(pub String);

// ---------------------------------------------------------------------------------------------
// Tokens
// ---------------------------------------------------------------------------------------------
/// The number of color tokens a theme sets.
pub const TOKEN_COUNT: usize = 38;

/// The names of the tokens, in the order the docs list them.
pub open spec fn token_names() -> Seq<Seq<char>> {
    seq!["bg"@, "fg"@, "fg_muted"@, "fg_faint"@, "accent"@, "h1"@, "h2"@, "h3"@, "h4"@, "h5"@, "h6"@, "h1_fg"@, "link"@, "link_url"@, "code_fg"@, "code_bg"@, "code_border"@, "surface"@, "quote_bar"@, "quote_fg"@, "rule"@, "table_border"@, "list_marker"@, "status_bg"@, "status_fg"@, "search_bg"@, "search_fg"@, "search_current_bg"@, "overlay_border"@, "selected_bg"@, "alert_note"@, "alert_tip"@, "alert_important"@, "alert_warning"@, "alert_caution"@, "math"@, "label_bg"@, "label_value_bg"@]
}

/// The name of token `i`.
pub fn token_name(i: usize) -> (r: &'static str)
    requires
        i < TOKEN_COUNT,
    ensures
        r@ == token_names()[i as int],
{
    match i {
        0 => "bg",
        1 => "fg",
        2 => "fg_muted",
        3 => "fg_faint",
        4 => "accent",
        5 => "h1",
        6 => "h2",
        7 => "h3",
        8 => "h4",
        9 => "h5",
        10 => "h6",
        11 => "h1_fg",
        12 => "link",
        13 => "link_url",
        14 => "code_fg",
        15 => "code_bg",
        16 => "code_border",
        17 => "surface",
        18 => "quote_bar",
        19 => "quote_fg",
        20 => "rule",
        21 => "table_border",
        22 => "list_marker",
        23 => "status_bg",
        24 => "status_fg",
        25 => "search_bg",
        26 => "search_fg",
        27 => "search_current_bg",
        28 => "overlay_border",
        29 => "selected_bg",
        30 => "alert_note",
        31 => "alert_tip",
        32 => "alert_important",
        33 => "alert_warning",
        34 => "alert_caution",
        35 => "math",
        36 => "label_bg",
        _ => "label_value_bg",
    }
}

/// What each token paints, in [`token_names`] order.
pub open spec fn token_abouts() -> Seq<Seq<char>> {
    seq!["Background behind the whole viewer, `default` keeps the terminal's own"@, "Body text"@, "Secondary text: H5 and H6, quotes, front matter keys, panel connectors"@, "Hints, placeholders, raw HTML, the overflow marker"@, "Status chip, focus, footnote markers, the image marker"@, "The H1 title chip"@, "H2 text and its underline, second-level list markers"@, "H3 text, third-level list markers"@, "H4 text"@, "H5 text"@, "H6 text"@, "Text on the H1 chip and the status chip"@, "Link text"@, "The URL shown after a link"@, "Inline code text"@, "Inline code and code block background"@, "The bar left of a code block"@, "Panel tint, table header band"@, "The bar left of a quote"@, "Quote text"@, "Thematic breaks"@, "Table box drawing"@, "First-level list markers"@, "Status bar background"@, "Status bar text"@, "Search matches"@, "Text on a search match"@, "The current search match"@, "Border of overlays: help, contents, finder"@, "Selected row in a panel or overlay"@, "NOTE alerts"@, "TIP alerts"@, "IMPORTANT alerts"@, "WARNING alerts"@, "CAUTION alerts"@, "Inline and block math"@, "Key side of a front matter or badge chip"@, "Value side of a front matter chip"@]
}

/// What token `i` paints.
pub fn token_about(i: usize) -> (r: &'static str)
    requires
        i < TOKEN_COUNT,
    ensures
        r@ == token_abouts()[i as int],
{
    match i {
        0 => "Background behind the whole viewer, `default` keeps the terminal's own",
        1 => "Body text",
        2 => "Secondary text: H5 and H6, quotes, front matter keys, panel connectors",
        3 => "Hints, placeholders, raw HTML, the overflow marker",
        4 => "Status chip, focus, footnote markers, the image marker",
        5 => "The H1 title chip",
        6 => "H2 text and its underline, second-level list markers",
        7 => "H3 text, third-level list markers",
        8 => "H4 text",
        9 => "H5 text",
        10 => "H6 text",
        11 => "Text on the H1 chip and the status chip",
        12 => "Link text",
        13 => "The URL shown after a link",
        14 => "Inline code text",
        15 => "Inline code and code block background",
        16 => "The bar left of a code block",
        17 => "Panel tint, table header band",
        18 => "The bar left of a quote",
        19 => "Quote text",
        20 => "Thematic breaks",
        21 => "Table box drawing",
        22 => "First-level list markers",
        23 => "Status bar background",
        24 => "Status bar text",
        25 => "Search matches",
        26 => "Text on a search match",
        27 => "The current search match",
        28 => "Border of overlays: help, contents, finder",
        29 => "Selected row in a panel or overlay",
        30 => "NOTE alerts",
        31 => "TIP alerts",
        32 => "IMPORTANT alerts",
        33 => "WARNING alerts",
        34 => "CAUTION alerts",
        35 => "Inline and block math",
        36 => "Key side of a front matter or badge chip",
        37 => "Value side of a front matter chip",
        _ => "",
    }
}

/// A theme: its name, kind, code theme, color mode, glyphs and the color of each token.
#[derive(Debug, Clone)]
pub struct Theme {
    pub name: String,
    pub kind: Kind,
    pub syntax: EmbeddedThemeName,
    pub mode: ColorMode,
    pub glyphs: Glyphs,
    /// Background behind the whole viewer, `default` keeps the terminal's own
    pub bg: Color,
    /// Body text
    pub fg: Color,
    /// Secondary text: H5 and H6, quotes, front matter keys, panel connectors
    pub fg_muted: Color,
    /// Hints, placeholders, raw HTML, the overflow marker
    pub fg_faint: Color,
    /// Status chip, focus, footnote markers, the image marker
    pub accent: Color,
    /// The H1 title chip
    pub h1: Color,
    /// H2 text and its underline, second-level list markers
    pub h2: Color,
    /// H3 text, third-level list markers
    pub h3: Color,
    /// H4 text
    pub h4: Color,
    /// H5 text
    pub h5: Color,
    /// H6 text
    pub h6: Color,
    /// Text on the H1 chip and the status chip
    pub h1_fg: Color,
    /// Link text
    pub link: Color,
    /// The URL shown after a link
    pub link_url: Color,
    /// Inline code text
    pub code_fg: Color,
    /// Inline code and code block background
    pub code_bg: Color,
    /// The bar left of a code block
    pub code_border: Color,
    /// Panel tint, table header band
    pub surface: Color,
    /// The bar left of a quote
    pub quote_bar: Color,
    /// Quote text
    pub quote_fg: Color,
    /// Thematic breaks
    pub rule: Color,
    /// Table box drawing
    pub table_border: Color,
    /// First-level list markers
    pub list_marker: Color,
    /// Status bar background
    pub status_bg: Color,
    /// Status bar text
    pub status_fg: Color,
    /// Search matches
    pub search_bg: Color,
    /// Text on a search match
    pub search_fg: Color,
    /// The current search match
    pub search_current_bg: Color,
    /// Border of overlays: help, contents, finder
    pub overlay_border: Color,
    /// Selected row in a panel or overlay
    pub selected_bg: Color,
    /// NOTE alerts
    pub alert_note: Color,
    /// TIP alerts
    pub alert_tip: Color,
    /// IMPORTANT alerts
    pub alert_important: Color,
    /// WARNING alerts
    pub alert_warning: Color,
    /// CAUTION alerts
    pub alert_caution: Color,
    /// Inline and block math
    pub math: Color,
    /// Key side of a front matter or badge chip
    pub label_bg: Color,
    /// Value side of a front matter chip
    pub label_value_bg: Color,
}

#[verifier::external_type_specification]
#[verifier::external_body]
pub struct ExEmbeddedThemeName(EmbeddedThemeName);

/// `EmbeddedThemeName::clone`: the name is `Copy`, so the clone is the same name.
pub assume_specification[ <EmbeddedThemeName as Clone>::clone ](t: &EmbeddedThemeName) -> (r:
    EmbeddedThemeName)
    ensures
        r == *t,
;

/// The colors of a theme's tokens, in [`token_names`] order.
pub open spec fn tokens_of(t: Theme) -> Seq<Color> {
    seq![t.bg, t.fg, t.fg_muted, t.fg_faint, t.accent, t.h1, t.h2, t.h3, t.h4, t.h5, t.h6, t.h1_fg, t.link, t.link_url, t.code_fg, t.code_bg, t.code_border, t.surface, t.quote_bar, t.quote_fg, t.rule, t.table_border, t.list_marker, t.status_bg, t.status_fg, t.search_bg, t.search_fg, t.search_current_bg, t.overlay_border, t.selected_bg, t.alert_note, t.alert_tip, t.alert_important, t.alert_warning, t.alert_caution, t.math, t.label_bg, t.label_value_bg]
}

impl Theme {
    /// The color of token `i`.
    pub fn token(&self, i: usize) -> (r: Color)
        requires
            i < TOKEN_COUNT,
        ensures
            r == tokens_of(*self)[i as int],
    {
        match i {
            0 => self.bg,
            1 => self.fg,
            2 => self.fg_muted,
            3 => self.fg_faint,
            4 => self.accent,
            5 => self.h1,
            6 => self.h2,
            7 => self.h3,
            8 => self.h4,
            9 => self.h5,
            10 => self.h6,
            11 => self.h1_fg,
            12 => self.link,
            13 => self.link_url,
            14 => self.code_fg,
            15 => self.code_bg,
            16 => self.code_border,
            17 => self.surface,
            18 => self.quote_bar,
            19 => self.quote_fg,
            20 => self.rule,
            21 => self.table_border,
            22 => self.list_marker,
            23 => self.status_bg,
            24 => self.status_fg,
            25 => self.search_bg,
            26 => self.search_fg,
            27 => self.search_current_bg,
            28 => self.overlay_border,
            29 => self.selected_bg,
            30 => self.alert_note,
            31 => self.alert_tip,
            32 => self.alert_important,
            33 => self.alert_warning,
            34 => self.alert_caution,
            35 => self.math,
            36 => self.label_bg,
            _ => self.label_value_bg,
        }
    }

    /// Sets the color of token `i`.
    pub fn set_token(&mut self, i: usize, c: Color)
        requires
            i < TOKEN_COUNT,
        ensures
            tokens_of(*final(self)) == tokens_of(*old(self)).update(i as int, c),
            final(self).name == old(self).name,
            final(self).kind == old(self).kind,
            final(self).syntax == old(self).syntax,
            final(self).mode == old(self).mode,
            final(self).glyphs == old(self).glyphs,
    {
        match i {
            0 => self.bg = c,
            1 => self.fg = c,
            2 => self.fg_muted = c,
            3 => self.fg_faint = c,
            4 => self.accent = c,
            5 => self.h1 = c,
            6 => self.h2 = c,
            7 => self.h3 = c,
            8 => self.h4 = c,
            9 => self.h5 = c,
            10 => self.h6 = c,
            11 => self.h1_fg = c,
            12 => self.link = c,
            13 => self.link_url = c,
            14 => self.code_fg = c,
            15 => self.code_bg = c,
            16 => self.code_border = c,
            17 => self.surface = c,
            18 => self.quote_bar = c,
            19 => self.quote_fg = c,
            20 => self.rule = c,
            21 => self.table_border = c,
            22 => self.list_marker = c,
            23 => self.status_bg = c,
            24 => self.status_fg = c,
            25 => self.search_bg = c,
            26 => self.search_fg = c,
            27 => self.search_current_bg = c,
            28 => self.overlay_border = c,
            29 => self.selected_bg = c,
            30 => self.alert_note = c,
            31 => self.alert_tip = c,
            32 => self.alert_important = c,
            33 => self.alert_warning = c,
            34 => self.alert_caution = c,
            35 => self.math = c,
            36 => self.label_bg = c,
            _ => self.label_value_bg = c,
        }
        assert(tokens_of(*self) =~= tokens_of(*old(self)).update(i as int, c));
    }

    /// A theme with every token at the terminal's own color.
    fn blank(name: &str, kind: Kind) -> (t: Theme)
        ensures
            t.name@ == name@,
            t.kind == kind,
            t.syntax == embedded_theme(default_syntax_index(kind)),
            t.mode == ColorMode::TrueColor,
            t.glyphs.tier == GlyphTier::Unicode,
            t.glyphs.superscript,
            tokens_of(t) == Seq::new(TOKEN_COUNT as nat, |i: int| Color::Reset),
    {
        let t = Theme {
            name: name.to_string(),
            kind,
            syntax: default_syntax(kind),
            mode: ColorMode::TrueColor,
            glyphs: Glyphs::unicode(),
            bg: Color::Reset,
            fg: Color::Reset,
            fg_muted: Color::Reset,
            fg_faint: Color::Reset,
            accent: Color::Reset,
            h1: Color::Reset,
            h2: Color::Reset,
            h3: Color::Reset,
            h4: Color::Reset,
            h5: Color::Reset,
            h6: Color::Reset,
            h1_fg: Color::Reset,
            link: Color::Reset,
            link_url: Color::Reset,
            code_fg: Color::Reset,
            code_bg: Color::Reset,
            code_border: Color::Reset,
            surface: Color::Reset,
            quote_bar: Color::Reset,
            quote_fg: Color::Reset,
            rule: Color::Reset,
            table_border: Color::Reset,
            list_marker: Color::Reset,
            status_bg: Color::Reset,
            status_fg: Color::Reset,
            search_bg: Color::Reset,
            search_fg: Color::Reset,
            search_current_bg: Color::Reset,
            overlay_border: Color::Reset,
            selected_bg: Color::Reset,
            alert_note: Color::Reset,
            alert_tip: Color::Reset,
            alert_important: Color::Reset,
            alert_warning: Color::Reset,
            alert_caution: Color::Reset,
            math: Color::Reset,
            label_bg: Color::Reset,
            label_value_bg: Color::Reset,
        };
        assert(tokens_of(t) =~= Seq::new(TOKEN_COUNT as nat, |i: int| Color::Reset));
        t
    }
}

/// Where a kind of theme's default code theme stands in two-face's list: Catppuccin Mocha
/// for dark themes, Catppuccin Latte for light ones.
pub open spec fn default_syntax_index(kind: Kind) -> int {
    match kind {
        Kind::Dark => 10,
        Kind::Light => 8,
    }
}

/// The code theme a kind of theme uses unless it names one: Catppuccin Mocha or Latte.
pub fn default_syntax(kind: Kind) -> (r: EmbeddedThemeName)
    ensures
        r == embedded_theme(default_syntax_index(kind)),
        kind == Kind::Dark ==> embedded_theme_text(default_syntax_index(kind)) == "Catppuccin Mocha"@,
        kind == Kind::Light ==> embedded_theme_text(default_syntax_index(kind)) == "Catppuccin Latte"@,
{
    match kind {
        Kind::Dark => syntax_theme_at(10),
        Kind::Light => syntax_theme_at(8),
    }
}


// ---------------------------------------------------------------------------------------------
// Code themes
// ---------------------------------------------------------------------------------------------
/// A name made loose: ASCII letters and digits in lower case, each other run of characters one
/// `-`, and none at the ends.
pub open spec fn normalize_spec(name: Seq<char>) -> Seq<char> {
    trim_dashes(normalize_from(name))
}

/// The loose form before its last `-` is taken off.
pub open spec fn normalize_from(name: Seq<char>) -> Seq<char>
    decreases name.len(),
{
    if name.len() == 0 {
        seq![]
    } else {
        let out = normalize_from(name.drop_last());
        let c = name.last();
        if is_ascii_alnum(c) {
            out.push(crate::text::ascii_lower(c))
        } else if out.len() > 0 && out.last() != '-' {
            out.push('-')
        } else {
            out
        }
    }
}

/// `s` without its trailing `-`s.
pub open spec fn trim_dashes(s: Seq<char>) -> Seq<char>
    decreases s.len(),
{
    if s.len() > 0 && s.last() == '-' {
        trim_dashes(s.drop_last())
    } else {
        s
    }
}

/// ASCII letters and digits.
pub open spec fn is_ascii_alnum(c: char) -> bool {
    ('a' <= c && c <= 'z') || ('A' <= c && c <= 'Z') || ('0' <= c && c <= '9')
}

/// A name made loose, so that `Solarized (dark)` and `solarized-dark` match.
pub fn normalize(name: &str) -> (r: String)
    ensures
        r@ == normalize_spec(name@),
{
    let v = chars_of(name);
    let mut out: Vec<char> = Vec::new();
    let mut i: usize = 0;
    assert(v@.take(0) =~= Seq::<char>::empty());
    while i < v.len()
        invariant
            i <= v.len(),
            v@ == name@,
            out@ == normalize_from(v@.take(i as int)),
        decreases v.len() - i,
    {
        assert(v@.take(i + 1).drop_last() =~= v@.take(i as int));
        let c = v[i];
        if ('a' <= c && c <= 'z') || ('A' <= c && c <= 'Z') || ('0' <= c && c <= '9') {
            out.push(crate::text::to_ascii_lower(c));
        } else if out.len() > 0 && out[out.len() - 1] != '-' {
            out.push('-');
        }
        i = i + 1;
    }
    assert(v@.take(v.len() as int) =~= v@);
    let mut n = out.len();
    assert(out@.take(n as int) =~= out@);
    while n > 0 && out[n - 1] == '-'
        invariant
            n <= out.len(),
            trim_dashes(out@) == trim_dashes(out@.take(n as int)),
        decreases n,
    {
        assert(out@.take(n as int).drop_last() =~= out@.take(n - 1));
        n = n - 1;
    }
    let t = crate::text::slice(&out, 0, n);
    string_of(&t)
}

/// How many code themes two-face ships.
pub const SYNTAX_THEME_COUNT: usize = 32;

/// The names `as_name` gives the code themes, in the order of two-face's list of its themes.
pub open spec fn embedded_theme_table() -> Seq<Seq<char>> {
    seq![
        "ansi"@,
        "base16"@,
        "base16-eighties.dark"@,
        "base16-mocha.dark"@,
        "base16-ocean.dark"@,
        "base16-ocean.light"@,
        "base16-256"@,
        "Catppuccin Frappe"@,
        "Catppuccin Latte"@,
        "Catppuccin Macchiato"@,
        "Catppuccin Mocha"@,
        "Coldark-Cold"@,
        "Coldark-Dark"@,
        "DarkNeon"@,
        "Dracula"@,
        "GitHub"@,
        "gruvbox-dark"@,
        "gruvbox-light"@,
        "InspiredGitHub"@,
        "1337"@,
        "Monokai Extended"@,
        "Monokai Extended Bright"@,
        "Monokai Extended Light"@,
        "Monokai Extended Origin"@,
        "Nord"@,
        "OneHalfDark"@,
        "OneHalfLight"@,
        "Solarized (dark)"@,
        "Solarized (light)"@,
        "Sublime Snazzy"@,
        "TwoDark"@,
        "zenburn"@,
    ]
}

/// The name `as_name` gives the code theme at `i` in two-face's list of its themes.
pub open spec fn embedded_theme_text(i: int) -> Seq<char> {
    embedded_theme_table()[i]
}

/// The code theme at `i` in two-face's list of its themes.
pub uninterp spec fn embedded_theme(i: int) -> EmbeddedThemeName;

/// `EmbeddedLazyThemeSet::theme_names()[i]`: the code theme at `i` of the 32 that two-face
/// lists (its source spells the list out); which theme it is is named, not stated.
#[verifier::external_body]
fn syntax_theme_at(i: usize) -> (r: EmbeddedThemeName)
    requires
        i < SYNTAX_THEME_COUNT,
    ensures
        r == embedded_theme(i as int),
{
    EmbeddedLazyThemeSet::theme_names()[i]
}

/// `EmbeddedThemeName::as_name` of the code theme at `i` of two-face's list: the text its
/// source gives (see `embedded_theme_table`).
#[verifier::external_body]
fn syntax_name_at(i: usize) -> (r: String)
    requires
        i < SYNTAX_THEME_COUNT,
    ensures
        r@ == embedded_theme_text(i as int),
{
    EmbeddedLazyThemeSet::theme_names()[i].as_name().to_string()
}

/// The names of the code themes, in two-face's order.
pub open spec fn embedded_theme_texts() -> Seq<Seq<char>> {
    Seq::new(SYNTAX_THEME_COUNT as nat, |i: int| embedded_theme_text(i))
}

/// The index of the first name that matches `wanted` loosely.
pub open spec fn loose_match(names: Seq<Seq<char>>, wanted: Seq<char>, k: int) -> Option<int>
    decreases names.len() - k,
{
    if k < 0 || k >= names.len() {
        None
    } else if normalize_spec(names[k]) == normalize_spec(wanted) {
        Some(k)
    } else {
        loose_match(names, wanted, k + 1)
    }
}

/// The first of `names` that matches `wanted` loosely.
pub fn find_loosely(names: &Vec<String>, wanted: &str) -> (r: Option<usize>)
    ensures
        r is None ==> loose_match(names@.map_values(|s: String| s@), wanted@, 0) is None,
        r matches Some(i) ==> loose_match(names@.map_values(|s: String| s@), wanted@, 0) == Some(
            i as int,
        ),
{
    let ghost nv = names@.map_values(|s: String| s@);
    let w = normalize(wanted);
    let wv = chars_of(w.as_str());
    let mut k: usize = 0;
    while k < names.len()
        invariant
            k <= names.len(),
            nv == names@.map_values(|s: String| s@),
            wv@ == normalize_spec(wanted@),
            loose_match(nv, wanted@, 0) == loose_match(nv, wanted@, k as int),
        decreases names.len() - k,
    {
        let n = normalize(names[k].as_str());
        let nc = chars_of(n.as_str());
        assert(nv[k as int] == names@[k as int]@);
        if crate::text::chars_eq(&nc, &wv) {
            return Some(k);
        }
        k = k + 1;
    }
    None
}

/// The code theme whose name matches `name` loosely, among those two-face ships: the first
/// in its order.
pub fn syntax_theme(name: &str) -> (r: Option<EmbeddedThemeName>)
    ensures
        r == (match loose_match(embedded_theme_texts(), name@, 0) {
            Some(k) => Some(embedded_theme(k)),
            None => None,
        }),
{
    let mut names: Vec<String> = Vec::new();
    let mut i: usize = 0;
    while i < SYNTAX_THEME_COUNT
        invariant
            i <= SYNTAX_THEME_COUNT,
            names@.map_values(|s: String| s@) == embedded_theme_texts().take(i as int),
        decreases SYNTAX_THEME_COUNT - i,
    {
        let n = syntax_name_at(i);
        let ghost before = names@;
        let ghost nv = n@;
        names.push(n);
        assert(names@.map_values(|s: String| s@) =~= before.map_values(|s: String| s@).push(nv));
        assert(names@.map_values(|s: String| s@) =~= embedded_theme_texts().take(i + 1));
        i = i + 1;
    }
    assert(embedded_theme_texts().take(SYNTAX_THEME_COUNT as int) =~= embedded_theme_texts());
    proof {
        lemma_loose_match_range(names@.map_values(|s: String| s@), name@, 0);
    }
    match find_loosely(&names, name) {
        Some(k) => Some(syntax_theme_at(k)),
        None => None,
    }
}

proof fn lemma_loose_match_range(names: Seq<Seq<char>>, wanted: Seq<char>, k: int)
    requires
        0 <= k,
    ensures
        loose_match(names, wanted, k) matches Some(i) ==> k <= i < names.len(),
    decreases names.len() - k,
{
    if k < names.len() && normalize_spec(names[k]) != normalize_spec(wanted) {
        lemma_loose_match_range(names, wanted, k + 1);
    }
}

/// The loose names of the code themes two-face ships, in its order.
pub fn syntax_theme_names() -> (r: Vec<String>)
    ensures
        r@.map_values(|s: String| s@) == embedded_theme_texts().map_values(
            |t: Seq<char>| normalize_spec(t),
        ),
{
    let mut names: Vec<String> = Vec::new();
    let mut i: usize = 0;
    while i < SYNTAX_THEME_COUNT
        invariant
            i <= SYNTAX_THEME_COUNT,
            names@.map_values(|s: String| s@) == embedded_theme_texts().map_values(
                |t: Seq<char>| normalize_spec(t),
            ).take(i as int),
        decreases SYNTAX_THEME_COUNT - i,
    {
        let n = syntax_name_at(i);
        let m = normalize(n.as_str());
        let ghost before = names@;
        let ghost mv = m@;
        names.push(m);
        assert(names@.map_values(|s: String| s@) =~= before.map_values(|s: String| s@).push(mv));
        assert(names@.map_values(|s: String| s@) =~= embedded_theme_texts().map_values(
            |t: Seq<char>| normalize_spec(t),
        ).take(i + 1));
        i = i + 1;
    }
    assert(embedded_theme_texts().map_values(|t: Seq<char>| normalize_spec(t)).take(
        SYNTAX_THEME_COUNT as int,
    ) =~= embedded_theme_texts().map_values(|t: Seq<char>| normalize_spec(t)));
    names
}

// ---------------------------------------------------------------------------------------------
// Indexed colors
// ---------------------------------------------------------------------------------------------
/// The nearest step of the 6-level color cube.
pub open spec fn cube_step(v: u8) -> int {
    if v <= 47 {
        0
    } else if v <= 114 {
        1
    } else {
        (v - 35) / 40
    }
}

/// The 256-color palette's color for an RGB color: the gray ramp for grays (a gray of 5 to 7,
/// below the ramp's first step, takes that step, the nearest entry), the color cube for the
/// rest; other colors stay.
pub open spec fn to_indexed_spec(c: Color) -> Color {
    match c {
        Color::Rgb(r, g, b) => if r == g && g == b {
            if r <= 4 {
                Color::Indexed(16)
            } else if r <= 7 {
                Color::Indexed(232)
            } else if r >= 243 {
                Color::Indexed(231)
            } else {
                Color::Indexed(
                    (232 + if (r - 8) * 24 / 240 < 23 {
                        (r - 8) * 24 / 240
                    } else {
                        23
                    }) as u8,
                )
            }
        } else {
            Color::Indexed((16 + 36 * cube_step(r) + 6 * cube_step(g) + cube_step(b)) as u8)
        },
        other => other,
    }
}

fn cube_step_exec(v: u8) -> (r: u8)
    ensures
        r == cube_step(v),
        r <= 5,
{
    if v <= 47 {
        0
    } else if v <= 114 {
        1
    } else {
        ((v as u16 - 35) / 40) as u8
    }
}

/// The 256-color palette's color for an RGB color.
pub fn to_indexed(color: Color) -> (r: Color)
    ensures
        r == to_indexed_spec(color),
        color is Rgb ==> (r matches Color::Indexed(n) && n >= 16),
        !(color is Rgb) ==> r == color,
{
    match color {
        Color::Rgb(r, g, b) => {
            if r == g && g == b {
                if r <= 4 {
                    Color::Indexed(16)
                } else if r <= 7 {
                    Color::Indexed(232)
                } else if r >= 243 {
                    Color::Indexed(231)
                } else {
                    let step = (r as u16 - 8) * 24 / 240;
                    let step = if step < 23 {
                        step
                    } else {
                        23
                    };
                    Color::Indexed((232 + step) as u8)
                }
            } else {
                let q = 16 + 36 * cube_step_exec(r) as u16 + 6 * cube_step_exec(g) as u16
                    + cube_step_exec(b) as u16;
                Color::Indexed(q as u8)
            }
        },
        other => other,
    }
}


/// The channel value of step `k` of the 6-level color cube: 0, 95, 135, 175, 215, 255.
pub open spec fn cube_level(k: int) -> int {
    if k == 0 {
        0
    } else {
        55 + 40 * k
    }
}

pub open spec fn distance(a: int, b: int) -> int {
    if a >= b {
        a - b
    } else {
        b - a
    }
}

/// Step `k` of the color cube is one of the nearest to the channel value `v`.
pub open spec fn nearest_step(v: int, k: int) -> bool {
    &&& 0 <= k <= 5
    &&& forall|j: int| 0 <= j <= 5 ==> distance(v, cube_level(k)) <= #[trigger] distance(v, cube_level(j))
}

proof fn lemma_cube_step_is_nearest(v: u8)
    ensures
        nearest_step(v as int, cube_step(v)),
{
    let k = cube_step(v);
    if v > 114 {
        assert(40 * k <= v - 35 < 40 * k + 40);
        assert(2 <= k <= 5);
    }
    assert forall|j: int| 0 <= j <= 5 implies distance(v as int, cube_level(k)) <= #[trigger] distance(
        v as int,
        cube_level(j),
    ) by {
        if v > 114 {
            assert(40 * k <= v - 35 < 40 * k + 40);
        }
    }
}

proof fn lemma_cube_index(a: int, b: int, c: int)
    requires
        0 <= a <= 5,
        0 <= b <= 5,
        0 <= c <= 5,
    ensures
        (36 * a + 6 * b + c) / 36 == a,
        (36 * a + 6 * b + c) % 36 / 6 == b,
        (36 * a + 6 * b + c) % 6 == c,
{
    assert((36 * a + 6 * b + c) / 36 == a) by (nonlinear_arith)
        requires
            0 <= a <= 5,
            0 <= b <= 5,
            0 <= c <= 5,
    ;
    assert((36 * a + 6 * b + c) % 36 == 6 * b + c) by (nonlinear_arith)
        requires
            0 <= a <= 5,
            0 <= b <= 5,
            0 <= c <= 5,
    ;
    assert((36 * a + 6 * b + c) % 6 == c) by (nonlinear_arith)
        requires
            0 <= a <= 5,
            0 <= b <= 5,
            0 <= c <= 5,
    ;
}

/// In 256 colors an RGB color that is not a gray goes to the 6x6x6 color cube: its index is
/// 16 + 36 * red step + 6 * green step + blue step, where each step is a cube level nearest
/// to that channel (pure green is 46, pure blue 21).
pub proof fn law_colors_go_to_their_nearest_cube_entry(r: u8, g: u8, b: u8)
    requires
        !(r == g && g == b),
    ensures
        to_indexed_spec(Color::Rgb(r, g, b)) matches Color::Indexed(n) && {
            &&& 16 <= n <= 231
            &&& nearest_step(r as int, (n - 16) / 36)
            &&& nearest_step(g as int, (n - 16) % 36 / 6)
            &&& nearest_step(b as int, (n - 16) % 6)
        },
{
    lemma_cube_step_is_nearest(r);
    lemma_cube_step_is_nearest(g);
    lemma_cube_step_is_nearest(b);
    let (qr, qg, qb) = (cube_step(r), cube_step(g), cube_step(b));
    lemma_cube_index(qr, qg, qb);
    let n = (16 + 36 * qr + 6 * qg + qb) as u8;
    assert(n == 16 + 36 * qr + 6 * qg + qb);
    assert(n - 16 == 36 * qr + 6 * qg + qb);
}

/// In 256 colors a gray goes to black (index 16) when darker than 5, to white (index 231)
/// from 243 on, and otherwise to the gray ramp 232..=255, whose entry `232 + k` stands for the
/// gray `8 + 10 * k`: the entry at or just below the gray (the first entry for grays below
/// it, the last for those above it).
pub proof fn law_grays_go_to_the_gray_ramp(v: u8)
    ensures
        to_indexed_spec(Color::Rgb(v, v, v)) matches Color::Indexed(n) && {
            &&& v <= 4 ==> n == 16
            &&& v >= 243 ==> n == 231
            &&& 5 <= v < 243 ==> {
                &&& 232 <= n <= 255
                &&& (n == 232 || 8 + 10 * (n - 232) <= v)
                &&& (n == 255 || v < 18 + 10 * (n - 232))
            }
        },
{
    if 8 <= v < 243 {
        let k = (v - 8) * 24 / 240;
        assert(k == (v - 8) / 10) by (nonlinear_arith)
            requires
                k == (v - 8) * 24 / 240,
                8 <= v,
        ;
        assert(10 * k <= v - 8 < 10 * k + 10);
    }
}

// ---------------------------------------------------------------------------------------------
// Theme files
// ---------------------------------------------------------------------------------------------
/// A theme file's contents: the tables come in name order, as TOML keeps them.
#[derive(Debug, Clone, PartialEq, Eq)]
pub struct ThemeFile {
    pub schema: u32,
    pub kind: Option<Kind>,
    pub extends: Option<String>,
    pub syntax: Option<String>,
    pub palette: Vec<(String, String)>,
    pub colors: Vec<(String, String)>,
}

/// The text of each pair of strings.
pub open spec fn pairs_view(v: Seq<(String, String)>) -> Seq<(Seq<char>, Seq<char>)> {
    v.map_values(|e: (String, String)| (e.0@, e.1@))
}

/// The index of the first token at or after `k` with the name.
pub open spec fn token_from(name: Seq<char>, k: int) -> Option<int>
    decreases token_names().len() - k,
{
    if k < 0 || k >= token_names().len() {
        None
    } else if token_names()[k] == name {
        Some(k)
    } else {
        token_from(name, k + 1)
    }
}

/// The index of a token's name.
pub open spec fn token_index(name: Seq<char>) -> Option<int> {
    token_from(name, 0)
}

/// What a palette name stands for, or the value itself.
pub open spec fn palette_lookup(palette: Seq<(Seq<char>, Seq<char>)>, v: Seq<char>) -> Seq<char>
    decreases palette.len(),
{
    if palette.len() == 0 {
        v
    } else if palette[0].0 == v {
        palette[0].1
    } else {
        palette_lookup(palette.drop_first(), v)
    }
}

/// The tokens with the `colors` table applied in order, and which tokens it set; or the first
/// entry that names no color or no token.
pub open spec fn apply_colors(
    name: Seq<char>,
    tokens: Seq<Color>,
    palette: Seq<(Seq<char>, Seq<char>)>,
    colors: Seq<(Seq<char>, Seq<char>)>,
) -> Result<(Seq<Color>, Set<int>), Seq<char>>
    decreases colors.len(),
{
    if colors.len() == 0 {
        Ok((tokens, Set::empty()))
    } else {
        match apply_colors(name, tokens, palette, colors.drop_last()) {
            Err(e) => Err(e),
            Ok((ts, set)) => {
                let (token, value) = colors.last();
                match parse_color_spec(palette_lookup(palette, value)) {
                    None => Err(
                        name + ": `"@ + token + " = \""@ + value
                            + "\"` is not a color or a palette name"@,
                    ),
                    Some(c) => match token_index(token) {
                        None => Err(name + ": unknown token `"@ + token + "`"@),
                        Some(i) => Ok((ts.update(i, c), set.insert(i))),
                    },
                }
            },
        }
    }
}

/// The names of the tokens `set` leaves out, in token order.
pub open spec fn missing_tokens(set: Set<int>, k: int) -> Seq<Seq<char>>
    decreases k,
{
    if k <= 0 {
        seq![]
    } else if set.contains(k - 1) {
        missing_tokens(set, k - 1)
    } else {
        missing_tokens(set, k - 1).push(token_names()[k - 1])
    }
}

/// The built-in theme of a kind, which a theme without `extends` is told to extend.
pub open spec fn default_theme_name(kind: Kind) -> Seq<char> {
    match kind {
        Kind::Dark => "mido-dark"@,
        Kind::Light => "mido-light"@,
    }
}

/// A theme file read: the theme's name, kind and token colors, or what is wrong. `base` is the
/// kind and colors of the theme `extends` names, if there is one; `syntax_found` whether the
/// code theme the file names, if any, is one two-face ships.
pub open spec fn parse_spec(
    name: Seq<char>,
    schema: u32,
    kind: Option<Kind>,
    extends: Option<Seq<char>>,
    syntax: Option<Seq<char>>,
    palette: Seq<(Seq<char>, Seq<char>)>,
    colors: Seq<(Seq<char>, Seq<char>)>,
    base: Option<(Kind, Seq<Color>)>,
    syntax_found: bool,
) -> Result<(Seq<char>, Kind, Seq<Color>), Seq<char>> {
    if schema != 1 {
        Err(
            name + ": schema "@ + decimal(schema as nat)
                + " is not supported, this mido reads schema 1"@,
        )
    } else {
        let start: Result<(Kind, Seq<Color>), Seq<char>> = match extends {
            Some(p) => match base {
                None => Err(name + ": extends `"@ + p + "`, which is not a theme"@),
                Some((bk, bt)) => Ok(
                    (
                        match kind {
                            Some(k) => k,
                            None => bk,
                        },
                        bt,
                    ),
                ),
            },
            None => match kind {
                None => Err(name + ": `kind` must be dark or light"@),
                Some(k) => Ok((k, Seq::new(TOKEN_COUNT as nat, |i: int| Color::Reset))),
            },
        };
        match start {
            Err(e) => Err(e),
            Ok((k, ts)) => if syntax is Some && !syntax_found {
                Err(name + ": unknown syntax theme `"@ + syntax->0 + "`"@)
            } else {
                finish_spec(name, extends, k, ts, palette, colors)
            },
        }
    }
}

/// The colors applied to a theme's start, and the check that a theme that extends none sets
/// every token.
pub open spec fn finish_spec(
    name: Seq<char>,
    extends: Option<Seq<char>>,
    k: Kind,
    ts: Seq<Color>,
    palette: Seq<(Seq<char>, Seq<char>)>,
    colors: Seq<(Seq<char>, Seq<char>)>,
) -> Result<(Seq<char>, Kind, Seq<Color>), Seq<char>> {
    match apply_colors(name, ts, palette, colors) {
        Err(e) => Err(e),
        Ok((ts2, set)) => if extends is None && missing_tokens(set, TOKEN_COUNT as int).len() > 0 {
            Err(
                name + ": missing "@ + join(missing_tokens(set, TOKEN_COUNT as int), ", "@)
                    + ". Set them or add `extends = \""@ + default_theme_name(k) + "\"`"@,
            )
        } else {
            Ok((name, k, ts2))
        },
    }
}

proof fn lemma_token_from_in_range(name: Seq<char>, k: int)
    ensures
        token_from(name, k) matches Some(i) ==> 0 <= k <= i < token_names().len(),
    decreases token_names().len() - k,
{
    if !(k < 0 || k >= token_names().len()) && token_names()[k] != name {
        lemma_token_from_in_range(name, k + 1);
    }
}

proof fn lemma_apply_colors_keeps_the_rest(
    name: Seq<char>,
    tokens: Seq<Color>,
    palette: Seq<(Seq<char>, Seq<char>)>,
    colors: Seq<(Seq<char>, Seq<char>)>,
)
    requires
        apply_colors(name, tokens, palette, colors) is Ok,
        tokens.len() == token_names().len(),
    ensures
        ({
            let (ts, set) = apply_colors(name, tokens, palette, colors)->Ok_0;
            &&& ts.len() == tokens.len()
            &&& forall|i: int| 0 <= i < tokens.len() && !set.contains(i) ==> ts[i] == tokens[i]
            &&& forall|i: int| set.contains(i) ==> 0 <= i < token_names().len()
        }),
    decreases colors.len(),
{
    if colors.len() > 0 {
        lemma_apply_colors_keeps_the_rest(name, tokens, palette, colors.drop_last());
        let (token, value) = colors.last();
        let (ts0, set0) = apply_colors(name, tokens, palette, colors.drop_last())->Ok_0;
        lemma_token_from_in_range(token, 0);
        match token_index(token) {
            Some(i) => {
                let ts = ts0.update(i, parse_color_spec(palette_lookup(palette, value))->0);
                assert(ts.len() == ts0.len());
                assert forall|j: int| 0 <= j < tokens.len() && !set0.insert(i).contains(j) implies ts[j] == tokens[j] by {
                    assert(j != i && !set0.contains(j));
                }
            },
            None => {},
        }
    }
}

/// A theme that extends another keeps everything it does not set: its kind is the base's
/// unless it names one, and every token its `colors` table leaves alone has the base's color.
pub proof fn law_extending_keeps_the_base(
    name: Seq<char>,
    parent: Seq<char>,
    kind: Option<Kind>,
    palette: Seq<(Seq<char>, Seq<char>)>,
    colors: Seq<(Seq<char>, Seq<char>)>,
    base_kind: Kind,
    base_tokens: Seq<Color>,
)
    requires
        apply_colors(name, base_tokens, palette, colors) is Ok,
        base_tokens.len() == TOKEN_COUNT,
    ensures
        ({
            let (ts, set) = apply_colors(name, base_tokens, palette, colors)->Ok_0;
            &&& parse_spec(name, 1, kind, Some(parent), None, palette, colors, Some((base_kind, base_tokens)), true)
                == Ok::<(Seq<char>, Kind, Seq<Color>), Seq<char>>((
                name,
                match kind {
                    Some(k) => k,
                    None => base_kind,
                },
                ts,
            ))
            &&& ts.len() == base_tokens.len()
            &&& forall|i: int| 0 <= i < base_tokens.len() && !set.contains(i) ==> ts[i] == base_tokens[i]
        }),
{
    assert(token_names().len() == TOKEN_COUNT);
    lemma_apply_colors_keeps_the_rest(name, base_tokens, palette, colors);
}

/// A theme read, as values: its name, kind and token colors, or the error's text.
pub open spec fn theme_result(r: Result<Theme, ThemeError>) -> Result<
    (Seq<char>, Kind, Seq<Color>),
    Seq<char>,
> {
    match r {
        Ok(t) => Ok((t.name@, t.kind, tokens_of(t))),
        Err(e) => Err(e.0@),
    }
}

fn find_token(name: &String) -> (r: Option<usize>)
    ensures
        r is None ==> token_index(name@) is None,
        r matches Some(i) ==> token_index(name@) == Some(i as int) && i < TOKEN_COUNT,
{
    let v = chars_of(name.as_str());
    let mut i: usize = 0;
    while i < TOKEN_COUNT
        invariant
            i <= TOKEN_COUNT,
            v@ == name@,
            token_from(name@, 0) == token_from(name@, i as int),
        decreases TOKEN_COUNT - i,
    {
        if eq_lit(&v, token_name(i)) {
            return Some(i);
        }
        i = i + 1;
    }
    None
}

fn lookup_palette(palette: &Vec<(String, String)>, v: &String) -> (r: String)
    ensures
        r@ == palette_lookup(pairs_view(palette@), v@),
{
    let ghost pv = pairs_view(palette@);
    let mut k: usize = 0;
    assert(pv.skip(0) =~= pv);
    while k < palette.len()
        invariant
            k <= palette.len(),
            pv == pairs_view(palette@),
            palette_lookup(pv, v@) == palette_lookup(pv.skip(k as int), v@),
        decreases palette.len() - k,
    {
        assert(pv.skip(k as int)[0] == pv[k as int]);
        assert(pv.skip(k as int).drop_first() =~= pv.skip(k + 1));
        if palette[k].0 == *v {
            return palette[k].1.clone();
        }
        k = k + 1;
    }
    assert(pv.skip(k as int).len() == 0);
    v.clone()
}


/// The text of an optional string.
pub open spec fn opt_text(o: Option<String>) -> Option<Seq<char>> {
    match o {
        Some(s) => Some(s@),
        None => None,
    }
}

/// A theme's kind and token colors.
pub open spec fn base_view(b: Option<Theme>) -> Option<(Kind, Seq<Color>)> {
    match b {
        Some(t) => Some((t.kind, tokens_of(t))),
        None => None,
    }
}

/// A file read, as [`parse_spec`] says, given whether its code theme was found.
pub open spec fn file_spec(name: Seq<char>, file: ThemeFile, base: Option<Theme>, found: bool) -> Result<
    (Seq<char>, Kind, Seq<Color>),
    Seq<char>,
> {
    parse_spec(
        name,
        file.schema,
        file.kind,
        opt_text(file.extends),
        opt_text(file.syntax),
        pairs_view(file.palette@),
        pairs_view(file.colors@),
        base_view(base),
        found,
    )
}

/// Whether the code theme a theme file names, if any, is one that two-face ships.
pub open spec fn syntax_found(file: ThemeFile) -> bool {
    match file.syntax {
        Some(syn) => loose_match(embedded_theme_texts(), syn@, 0) is Some,
        None => true,
    }
}

/// The code theme a theme read from `file` uses: the one it names; else, when it sets its
/// own kind or extends nothing, the default for its kind `kind`; else its base's.
pub open spec fn chosen_syntax(file: ThemeFile, base: Option<Theme>, kind: Kind) -> EmbeddedThemeName {
    match file.syntax {
        Some(syn) => embedded_theme(loose_match(embedded_theme_texts(), syn@, 0)->0),
        None => if file.extends is None || file.kind is Some {
            embedded_theme(default_syntax_index(kind))
        } else {
            base->0.syntax
        },
    }
}

/// The set of tokens marked in `set`.
pub open spec fn marked(set: Seq<bool>) -> Set<int> {
    Set::new(|j: int| 0 <= j < set.len() && set[j])
}

impl Theme {
    /// Reads a theme file. `base` is the theme that `extends` names, when there is one (it is
    /// not looked at otherwise). A theme that extends another starts from its colors (and kind,
    /// unless it sets one); one that does not must set a kind and every token. Colors are
    /// looked up in the palette first. Errors name the theme and the problem.
    pub fn parse(name: &str, file: &ThemeFile, base: Option<Theme>) -> (r: Result<Theme, ThemeError>)
        ensures
            theme_result(r) == file_spec(name@, *file, base, syntax_found(*file)),
            r matches Ok(t) ==> t.syntax == chosen_syntax(*file, base, t.kind),
            r matches Ok(t) ==> (if file.extends is Some {
                t.mode == base->0.mode && t.glyphs == base->0.glyphs
            } else {
                t.mode == ColorMode::TrueColor && t.glyphs.tier == GlyphTier::Unicode
                    && t.glyphs.superscript
            }),
    {
        let ghost bv = base_view(base);
        if file.schema != SCHEMA {
            let d = decimal_of(file.schema as usize);
            let ds = string_of(&d);
            let mut e = String::new();
            e.append(name);
            e.append(": schema ");
            e.append(ds.as_str());
            e.append(" is not supported, this mido reads schema 1");
            return Err(ThemeError(e));
        }
        let mut theme = match &file.extends {
            Some(parent) => match base {
                None => {
                    let mut e = String::new();
                    e.append(name);
                    e.append(": extends `");
                    e.append(parent.as_str());
                    e.append("`, which is not a theme");
                    return Err(ThemeError(e));
                },
                Some(b) => {
                    let mut t = b;
                    t.name = name.to_string();
                    match file.kind {
                        Some(k) => t.kind = k,
                        None => {},
                    }
                    t
                },
            },
            None => match file.kind {
                None => {
                    let mut e = String::new();
                    e.append(name);
                    e.append(": `kind` must be dark or light");
                    return Err(ThemeError(e));
                },
                Some(k) => Theme::blank(name, k),
            },
        };
        let ghost start_tokens = tokens_of(theme);
        let ghost kind = theme.kind;
        if file.extends.is_none() || file.kind.is_some() {
            theme.syntax = default_syntax(theme.kind);
        }
        let ghost mut found = true;
        match &file.syntax {
            Some(syn) => match syntax_theme(syn.as_str()) {
                Some(t) => {
                    proof {
                        lemma_loose_match_range(embedded_theme_texts(), syn@, 0);
                    }
                    theme.syntax = t;
                },
                None => {
                    proof {
                        found = false;
                    }
                    let mut e = String::new();
                    e.append(name);
                    e.append(": unknown syntax theme `");
                    e.append(syn.as_str());
                    e.append("`");
                    return Err(ThemeError(e));
                },
            },
            None => {},
        }
        assert(tokens_of(theme) == start_tokens);
        assert(found == syntax_found(*file));
        assert(theme.syntax == chosen_syntax(*file, base, kind));
        let ghost pv = pairs_view(file.palette@);
        let ghost cv = pairs_view(file.colors@);
        let ghost ext = opt_text(file.extends);
        assert(file_spec(name@, *file, base, true) == finish_spec(name@, ext, kind, start_tokens, pv, cv));
        let mut set: Vec<bool> = Vec::new();
        let mut j: usize = 0;
        while j < TOKEN_COUNT
            invariant
                j <= TOKEN_COUNT,
                set@.len() == j,
                forall|k: int| 0 <= k < j ==> !set@[k],
            decreases TOKEN_COUNT - j,
        {
            set.push(false);
            j = j + 1;
        }
        assert(marked(set@) =~= Set::<int>::empty());
        let mut i: usize = 0;
        assert(cv.take(0) =~= Seq::<(Seq<char>, Seq<char>)>::empty());
        while i < file.colors.len()
            invariant
                i <= file.colors.len(),
                set@.len() == TOKEN_COUNT,
                pv == pairs_view(file.palette@),
                cv == pairs_view(file.colors@),
                theme.name@ == name@,
                theme.kind == kind,
                syntax_found(*file),
                theme.syntax == chosen_syntax(*file, base, kind),
                if file.extends is Some {
                    theme.mode == base->0.mode && theme.glyphs == base->0.glyphs
                } else {
                    theme.mode == ColorMode::TrueColor && theme.glyphs.tier == GlyphTier::Unicode
                        && theme.glyphs.superscript
                },
                file_spec(name@, *file, base, true) == finish_spec(name@, ext, kind, start_tokens, pv, cv),
                apply_colors(name@, start_tokens, pv, cv.take(i as int)) == Ok::<
                    (Seq<Color>, Set<int>),
                    Seq<char>,
                >((tokens_of(theme), marked(set@))),
            decreases file.colors.len() - i,
        {
            assert(cv.take(i + 1).drop_last() =~= cv.take(i as int));
            assert(cv.take(i + 1).last() == cv[i as int]);
            let (token, value) = &file.colors[i];
            let lookup = lookup_palette(&file.palette, value);
            let color = match parse_color(lookup.as_str()) {
                Some(c) => c,
                None => {
                    let mut e = String::new();
                    e.append(name);
                    e.append(": `");
                    e.append(token.as_str());
                    e.append(" = \"");
                    e.append(value.as_str());
                    e.append("\"` is not a color or a palette name");
                    assert(e@ =~= name@ + ": `"@ + token@ + " = \""@ + value@
                        + "\"` is not a color or a palette name"@);
                    assert(parse_color_spec(palette_lookup(pv, value@)) is None);
                    assert(apply_colors(name@, start_tokens, pv, cv.take(i + 1)) == Err::<
                        (Seq<Color>, Set<int>),
                        Seq<char>,
                    >(e@));
                    proof {
                        lemma_colors_err(name@, start_tokens, pv, cv, i as int + 1, e@);
                    }
                    return Err(ThemeError(e));
                },
            };
            let idx = match find_token(token) {
                Some(k) => k,
                None => {
                    let mut e = String::new();
                    e.append(name);
                    e.append(": unknown token `");
                    e.append(token.as_str());
                    e.append("`");
                    proof {
                        lemma_colors_err(name@, start_tokens, pv, cv, i as int + 1, e@);
                    }
                    return Err(ThemeError(e));
                },
            };
            theme.set_token(idx, color);
            let ghost old_set = marked(set@);
            set.set(idx, true);
            assert(marked(set@) =~= old_set.insert(idx as int));
            i = i + 1;
        }
        assert(cv.take(file.colors.len() as int) =~= cv);
        if file.extends.is_none() {
            let mut missing: Vec<Vec<char>> = Vec::new();
            let mut k: usize = 0;
            while k < TOKEN_COUNT
                invariant
                    k <= TOKEN_COUNT,
                    set@.len() == TOKEN_COUNT,
                    views(missing@) == missing_tokens(marked(set@), k as int),
                decreases TOKEN_COUNT - k,
            {
                if !set[k] {
                    let n = chars_of(token_name(k));
                    let ghost before = views(missing@);
                    missing.push(n);
                    assert(views(missing@) =~= before.push(n@));
                }
                assert(marked(set@).contains(k as int) == set@[k as int]);
                k = k + 1;
            }
            if missing.len() > 0 {
                let sep = chars_of(", ");
                let list = join_vec(&missing, &sep);
                let ls = string_of(&list);
                let mut e = String::new();
                e.append(name);
                e.append(": missing ");
                e.append(ls.as_str());
                e.append(". Set them or add `extends = \"");
                match theme.kind {
                    Kind::Dark => e.append("mido-dark"),
                    Kind::Light => e.append("mido-light"),
                }
                e.append("\"`");
                return Err(ThemeError(e));
            }
        }
        Ok(theme)
    }
}

/// An error in a prefix of the `colors` table is the error of the whole table.
proof fn lemma_colors_err(
    name: Seq<char>,
    ts: Seq<Color>,
    pv: Seq<(Seq<char>, Seq<char>)>,
    cv: Seq<(Seq<char>, Seq<char>)>,
    n: int,
    e: Seq<char>,
)
    requires
        0 <= n <= cv.len(),
        apply_colors(name, ts, pv, cv.take(n)) == Err::<(Seq<Color>, Set<int>), Seq<char>>(e),
    ensures
        apply_colors(name, ts, pv, cv) == Err::<(Seq<Color>, Set<int>), Seq<char>>(e),
    decreases cv.len() - n,
{
    if n < cv.len() {
        assert(cv.take(n + 1).drop_last() =~= cv.take(n));
        lemma_colors_err(name, ts, pv, cv, n + 1, e);
    } else {
        assert(cv.take(n) =~= cv);
    }
}


// ---------------------------------------------------------------------------------------------
// Color modes
// ---------------------------------------------------------------------------------------------
/// A color as a terminal of a mode shows it: as it is, in the 256-color palette, or not at all.
pub open spec fn adapt_spec(mode: ColorMode, c: Color) -> Color {
    match mode {
        ColorMode::TrueColor => c,
        ColorMode::Indexed => to_indexed_spec(c),
        ColorMode::Mono => Color::Reset,
    }
}

impl Theme {
    /// The theme for a terminal of a mode: its colors adapted to the mode.
    pub fn with_mode(self, mode: ColorMode) -> (r: Theme)
        ensures
            r.mode == mode,
            r.name == self.name,
            r.kind == self.kind,
            tokens_of(r) == tokens_of(self).map_values(|c: Color| adapt_spec(mode, c)),
    {
        let mut t = self;
        let ghost orig = tokens_of(self);
        let mut i: usize = 0;
        while i < TOKEN_COUNT
            invariant
                i <= TOKEN_COUNT,
                tokens_of(t).len() == TOKEN_COUNT,
                orig.len() == TOKEN_COUNT,
                t.name == self.name,
                t.kind == self.kind,
                forall|k: int| 0 <= k < i ==> #[trigger] tokens_of(t)[k] == adapt_spec(mode, orig[k]),
                forall|k: int| i <= k < TOKEN_COUNT ==> #[trigger] tokens_of(t)[k] == orig[k],
            decreases TOKEN_COUNT - i,
        {
            let c = t.token(i);
            let a = match mode {
                ColorMode::TrueColor => c,
                ColorMode::Indexed => to_indexed(c),
                ColorMode::Mono => Color::Reset,
            };
            t.set_token(i, a);
            i = i + 1;
        }
        t.mode = mode;
        assert(tokens_of(t) =~= orig.map_values(|c: Color| adapt_spec(mode, c)));
        t
    }

    /// A color as the theme's terminal shows it.
    pub fn adapt(&self, color: Color) -> (r: Color)
        ensures
            r == adapt_spec(self.mode, color),
    {
        match self.mode {
            ColorMode::TrueColor => color,
            ColorMode::Indexed => to_indexed(color),
            ColorMode::Mono => Color::Reset,
        }
    }

    /// An RGB color as the theme's terminal shows it.
    pub fn rgb(&self, r: u8, g: u8, b: u8) -> (c: Color)
        ensures
            c == adapt_spec(self.mode, Color::Rgb(r, g, b)),
    {
        self.adapt(Color::Rgb(r, g, b))
    }

    /// Whether the theme paints its own background.
    pub fn paints_background(&self) -> (r: bool)
        ensures
            r == (self.bg != Color::Reset),
    {
        !(self.bg == Color::Reset)
    }

    /// The color of a heading level: `h1` to `h6`, levels past six as `h6`.
    pub fn heading_color(&self, level: u8) -> (c: Color)
        ensures
            level <= 1 ==> c == self.h1,
            level == 2 ==> c == self.h2,
            level == 3 ==> c == self.h3,
            level == 4 ==> c == self.h4,
            level == 5 ==> c == self.h5,
            level >= 6 ==> c == self.h6,
    {
        if level <= 1 {
            self.h1
        } else if level == 2 {
            self.h2
        } else if level == 3 {
            self.h3
        } else if level == 4 {
            self.h4
        } else if level == 5 {
            self.h5
        } else {
            self.h6
        }
    }

    /// The color of an alert.
    pub fn alert(&self, alert: crate::markdown::document::Alert) -> (c: Color)
        ensures
            alert == crate::markdown::document::Alert::Note ==> c == self.alert_note,
            alert == crate::markdown::document::Alert::Tip ==> c == self.alert_tip,
            alert == crate::markdown::document::Alert::Important ==> c == self.alert_important,
            alert == crate::markdown::document::Alert::Warning ==> c == self.alert_warning,
            alert == crate::markdown::document::Alert::Caution ==> c == self.alert_caution,
    {
        match alert {
            crate::markdown::document::Alert::Note => self.alert_note,
            crate::markdown::document::Alert::Tip => self.alert_tip,
            crate::markdown::document::Alert::Important => self.alert_important,
            crate::markdown::document::Alert::Warning => self.alert_warning,
            crate::markdown::document::Alert::Caution => self.alert_caution,
        }
    }

    /// The theme with other glyphs.
    pub fn with_glyphs(self, glyphs: Glyphs) -> (r: Theme)
        ensures
            r.glyphs == glyphs,
            r.name == self.name,
            tokens_of(r) == tokens_of(self),
    {
        let mut t = self;
        t.glyphs = glyphs;
        t
    }
}

// ---------------------------------------------------------------------------------------------
// Chains of themes that extend one another
// ---------------------------------------------------------------------------------------------
/// How deep themes may extend one another.
pub const MAX_EXTENDS: usize = 8;

/// A theme value that is a path to a file (it ends in `.toml` or holds a separator), not a
/// name.
pub open spec fn is_theme_path(v: Seq<char>) -> bool {
    ends_with(v, ".toml"@) || v.contains('/') || v.contains('\\')
}

/// Whether a theme value is a path to a theme file rather than a name.
pub fn theme_is_path(value: &str) -> (r: bool)
    ensures
        r == is_theme_path(value@),
{
    let v = chars_of(value);
    let ext = chars_of(".toml");
    let ends = v.len() >= ext.len() && matches_at(&v, &ext, v.len() - ext.len());
    let mut sep = false;
    let mut i: usize = 0;
    while i < v.len()
        invariant
            i <= v.len(),
            sep == exists|j: int| 0 <= j < i && (v@[j] == '/' || v@[j] == '\\'),
        decreases v.len() - i,
    {
        if v[i] == '/' || v[i] == '\\' {
            sep = true;
        }
        i = i + 1;
    }
    proof {
        if !(v.len() >= ext.len()) {
            assert(!occurs_at(v@, ".toml"@, v@.len() - ".toml"@.len()));
        }
        if sep {
            let j = choose|j: int| 0 <= j < v.len() && (v@[j] == '/' || v@[j] == '\\');
            if v@[j] == '/' {
                assert(v@.contains('/'));
            } else {
                assert(v@.contains('\\'));
            }
        } else {
            assert(!v@.contains('/'));
            assert(!v@.contains('\\'));
        }
    }
    ends || sep
}

/// What comes after a theme in a chain: nothing when it extends nothing, the built-in theme
/// it names when it names itself, an error when one more theme would go deeper than
/// `MAX_EXTENDS`, else the theme it names, to be looked up.
#[derive(Debug, Clone, PartialEq, Eq)]
pub enum ChainStep {
    Done,
    Builtin(String),
    TooDeep(String),
    Lookup(String),
}

/// The step after the last of `depth + 1` themes read, named `name` and read from `file`.
pub open spec fn step_spec(name: Seq<char>, file: ThemeFile, depth: usize) -> (Option<Seq<char>>, int) {
    match file.extends {
        None => (None, 0),
        Some(p) => if p@ == name {
            (Some(p@), 1)
        } else if depth + 1 > MAX_EXTENDS {
            (Some(p@), 2)
        } else {
            (Some(p@), 3)
        },
    }
}

pub open spec fn step_view(s: ChainStep) -> (Option<Seq<char>>, int) {
    match s {
        ChainStep::Done => (None, 0),
        ChainStep::Builtin(p) => (Some(p@), 1),
        ChainStep::TooDeep(p) => (Some(p@), 2),
        ChainStep::Lookup(p) => (Some(p@), 3),
    }
}

/// The step after a theme named `name`, read from `file` at depth `depth` (the first theme
/// is at depth 0).
pub fn next_step(name: &str, file: &ThemeFile, depth: usize) -> (r: ChainStep)
    ensures
        step_view(r) == step_spec(name@, *file, depth),
{
    match &file.extends {
        None => ChainStep::Done,
        Some(p) => {
            if chars_eq(&chars_of(p.as_str()), &chars_of(name)) {
                ChainStep::Builtin(p.clone())
            } else if depth >= MAX_EXTENDS {
                ChainStep::TooDeep(p.clone())
            } else {
                ChainStep::Lookup(p.clone())
            }
        },
    }
}

/// The error for a theme that would sit deeper than `MAX_EXTENDS`.
pub open spec fn too_deep_text(name: Seq<char>) -> Seq<char> {
    "theme `"@ + name + "` extends too deep, is there a loop?"@
}

/// The error for a theme past the depth limit.
pub fn too_deep(name: &str) -> (r: ThemeError)
    ensures
        r.0@ == too_deep_text(name@),
{
    let mut v = chars_of("theme `");
    extend(&mut v, &chars_of(name));
    extend(&mut v, &chars_of("` extends too deep, is there a loop?"));
    ThemeError(string_of(&v))
}

/// A theme file read from `file` under `name`, on a base given as values.
pub open spec fn link_spec(name: Seq<char>, file: ThemeFile, base: Option<(Kind, Seq<Color>)>) -> Result<
    (Seq<char>, Kind, Seq<Color>),
    Seq<char>,
> {
    parse_spec(
        name,
        file.schema,
        file.kind,
        opt_text(file.extends),
        opt_text(file.syntax),
        pairs_view(file.palette@),
        pairs_view(file.colors@),
        base,
        syntax_found(file),
    )
}

pub open spec fn link_views(v: Seq<(String, ThemeFile)>) -> Seq<(Seq<char>, ThemeFile)> {
    v.map_values(|e: (String, ThemeFile)| (e.0@, e.1))
}

/// The theme a chain gives from its `i`-th file on, each file read on the theme the next one
/// gives and the last on `base` (`Err` when that base could not be had). A base that failed
/// is the error of a file that extends it and reads far enough to ask for it.
pub open spec fn chain_from(
    links: Seq<(Seq<char>, ThemeFile)>,
    base: Result<Option<(Kind, Seq<Color>)>, Seq<char>>,
    i: int,
) -> Result<(Seq<char>, Kind, Seq<Color>), Seq<char>>
    decreases links.len() - i,
{
    if i < 0 || i >= links.len() {
        Err(seq![])
    } else {
        let below: Result<Option<(Kind, Seq<Color>)>, Seq<char>> = if i + 1 < links.len() {
            match chain_from(links, base, i + 1) {
                Ok(v) => Ok(Some((v.1, v.2))),
                Err(e) => Err(e),
            }
        } else {
            base
        };
        let (name, file) = links[i];
        match below {
            Ok(b) => link_spec(name, file, b),
            Err(e) => if file.schema == 1 && file.extends is Some {
                Err(e)
            } else {
                link_spec(name, file, None)
            },
        }
    }
}

pub open spec fn base_result_view(b: Result<Option<Theme>, ThemeError>) -> Result<Option<(Kind, Seq<Color>)>, Seq<char>> {
    match b {
        Ok(t) => Ok(base_view(t)),
        Err(e) => Err(e.0@),
    }
}

/// Reads a chain of theme files, each extending the next: the last is read on `base` (the
/// built-in theme it extends, none, or the error met looking for it), and each one before on
/// the theme the next gives.
pub fn read_chain(links: &Vec<(String, ThemeFile)>, base: Result<Option<Theme>, ThemeError>) -> (r: Result<Theme, ThemeError>)
    requires
        links.len() > 0,
    ensures
        theme_result(r) == chain_from(link_views(links@), base_result_view(base), 0),
{
    let ghost lv = link_views(links@);
    let ghost bv = base_result_view(base);
    let mut below = base;
    let mut i: usize = links.len();
    loop
        invariant
            0 < i <= links.len(),
            lv == link_views(links@),
            bv == base_result_view(base),
            i == links.len() ==> base_result_view(below) == bv,
            i < links.len() ==> base_result_view(below) == match chain_from(lv, bv, i as int) {
                Ok(v) => Ok(Some((v.1, v.2))),
                Err(e) => Err(e),
            },
        decreases i,
    {
        let k = i - 1;
        let name = links[k].0.as_str();
        let file = &links[k].1;
        assert(lv[k as int] == (links@[k as int].0@, links@[k as int].1));
        let r = match below {
            Ok(b) => Theme::parse(name, file, b),
            Err(e) => {
                if file.schema == 1 && file.extends.is_some() {
                    Err(e)
                } else {
                    Theme::parse(name, file, None)
                }
            },
        };
        assert(theme_result(r) == chain_from(lv, bv, k as int));
        if k == 0 {
            return r;
        }
        below = match r {
            Ok(t) => Ok(Some(t)),
            Err(e) => Err(e),
        };
        i = k;
    }
}

} // verus!
