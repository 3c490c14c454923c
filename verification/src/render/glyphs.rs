//! The symbols mido draws itself, in three tiers: plain ASCII, Unicode, and Unicode with Nerd
//! Font icons.
use vstd::prelude::*;

use crate::markdown::document::Alert;
use crate::text::push_char;

verus! {

/// Which symbols the terminal can show.
#[derive(Debug, Clone, Copy, PartialEq, Eq, Structural)]
pub enum GlyphTier {
    Ascii,
    Unicode,
    Nerd,
}

impl Default for GlyphTier {
    fn default() -> (r: Self)
        ensures
            r == GlyphTier::Unicode,
    {
        GlyphTier::Unicode
    }
}

/// The name of a tier in the config.
pub open spec fn tier_name(t: GlyphTier) -> Seq<char> {
    match t {
        GlyphTier::Ascii => "ascii"@,
        GlyphTier::Unicode => "unicode"@,
        GlyphTier::Nerd => "nerd"@,
    }
}

/// A tier by its name, or what is wrong with the name.
pub open spec fn tier_spec(s: Seq<char>) -> Result<GlyphTier, Seq<char>> {
    if s == "ascii"@ {
        Ok(GlyphTier::Ascii)
    } else if s == "unicode"@ {
        Ok(GlyphTier::Unicode)
    } else if s == "nerd"@ {
        Ok(GlyphTier::Nerd)
    } else {
        Err("unknown glyph tier `"@ + s + "`, expected ascii, unicode or nerd"@)
    }
}

impl GlyphTier {
    /// Reads a tier's name.
    pub fn from_str(s: &str) -> (r: Result<GlyphTier, String>)
        ensures
            r matches Ok(t) ==> tier_spec(s@) == Ok::<GlyphTier, Seq<char>>(t),
            r matches Err(e) ==> tier_spec(s@) == Err::<GlyphTier, Seq<char>>(e@),
    {
        let v = crate::text::chars_of(s);
        if crate::text::eq_lit(&v, "ascii") {
            Ok(GlyphTier::Ascii)
        } else if crate::text::eq_lit(&v, "unicode") {
            Ok(GlyphTier::Unicode)
        } else if crate::text::eq_lit(&v, "nerd") {
            Ok(GlyphTier::Nerd)
        } else {
            let mut e = String::new();
            e.append("unknown glyph tier `");
            e.append(s);
            e.append("`, expected ascii, unicode or nerd");
            Err(e)
        }
    }

    /// The tier's name.
    pub fn to_string(&self) -> (r: String)
        ensures
            r@ == tier_name(*self),
    {
        match self {
            GlyphTier::Ascii => "ascii".to_string(),
            GlyphTier::Unicode => "unicode".to_string(),
            GlyphTier::Nerd => "nerd".to_string(),
        }
    }
}

/// The pieces of a table's frame: the top, header and bottom rules (left, line, joint, right)
/// and the vertical bar.
#[derive(Debug, Clone, Copy, PartialEq, Eq)]
pub struct TableGlyphs {
    pub top: [&'static str; 4],
    pub header: [&'static str; 4],
    pub bottom: [&'static str; 4],
    pub vertical: &'static str,
}

/// The pieces of a box's border.
#[derive(Debug, Clone, Copy, PartialEq, Eq)]
pub struct BorderSet {
    pub top_left: &'static str,
    pub top_right: &'static str,
    pub bottom_left: &'static str,
    pub bottom_right: &'static str,
    pub vertical_left: &'static str,
    pub vertical_right: &'static str,
    pub horizontal_top: &'static str,
    pub horizontal_bottom: &'static str,
}

/// The pieces of the rounded border.
pub open spec fn rounded_border_table() -> BorderSet {
    BorderSet {
        top_left: "╭",
        top_right: "╮",
        bottom_left: "╰",
        bottom_right: "╯",
        vertical_left: "│",
        vertical_right: "│",
        horizontal_top: "─",
        horizontal_bottom: "─",
    }
}

/// The pieces of the ascii border.
pub open spec fn ascii_border_table() -> BorderSet {
    BorderSet {
        top_left: "+",
        top_right: "+",
        bottom_left: "+",
        bottom_right: "+",
        vertical_left: "|",
        vertical_right: "|",
        horizontal_top: "-",
        horizontal_bottom: "-",
    }
}

/// A border with rounded corners.
pub fn rounded_border() -> (r: BorderSet)
    ensures
        r == rounded_border_table(),
        r.top_left@ == "╭"@,
        r.top_right@ == "╮"@,
        r.bottom_left@ == "╰"@,
        r.bottom_right@ == "╯"@,
        r.vertical_left@ == "│"@,
        r.vertical_right@ == "│"@,
        r.horizontal_top@ == "─"@,
        r.horizontal_bottom@ == "─"@,
{
    BorderSet {
        top_left: "╭",
        top_right: "╮",
        bottom_left: "╰",
        bottom_right: "╯",
        vertical_left: "│",
        vertical_right: "│",
        horizontal_top: "─",
        horizontal_bottom: "─",
    }
}

/// A border of ASCII characters.
pub fn ascii_border() -> (r: BorderSet)
    ensures
        r == ascii_border_table(),
        r.top_left@ == "+"@,
        r.top_right@ == "+"@,
        r.bottom_left@ == "+"@,
        r.bottom_right@ == "+"@,
        r.vertical_left@ == "|"@,
        r.vertical_right@ == "|"@,
        r.horizontal_top@ == "-"@,
        r.horizontal_bottom@ == "-"@,
{
    BorderSet {
        top_left: "+",
        top_right: "+",
        bottom_left: "+",
        bottom_right: "+",
        vertical_left: "|",
        vertical_right: "|",
        horizontal_top: "-",
        horizontal_bottom: "-",
    }
}

/// Every symbol mido draws itself.
#[derive(Debug, Clone, Copy, PartialEq, Eq)]
pub struct Glyphs {
    pub tier: GlyphTier,
    pub bullets: [&'static str; 3],
    pub task_done: &'static str,
    pub task_open: &'static str,
    pub bar: &'static str,
    pub rule: &'static str,
    pub heavy_rule: &'static str,
    pub table: TableGlyphs,
    pub image: &'static str,
    pub expanded: &'static str,
    pub collapsed: &'static str,
    pub branch: &'static str,
    pub last: &'static str,
    pub pipe: &'static str,
    pub ellipsis: &'static str,
    pub alerts: [&'static str; 5],
    pub superscript: bool,
    pub focus_bar: &'static str,
    pub cursor: &'static str,
    pub dot: &'static str,
    pub edge: &'static str,
    pub scroll_track: &'static str,
    pub scroll_thumb: &'static str,
    pub border: BorderSet,
    pub folder_open: &'static str,
    pub folder_closed: &'static str,
    pub file: &'static str,
}

/// The position of an alert among a tier's alert symbols.
pub open spec fn alert_index(a: Alert) -> int {
    match a {
        Alert::Note => 0,
        Alert::Tip => 1,
        Alert::Important => 2,
        Alert::Warning => 3,
        Alert::Caution => 4,
    }
}

/// The unicode tier's symbols, as a table.
pub open spec fn unicode_table() -> Glyphs {
        Glyphs {
        tier: GlyphTier::Unicode,
        bullets: ["•", "◦", "▪"],
        task_done: "☑ ",
        task_open: "☐ ",
        bar: "▎ ",
        rule: "─",
        heavy_rule: "━",
        table: TableGlyphs {
            top: ["┌", "─", "┬", "┐"],
            header: ["┝", "━", "┿", "┥"],
            bottom: ["└", "─", "┴", "┘"],
            vertical: "│",
        },
        image: "▣ ",
        expanded: "▾ ",
        collapsed: "▸ ",
        branch: "├ ",
        last: "└ ",
        pipe: "│ ",
        ellipsis: "…",
        alerts: ["●", "✦", "◆", "▲", "■"],
        superscript: true,
        focus_bar: "▎",
        cursor: "▏",
        dot: "·",
        edge: "│",
        scroll_track: "│",
        scroll_thumb: "█",
        border: rounded_border_table(),
        folder_open: "",
        folder_closed: "",
        file: "",
    }
}

/// The ascii tier's symbols, as a table.
pub open spec fn ascii_table() -> Glyphs {
        Glyphs {
        tier: GlyphTier::Ascii,
        bullets: ["-", "*", "+"],
        task_done: "[x] ",
        task_open: "[ ] ",
        bar: "| ",
        rule: "-",
        heavy_rule: "=",
        table: TableGlyphs {
            top: ["+", "-", "+", "+"],
            header: ["+", "=", "+", "+"],
            bottom: ["+", "-", "+", "+"],
            vertical: "|",
        },
        image: "[img] ",
        expanded: "v ",
        collapsed: "> ",
        branch: "|-",
        last: "`-",
        pipe: "| ",
        ellipsis: "~",
        alerts: ["i", "+", "!", "!", "x"],
        superscript: false,
        focus_bar: "|",
        cursor: "_",
        dot: "|",
        edge: "|",
        scroll_track: "|",
        scroll_thumb: "#",
        border: ascii_border_table(),
        folder_open: "",
        folder_closed: "",
        file: "",
    }
}

/// The nerd tier's symbols, as a table.
pub open spec fn nerd_table() -> Glyphs {
        Glyphs {
        tier: GlyphTier::Nerd,
        bullets: ["•", "◦", "▪"],
        task_done: "☑ ",
        task_open: "☐ ",
        bar: "▎ ",
        rule: "─",
        heavy_rule: "━",
        table: TableGlyphs {
            top: ["┌", "─", "┬", "┐"],
            header: ["┝", "━", "┿", "┥"],
            bottom: ["└", "─", "┴", "┘"],
            vertical: "│",
        },
        image: "\u{f03e} ",
        expanded: "▾ ",
        collapsed: "▸ ",
        branch: "├ ",
        last: "└ ",
        pipe: "│ ",
        ellipsis: "…",
        alerts: ["\u{f05a}", "\u{f0eb}", "\u{f06a}", "\u{f071}", "\u{f057}"],
        superscript: true,
        focus_bar: "▎",
        cursor: "▏",
        dot: "·",
        edge: "│",
        scroll_track: "│",
        scroll_thumb: "█",
        border: rounded_border_table(),
        folder_open: "\u{f07c} ",
        folder_closed: "\u{f07b} ",
        file: "\u{e73e} ",
    }
}

impl Glyphs {
    /// Unicode box drawing and symbols.
    pub fn unicode() -> (g: Glyphs)
        ensures
            g == unicode_table(),
            g.tier == GlyphTier::Unicode,
            g.superscript,
    {
        Glyphs {
        tier: GlyphTier::Unicode,
        bullets: ["•", "◦", "▪"],
        task_done: "☑ ",
        task_open: "☐ ",
        bar: "▎ ",
        rule: "─",
        heavy_rule: "━",
        table: TableGlyphs {
            top: ["┌", "─", "┬", "┐"],
            header: ["┝", "━", "┿", "┥"],
            bottom: ["└", "─", "┴", "┘"],
            vertical: "│",
        },
        image: "▣ ",
        expanded: "▾ ",
        collapsed: "▸ ",
        branch: "├ ",
        last: "└ ",
        pipe: "│ ",
        ellipsis: "…",
        alerts: ["●", "✦", "◆", "▲", "■"],
        superscript: true,
        focus_bar: "▎",
        cursor: "▏",
        dot: "·",
        edge: "│",
        scroll_track: "│",
        scroll_thumb: "█",
        border: rounded_border(),
        folder_open: "",
        folder_closed: "",
        file: "",
    }
    }

    /// Plain ASCII, for terminals and fonts without more.
    pub fn ascii() -> (g: Glyphs)
        ensures
            g == ascii_table(),
            g.tier == GlyphTier::Ascii,
            !g.superscript,
    {
        Glyphs {
        tier: GlyphTier::Ascii,
        bullets: ["-", "*", "+"],
        task_done: "[x] ",
        task_open: "[ ] ",
        bar: "| ",
        rule: "-",
        heavy_rule: "=",
        table: TableGlyphs {
            top: ["+", "-", "+", "+"],
            header: ["+", "=", "+", "+"],
            bottom: ["+", "-", "+", "+"],
            vertical: "|",
        },
        image: "[img] ",
        expanded: "v ",
        collapsed: "> ",
        branch: "|-",
        last: "`-",
        pipe: "| ",
        ellipsis: "~",
        alerts: ["i", "+", "!", "!", "x"],
        superscript: false,
        focus_bar: "|",
        cursor: "_",
        dot: "|",
        edge: "|",
        scroll_track: "|",
        scroll_thumb: "#",
        border: ascii_border(),
        folder_open: "",
        folder_closed: "",
        file: "",
    }
    }

    /// Unicode with Nerd Font icons for images, alerts, folders and files.
    pub fn nerd() -> (g: Glyphs)
        ensures
            g == nerd_table(),
            g.tier == GlyphTier::Nerd,
            g.superscript,
    {
        Glyphs {
        tier: GlyphTier::Nerd,
        bullets: ["•", "◦", "▪"],
        task_done: "☑ ",
        task_open: "☐ ",
        bar: "▎ ",
        rule: "─",
        heavy_rule: "━",
        table: TableGlyphs {
            top: ["┌", "─", "┬", "┐"],
            header: ["┝", "━", "┿", "┥"],
            bottom: ["└", "─", "┴", "┘"],
            vertical: "│",
        },
        image: "\u{f03e} ",
        expanded: "▾ ",
        collapsed: "▸ ",
        branch: "├ ",
        last: "└ ",
        pipe: "│ ",
        ellipsis: "…",
        alerts: ["\u{f05a}", "\u{f0eb}", "\u{f06a}", "\u{f071}", "\u{f057}"],
        superscript: true,
        focus_bar: "▎",
        cursor: "▏",
        dot: "·",
        edge: "│",
        scroll_track: "│",
        scroll_thumb: "█",
        border: rounded_border(),
        folder_open: "\u{f07c} ",
        folder_closed: "\u{f07b} ",
        file: "\u{e73e} ",
    }
    }

    /// The symbols of a tier.
    pub fn for_tier(tier: GlyphTier) -> (g: Glyphs)
        ensures
            g.tier == tier,
            g == match tier {
                GlyphTier::Ascii => ascii_table(),
                GlyphTier::Unicode => unicode_table(),
                GlyphTier::Nerd => nerd_table(),
            },
    {
        match tier {
            GlyphTier::Ascii => Glyphs::ascii(),
            GlyphTier::Unicode => Glyphs::unicode(),
            GlyphTier::Nerd => Glyphs::nerd(),
        }
    }

    /// The symbol of an alert.
    pub fn alert(&self, alert: Alert) -> (r: &'static str)
        ensures
            r == self.alerts[alert_index(alert)],
    {
        let index: usize = match alert {
            Alert::Note => 0,
            Alert::Tip => 1,
            Alert::Important => 2,
            Alert::Warning => 3,
            Alert::Caution => 4,
        };
        self.alerts[index]
    }

    /// The bullet of a list at a depth: the tier's bullets in turn.
    pub fn bullet(&self, depth: usize) -> (r: &'static str)
        ensures
            r == self.bullets[(depth % 3) as int],
    {
        self.bullets[depth % 3]
    }
}

impl Default for Glyphs {
    /// Unicode symbols.
    fn default() -> (g: Self)
        ensures
            g == unicode_table(),
    {
        Glyphs::unicode()
    }
}

} // verus!
