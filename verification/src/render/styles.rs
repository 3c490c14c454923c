//! How the theme's colors paint each part of the page.
use vstd::prelude::*;

use crate::markdown::document::Alert;
use crate::render::theme::{Color, Theme};
use crate::render::wrap::{Style, BOLD, ITALIC, UNDERLINED};

verus! {

/// Text in `fg`, with the attribute bits `m`.
pub open spec fn fg_style(fg: Color, m: u16) -> Style {
    Style { fg: Some(fg), bg: None, modifiers: m }
}

/// Text in `fg` on `bg`, with the attribute bits `m`.
pub open spec fn fg_bg_style(fg: Color, bg: Color, m: u16) -> Style {
    Style { fg: Some(fg), bg: Some(bg), modifiers: m }
}

proof fn lemma_or_zero(m: u16)
    ensures
        0u16 | m == m,
{
    assert(0u16 | m == m) by (bit_vector);
}

impl Theme {
    /// Body text.
    pub fn text(&self) -> (s: Style)
        ensures
            s == fg_style(self.fg, 0),
    {
        Style::new().fg(self.fg)
    }

    /// Secondary text.
    pub fn muted(&self) -> (s: Style)
        ensures
            s == fg_style(self.fg_muted, 0),
    {
        Style::new().fg(self.fg_muted)
    }

    /// Hints and raw HTML.
    pub fn faint(&self) -> (s: Style)
        ensures
            s == fg_style(self.fg_faint, 0),
    {
        Style::new().fg(self.fg_faint)
    }

    /// A heading's text: level 1 is a chip (its text color on its own color), the others
    /// their color in bold.
    pub fn heading(&self, level: u8) -> (s: Style)
        ensures
            level == 1 ==> s == fg_bg_style(self.h1_fg, self.h1, BOLD),
            level != 1 ==> s == self.heading_text_spec(level),
    {
        proof {
            lemma_or_zero(BOLD);
        }
        if level == 1 {
            Style::new().fg(self.h1_fg).bg(self.h1).add_modifier(BOLD)
        } else {
            self.heading_text(level)
        }
    }

    pub open spec fn heading_text_spec(&self, level: u8) -> Style {
        let c = if level <= 1 {
            self.h1
        } else if level == 2 {
            self.h2
        } else if level == 3 {
            self.h3
        } else if level == 4 {
            self.h4
        } else if level == 5 {
            self.h5
        } else {
            self.h6
        };
        fg_style(c, if level == 6 { BOLD | ITALIC } else { BOLD })
    }

    /// A heading's text in its level's color, bold; level 6 also italic. Levels outside
    /// 1..=6 take the nearest level's color.
    pub fn heading_text(&self, level: u8) -> (s: Style)
        ensures
            s == self.heading_text_spec(level),
    {
        proof {
            lemma_or_zero(BOLD);
        }
        let style = Style::new().fg(self.heading_color(level)).add_modifier(BOLD);
        if level == 6 {
            style.add_modifier(ITALIC)
        } else {
            style
        }
    }

    /// The underline of a level 2 heading.
    pub fn heading_rule(&self) -> (s: Style)
        ensures
            s == fg_style(self.h2, 0),
    {
        Style::new().fg(self.h2)
    }

    /// Inline code.
    pub fn code_inline(&self) -> (s: Style)
        ensures
            s == fg_bg_style(self.code_fg, self.code_bg, 0),
    {
        Style::new().fg(self.code_fg).bg(self.code_bg)
    }

    /// Code block text.
    pub fn code_block(&self) -> (s: Style)
        ensures
            s == fg_bg_style(self.fg, self.code_bg, 0),
    {
        Style::new().fg(self.fg).bg(self.code_bg)
    }

    /// The bar beside a code block.
    pub fn code_border(&self) -> (s: Style)
        ensures
            s == fg_style(self.code_border, 0),
    {
        Style::new().fg(self.code_border)
    }

    /// Link text, underlined.
    pub fn link(&self) -> (s: Style)
        ensures
            s == fg_style(self.link, UNDERLINED),
    {
        proof {
            lemma_or_zero(UNDERLINED);
        }
        Style::new().fg(self.link).add_modifier(UNDERLINED)
    }

    /// The address shown after a link.
    pub fn link_url(&self) -> (s: Style)
        ensures
            s == fg_style(self.link_url, 0),
    {
        Style::new().fg(self.link_url)
    }

    /// Quote text, italic.
    pub fn quote(&self) -> (s: Style)
        ensures
            s == fg_style(self.quote_fg, ITALIC),
    {
        proof {
            lemma_or_zero(ITALIC);
        }
        Style::new().fg(self.quote_fg).add_modifier(ITALIC)
    }

    /// The bar beside a quote.
    pub fn quote_bar(&self) -> (s: Style)
        ensures
            s == fg_style(self.quote_bar, 0),
    {
        Style::new().fg(self.quote_bar)
    }

    /// Thematic breaks.
    pub fn rule(&self) -> (s: Style)
        ensures
            s == fg_style(self.rule, 0),
    {
        Style::new().fg(self.rule)
    }

    /// Table box drawing.
    pub fn table_border(&self) -> (s: Style)
        ensures
            s == fg_style(self.table_border, 0),
    {
        Style::new().fg(self.table_border)
    }

    /// Table header cells: body text on the surface tint, bold.
    pub fn table_header(&self) -> (s: Style)
        ensures
            s == fg_bg_style(self.fg, self.surface, BOLD),
    {
        proof {
            lemma_or_zero(BOLD);
        }
        Style::new().fg(self.fg).bg(self.surface).add_modifier(BOLD)
    }

    /// The header row's band.
    pub fn table_band(&self) -> (s: Style)
        ensures
            s == (Style { fg: None, bg: Some(self.surface), modifiers: 0 }),
    {
        Style::new().bg(self.surface)
    }

    /// First-level list markers.
    pub fn list_marker(&self) -> (s: Style)
        ensures
            s == fg_style(self.list_marker, 0),
    {
        Style::new().fg(self.list_marker)
    }

    /// List markers by nesting depth: the list marker, H2 and H3 colors in turn.
    pub fn list_marker_at(&self, depth: usize) -> (s: Style)
        ensures
            s == fg_style(
                if depth % 3 == 0 {
                    self.list_marker
                } else if depth % 3 == 1 {
                    self.h2
                } else {
                    self.h3
                },
                0,
            ),
    {
        let c = if depth % 3 == 0 {
            self.list_marker
        } else if depth % 3 == 1 {
            self.h2
        } else {
            self.h3
        };
        Style::new().fg(c)
    }

    /// The key side of a chip.
    pub fn label(&self) -> (s: Style)
        ensures
            s == fg_bg_style(self.fg_muted, self.label_bg, 0),
    {
        Style::new().fg(self.fg_muted).bg(self.label_bg)
    }

    /// The value side of a chip.
    pub fn label_value(&self) -> (s: Style)
        ensures
            s == fg_bg_style(self.fg, self.label_value_bg, 0),
    {
        Style::new().fg(self.fg).bg(self.label_value_bg)
    }

    /// Footnote markers.
    pub fn footnote(&self) -> (s: Style)
        ensures
            s == fg_style(self.accent, 0),
    {
        Style::new().fg(self.accent)
    }

    /// The bar beside an alert.
    pub fn alert_bar(&self, alert: Alert) -> (s: Style)
        ensures
            s.fg is Some && s.bg is None && s.modifiers == 0,
            s.fg == Some(self.alert_color(alert)),
    {
        Style::new().fg(self.alert(alert))
    }

    pub open spec fn alert_color(&self, alert: Alert) -> Color {
        match alert {
            Alert::Note => self.alert_note,
            Alert::Tip => self.alert_tip,
            Alert::Important => self.alert_important,
            Alert::Warning => self.alert_warning,
            Alert::Caution => self.alert_caution,
        }
    }

    /// An alert's title, bold.
    pub fn alert_title(&self, alert: Alert) -> (s: Style)
        ensures
            s == fg_style(self.alert_color(alert), BOLD),
    {
        proof {
            lemma_or_zero(BOLD);
        }
        Style::new().fg(self.alert(alert)).add_modifier(BOLD)
    }

    /// Math, italic.
    pub fn math(&self) -> (s: Style)
        ensures
            s == fg_style(self.math, ITALIC),
    {
        proof {
            lemma_or_zero(ITALIC);
        }
        Style::new().fg(self.math).add_modifier(ITALIC)
    }

    /// The status bar's chip.
    pub fn status_chip(&self) -> (s: Style)
        ensures
            s == fg_bg_style(self.h1_fg, self.accent, BOLD),
    {
        proof {
            lemma_or_zero(BOLD);
        }
        Style::new().fg(self.h1_fg).bg(self.accent).add_modifier(BOLD)
    }

    /// The status bar.
    pub fn status(&self) -> (s: Style)
        ensures
            s == fg_bg_style(self.status_fg, self.status_bg, 0),
    {
        Style::new().fg(self.status_fg).bg(self.status_bg)
    }

    /// A search match, the current one on its own background.
    pub fn search(&self, current: bool) -> (s: Style)
        ensures
            s == fg_bg_style(self.search_fg, if current { self.search_current_bg } else { self.search_bg }, 0),
    {
        let bg = if current {
            self.search_current_bg
        } else {
            self.search_bg
        };
        Style::new().fg(self.search_fg).bg(bg)
    }

    /// Overlay borders.
    pub fn overlay_border(&self) -> (s: Style)
        ensures
            s == fg_style(self.overlay_border, 0),
    {
        Style::new().fg(self.overlay_border)
    }

    /// The selected row, bold on its background.
    pub fn selected(&self) -> (s: Style)
        ensures
            s == (Style { fg: None, bg: Some(self.selected_bg), modifiers: BOLD }),
    {
        proof {
            lemma_or_zero(BOLD);
        }
        Style::new().bg(self.selected_bg).add_modifier(BOLD)
    }
}

} // verus!
