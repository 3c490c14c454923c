//! Code blocks: highlighted by syntect where the language is known, each row cut or padded
//! to the block's width, the language shown at the right of the first row; mermaid blocks
//! drawn as diagrams when the drawing fits.
use vstd::prelude::*;

use two_face::re_exports::syntect::easy::HighlightLines;
use two_face::re_exports::syntect::util::LinesWithEndings;
use two_face::theme::EmbeddedThemeName;

use crate::markdown::front_matter::{lines_of, text_lines, views};
use crate::markdown::parse::trim_newlines;
use crate::render::fit::{run_views, truncate, truncated};
use crate::render::mermaid::{max_columns, render, render_spec, Drawing, Kind};
use crate::render::styles::{fg_bg_style, fg_style};
use crate::render::table::{line_columns, line_width, spaces, spaces_span};
use crate::render::theme::{adapt_spec, Color, ColorMode, Theme};
use crate::render::wrap::{
    lines_view, spans_view, str_columns, width, Span, Style, BOLD, ITALIC, UNDERLINED,
};
use crate::text::{chars_of, eq_lit, replace_all, replace_lit, string_of, string_of_range};

verus! {

/// The syntax a fence's language names: a few common spellings mapped to the name syntect
/// knows.
pub open spec fn alias_spec(lang: Seq<char>) -> Seq<char> {
    if lang == "shell"@ || lang == "zsh"@ || lang == "console"@ || lang == "shell-session"@ {
        "bash"@
    } else if lang == "jsonc"@ || lang == "json5"@ {
        "json"@
    } else if lang == "yml"@ {
        "yaml"@
    } else if lang == "rs"@ {
        "rust"@
    } else if lang == "ts"@ {
        "typescript"@
    } else {
        lang
    }
}

/// The syntax name for a fence's language.
pub fn alias<'a>(lang: &'a str) -> (r: &'a str)
    ensures
        r@ == alias_spec(lang@),
{
    let v = chars_of(lang);
    if eq_lit(&v, "shell") || eq_lit(&v, "zsh") || eq_lit(&v, "console") || eq_lit(
        &v,
        "shell-session",
    ) {
        "bash"
    } else if eq_lit(&v, "jsonc") || eq_lit(&v, "json5") {
        "json"
    } else if eq_lit(&v, "yml") {
        "yaml"
    } else if eq_lit(&v, "rs") {
        "rust"
    } else if eq_lit(&v, "ts") {
        "typescript"
    } else {
        lang
    }
}

/// A run of highlighted text as syntect gives it: the foreground's red, green and blue, the
/// font style's bits (bold 1, underline 2, italic 4) and the text.
pub struct Region {
    pub r: u8,
    pub g: u8,
    pub b: u8,
    pub font: u8,
    pub text: String,
}

pub open spec fn region_view(x: Region) -> (u8, u8, u8, u8, Seq<char>) {
    (x.r, x.g, x.b, x.font, x.text@)
}

pub open spec fn region_line_view(v: Vec<Region>) -> Seq<(u8, u8, u8, u8, Seq<char>)> {
    v@.map_values(|x: Region| region_view(x))
}

pub open spec fn regions_view(v: Seq<Vec<Region>>) -> Seq<Seq<(u8, u8, u8, u8, Seq<char>)>> {
    v.map_values(|l: Vec<Region>| region_line_view(l))
}

pub open spec fn opt_regions_view(r: Option<Vec<Vec<Region>>>) -> Option<
    Seq<Seq<(u8, u8, u8, u8, Seq<char>)>>,
> {
    match r {
        Some(v) => Some(regions_view(v@)),
        None => None,
    }
}

/// The regions of each line of `code` that syntect gives for the syntax found by `token`.
pub uninterp spec fn syntect_highlight(token: Seq<char>, code: Seq<char>) -> Option<
    Seq<Seq<(u8, u8, u8, u8, Seq<char>)>>,
>;

/// syntect's `HighlightLines`, over `two-face`'s syntaxes (line endings kept) and its
/// Catppuccin Mocha theme, on the syntax `find_syntax_by_token` finds for `token`: the
/// regions of each line that `LinesWithEndings` cuts from `code`; none where no syntax has
/// the token or a line fails. The regions are named, not stated: they come from the crate's
/// grammars.
#[verifier::external_body]
fn syntect_lines(token: &str, code: &str) -> (r: Option<Vec<Vec<Region>>>)
    ensures
        opt_regions_view(r) == syntect_highlight(token@, code@),
{
    let set = two_face::syntax::extra_newlines();
    let themes = two_face::theme::extra();
    let syntax = set.find_syntax_by_token(token)?;
    let mut h = HighlightLines::new(syntax, themes.get(EmbeddedThemeName::CatppuccinMocha));
    let mut lines = Vec::new();
    for line in LinesWithEndings::from(code) {
        let regions = h.highlight_line(line, &set).ok()?;
        lines.push(regions.into_iter().map(|(s, t)| Region { r: s.foreground.r, g: s.foreground.g,
            b: s.foreground.b, font: s.font_style.bits(), text: t.to_string() }).collect());
    }
    Some(lines)
}

/// The style a region is drawn in: its color as the theme's terminal shows it on the code
/// background, bold, italic and underlined as its font style says.
pub open spec fn region_style(x: (u8, u8, u8, u8, Seq<char>), theme: Theme) -> Style {
    let base = Style {
        fg: Some(adapt_spec(theme.mode, Color::Rgb(x.0, x.1, x.2))),
        bg: Some(theme.code_bg),
        modifiers: 0,
    };
    let bold = if x.3 & 1 == 1 {
        Style { modifiers: base.modifiers | BOLD, ..base }
    } else {
        base
    };
    let italic = if x.3 & 4 == 4 {
        Style { modifiers: bold.modifiers | ITALIC, ..bold }
    } else {
        bold
    };
    if x.3 & 2 == 2 {
        Style { modifiers: italic.modifiers | UNDERLINED, ..italic }
    } else {
        italic
    }
}

/// A highlighted line's spans: each region's text without its line ending, in the region's
/// style; regions left empty are dropped.
pub open spec fn styled_regions(line: Seq<(u8, u8, u8, u8, Seq<char>)>, theme: Theme) -> Seq<
    (Seq<char>, Style),
>
    decreases line.len(),
{
    if line.len() == 0 {
        seq![]
    } else {
        let rest = styled_regions(line.drop_last(), theme);
        let t = trim_newlines(line.last().4);
        if t.len() == 0 {
            rest
        } else {
            rest.push((t, region_style(line.last(), theme)))
        }
    }
}

/// Every line's spans.
pub open spec fn highlighted(regions: Seq<Seq<(u8, u8, u8, u8, Seq<char>)>>, theme: Theme) -> Seq<
    Seq<(Seq<char>, Style)>,
> {
    regions.map_values(|l: Seq<(u8, u8, u8, u8, Seq<char>)>| styled_regions(l, theme))
}

fn region_style_exec(x: &Region, theme: &Theme) -> (s: Style)
    ensures
        s == region_style(region_view(*x), *theme),
{
    let mut out = Style::new().fg(theme.adapt(Color::Rgb(x.r, x.g, x.b))).bg(theme.code_bg);
    if x.font & 1 == 1 {
        out = out.add_modifier(BOLD);
    }
    if x.font & 4 == 4 {
        out = out.add_modifier(ITALIC);
    }
    if x.font & 2 == 2 {
        out = out.add_modifier(UNDERLINED);
    }
    out
}

fn trim_newlines_exec(s: &String) -> (r: String)
    ensures
        r@ == trim_newlines(s@),
{
    let cs = chars_of(s.as_str());
    let mut end: usize = cs.len();
    assert(cs@.take(end as int) =~= s@);
    while end > 0 && cs[end - 1] == '\n'
        invariant
            end <= cs.len(),
            cs@ == s@,
            trim_newlines(cs@.take(end as int)) == trim_newlines(s@),
        decreases end,
    {
        assert(cs@.take(end as int).drop_last() =~= cs@.take(end - 1));
        end = end - 1;
    }
    assert(cs@.take(end as int) =~= cs@.subrange(0, end as int));
    string_of_range(&cs, 0, end)
}

fn styled_line(line: &Vec<Region>, theme: &Theme) -> (r: Vec<Span>)
    ensures
        spans_view(r@) == styled_regions(region_line_view(*line), *theme),
{
    let ghost lv = region_line_view(*line);
    let mut out: Vec<Span> = Vec::new();
    let mut j: usize = 0;
    while j < line.len()
        invariant
            j <= line.len(),
            lv == region_line_view(*line),
            spans_view(out@) == styled_regions(lv.take(j as int), *theme),
        decreases line.len() - j,
    {
        assert(lv.take(j + 1).drop_last() =~= lv.take(j as int));
        assert(lv.take(j + 1).last() == region_view(line@[j as int]));
        let style = region_style_exec(&line[j], theme);
        let text = trim_newlines_exec(&line[j].text);
        if !text.as_str().is_empty() {
            let ghost before = spans_view(out@);
            out.push(Span { content: text, style });
            assert(spans_view(out@) =~= before.push((text@, style)));
        }
        j = j + 1;
    }
    assert(lv.take(line.len() as int) =~= lv);
    out
}

/// Highlighted lines as spans, from the regions syntect gave.
pub fn highlight_regions(regions: &Vec<Vec<Region>>, theme: &Theme) -> (r: Vec<Vec<Span>>)
    ensures
        lines_view(r@) == highlighted(regions_view(regions@), *theme),
{
    let ghost rv = regions_view(regions@);
    let mut out: Vec<Vec<Span>> = Vec::new();
    let mut i: usize = 0;
    while i < regions.len()
        invariant
            i <= regions.len(),
            rv == regions_view(regions@),
            lines_view(out@) == highlighted(rv.take(i as int), *theme),
        decreases regions.len() - i,
    {
        let line = styled_line(&regions[i], theme);
        let ghost before = lines_view(out@);
        out.push(line);
        assert(rv[i as int] == region_line_view(regions@[i as int]));
        assert(lines_view(out@) =~= before.push(spans_view(line@)));
        assert(rv.take(i + 1) =~= rv.take(i as int).push(rv[i as int]));
        assert(highlighted(rv.take(i + 1), *theme) =~= highlighted(rv.take(i as int), *theme).push(
            styled_regions(rv[i as int], *theme),
        ));
        assert(lines_view(out@) =~= highlighted(rv.take(i + 1), *theme));
        i = i + 1;
    }
    assert(rv.take(regions.len() as int) =~= rv);
    out
}

/// What syntect's highlighting gives a fence's language: the spans of each line, or none
/// where syntect finds no syntax or a line fails.
pub open spec fn highlight_spec(lang: Seq<char>, code: Seq<char>, theme: Theme) -> Option<
    Seq<Seq<(Seq<char>, Style)>>,
> {
    match syntect_highlight(alias_spec(lang), code) {
        None => None,
        Some(rs) => Some(highlighted(rs, theme)),
    }
}

/// The highlighted lines of `code` in the fence language `lang`.
pub fn highlight(lang: &str, code: &str, theme: &Theme) -> (r: Option<Vec<Vec<Span>>>)
    ensures
        r is None ==> highlight_spec(lang@, code@, *theme) is None,
        r matches Some(v) ==> highlight_spec(lang@, code@, *theme) == Some(lines_view(v@)),
{
    let regions = match syntect_lines(alias(lang), code) {
        Some(rs) => rs,
        None => return None,
    };
    Some(highlight_regions(&regions, theme))
}

/// Code text: the body text's color on the code background.
pub open spec fn block_style(theme: Theme) -> Style {
    fg_bg_style(theme.fg, theme.code_bg, 0)
}

/// Faint text on the code background, for the language label and the cut mark.
pub open spec fn label_style(theme: Theme) -> Style {
    fg_bg_style(theme.fg_faint, theme.code_bg, 0)
}

/// The bar at the left of every row.
pub open spec fn border_span(theme: Theme) -> (Seq<char>, Style) {
    ("▎ "@, fg_style(theme.code_border, 0))
}

/// Spans moved onto the code background.
pub open spec fn on_code_bg(spans: Seq<(Seq<char>, Style)>, theme: Theme) -> Seq<
    (Seq<char>, Style),
> {
    spans.map_values(|s: (Seq<char>, Style)| (s.0, Style { bg: Some(theme.code_bg), ..s.1 }))
}

/// One row of a code block `inner` columns wide: the bar, then the line on the code
/// background, cut with `…` when too wide, else padded to the width; the first row shows
/// the language at its right when two columns more than it are free.
pub open spec fn code_row(
    line: Seq<(Seq<char>, Style)>,
    first: bool,
    lang: Option<Seq<char>>,
    inner: nat,
    theme: Theme,
) -> Seq<(Seq<char>, Style)> {
    let spans = on_code_bg(line, theme);
    let w = line_columns(spans);
    let head = seq![border_span(theme)];
    if w > inner {
        head + truncated(spans, (inner - 1) as nat) + seq![("…"@, label_style(theme))]
    } else {
        let pad = (inner - w) as nat;
        if first && lang is Some && pad >= str_columns(lang->0) + 2 {
            head + spans + seq![
                (spaces((pad - str_columns(lang->0)) as nat), block_style(theme)),
                (lang->0, label_style(theme)),
            ]
        } else if pad > 0 {
            head + spans + seq![(spaces(pad), block_style(theme))]
        } else {
            head + spans
        }
    }
}

/// The lines a code block shows: highlighted when its language has a syntax, else each line
/// of the code as it is; one empty line for no code.
pub open spec fn source_lines(lang: Option<Seq<char>>, code: Seq<char>, theme: Theme) -> Seq<
    Seq<(Seq<char>, Style)>,
> {
    let hl = match lang {
        Some(l) => highlight_spec(l, code, theme),
        None => None,
    };
    let lines = match hl {
        Some(v) => v,
        None => lines_of(code).map_values(|l: Seq<char>| seq![(l, block_style(theme))]),
    };
    if lines.len() == 0 {
        seq![seq![]]
    } else {
        lines
    }
}

/// The rows of a code block whose text is `code` (tabs already expanded).
pub open spec fn code_rows(lang: Option<Seq<char>>, code: Seq<char>, inner: nat, theme: Theme) -> Seq<
    Seq<(Seq<char>, Style)>,
> {
    let lines = source_lines(lang, code, theme);
    Seq::new(lines.len(), |i: int| code_row(lines[i], i == 0, lang, inner, theme))
}

fn code_row_exec(line: &Vec<Span>, first: bool, lang: Option<&str>, inner: usize, theme: &Theme) -> (r: Vec<Span>)
    requires
        inner >= 1,
    ensures
        spans_view(r@) == code_row(
            spans_view(line@),
            first,
            match lang {
                Some(l) => Some(l@),
                None => None,
            },
            inner as nat,
            *theme,
        ),
{
    let ghost lv = spans_view(line@);
    let mut spans: Vec<Span> = Vec::new();
    let mut k: usize = 0;
    while k < line.len()
        invariant
            k <= line.len(),
            lv == spans_view(line@),
            spans_view(spans@) == on_code_bg(lv.take(k as int), *theme),
        decreases line.len() - k,
    {
        let sp = &line[k];
        let ghost before = spans_view(spans@);
        let mut c = sp.clone_span();
        c.style = c.style.bg(theme.code_bg);
        spans.push(c);
        assert(lv[k as int] == (sp.content@, sp.style));
        assert(spans_view(spans@) =~= before.push((sp.content@, Style { bg: Some(theme.code_bg), ..sp.style })));
        assert(lv.take(k + 1) =~= lv.take(k as int).push(lv[k as int]));
        assert(on_code_bg(lv.take(k + 1), *theme) =~= on_code_bg(lv.take(k as int), *theme).push(
            (lv[k as int].0, Style { bg: Some(theme.code_bg), ..lv[k as int].1 }),
        ));
        assert(spans_view(spans@) =~= on_code_bg(lv.take(k + 1), *theme));
        k = k + 1;
    }
    assert(lv.take(line.len() as int) =~= lv);
    let ghost sv = on_code_bg(lv, *theme);
    let w = line_width(&spans);
    let mut row: Vec<Span> = Vec::new();
    row.push(Span { content: string_of(&chars_of("▎ ")), style: theme.code_border() });
    assert(spans_view(row@) =~= seq![border_span(*theme)]);
    if w > inner {
        assert(run_views(spans@) =~= spans_view(spans@));
        let cut = truncate(spans, inner - 1);
        assert(run_views(cut@) =~= spans_view(cut@));
        let ghost before = spans_view(row@);
        let mut k: usize = 0;
        while k < cut.len()
            invariant
                k <= cut.len(),
                spans_view(row@) == before + spans_view(cut@).take(k as int),
            decreases cut.len() - k,
        {
            let ghost prev = spans_view(row@);
            row.push(cut[k].clone_span());
            assert(spans_view(row@) =~= prev.push(spans_view(cut@)[k as int]));
            assert(spans_view(cut@).take(k + 1) =~= spans_view(cut@).take(k as int).push(spans_view(cut@)[k as int]));
            k = k + 1;
        }
        assert(spans_view(cut@).take(cut.len() as int) =~= spans_view(cut@));
        let ghost mid = spans_view(row@);
        row.push(Span { content: string_of(&chars_of("…")), style: theme.faint().bg(theme.code_bg) });
        assert(spans_view(row@) =~= mid.push(("…"@, label_style(*theme))));
        return row;
    }
    let pad = inner - w;
    let ghost before = spans_view(row@);
    let mut k: usize = 0;
    while k < spans.len()
        invariant
            k <= spans.len(),
            spans_view(row@) == before + spans_view(spans@).take(k as int),
        decreases spans.len() - k,
    {
        let ghost prev = spans_view(row@);
        row.push(spans[k].clone_span());
        assert(spans_view(row@) =~= prev.push(spans_view(spans@)[k as int]));
        assert(spans_view(spans@).take(k + 1) =~= spans_view(spans@).take(k as int).push(spans_view(spans@)[k as int]));
        k = k + 1;
    }
    assert(spans_view(spans@).take(spans.len() as int) =~= spans_view(spans@));
    let ghost body = spans_view(row@);
    if first {
        if let Some(label) = lang {
            let lw = width(label);
            if pad >= 2 && pad - 2 >= lw {
                let mut gap = spaces_span(pad - lw);
                gap.style = theme.code_block();
                row.push(gap);
                row.push(Span { content: label.to_string(), style: theme.faint().bg(theme.code_bg) });
                assert(spans_view(row@) =~= body + seq![
                    (spaces((pad - lw) as nat), block_style(*theme)),
                    (label@, label_style(*theme)),
                ]);
                return row;
            }
        }
    }
    if pad > 0 {
        let mut gap = spaces_span(pad);
        gap.style = theme.code_block();
        row.push(gap);
        assert(spans_view(row@) =~= body + seq![(spaces(pad as nat), block_style(*theme))]);
    }
    row
}

/// The style of a diagram run: text in the body color, borders muted, edges in the accent,
/// all on the code background.
pub open spec fn kind_style(k: Kind, theme: Theme) -> Style {
    match k {
        Kind::Text => fg_bg_style(theme.fg, theme.code_bg, 0),
        Kind::Border => fg_bg_style(theme.fg_muted, theme.code_bg, 0),
        Kind::Edge => fg_bg_style(theme.accent, theme.code_bg, 0),
    }
}

/// A drawing row's runs as spans.
pub open spec fn run_spans(row: Seq<(Kind, Seq<char>)>, theme: Theme) -> Seq<(Seq<char>, Style)> {
    row.map_values(|r: (Kind, Seq<char>)| (r.1, kind_style(r.0, theme)))
}

/// One row of a drawn diagram: the bar and a space, the row, then padding to `inner`
/// columns; the first row names `mermaid` at its right when nine columns are free.
pub open spec fn diagram_row(spans: Seq<(Seq<char>, Style)>, first: bool, inner: nat, theme: Theme) -> Seq<
    (Seq<char>, Style),
> {
    let used = line_columns(spans);
    let head = seq![border_span(theme), (" "@, block_style(theme))];
    let pad: nat = if inner > used {
        (inner - used - 1) as nat
    } else {
        0
    };
    if first && pad >= 9 {
        head + spans + seq![
            (spaces((pad - 7) as nat), block_style(theme)),
            ("mermaid"@, label_style(theme)),
        ]
    } else if pad > 0 {
        head + spans + seq![(spaces(pad), block_style(theme))]
    } else {
        head + spans
    }
}

/// A diagram's rows with an empty row above and below.
pub open spec fn diagram_rows(d: Seq<Seq<(Kind, Seq<char>)>>, inner: nat, theme: Theme) -> Seq<
    Seq<(Seq<char>, Style)>,
> {
    let rows = seq![seq![]] + d.map_values(|r: Seq<(Kind, Seq<char>)>| run_spans(r, theme)) + seq![
        seq![],
    ];
    Seq::new(rows.len(), |i: int| diagram_row(rows[i], i == 0, inner, theme))
}

fn diagram_row_exec(spans: &Vec<Span>, first: bool, inner: usize, theme: &Theme) -> (r: Vec<Span>)
    ensures
        spans_view(r@) == diagram_row(spans_view(spans@), first, inner as nat, *theme),
{
    let used = line_width(spans);
    let mut row: Vec<Span> = Vec::new();
    row.push(Span { content: string_of(&chars_of("▎ ")), style: theme.code_border() });
    row.push(Span { content: string_of(&chars_of(" ")), style: theme.code_block() });
    let ghost before = spans_view(row@);
    assert(before =~= seq![border_span(*theme), (" "@, block_style(*theme))]);
    let mut k: usize = 0;
    while k < spans.len()
        invariant
            k <= spans.len(),
            spans_view(row@) == before + spans_view(spans@).take(k as int),
        decreases spans.len() - k,
    {
        let ghost prev = spans_view(row@);
        row.push(spans[k].clone_span());
        assert(spans_view(row@) =~= prev.push(spans_view(spans@)[k as int]));
        assert(spans_view(spans@).take(k + 1) =~= spans_view(spans@).take(k as int).push(spans_view(spans@)[k as int]));
        k = k + 1;
    }
    assert(spans_view(spans@).take(spans.len() as int) =~= spans_view(spans@));
    let ghost body = spans_view(row@);
    let pad = inner.saturating_sub(used).saturating_sub(1);
    if first && pad >= 9 {
        let mut gap = spaces_span(pad - 7);
        gap.style = theme.code_block();
        row.push(gap);
        row.push(Span { content: string_of(&chars_of("mermaid")), style: theme.faint().bg(theme.code_bg) });
        assert(spans_view(row@) =~= body + seq![
            (spaces((pad - 7) as nat), block_style(*theme)),
            ("mermaid"@, label_style(*theme)),
        ]);
    } else if pad > 0 {
        let mut gap = spaces_span(pad);
        gap.style = theme.code_block();
        row.push(gap);
        assert(spans_view(row@) =~= body + seq![(spaces(pad as nat), block_style(*theme))]);
    }
    row
}

fn run_span(run: &(Kind, String), theme: &Theme) -> (s: Span)
    ensures
        (s.content@, s.style) == (run.1@, kind_style(run.0, *theme)),
{
    let style = match run.0 {
        Kind::Text => theme.text().bg(theme.code_bg),
        Kind::Border => theme.muted().bg(theme.code_bg),
        Kind::Edge => Style::new().fg(theme.accent).bg(theme.code_bg),
    };
    Span { content: run.1.clone(), style }
}

/// The rows of a drawn diagram in a code block `inner` columns wide.
pub fn diagram_lines(d: &Drawing, inner: usize, theme: &Theme) -> (r: Vec<Vec<Span>>)
    ensures
        lines_view(r@) == diagram_rows(d@, inner as nat, *theme),
{
    let ghost rows = seq![seq![]] + d@.map_values(
        |r: Seq<(Kind, Seq<char>)>| run_spans(r, *theme),
    ) + seq![seq![]];
    let mut out: Vec<Vec<Span>> = Vec::new();
    let empty: Vec<Span> = Vec::new();
    out.push(diagram_row_exec(&empty, true, inner, theme));
    assert(spans_view(empty@) =~= rows[0]);
    let mut i: usize = 0;
    while i < d.rows.len()
        invariant
            i <= d.rows.len(),
            rows == seq![seq![]] + d@.map_values(|r: Seq<(Kind, Seq<char>)>| run_spans(r, *theme))
                + seq![seq![]],
            lines_view(out@) == Seq::new((i + 1) as nat, |k: int| diagram_row(rows[k], k == 0, inner as nat, *theme)),
        decreases d.rows.len() - i,
    {
        let src = &d.rows[i];
        let mut spans: Vec<Span> = Vec::new();
        let mut k: usize = 0;
        while k < src.len()
            invariant
                k <= src.len(),
                i < d.rows.len(),
                spans_view(spans@) == run_spans(crate::render::mermaid::row_view(*src), *theme).take(
                    k as int,
                ),
            decreases src.len() - k,
        {
            let ghost prev = spans_view(spans@);
            let ghost rv = crate::render::mermaid::row_view(*src);
            spans.push(run_span(&src[k], theme));
            assert(rv[k as int] == (src@[k as int].0, src@[k as int].1@));
            assert(spans_view(spans@) =~= prev.push((src@[k as int].1@, kind_style(src@[k as int].0, *theme))));
            assert(run_spans(rv, *theme).take(k + 1) =~= run_spans(rv, *theme).take(k as int).push(
                run_spans(rv, *theme)[k as int],
            ));
            assert(spans_view(spans@) =~= run_spans(crate::render::mermaid::row_view(*src), *theme).take(
                k + 1,
            ));
            k = k + 1;
        }
        assert(run_spans(crate::render::mermaid::row_view(*src), *theme).take(src.len() as int)
            =~= run_spans(crate::render::mermaid::row_view(*src), *theme));
        assert(d@[i as int] == crate::render::mermaid::row_view(*src));
        assert(rows[i + 1] == run_spans(d@[i as int], *theme));
        let ghost prev = lines_view(out@);
        let line = diagram_row_exec(&spans, false, inner, theme);
        out.push(line);
        assert(spans_view(spans@) == rows[i + 1]);
        assert(lines_view(out@) =~= prev.push(diagram_row(rows[i + 1], false, inner as nat, *theme)));
        assert(lines_view(out@) =~= Seq::new((i + 2) as nat, |k: int| diagram_row(rows[k], k == 0, inner as nat, *theme)));
        i = i + 1;
    }
    let ghost prev = lines_view(out@);
    let last = diagram_row_exec(&empty, false, inner, theme);
    out.push(last);
    assert(rows.len() == d@.len() + 2);
    assert(rows[d@.len() as int + 1] =~= spans_view(empty@));
    assert(lines_view(out@) =~= prev.push(diagram_row(rows[d@.len() as int + 1], false, inner as nat, *theme)));
    assert(lines_view(out@) =~= diagram_rows(d@, inner as nat, *theme));
    out
}

/// The language of a mermaid block.
pub open spec fn is_mermaid(lang: Option<Seq<char>>) -> bool {
    lang == Some("mermaid"@)
}

pub open spec fn opt_view(lang: Option<&str>) -> Option<Seq<char>> {
    match lang {
        Some(l) => Some(l@),
        None => None,
    }
}

/// A code block's rows in `inner` columns, given the drawing that a mermaid block gave: the
/// diagram when the block is mermaid and the drawing fits with eight columns to spare, else
/// the code.
pub open spec fn block_rows(
    lang: Option<Seq<char>>,
    code: Seq<char>,
    inner: nat,
    theme: Theme,
    drawing: Option<Seq<Seq<(Kind, Seq<char>)>>>,
) -> Seq<Seq<(Seq<char>, Style)>> {
    if is_mermaid(lang) && drawing is Some && max_columns(drawing->0) + 8 <= inner {
        diagram_rows(drawing->0, inner, theme)
    } else {
        code_rows(lang, code, inner, theme)
    }
}

fn plain_lines(code: &str, theme: &Theme) -> (r: Vec<Vec<Span>>)
    ensures
        lines_view(r@) == lines_of(code@).map_values(
            |l: Seq<char>| seq![(l, block_style(*theme))],
        ),
{
    let ls = text_lines(code);
    let ghost goal = lines_of(code@).map_values(|l: Seq<char>| seq![(l, block_style(*theme))]);
    let mut out: Vec<Vec<Span>> = Vec::new();
    let mut i: usize = 0;
    while i < ls.len()
        invariant
            i <= ls.len(),
            views(ls@) == lines_of(code@),
            goal == lines_of(code@).map_values(|l: Seq<char>| seq![(l, block_style(*theme))]),
            lines_view(out@) == goal.take(i as int),
        decreases ls.len() - i,
    {
        let mut line: Vec<Span> = Vec::new();
        line.push(Span { content: string_of(&ls[i]), style: theme.code_block() });
        assert(views(ls@)[i as int] == ls@[i as int]@);
        assert(spans_view(line@) =~= goal[i as int]);
        let ghost prev = lines_view(out@);
        let ghost lv = spans_view(line@);
        out.push(line);
        assert(lines_view(out@) =~= prev.push(lv));
        assert(goal.take(i + 1) =~= goal.take(i as int).push(goal[i as int]));
        assert(lines_view(out@) =~= goal.take(i + 1));
        i = i + 1;
    }
    assert(goal.take(ls.len() as int) =~= goal);
    out
}

/// A code block's rows in `inner` columns, `code` with its tabs already expanded, given what
/// drawing the mermaid renderers made of it.
pub fn code_lines(
    lang: Option<&str>,
    code: &str,
    inner: usize,
    theme: &Theme,
    drawing: Option<&Drawing>,
) -> (r: Vec<Vec<Span>>)
    requires
        inner >= 1,
    ensures
        lines_view(r@) == block_rows(
            opt_view(lang),
            code@,
            inner as nat,
            *theme,
            match drawing {
                Some(d) => Some(d@),
                None => None,
            },
        ),
{
    let mermaid = match lang {
        Some(l) => eq_lit(&chars_of(l), "mermaid"),
        None => false,
    };
    if mermaid {
        if let Some(d) = drawing {
            if inner >= 8 && d.fits_in(inner - 8) {
                return diagram_lines(d, inner, theme);
            }
        }
    }
    let hl = match lang {
        Some(l) => highlight(l, code, theme),
        None => None,
    };
    let mut lines = match hl {
        Some(v) => v,
        None => plain_lines(code, theme),
    };
    let ghost src = source_lines(opt_view(lang), code@, *theme);
    if lines.len() == 0 {
        let e: Vec<Span> = Vec::new();
        assert(spans_view(e@) =~= seq![]);
        lines.push(e);
        assert(lines_view(lines@) =~= seq![seq![]]);
    }
    assert(lines_view(lines@) == src);
    let mut out: Vec<Vec<Span>> = Vec::new();
    let mut i: usize = 0;
    while i < lines.len()
        invariant
            i <= lines.len(),
            inner >= 1,
            lines_view(lines@) == src,
            lines_view(out@) == Seq::new(
                i as nat,
                |k: int| code_row(src[k], k == 0, opt_view(lang), inner as nat, *theme),
            ),
        decreases lines.len() - i,
    {
        let row = code_row_exec(&lines[i], i == 0, lang, inner, theme);
        let ghost prev = lines_view(out@);
        let ghost rv = spans_view(row@);
        out.push(row);
        assert(lines_view(out@) =~= prev.push(rv));
        assert(spans_view(lines@[i as int]@) == src[i as int]);
        assert(lines_view(out@) =~= Seq::new(
            (i + 1) as nat,
            |k: int| code_row(src[k], k == 0, opt_view(lang), inner as nat, *theme),
        ));
        i = i + 1;
    }
    out
}

/// `code` with each tab spread to four spaces.
pub open spec fn expand_tabs(code: Seq<char>) -> Seq<char> {
    replace_all(code, "\t"@, "    "@)
}

/// The columns inside a code block `avail` columns wide: two fewer, at least one.
pub open spec fn block_inner(avail: usize) -> nat {
    if avail >= 3 {
        (avail - 2) as nat
    } else {
        1
    }
}

/// The rows of a fenced code block in `avail` columns: its tabs spread to four spaces, a
/// mermaid block drawn when a renderer draws it within the width (asked with eight columns
/// to spare), else the code (see `code_lines`), given what `render` gives.
pub fn code_block(lang: Option<&str>, code: &str, avail: usize, theme: &Theme) -> (r: Vec<Vec<Span>>)
    ensures
        !is_mermaid(opt_view(lang)) ==> lines_view(r@) == block_rows(
            opt_view(lang),
            expand_tabs(code@),
            block_inner(avail),
            *theme,
            None,
        ),
        is_mermaid(opt_view(lang)) ==> lines_view(r@) == block_rows(
                opt_view(lang),
                expand_tabs(code@),
                block_inner(avail),
                *theme,
                render_spec(
                    expand_tabs(code@),
                    (if block_inner(avail) >= 8 { block_inner(avail) - 8 } else { 0 }) as usize,
                ),
            ),
{
    proof {
        reveal_strlit("\t");
    }
    let expanded = string_of(&replace_lit(&chars_of(code), "\t", "    "));
    let inner = if avail >= 3 {
        avail - 2
    } else {
        1
    };
    let mermaid = match lang {
        Some(l) => eq_lit(&chars_of(l), "mermaid"),
        None => false,
    };
    if mermaid {
        let drawing = render(expanded.as_str(), inner.saturating_sub(8));
        let r = code_lines(lang, expanded.as_str(), inner, theme, drawing.as_ref());
        proof {
            let d = match drawing {
                Some(x) => Some(x@),
                None => None,
            };
            assert(expanded@ == expand_tabs(code@));
            assert(d == render_spec(expand_tabs(code@), inner.saturating_sub(8)));
            assert(lines_view(r@) == block_rows(opt_view(lang), expand_tabs(code@), block_inner(avail), *theme, d));
        }
        r
    } else {
        code_lines(lang, expanded.as_str(), inner, theme, None)
    }
}

} // verus!
