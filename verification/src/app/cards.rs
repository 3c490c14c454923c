//! The two side panels as they are drawn: the outline card and the files sidebar. Each row
//! of a panel is an item of one or more lines: the tree prefix, the fold marker and the
//! label wrapped to the list's width, continuation lines indented under the label.
use vstd::prelude::*;

use crate::outline::Row;
use crate::project::scan::Entry;
use crate::app::panels::{
    continuation_prefix, continuation_prefix_spec, label_width, label_width_spec, wrap_label, wrap_label_spec, Rect,
};
use crate::render::layout::Heading;
use crate::render::styles::fg_style;
use crate::render::theme::{ColorMode, Theme};
use crate::render::wrap::{lines_view, Span, Style, BOLD};
use crate::text::{chars_of, string_of};

verus! {

/// Lines of spans as plain values.
pub type LinesView = Seq<Seq<(Seq<char>, Style)>>;

/// The lines of a panel item: the label wrapped to what the list leaves after the prefix and
/// marker; the first line carries the prefix (muted) and the marker, the others the prefix as
/// it continues and two spaces.
pub open spec fn item_spec(
    list_width: u16,
    prefix: Seq<char>,
    marker: Seq<char>,
    marker_style: Style,
    label: Seq<char>,
    label_style: Style,
    theme: Theme,
) -> LinesView {
    let ls = wrap_label_spec(label, label_width_spec(list_width, prefix, marker));
    let muted = fg_style(theme.fg_muted, 0);
    Seq::new(
        ls.len(),
        |i: int|
            if i == 0 {
                seq![(prefix, muted), (marker, marker_style), (ls[0], label_style)]
            } else {
                seq![
                    (continuation_prefix_spec(prefix), muted),
                    ("  "@, Style { fg: None, bg: None, modifiers: 0 }),
                    (ls[i], label_style),
                ]
            },
    )
}

proof fn lemma_bold()
    ensures
        0u16 | BOLD == BOLD,
{
    assert(0u16 | 1u16 == 1u16) by (bit_vector);
}

fn span(text: String, style: Style) -> (s: Span)
    ensures
        s.content@ == text@,
        s.style == style,
{
    Span { content: text, style }
}

/// A panel item's lines and its height in rows.
pub fn panel_item(
    list_width: u16,
    prefix: &str,
    marker: &str,
    marker_style: Style,
    label: &str,
    label_style: Style,
    theme: &Theme,
) -> (r: (Vec<Vec<Span>>, usize))
    ensures
        lines_view(r.0@) == item_spec(list_width, prefix@, marker@, marker_style, label@, label_style, *theme),
        r.1 == r.0@.len(),
        r.1 >= 1,
{
    let ls = wrap_label(label, label_width(list_width, prefix, marker));
    let cont = continuation_prefix(prefix);
    let ghost want = item_spec(list_width, prefix@, marker@, marker_style, label@, label_style, *theme);
    let ghost lsv = wrap_label_spec(label@, label_width_spec(list_width, prefix@, marker@));
    let mut out: Vec<Vec<Span>> = Vec::new();
    let mut i: usize = 0;
    while i < ls.len()
        invariant
            i <= ls.len(),
            ls@.len() == lsv.len(),
            lsv == wrap_label_spec(label@, label_width_spec(list_width, prefix@, marker@)),
            forall|k: int| 0 <= k < ls@.len() ==> #[trigger] ls@[k]@ == lsv[k],
            cont@ == continuation_prefix_spec(prefix@),
            want == item_spec(list_width, prefix@, marker@, marker_style, label@, label_style, *theme),
            want.len() == ls@.len(),
            lines_view(out@) == want.take(i as int),
        decreases ls.len() - i,
    {
        let mut line: Vec<Span> = Vec::new();
        if i == 0 {
            line.push(span(string_of(&chars_of(prefix)), theme.muted()));
            line.push(span(string_of(&chars_of(marker)), marker_style));
        } else {
            line.push(span(string_of(&chars_of(cont.as_str())), theme.muted()));
            line.push(span(string_of(&chars_of("  ")), Style::new()));
        }
        line.push(span(string_of(&chars_of(ls[i].as_str())), label_style));
        let ghost before = lines_view(out@);
        assert(ls@[i as int]@ == lsv[i as int]);
        assert(want[i as int] == (if i == 0 {
            seq![(prefix@, fg_style(theme.fg_muted, 0)), (marker@, marker_style), (lsv[0], label_style)]
        } else {
            seq![
                (continuation_prefix_spec(prefix@), fg_style(theme.fg_muted, 0)),
                ("  "@, Style { fg: None, bg: None, modifiers: 0 }),
                (lsv[i as int], label_style),
            ]
        }));
        out.push(line);
        assert(lines_view(out@) =~= before.push(crate::render::wrap::spans_view(line@)));
        assert(crate::render::wrap::spans_view(line@) =~= want[i as int]);
        assert(want.take(i + 1) =~= want.take(i as int).push(want[i as int]));
        i = i + 1;
    }
    assert(want.take(ls.len() as int) =~= want);
    let n = out.len();
    (out, n)
}

/// The marker's style: the accent for a folded section or folder, else muted.
pub open spec fn marker_style_spec(collapsed: bool, theme: Theme) -> Style {
    if collapsed {
        fg_style(theme.accent, 0)
    } else {
        fg_style(theme.fg_muted, 0)
    }
}

fn marker_style(collapsed: bool, theme: &Theme) -> (s: Style)
    ensures
        s == marker_style_spec(collapsed, *theme),
{
    if collapsed {
        Style::new().fg(theme.accent)
    } else {
        theme.muted()
    }
}

/// The selected row's style: the selection, with the accent when the panel has the keys.
pub open spec fn highlight_spec(focused: bool, theme: Theme) -> Style {
    if focused {
        Style { fg: Some(theme.accent), bg: Some(theme.selected_bg), modifiers: BOLD }
    } else {
        Style { fg: None, bg: Some(theme.selected_bg), modifiers: BOLD }
    }
}

/// The selected row's style.
pub fn highlight(focused: bool, theme: &Theme) -> (s: Style)
    ensures
        s == highlight_spec(focused, *theme),
{
    if focused {
        theme.selected().fg(theme.accent)
    } else {
        theme.selected()
    }
}

/// A panel's frame: its border or rule and title styles, by whether it has the keys.
pub open spec fn frame_styles(focused: bool, theme: Theme) -> (Style, Style) {
    if focused {
        (fg_style(theme.overlay_border, 0), fg_style(theme.accent, BOLD))
    } else {
        (fg_style(theme.table_border, 0), fg_style(theme.fg_muted, BOLD))
    }
}

/// The border (or rule) and title styles of a panel.
pub fn panel_frame_styles(focused: bool, theme: &Theme) -> (r: (Style, Style))
    ensures
        r == frame_styles(focused, *theme),
{
    proof {
        lemma_bold();
    }
    if focused {
        (theme.overlay_border(), Style::new().fg(theme.accent).bold())
    } else {
        (theme.table_border(), theme.muted().bold())
    }
}

/// The glass a panel is painted with: faint text on the surface color, no attributes; none
/// (the terminal's own) without colors.
pub open spec fn glass_spec(theme: Theme) -> Option<Style> {
    if theme.mode == ColorMode::Mono {
        None
    } else {
        Some(Style { fg: Some(theme.fg_faint), bg: Some(theme.surface), modifiers: 0 })
    }
}

/// The glass a panel is painted with.
pub fn glass(theme: &Theme) -> (r: Option<Style>)
    ensures
        r == glass_spec(*theme),
{
    match theme.mode {
        ColorMode::Mono => None,
        _ => Some(Style::new().fg(theme.fg_faint).bg(theme.surface)),
    }
}

/// The list inside the outline card: the card's border taken off, then a column and a row
/// of padding on each side.
pub open spec fn card_list_spec(panel: Rect) -> Rect {
    let iw: int = if panel.width >= 2 { panel.width - 2 } else { 0 };
    let ih: int = if panel.height >= 2 { panel.height - 2 } else { 0 };
    Rect {
        x: (panel.x + 2) as u16,
        y: (panel.y + 2) as u16,
        width: (if iw >= 2 { iw - 2 } else { 0 }) as u16,
        height: (if ih >= 2 { ih - 2 } else { 0 }) as u16,
    }
}

/// The list inside the outline card.
pub fn card_list(panel: Rect) -> (r: Rect)
    requires
        panel.fits(),
        panel.x + 2 <= u16::MAX,
        panel.y + 2 <= u16::MAX,
    ensures
        r == card_list_spec(panel),
{
    let iw = panel.width.saturating_sub(2);
    let ih = panel.height.saturating_sub(2);
    Rect { x: panel.x + 2, y: panel.y + 2, width: iw.saturating_sub(2), height: ih.saturating_sub(2) }
}

/// The list inside the files sidebar: right of a column of padding, under the title and a
/// blank row, left of the rule and a column.
pub open spec fn sidebar_list_spec(panel: Rect) -> Rect {
    Rect {
        x: (panel.x + 1) as u16,
        y: (panel.y + 2) as u16,
        width: (if panel.width >= 3 { panel.width - 3 } else { 0 }) as u16,
        height: (if panel.height >= 2 { panel.height - 2 } else { 0 }) as u16,
    }
}

/// The list inside the files sidebar.
pub fn sidebar_list(panel: Rect) -> (r: Rect)
    requires
        panel.x + 1 <= u16::MAX,
        panel.y + 2 <= u16::MAX,
    ensures
        r == sidebar_list_spec(panel),
{
    Rect {
        x: panel.x + 1,
        y: panel.y + 2,
        width: panel.width.saturating_sub(3),
        height: panel.height.saturating_sub(2),
    }
}

/// What a panel shows in its list: a line of faint text when there is nothing to list, else
/// its items (lines of spans) with their heights.
pub struct PanelList {
    pub empty: Option<String>,
    pub items: Vec<Vec<Vec<Span>>>,
    pub heights: Vec<usize>,
}

pub open spec fn items_view(v: Seq<Vec<Vec<Span>>>) -> Seq<LinesView> {
    v.map_values(|i: Vec<Vec<Span>>| lines_view(i@))
}

// ---------------------------------------------------------------------------------------------
// The outline card
// ---------------------------------------------------------------------------------------------
/// The outline card's items: for each row, its heading's text in the heading's color.
pub open spec fn outline_items_spec(rows: Seq<Row>, headings: Seq<Heading>, list_width: u16, theme: Theme) -> Seq<LinesView> {
    Seq::new(
        rows.len(),
        |k: int|
            item_spec(
                list_width,
                rows[k].prefix@,
                rows[k].marker@,
                marker_style_spec(rows[k].collapsed, theme),
                headings[rows[k].index as int].text@,
                theme.heading_text_spec(headings[rows[k].index as int].level),
                theme,
            ),
    )
}

/// The outline card's list: "No headings" without rows, else an item per row.
pub fn outline_card(rows: &Vec<Row>, headings: &Vec<Heading>, list_width: u16, theme: &Theme) -> (r: PanelList)
    requires
        forall|k: int| 0 <= k < rows@.len() ==> (#[trigger] rows@[k]).index < headings@.len(),
    ensures
        rows@.len() == 0 ==> (r.empty matches Some(t) && t@ == "No headings"@ && r.items@.len() == 0),
        rows@.len() > 0 ==> r.empty is None && items_view(r.items@) == outline_items_spec(
            rows@,
            headings@,
            list_width,
            *theme,
        ),
        r.heights@.len() == r.items@.len(),
        forall|k: int| 0 <= k < r.items@.len() ==> #[trigger] r.heights@[k] == r.items@[k]@.len(),
{
    if rows.len() == 0 {
        return PanelList { empty: Some(string_of(&chars_of("No headings"))), items: Vec::new(), heights: Vec::new() };
    }
    let ghost want = outline_items_spec(rows@, headings@, list_width, *theme);
    let mut items: Vec<Vec<Vec<Span>>> = Vec::new();
    let mut heights: Vec<usize> = Vec::new();
    let mut k: usize = 0;
    while k < rows.len()
        invariant
            k <= rows.len(),
            forall|j: int| 0 <= j < rows@.len() ==> (#[trigger] rows@[j]).index < headings@.len(),
            want == outline_items_spec(rows@, headings@, list_width, *theme),
            items_view(items@) == want.take(k as int),
            heights@.len() == items@.len(),
            forall|j: int| 0 <= j < items@.len() ==> #[trigger] heights@[j] == items@[j]@.len(),
        decreases rows.len() - k,
    {
        let row = &rows[k];
        let h = &headings[row.index];
        let (item, height) = panel_item(
            list_width,
            row.prefix.as_str(),
            row.marker,
            marker_style(row.collapsed, theme),
            h.text.as_str(),
            theme.heading_text(h.level),
            theme,
        );
        let ghost before = items_view(items@);
        items.push(item);
        heights.push(height);
        assert(items_view(items@) =~= before.push(want[k as int]));
        assert(want.take(k + 1) =~= want.take(k as int).push(want[k as int]));
        k = k + 1;
    }
    assert(want.take(rows.len() as int) =~= want);
    PanelList { empty: None, items, heights }
}

// ---------------------------------------------------------------------------------------------
// The files sidebar
// ---------------------------------------------------------------------------------------------
/// The sidebar's title: the name of the folder (the first entry), else "Files".
pub open spec fn files_title_spec(entries: Seq<Entry>) -> Seq<char> {
    if entries.len() > 0 {
        entries[0].name@
    } else {
        "Files"@
    }
}

/// The sidebar's title.
pub fn files_title(entries: &Vec<Entry>) -> (r: String)
    ensures
        r@ == files_title_spec(entries@),
{
    if entries.len() > 0 {
        string_of(&chars_of(entries[0].name.as_str()))
    } else {
        string_of(&chars_of("Files"))
    }
}

/// An entry's label: its title when titles are asked for and it is a file that has one, else
/// its name.
pub open spec fn entry_label_spec(e: Entry, titles: bool) -> Seq<char> {
    if titles && !e.is_dir && e.title is Some {
        e.title->0@
    } else {
        e.name@
    }
}

/// An entry's style: the accent in bold for the file being read, muted bold for a folder,
/// body text for other files.
pub open spec fn entry_style_spec(is_current: bool, is_dir: bool, theme: Theme) -> Style {
    if is_current {
        fg_style(theme.accent, BOLD)
    } else if is_dir {
        fg_style(theme.fg_muted, BOLD)
    } else {
        fg_style(theme.fg, 0)
    }
}

/// The sidebar's items: for each row, its entry's label in the entry's style.
pub open spec fn files_items_spec(
    entries: Seq<Entry>,
    rows: Seq<Row>,
    current: Option<usize>,
    titles: bool,
    list_width: u16,
    theme: Theme,
) -> Seq<LinesView> {
    Seq::new(
        rows.len(),
        |k: int|
            item_spec(
                list_width,
                rows[k].prefix@,
                rows[k].marker@,
                marker_style_spec(rows[k].collapsed, theme),
                entry_label_spec(entries[rows[k].index as int], titles),
                entry_style_spec(current == Some(rows[k].index), entries[rows[k].index as int].is_dir, theme),
                theme,
            ),
    )
}

/// The files sidebar's list: "No Markdown files" without rows, else an item per row.
pub fn files_card(
    entries: &Vec<Entry>,
    rows: &Vec<Row>,
    current: Option<usize>,
    titles: bool,
    list_width: u16,
    theme: &Theme,
) -> (r: PanelList)
    requires
        forall|k: int| 0 <= k < rows@.len() ==> (#[trigger] rows@[k]).index < entries@.len(),
    ensures
        rows@.len() == 0 ==> (r.empty matches Some(t) && t@ == "No Markdown files"@ && r.items@.len() == 0),
        rows@.len() > 0 ==> r.empty is None && items_view(r.items@) == files_items_spec(
            entries@,
            rows@,
            current,
            titles,
            list_width,
            *theme,
        ),
        r.heights@.len() == r.items@.len(),
        forall|k: int| 0 <= k < r.items@.len() ==> #[trigger] r.heights@[k] == r.items@[k]@.len(),
{
    if rows.len() == 0 {
        return PanelList {
            empty: Some(string_of(&chars_of("No Markdown files"))),
            items: Vec::new(),
            heights: Vec::new(),
        };
    }
    let ghost want = files_items_spec(entries@, rows@, current, titles, list_width, *theme);
    let mut items: Vec<Vec<Vec<Span>>> = Vec::new();
    let mut heights: Vec<usize> = Vec::new();
    let mut k: usize = 0;
    while k < rows.len()
        invariant
            k <= rows.len(),
            forall|j: int| 0 <= j < rows@.len() ==> (#[trigger] rows@[j]).index < entries@.len(),
            want == files_items_spec(entries@, rows@, current, titles, list_width, *theme),
            items_view(items@) == want.take(k as int),
            heights@.len() == items@.len(),
            forall|j: int| 0 <= j < items@.len() ==> #[trigger] heights@[j] == items@[j]@.len(),
        decreases rows.len() - k,
    {
        let row = &rows[k];
        let e = &entries[row.index];
        let label: &str = if titles && !e.is_dir {
            match &e.title {
                Some(t) => t.as_str(),
                None => e.name.as_str(),
            }
        } else {
            e.name.as_str()
        };
        let is_current = match current {
            Some(c) => c == row.index,
            None => false,
        };
        proof {
            lemma_bold();
        }
        let style = if is_current {
            Style::new().fg(theme.accent).bold()
        } else if e.is_dir {
            theme.muted().bold()
        } else {
            theme.text()
        };
        let (item, height) = panel_item(
            list_width,
            row.prefix.as_str(),
            row.marker,
            marker_style(row.collapsed, theme),
            label,
            style,
            theme,
        );
        let ghost before = items_view(items@);
        items.push(item);
        heights.push(height);
        assert(items_view(items@) =~= before.push(want[k as int]));
        assert(want.take(k + 1) =~= want.take(k as int).push(want[k as int]));
        k = k + 1;
    }
    assert(want.take(rows.len() as int) =~= want);
    PanelList { empty: None, items, heights }
}

} // verus!
