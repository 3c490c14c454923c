//! Where the viewer's panels go: the margins beside the text, the file list and outline
//! cards, and how their labels wrap.
use vstd::prelude::*;

use crate::outline::Row;
use crate::render::layout::Heading;
use crate::render::wrap::{
    finish_s, lines_view, piece_s, pieces_s, sat, start_state, str_columns, tokens, tokens_s, width, wrap, wrapped,
    Piece, Span, Style,
};
use crate::text::{chars_of, extend, string_of};

verus! {

/// The file list asks for this many text columns beside it when the user did not ask for it.
pub const MIN_CONTENT_AUTO: u16 = 60;

/// ... and this many when the user asked for it.
pub const MIN_CONTENT_FORCED: u16 = 40;

/// A rectangle of terminal cells.
#[derive(Debug, Clone, Copy, PartialEq, Eq, Structural)]
pub struct Rect {
    pub x: u16,
    pub y: u16,
    pub width: u16,
    pub height: u16,
}

impl Rect {
    /// The rectangle lies on a terminal: its far edges are coordinates too.
    pub open spec fn fits(self) -> bool {
        self.x + self.width <= u16::MAX && self.y + self.height <= u16::MAX
    }

    /// The column just right of the rectangle.
    pub fn right(self) -> (r: u16)
        ensures
            r as int == min(self.x + self.width, u16::MAX as int),
    {
        self.x.saturating_add(self.width)
    }
}

pub open spec fn gutters_spec(w: u16) -> (u16, u16) {
    if w <= 29 {
        (0, 1)
    } else if w <= 59 {
        (1, 1)
    } else {
        (2, 2)
    }
}

/// The blank columns left and right of the text in a window `width` columns wide.
pub fn gutters(width: u16) -> (r: (u16, u16))
    ensures
        r == gutters_spec(width),
{
    if width <= 29 {
        (0, 1)
    } else if width <= 59 {
        (1, 1)
    } else {
        (2, 2)
    }
}

pub open spec fn content_width_spec(area_width: u16, max_width: Option<usize>) -> nat {
    let g = gutters_spec(area_width);
    let used = g.0 + g.1;
    let available: nat = if area_width >= used {
        (area_width - used) as nat
    } else {
        0
    };
    let capped: nat = match max_width {
        Some(cap) => if available <= cap {
            available
        } else {
            cap as nat
        },
        None => available,
    };
    if capped >= 4 {
        capped
    } else {
        4
    }
}

/// The columns of text in a window `area_width` wide: what the gutters leave, capped at
/// `max_width`, and never under 4.
pub fn content_width(area_width: u16, max_width: Option<usize>) -> (r: usize)
    ensures
        r == content_width_spec(area_width, max_width),
{
    let (left, right) = gutters(area_width);
    let available = area_width.saturating_sub(left + right) as usize;
    let capped = match max_width {
        Some(cap) => if available <= cap {
            available
        } else {
            cap
        },
        None => available,
    };
    if capped >= 4 {
        capped
    } else {
        4
    }
}

pub open spec fn label_width_spec(list_width: u16, prefix: Seq<char>, marker: Seq<char>) -> nat {
    let used = sat(sat(1 + str_columns(prefix)) + str_columns(marker));
    let left: nat = if list_width >= used {
        (list_width - used) as nat
    } else {
        0
    };
    if left >= 4 {
        left
    } else {
        4
    }
}

/// The columns an outline label may take in a list `list_width` wide after its tree prefix
/// and marker, never under 4.
pub fn label_width(list_width: u16, prefix: &str, marker: &str) -> (r: usize)
    ensures
        r == label_width_spec(list_width, prefix@, marker@),
{
    let used = 1usize.saturating_add(width(prefix)).saturating_add(width(marker));
    let lw = list_width as usize;
    let left = if lw >= used {
        lw - used
    } else {
        0
    };
    if left >= 4 {
        left
    } else {
        4
    }
}

/// A line's text: its spans one after the other.
pub open spec fn line_text(line: Seq<(Seq<char>, Style)>) -> Seq<char>
    decreases line.len(),
{
    if line.len() == 0 {
        seq![]
    } else {
        line_text(line.drop_last()) + line.last().0
    }
}

/// The lines a plain label wraps into at `width` columns.
pub open spec fn label_lines(label: Seq<char>, width: nat) -> Seq<Seq<(Seq<char>, Style)>> {
    let w = if width == 0 {
        1
    } else {
        width
    };
    finish_s(tokens_s(start_state(), tokens(label), Style { fg: None, bg: None, modifiers: 0 }, w), w).lines
}

/// The text of each line a label wraps into, one empty line for a label that makes none.
pub open spec fn wrap_label_spec(label: Seq<char>, width: nat) -> Seq<Seq<char>> {
    let ls = label_lines(label, width);
    if ls.len() == 0 {
        seq![seq![]]
    } else {
        ls.map_values(|l: Seq<(Seq<char>, Style)>| line_text(l))
    }
}

proof fn lemma_single_piece(p: Piece, width: nat)
    requires
        p matches Piece::Text { style, atomic, .. } && !atomic && style == (Style {
            fg: None,
            bg: None,
            modifiers: 0,
        }),
    ensures
        wrapped(seq![p], width) == label_lines(p->text@, width),
{
    let w = if width == 0 {
        1
    } else {
        width
    };
    assert(seq![p].drop_last() =~= Seq::<Piece>::empty());
    assert(pieces_s(start_state(), seq![p].drop_last(), w) == start_state());
    assert(seq![p].last() == p);
    assert(pieces_s(start_state(), seq![p], w) == piece_s(start_state(), p, w));
}

/// A label wrapped to `width` columns, as lines of text.
pub fn wrap_label(label: &str, width: usize) -> (r: Vec<String>)
    ensures
        r@.len() == wrap_label_spec(label@, width as nat).len(),
        forall|i: int| 0 <= i < r@.len() ==> #[trigger] r@[i]@ == wrap_label_spec(label@, width as nat)[i],
{
    let p = Piece::text(label, Style::new());
    let mut ps: Vec<Piece> = Vec::new();
    ps.push(p);
    proof {
        assert(ps@ =~= seq![p]);
        lemma_single_piece(p, width as nat);
    }
    let lines = wrap(ps.as_slice(), width);
    let ghost lv = lines_view(lines@);
    assert(lv == label_lines(label@, width as nat));
    let mut out: Vec<String> = Vec::new();
    let mut i: usize = 0;
    while i < lines.len()
        invariant
            i <= lines.len(),
            lv == lines_view(lines@),
            out@.len() == i,
            forall|k: int| 0 <= k < i ==> #[trigger] out@[k]@ == line_text(lv[k]),
        decreases lines.len() - i,
    {
        let line: &Vec<Span> = &lines[i];
        let ghost l = lv[i as int];
        assert(l.len() == line@.len());
        let mut acc: Vec<char> = Vec::new();
        let mut j: usize = 0;
        while j < line.len()
            invariant
                j <= line.len(),
                l.len() == line@.len(),
                forall|k: int| 0 <= k < line@.len() ==> #[trigger] l[k] == (line@[k].content@, line@[k].style),
                acc@ == line_text(l.take(j as int)),
            decreases line.len() - j,
        {
            let cs = chars_of(line[j].content.as_str());
            extend(&mut acc, &cs);
            assert(l.take(j + 1).drop_last() =~= l.take(j as int));
            j = j + 1;
        }
        assert(l.take(line.len() as int) =~= l);
        out.push(string_of(&acc));
        i = i + 1;
    }
    if out.len() == 0 {
        let mut one: Vec<String> = Vec::new();
        one.push(String::new());
        assert(one@[0]@ =~= Seq::<char>::empty());
        return one;
    }
    out
}

pub open spec fn continuation_prefix_spec(prefix: Seq<char>) -> Seq<char> {
    if prefix.len() >= 2 && prefix.subrange(prefix.len() - 2, prefix.len() as int) == seq!['├', ' '] {
        prefix.take(prefix.len() - 2) + seq!['│', ' ']
    } else if prefix.len() >= 2 && prefix.subrange(prefix.len() - 2, prefix.len() as int) == seq!['└', ' '] {
        prefix.take(prefix.len() - 2) + seq![' ', ' ']
    } else {
        prefix
    }
}

/// The tree prefix for the second and later lines of a wrapped label: a branch becomes the
/// line that continues past it, and the last branch becomes blank.
pub fn continuation_prefix(prefix: &str) -> (r: String)
    ensures
        r@ == continuation_prefix_spec(prefix@),
{
    let cs = chars_of(prefix);
    let n = cs.len();
    if n >= 2 && cs[n - 2] == '├' && cs[n - 1] == ' ' {
        let mut head = crate::text::slice(&cs, 0, n - 2);
        head.push('│');
        head.push(' ');
        assert(cs@.subrange(n - 2, n as int) =~= seq!['├', ' ']);
        assert(head@ =~= cs@.take(n - 2) + seq!['│', ' ']);
        return string_of(&head);
    }
    if n >= 2 && cs[n - 2] == '└' && cs[n - 1] == ' ' {
        let mut head = crate::text::slice(&cs, 0, n - 2);
        head.push(' ');
        head.push(' ');
        assert(cs@.subrange(n - 2, n as int) =~= seq!['└', ' ']);
        assert(head@ =~= cs@.take(n - 2) + seq![' ', ' ']);
        return string_of(&head);
    }
    proof {
        if n >= 2 {
            if cs@.subrange(n - 2, n as int) == seq!['├', ' '] {
                assert(cs@.subrange(n - 2, n as int)[0] == cs@[n - 2]);
                assert(cs@.subrange(n - 2, n as int)[1] == cs@[n - 1]);
            }
            if cs@.subrange(n - 2, n as int) == seq!['└', ' '] {
                assert(cs@.subrange(n - 2, n as int)[0] == cs@[n - 2]);
                assert(cs@.subrange(n - 2, n as int)[1] == cs@[n - 1]);
            }
        }
    }
    string_of(&cs)
}

pub open spec fn centered_spec(area: Rect, w: u16, h: u16) -> Rect {
    let w2 = if w <= area.width {
        w
    } else {
        area.width
    };
    let h2 = if h <= area.height {
        h
    } else {
        area.height
    };
    Rect {
        x: (area.x + (area.width - w2) / 2) as u16,
        y: (area.y + (area.height - h2) / 2) as u16,
        width: w2,
        height: h2,
    }
}

/// A `w` by `h` rectangle (at most the area) in the middle of `area`.
pub fn centered(area: Rect, w: u16, h: u16) -> (r: Rect)
    requires
        area.fits(),
    ensures
        r == centered_spec(area, w, h),
{
    let w = if w <= area.width {
        w
    } else {
        area.width
    };
    let h = if h <= area.height {
        h
    } else {
        area.height
    };
    Rect { x: area.x + (area.width - w) / 2, y: area.y + (area.height - h) / 2, width: w, height: h }
}

/// What decides the panels besides the window: focus mode, whether the user asked for or
/// against the file list and the outline, whether a folder is open, and how wide the widest
/// outline entry is.
#[derive(Debug, Clone, Copy, PartialEq, Eq)]
pub struct PanelState {
    pub focus_mode: bool,
    pub show_files: Option<bool>,
    pub has_project: bool,
    pub show_outline: Option<bool>,
    pub outline_widest: usize,
}

/// The lines the outline's labels take in a list `list_width` wide, counted up to row `n`.
pub open spec fn outline_lines(rows: Seq<Row>, headings: Seq<Heading>, list_width: u16, n: int) -> nat
    decreases n,
{
    if n <= 0 {
        0
    } else {
        let r = rows[n - 1];
        let lw = label_width_spec(list_width, r.prefix@, r.marker@);
        sat(outline_lines(rows, headings, list_width, n - 1) + wrap_label_spec(headings[r.index as int].text@, lw).len())
    }
}

pub open spec fn clamp(v: int, lo: int, hi: int) -> int {
    if v < lo {
        lo
    } else if v > hi {
        hi
    } else {
        v
    }
}

pub open spec fn min(a: int, b: int) -> int {
    if a <= b {
        a
    } else {
        b
    }
}

pub open spec fn max(a: int, b: int) -> int {
    if a >= b {
        a
    } else {
        b
    }
}

/// The rows of text above and below the text.
pub open spec fn margin_spec(height: u16) -> u16 {
    if height <= 5 {
        0
    } else if height <= 9 {
        1
    } else {
        2
    }
}

/// The file list's width in a body `width` wide.
pub open spec fn files_width(width: u16) -> int {
    clamp((width / 4) as int, 22, 32)
}

/// The outline card's width.
pub open spec fn outline_width(width: u16, widest: usize) -> int {
    let wd = (max(widest as int, 11) as u16) as int;
    max(min(clamp(wd + 7, 18, 32), (width / 3) as int), 14)
}

/// The panels are open at all: the window is at least seven rows tall and not in focus mode.
pub open spec fn panels_open(st: PanelState, body: Rect) -> bool {
    body.height >= 7 && !st.focus_mode
}

/// The text must keep this many columns beside a panel: fewer when the user asked for the
/// panel than when it shows by itself.
pub open spec fn min_content(asked: Option<bool>) -> int {
    if asked is Some {
        MIN_CONTENT_FORCED as int
    } else {
        MIN_CONTENT_AUTO as int
    }
}

/// The file list shows: the panels are open, the list is wanted (asked for, or by default
/// when a folder is open), and the text keeps its columns beside it.
pub open spec fn files_shown(st: PanelState, body: Rect) -> bool {
    let wanted = match st.show_files {
        Some(v) => v,
        None => st.has_project,
    };
    panels_open(st, body) && wanted && max(body.width - files_width(body.width), 0) >= min_content(st.show_files)
}

/// The outline card shows: the panels are open, the outline is wanted (by default it is), and
/// the text keeps its columns between the file list (if shown) and the card with its
/// two-column gap.
pub open spec fn outline_shown(st: PanelState, body: Rect) -> bool {
    let wanted = match st.show_outline {
        Some(v) => v,
        None => true,
    };
    let room = body.width - (if files_shown(st, body) { files_width(body.width) } else { 0 });
    panels_open(st, body) && wanted && max(room - (outline_width(body.width, st.outline_widest) + 2), 0)
        >= min_content(st.show_outline)
}

/// The outline card's height: its label lines and four rows of frame, at least five, within
/// the body less its margins (at least a row each), and never taller than the body.
pub open spec fn outline_height(st: PanelState, rows: Seq<Row>, headings: Seq<Heading>, body: Rect) -> int {
    let ow = outline_width(body.width, st.outline_widest);
    let list_width = max(ow - 4, 0) as u16;
    let count = (max(outline_lines(rows, headings, list_width, rows.len() as int) as int, 1) as u16) as int;
    let m1 = max(margin_spec(body.height) as int, 1);
    min(clamp(count + 4, 5, max(max(body.height - 2 * m1, 0), 5)), body.height as int)
}

/// The panels of the viewer in `body`: the file list at the left edge, full height; the
/// outline card at the right, two columns in from the edge and a margin down; and the text
/// between them, less its margins at top and bottom.
pub open spec fn plan_spec(st: PanelState, rows: Seq<Row>, headings: Seq<Heading>, body: Rect) -> (
    Option<Rect>,
    Option<Rect>,
    Rect,
) {
    let margin = margin_spec(body.height);
    let fw = files_width(body.width);
    let ow = outline_width(body.width, st.outline_widest);
    let h = outline_height(st, rows, headings, body);
    let m1 = max(margin as int, 1);
    let left = body.x + (if files_shown(st, body) { fw } else { 0 });
    let right = body.x + body.width - (if outline_shown(st, body) { ow + 2 } else { 0 });
    (
        if files_shown(st, body) {
            Some(Rect { x: body.x, y: body.y, width: fw as u16, height: body.height })
        } else {
            None
        },
        if outline_shown(st, body) {
            Some(
                Rect {
                    x: (body.x + body.width - 2 - ow) as u16,
                    y: (body.y + min(m1, max(body.height - h, 0))) as u16,
                    width: ow as u16,
                    height: h as u16,
                },
            )
        } else {
            None
        },
        Rect {
            x: left as u16,
            y: (body.y + margin) as u16,
            width: (right - left) as u16,
            height: (body.height - 2 * margin) as u16,
        },
    )
}

/// The lines of the outline's labels, as the outline card lays them out.
fn count_outline_lines(rows: &Vec<Row>, headings: &Vec<Heading>, list_width: u16) -> (r: usize)
    requires
        forall|i: int| 0 <= i < rows@.len() ==> (#[trigger] rows@[i]).index < headings@.len(),
    ensures
        r == outline_lines(rows@, headings@, list_width, rows@.len() as int),
{
    let mut total: usize = 0;
    let mut i: usize = 0;
    while i < rows.len()
        invariant
            i <= rows.len(),
            forall|k: int| 0 <= k < rows@.len() ==> (#[trigger] rows@[k]).index < headings@.len(),
            total == outline_lines(rows@, headings@, list_width, i as int),
        decreases rows.len() - i,
    {
        let r = &rows[i];
        let lw = label_width(list_width, r.prefix.as_str(), r.marker);
        let lines = wrap_label(headings[r.index].text.as_str(), lw);
        total = total.saturating_add(lines.len());
        i = i + 1;
    }
    total
}

/// Where the file list, the outline card and the text go in `body`.
pub fn plan_panels(st: &PanelState, rows: &Vec<Row>, headings: &Vec<Heading>, body: Rect) -> (r: (
    Option<Rect>,
    Option<Rect>,
    Rect,
))
    requires
        body.fits(),
        forall|i: int| 0 <= i < rows@.len() ==> (#[trigger] rows@[i]).index < headings@.len(),
    ensures
        r == plan_spec(*st, rows@, headings@, body),
{
    let margin: u16 = if body.height <= 5 {
        0
    } else if body.height <= 9 {
        1
    } else {
        2
    };
    let mut left: u16 = body.x;
    let mut right: u16 = body.right();
    let mut files: Option<Rect> = None;
    let mut outline: Option<Rect> = None;
    if body.height >= 7 && !st.focus_mode {
        let (wanted, forced) = match st.show_files {
            Some(v) => (v, true),
            None => (st.has_project, false),
        };
        let min = if forced {
            MIN_CONTENT_FORCED
        } else {
            MIN_CONTENT_AUTO
        };
        let q = body.width / 4;
        let w: u16 = if q < 22 {
            22
        } else if q > 32 {
            32
        } else {
            q
        };
        if wanted && (right - left).saturating_sub(w) >= min {
            files = Some(Rect { x: left, y: body.y, width: w, height: body.height });
            left = left + w;
        }
        let (wanted, forced) = match st.show_outline {
            Some(v) => (v, true),
            None => (true, false),
        };
        let min = if forced {
            MIN_CONTENT_FORCED
        } else {
            MIN_CONTENT_AUTO
        };
        let widest: u16 = if st.outline_widest >= 11 {
            st.outline_widest as u16
        } else {
            11
        };
        let wd: u32 = widest as u32 + 7;
        let c: u32 = if wd < 18 {
            18
        } else if wd > 32 {
            32
        } else {
            wd
        };
        let third = (body.width / 3) as u32;
        let c2: u32 = if c <= third {
            c
        } else {
            third
        };
        let w: u16 = if c2 >= 14 {
            c2 as u16
        } else {
            14
        };
        if wanted && (right - left).saturating_sub(w + 2) >= min {
            let list_width = w.saturating_sub(4);
            let count = count_outline_lines(rows, headings, list_width);
            let rows16: u16 = if count >= 1 {
                count as u16
            } else {
                1
            };
            let m1: u16 = if margin >= 1 {
                margin
            } else {
                1
            };
            let hi: u32 = if body.height >= 2 * m1 && body.height - 2 * m1 >= 5 {
                (body.height - 2 * m1) as u32
            } else {
                5
            };
            let want: u32 = rows16 as u32 + 4;
            let h1: u32 = if want < 5 {
                5
            } else if want > hi {
                hi
            } else {
                want
            };
            let h: u16 = if h1 <= body.height as u32 {
                h1 as u16
            } else {
                body.height
            };
            let room = body.height.saturating_sub(h);
            let dy = if m1 <= room {
                m1
            } else {
                room
            };
            outline = Some(Rect { x: right - 2 - w, y: body.y + dy, width: w, height: h });
            right = right - (w + 2);
        }
    }
    let content = Rect {
        x: left,
        y: body.y + margin,
        width: right - left,
        height: body.height - 2 * margin,
    };
    (files, outline, content)
}

} // verus!
