//! What a frame of the viewer shows, decided before anything is drawn: the body and the
//! status row, which pane keeps the keys, the reading position (kept on the text, moved to a
//! pending `#anchor`), where the text sits, which of its lines show on which rows and which
//! of those overflow, the link under the cursor, the scrollbar, and the note for an empty
//! file.
use vstd::prelude::*;

use crate::app::panels::{content_width, content_width_spec, gutters, gutters_spec, Rect};
use crate::app::view::{active_heading, last_heading_before, max_scroll, max_scroll_spec};
use crate::markdown::slug::slug_spec;
use crate::render::layout::{first_heading_with, Layout};
use crate::render::table::{line_columns, line_width};
use crate::render::wrap::spans_view;
use crate::text::{chars_of, extend, string_of};

verus! {

/// The pane that has the keys.
#[derive(Debug, Clone, Copy, PartialEq, Eq, Structural)]
pub enum Pane {
    Content,
    Files,
    Outline,
}

/// The frame's split of the window: the body above, the status row at the bottom; none when
/// the window is under two rows or eight columns.
pub open spec fn frame_areas_spec(area: Rect) -> Option<(Rect, Rect)> {
    if area.height < 2 || area.width < 8 {
        None
    } else {
        Some(
            (
                Rect { x: area.x, y: area.y, width: area.width, height: (area.height - 1) as u16 },
                Rect { x: area.x, y: (area.y + area.height - 1) as u16, width: area.width, height: 1 },
            ),
        )
    }
}

/// The body and the status row of a window, if it is big enough to draw in.
pub fn frame_areas(area: Rect) -> (r: Option<(Rect, Rect)>)
    requires
        area.fits(),
    ensures
        r == frame_areas_spec(area),
{
    if area.height < 2 || area.width < 8 {
        None
    } else {
        Some(
            (
                Rect { x: area.x, y: area.y, width: area.width, height: area.height - 1 },
                Rect { x: area.x, y: area.y + area.height - 1, width: area.width, height: 1 },
            ),
        )
    }
}

/// What a frame changes of the viewer: the reading position, the screen height, the pane with
/// the keys, a `#anchor` waiting to be shown, and the notice.
pub struct FrameState {
    pub scroll: usize,
    pub view_height: usize,
    pub focus: Pane,
    pub pending_anchor: Option<String>,
    pub notice: Option<String>,
}

/// What a frame draws.
pub struct FramePlan {
    /// The column and row the text starts at, and its width in columns.
    pub x: u16,
    pub y: u16,
    pub cols: usize,
    /// The note shown where an empty file would be.
    pub empty_notice: Option<String>,
    /// The lines shown: the layout line, the screen row, and whether it is wider than the
    /// text (its last column then shows `…`).
    pub rows: Vec<(usize, u16, bool)>,
    /// The link under the cursor: its screen row and the columns (from `x`) it covers.
    pub link: Option<(u16, u16, u16)>,
    /// The scrollbar shows: the text is longer than the screen.
    pub scrollbar: bool,
    /// When the outline does not have the keys, the heading it follows (the one being read).
    pub outline_follows: Option<Option<usize>>,
}

pub struct FrameStateView {
    pub scroll: usize,
    pub view_height: usize,
    pub focus: Pane,
    pub pending_anchor: Option<Seq<char>>,
    pub notice: Option<Seq<char>>,
}

pub open spec fn opt_text(o: Option<String>) -> Option<Seq<char>> {
    match o {
        Some(s) => Some(s@),
        None => None,
    }
}

impl FrameState {
    pub open spec fn view(&self) -> FrameStateView {
        FrameStateView {
            scroll: self.scroll,
            view_height: self.view_height,
            focus: self.focus,
            pending_anchor: opt_text(self.pending_anchor),
            notice: opt_text(self.notice),
        }
    }
}

pub struct FramePlanView {
    pub x: u16,
    pub y: u16,
    pub cols: usize,
    pub empty_notice: Option<Seq<char>>,
    pub rows: Seq<(usize, u16, bool)>,
    pub link: Option<(u16, u16, u16)>,
    pub scrollbar: bool,
    pub outline_follows: Option<Option<usize>>,
}

impl FramePlan {
    pub open spec fn view(&self) -> FramePlanView {
        FramePlanView {
            x: self.x,
            y: self.y,
            cols: self.cols,
            empty_notice: opt_text(self.empty_notice),
            rows: self.rows@,
            link: self.link,
            scrollbar: self.scrollbar,
            outline_follows: self.outline_follows,
        }
    }
}

/// The pane with the keys once the panels are placed: the text's when the pane that had them
/// is not shown.
pub open spec fn focus_spec(focus: Pane, files: bool, outline: bool) -> Pane {
    if (focus == Pane::Files && !files) || (focus == Pane::Outline && !outline) {
        Pane::Content
    } else {
        focus
    }
}

pub open spec fn min_int(a: int, b: int) -> int {
    if a <= b {
        a
    } else {
        b
    }
}

/// The frame's state: the new screen height; the scroll kept on the text, then moved to a
/// pending anchor's heading (or the notice `no heading #anchor` when none has its slug); the
/// anchor no longer pending; the focus off a hidden pane.
pub open spec fn frame_state_spec(
    st: FrameStateView,
    layout: Layout,
    files: bool,
    outline: bool,
    content: Rect,
) -> FrameStateView {
    let vh = content.height as usize;
    let lines = layout.lines@.len() as usize;
    let top = max_scroll_spec(lines, vh);
    let s1 = min_int(st.scroll as int, top);
    match st.pending_anchor {
        Some(a) => match first_heading_with(layout.headings@, slug_spec(a), 0) {
            Some(i) => FrameStateView {
                scroll: min_int(layout.headings@[i].line as int, top) as usize,
                view_height: vh,
                focus: focus_spec(st.focus, files, outline),
                pending_anchor: None,
                notice: st.notice,
            },
            None => FrameStateView {
                scroll: s1 as usize,
                view_height: vh,
                focus: focus_spec(st.focus, files, outline),
                pending_anchor: None,
                notice: Some("no heading #"@ + a),
            },
        },
        None => FrameStateView {
            scroll: s1 as usize,
            view_height: vh,
            focus: focus_spec(st.focus, files, outline),
            pending_anchor: None,
            notice: st.notice,
        },
    }
}

/// The lines shown from line `from` on: screen row `y + k` shows line `from + k`, for as many
/// lines as the text has and the screen holds; each marked when wider than `cols`.
pub open spec fn rows_spec(layout: Layout, from: usize, height: usize, y: u16, cols: usize) -> Seq<(usize, u16, bool)> {
    let n: int = min_int(height as int, if layout.lines@.len() > from { layout.lines@.len() - from } else { 0 });
    Seq::new(
        n as nat,
        |k: int|
            (
                (from + k) as usize,
                (y + k) as u16,
                line_columns(spans_view(layout.lines@[from + k]@)) > cols,
            ),
    )
}

/// The link under the cursor when its line shows: its row, and its columns cut at the text's
/// width.
pub open spec fn link_spec(layout: Layout, link: Option<usize>, scroll: usize, height: usize, y: u16, cols: usize) -> Option<
    (u16, u16, u16),
> {
    match link {
        Some(i) => if i < layout.links@.len() && layout.links@[i as int].line >= scroll
            && layout.links@[i as int].line < scroll + height {
            let l = layout.links@[i as int];
            Some(((y + (l.line - scroll)) as u16, l.start, min_int(l.end as int, cols as int) as u16))
        } else {
            None
        },
        None => None,
    }
}

/// What the frame draws, given its new state `s`: the text centered in the columns the
/// gutters leave, its rows, the note for an empty file ("No Markdown files here yet." in a
/// folder with no file open, else "Nothing to show, the file is empty."), the link, the
/// scrollbar when the text is longer than the screen, and the heading the outline follows.
pub open spec fn frame_plan_spec(
    s: FrameStateView,
    layout: Layout,
    content: Rect,
    max_width: Option<usize>,
    has_project: bool,
    has_file: bool,
    link: Option<usize>,
) -> FramePlanView {
    let cw = content_width_spec(content.width, max_width) as usize;
    let g = gutters_spec(content.width);
    let available: int = content.width - g.0 - g.1;
    let x = (content.x + g.0 + (available - cw) / 2) as u16;
    let lines = layout.lines@.len() as usize;
    FramePlanView {
        x,
        y: content.y,
        cols: cw,
        empty_notice: if layout.lines@.len() == 0 {
            if has_project && !has_file {
                Some("No Markdown files here yet."@)
            } else {
                Some("Nothing to show, the file is empty."@)
            }
        } else {
            None
        },
        rows: rows_spec(layout, s.scroll, s.view_height, content.y, cw),
        link: link_spec(layout, link, s.scroll, s.view_height, content.y, cw),
        scrollbar: layout.lines@.len() > s.view_height,
        outline_follows: if s.focus != Pane::Outline {
            Some(
                match last_heading_before(
                    layout.headings@,
                    if s.scroll >= max_scroll_spec(lines, s.view_height) {
                        lines as int
                    } else {
                        s.scroll + 1
                    },
                    layout.headings@.len() as int,
                ) {
                    Some(i) => Some(i as usize),
                    None => None,
                },
            )
        } else {
            None
        },
    }
}

fn notice_text(prefix: &str, rest: &str) -> (r: String)
    ensures
        r@ == prefix@ + rest@,
{
    let mut v = chars_of(prefix);
    extend(&mut v, &chars_of(rest));
    string_of(&v)
}

fn text_of(o: &Option<String>) -> (r: Option<String>)
    ensures
        opt_text(r) == opt_text(*o),
{
    match o {
        Some(s) => Some(string_of(&chars_of(s.as_str()))),
        None => None,
    }
}

/// The frame's new state and what it draws, for a body whose panels were placed as `files`
/// and `outline` and whose text goes in `content` (see `plan_panels`), the text laid out to
/// its width; the text area is at least five columns wide (narrower, the text's minimum width
/// of four does not fit beside the gutters). The viewer is in a folder (`has_project`) with a file open (`has_file`), and
/// `link` is the link under the cursor, if any.
pub fn plan_frame(
    st: &FrameState,
    layout: &Layout,
    files: bool,
    outline: bool,
    content: Rect,
    max_width: Option<usize>,
    has_project: bool,
    has_file: bool,
    link: Option<usize>,
) -> (r: (FrameState, FramePlan))
    requires
        content.fits(),
        content.width >= 5,
    ensures
        r.0.view() == frame_state_spec(st.view(), *layout, files, outline, content),
        r.1.view() == frame_plan_spec(r.0.view(), *layout, content, max_width, has_project, has_file, link),
{
    let vh = content.height as usize;
    let lines = layout.lines.len();
    let top = max_scroll(lines, vh);
    let focus = if (st.focus == Pane::Files && !files) || (st.focus == Pane::Outline && !outline) {
        Pane::Content
    } else {
        st.focus
    };
    let mut scroll = if st.scroll <= top {
        st.scroll
    } else {
        top
    };
    let mut notice = text_of(&st.notice);
    match &st.pending_anchor {
        Some(a) => match layout.line_for_anchor(a.as_str()) {
            Some(line) => {
                scroll = if line <= top {
                    line
                } else {
                    top
                };
            },
            None => {
                notice = Some(notice_text("no heading #", a.as_str()));
            },
        },
        None => {},
    }
    let state = FrameState { scroll, view_height: vh, focus, pending_anchor: None, notice };
    let cw = content_width(content.width, max_width);
    let (left, right) = gutters(content.width);
    let available = content.width - left - right;
    assert(cw <= available);
    let x = content.x + left + ((available as usize - cw) / 2) as u16;
    let empty_notice = if lines == 0 {
        if has_project && !has_file {
            Some(string_of(&chars_of("No Markdown files here yet.")))
        } else {
            Some(string_of(&chars_of("Nothing to show, the file is empty.")))
        }
    } else {
        None
    };
    let ghost want_rows = rows_spec(*layout, scroll, vh, content.y, cw);
    let mut rows: Vec<(usize, u16, bool)> = Vec::new();
    let mut k: usize = 0;
    while k < vh && scroll + k < lines
        invariant
            vh == content.height,
            content.fits(),
            lines == layout.lines@.len(),
            scroll <= lines,
            k <= vh,
            scroll + k <= lines,
            want_rows == rows_spec(*layout, scroll, vh, content.y, cw),
            rows@ == want_rows.take(k as int),
        decreases vh - k,
    {
        let w = line_width(&layout.lines[scroll + k]);
        rows.push((scroll + k, content.y + k as u16, w > cw));
        assert(want_rows.take(k + 1) =~= want_rows.take(k as int).push(want_rows[k as int]));
        k = k + 1;
    }
    assert(want_rows.take(k as int) =~= want_rows);
    let link_cells = match link {
        Some(i) => {
            if i < layout.links.len() && layout.links[i].line >= scroll && layout.links[i].line - scroll < vh {
                let l = &layout.links[i];
                let end: u16 = if (l.end as usize) <= cw {
                    l.end
                } else {
                    cw as u16
                };
                Some((content.y + (l.line - scroll) as u16, l.start, end))
            } else {
                None
            }
        },
        None => None,
    };
    let follows = if focus != Pane::Outline {
        Some(active_heading(&layout.headings, scroll, lines, vh))
    } else {
        None
    };
    let plan = FramePlan {
        x,
        y: content.y,
        cols: cw,
        empty_notice,
        rows,
        link: link_cells,
        scrollbar: lines > vh,
        outline_follows: follows,
    };
    (state, plan)
}

} // verus!
