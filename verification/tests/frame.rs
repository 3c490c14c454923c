use mido::app::frame::{frame_areas, plan_frame, FrameState, Pane};
use mido::app::panels::Rect;
use mido::render::layout::{Heading, Layout, Link};
use mido::render::wrap::{LinkKind, Span, Style};

fn layout(n: usize, width: usize) -> Layout {
    let lines = (0..n)
        .map(|i| vec![Span { content: "x".repeat(if i == 3 { width + 5 } else { 3 }), style: Style::new() }])
        .collect();
    Layout {
        lines,
        headings: vec![
            Heading { level: 1, text: "Top".to_string(), line: 0, slug: "top".to_string() },
            Heading { level: 2, text: "Deep".to_string(), line: 40, slug: "deep".to_string() },
        ],
        links: vec![Link { line: 3, start: 2, end: 200, url: "u".to_string(), kind: LinkKind::Url }],
        ..Layout::default()
    }
}

fn state(anchor: Option<&str>, focus: Pane) -> FrameState {
    FrameState { scroll: 500, view_height: 0, focus, pending_anchor: anchor.map(str::to_string), notice: None }
}

#[test]
fn windows_too_small_draw_nothing() {
    assert!(frame_areas(Rect { x: 0, y: 0, width: 7, height: 10 }).is_none());
    let (body, status) = frame_areas(Rect { x: 0, y: 0, width: 80, height: 24 }).unwrap();
    assert_eq!((body.height, status.y, status.height), (23, 23, 1));
}

#[test]
fn the_frame_keeps_the_text_on_screen() {
    let content = Rect { x: 0, y: 0, width: 80, height: 10 };
    let l = layout(50, 76);
    let (st, plan) = plan_frame(&state(None, Pane::Outline), &l, true, false, content, None, false, true, Some(0));
    assert_eq!(st.scroll, 40);
    assert_eq!(st.view_height, 10);
    assert_eq!(st.focus, Pane::Content);
    assert_eq!((plan.x, plan.cols), (2, 76));
    assert_eq!(plan.rows.len(), 10);
    assert_eq!(plan.rows[0], (40, 0, false));
    assert!(plan.scrollbar);
    assert!(plan.link.is_none());
    assert_eq!(plan.outline_follows, Some(Some(1)));
}

#[test]
fn anchors_overflow_and_links() {
    let content = Rect { x: 0, y: 0, width: 80, height: 10 };
    let l = layout(50, 76);
    let (st, plan) = plan_frame(&state(Some("Top"), Pane::Content), &l, false, false, content, None, false, true, Some(0));
    assert_eq!(st.scroll, 0);
    assert!(st.pending_anchor.is_none());
    assert!(plan.rows[3].2);
    assert_eq!(plan.link, Some((3, 2, 76)));
    let (st, _) = plan_frame(&state(Some("nope"), Pane::Content), &l, false, false, content, None, false, true, None);
    assert_eq!(st.notice.as_deref(), Some("no heading #nope"));
    let empty = Layout::default();
    let (_, plan) = plan_frame(&state(None, Pane::Content), &empty, false, false, content, None, true, false, None);
    assert_eq!(plan.empty_notice.as_deref(), Some("No Markdown files here yet."));
    assert!(plan.rows.is_empty() && !plan.scrollbar);
}
