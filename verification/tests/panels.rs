use mido::app::images::is_remote;
use mido::app::panels::{
    centered, content_width, continuation_prefix, gutters, label_width, plan_panels, wrap_label,
    PanelState, Rect,
};
use mido::outline::Row;
use mido::render::layout::Heading;

fn heading(text: &str) -> Heading {
    Heading { level: 1, text: text.to_string(), line: 0, slug: text.to_lowercase() }
}

fn row(index: usize, prefix: &str, marker: &'static str) -> Row {
    Row { index, prefix: prefix.to_string(), marker, has_children: false, collapsed: false }
}

fn state(focus_mode: bool, has_project: bool) -> PanelState {
    PanelState {
        focus_mode,
        show_files: None,
        has_project,
        show_outline: None,
        outline_widest: 20,
    }
}

#[test]
fn wide_windows_get_files_and_outline() {
    let body = Rect { x: 0, y: 0, width: 140, height: 30 };
    let (files, outline, content) =
        plan_panels(&state(false, true), &vec![row(0, "", "▾ ")], &vec![heading("Title")], body);
    assert_eq!(files, Some(Rect { x: 0, y: 0, width: 32, height: 30 }));
    assert_eq!(outline, Some(Rect { x: 111, y: 2, width: 27, height: 5 }));
    assert_eq!(content, Rect { x: 32, y: 2, width: 79, height: 26 });
}

#[test]
fn focus_mode_and_short_windows_have_no_panels() {
    let body = Rect { x: 0, y: 0, width: 140, height: 30 };
    let (files, outline, content) = plan_panels(&state(true, true), &vec![], &vec![], body);
    assert_eq!((files, outline), (None, None));
    assert_eq!(content, Rect { x: 0, y: 2, width: 140, height: 26 });
    let short = Rect { x: 3, y: 4, width: 140, height: 5 };
    let (files, outline, content) = plan_panels(&state(false, true), &vec![], &vec![], short);
    assert_eq!((files, outline), (None, None));
    assert_eq!(content, short);
}

#[test]
fn narrow_windows_keep_only_the_text() {
    let body = Rect { x: 0, y: 0, width: 80, height: 24 };
    let (files, outline, content) = plan_panels(&state(false, false), &vec![], &vec![], body);
    assert_eq!((files, outline), (None, None));
    assert_eq!(content, Rect { x: 0, y: 2, width: 80, height: 20 });
}

#[test]
fn gutters_and_content_width() {
    assert_eq!(gutters(29), (0, 1));
    assert_eq!(gutters(30), (1, 1));
    assert_eq!(gutters(60), (2, 2));
    assert_eq!(content_width(80, None), 76);
    assert_eq!(content_width(80, Some(50)), 50);
    assert_eq!(content_width(3, None), 4);
}

#[test]
fn outline_labels_wrap_under_their_prefix() {
    assert_eq!(label_width(10, "│ ", "▸ "), 5);
    assert_eq!(label_width(6, "│ ", "▸ "), 4);
    assert_eq!(wrap_label("Alpha beta", 5), ["Alpha", "beta"]);
    assert_eq!(wrap_label("", 5), [""]);
    assert_eq!(continuation_prefix("│ ├ "), "│ │ ");
    assert_eq!(continuation_prefix("└ "), "  ");
    assert_eq!(continuation_prefix("x"), "x");
}

#[test]
fn centered_rectangles_and_remote_images() {
    assert_eq!(
        centered(Rect { x: 0, y: 0, width: 80, height: 24 }, 20, 10),
        Rect { x: 30, y: 7, width: 20, height: 10 }
    );
    assert_eq!(
        centered(Rect { x: 2, y: 2, width: 10, height: 4 }, 20, 10),
        Rect { x: 2, y: 2, width: 10, height: 4 }
    );
    assert!(is_remote("https://x.y/a.png"));
    assert!(is_remote("http://x.y/a.png"));
    assert!(!is_remote("images/a.png"));
    assert!(!is_remote("HTTPS://x.y"));
}
