use mido::app::keys::KeyCode;
use mido::app::search::Match;
use mido::app::viewer::{Effect, Focus, Mode, Viewer};
use mido::render::layout::{Heading, Layout};
use mido::render::wrap::{Span, Style};

fn viewer(lines: usize, heading_lines: &[usize], sidebar_shown: bool) -> Viewer {
    let lines: Vec<Vec<Span>> = (0..lines)
        .map(|i| {
            let text = if i == 50 || i == 70 { format!("line {i} x") } else { format!("line {i}") };
            vec![Span { content: text, style: Style::new() }]
        })
        .collect();
    let headings = heading_lines
        .iter()
        .map(|&l| Heading { level: 1, text: format!("h{l}"), line: l, slug: format!("h{l}") })
        .collect();
    Viewer {
        layout: Layout { lines, headings, ..Layout::default() },
        view_height: 10,
        sidebar_shown,
        scroll: 0,
        mode: Mode::View,
        focus: Focus::Content,
        sidebar: None,
        query: Vec::new(),
        search_origin: 0,
        matches: Vec::new(),
        current: None,
        toc: None,
        tab_chord: None,
        notice: None,
        quit: false,
    }
}

#[test]
fn scrolling_keys_stay_on_the_text() {
    let mut v = viewer(100, &[], false);
    v.on_key(KeyCode::Char('G'), false);
    assert_eq!(v.scroll, 90);
    v.on_key(KeyCode::PageDown, false);
    assert_eq!(v.scroll, 90);
    v.on_key(KeyCode::Char('g'), false);
    assert_eq!(v.scroll, 0);
    v.on_key(KeyCode::Char('d'), true);
    assert_eq!(v.scroll, 5);
    v.on_key(KeyCode::Up, false);
    assert_eq!(v.scroll, 4);
    v.on_key(KeyCode::Char('b'), true);
    assert_eq!(v.scroll, 0);
    assert_eq!(v.on_key(KeyCode::Char('r'), false), Effect::Reload);
    v.on_key(KeyCode::Char('c'), true);
    assert!(v.quit);
}

#[test]
fn search_finds_steps_and_cancels() {
    let mut v = viewer(100, &[], false);
    v.on_key(KeyCode::Char('/'), false);
    assert_eq!(v.mode, Mode::Search);
    v.on_key(KeyCode::Char('x'), false);
    assert_eq!(v.matches.len(), 2);
    assert_eq!(v.matches[0], Match { line: 50, start: 8, end: 9 });
    assert_eq!(v.current, Some(0));
    assert_eq!(v.scroll, 47);
    v.on_key(KeyCode::Enter, false);
    assert_eq!(v.mode, Mode::View);
    v.on_key(KeyCode::Char('n'), false);
    assert_eq!(v.current, Some(1));
    assert_eq!(v.scroll, 67);
    v.on_key(KeyCode::Char('n'), false);
    assert_eq!(v.current, Some(0));
    v.on_key(KeyCode::Char('N'), false);
    assert_eq!(v.current, Some(1));
    v.on_key(KeyCode::Esc, false);
    assert!(v.query.is_empty() && v.matches.is_empty() && !v.quit);
    v.on_key(KeyCode::Char('/'), false);
    v.on_key(KeyCode::Char('z'), false);
    v.on_key(KeyCode::Enter, false);
    assert_eq!(v.notice.as_deref(), Some("no matches"));
    v.on_key(KeyCode::Char('/'), false);
    v.on_key(KeyCode::Char('x'), false);
    v.on_key(KeyCode::Backspace, false);
    assert!(v.matches.is_empty());
    v.on_key(KeyCode::Esc, false);
    assert_eq!(v.mode, Mode::View);
    assert_eq!(v.scroll, 67);
}

#[test]
fn contents_list_jumps_to_a_heading() {
    let mut v = viewer(100, &[], false);
    v.on_key(KeyCode::Char('t'), false);
    assert_eq!(v.notice.as_deref(), Some("no headings"));
    let mut v = viewer(100, &[0, 40, 95], false);
    v.on_key(KeyCode::Char('t'), false);
    assert_eq!((v.mode, v.toc), (Mode::Toc, Some(0)));
    v.on_key(KeyCode::Down, false);
    v.on_key(KeyCode::Enter, false);
    assert_eq!((v.mode, v.scroll), (Mode::View, 40));
    v.on_key(KeyCode::Char('t'), false);
    assert_eq!(v.toc, Some(1));
    v.on_key(KeyCode::End, false);
    v.on_key(KeyCode::Enter, false);
    assert_eq!(v.scroll, 90);
}

#[test]
fn tab_goes_round_the_panes() {
    let mut v = viewer(100, &[0], false);
    assert_eq!(v.on_key(KeyCode::Tab, false), Effect::Nothing);
    assert_eq!(v.notice.as_deref(), Some("no other pane"));
    let mut v = viewer(100, &[0], true);
    assert_eq!(v.on_key(KeyCode::Tab, false), Effect::FocusSidebar);
    assert_eq!((v.focus, v.tab_chord), (Focus::Sidebar, Some(Focus::Content)));
    assert_eq!(v.on_key(KeyCode::Left, false), Effect::Nothing);
    assert_eq!(v.focus, Focus::Content);
    v.on_key(KeyCode::Char('h'), false);
    assert_eq!(v.on_key(KeyCode::Char('j'), false), Effect::OutlineKey);
    v.on_key(KeyCode::Char('?'), false);
}
