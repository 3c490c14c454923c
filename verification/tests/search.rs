use mido::app::search::{find, Match};
use mido::render::layout::Layout;
use mido::render::wrap::{Span, Style};

fn lines(ls: &[&str]) -> Layout {
    Layout {
        lines: ls
            .iter()
            .map(|l| vec![Span { content: l.to_string(), style: Style::new() }])
            .collect(),
        ..Layout::default()
    }
}

#[test]
fn smart_case_and_display_columns() {
    // The plain lines that "# Héllo\n\nsay hello, HELLO and héllo\n" lays out into at 80
    // columns with the dark theme.
    let out = lines(&[" Héllo ", "", "say hello, HELLO and héllo"]);
    let hits = find(&out, "hello");
    assert_eq!(hits.len(), 2);
    assert_eq!(hits[0], Match { line: 2, start: 4, end: 9 });
    assert_eq!(find(&out, "HELLO").len(), 1);
    assert_eq!(find(&out, "héllo").len(), 2);
}

#[test]
fn matches_do_not_overlap_and_count_wide_columns() {
    let out = lines(&["aaaa", "日本 ab"]);
    assert_eq!(
        find(&out, "aa"),
        vec![Match { line: 0, start: 0, end: 2 }, Match { line: 0, start: 2, end: 4 }]
    );
    assert_eq!(find(&out, "ab"), vec![Match { line: 1, start: 5, end: 7 }]);
    assert!(find(&out, "zz").is_empty());
    assert!(find(&lines(&[]), "a").is_empty());
}

#[test]
fn matches_come_line_by_line() {
    let out = lines(&["ab", "", "ab ab"]);
    let hits = find(&out, "ab");
    let order: Vec<usize> = hits.iter().map(|m| m.line).collect();
    assert_eq!(order, vec![0, 2, 2]);
    assert!(hits.windows(2).all(|w| w[0].line < w[1].line || w[0].end <= w[1].start));
}
