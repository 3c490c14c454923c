use mido::render::fit::{cell_widths, column_widths, pieces_min_width, pieces_width, truncate};
use mido::render::wrap::{Piece, Span, Style};

fn span(t: &str) -> Span {
    Span { content: t.to_string(), style: Style::new() }
}

fn texts(spans: &[Span]) -> Vec<&str> {
    spans.iter().map(|s| s.content.as_str()).collect()
}

#[test]
fn pieces_are_measured_in_columns() {
    let s = Style::new();
    assert_eq!(pieces_width(&[Piece::text("ab", s), Piece::Break, Piece::atomic("日本", s)]), 6);
    assert_eq!(pieces_min_width(&[Piece::text("hello big world", s)]), 5);
    assert_eq!(pieces_min_width(&[Piece::atomic(" a b ", s), Piece::text("xy", s)]), 5);
    assert_eq!(pieces_min_width(&[Piece::Break]), 0);
    assert_eq!(pieces_width(&[]), 0);
}

#[test]
fn wide_columns_give_way_first() {
    assert_eq!(column_widths(&vec![10, 5], &vec![3, 2], 20), vec![8, 5]);
    assert_eq!(column_widths(&vec![6, 6], &vec![1, 1], 17), vec![5, 5]);
    assert_eq!(column_widths(&vec![4, 4], &vec![4, 4], 13), vec![3, 3]);
    assert_eq!(column_widths(&vec![1, 1], &vec![1, 1], 0), vec![1, 1]);
    assert_eq!(column_widths(&vec![3, 4], &vec![3, 2], 80), vec![3, 4]);
}

#[test]
fn cells_give_each_column_its_widths() {
    let s = Style::new();
    let rows = vec![
        vec![vec![Piece::text("abc", s)], vec![Piece::text("a bc", s)]],
        vec![vec![Piece::text("x", s)], vec![]],
    ];
    let (max_w, min_w) = cell_widths(&rows, 2);
    assert_eq!(max_w, vec![3, 4]);
    assert_eq!(min_w, vec![3, 2]);
}

#[test]
fn lines_are_cut_at_the_width() {
    assert_eq!(texts(&truncate(vec![span("abc"), span("def")], 4)), ["abc", "d"]);
    assert_eq!(texts(&truncate(vec![span("abc"), span("def")], 3)), ["abc"]);
    assert_eq!(texts(&truncate(vec![span("日本")], 3)), ["日"]);
    assert!(truncate(vec![span("日本")], 1).is_empty());
}

#[test]
fn columns_fit_or_bottom_out_at_one() {
    let widths = column_widths(&vec![10, 5, 7], &vec![3, 2, 1], 24);
    assert_eq!(widths.iter().sum::<usize>(), 24 - 10);
    assert!(widths.iter().zip([10, 5, 7]).all(|(w, m)| 1 <= *w && *w <= m));
    assert_eq!(column_widths(&vec![5, 5], &vec![1, 1], 5), vec![1, 1]);
}
