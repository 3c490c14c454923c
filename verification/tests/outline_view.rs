use mido::app::outline_view::OutlineView;
use mido::render::layout::Heading;

fn heading(level: u8, text: &str) -> Heading {
    Heading { level, text: text.to_string(), line: 0, slug: String::new() }
}

fn sample() -> Vec<Heading> {
    vec![
        heading(1, "Title"),
        heading(2, "A"),
        heading(3, "A1"),
        heading(3, "A2"),
        heading(2, "B"),
        heading(3, "B1"),
    ]
}

fn shown(o: &OutlineView) -> Vec<usize> {
    o.rows.iter().map(|r| r.index).collect()
}

#[test]
fn moving_and_jumping_keep_the_selection_on_the_rows() {
    let mut o = OutlineView::new(&sample());
    assert_eq!(shown(&o), [0, 1, 2, 3, 4, 5]);
    assert_eq!(o.move_by(1, Some(2)), Some(3));
    assert_eq!(o.selected, Some(3));
    assert_eq!(o.move_by(10, None), Some(5));
    assert_eq!(o.move_by(-100, None), Some(0));
    assert_eq!(o.set(9), None);
    assert_eq!(o.selected, Some(0));
}

#[test]
fn folding_hides_children_and_keeps_the_heading_selected() {
    let mut o = OutlineView::new(&sample());
    o.set(1);
    o.toggle(1);
    assert_eq!(shown(&o), [0, 1, 4, 5]);
    assert_eq!(o.selected, Some(1));
    assert!(o.expand());
    assert_eq!(shown(&o), [0, 1, 2, 3, 4, 5]);
    assert!(!o.expand());
    o.set(2);
    assert_eq!(o.collapse(), Some(1));
    assert_eq!(o.selected, Some(1));
    assert_eq!(o.collapse(), None);
    assert_eq!(shown(&o), [0, 1, 4, 5]);
}

#[test]
fn folding_all_and_unfolding_all() {
    let mut o = OutlineView::new(&sample());
    o.set(5);
    o.fold_all(true);
    assert_eq!(shown(&o), [0]);
    assert_eq!(o.selected, Some(0));
    o.fold_all(false);
    assert_eq!(shown(&o), [0, 1, 2, 3, 4, 5]);
    assert_eq!(o.selected, Some(0));
    assert_eq!(o.row_for_heading(3), Some(3));
}
