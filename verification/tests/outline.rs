use std::collections::HashSet;

use mido::render::layout::Heading;
use mido::outline::Tree;

fn heading(level: u8, text: &str) -> Heading {
    Heading {
        level,
        text: text.to_string(),
        line: 0,
        slug: String::new(),
    }
}

fn render(headings: &[Heading], collapsed: &HashSet<usize>) -> Vec<String> {
    Tree::new(headings)
        .rows(collapsed)
        .iter()
        .map(|r| format!("{}{}{}", r.prefix, r.marker, headings[r.index].text))
        .collect()
}

fn sample() -> Vec<Heading> {
    vec![
        heading(1, "Title"),
        heading(2, "A"),
        heading(3, "A1"),
        heading(3, "A2"),
        heading(2, "B"),
        heading(3, "B1"),
    ]
}

#[test]
fn nested_tree_with_connectors_and_markers() {
    assert_eq!(
        render(&sample(), &HashSet::new()),
        [
            "▾ Title",
            "├ ▾ A",
            "│ ├   A1",
            "│ └   A2",
            "└ ▾ B",
            "  └   B1"
        ]
    );
}

#[test]
fn collapsed_nodes_hide_descendants() {
    let collapsed = HashSet::from([1]);
    assert_eq!(
        render(&sample(), &collapsed),
        ["▾ Title", "├ ▸ A", "└ ▾ B", "  └   B1"]
    );
    let tree = Tree::new(&sample());
    assert_eq!(tree.visible_ancestor(2, &collapsed), 1);
    assert_eq!(tree.visible_ancestor(5, &collapsed), 5);
    assert_eq!(render(&sample(), &HashSet::from([0])), ["▸ Title"]);
}

#[test]
fn skipped_levels_and_multiple_roots() {
    let h = [
        heading(2, "Intro"),
        heading(4, "Deep"),
        heading(2, "Next"),
        heading(1, "Root"),
    ];
    assert_eq!(
        render(&h, &HashSet::new()),
        ["▾ Intro", "└   Deep", "  Next", "  Root"]
    );
    let tree = Tree::new(&h);
    assert_eq!(tree.parent(1), Some(0));
    assert!(!tree.has_children(3));
}

#[test]
fn hidden_headings_show_through_their_collapsed_section() {
    // A collapsed heading hides its whole subtree; the row standing for a hidden heading is
    // the highest collapsed section above it.
    let tree = Tree::new(&sample());
    let collapsed = HashSet::from([0, 1]);
    assert_eq!(tree.visible_ancestor(2, &collapsed), 0);
    assert_eq!(tree.visible_ancestor(0, &collapsed), 0);
    assert_eq!(tree.len(), 6);
    assert_eq!(tree.parent(0), None);
    assert_eq!(tree.parent(5), Some(4));
    assert_eq!(tree.parent(99), None);
    assert!(tree.has_children(0) && tree.has_children(4) && !tree.has_children(5));
    let rows = tree.rows(&collapsed);
    assert_eq!(rows.len(), 1);
    assert!(rows[0].collapsed && rows[0].has_children);
    assert_eq!(Tree::default().len(), 0);
}
