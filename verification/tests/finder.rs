use std::path::PathBuf;

use mido::app::finder::{label, sort_dedup, Finder};
use mido::project::scan::{Entry, Project};

fn project() -> Project {
    let file = |path: &str, title: Option<&str>| Entry {
        path: PathBuf::from(path),
        name: path.rsplit('/').next().unwrap().to_string(),
        depth: path.matches('/').count(),
        is_dir: false,
        title: title.map(str::to_string),
    };
    Project {
        root: PathBuf::from("/tmp/x"),
        entries: vec![
            Entry {
                path: PathBuf::from("docs"),
                name: "docs".into(),
                depth: 0,
                is_dir: true,
                title: None,
            },
            file("docs/getting-started.md", Some("Getting Started")),
            file("docs/reference.md", Some("API Reference")),
            file("README.md", Some("mido")),
            file("CHANGELOG.md", None),
        ],
    }
}

#[test]
fn empty_query_lists_files_in_tree_order() {
    let project = project();
    let mut finder = Finder::new();
    finder.open(&project);
    let labels: Vec<&str> = finder.hits.iter().map(|h| h.label.as_str()).collect();
    assert_eq!(
        labels,
        [
            "docs/getting-started.md  Getting Started",
            "docs/reference.md  API Reference",
            "README.md  mido",
            "CHANGELOG.md"
        ]
    );
}

#[test]
fn fuzzy_query_ranks_and_marks_matches() {
    let project = project();
    let mut finder = Finder::new();
    finder.open(&project);
    finder.query = "apiref".into();
    finder.search(&project);
    assert_eq!(finder.chosen(), Some(2));
    assert!(!finder.hits[0].indices.is_empty());
    finder.query = "gs".into();
    finder.search(&project);
    assert_eq!(finder.hits[0].entry, 1);
    finder.query = "zzzz".into();
    finder.search(&project);
    assert!(finder.hits.is_empty() && finder.chosen().is_none());
}

#[test]
fn labels_add_a_title_after_two_spaces() {
    assert_eq!(label("a/b.md", Some("Title")), "a/b.md  Title");
    assert_eq!(label("a/b.md", Some("")), "a/b.md");
    assert_eq!(label("a/b.md", None), "a/b.md");
}

#[test]
fn match_positions_are_sorted_once_each() {
    assert_eq!(sort_dedup(&vec![5, 1, 3, 1, 5]), vec![1, 3, 5]);
    assert!(sort_dedup(&vec![]).is_empty());
}

#[test]
fn the_selection_stays_on_the_list() {
    let project = project();
    let mut finder = Finder::new();
    finder.open(&project);
    finder.step(10);
    assert_eq!(finder.selected, 3);
    finder.step(-2);
    assert_eq!(finder.selected, 1);
    finder.step(isize::MIN);
    assert_eq!(finder.selected, 0);
    assert_eq!(finder.chosen(), Some(1));
    finder.selected = 3;
    finder.query = "zzzz".into();
    finder.search(&project);
    assert_eq!(finder.selected, 0);
    assert_eq!(finder.chosen(), None);
}
