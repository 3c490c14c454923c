use std::path::PathBuf;

use mido::project::tree::listing;

fn file(path: &str) -> (Vec<String>, PathBuf) {
    (path.split('/').map(str::to_string).collect(), PathBuf::from(path))
}

fn shown(files: &[(Vec<String>, PathBuf)]) -> Vec<String> {
    listing(&files.to_vec())
        .iter()
        .map(|e| format!("{}{}{}", "  ".repeat(e.depth - 1), e.name, if e.is_dir { "/" } else { "" }))
        .collect()
}

#[test]
fn folders_come_first_and_names_sort_ignoring_case() {
    let files = [
        file("zeta.md"),
        file("docs/intro.markdown"),
        file("README.md"),
        file("docs/guide/install.md"),
        file("Alpha.MD"),
    ];
    assert_eq!(
        shown(&files),
        [
            "docs/",
            "  guide/",
            "    install.md",
            "  intro.markdown",
            "Alpha.MD",
            "README.md",
            "zeta.md"
        ]
    );
}

#[test]
fn files_keep_their_paths_and_have_no_titles_yet() {
    let entries = listing(&vec![file("b/z.md"), file("Index.md")]);
    assert_eq!(entries.len(), 3);
    assert!(entries[0].is_dir && entries[0].name == "b" && entries[0].depth == 1);
    assert_eq!(entries[1].path, PathBuf::from("b/z.md"));
    assert_eq!(entries[2].path, PathBuf::from("Index.md"));
    assert!(entries.iter().all(|e| e.title.is_none()));
}

#[test]
fn repeated_and_nameless_files_are_listed_once_or_not_at_all() {
    let mut second = file("a.md");
    second.1 = PathBuf::from("./a.md");
    let entries = listing(&vec![file("a.md"), second, (vec![], PathBuf::from(""))]);
    assert_eq!(entries.len(), 1);
    assert_eq!(entries[0].path, PathBuf::from("./a.md"));
}

#[test]
fn a_name_sorts_by_lowercase_then_as_written() {
    assert_eq!(shown(&[file("b.md"), file("B.md"), file("a.md")]), ["a.md", "B.md", "b.md"]);
}
