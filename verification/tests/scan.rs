use std::path::{Path, PathBuf};

use mido::project::scan::{
    display_path, first_heading_in, forward_slashes, is_markdown, markdown_extension, title_of,
    Entry, Project,
};

#[test]
fn display_path_uses_forward_slashes() {
    assert_eq!(
        display_path(&Path::new("guide").join("faq.md")),
        "guide/faq.md"
    );
    assert_eq!(display_path(Path::new("README.md")), "README.md");
}

#[test]
fn separators_become_slashes() {
    assert_eq!(forward_slashes("a\\b\\c.md", '\\'), "a/b/c.md");
    assert_eq!(forward_slashes("a/b", '/'), "a/b");
}

#[test]
fn markdown_files_by_extension() {
    assert!(is_markdown(Path::new("x.MD")) && !is_markdown(Path::new("x.txt")));
    assert!(is_markdown(Path::new("notes/a.markdown")));
    assert!(!is_markdown(Path::new("md")));
    assert!(markdown_extension("MdX") && !markdown_extension("mdxx"));
}

#[test]
fn titles_come_from_the_first_heading() {
    assert_eq!(
        first_heading_in("---\ntitle: x\n---\n\n# Hello World\n").as_deref(),
        Some("Hello World")
    );
    assert_eq!(
        first_heading_in("Setext Title\n============\n").as_deref(),
        Some("Setext Title")
    );
    assert_eq!(first_heading_in("## Install ##\n").as_deref(), Some("Install"));
    assert_eq!(first_heading_in("no heading here\n"), None);
    assert_eq!(first_heading_in("#\n\n===\n"), None);
    assert_eq!(title_of(&b"# Hi\n".to_vec()).as_deref(), Some("Hi"));
}

fn entry(path: &str, depth: usize, is_dir: bool) -> Entry {
    Entry {
        path: PathBuf::from(path),
        name: Path::new(path)
            .file_name()
            .map(|n| n.to_string_lossy().into_owned())
            .unwrap_or_default(),
        depth,
        is_dir,
        title: None,
    }
}

#[test]
fn entry_file_prefers_readme_then_index_then_the_first() {
    let mut project = Project {
        root: PathBuf::from("/p"),
        entries: vec![
            entry("", 0, true),
            entry("b", 1, true),
            entry("b/z.md", 2, false),
            entry("Index.md", 1, false),
            entry("readme.MD", 1, false),
        ],
    };
    assert_eq!(project.entry_file(), Some(PathBuf::from("readme.MD")));
    project.entries.pop();
    assert_eq!(project.entry_file(), Some(PathBuf::from("Index.md")));
    project.entries.pop();
    assert_eq!(project.entry_file(), Some(PathBuf::from("b/z.md")));
    assert_eq!(project.files().len(), 1);
    assert_eq!(project.index_of(Path::new("b/z.md")), Some(2));
    assert_eq!(project.absolute(Path::new("b/z.md")), PathBuf::from("/p/b/z.md"));
}

/// The project a scan makes of a small folder, each file's title read from
/// its contents.
fn fixture_project() -> Project {
    let file = |path: &str, depth: usize, text: &str| Entry {
        title: title_of(&text.as_bytes().to_vec()),
        ..entry(path, depth, false)
    };
    Project {
        root: PathBuf::from("/fixture"),
        entries: vec![
            Entry { name: "fixture".into(), ..entry("", 0, true) },
            entry("docs", 1, true),
            entry("docs/guide", 2, true),
            file("docs/guide/install.md", 3, "## Install\n"),
            file("docs/intro.markdown", 2, "# Intro\n"),
            file("Alpha.MD", 1, "no heading here\n"),
            file("README.md", 1, "---\ntitle: x\n---\n\n# Hello World\n"),
            file("zeta.md", 1, "Setext Title\n============\n"),
        ],
    }
}

#[test]
fn titles_entry_file_and_lookup() {
    let project = fixture_project();
    let title = |name: &str| {
        project
            .files()
            .into_iter()
            .find(|e| e.name == name)
            .unwrap()
            .title
            .clone()
    };
    assert_eq!(title("README.md").as_deref(), Some("Hello World"));
    assert_eq!(title("zeta.md").as_deref(), Some("Setext Title"));
    assert_eq!(title("install.md").as_deref(), Some("Install"));
    assert_eq!(title("Alpha.MD"), None);
    assert_eq!(project.entry_file(), Some(PathBuf::from("README.md")));
    assert_eq!(project.index_of(Path::new("docs/intro.markdown")), Some(4));
    assert!(is_markdown(Path::new("x.MD")) && !is_markdown(Path::new("x.txt")));
}
