use std::path::PathBuf;

use mido::app::source::Source;

#[test]
fn sources_are_named_by_file_or_stdin() {
    assert_eq!(Source::Stdin.name(), "stdin");
    assert_eq!(Source::File(PathBuf::from("docs/guide.md")).name(), "guide.md");
}
