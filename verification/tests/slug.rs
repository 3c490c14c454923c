use mido::markdown::slug::{slug, Slugger};

#[test]
fn github_style_slugs() {
    assert_eq!(slug("Hello, World!"), "hello-world");
    assert_eq!(slug("  Trim  me "), "trim--me");
    assert_eq!(slug("C++ & Rust_2"), "c--rust_2");
    assert_eq!(slug("Ünïcode Ok"), "ünïcode-ok");
}

#[test]
fn duplicates_get_numbered() {
    let mut s = Slugger::default();
    assert_eq!(s.unique("Setup"), "setup");
    assert_eq!(s.unique("Setup"), "setup-1");
    assert_eq!(s.unique("setup"), "setup-2");
}

#[test]
fn different_headings_count_apart() {
    let mut s = Slugger::new();
    assert_eq!(s.unique("A"), "a");
    assert_eq!(s.unique("B"), "b");
    assert_eq!(s.unique("A"), "a-1");
    assert_eq!(s.unique("B"), "b-1");
    assert_eq!(s.unique(""), "");
    assert_eq!(s.unique("!"), "-1");
}

#[test]
fn anchors_never_repeat() {
    let mut s = Slugger::default();
    assert_eq!(s.unique("a"), "a");
    assert_eq!(s.unique("a"), "a-1");
    assert_eq!(s.unique("a-1"), "a-1-1");
    let mut t = Slugger::new();
    assert_eq!(t.unique("a-1"), "a-1");
    assert_eq!(t.unique("a"), "a");
    assert_eq!(t.unique("a"), "a-2");
    assert_eq!(t.unique("a"), "a-3");
}
