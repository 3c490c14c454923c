use mido::markdown::parse::parse;
use mido::render::layout::{
    clip, footnote_label, image_urls, list_marker, sole_display_math, Heading, Layout, Link,
};
use mido::render::wrap::{LinkKind, Span, Style};

#[test]
fn numeric_footnotes_become_superscripts() {
    assert_eq!(footnote_label("1"), "¹");
    assert_eq!(footnote_label("12"), "¹²");
    assert_eq!(footnote_label("note"), "[note]");
}

#[test]
fn footnote_labels_edge_cases() {
    assert_eq!(footnote_label(""), "[]");
    assert_eq!(footnote_label("0987654321"), "⁰⁹⁸⁷⁶⁵⁴³²¹");
    assert_eq!(footnote_label("1a"), "[1a]");
}

#[test]
fn only_images_standing_alone_are_listed() {
    let doc = parse(
        "![a](a.png)\n\ntext ![b](b.png)\n\n> ![c](c.png)\n\n- ![d](d.png)\n\n![badge](https://img.shields.io/x)\n\n![e](e.png) ![f](f.png)\n",
    );
    assert_eq!(image_urls(&doc), ["a.png", "c.png", "d.png"]);
}

#[test]
fn display_math_standing_alone_is_found() {
    let doc = parse("$$\na = b\n$$\n\n$$x$$ and more\n");
    let mido::markdown::document::BlockKind::Paragraph(p) = &doc.blocks[0].kind else {
        panic!()
    };
    assert_eq!(sole_display_math(p), Some(0));
    let mido::markdown::document::BlockKind::Paragraph(q) = &doc.blocks[1].kind else {
        panic!()
    };
    assert_eq!(sole_display_math(q), None);
}

fn sample() -> Layout {
    let span = |t: &str| Span { content: t.to_string(), style: Style::new() };
    Layout {
        lines: vec![
            vec![span(" Title ")],
            vec![],
            vec![span("see "), span("docs"), span(" (x.md)")],
        ],
        sources: vec![Some(0), None, Some(10)],
        headings: vec![Heading {
            level: 2,
            text: "Second Level".into(),
            line: 0,
            slug: "second-level".into(),
        }],
        links: vec![Link { line: 2, start: 4, end: 8, url: "x.md".into(), kind: LinkKind::Url }],
        images: vec![],
    }
}

#[test]
fn layouts_answer_lookups() {
    let l = sample();
    assert_eq!(l.plain_lines(), [" Title ", "", "see docs (x.md)"]);
    assert_eq!(l.line_for_source(5), 2);
    assert_eq!(l.line_for_source(0), 0);
    assert_eq!(l.line_for_source(11), 0);
    assert_eq!(l.source_at(1), Some(10));
    assert_eq!(l.source_at(3), None);
    assert_eq!(l.line_for_anchor("Second-Level"), Some(0));
    assert_eq!(l.line_for_anchor("nope"), None);
    assert_eq!(l.link_at(2, 5).map(|k| k.url.as_str()), Some("x.md"));
    assert!(l.link_at(2, 8).is_none());
    assert!(l.link_at(1, 5).is_none());
}

#[test]
fn labels_are_squeezed_and_clipped() {
    assert_eq!(clip("  a \t  b\n ", 10), "a b");
    assert_eq!(clip("hello world", 11), "hello world");
    assert_eq!(clip("hello world", 5), "hell…");
    assert_eq!(clip("日本語", 4), "日…");
    assert_eq!(clip("abc", 0), "…");
}

#[test]
fn list_markers_by_kind() {
    assert_eq!(list_marker(Some(true), None, 0, 1, 0), "☑ ");
    assert_eq!(list_marker(Some(false), Some(3), 0, 1, 0), "☐ ");
    assert_eq!(list_marker(None, None, 0, 2, 0), "• ");
    assert_eq!(list_marker(None, None, 0, 2, 1), "◦ ");
    assert_eq!(list_marker(None, None, 0, 2, 5), "▪ ");
    assert_eq!(list_marker(None, Some(1), 0, 12, 0), " 1. ");
    assert_eq!(list_marker(None, Some(1), 11, 12, 0), "12. ");
    assert_eq!(list_marker(None, Some(7), 2, 3, 0), "9. ");
}
