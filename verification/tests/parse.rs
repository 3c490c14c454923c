use mido::markdown::document::{Alert, Alignment, BlockKind, Inline, MetaFormat};
use mido::markdown::parse::{build, emojify, parse, MdEvent, MdTag};
use mido::render::badge::badge_urls;

fn text(s: &str) -> Inline {
    Inline::Text(s.to_string())
}

#[test]
fn headings_and_paragraphs_keep_spans() {
    let doc = parse("# Title\n\nHello *world*.\n");
    assert_eq!(doc.blocks.len(), 2);
    assert_eq!(doc.blocks[0].span, 0..8);
    assert_eq!(
        doc.blocks[0].kind,
        BlockKind::Heading {
            level: 1,
            content: vec![text("Title")]
        }
    );
    assert_eq!(doc.blocks[1].span, 9..24);
    assert_eq!(
        doc.blocks[1].kind,
        BlockKind::Paragraph(vec![
            text("Hello "),
            Inline::Emphasis(vec![text("world")]),
            text(".")
        ])
    );
}

#[test]
fn tight_list_gets_implicit_paragraphs() {
    let doc = parse("- one\n- two\n  - nested\n");
    let BlockKind::List(list) = &doc.blocks[0].kind else {
        panic!()
    };
    assert!(list.tight);
    assert_eq!(list.items.len(), 2);
    assert_eq!(
        list.items[0].blocks[0].kind,
        BlockKind::Paragraph(vec![text("one")])
    );
    assert_eq!(list.items[1].blocks.len(), 2);
    assert!(matches!(list.items[1].blocks[1].kind, BlockKind::List(_)));
}

#[test]
fn loose_list_and_tasks() {
    let doc = parse("1. [x] done\n\n2. [ ] todo\n");
    let BlockKind::List(list) = &doc.blocks[0].kind else {
        panic!()
    };
    assert!(!list.tight);
    assert_eq!(list.start, Some(1));
    assert_eq!(list.items[0].task, Some(true));
    assert_eq!(list.items[1].task, Some(false));
}

#[test]
fn table_with_alignments() {
    let doc = parse("| a | b | c |\n|:--|:-:|--:|\n| 1 | 2 | 3 |\n");
    let BlockKind::Table(table) = &doc.blocks[0].kind else {
        panic!()
    };
    assert_eq!(
        table.alignments,
        vec![Alignment::Left, Alignment::Center, Alignment::Right]
    );
    assert_eq!(
        table.header,
        vec![vec![text("a")], vec![text("b")], vec![text("c")]]
    );
    assert_eq!(table.rows.len(), 1);
    assert_eq!(table.rows[0][2], vec![text("3")]);
}

#[test]
fn code_block_language_and_trailing_newline() {
    let doc = parse("```rust,ignore\nfn main() {}\n```\n");
    assert_eq!(
        doc.blocks[0].kind,
        BlockKind::CodeBlock {
            lang: Some("rust".into()),
            code: "fn main() {}".into()
        }
    );
    let doc = parse("    indented\n");
    assert_eq!(
        doc.blocks[0].kind,
        BlockKind::CodeBlock {
            lang: None,
            code: "indented".into()
        }
    );
}

#[test]
fn footnotes_are_collected_separately() {
    let doc = parse("Text[^1].\n\n[^1]: The note.\n");
    assert_eq!(doc.blocks.len(), 1);
    assert_eq!(doc.footnotes.len(), 1);
    assert_eq!(doc.footnotes[0].label, "1");
    assert_eq!(
        doc.footnotes[0].blocks[0].kind,
        BlockKind::Paragraph(vec![text("The note.")])
    );
}

#[test]
fn front_matter_is_kept_aside() {
    let doc = parse("---\ntitle: x\ntags:\n  - a\n---\n\nBody\n");
    assert_eq!(doc.blocks.len(), 1);
    assert_eq!(doc.blocks[0].kind, BlockKind::Paragraph(vec![text("Body")]));
    let meta = doc.front_matter.expect("front matter captured");
    assert_eq!(meta.format, MetaFormat::Yaml);
    assert_eq!(meta.text, "title: x\ntags:\n  - a");
    assert_eq!(meta.keys(), ["title", "tags"]);
    let doc = parse("+++\ntitle = \"x\"\n+++\n\nBody\n");
    assert_eq!(doc.front_matter.unwrap().format, MetaFormat::Toml);
}

#[test]
fn alerts_math_wikilinks_and_emoji() {
    let doc = parse(
        "> [!WARNING]\n> Careful.\n\nSee [[Getting Started]] and $x^2$ :tada:\n\n$$\na = b\n$$\n",
    );
    let BlockKind::BlockQuote { alert, blocks } = &doc.blocks[0].kind else {
        panic!()
    };
    assert_eq!(*alert, Some(Alert::Warning));
    assert_eq!(blocks[0].kind, BlockKind::Paragraph(vec![text("Careful.")]));
    let BlockKind::Paragraph(inlines) = &doc.blocks[1].kind else {
        panic!()
    };
    assert_eq!(
        inlines,
        &[
            text("See "),
            Inline::WikiLink {
                target: "Getting Started".into(),
                content: vec![text("Getting Started")]
            },
            text(" and "),
            Inline::Math {
                display: false,
                source: "x^2".into()
            },
            text(" 🎉"),
        ]
    );
    assert!(matches!(
        &doc.blocks[2].kind,
        BlockKind::Paragraph(p) if matches!(&p[0], Inline::Math { display: true, .. })
    ));
}

#[test]
fn definition_lists() {
    let doc = parse("Term\n: First meaning\n: Second meaning\n\nOther\n: Meaning\n");
    let BlockKind::DefinitionList(defs) = &doc.blocks[0].kind else {
        panic!("{:?}", doc.blocks[0].kind)
    };
    assert_eq!(defs.len(), 2);
    assert_eq!(defs[0].term, vec![text("Term")]);
    assert_eq!(defs[0].details.len(), 2);
    assert_eq!(
        defs[0].details[1][0].kind,
        BlockKind::Paragraph(vec![text("Second meaning")])
    );
    assert_eq!(defs[1].details.len(), 1);
}

#[test]
fn shortcodes_only_replace_known_emoji() {
    assert_eq!(emojify("at 10:30:45 :rocket: go"), "at 10:30:45 🚀 go");
    assert_eq!(emojify(":not_an_emoji_xyz:"), ":not_an_emoji_xyz:");
    assert_eq!(emojify("a:b"), "a:b");
}

#[test]
fn quotes_nest_and_links_keep_urls() {
    let doc = parse("> quoted [link](https://x.y \"T\")\n>\n> > deeper\n");
    let BlockKind::BlockQuote {
        alert: None,
        blocks,
    } = &doc.blocks[0].kind
    else {
        panic!()
    };
    assert_eq!(blocks.len(), 2);
    let BlockKind::Paragraph(inlines) = &blocks[0].kind else {
        panic!()
    };
    assert_eq!(
        inlines[1],
        Inline::Link {
            content: vec![text("link")],
            url: "https://x.y".into(),
            title: "T".into()
        }
    );
    assert!(matches!(blocks[1].kind, BlockKind::BlockQuote { .. }));
}

#[test]
fn badge_urls_are_collected_from_anywhere_in_the_document() {
    let doc = parse(
        "# Title [![a](https://img.shields.io/a)](https://x)\n\n![b](https://img.shields.io/b) ![p](pic.png)\n\n| h |\n| - |\n| ![c](https://docs.rs/x/badge.svg) |\n",
    );
    assert_eq!(
        badge_urls(&doc),
        [
            "https://img.shields.io/a",
            "https://img.shields.io/b",
            "https://docs.rs/x/badge.svg"
        ]
    );
}

#[test]
fn repeated_badges_are_listed_once() {
    let doc = parse("![a](https://img.shields.io/a) ![a](https://img.shields.io/a)\n\n[^n]: ![b](https://deps.rs/b)\n\nx[^n]\n");
    assert_eq!(
        badge_urls(&doc),
        ["https://img.shields.io/a", "https://deps.rs/b"]
    );
}

#[test]
fn every_footnote_definition_becomes_a_footnote() {
    let events = vec![
        (MdEvent::Start(MdTag::FootnoteDefinition("a".into())), 0, 0),
        (MdEvent::Start(MdTag::Paragraph), 0, 0),
        (MdEvent::Text("x".into()), 0, 0),
        (MdEvent::Start(MdTag::FootnoteDefinition("b".into())), 0, 0),
    ];
    let doc = build(events);
    assert_eq!(doc.footnotes.len(), 2);
    assert!(doc.front_matter.is_none());
}

#[test]
fn unclosed_front_matter_is_still_kept() {
    let events = vec![
        (MdEvent::Start(MdTag::MetadataBlock(MetaFormat::Toml)), 0, 0),
        (MdEvent::Text("a = 1\n\n".into()), 0, 0),
        (MdEvent::End, 0, 0),
        (MdEvent::End, 0, 0),
    ];
    let doc = build(events);
    let meta = doc.front_matter.unwrap();
    assert_eq!(meta.format, MetaFormat::Toml);
    assert_eq!(meta.text, "a = 1");
    assert!(doc.blocks.is_empty());
}
