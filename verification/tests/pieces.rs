use mido::markdown::document::Inline;
use mido::render::badge::BadgeText;
use mido::render::pieces::{inline_pieces, InlinePiece, LinkRef};
use mido::render::theme::{token_name, ColorMode, Theme, ThemeFile, TOKEN_COUNT};
use mido::render::wrap::{LinkKind, Piece, Style, BOLD, ITALIC};

fn theme(mode: ColorMode) -> Theme {
    let mut colors: Vec<(String, String)> = (0..TOKEN_COUNT)
        .map(|i| (token_name(i).to_string(), "#102030".to_string()))
        .collect();
    colors.sort();
    let file = ThemeFile {
        schema: 1,
        kind: Some(mido::render::theme::Kind::Dark),
        extends: None,
        syntax: None,
        palette: Vec::new(),
        colors,
    };
    Theme::parse("test", &file, None).unwrap().with_mode(mode)
}

fn text(s: &str) -> Inline {
    Inline::Text(s.to_string())
}

/// Each piece as its text (`\n` for a break), whether it is kept whole, and its link.
fn shown(pieces: &[InlinePiece]) -> Vec<(String, bool, Option<(String, LinkKind)>)> {
    pieces
        .iter()
        .map(|p| {
            let link = p.link.as_ref().map(|l| (l.url.clone(), l.kind));
            match &p.piece {
                Piece::Text { text, atomic, .. } => (text.clone(), *atomic, link),
                Piece::Break => ("\n".to_string(), false, link),
            }
        })
        .collect()
}

#[test]
fn emphasis_and_strong_add_attributes() {
    let t = theme(ColorMode::TrueColor);
    let doc = vec![
        Inline::Emphasis(vec![text("a"), Inline::Strong(vec![text("b")])]),
        Inline::HardBreak,
        text("c\td"),
    ];
    let out = inline_pieces(&doc, Style::new(), None, &t, &Vec::new());
    assert_eq!(out.len(), 4);
    match &out[0].piece {
        Piece::Text { style, .. } => assert_eq!(style.modifiers, ITALIC),
        _ => panic!("text expected"),
    }
    match &out[1].piece {
        Piece::Text { style, .. } => assert_eq!(style.modifiers, ITALIC | BOLD),
        _ => panic!("text expected"),
    }
    assert!(matches!(out[2].piece, Piece::Break));
    assert_eq!(shown(&out)[3].0, "c    d");
}

#[test]
fn links_show_their_address_unless_it_is_their_text() {
    let t = theme(ColorMode::TrueColor);
    let url = "https://example.com".to_string();
    let doc = vec![
        Inline::Link { content: vec![text("site")], url: url.clone(), title: String::new() },
        Inline::Link { content: vec![text(&url)], url: url.clone(), title: String::new() },
    ];
    let out = shown(&inline_pieces(&doc, Style::new(), None, &t, &Vec::new()));
    let to = Some((url.clone(), LinkKind::Url));
    assert_eq!(
        out,
        vec![
            ("site".to_string(), false, to.clone()),
            (" ".to_string(), false, to.clone()),
            ("(https://example.com)".to_string(), false, to.clone()),
            (url.clone(), false, to.clone()),
        ]
    );
}

#[test]
fn code_math_images_and_footnotes() {
    let t = theme(ColorMode::TrueColor);
    let doc = vec![
        Inline::Code("x".to_string()),
        Inline::Math { display: false, source: "a\nb".to_string() },
        Inline::Image { alt: vec![text("pic")], url: "p.png".to_string() },
        Inline::FootnoteRef("1".to_string()),
    ];
    let out = shown(&inline_pieces(&doc, Style::new(), None, &t, &Vec::new()));
    assert_eq!(out[0], (" x ".to_string(), true, None));
    assert_eq!(out[1], ("$a b$".to_string(), true, None));
    assert_eq!(out[2], ("▣ ".to_string(), false, None));
    assert_eq!(out[3], ("pic".to_string(), false, None));
    assert_eq!(out[4], (" (p.png)".to_string(), false, None));
    assert_eq!(out[5], ("¹".to_string(), true, Some(("1".to_string(), LinkKind::Footnote))));
    let code = vec![Inline::Code("x".to_string())];
    let mono = shown(&inline_pieces(&code, Style::new(), None, &theme(ColorMode::Mono), &Vec::new()));
    assert_eq!(mono[0].0, "`x`");
}

#[test]
fn badges_become_chips() {
    let t = theme(ColorMode::TrueColor);
    let url = "https://img.shields.io/badge/build-passing-brightgreen".to_string();
    let doc = vec![Inline::Image { alt: vec![text("ci")], url: url.clone() }];
    let link = Some(LinkRef { url: "https://ci".to_string(), kind: LinkKind::Url });
    let out = inline_pieces(&doc, Style::new(), link, &t, &Vec::new());
    let s = shown(&out);
    assert_eq!(s.len(), 2);
    assert_eq!(s[0].0, " build ");
    assert_eq!(s[1].0, " passing ");
    assert_eq!(out[1].tint, Some((0x44, 0xcc, 0x11)));
    assert_eq!(s[0].2, Some(("https://ci".to_string(), LinkKind::Url)));
    let known = vec![(
        url.clone(),
        BadgeText { label: "tests".to_string(), value: None, color: None, label_color: None },
    )];
    let mono = shown(&inline_pieces(&doc, Style::new(), None, &theme(ColorMode::Mono), &known));
    assert_eq!(mono, vec![("[tests]".to_string(), true, None)]);
}

#[test]
fn everything_inside_a_link_leads_to_it() {
    let t = theme(ColorMode::TrueColor);
    let url = "https://example.com/a".to_string();
    let content = vec![
        Inline::Emphasis(vec![text("see ")]),
        Inline::Code("x".to_string()),
        Inline::FootnoteRef("2".to_string()),
        Inline::Image { alt: vec![text("pic")], url: "p.png".to_string() },
    ];
    let doc = vec![Inline::Link { content, url: url.clone(), title: String::new() }];
    let out = shown(&inline_pieces(&doc, Style::new(), None, &t, &Vec::new()));
    assert!(out.len() > 4);
    for (text, _, link) in out {
        assert_eq!(link, Some((url.clone(), LinkKind::Url)), "piece {text:?}");
    }
}
