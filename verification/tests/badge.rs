use mido::render::badge::{from_svg, from_url, is_badge, parse_color, BadgeText, Rgb};

fn text(label: &str, value: Option<&str>, color: Option<Rgb>) -> BadgeText {
    BadgeText {
        label: label.to_string(),
        value: value.map(str::to_string),
        color,
        label_color: None,
    }
}

/// An `x` attribute read as a number above zero, as the renderer reads it.
fn positive(x: &str) -> bool {
    x.parse::<f64>().unwrap_or(0.0) > 0.0
}

#[test]
fn recognises_badge_hosts_and_paths() {
    assert!(is_badge("https://img.shields.io/crates/v/mido"));
    assert!(is_badge(
        "https://github.com/o/r/actions/workflows/ci.yml/badge.svg"
    ));
    assert!(is_badge("https://docs.rs/mido/badge.svg?x=1"));
    assert!(is_badge(
        "https://codecov.io/gh/o/r/branch/main/graph/badge.svg"
    ));
    assert!(!is_badge("https://example.com/images/badger.png"));
    assert!(!is_badge("images/tiny.png"));
    assert!(!is_badge("badges/local.svg"));
}

#[test]
fn static_badges_come_from_the_url() {
    assert_eq!(
        from_url("https://img.shields.io/badge/docs-anistark.github.io%2Fmido-2ea44f"),
        Some(text(
            "docs",
            Some("anistark.github.io/mido"),
            Some((0x2e, 0xa4, 0x4f))
        ))
    );
    assert_eq!(
        from_url("https://img.shields.io/badge/made__with-rust--lang-orange?style=flat"),
        Some(text(
            "made_with",
            Some("rust-lang"),
            Some((0xfe, 0x7d, 0x37))
        ))
    );
    assert_eq!(
        from_url("https://img.shields.io/badge/just_a_message-blue"),
        Some(text("just a message", None, Some((0x00, 0x7e, 0xc6))))
    );
    assert_eq!(
        from_url("https://img.shields.io/static/v1?label=build&message=passing&color=brightgreen"),
        Some(text("build", Some("passing"), Some((0x44, 0xcc, 0x11))))
    );
    assert_eq!(
        from_url("https://img.shields.io/crates/v/mido?label=version&color=%23123456&labelColor=000"),
        Some(BadgeText {
            label: "version".to_string(),
            value: None,
            color: Some((0x12, 0x34, 0x56)),
            label_color: Some((0, 0, 0)),
        })
    );
    assert_eq!(from_url("https://img.shields.io/crates/v/mido"), None);
}

#[test]
fn svg_titles_and_fills_are_read() {
    let shields = "<svg><title>crates.io: v0.4.0</title><linearGradient id=\"s\"><stop offset=\"0\" stop-color=\"#bbb\" stop-opacity=\".1\"/></linearGradient><rect width=\"102\" height=\"20\" rx=\"3\"/><rect width=\"57\" height=\"20\" fill=\"#555\"/><rect x=\"57\" width=\"45\" height=\"20\" fill=\"#ea7233\"/><rect width=\"102\" height=\"20\" fill=\"url(#s)\"/></svg>";
    assert_eq!(
        from_svg(shields, positive),
        Some(text("crates.io", Some("v0.4.0"), Some((0xea, 0x72, 0x33))))
    );
    let github = "<svg>\n  <title>CI - passing</title>\n  <linearGradient id=\"workflow-fill\"><stop stop-color=\"#444D56\" offset=\"0%\"></stop></linearGradient>\n  <linearGradient id=\"state-fill\"><stop stop-color=\"#34D058\" offset=\"0%\"></stop><stop stop-color=\"#28A745\" offset=\"100%\"></stop></linearGradient>\n  <path id=\"workflow-bg\" fill=\"url(#workflow-fill)\" d=\"M0\"></path>\n  <path id=\"state-bg\" fill=\"url(#state-fill)\" d=\"M1\"></path>\n</svg>";
    assert_eq!(
        from_svg(github, positive),
        Some(text("CI", Some("passing"), Some((0x34, 0xd0, 0x58))))
    );
    assert_eq!(
        from_svg("<svg><title>A &amp; B</title></svg>", positive),
        Some(text("A & B", None, None))
    );
    assert_eq!(from_svg("<svg></svg>", positive), None);
}

#[test]
fn colors_parse_from_names_and_hex() {
    assert_eq!(parse_color("4c1"), Some((0x44, 0xcc, 0x11)));
    assert_eq!(parse_color("#2EA44F"), Some((0x2e, 0xa4, 0x4f)));
    assert_eq!(parse_color("critical"), Some((0xe0, 0x5d, 0x44)));
    assert_eq!(parse_color("blueviolet"), Some((0x8a, 0x2b, 0xe2)));
    assert_eq!(parse_color("not-a-color"), None);
    assert_eq!(parse_color("12345"), None);
}

#[test]
fn percent_escapes_decode_as_utf8() {
    assert_eq!(
        from_url("https://img.shields.io/badge/caf%C3%A9-ok-green"),
        Some(text("café", Some("ok"), Some((0x97, 0xca, 0x00))))
    );
    assert_eq!(
        from_url("https://img.shields.io/badge/a%FFb-red"),
        Some(text("a\u{fffd}b", None, Some((0xe0, 0x5d, 0x44))))
    );
}

#[test]
fn label_param_overrides_and_bad_colors_are_ignored() {
    assert_eq!(
        from_url("http://img.shields.io/badge/x-y-red?label=z+w&color=nope#frag"),
        Some(text("z w", Some("y"), Some((0xe0, 0x5d, 0x44))))
    );
    assert_eq!(from_url("ftp://img.shields.io/badge/x-red"), None);
}

#[test]
fn static_badge_messages_join_their_middle_parts() {
    assert_eq!(
        from_url("https://img.shields.io/badge/a-b-c-d-ff0000"),
        Some(text("a", Some("b-c-d"), Some((0xff, 0, 0))))
    );
}

#[test]
fn svg_without_offset_takes_the_second_fill() {
    let svg = "<svg><title>x</title><rect fill=\"#111\"/><rect fill=\"#222\"/></svg>";
    assert_eq!(from_svg(svg, positive), Some(text("x", None, Some((0x22, 0x22, 0x22)))));
    let one = "<svg><title>y - z</title><path fill=\"#111\" x=\"0\"/></svg>";
    assert_eq!(from_svg(one, positive), Some(text("y", Some("z"), None)));
}

#[test]
fn hex_colors_read_back() {
    for c in [(0u8, 0u8, 0u8), (0xff, 0xff, 0xff), (0x2e, 0xa4, 0x4f), (0x10, 0x0a, 0xf0)] {
        let text = format!("#{:02x}{:02x}{:02x}", c.0, c.1, c.2);
        assert_eq!(parse_color(&text), Some(c));
    }
}

#[test]
fn hex_colors_read_in_every_form() {
    for c in [(0u8, 0u8, 0u8), (0xff, 0x10, 0xab), (0x2e, 0xa4, 0x4f)] {
        assert_eq!(parse_color(&format!("{:02x}{:02x}{:02x}", c.0, c.1, c.2)), Some(c));
        assert_eq!(parse_color(&format!("#{:02X}{:02X}{:02X}", c.0, c.1, c.2)), Some(c));
    }
    assert_eq!(parse_color("aBc"), Some((0xaa, 0xbb, 0xcc)));
    assert_eq!(parse_color("#F0a"), Some((0xff, 0x00, 0xaa)));
}
