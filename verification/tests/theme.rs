use mido::render::glyphs::{GlyphTier, Glyphs};
use mido::render::theme::{
    next_step, read_chain, theme_is_path, too_deep, ChainStep, ThemeError, MAX_EXTENDS,
    normalize, parse_color, syntax_theme, syntax_theme_names, to_indexed, token_name, Color,
    ColorMode, Kind, Theme, ThemeFile, TOKEN_COUNT,
};
use two_face::theme::EmbeddedThemeName;

/// A theme file read from TOML text, its tables in name order.
fn file(text: &str) -> ThemeFile {
    let t: toml::Table = text.parse().unwrap();
    let string = |key: &str| t.get(key).and_then(|v| v.as_str()).map(str::to_string);
    let table = |key: &str| -> Vec<(String, String)> {
        let mut pairs: Vec<(String, String)> = t
            .get(key)
            .and_then(|v| v.as_table())
            .map(|m| {
                m.iter()
                    .map(|(k, v)| (k.clone(), v.as_str().unwrap().to_string()))
                    .collect()
            })
            .unwrap_or_default();
        pairs.sort();
        pairs
    };
    ThemeFile {
        schema: t["schema"].as_integer().unwrap() as u32,
        kind: string("kind").map(|k| Kind::from_str(&k).unwrap()),
        extends: string("extends"),
        syntax: string("syntax"),
        palette: table("palette"),
        colors: table("colors"),
    }
}

/// A dark theme that sets every token to one color.
fn dark() -> Theme {
    let mut text = String::from("schema = 1\nkind = \"dark\"\n[colors]\n");
    for i in 0..TOKEN_COUNT {
        text.push_str(&format!("{} = \"#102030\"\n", token_name(i)));
    }
    text.push_str("fg = \"#cdd6f4\"\n");
    let text = text.replacen("fg = \"#102030\"\n", "", 1);
    Theme::parse("mido-dark", &file(&text), None).unwrap()
}

#[test]
fn theme_errors_name_the_problem() {
    let err = |text: &str, base: Option<Theme>| Theme::parse("t", &file(text), base).unwrap_err().0;
    assert!(err("schema = 2\nkind = \"dark\"", None).contains("schema 2"));
    assert!(err("schema = 1\nkind = \"dark\"", None).contains("missing bg, fg"));
    assert!(
        err("schema = 1\nextends = \"mido-dark\"\n[colors]\nfgg = \"red\"", Some(dark()))
            .contains("unknown token `fgg`")
    );
    assert!(
        err("schema = 1\nextends = \"mido-dark\"\n[colors]\nfg = \"rose\"", Some(dark()))
            .contains("not a color")
    );
    assert!(err("schema = 1\nextends = \"nope\"", None).contains("extends `nope`"));
    assert!(
        err("schema = 1\nextends = \"mido-dark\"\nsyntax = \"nope\"", Some(dark()))
            .contains("syntax theme")
    );
    assert!(err("schema = 1", None).contains("`kind` must be dark or light"));
}

#[test]
fn a_theme_can_extend_another() {
    let text = "schema = 1\nextends = \"mido-dark\"\n[palette]\nrose = \"#f5c2e7\"\n[colors]\naccent = \"rose\"\nlink = \"#abc\"\n";
    let theme = Theme::parse("mine", &file(text), Some(dark())).unwrap();
    assert_eq!(theme.name, "mine");
    assert_eq!(theme.accent, Color::Rgb(245, 194, 231));
    assert_eq!(theme.link, Color::Rgb(170, 187, 204));
    assert_eq!(theme.fg, dark().fg);
    assert_eq!(theme.kind, Kind::Dark);
    assert_eq!(theme.syntax, EmbeddedThemeName::CatppuccinMocha);
}

#[test]
fn a_light_kind_changes_the_code_theme() {
    let text = "schema = 1\nextends = \"mido-dark\"\nkind = \"light\"\nsyntax = \"Solarized (dark)\"\n";
    let theme = Theme::parse("mine", &file(text), Some(dark())).unwrap();
    assert_eq!(theme.kind, Kind::Light);
    assert_eq!(theme.syntax, EmbeddedThemeName::SolarizedDark);
    let plain = Theme::parse("p", &file("schema = 1\nextends = \"x\"\nkind = \"light\""), Some(dark())).unwrap();
    assert_eq!(plain.syntax, EmbeddedThemeName::CatppuccinLatte);
}

#[test]
fn colors_parse_in_every_form() {
    assert_eq!(parse_color("#ff8000"), Some(Color::Rgb(255, 128, 0)));
    assert_eq!(parse_color("#f80"), Some(Color::Rgb(255, 136, 0)));
    assert_eq!(parse_color("default"), Some(Color::Reset));
    assert_eq!(parse_color("bright-blue"), Some(Color::LightBlue));
    assert_eq!(parse_color("208"), Some(Color::Indexed(208)));
    assert_eq!(parse_color("#ggg"), None);
    assert_eq!(parse_color("  NONE "), Some(Color::Reset));
    assert_eq!(parse_color("Dark Grey"), Some(Color::DarkGray));
}

#[test]
fn syntax_names_match_loosely() {
    assert_eq!(
        syntax_theme("catppuccin-mocha"),
        Some(EmbeddedThemeName::CatppuccinMocha)
    );
    assert_eq!(
        syntax_theme("Solarized (dark)"),
        Some(EmbeddedThemeName::SolarizedDark)
    );
    assert_eq!(
        syntax_theme("solarized-light"),
        Some(EmbeddedThemeName::SolarizedLight)
    );
    assert!(syntax_theme_names().contains(&"gruvbox-dark".to_string()));
    assert_eq!(normalize("  Base16 (Ocean) dark!! "), "base16-ocean-dark");
}

#[test]
fn colors_fall_back_to_the_palette_ramp() {
    assert_eq!(to_indexed(Color::Rgb(0, 0, 0)), Color::Indexed(16));
    assert_eq!(to_indexed(Color::Rgb(255, 255, 255)), Color::Indexed(231));
    assert_eq!(to_indexed(Color::Rgb(128, 128, 128)), Color::Indexed(244));
    assert_eq!(to_indexed(Color::Rgb(255, 0, 0)), Color::Indexed(196));
    assert_eq!(to_indexed(Color::Red), Color::Red);
    for v in 5u8..=7 {
        assert_eq!(to_indexed(Color::Rgb(v, v, v)), Color::Indexed(232));
    }
    let mono = dark().with_mode(ColorMode::Mono);
    assert_eq!(mono.fg, Color::Reset);
    assert!(!mono.paints_background());
    assert_eq!(mono.mode, ColorMode::Mono);
}

#[test]
fn glyph_tiers_by_name() {
    assert_eq!(GlyphTier::from_str("nerd"), Ok(GlyphTier::Nerd));
    assert!(GlyphTier::from_str("emoji").unwrap_err().contains("unknown glyph tier `emoji`"));
    assert_eq!(Glyphs::for_tier(GlyphTier::Ascii).bullet(4), "*");
    assert_eq!(Glyphs::default().tier, GlyphTier::Unicode);
    assert_eq!(Kind::from_str("dusk").unwrap_err(), "unknown kind `dusk`, expected dark or light");
}

#[test]
fn tokens_say_what_they_paint() {
    assert_eq!(mido::render::theme::token_about(1), "Body text");
    assert_eq!(mido::render::theme::token_about(37), "Value side of a front matter chip");
    assert_eq!(syntax_theme_names().len(), mido::render::theme::SYNTAX_THEME_COUNT);
}

#[test]
fn borders_have_their_corners() {
    let r = mido::render::glyphs::rounded_border();
    assert_eq!((r.top_left, r.bottom_right, r.horizontal_top), ("╭", "╯", "─"));
    let a = mido::render::glyphs::ascii_border();
    assert_eq!((a.top_left, a.vertical_left, a.horizontal_bottom), ("+", "|", "-"));
}

fn dark_text() -> String {
    let mut text = String::from("schema = 1\nkind = \"dark\"\n[colors]\n");
    for i in 0..TOKEN_COUNT {
        text.push_str(&format!("{} = \"#102030\"\n", token_name(i)));
    }
    text
}

#[test]
fn theme_chains_read_from_the_end() {
    let child = file("schema = 1\nextends = \"base\"\n[colors]\nlink = \"#abc\"\n");
    let links = vec![("mine".to_string(), child.clone()), ("base".to_string(), file(&dark_text()))];
    let theme = read_chain(&links, Ok(None)).unwrap();
    assert_eq!(theme.name, "mine");
    assert_eq!(theme.link, Color::Rgb(170, 187, 204));
    assert_eq!(theme.fg, Color::Rgb(16, 32, 48));
    let failed = read_chain(&vec![("mine".to_string(), child)], Err(ThemeError("no theme `base`".to_string())));
    assert_eq!(failed.unwrap_err().0, "no theme `base`");
    let lone = read_chain(&vec![("x".to_string(), file("schema = 1\nextends = \"x\""))], Ok(None));
    assert!(lone.unwrap_err().0.contains("extends `x`, which is not a theme"));
}

#[test]
fn chain_steps_follow_extends_to_the_depth_limit() {
    let f = file("schema = 1\nextends = \"base\"");
    assert_eq!(next_step("mine", &f, 0), ChainStep::Lookup("base".to_string()));
    assert_eq!(next_step("mine", &f, MAX_EXTENDS), ChainStep::TooDeep("base".to_string()));
    assert_eq!(next_step("base", &f, 0), ChainStep::Builtin("base".to_string()));
    assert_eq!(next_step("x", &file("schema = 1\nkind = \"dark\""), 3), ChainStep::Done);
    assert_eq!(too_deep("loop").0, "theme `loop` extends too deep, is there a loop?");
    assert!(theme_is_path("mine.toml") && theme_is_path("themes/x") && theme_is_path("a\\b"));
    assert!(!theme_is_path("nord"));
}

#[test]
fn colors_read_as_ratatui_reads_them() {
    assert_eq!(parse_color("+7"), Some(Color::Indexed(7)));
    assert_eq!(parse_color("256"), None);
    assert_eq!(parse_color("#+f+f+f"), Some(Color::Rgb(15, 15, 15)));
    assert_eq!(parse_color("Light_Black"), Some(Color::DarkGray));
    assert_eq!(parse_color("silver"), Some(Color::Gray));
    assert_eq!(parse_color("bright white"), Some(Color::White));
    assert_eq!(parse_color("#12345"), None);
}
