use std::path::{Path, PathBuf};

use mido::config::{Background, Config, ConfigFile, FrontMatterSetting, Keys, ThemeRef};
use mido::render::glyphs::GlyphTier;
use mido::render::layout::FrontMatterView;
use mido::render::theme::Kind;

/// The default settings with one file's settings applied, as read from `/cfg`.
fn merged(file: ConfigFile) -> Result<Config, String> {
    let mut config = Config::default();
    config.merge_file(file, Path::new("/cfg"))?;
    Ok(config)
}

fn keys<'a>(config: &'a Config, action: &str) -> &'a [String] {
    &config.keys.iter().find(|(a, _)| a == action).unwrap().1
}

#[test]
fn every_setting_reads() {
    // theme = "nord", light_theme = "mine.toml", background = "light", glyphs = "ascii",
    // width = 90, gutter = 4, front_matter = "hidden", extensions = [".md", "TXT"],
    // [keys] quit = "x", scroll_down = ["j", "ctrl-n"]
    let config = merged(ConfigFile {
        theme: Some("nord".into()),
        light_theme: Some("mine.toml".into()),
        background: Some(Background::Light),
        glyphs: Some(GlyphTier::Ascii),
        width: Some(90),
        gutter: Some(4),
        front_matter: Some(FrontMatterSetting::Hidden),
        extensions: Some(vec![".md".into(), "TXT".into()]),
        keys: vec![
            ("quit".into(), Keys::One("x".into())),
            ("scroll_down".into(), Keys::Many(vec!["j".into(), "ctrl-n".into()])),
        ],
        ..ConfigFile::default()
    })
    .unwrap();
    assert_eq!(
        config.theme,
        Some(ThemeRef { value: "nord".into(), dir: "/cfg".into() })
    );
    assert_eq!(config.light_theme.value, "mine.toml");
    assert_eq!(config.background, Background::Light);
    assert_eq!(config.glyphs, GlyphTier::Ascii);
    assert_eq!(config.width, Some(90));
    assert_eq!(config.gutter, 4);
    assert_eq!(config.front_matter, FrontMatterView::Hidden);
    assert_eq!(config.extensions, ["md", "txt"]);
    assert_eq!(keys(&config, "quit"), ["x"]);
    assert_eq!(keys(&config, "scroll_down"), ["j", "ctrl-n"]);
}

#[test]
fn later_files_override_earlier_ones() {
    // theme = "nord", width = 90, [keys] quit = "x"
    let mut config = merged(ConfigFile {
        theme: Some("nord".into()),
        width: Some(90),
        keys: vec![("quit".into(), Keys::One("x".into()))],
        ..ConfigFile::default()
    })
    .unwrap();
    // theme = "auto", [keys] help = "F1", read from /project
    config
        .merge_file(
            ConfigFile {
                theme: Some("auto".into()),
                keys: vec![("help".into(), Keys::One("F1".into()))],
                ..ConfigFile::default()
            },
            Path::new("/project"),
        )
        .unwrap();
    assert_eq!(config.theme, None);
    assert_eq!(config.width, Some(90));
    assert_eq!(config.keys.len(), 2);
}

#[test]
fn bad_settings_are_errors() {
    let err = |file: ConfigFile| merged(file).unwrap_err();
    assert!(err(ConfigFile { width: Some(5), ..ConfigFile::default() }).contains("at least 20"));
    assert!(err(ConfigFile { extensions: Some(vec![]), ..ConfigFile::default() })
        .contains("at least one"));
    assert!(err(ConfigFile { gutter: Some(17), ..ConfigFile::default() }).contains("at most 16"));
    assert!(err(ConfigFile { extensions: Some(vec![".".into(), "".into()]), ..ConfigFile::default() })
        .contains("at least one"));
}

#[test]
fn auto_picks_by_background() {
    let config = Config::default();
    assert!(config.needs_detection());
    assert_eq!(config.chosen_theme(Kind::Light).value, "mido-light");
    assert_eq!(config.chosen_theme(Kind::Dark).value, "mido-dark");
    let forced = merged(ConfigFile { background: Some(Background::Light), ..ConfigFile::default() })
        .unwrap();
    assert!(!forced.needs_detection());
    assert_eq!(forced.chosen_theme(Kind::Dark).value, "mido-light");
    let named = merged(ConfigFile { theme: Some("nord".into()), ..ConfigFile::default() }).unwrap();
    assert!(!named.needs_detection());
    assert_eq!(named.chosen_theme(Kind::Dark).value, "nord");
    assert_eq!(named.chosen_theme(Kind::Dark).dir, PathBuf::from("/cfg"));
}

#[test]
fn set_theme_names_or_clears() {
    let mut config = Config::default();
    config.set_theme("nord");
    assert_eq!(config.theme.as_ref().unwrap().value, "nord");
    config.set_theme("auto");
    assert_eq!(config.theme, None);
}
