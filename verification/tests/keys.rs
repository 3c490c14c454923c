use std::collections::HashSet;

use mido::app::keys::{
    actions, markdown, plain, Action, KeyChord, KeyCode, Keymap,
};

fn chord(c: char, ctrl: bool) -> KeyChord {
    KeyChord {
        code: KeyCode::Char(c),
        ctrl,
        alt: false,
    }
}

#[test]
fn keys_parse_and_print() {
    for (text, shown) in [
        ("j", "j"),
        ("G", "G"),
        ("ctrl-d", "Ctrl-d"),
        ("Ctrl+P", "Ctrl-p"),
        ("alt-x", "Alt-x"),
        ("space", "Space"),
        ("pgdn", "PgDn"),
        ("f5", "F5"),
        ("-", "-"),
    ] {
        assert_eq!(KeyChord::parse(text).unwrap().to_string(), shown);
    }
    assert!(KeyChord::parse("ctrl-").is_err());
    assert_eq!(KeyChord::parse("ctrl--").unwrap().to_string(), "Ctrl--");
    assert!(KeyChord::parse("banana").is_err());
    assert!(KeyChord::parse("f13").is_err());
}

#[test]
fn defaults_cover_every_action_once() {
    let keymap = Keymap::default();
    let bound: usize = actions().iter().map(|a| keymap.keys(*a).len()).sum();
    let distinct: HashSet<KeyChord> = actions()
        .iter()
        .flat_map(|a| keymap.keys(*a).to_vec())
        .collect();
    assert_eq!(bound, distinct.len(), "no key is bound twice");
    assert_eq!(keymap.action(&chord('G', false)), Some(Action::Bottom));
    assert_eq!(keymap.action(&chord('b', true)), Some(Action::PageUp));
    assert_eq!(keymap.action(&chord('b', false)), Some(Action::Files));
}

#[test]
fn overrides_take_keys_from_other_actions() {
    let overrides = vec![
        ("images".to_string(), vec![]),
        ("quit".to_string(), vec!["j".to_string()]),
    ];
    let keymap = Keymap::with_overrides(&overrides).unwrap();
    assert_eq!(keymap.action(&chord('j', false)), Some(Action::Quit));
    assert_eq!(keymap.keys(Action::ScrollDown).len(), 1);
    assert_eq!(keymap.action(&chord('q', false)), None);
    assert!(keymap.keys(Action::Images).is_empty());
    let rows = keymap.sections();
    assert!(!rows[0].1.iter().any(|(_, a)| *a == "Show or hide images"));
    assert_eq!(rows[0].1[0].0, "`↓` / `k`, `↑`, wheel");
}

#[test]
fn override_errors_name_the_problem() {
    let bad = |name: &str, key: &str| {
        Keymap::with_overrides(&vec![(name.to_string(), vec![key.to_string()])]).unwrap_err()
    };
    assert!(bad("jump", "j").contains("unknown action `jump`"));
    assert!(bad("quit", "hyper-q").contains("`hyper-q` is not a key"));
}

#[test]
fn keys_read_numbers_and_names_like_std() {
    assert_eq!(KeyChord::parse("f+12").unwrap().to_string(), "F12");
    assert_eq!(KeyChord::parse("F05").unwrap().to_string(), "F5");
    assert!(KeyChord::parse("f0").is_err());
    assert!(KeyChord::parse("f256").is_err());
    assert_eq!(KeyChord::parse("CTRL-X").unwrap().to_string(), "Ctrl-x");
    assert_eq!(KeyChord::parse("alt+ctrl-Return").unwrap().to_string(), "Ctrl-Alt-Enter");
    assert_eq!(KeyChord::parse("Esc").unwrap().to_string(), "Esc");
    assert_eq!(KeyChord::parse("").unwrap_err(), "`` is not a key");
}

#[test]
fn first_keys_and_plain_text() {
    let keymap = Keymap::default();
    assert_eq!(keymap.first(Action::Help), "?");
    assert_eq!(keymap.first(Action::PageDown), "Ctrl-f");
    let none = Keymap::with_overrides(&vec![("help".to_string(), vec![])]).unwrap();
    assert_eq!(none.first(Action::Help), "-");
    assert_eq!(plain("`j`, `↓`"), "j, ↓");
}

#[test]
fn the_docs_list_every_action() {
    let md = markdown();
    assert!(md.starts_with("## Reading\n\n| Key | Action |\n| --- | --- |\n| `j` / `k`, `↓` / `↑`, wheel | Scroll one line |\n"));
    assert!(md.contains("| `quit` | `q` | Quit |\n"));
    assert!(md.ends_with("| `quit` | `q` | Quit |\n"));
}

#[test]
fn key_presses_make_chords() {
    let c = KeyChord::from_event(KeyCode::Char('D'), true, false);
    assert_eq!(c, KeyChord { code: KeyCode::Char('d'), ctrl: true, alt: false });
    let c = KeyChord::from_event(KeyCode::Char('D'), false, true);
    assert_eq!(c, KeyChord { code: KeyCode::Char('D'), ctrl: false, alt: true });
    let c = KeyChord::from_event(KeyCode::Enter, true, false);
    assert_eq!(c.code, KeyCode::Enter);
}
