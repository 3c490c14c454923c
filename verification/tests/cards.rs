use std::path::PathBuf;

use mido::app::cards::{files_card, files_title, outline_card, panel_item};
use mido::outline::Row;
use mido::project::scan::Entry;
use mido::render::layout::Heading;
use mido::render::theme::{token_name, Color, Theme, ThemeFile, TOKEN_COUNT};
use mido::render::wrap::{Span, Style};

fn theme() -> Theme {
    let mut colors: Vec<(String, String)> = (0..TOKEN_COUNT)
        .map(|i| (token_name(i).to_string(), "#102030".to_string()))
        .collect();
    for (name, value) in colors.iter_mut() {
        if name == "accent" {
            *value = "#ff0000".to_string();
        }
    }
    colors.sort();
    let file = ThemeFile {
        schema: 1,
        kind: Some(mido::render::theme::Kind::Dark),
        extends: None,
        syntax: None,
        palette: Vec::new(),
        colors,
    };
    Theme::parse("test", &file, None).unwrap()
}

fn text(line: &[Span]) -> String {
    line.iter().map(|s| s.content.as_str()).collect()
}

fn row(index: usize, prefix: &str, marker: &'static str, collapsed: bool) -> Row {
    Row { index, prefix: prefix.to_string(), marker, has_children: collapsed, collapsed }
}

#[test]
fn long_labels_wrap_under_the_label() {
    let t = theme();
    let (lines, height) = panel_item(16, "├ ", "▸ ", Style::new(), "alpha beta gamma delta", Style::new(), &t);
    assert_eq!(height, lines.len());
    assert!(height >= 2);
    assert!(text(&lines[0]).starts_with("├ ▸ alpha"));
    assert!(text(&lines[1]).starts_with("│   "));
}

#[test]
fn outline_card_lists_headings_or_says_none() {
    let t = theme();
    let empty = outline_card(&Vec::new(), &Vec::new(), 20, &t);
    assert_eq!(empty.empty.as_deref(), Some("No headings"));
    let headings = vec![
        Heading { level: 1, text: "Intro".to_string(), line: 0, slug: "intro".to_string() },
        Heading { level: 2, text: "Use".to_string(), line: 5, slug: "use".to_string() },
    ];
    let rows = vec![row(0, "", "▾ ", false), row(1, "└ ", "  ", true)];
    let card = outline_card(&rows, &headings, 20, &t);
    assert!(card.empty.is_none());
    assert_eq!(card.heights, vec![1, 1]);
    assert_eq!(text(&card.items[1][0]), "└   Use");
    assert_eq!(card.items[1][0][1].style.fg, Some(Color::Rgb(255, 0, 0)));
}

#[test]
fn files_card_marks_the_current_file_and_folders() {
    let t = theme();
    let entry = |name: &str, is_dir: bool, title: Option<&str>| Entry {
        path: PathBuf::from(name),
        name: name.to_string(),
        depth: 0,
        is_dir,
        title: title.map(str::to_string),
    };
    let entries = vec![entry("docs", true, None), entry("a.md", false, Some("Alpha")), entry("b.md", false, None)];
    assert_eq!(files_title(&entries), "docs");
    assert_eq!(files_title(&Vec::new()), "Files");
    let none = files_card(&entries, &Vec::new(), None, false, 20, &t);
    assert_eq!(none.empty.as_deref(), Some("No Markdown files"));
    let rows = vec![row(0, "", "▾ ", false), row(1, "├ ", "", false), row(2, "└ ", "", false)];
    let card = files_card(&entries, &rows, Some(1), true, 20, &t);
    assert_eq!(text(&card.items[1][0]), "├ Alpha");
    assert_eq!(text(&card.items[2][0]), "└ b.md");
    assert_eq!(card.items[1][0][2].style.fg, Some(Color::Rgb(255, 0, 0)));
    let plain = files_card(&entries, &rows, None, false, 20, &t);
    assert_eq!(text(&plain.items[1][0]), "├ a.md");
}
