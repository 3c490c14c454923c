use mido::render::code::{alias, code_block, diagram_lines, highlight, highlight_regions, Region};
use mido::render::mermaid::{Drawing, Kind};
use mido::render::theme::{token_name, Color, ColorMode, Kind as ThemeKind, Theme, ThemeFile, TOKEN_COUNT};
use mido::render::wrap::{Span, BOLD, ITALIC, UNDERLINED};

/// A dark true-color theme with every token one color but a few told apart.
fn theme() -> Theme {
    let mut colors: Vec<(String, String)> = (0..TOKEN_COUNT)
        .map(|i| (token_name(i).to_string(), "#102030".to_string()))
        .collect();
    for (name, value) in colors.iter_mut() {
        match name.as_str() {
            "code_bg" => *value = "#000001".to_string(),
            "code_border" => *value = "#000002".to_string(),
            "fg_faint" => *value = "#000003".to_string(),
            "fg" => *value = "#000004".to_string(),
            _ => {}
        }
    }
    colors.sort();
    let file = ThemeFile {
        schema: 1,
        kind: Some(ThemeKind::Dark),
        extends: None,
        syntax: None,
        palette: Vec::new(),
        colors,
    };
    Theme::parse("test", &file, None).unwrap().with_mode(ColorMode::TrueColor)
}

fn texts(line: &[Span]) -> Vec<&str> {
    line.iter().map(|s| s.content.as_str()).collect()
}

fn joined(line: &[Span]) -> String {
    line.iter().map(|s| s.content.as_str()).collect()
}

#[test]
fn fence_languages_have_aliases() {
    assert_eq!(alias("zsh"), "bash");
    assert_eq!(alias("shell-session"), "bash");
    assert_eq!(alias("json5"), "json");
    assert_eq!(alias("yml"), "yaml");
    assert_eq!(alias("rs"), "rust");
    assert_eq!(alias("ts"), "typescript");
    assert_eq!(alias("python"), "python");
}

#[test]
fn regions_become_styled_spans() {
    let theme = theme();
    let regions = vec![vec![
        Region { r: 1, g: 2, b: 3, font: 1 | 4, text: "fn".to_string() },
        Region { r: 9, g: 9, b: 9, font: 0, text: "\n".to_string() },
        Region { r: 4, g: 5, b: 6, font: 2, text: " main\n".to_string() },
    ]];
    let lines = highlight_regions(&regions, &theme);
    assert_eq!(lines.len(), 1);
    assert_eq!(texts(&lines[0]), vec!["fn", " main"]);
    assert_eq!(lines[0][0].style.fg, Some(Color::Rgb(1, 2, 3)));
    assert_eq!(lines[0][0].style.bg, Some(Color::Rgb(0, 0, 1)));
    assert_eq!(lines[0][0].style.modifiers, BOLD | ITALIC);
    assert_eq!(lines[0][1].style.modifiers, UNDERLINED);
}

#[test]
fn known_languages_are_highlighted() {
    let theme = theme();
    let lines = highlight("rs", "fn main() {}\nlet x = 1;\n", &theme).expect("rust is known");
    assert_eq!(lines.len(), 2);
    assert_eq!(joined(&lines[0]), "fn main() {}");
    assert_eq!(joined(&lines[1]), "let x = 1;");
    assert!(lines[0].len() > 1, "tokens get their own spans: {:?}", texts(&lines[0]));
    assert!(lines.iter().flatten().all(|s| s.style.bg == Some(Color::Rgb(0, 0, 1))));
    assert!(highlight("no-such-language-here", "x", &theme).is_none());
}

#[test]
fn code_rows_are_padded_and_labelled() {
    let theme = theme();
    let rows = code_block(None, "a\tb\nc", 12, &theme);
    assert_eq!(rows.len(), 2);
    assert_eq!(texts(&rows[0]), vec!["▎ ", "a    b", "    "]);
    assert_eq!(texts(&rows[1]), vec!["▎ ", "c", &" ".repeat(9)]);
    assert_eq!(rows[0][0].style.fg, Some(Color::Rgb(0, 0, 2)));
    assert_eq!(rows[0][1].style.bg, Some(Color::Rgb(0, 0, 1)));

    let rows = code_block(Some("nolang"), "abc", 14, &theme);
    assert_eq!(texts(&rows[0]), vec!["▎ ", "abc", "   ", "nolang"]);
    assert_eq!(rows[0][3].style.fg, Some(Color::Rgb(0, 0, 3)));
}

#[test]
fn long_code_lines_are_cut() {
    let theme = theme();
    let rows = code_block(None, "abcdefghij", 6, &theme);
    assert_eq!(texts(&rows[0]), vec!["▎ ", "abc", "…"]);
}

#[test]
fn empty_code_is_one_row() {
    let theme = theme();
    let rows = code_block(None, "", 10, &theme);
    assert_eq!(rows.len(), 1);
    assert_eq!(texts(&rows[0]), vec!["▎ ", &" ".repeat(8)]);
}

#[test]
fn diagrams_are_framed() {
    let theme = theme();
    let d = Drawing { rows: vec![vec![(Kind::Border, "┌┐".to_string()), (Kind::Text, "x".to_string())]] };
    let rows = diagram_lines(&d, 20, &theme);
    assert_eq!(rows.len(), 3);
    assert_eq!(texts(&rows[0]), vec!["▎ ", " ", &" ".repeat(12), "mermaid"]);
    assert_eq!(texts(&rows[1]), vec!["▎ ", " ", "┌┐", "x", &" ".repeat(16)]);
    assert_eq!(texts(&rows[2]), vec!["▎ ", " ", &" ".repeat(19)]);
}

#[test]
fn mermaid_blocks_become_diagrams_or_fall_back() {
    let theme = theme();
    let src = "graph LR\n  A[Read] --> B[Render]\n";
    let wide: Vec<String> = code_block(Some("mermaid"), src, 80, &theme).iter().map(|l| joined(l)).collect();
    let text = wide.join("\n");
    assert!(text.contains('┌') && (text.contains('►') || text.contains('▶')), "{text}");
    assert!(!text.contains("A[Read]"), "{text}");
    let other: Vec<String> = code_block(Some("mermaid"), "zzzDiagram\n  a -> b\n", 80, &theme)
        .iter()
        .map(|l| joined(l))
        .collect();
    assert!(other.join("\n").contains("zzzDiagram"));
    let narrow: Vec<String> = code_block(Some("mermaid"), src, 24, &theme).iter().map(|l| joined(l)).collect();
    assert!(narrow.join("\n").contains("A[Read]"), "{}", narrow.join("\n"));
}
