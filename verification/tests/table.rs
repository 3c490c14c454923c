use mido::markdown::document::Alignment;
use mido::render::table::{table_lines, table_row};
use mido::render::theme::{token_name, Color, Theme, ThemeFile, TOKEN_COUNT};
use mido::render::wrap::{Piece, Span, Style};

/// A dark theme with every token one color, the border and the surface told apart.
fn theme() -> Theme {
    let mut colors: Vec<(String, String)> = (0..TOKEN_COUNT)
        .map(|i| (token_name(i).to_string(), "#102030".to_string()))
        .collect();
    for (name, value) in colors.iter_mut() {
        if name == "table_border" {
            *value = "#aa0000".to_string();
        }
        if name == "surface" {
            *value = "#00bb00".to_string();
        }
    }
    colors.sort();
    let file = ThemeFile {
        schema: 1,
        kind: Some(mido::render::theme::Kind::Dark),
        extends: None,
        syntax: None,
        palette: Vec::new(),
        colors,
    };
    Theme::parse("test", &file, None).unwrap()
}

fn text(line: &[Span]) -> String {
    line.iter().map(|s| s.content.as_str()).collect()
}

fn cell(t: &str) -> Vec<Piece> {
    vec![Piece::text(t, Style::new())]
}

#[test]
fn a_small_table_is_boxed_and_aligned() {
    let theme = theme();
    let header = vec![cell("a"), cell("bb")];
    let rows = vec![vec![cell("1"), cell("2")]];
    let aligns = vec![Alignment::Left, Alignment::Right];
    let lines = table_lines(&header, &rows, &aligns, 80, &theme);
    let texts: Vec<String> = lines.iter().map(|l| text(l)).collect();
    assert_eq!(
        texts,
        vec![
            "┌───┬────┐",
            "│ a │ bb │",
            "┝━━━┿━━━━┥",
            "│ 1 │  2 │",
            "└───┴────┘",
        ]
    );
    let border = Style::new().fg(Color::Rgb(0xaa, 0, 0));
    assert_eq!(lines[0].len(), 1);
    assert_eq!(lines[0][0].content, "┌───┬────┐");
    assert_eq!(lines[0][0].style, border);
    assert!(lines[1].iter().all(|s| s.style.bg == Some(Color::Rgb(0, 0xbb, 0))));
    assert!(lines[3].iter().all(|s| s.style.bg.is_none()));
    assert_eq!(lines[3][0].style, border);
}

#[test]
fn a_narrow_table_wraps_its_cells() {
    let theme = theme();
    let header = vec![cell("name")];
    let rows = vec![vec![cell("hello world")]];
    let lines = table_lines(&header, &rows, &vec![], 10, &theme);
    let texts: Vec<String> = lines.iter().map(|l| text(l)).collect();
    assert_eq!(
        texts,
        vec![
            "┌────────┐",
            "│ name   │",
            "┝━━━━━━━━┥",
            "│ hello  │",
            "│ world  │",
            "└────────┘",
        ]
    );
}

#[test]
fn a_table_without_columns_draws_nothing() {
    let theme = theme();
    let lines = table_lines(&vec![], &vec![vec![], vec![]], &vec![], 40, &theme);
    assert!(lines.is_empty());
}

#[test]
fn short_rows_get_empty_cells_and_centering() {
    let border = Style::new();
    let lines = table_row(&vec![cell("x")], &vec![3, 2], &vec![Alignment::Center], border, None);
    assert_eq!(lines.len(), 1);
    assert_eq!(text(&lines[0]), "│  x  │    │");
}
