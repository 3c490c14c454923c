use mido::render::theme::Color;
use mido::render::wrap::{wrap, width, Piece, Span, Style};

fn plain(lines: &[Vec<Span>]) -> Vec<String> {
    lines
        .iter()
        .map(|l| l.iter().map(|s| s.content.as_str()).collect())
        .collect()
}

#[test]
fn wraps_at_word_boundaries_and_trims() {
    let pieces = [Piece::text("the quick brown fox jumps over the lazy dog", Style::new())];
    assert_eq!(
        plain(&wrap(&pieces, 10)),
        ["the quick", "brown fox", "jumps over", "the lazy", "dog"]
    );
}

#[test]
fn style_changes_mid_word_do_not_break() {
    let pieces = [
        Piece::text("ab", Style::new()),
        Piece::text("cd ef", Style::new().bold()),
    ];
    assert_eq!(plain(&wrap(&pieces, 4)), ["abcd", "ef"]);
}

#[test]
fn long_words_are_hard_split_and_breaks_respected() {
    let pieces = [
        Piece::text("abcdefghij", Style::new()),
        Piece::Break,
        Piece::text("x", Style::new()),
    ];
    assert_eq!(plain(&wrap(&pieces, 4)), ["abcd", "efgh", "ij", "x"]);
}

#[test]
fn glued_fragments_move_to_the_next_line_together() {
    let pieces = [
        Piece::text("see the ", Style::new()),
        Piece::text("link", Style::new().bold()),
        Piece::text(" ", Style::new()),
        Piece::text("(https://x.y)", Style::new().dim()),
        Piece::text(".", Style::new()),
    ];
    assert_eq!(plain(&wrap(&pieces, 20)), ["see the link", "(https://x.y)."]);
}

#[test]
fn atomic_pieces_keep_inner_spaces() {
    let pieces = [
        Piece::text("see", Style::new()),
        Piece::text(" ", Style::new()),
        Piece::atomic(" a b ", Style::new()),
    ];
    assert_eq!(plain(&wrap(&pieces, 6)), ["see", " a b "]);
}

#[test]
fn wide_characters_count_double() {
    let pieces = [Piece::text("日本語 テキスト", Style::new())];
    assert_eq!(plain(&wrap(&pieces, 8)), ["日本語", "テキスト"]);
}

#[test]
fn neighbouring_spans_of_one_style_are_joined() {
    let bold = Style::new().bold();
    let pieces = [Piece::text("ab ", bold), Piece::text("cd", bold), Piece::text("e", Style::new())];
    let lines = wrap(&pieces, 80);
    assert_eq!(lines.len(), 1);
    assert_eq!(lines[0].len(), 2);
    assert_eq!(lines[0][0].content, "ab cd");
    assert_eq!(lines[0][0].style, bold);
    assert_eq!(lines[0][1].content, "e");
}

#[test]
fn spaces_with_a_background_stay_at_the_line_end() {
    let band = Style::new().bg(Color::Blue);
    let pieces = [Piece::text("ab", Style::new()), Piece::text("  ", band)];
    let lines = wrap(&pieces, 80);
    assert_eq!(plain(&lines), ["ab  "]);
    let pieces = [Piece::text("ab", Style::new()), Piece::text("  ", Style::new())];
    assert_eq!(plain(&wrap(&pieces, 80)), ["ab"]);
}

#[test]
fn zero_width_wraps_like_one_and_empty_input_gives_no_lines() {
    let pieces = [Piece::text("abc", Style::new())];
    assert_eq!(plain(&wrap(&pieces, 0)), ["a", "b", "c"]);
    assert!(wrap(&[], 10).is_empty());
    assert_eq!(plain(&wrap(&[Piece::Break], 10)), [""]);
}

#[test]
fn widths_count_columns() {
    assert_eq!(width("abc"), 3);
    assert_eq!(width("日本"), 4);
    assert_eq!(width(""), 0);
}

#[test]
fn wrapping_keeps_every_non_space_character_in_order() {
    let pieces = [
        Piece::text("alpha  beta\tgamma ", Style::new()),
        Piece::atomic("[del ta]", Style::new()),
        Piece::Break,
        Piece::text("supercalifragilistic end", Style::new().bold()),
    ];
    let ink = |s: &str| s.chars().filter(|c| !c.is_whitespace()).collect::<String>();
    let input: String = ["alpha  beta\tgamma ", "[del ta]", "supercalifragilistic end"].concat();
    for width in [0, 1, 3, 7, 12, 80] {
        let out: String = plain(&wrap(&pieces, width)).concat();
        assert_eq!(ink(&out), ink(&input), "width {width}");
    }
}

#[test]
fn a_break_ends_the_lines_before_it_and_what_follows_wraps_alone() {
    let s = Style::new();
    let before = [Piece::text("one two three", s)];
    let after = [Piece::text("four five", s)];
    let mut all: Vec<Piece> = before.to_vec();
    all.push(Piece::Break);
    all.extend(after.iter().cloned());
    let whole = plain(&wrap(&all, 8));
    assert_eq!(whole, ["one two", "three", "four", "five"]);
    let mut expected = plain(&wrap(&before, 8));
    expected.extend(plain(&wrap(&after, 8)));
    assert_eq!(whole, expected);
}
