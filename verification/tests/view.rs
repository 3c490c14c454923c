use mido::app::search::Match;
use mido::app::view::{
    active_heading, first_match_from, max_scroll, scroll_by, scroll_to, sidebar_visible, step_match,
};
use mido::render::layout::Heading;

fn heading(line: usize) -> Heading {
    Heading { level: 2, text: "h".into(), line, slug: "h".into() }
}

fn hit(line: usize) -> Match {
    Match { line, start: 0, end: 1 }
}

#[test]
fn scrolling_stays_inside_the_text() {
    assert_eq!(max_scroll(100, 20), 80);
    assert_eq!(max_scroll(10, 20), 0);
    assert_eq!(scroll_by(5, -10, 100, 20), 0);
    assert_eq!(scroll_by(5, 10, 100, 20), 15);
    assert_eq!(scroll_by(75, 10, 100, 20), 80);
    assert_eq!(scroll_by(0, isize::MIN, 100, 20), 0);
    assert_eq!(scroll_to(30, 100, 21), 23);
    assert_eq!(scroll_to(3, 100, 21), 0);
    assert_eq!(scroll_to(99, 100, 21), 79);
}

#[test]
fn the_heading_being_read_is_the_last_one_above() {
    let hs = vec![heading(0), heading(10), heading(50)];
    assert_eq!(active_heading(&hs, 0, 100, 20), Some(0));
    assert_eq!(active_heading(&hs, 10, 100, 20), Some(1));
    assert_eq!(active_heading(&hs, 49, 100, 20), Some(1));
    assert_eq!(active_heading(&hs, 80, 100, 20), Some(2));
    assert_eq!(active_heading(&vec![heading(5)], 0, 100, 20), None);
}

#[test]
fn the_outline_shows_by_width_unless_turned_off() {
    assert!(sidebar_visible(None, 100) && !sidebar_visible(None, 99));
    assert!(sidebar_visible(Some(true), 60) && !sidebar_visible(Some(true), 59));
    assert!(!sidebar_visible(Some(false), 200));
}

#[test]
fn matches_step_round_the_list() {
    assert_eq!(step_match(Some(2), 3, 1), Some(0));
    assert_eq!(step_match(Some(0), 3, -1), Some(2));
    assert_eq!(step_match(Some(1), 3, -7), Some(0));
    assert_eq!(step_match(None, 3, -1), Some(0));
    assert_eq!(step_match(None, 0, 1), None);
    let ms = vec![hit(2), hit(8), hit(9)];
    assert_eq!(first_match_from(&ms, 5), Some(1));
    assert_eq!(first_match_from(&ms, 10), Some(0));
    assert_eq!(first_match_from(&vec![], 0), None);
}
