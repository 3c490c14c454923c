//! The viewer's reading position and what follows from it: scrolling, the heading being read,
//! stepping through search matches, and whether the outline shows.
use vstd::prelude::*;

use crate::app::search::Match;
use crate::render::layout::Heading;

verus! {

/// The outline shows on its own in windows at least this wide.
pub const SIDEBAR_AUTO_MIN: u16 = 100;

/// The outline shows when asked for in windows at least this wide.
pub const SIDEBAR_FORCED_MIN: u16 = 60;

pub open spec fn max_scroll_spec(lines: usize, view_height: usize) -> int {
    if lines >= view_height {
        lines - view_height
    } else {
        0
    }
}

/// The furthest the text scrolls: the lines beyond one screen.
pub fn max_scroll(lines: usize, view_height: usize) -> (r: usize)
    ensures
        r == max_scroll_spec(lines, view_height),
{
    lines.saturating_sub(view_height)
}

/// `scroll` moved by `delta` lines, kept between the top and the furthest scroll.
pub fn scroll_by(scroll: usize, delta: isize, lines: usize, view_height: usize) -> (r: usize)
    ensures
        r == ({
            let moved = scroll + delta;
            let s: int = if moved < 0 {
                0
            } else if moved > usize::MAX {
                usize::MAX as int
            } else {
                moved
            };
            if s <= max_scroll_spec(lines, view_height) {
                s
            } else {
                max_scroll_spec(lines, view_height)
            }
        }),
{
    let moved: usize = if delta >= 0 {
        scroll.saturating_add(delta as usize)
    } else {
        let back: usize = ((-(delta + 1)) as usize) + 1;
        scroll.saturating_sub(back)
    };
    let top = max_scroll(lines, view_height);
    if moved <= top {
        moved
    } else {
        top
    }
}

/// The scroll that shows `line` a third of the way down the screen, as far as the text
/// scrolls.
pub fn scroll_to(line: usize, lines: usize, view_height: usize) -> (r: usize)
    ensures
        r == ({
            let s: int = if line >= view_height / 3 {
                line - view_height / 3
            } else {
                0
            };
            if s <= max_scroll_spec(lines, view_height) {
                s
            } else {
                max_scroll_spec(lines, view_height)
            }
        }),
{
    let s = line.saturating_sub(view_height / 3);
    let top = max_scroll(lines, view_height);
    if s <= top {
        s
    } else {
        top
    }
}

/// The last of the first `n` headings that starts before line `cutoff`.
pub open spec fn last_heading_before(hs: Seq<Heading>, cutoff: int, n: int) -> Option<int>
    decreases n,
{
    if n <= 0 {
        None
    } else if hs[n - 1].line < cutoff {
        Some(n - 1)
    } else {
        last_heading_before(hs, cutoff, n - 1)
    }
}

/// The heading being read: the last one that starts at or above the top line of the screen
/// (the line after it, so a heading on the top line counts), or the last one of all when the
/// text is scrolled to its end.
pub fn active_heading(headings: &Vec<Heading>, scroll: usize, lines: usize, view_height: usize) -> (r: Option<usize>)
    ensures
        r == match last_heading_before(
            headings@,
            if scroll >= max_scroll_spec(lines, view_height) {
                lines as int
            } else {
                scroll + 1
            },
            headings@.len() as int,
        ) {
            Some(i) => Some(i as usize),
            None => None::<usize>,
        },
{
    let ghost cutoff: int = if scroll >= max_scroll_spec(lines, view_height) {
        lines as int
    } else {
        scroll + 1
    };
    let at_end = scroll >= max_scroll(lines, view_height);
    let mut i: usize = headings.len();
    while i > 0
        invariant
            i <= headings@.len(),
            at_end == (scroll >= max_scroll_spec(lines, view_height)),
            cutoff == (if at_end {
                lines as int
            } else {
                scroll + 1
            }),
            last_heading_before(headings@, cutoff, headings@.len() as int) == last_heading_before(
                headings@,
                cutoff,
                i as int,
            ),
        decreases i,
    {
        let line = headings[i - 1].line;
        let before = if at_end {
            line < lines
        } else {
            line <= scroll
        };
        if before {
            return Some(i - 1);
        }
        i = i - 1;
    }
    None
}

/// Whether the outline shows in a window `body_width` wide: never when turned off, from
/// `SIDEBAR_FORCED_MIN` columns when turned on, else from `SIDEBAR_AUTO_MIN`.
pub fn sidebar_visible(sidebar: Option<bool>, body_width: u16) -> (r: bool)
    ensures
        r == match sidebar {
            Some(false) => false,
            Some(true) => body_width >= SIDEBAR_FORCED_MIN,
            None => body_width >= SIDEBAR_AUTO_MIN,
        },
{
    match sidebar {
        Some(false) => false,
        Some(true) => body_width >= SIDEBAR_FORCED_MIN,
        None => body_width >= SIDEBAR_AUTO_MIN,
    }
}

/// `(i + delta)` wrapped around `0..len`.
pub open spec fn wrap_index(i: int, delta: int, len: int) -> int {
    (i + delta) % len
}

/// The match after stepping `delta` matches from the current one (round the list), the
/// first when none is current; nothing changes without matches.
pub fn step_match(current: Option<usize>, len: usize, delta: isize) -> (r: Option<usize>)
    requires
        len <= isize::MAX,
        current matches Some(i) ==> i < len,
    ensures
        len == 0 ==> r == current,
        len > 0 ==> r == Some(
            match current {
                Some(i) => wrap_index(i as int, delta as int, len as int) as usize,
                None => 0usize,
            },
        ),
{
    if len == 0 {
        return current;
    }
    let next: usize = match current {
        Some(i) => if delta >= 0 {
            let step = (delta as usize) % len;
            proof {
                vstd::arithmetic::div_mod::lemma_add_mod_noop_right(i as int, delta as int, len as int);
            }
            (i + step) % len
        } else {
            let back: usize = ((-(delta + 1)) as usize) + 1;
            let r = back % len;
            proof {
                vstd::arithmetic::div_mod::lemma_mod_add_multiples_vanish(i - r, len as int);
                vstd::arithmetic::div_mod::lemma_sub_mod_noop_right(i as int, back as int, len as int);
                assert(back as int == -(delta as int));
            }
            (i + len - r) % len
        },
        None => 0,
    };
    Some(next)
}

/// The first match on or after line `origin`, else the first match, else none.
pub fn first_match_from(matches: &Vec<Match>, origin: usize) -> (r: Option<usize>)
    ensures
        r matches Some(i) ==> i < matches@.len(),
        r matches Some(i) ==> (matches@[i as int].line >= origin && forall|j: int|
            0 <= j < i ==> matches@[j].line < origin) || (i == 0 && forall|j: int|
            0 <= j < matches@.len() ==> matches@[j].line < origin),
        r is None <==> matches@.len() == 0,
{
    let mut i: usize = 0;
    while i < matches.len()
        invariant
            i <= matches.len(),
            forall|j: int| 0 <= j < i ==> matches@[j].line < origin,
        decreases matches.len() - i,
    {
        if matches[i].line >= origin {
            return Some(i);
        }
        i = i + 1;
    }
    if matches.len() == 0 {
        None
    } else {
        Some(0)
    }
}

} // verus!
