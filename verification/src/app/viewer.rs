//! The viewer's answer to a key: which mode it is in (reading, help, contents, search),
//! which pane has the keys, the scroll, the search and its matches, and what the program
//! around it must do next (read the file again, or let the outline panel take the key).
use vstd::prelude::*;

use crate::app::keys::KeyCode;
use crate::app::search::{find, find_spec, layout_texts, Match};
use crate::app::view::{active_heading, first_match_from, last_heading_before, max_scroll, max_scroll_spec, scroll_by, scroll_to, wrap_index};
use crate::render::layout::Layout;
use crate::text::{chars_of, string_of};

verus! {

/// What the keys do: read, show the help, pick from the contents, or type a search.
#[derive(Debug, Clone, Copy, PartialEq, Eq, Structural)]
pub enum Mode {
    View,
    Help,
    Toc,
    Search,
}

/// The pane that has the keys.
#[derive(Debug, Clone, Copy, PartialEq, Eq, Structural)]
pub enum Focus {
    Content,
    Sidebar,
}

/// What the program around the viewer does after a key.
#[derive(Debug, Clone, Copy, PartialEq, Eq, Structural)]
pub enum Effect {
    /// Nothing more.
    Nothing,
    /// Read the document again and lay it out.
    Reload,
    /// The outline took the keys: it selects the row of the heading being read when no row
    /// is selected.
    FocusSidebar,
    /// The key goes to the outline panel.
    OutlineKey,
}

/// The viewer: the laid-out document and the screen height (fixed while keys come), whether
/// the outline panel is on screen, and the state the keys change.
pub struct Viewer {
    pub layout: Layout,
    pub view_height: usize,
    pub sidebar_shown: bool,
    pub scroll: usize,
    pub mode: Mode,
    pub focus: Focus,
    pub sidebar: Option<bool>,
    pub query: Vec<char>,
    pub search_origin: usize,
    pub matches: Vec<Match>,
    pub current: Option<usize>,
    pub toc: Option<usize>,
    /// The pane `Tab` left, while an arrow right after it still picks the pane.
    pub tab_chord: Option<Focus>,
    pub notice: Option<String>,
    pub quit: bool,
}

/// The state the keys change, as plain values.
pub struct ViewerView {
    pub scroll: usize,
    pub mode: Mode,
    pub focus: Focus,
    pub sidebar: Option<bool>,
    pub query: Seq<char>,
    pub search_origin: usize,
    pub matches: Seq<Match>,
    pub current: Option<usize>,
    pub toc: Option<usize>,
    pub tab_chord: Option<Focus>,
    pub notice: Option<Seq<char>>,
    pub quit: bool,
}

/// What the keys see of the document and screen.
pub struct Screen {
    pub layout: Layout,
    pub view_height: usize,
    pub sidebar_shown: bool,
}

pub open spec fn line_count(s: Screen) -> usize {
    s.layout.lines@.len() as usize
}

/// `scroll_by`'s answer.
pub open spec fn scrolled(scroll: usize, delta: int, s: Screen) -> usize {
    let moved = scroll + delta;
    let t: int = if moved < 0 {
        0
    } else if moved > usize::MAX {
        usize::MAX as int
    } else {
        moved
    };
    (if t <= max_scroll_spec(line_count(s), s.view_height) {
        t
    } else {
        max_scroll_spec(line_count(s), s.view_height)
    }) as usize
}

/// `scroll_to`'s answer.
pub open spec fn scrolled_to(line: usize, s: Screen) -> usize {
    let t: int = if line >= s.view_height / 3 {
        line - s.view_height / 3
    } else {
        0
    };
    (if t <= max_scroll_spec(line_count(s), s.view_height) {
        t
    } else {
        max_scroll_spec(line_count(s), s.view_height)
    }) as usize
}

/// A page: the screen height, at least one line.
pub open spec fn page(s: Screen) -> int {
    if s.view_height >= 1 {
        s.view_height as int
    } else {
        1
    }
}

pub open spec fn scroll_s(v: ViewerView, delta: int, s: Screen) -> ViewerView {
    ViewerView { scroll: scrolled(v.scroll, delta, s), ..v }
}

/// The search gone: no query, no matches.
pub open spec fn cleared(v: ViewerView) -> ViewerView {
    ViewerView { query: seq![], matches: seq![], current: None, ..v }
}

/// The pane `f` given the keys; the outline only when it is on screen.
pub open spec fn set_focus_s(v: ViewerView, f: Focus, s: Screen) -> (ViewerView, Effect) {
    if f == Focus::Sidebar && s.sidebar_shown {
        (ViewerView { focus: Focus::Sidebar, ..v }, Effect::FocusSidebar)
    } else {
        (ViewerView { focus: Focus::Content, ..v }, Effect::Nothing)
    }
}

/// `Tab` and `Shift-Tab`: the keys go round the panes on screen (the document, then the
/// outline when it shows), remembering the pane they left.
pub open spec fn cycle_s(v: ViewerView, s: Screen) -> (ViewerView, Effect) {
    if !s.sidebar_shown {
        (ViewerView { notice: Some("no other pane"@), ..v }, Effect::Nothing)
    } else {
        let next = if v.focus == Focus::Sidebar { Focus::Content } else { Focus::Sidebar };
        let (w, e) = set_focus_s(v, next, s);
        (ViewerView { tab_chord: Some(v.focus), ..w }, e)
    }
}

/// An arrow right after `Tab`: right goes from the document to the outline, left back.
pub open spec fn direction_s(v: ViewerView, from: Focus, code: KeyCode, s: Screen) -> (ViewerView, Effect) {
    let target = if from == Focus::Content && code == KeyCode::Right {
        Focus::Sidebar
    } else if from == Focus::Sidebar && code == KeyCode::Left {
        Focus::Content
    } else {
        from
    };
    set_focus_s(v, target, s)
}

/// The first match on or after line `origin`, else the first match, else none.
pub open spec fn first_at_or_after(ms: Seq<Match>, origin: usize) -> Option<usize> {
    if ms.len() == 0 {
        None
    } else if exists|i: int| 0 <= i < ms.len() && ms[i].line >= origin {
        Some((choose|i: int| 0 <= i < ms.len() && ms[i].line >= origin && forall|j: int| 0 <= j < i ==> ms[j].line < origin) as usize)
    } else {
        Some(0usize)
    }
}

proof fn lemma_first_at_or_after(ms: Seq<Match>, origin: usize, k: usize)
    requires
        k < ms.len(),
        (ms[k as int].line >= origin && forall|j: int| 0 <= j < k ==> ms[j].line < origin) || (k == 0 && forall|j: int|
            0 <= j < ms.len() ==> ms[j].line < origin),
    ensures
        first_at_or_after(ms, origin) == Some(k),
{
    if exists|i: int| 0 <= i < ms.len() && ms[i].line >= origin {
        let w = choose|i: int| 0 <= i < ms.len() && ms[i].line >= origin;
        assert(ms[k as int].line >= origin) by {
            if !(ms[k as int].line >= origin) {
                assert(ms[w].line < origin);
            }
        }
        assert(exists|i: int| 0 <= i < ms.len() && ms[i].line >= origin && forall|j: int| 0 <= j < i ==> ms[j].line < origin) by {
            assert(0 <= k < ms.len() && ms[k as int].line >= origin && forall|j: int| 0 <= j < k ==> ms[j].line < origin);
        }
        let c = choose|i: int| 0 <= i < ms.len() && ms[i].line >= origin && forall|j: int| 0 <= j < i ==> ms[j].line < origin;
        if c < k {
            assert(ms[c].line < origin);
        }
        if k < c {
            assert(ms[k as int].line < origin);
        }
    }
}

/// The matches of the query (none for an empty one), the first on or after where the search
/// began made current and scrolled to, else the scroll put back.
pub open spec fn update_search_s(v: ViewerView, s: Screen) -> ViewerView {
    let ms = if v.query.len() == 0 {
        seq![]
    } else {
        find_spec(layout_texts(s.layout.lines@), v.query, s.layout.lines@.len() as int)
    };
    let cur = first_at_or_after(ms, v.search_origin);
    ViewerView {
        matches: ms,
        current: cur,
        scroll: match cur {
            Some(i) => scrolled_to(ms[i as int].line, s),
            None => v.search_origin,
        },
        ..v
    }
}

/// `n` and `N`: the next or previous match round the list, scrolled to.
pub open spec fn step_s(v: ViewerView, delta: int, s: Screen) -> ViewerView {
    if v.matches.len() == 0 {
        v
    } else {
        let next: usize = match v.current {
            Some(i) => wrap_index(i as int, delta, v.matches.len() as int) as usize,
            None => 0,
        };
        ViewerView { current: Some(next), scroll: scrolled_to(v.matches[next as int].line, s), ..v }
    }
}

/// The heading being read.
pub open spec fn active_s(v: ViewerView, s: Screen) -> Option<int> {
    last_heading_before(
        s.layout.headings@,
        if v.scroll >= max_scroll_spec(line_count(s), s.view_height) {
            line_count(s) as int
        } else {
            v.scroll + 1
        },
        s.layout.headings@.len() as int,
    )
}

/// The keys while reading.
pub open spec fn view_key_s(v: ViewerView, code: KeyCode, ctrl: bool, s: Screen) -> (ViewerView, Effect) {
    let p = page(s);
    let half = p / 2;
    match code {
        KeyCode::Char('q') => (ViewerView { quit: true, ..v }, Effect::Nothing),
        KeyCode::Esc => if v.query.len() > 0 {
            (cleared(v), Effect::Nothing)
        } else {
            (ViewerView { quit: true, ..v }, Effect::Nothing)
        },
        KeyCode::Char('j') | KeyCode::Down | KeyCode::Enter => (scroll_s(v, 1, s), Effect::Nothing),
        KeyCode::Char('k') | KeyCode::Up => (scroll_s(v, -1, s), Effect::Nothing),
        KeyCode::Char('d') if ctrl => (scroll_s(v, half, s), Effect::Nothing),
        KeyCode::Char('u') if ctrl => (scroll_s(v, -half, s), Effect::Nothing),
        KeyCode::Char('f') if ctrl => (scroll_s(v, p, s), Effect::Nothing),
        KeyCode::Char('b') if ctrl => (scroll_s(v, -p, s), Effect::Nothing),
        KeyCode::PageDown | KeyCode::Char(' ') => (scroll_s(v, p, s), Effect::Nothing),
        KeyCode::PageUp => (scroll_s(v, -p, s), Effect::Nothing),
        KeyCode::Char('g') | KeyCode::Home => (ViewerView { scroll: 0, ..v }, Effect::Nothing),
        KeyCode::Char('G') | KeyCode::End => (
            ViewerView { scroll: max_scroll_spec(line_count(s), s.view_height) as usize, ..v },
            Effect::Nothing,
        ),
        KeyCode::Char('b') => if s.sidebar_shown {
            (ViewerView { sidebar: Some(false), focus: Focus::Content, ..v }, Effect::Nothing)
        } else if s.layout.headings@.len() == 0 {
            (ViewerView { sidebar: Some(true), notice: Some("no headings to outline"@), ..v }, Effect::Nothing)
        } else {
            (ViewerView { sidebar: Some(true), ..v }, Effect::Nothing)
        },
        KeyCode::Char('h') if s.sidebar_shown => (ViewerView { focus: Focus::Sidebar, ..v }, Effect::FocusSidebar),
        KeyCode::Char('/') => (
            ViewerView { mode: Mode::Search, search_origin: v.scroll, ..cleared(v) },
            Effect::Nothing,
        ),
        KeyCode::Char('n') => (step_s(v, 1, s), Effect::Nothing),
        KeyCode::Char('N') => (step_s(v, -1, s), Effect::Nothing),
        KeyCode::Char('t') => if s.layout.headings@.len() == 0 {
            (ViewerView { notice: Some("no headings"@), ..v }, Effect::Nothing)
        } else {
            (
                ViewerView {
                    toc: Some(
                        match active_s(v, s) {
                            Some(i) => i as usize,
                            None => 0,
                        },
                    ),
                    mode: Mode::Toc,
                    ..v
                },
                Effect::Nothing,
            )
        },
        KeyCode::Char('r') => (v, Effect::Reload),
        KeyCode::Char('?') => (ViewerView { mode: Mode::Help, ..v }, Effect::Nothing),
        _ => (v, Effect::Nothing),
    }
}

/// The keys of the contents list.
pub open spec fn toc_key_s(v: ViewerView, code: KeyCode, s: Screen) -> ViewerView {
    let count = s.layout.headings@.len();
    let sel: int = match v.toc {
        Some(t) => t as int,
        None => 0,
    };
    match code {
        KeyCode::Char('q') | KeyCode::Esc | KeyCode::Char('t') => ViewerView { mode: Mode::View, ..v },
        KeyCode::Char('j') | KeyCode::Down => ViewerView {
            toc: Some((if sel + 1 <= count - 1 { sel + 1 } else { count - 1 }) as usize),
            ..v
        },
        KeyCode::Char('k') | KeyCode::Up => ViewerView {
            toc: Some((if sel >= 1 { sel - 1 } else { 0 }) as usize),
            ..v
        },
        KeyCode::Char('g') | KeyCode::Home => ViewerView { toc: Some(0), ..v },
        KeyCode::Char('G') | KeyCode::End => ViewerView { toc: Some((count - 1) as usize), ..v },
        KeyCode::Enter => {
            let line = s.layout.headings@[sel].line;
            let top = max_scroll_spec(line_count(s), s.view_height);
            ViewerView { scroll: (if line <= top { line as int } else { top }) as usize, mode: Mode::View, ..v }
        },
        _ => v,
    }
}

/// The keys while typing a search.
pub open spec fn search_key_s(v: ViewerView, code: KeyCode, ctrl: bool, s: Screen) -> ViewerView {
    match code {
        KeyCode::Esc => ViewerView { scroll: v.search_origin, mode: Mode::View, ..cleared(v) },
        KeyCode::Enter => if v.query.len() > 0 && v.matches.len() == 0 {
            ViewerView { mode: Mode::View, notice: Some("no matches"@), ..v }
        } else {
            ViewerView { mode: Mode::View, ..v }
        },
        KeyCode::Backspace => update_search_s(
            ViewerView { query: if v.query.len() > 0 { v.query.drop_last() } else { v.query }, ..v },
            s,
        ),
        KeyCode::Char(c) if !ctrl => update_search_s(ViewerView { query: v.query.push(c), ..v }, s),
        _ => v,
    }
}

/// A key: `Ctrl-C` quits from anywhere; `Tab` and `Shift-Tab` go round the panes, and an
/// arrow right after `Tab` picks one; then the keys of the pane or mode.
pub open spec fn key_s(v: ViewerView, code: KeyCode, ctrl: bool, s: Screen) -> (ViewerView, Effect) {
    let v = ViewerView { notice: None, ..v };
    if ctrl && code == KeyCode::Char('c') {
        (ViewerView { quit: true, ..v }, Effect::Nothing)
    } else {
        let chord = v.tab_chord;
        let v = ViewerView { tab_chord: None, ..v };
        match v.mode {
            Mode::View => if code == KeyCode::Tab || code == KeyCode::BackTab {
                cycle_s(v, s)
            } else if (code == KeyCode::Left || code == KeyCode::Right) && chord is Some {
                direction_s(v, chord->0, code, s)
            } else if v.focus == Focus::Sidebar {
                (v, Effect::OutlineKey)
            } else {
                view_key_s(v, code, ctrl, s)
            },
            Mode::Help => (ViewerView { mode: Mode::View, ..v }, Effect::Nothing),
            Mode::Toc => (toc_key_s(v, code, s), Effect::Nothing),
            Mode::Search => (search_key_s(v, code, ctrl, s), Effect::Nothing),
        }
    }
}

pub open spec fn opt_text(o: Option<String>) -> Option<Seq<char>> {
    match o {
        Some(s) => Some(s@),
        None => None,
    }
}

/// The reading position stays on the text: when the scroll and the place a search began
/// are within the furthest scroll, they still are after any key.
pub proof fn law_keys_keep_the_scroll_on_the_text(v: ViewerView, code: KeyCode, ctrl: bool, s: Screen)
    requires
        v.scroll <= max_scroll_spec(line_count(s), s.view_height),
        v.search_origin <= max_scroll_spec(line_count(s), s.view_height),
        v.toc matches Some(t) ==> t < s.layout.headings@.len(),
    ensures
        key_s(v, code, ctrl, s).0.scroll <= max_scroll_spec(line_count(s), s.view_height),
        key_s(v, code, ctrl, s).0.search_origin <= max_scroll_spec(line_count(s), s.view_height),
{
}

/// Half a page: `Ctrl-u` goes up half the screen height and stops at the top, `Ctrl-d` goes
/// down as far and stops at the furthest scroll; `Ctrl-u` never moves down and `Ctrl-d`
/// never up.
pub proof fn law_half_pages_go_up_and_down(v: ViewerView, s: Screen)
    requires
        v.mode == Mode::View,
        v.focus == Focus::Content,
        v.scroll <= max_scroll_spec(line_count(s), s.view_height),
    ensures
        ({
            let half: int = (if s.view_height >= 1 { s.view_height as int } else { 1 }) / 2;
            let top = max_scroll_spec(line_count(s), s.view_height);
            let up = key_s(v, KeyCode::Char('u'), true, s).0.scroll;
            let down = key_s(v, KeyCode::Char('d'), true, s).0.scroll;
            &&& up == (if v.scroll >= half { v.scroll - half } else { 0 })
            &&& down == (if v.scroll + half <= top { v.scroll + half } else { top })
            &&& up <= v.scroll <= down
        }),
{
}

/// `to` moved by `delta` lines, kept between the top and `top`.
pub open spec fn within(to: int, top: int) -> int {
    if to < 0 {
        0
    } else if to > top {
        top
    } else {
        to
    }
}

/// The reading keys move the text as they say: `j`, `Down` and `Enter` one line down, `k`
/// and `Up` one line up, `Ctrl-f`, `PageDown` and `Space` a screen down, `Ctrl-b` and
/// `PageUp` a screen up, `g` and `Home` to the top, `G` and `End` to the furthest scroll;
/// never above the top or past the furthest scroll.
pub proof fn law_reading_keys_move_as_they_say(v: ViewerView, s: Screen)
    requires
        v.mode == Mode::View,
        v.focus == Focus::Content,
        v.scroll <= max_scroll_spec(line_count(s), s.view_height),
    ensures
        ({
            let p: int = if s.view_height >= 1 { s.view_height as int } else { 1 };
            let top = max_scroll_spec(line_count(s), s.view_height);
            let at = |code: KeyCode, ctrl: bool| key_s(v, code, ctrl, s).0.scroll as int;
            &&& at(KeyCode::Char('j'), false) == within(v.scroll + 1, top)
            &&& at(KeyCode::Down, false) == within(v.scroll + 1, top)
            &&& at(KeyCode::Enter, false) == within(v.scroll + 1, top)
            &&& at(KeyCode::Char('k'), false) == within(v.scroll - 1, top)
            &&& at(KeyCode::Up, false) == within(v.scroll - 1, top)
            &&& at(KeyCode::Char('f'), true) == within(v.scroll + p, top)
            &&& at(KeyCode::PageDown, false) == within(v.scroll + p, top)
            &&& at(KeyCode::Char(' '), false) == within(v.scroll + p, top)
            &&& at(KeyCode::Char('b'), true) == within(v.scroll - p, top)
            &&& at(KeyCode::PageUp, false) == within(v.scroll - p, top)
            &&& at(KeyCode::Char('g'), false) == 0
            &&& at(KeyCode::Home, false) == 0
            &&& at(KeyCode::Char('G'), false) == top
            &&& at(KeyCode::End, false) == top
        }),
{
}

/// The state after typing `cs`, one key at a time.
pub open spec fn typed(v: ViewerView, cs: Seq<char>, s: Screen) -> ViewerView
    decreases cs.len(),
{
    if cs.len() == 0 {
        v
    } else {
        key_s(typed(v, cs.drop_last(), s), KeyCode::Char(cs.last()), false, s).0
    }
}

proof fn lemma_typing_stays_in_search(v: ViewerView, cs: Seq<char>, s: Screen)
    requires
        v.mode == Mode::Search,
    ensures
        typed(v, cs, s).mode == Mode::Search,
        typed(v, cs, s).search_origin == v.search_origin,
    decreases cs.len(),
{
    if cs.len() > 0 {
        lemma_typing_stays_in_search(v, cs.drop_last(), s);
    }
}

/// A search given up goes back: `/`, any text typed, then `Esc` leaves the reading position
/// where it was, with no query and no matches.
pub proof fn law_cancelled_search_goes_back(v: ViewerView, cs: Seq<char>, s: Screen)
    requires
        v.mode == Mode::View,
        v.focus == Focus::Content,
    ensures
        ({
            let w = typed(key_s(v, KeyCode::Char('/'), false, s).0, cs, s);
            let x = key_s(w, KeyCode::Esc, false, s).0;
            &&& x.scroll == v.scroll
            &&& x.mode == Mode::View
            &&& x.query.len() == 0
            &&& x.matches.len() == 0
        }),
{
    let u = key_s(v, KeyCode::Char('/'), false, s).0;
    assert(u.mode == Mode::Search && u.search_origin == v.scroll);
    lemma_typing_stays_in_search(u, cs, s);
}

impl Viewer {
    pub open spec fn state(&self) -> ViewerView {
        ViewerView {
            scroll: self.scroll,
            mode: self.mode,
            focus: self.focus,
            sidebar: self.sidebar,
            query: self.query@,
            search_origin: self.search_origin,
            matches: self.matches@,
            current: self.current,
            toc: self.toc,
            tab_chord: self.tab_chord,
            notice: opt_text(self.notice),
            quit: self.quit,
        }
    }

    pub open spec fn screen(&self) -> Screen {
        Screen { layout: self.layout, view_height: self.view_height, sidebar_shown: self.sidebar_shown }
    }

    /// The current match is one of the matches, the contents list is open only over
    /// headings and its selection is one of them, and the counts fit the machine's signed
    /// integers.
    pub open spec fn wf(&self) -> bool {
        &&& self.current matches Some(i) ==> i < self.matches@.len()
        &&& self.view_height <= isize::MAX
        &&& self.mode == Mode::Toc ==> self.layout.headings@.len() > 0
        &&& self.toc matches Some(t) ==> t < self.layout.headings@.len()
    }
}

proof fn lemma_last_heading_in_range(hs: Seq<crate::render::layout::Heading>, cutoff: int, n: int)
    requires
        n <= hs.len(),
    ensures
        last_heading_before(hs, cutoff, n) matches Some(i) ==> 0 <= i < n,
    decreases n,
{
    if n > 0 {
        lemma_last_heading_in_range(hs, cutoff, n - 1);
    }
}

fn text_of(s: &str) -> (r: Option<String>)
    ensures
        opt_text(r) == Some(s@),
{
    Some(string_of(&chars_of(s)))
}

impl Viewer {
    fn set_focus(&mut self, f: Focus) -> (r: Effect)
        requires
            old(self).wf(),
        ensures
            final(self).wf(),
            final(self).screen() == old(self).screen(),
            (final(self).state(), r) == set_focus_s(old(self).state(), f, old(self).screen()),
    {
        if f == Focus::Sidebar && self.sidebar_shown {
            self.focus = Focus::Sidebar;
            Effect::FocusSidebar
        } else {
            self.focus = Focus::Content;
            Effect::Nothing
        }
    }

    fn cycle(&mut self) -> (r: Effect)
        requires
            old(self).wf(),
        ensures
            final(self).wf(),
            final(self).screen() == old(self).screen(),
            (final(self).state(), r) == cycle_s(old(self).state(), old(self).screen()),
    {
        if !self.sidebar_shown {
            self.notice = text_of("no other pane");
            return Effect::Nothing;
        }
        let from = self.focus;
        let next = if from == Focus::Sidebar {
            Focus::Content
        } else {
            Focus::Sidebar
        };
        let e = self.set_focus(next);
        self.tab_chord = Some(from);
        e
    }

    fn scroll_lines(&mut self, delta: isize)
        requires
            old(self).wf(),
        ensures
            final(self).wf(),
            final(self).screen() == old(self).screen(),
            final(self).state() == scroll_s(old(self).state(), delta as int, old(self).screen()),
    {
        self.scroll = scroll_by(self.scroll, delta, self.layout.lines.len(), self.view_height);
    }

    fn clear_search(&mut self)
        requires
            old(self).wf(),
        ensures
            final(self).wf(),
            final(self).screen() == old(self).screen(),
            final(self).state() == cleared(old(self).state()),
    {
        self.query = Vec::new();
        self.matches = Vec::new();
        self.current = None;
        assert(self.state() =~~= cleared(old(self).state()));
    }

    fn step(&mut self, forward: bool)
        requires
            old(self).wf(),
        ensures
            final(self).wf(),
            final(self).screen() == old(self).screen(),
            final(self).state() == step_s(old(self).state(), if forward { 1 } else { -1 }, old(self).screen()),
    {
        let len = self.matches.len();
        if len == 0 {
            return;
        }
        let next: usize = match self.current {
            Some(i) => if forward {
                (i + 1) % len
            } else {
                proof {
                    if i == 0 {
                        vstd::arithmetic::div_mod::lemma_mod_add_multiples_vanish(-1, len as int);
                        vstd::arithmetic::div_mod::lemma_small_mod((len - 1) as nat, len as nat);
                    } else {
                        vstd::arithmetic::div_mod::lemma_small_mod((i - 1) as nat, len as nat);
                    }
                }
                if i == 0 {
                    len - 1
                } else {
                    i - 1
                }
            },
            None => 0,
        };
        self.current = Some(next);
        self.scroll = scroll_to(self.matches[next].line, self.layout.lines.len(), self.view_height);
    }

    fn update_search(&mut self)
        requires
            old(self).wf(),
        ensures
            final(self).wf(),
            final(self).screen() == old(self).screen(),
            final(self).state() == update_search_s(old(self).state(), old(self).screen()),
    {
        let ghost v = self.state();
        if self.query.len() == 0 {
            self.matches = Vec::new();
        } else {
            let q = string_of(&self.query);
            self.matches = find(&self.layout, q.as_str());
        }
        let ghost ms = self.matches@;
        self.current = first_match_from(&self.matches, self.search_origin);
        proof {
            match self.current {
                Some(k) => lemma_first_at_or_after(ms, v.search_origin, k),
                None => {},
            }
        }
        match self.current {
            Some(i) => {
                self.scroll = scroll_to(self.matches[i].line, self.layout.lines.len(), self.view_height);
            },
            None => {
                self.scroll = self.search_origin;
            },
        }
    }

    fn view_key(&mut self, code: KeyCode, ctrl: bool) -> (r: Effect)
        requires
            old(self).wf(),
        ensures
            final(self).wf(),
            final(self).screen() == old(self).screen(),
            (final(self).state(), r) == view_key_s(old(self).state(), code, ctrl, old(self).screen()),
    {
        let p: isize = if self.view_height >= 1 {
            self.view_height as isize
        } else {
            1
        };
        let half: isize = p / 2;
        match code {
            KeyCode::Char('q') => {
                self.quit = true;
            },
            KeyCode::Esc => {
                if self.query.len() > 0 {
                    self.clear_search();
                } else {
                    self.quit = true;
                }
            },
            KeyCode::Char('j') | KeyCode::Down | KeyCode::Enter => self.scroll_lines(1),
            KeyCode::Char('k') | KeyCode::Up => self.scroll_lines(-1),
            KeyCode::Char('d') if ctrl => self.scroll_lines(half),
            KeyCode::Char('u') if ctrl => self.scroll_lines(-half),
            KeyCode::Char('f') if ctrl => self.scroll_lines(p),
            KeyCode::Char('b') if ctrl => self.scroll_lines(-p),
            KeyCode::PageDown | KeyCode::Char(' ') => self.scroll_lines(p),
            KeyCode::PageUp => self.scroll_lines(-p),
            KeyCode::Char('g') | KeyCode::Home => {
                self.scroll = 0;
            },
            KeyCode::Char('G') | KeyCode::End => {
                self.scroll = max_scroll(self.layout.lines.len(), self.view_height);
            },
            KeyCode::Char('b') => {
                let visible = self.sidebar_shown;
                self.sidebar = Some(!visible);
                if visible {
                    self.focus = Focus::Content;
                } else if self.layout.headings.len() == 0 {
                    self.notice = text_of("no headings to outline");
                }
            },
            KeyCode::Char('h') if self.sidebar_shown => {
                self.focus = Focus::Sidebar;
                return Effect::FocusSidebar;
            },
            KeyCode::Char('/') => {
                self.mode = Mode::Search;
                self.search_origin = self.scroll;
                self.clear_search();
            },
            KeyCode::Char('n') => self.step(true),
            KeyCode::Char('N') => self.step(false),
            KeyCode::Char('t') => {
                if self.layout.headings.len() == 0 {
                    self.notice = text_of("no headings");
                } else {
                    let a = active_heading(&self.layout.headings, self.scroll, self.layout.lines.len(), self.view_height);
                    proof {
                        lemma_last_heading_in_range(
                            self.layout.headings@,
                            if self.scroll >= max_scroll_spec(self.layout.lines.len(), self.view_height) {
                                self.layout.lines.len() as int
                            } else {
                                self.scroll + 1
                            },
                            self.layout.headings@.len() as int,
                        );
                    }
                    self.toc = Some(
                        match a {
                            Some(i) => i,
                            None => 0,
                        },
                    );
                    self.mode = Mode::Toc;
                }
            },
            KeyCode::Char('r') => {
                return Effect::Reload;
            },
            KeyCode::Char('?') => {
                self.mode = Mode::Help;
            },
            _ => {},
        }
        Effect::Nothing
    }

    fn toc_key(&mut self, code: KeyCode)
        requires
            old(self).wf(),
            old(self).mode == Mode::Toc,
        ensures
            final(self).wf(),
            final(self).screen() == old(self).screen(),
            final(self).state() == toc_key_s(old(self).state(), code, old(self).screen()),
    {
        let count = self.layout.headings.len();
        let sel: usize = match self.toc {
            Some(t) => t,
            None => 0,
        };
        match code {
            KeyCode::Char('q') | KeyCode::Esc | KeyCode::Char('t') => {
                self.mode = Mode::View;
            },
            KeyCode::Char('j') | KeyCode::Down => {
                self.toc = Some(if sel + 1 <= count - 1 { sel + 1 } else { count - 1 });
            },
            KeyCode::Char('k') | KeyCode::Up => {
                self.toc = Some(if sel >= 1 { sel - 1 } else { 0 });
            },
            KeyCode::Char('g') | KeyCode::Home => {
                self.toc = Some(0);
            },
            KeyCode::Char('G') | KeyCode::End => {
                self.toc = Some(count - 1);
            },
            KeyCode::Enter => {
                let line = self.layout.headings[sel].line;
                let top = max_scroll(self.layout.lines.len(), self.view_height);
                self.scroll = if line <= top { line } else { top };
                self.mode = Mode::View;
            },
            _ => {},
        }
    }

    fn edit_query(&mut self, c: Option<char>)
        requires
            old(self).wf(),
        ensures
            final(self).wf(),
            final(self).screen() == old(self).screen(),
            final(self).state() == update_search_s(
                ViewerView {
                    query: match c {
                        Some(ch) => old(self).query@.push(ch),
                        None => if old(self).query@.len() > 0 {
                            old(self).query@.drop_last()
                        } else {
                            old(self).query@
                        },
                    },
                    ..old(self).state()
                },
                old(self).screen(),
            ),
    {
        let mut q = Vec::new();
        std::mem::swap(&mut q, &mut self.query);
        match c {
            Some(ch) => q.push(ch),
            None => {
                if q.len() > 0 {
                    let _ = q.pop();
                }
            },
        }
        self.query = q;
        self.update_search();
    }

    fn search_key(&mut self, code: KeyCode, ctrl: bool)
        requires
            old(self).wf(),
        ensures
            final(self).wf(),
            final(self).screen() == old(self).screen(),
            final(self).state() == search_key_s(old(self).state(), code, ctrl, old(self).screen()),
    {
        match code {
            KeyCode::Esc => {
                self.clear_search();
                self.scroll = self.search_origin;
                self.mode = Mode::View;
            },
            KeyCode::Enter => {
                self.mode = Mode::View;
                if self.query.len() > 0 && self.matches.len() == 0 {
                    self.notice = text_of("no matches");
                }
            },
            KeyCode::Backspace => self.edit_query(None),
            KeyCode::Char(c) => {
                if !ctrl {
                    self.edit_query(Some(c));
                }
            },
            _ => {},
        }
    }

    /// The viewer's answer to a key, `ctrl` telling whether Control was held; the program
    /// around it drops `tab_chord` once the moment for an arrow after `Tab` has passed.
    pub fn on_key(&mut self, code: KeyCode, ctrl: bool) -> (r: Effect)
        requires
            old(self).wf(),
        ensures
            final(self).wf(),
            final(self).screen() == old(self).screen(),
            (final(self).state(), r) == key_s(old(self).state(), code, ctrl, old(self).screen()),
    {
        self.notice = None;
        if ctrl && code == KeyCode::Char('c') {
            self.quit = true;
            return Effect::Nothing;
        }
        let chord = self.tab_chord;
        self.tab_chord = None;
        match self.mode {
            Mode::View => {
                if code == KeyCode::Tab || code == KeyCode::BackTab {
                    self.cycle()
                } else if (code == KeyCode::Left || code == KeyCode::Right) && chord.is_some() {
                    let from = match chord {
                        Some(f) => f,
                        None => Focus::Content,
                    };
                    let target = if from == Focus::Content && code == KeyCode::Right {
                        Focus::Sidebar
                    } else if from == Focus::Sidebar && code == KeyCode::Left {
                        Focus::Content
                    } else {
                        from
                    };
                    self.set_focus(target)
                } else if self.focus == Focus::Sidebar {
                    Effect::OutlineKey
                } else {
                    self.view_key(code, ctrl)
                }
            },
            Mode::Help => {
                self.mode = Mode::View;
                Effect::Nothing
            },
            Mode::Toc => {
                self.toc_key(code);
                Effect::Nothing
            },
            Mode::Search => {
                self.search_key(code, ctrl);
                Effect::Nothing
            },
        }
    }
}

} // verus!
