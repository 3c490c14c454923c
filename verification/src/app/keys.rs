//! Keys: the actions a reader can bind, how keys are written in the config and shown in the
//! help, and the keymap with the config's overrides applied.
use vstd::prelude::*;

use crate::text::{
    join, join_vec, ascii_lower, chars_of, decimal, decimal_of, eq_lit, lower_seq, lower_vec, push_char,
    starts_with, starts_with_lit, string_of, to_ascii_lower,
};

verus! {

/// What a key can be bound to.
#[derive(Debug, Clone, Copy, PartialEq, Eq, Hash, Structural)]
pub enum Action {
    ScrollDown,
    ScrollUp,
    HalfPageDown,
    HalfPageUp,
    PageDown,
    PageUp,
    Top,
    Bottom,
    Toc,
    Images,
    FrontMatter,
    Reload,
    Files,
    Outline,
    FocusMode,
    FocusRight,
    NextLink,
    PrevLink,
    Back,
    Forward,
    Finder,
    Search,
    NextMatch,
    PrevMatch,
    Edit,
    Help,
    Quit,
}

/// A key of the keyboard, as the terminal reports it.
#[derive(Debug, Clone, Copy, PartialEq, Eq, Hash, Structural)]
pub enum KeyCode {
    Backspace,
    Enter,
    Left,
    Right,
    Up,
    Down,
    Home,
    End,
    PageUp,
    PageDown,
    Tab,
    BackTab,
    Delete,
    Insert,
    F(u8),
    Char(char),
    Null,
    Esc,
    CapsLock,
    ScrollLock,
    NumLock,
    PrintScreen,
    Pause,
    Menu,
    KeypadBegin,
    Media,
    Modifier,
}

/// A key with the modifiers that matter for bindings.
#[derive(Debug, Clone, Copy, PartialEq, Eq, Hash, Structural)]
pub struct KeyChord {
    pub code: KeyCode,
    pub ctrl: bool,
    pub alt: bool,
}

// ---------------------------------------------------------------------------------------------
// Reading keys
// ---------------------------------------------------------------------------------------------
/// The modifiers written before a key (`ctrl-`, `ctrl+`, `alt-`, `alt+` in any case), taken
/// off while something is left after them: the rest, and whether each modifier was seen.
pub open spec fn strip_mods(t: Seq<char>, ctrl: bool, alt: bool) -> (Seq<char>, bool, bool)
    decreases t.len(),
{
    let l = lower_seq(t);
    if t.len() > 5 && (starts_with(l, "ctrl-"@) || starts_with(l, "ctrl+"@)) {
        strip_mods(t.skip(5), true, alt)
    } else if t.len() > 4 && (starts_with(l, "alt-"@) || starts_with(l, "alt+"@)) {
        strip_mods(t.skip(4), ctrl, true)
    } else {
        (t, ctrl, alt)
    }
}

/// The value of ASCII digits.
pub open spec fn digits_value(s: Seq<char>) -> nat
    decreases s.len(),
{
    if s.len() == 0 {
        0
    } else {
        (digits_value(s.drop_last()) * 10 + (s.last() as int - 0x30)) as nat
    }
}

/// The digits of a number: without a leading `+`.
pub open spec fn unsigned_digits(s: Seq<char>) -> Seq<char> {
    if s.len() > 0 && s[0] == '+' {
        s.drop_first()
    } else {
        s
    }
}

/// Every character is an ASCII digit.
pub open spec fn all_digits(d: Seq<char>) -> bool {
    forall|i: int| 0 <= i < d.len() ==> '0' <= #[trigger] d[i] <= '9'
}

/// `str::parse::<u8>`: an optional `+`, then decimal digits whose value fits in a byte.
pub open spec fn parse_u8(s: Seq<char>) -> Option<u8> {
    let d = unsigned_digits(s);
    if d.len() > 0 && all_digits(d) && digits_value(d) <= 255 {
        Some(digits_value(d) as u8)
    } else {
        None
    }
}

/// A number of a function key, `F1` to `F12`.
pub open spec fn function_key(n: Option<u8>) -> bool {
    n matches Some(v) && 1 <= v <= 12
}

/// The key a lowercase name stands for.
pub open spec fn named_key(name: Seq<char>) -> Option<KeyCode> {
    if name == "space"@ {
        Some(KeyCode::Char(' '))
    } else if name == "enter"@ || name == "return"@ {
        Some(KeyCode::Enter)
    } else if name == "esc"@ || name == "escape"@ {
        Some(KeyCode::Esc)
    } else if name == "tab"@ {
        Some(KeyCode::Tab)
    } else if name == "backspace"@ {
        Some(KeyCode::Backspace)
    } else if name == "delete"@ || name == "del"@ {
        Some(KeyCode::Delete)
    } else if name == "insert"@ || name == "ins"@ {
        Some(KeyCode::Insert)
    } else if name == "up"@ {
        Some(KeyCode::Up)
    } else if name == "down"@ {
        Some(KeyCode::Down)
    } else if name == "left"@ {
        Some(KeyCode::Left)
    } else if name == "right"@ {
        Some(KeyCode::Right)
    } else if name == "pageup"@ || name == "pgup"@ {
        Some(KeyCode::PageUp)
    } else if name == "pagedown"@ || name == "pgdn"@ {
        Some(KeyCode::PageDown)
    } else if name == "home"@ {
        Some(KeyCode::Home)
    } else if name == "end"@ {
        Some(KeyCode::End)
    } else if name.len() > 0 && name[0] == 'f' && function_key(parse_u8(name.drop_first())) {
        Some(KeyCode::F(parse_u8(name.drop_first())->0))
    } else {
        None
    }
}

/// A key as the config writes it: modifiers, then one character (which keeps its case unless
/// `ctrl` is held) or a key's name in any case.
pub open spec fn key_spec(text: Seq<char>) -> Result<KeyChord, Seq<char>> {
    let (rest, ctrl, alt) = strip_mods(text, false, false);
    if rest.len() == 1 {
        Ok(
            KeyChord {
                code: KeyCode::Char(
                    if ctrl {
                        ascii_lower(rest[0])
                    } else {
                        rest[0]
                    },
                ),
                ctrl,
                alt,
            },
        )
    } else {
        match named_key(lower_seq(rest)) {
            Some(code) => Ok(KeyChord { code, ctrl, alt }),
            None => Err("`"@ + text + "` is not a key"@),
        }
    }
}

fn parse_u8_exec(s: &Vec<char>) -> (r: Option<u8>)
    ensures
        r == parse_u8(s@),
{
    let start: usize = if s.len() > 0 && s[0] == '+' {
        1
    } else {
        0
    };
    let ghost d = unsigned_digits(s@);
    assert(d =~= s@.skip(start as int));
    if start >= s.len() {
        return None;
    }
    let mut value: u32 = 0;
    let mut i = start;
    while i < s.len()
        invariant
            start <= i <= s.len(),
            d == s@.skip(start as int),
            d == unsigned_digits(s@),
            value <= 255,
            value == digits_value(d.take(i - start)),
            forall|j: int| 0 <= j < i - start ==> '0' <= #[trigger] d[j] <= '9',
        decreases s.len() - i,
    {
        let c = s[i];
        assert(d[i - start] == c);
        if !('0' <= c && c <= '9') {
            assert(!('0' <= d[i - start] <= '9'));
            assert(!all_digits(d));
            assert(parse_u8(s@) is None);
            return None;
        }
        assert(d.take(i + 1 - start).drop_last() =~= d.take(i - start));
        let next = value * 10 + (c as u32 - 0x30);
        if next > 255 {
            proof {
                assert(digits_value(d.take(i + 1 - start)) == next);
                if all_digits(d) {
                    lemma_digits_grow(d, i + 1 - start);
                    assert(digits_value(d) > 255);
                }
                assert(parse_u8(s@) is None);
            }
            return None;
        }
        value = next;
        i = i + 1;
    }
    assert(d.take(s.len() - start) =~= d);
    Some(value as u8)
}

/// A longer run of digits is worth at least as much as its start.
proof fn lemma_digits_grow(d: Seq<char>, k: int)
    requires
        0 <= k <= d.len(),
        forall|j: int| 0 <= j < d.len() ==> '0' <= #[trigger] d[j] <= '9',
    ensures
        digits_value(d.take(k)) <= digits_value(d),
    decreases d.len() - k,
{
    if k < d.len() {
        lemma_digits_grow(d, k + 1);
        assert(d.take(k + 1).drop_last() =~= d.take(k));
    } else {
        assert(d.take(k) =~= d);
    }
}

fn named_key_exec(name: &Vec<char>) -> (r: Option<KeyCode>)
    ensures
        r == named_key(name@),
{
    if eq_lit(name, "space") {
        Some(KeyCode::Char(' '))
    } else if eq_lit(name, "enter") || eq_lit(name, "return") {
        Some(KeyCode::Enter)
    } else if eq_lit(name, "esc") || eq_lit(name, "escape") {
        Some(KeyCode::Esc)
    } else if eq_lit(name, "tab") {
        Some(KeyCode::Tab)
    } else if eq_lit(name, "backspace") {
        Some(KeyCode::Backspace)
    } else if eq_lit(name, "delete") || eq_lit(name, "del") {
        Some(KeyCode::Delete)
    } else if eq_lit(name, "insert") || eq_lit(name, "ins") {
        Some(KeyCode::Insert)
    } else if eq_lit(name, "up") {
        Some(KeyCode::Up)
    } else if eq_lit(name, "down") {
        Some(KeyCode::Down)
    } else if eq_lit(name, "left") {
        Some(KeyCode::Left)
    } else if eq_lit(name, "right") {
        Some(KeyCode::Right)
    } else if eq_lit(name, "pageup") || eq_lit(name, "pgup") {
        Some(KeyCode::PageUp)
    } else if eq_lit(name, "pagedown") || eq_lit(name, "pgdn") {
        Some(KeyCode::PageDown)
    } else if eq_lit(name, "home") {
        Some(KeyCode::Home)
    } else if eq_lit(name, "end") {
        Some(KeyCode::End)
    } else if name.len() > 0 && name[0] == 'f' {
        let n = crate::text::slice(name, 1, name.len());
        assert(n@ =~= name@.drop_first());
        match parse_u8_exec(&n) {
            Some(v) => if 1 <= v && v <= 12 {
                Some(KeyCode::F(v))
            } else {
                None
            },
            None => None,
        }
    } else {
        None
    }
}

fn starts_lower(l: &Vec<char>, a: &str, b: &str) -> (r: bool)
    ensures
        r == (starts_with(l@, a@) || starts_with(l@, b@)),
{
    starts_with_lit(l, a) || starts_with_lit(l, b)
}

impl KeyChord {
    /// Reads a key as the config writes it: `ctrl-` and `alt-` (or `+`) prefixes in any case,
    /// then one character, which keeps its case unless `ctrl` is held, or a key's name.
    pub fn parse(text: &str) -> (r: Result<KeyChord, String>)
        ensures
            r matches Ok(k) ==> key_spec(text@) == Ok::<KeyChord, Seq<char>>(k),
            r matches Err(e) ==> key_spec(text@) == Err::<KeyChord, Seq<char>>(e@),
    {
        let t = chars_of(text);
        let mut rest = t;
        let mut ctrl = false;
        let mut alt = false;
        loop
            invariant
                strip_mods(text@, false, false) == strip_mods(rest@, ctrl, alt),
            ensures
                strip_mods(text@, false, false) == (rest@, ctrl, alt),
            decreases rest.len(),
        {
            let lower = lower_vec(&rest);
            if rest.len() > 5 && starts_lower(&lower, "ctrl-", "ctrl+") {
                ctrl = true;
                let r = crate::text::slice(&rest, 5, rest.len());
                assert(r@ =~= rest@.skip(5));
                rest = r;
            } else if rest.len() > 4 && starts_lower(&lower, "alt-", "alt+") {
                alt = true;
                let r = crate::text::slice(&rest, 4, rest.len());
                assert(r@ =~= rest@.skip(4));
                rest = r;
            } else {
                break;
            }
        }
        if rest.len() == 1 {
            let c = if ctrl {
                to_ascii_lower(rest[0])
            } else {
                rest[0]
            };
            return Ok(KeyChord { code: KeyCode::Char(c), ctrl, alt });
        }
        let name = lower_vec(&rest);
        match named_key_exec(&name) {
            Some(code) => Ok(KeyChord { code, ctrl, alt }),
            None => {
                let mut e = String::new();
                push_char(&mut e, '`');
                e.append(text);
                e.append("` is not a key");
                proof {
                    reveal_strlit("` is not a key");
                }
                assert(e@ =~= "`"@ + text@ + "` is not a key"@) by {
                    reveal_strlit("`");
                }
                Err(e)
            },
        }
    }
}

// ---------------------------------------------------------------------------------------------
// Showing keys
// ---------------------------------------------------------------------------------------------
/// How a key is shown in the help.
pub open spec fn code_text(code: KeyCode) -> Seq<char> {
    match code {
        KeyCode::Char(c) => if c == ' ' {
            "Space"@
        } else {
            seq![c]
        },
        KeyCode::Enter => "Enter"@,
        KeyCode::Esc => "Esc"@,
        KeyCode::Tab => "Tab"@,
        KeyCode::Backspace => "Backspace"@,
        KeyCode::Delete => "Del"@,
        KeyCode::Insert => "Ins"@,
        KeyCode::Up => "↑"@,
        KeyCode::Down => "↓"@,
        KeyCode::Left => "←"@,
        KeyCode::Right => "→"@,
        KeyCode::PageUp => "PgUp"@,
        KeyCode::PageDown => "PgDn"@,
        KeyCode::Home => "Home"@,
        KeyCode::End => "End"@,
        KeyCode::F(n) => seq!['F'] + decimal(n as nat),
        KeyCode::BackTab => "BackTab"@,
        KeyCode::Null => "Null"@,
        KeyCode::CapsLock => "CapsLock"@,
        KeyCode::ScrollLock => "ScrollLock"@,
        KeyCode::NumLock => "NumLock"@,
        KeyCode::PrintScreen => "PrintScreen"@,
        KeyCode::Pause => "Pause"@,
        KeyCode::Menu => "Menu"@,
        KeyCode::KeypadBegin => "KeypadBegin"@,
        KeyCode::Media => "Media"@,
        KeyCode::Modifier => "Modifier"@,
    }
}

/// How a chord is shown: `Ctrl-`, then `Alt-`, then the key.
pub open spec fn chord_text(k: KeyChord) -> Seq<char> {
    (if k.ctrl {
        "Ctrl-"@
    } else {
        seq![]
    }) + (if k.alt {
        "Alt-"@
    } else {
        seq![]
    }) + code_text(k.code)
}

fn code_str(code: KeyCode) -> (r: &'static str)
    requires
        !(code is Char) && !(code is F),
    ensures
        r@ == code_text(code),
{
    match code {
        KeyCode::Enter => "Enter",
        KeyCode::Esc => "Esc",
        KeyCode::Tab => "Tab",
        KeyCode::Backspace => "Backspace",
        KeyCode::Delete => "Del",
        KeyCode::Insert => "Ins",
        KeyCode::Up => "↑",
        KeyCode::Down => "↓",
        KeyCode::Left => "←",
        KeyCode::Right => "→",
        KeyCode::PageUp => "PgUp",
        KeyCode::PageDown => "PgDn",
        KeyCode::Home => "Home",
        KeyCode::End => "End",
        KeyCode::BackTab => "BackTab",
        KeyCode::Null => "Null",
        KeyCode::CapsLock => "CapsLock",
        KeyCode::ScrollLock => "ScrollLock",
        KeyCode::NumLock => "NumLock",
        KeyCode::PrintScreen => "PrintScreen",
        KeyCode::Pause => "Pause",
        KeyCode::Menu => "Menu",
        KeyCode::KeypadBegin => "KeypadBegin",
        KeyCode::Media => "Media",
        KeyCode::Modifier => "Modifier",
        KeyCode::Char(_) => "",
        KeyCode::F(_) => "",
    }
}

impl KeyChord {
    /// The chord a key press makes, from the pressed key and whether Ctrl and Alt were held:
    /// with Ctrl held a letter counts in lowercase.
    pub fn from_event(code: KeyCode, ctrl: bool, alt: bool) -> (r: KeyChord)
        ensures
            r.ctrl == ctrl,
            r.alt == alt,
            r.code == (match code {
                KeyCode::Char(c) => if ctrl {
                    KeyCode::Char(crate::text::ascii_lower(c))
                } else {
                    code
                },
                _ => code,
            }),
    {
        let code = match code {
            KeyCode::Char(c) => if ctrl {
                KeyCode::Char(to_ascii_lower(c))
            } else {
                code
            },
            _ => code,
        };
        KeyChord { code, ctrl, alt }
    }

    /// The chord as the help shows it: `Ctrl-`, `Alt-`, then the key (`Space`, `↑`, `PgDn`,
    /// `F5`, or the character).
    pub fn to_string(&self) -> (r: String)
        ensures
            r@ == chord_text(*self),
    {
        let mut out = String::new();
        if self.ctrl {
            out.append("Ctrl-");
        }
        if self.alt {
            out.append("Alt-");
        }
        let ghost pre = out@;
        match self.code {
            KeyCode::Char(c) => {
                if c == ' ' {
                    out.append("Space");
                } else {
                    push_char(&mut out, c);
                }
            },
            KeyCode::F(n) => {
                push_char(&mut out, 'F');
                let d = decimal_of(n as usize);
                let ds = string_of(&d);
                out.append(ds.as_str());
            },
            other => {
                out.append(code_str(other));
            },
        }
        assert(out@ =~= chord_text(*self));
        out
    }
}

// ---------------------------------------------------------------------------------------------
// Actions
// ---------------------------------------------------------------------------------------------
/// Every action, in the order the config documents them.
pub open spec fn action_list() -> Seq<Action> {
    seq![Action::ScrollDown, Action::ScrollUp, Action::HalfPageDown, Action::HalfPageUp, Action::PageDown, Action::PageUp, Action::Top, Action::Bottom, Action::Toc, Action::Images, Action::FrontMatter, Action::Reload, Action::Files, Action::Outline, Action::FocusMode, Action::FocusRight, Action::NextLink, Action::PrevLink, Action::Back, Action::Forward, Action::Finder, Action::Search, Action::NextMatch, Action::PrevMatch, Action::Edit, Action::Help, Action::Quit]
}

/// Every action, in the order the config documents them.
pub fn actions() -> (r: Vec<Action>)
    ensures
        r@ == action_list(),
{
    let mut v: Vec<Action> = Vec::new();
    v.push(Action::ScrollDown);
    v.push(Action::ScrollUp);
    v.push(Action::HalfPageDown);
    v.push(Action::HalfPageUp);
    v.push(Action::PageDown);
    v.push(Action::PageUp);
    v.push(Action::Top);
    v.push(Action::Bottom);
    v.push(Action::Toc);
    v.push(Action::Images);
    v.push(Action::FrontMatter);
    v.push(Action::Reload);
    v.push(Action::Files);
    v.push(Action::Outline);
    v.push(Action::FocusMode);
    v.push(Action::FocusRight);
    v.push(Action::NextLink);
    v.push(Action::PrevLink);
    v.push(Action::Back);
    v.push(Action::Forward);
    v.push(Action::Finder);
    v.push(Action::Search);
    v.push(Action::NextMatch);
    v.push(Action::PrevMatch);
    v.push(Action::Edit);
    v.push(Action::Help);
    v.push(Action::Quit);
    assert(v@ =~= action_list());
    v
}

/// The position of an action in [`action_list`].
pub open spec fn action_index(a: Action) -> int {
    match a {
        Action::ScrollDown => 0,
        Action::ScrollUp => 1,
        Action::HalfPageDown => 2,
        Action::HalfPageUp => 3,
        Action::PageDown => 4,
        Action::PageUp => 5,
        Action::Top => 6,
        Action::Bottom => 7,
        Action::Toc => 8,
        Action::Images => 9,
        Action::FrontMatter => 10,
        Action::Reload => 11,
        Action::Files => 12,
        Action::Outline => 13,
        Action::FocusMode => 14,
        Action::FocusRight => 15,
        Action::NextLink => 16,
        Action::PrevLink => 17,
        Action::Back => 18,
        Action::Forward => 19,
        Action::Finder => 20,
        Action::Search => 21,
        Action::NextMatch => 22,
        Action::PrevMatch => 23,
        Action::Edit => 24,
        Action::Help => 25,
        Action::Quit => 26,
    }
}

fn index_of_action(a: Action) -> (r: usize)
    ensures
        r == action_index(a),
        r < action_list().len(),
        action_list()[r as int] == a,
{
    match a {
        Action::ScrollDown => 0,
        Action::ScrollUp => 1,
        Action::HalfPageDown => 2,
        Action::HalfPageUp => 3,
        Action::PageDown => 4,
        Action::PageUp => 5,
        Action::Top => 6,
        Action::Bottom => 7,
        Action::Toc => 8,
        Action::Images => 9,
        Action::FrontMatter => 10,
        Action::Reload => 11,
        Action::Files => 12,
        Action::Outline => 13,
        Action::FocusMode => 14,
        Action::FocusRight => 15,
        Action::NextLink => 16,
        Action::PrevLink => 17,
        Action::Back => 18,
        Action::Forward => 19,
        Action::Finder => 20,
        Action::Search => 21,
        Action::NextMatch => 22,
        Action::PrevMatch => 23,
        Action::Edit => 24,
        Action::Help => 25,
        Action::Quit => 26,
    }
}

/// The name of an action in the config.
pub open spec fn action_name_spec(a: Action) -> Seq<char> {
    match a {
        Action::ScrollDown => "scroll_down"@,
        Action::ScrollUp => "scroll_up"@,
        Action::HalfPageDown => "half_page_down"@,
        Action::HalfPageUp => "half_page_up"@,
        Action::PageDown => "page_down"@,
        Action::PageUp => "page_up"@,
        Action::Top => "top"@,
        Action::Bottom => "bottom"@,
        Action::Toc => "toc"@,
        Action::Images => "images"@,
        Action::FrontMatter => "front_matter"@,
        Action::Reload => "reload"@,
        Action::Files => "files"@,
        Action::Outline => "outline"@,
        Action::FocusMode => "focus_mode"@,
        Action::FocusRight => "focus_right"@,
        Action::NextLink => "next_link"@,
        Action::PrevLink => "prev_link"@,
        Action::Back => "back"@,
        Action::Forward => "forward"@,
        Action::Finder => "finder"@,
        Action::Search => "search"@,
        Action::NextMatch => "next_match"@,
        Action::PrevMatch => "prev_match"@,
        Action::Edit => "edit"@,
        Action::Help => "help"@,
        Action::Quit => "quit"@,
    }
}

/// The name of an action in the config.
pub fn action_name(a: Action) -> (r: &'static str)
    ensures
        r@ == action_name_spec(a),
{
    match a {
        Action::ScrollDown => "scroll_down",
        Action::ScrollUp => "scroll_up",
        Action::HalfPageDown => "half_page_down",
        Action::HalfPageUp => "half_page_up",
        Action::PageDown => "page_down",
        Action::PageUp => "page_up",
        Action::Top => "top",
        Action::Bottom => "bottom",
        Action::Toc => "toc",
        Action::Images => "images",
        Action::FrontMatter => "front_matter",
        Action::Reload => "reload",
        Action::Files => "files",
        Action::Outline => "outline",
        Action::FocusMode => "focus_mode",
        Action::FocusRight => "focus_right",
        Action::NextLink => "next_link",
        Action::PrevLink => "prev_link",
        Action::Back => "back",
        Action::Forward => "forward",
        Action::Finder => "finder",
        Action::Search => "search",
        Action::NextMatch => "next_match",
        Action::PrevMatch => "prev_match",
        Action::Edit => "edit",
        Action::Help => "help",
        Action::Quit => "quit",
    }
}

/// What an action does, as the docs say it.
pub open spec fn action_about_spec(a: Action) -> Seq<char> {
    match a {
        Action::ScrollDown => "Scroll down one line, move down in a panel or list"@,
        Action::ScrollUp => "Scroll up one line, move up in a panel or list"@,
        Action::HalfPageDown => "Half page down"@,
        Action::HalfPageUp => "Half page up"@,
        Action::PageDown => "Page down"@,
        Action::PageUp => "Page up"@,
        Action::Top => "Go to the top"@,
        Action::Bottom => "Go to the bottom"@,
        Action::Toc => "Table of contents"@,
        Action::Images => "Show or hide images"@,
        Action::FrontMatter => "Expand or collapse the front matter"@,
        Action::Reload => "Reload the file"@,
        Action::Files => "Toggle the files panel"@,
        Action::Outline => "Toggle the outline panel"@,
        Action::FocusMode => "Focus mode"@,
        Action::FocusRight => "Focus the pane to the right"@,
        Action::NextLink => "Select the next link"@,
        Action::PrevLink => "Select the previous link"@,
        Action::Back => "Back through visited pages"@,
        Action::Forward => "Forward through visited pages"@,
        Action::Finder => "Find a file in the folder"@,
        Action::Search => "Search"@,
        Action::NextMatch => "Next match"@,
        Action::PrevMatch => "Previous match"@,
        Action::Edit => "Edit the file in $EDITOR"@,
        Action::Help => "Key help"@,
        Action::Quit => "Quit"@,
    }
}

/// What an action does, as the docs say it.
pub fn action_about(a: Action) -> (r: &'static str)
    ensures
        r@ == action_about_spec(a),
{
    match a {
        Action::ScrollDown => "Scroll down one line, move down in a panel or list",
        Action::ScrollUp => "Scroll up one line, move up in a panel or list",
        Action::HalfPageDown => "Half page down",
        Action::HalfPageUp => "Half page up",
        Action::PageDown => "Page down",
        Action::PageUp => "Page up",
        Action::Top => "Go to the top",
        Action::Bottom => "Go to the bottom",
        Action::Toc => "Table of contents",
        Action::Images => "Show or hide images",
        Action::FrontMatter => "Expand or collapse the front matter",
        Action::Reload => "Reload the file",
        Action::Files => "Toggle the files panel",
        Action::Outline => "Toggle the outline panel",
        Action::FocusMode => "Focus mode",
        Action::FocusRight => "Focus the pane to the right",
        Action::NextLink => "Select the next link",
        Action::PrevLink => "Select the previous link",
        Action::Back => "Back through visited pages",
        Action::Forward => "Forward through visited pages",
        Action::Finder => "Find a file in the folder",
        Action::Search => "Search",
        Action::NextMatch => "Next match",
        Action::PrevMatch => "Previous match",
        Action::Edit => "Edit the file in $EDITOR",
        Action::Help => "Key help",
        Action::Quit => "Quit",
    }
}

/// The keys an action has unless the config says otherwise.
pub open spec fn default_chords(a: Action) -> Seq<KeyChord> {
    match a {
        Action::ScrollDown => seq![KeyChord { code: KeyCode::Char('j'), ctrl: false, alt: false }, KeyChord { code: KeyCode::Down, ctrl: false, alt: false }],
        Action::ScrollUp => seq![KeyChord { code: KeyCode::Char('k'), ctrl: false, alt: false }, KeyChord { code: KeyCode::Up, ctrl: false, alt: false }],
        Action::HalfPageDown => seq![KeyChord { code: KeyCode::Char('d'), ctrl: true, alt: false }],
        Action::HalfPageUp => seq![KeyChord { code: KeyCode::Char('u'), ctrl: true, alt: false }],
        Action::PageDown => seq![KeyChord { code: KeyCode::Char('f'), ctrl: true, alt: false }, KeyChord { code: KeyCode::Char(' '), ctrl: false, alt: false }],
        Action::PageUp => seq![KeyChord { code: KeyCode::Char('b'), ctrl: true, alt: false }],
        Action::Top => seq![KeyChord { code: KeyCode::Char('g'), ctrl: false, alt: false }],
        Action::Bottom => seq![KeyChord { code: KeyCode::Char('G'), ctrl: false, alt: false }],
        Action::Toc => seq![KeyChord { code: KeyCode::Char('t'), ctrl: false, alt: false }],
        Action::Images => seq![KeyChord { code: KeyCode::Char('i'), ctrl: false, alt: false }],
        Action::FrontMatter => seq![KeyChord { code: KeyCode::Char('m'), ctrl: false, alt: false }],
        Action::Reload => seq![KeyChord { code: KeyCode::Char('r'), ctrl: false, alt: false }],
        Action::Files => seq![KeyChord { code: KeyCode::Char('b'), ctrl: false, alt: false }],
        Action::Outline => seq![KeyChord { code: KeyCode::Char('o'), ctrl: false, alt: false }],
        Action::FocusMode => seq![KeyChord { code: KeyCode::Char('f'), ctrl: false, alt: false }],
        Action::FocusRight => seq![KeyChord { code: KeyCode::Char('l'), ctrl: false, alt: false }],
        Action::NextLink => seq![KeyChord { code: KeyCode::Char(']'), ctrl: false, alt: false }],
        Action::PrevLink => seq![KeyChord { code: KeyCode::Char('['), ctrl: false, alt: false }],
        Action::Back => seq![KeyChord { code: KeyCode::Char('H'), ctrl: false, alt: false }],
        Action::Forward => seq![KeyChord { code: KeyCode::Char('L'), ctrl: false, alt: false }],
        Action::Finder => seq![KeyChord { code: KeyCode::Char('p'), ctrl: true, alt: false }],
        Action::Search => seq![KeyChord { code: KeyCode::Char('/'), ctrl: false, alt: false }],
        Action::NextMatch => seq![KeyChord { code: KeyCode::Char('n'), ctrl: false, alt: false }],
        Action::PrevMatch => seq![KeyChord { code: KeyCode::Char('N'), ctrl: false, alt: false }],
        Action::Edit => seq![KeyChord { code: KeyCode::Char('E'), ctrl: false, alt: false }],
        Action::Help => seq![KeyChord { code: KeyCode::Char('?'), ctrl: false, alt: false }, KeyChord { code: KeyCode::Char('h'), ctrl: false, alt: false }],
        Action::Quit => seq![KeyChord { code: KeyCode::Char('q'), ctrl: false, alt: false }],
    }
}

fn default_keys(a: Action) -> (r: Vec<KeyChord>)
    ensures
        r@ == default_chords(a),
{
    let mut v: Vec<KeyChord> = Vec::new();
    match a {
        Action::ScrollDown => {
            v.push(KeyChord { code: KeyCode::Char('j'), ctrl: false, alt: false });
            v.push(KeyChord { code: KeyCode::Down, ctrl: false, alt: false });
        },
        Action::ScrollUp => {
            v.push(KeyChord { code: KeyCode::Char('k'), ctrl: false, alt: false });
            v.push(KeyChord { code: KeyCode::Up, ctrl: false, alt: false });
        },
        Action::HalfPageDown => {
            v.push(KeyChord { code: KeyCode::Char('d'), ctrl: true, alt: false });
        },
        Action::HalfPageUp => {
            v.push(KeyChord { code: KeyCode::Char('u'), ctrl: true, alt: false });
        },
        Action::PageDown => {
            v.push(KeyChord { code: KeyCode::Char('f'), ctrl: true, alt: false });
            v.push(KeyChord { code: KeyCode::Char(' '), ctrl: false, alt: false });
        },
        Action::PageUp => {
            v.push(KeyChord { code: KeyCode::Char('b'), ctrl: true, alt: false });
        },
        Action::Top => {
            v.push(KeyChord { code: KeyCode::Char('g'), ctrl: false, alt: false });
        },
        Action::Bottom => {
            v.push(KeyChord { code: KeyCode::Char('G'), ctrl: false, alt: false });
        },
        Action::Toc => {
            v.push(KeyChord { code: KeyCode::Char('t'), ctrl: false, alt: false });
        },
        Action::Images => {
            v.push(KeyChord { code: KeyCode::Char('i'), ctrl: false, alt: false });
        },
        Action::FrontMatter => {
            v.push(KeyChord { code: KeyCode::Char('m'), ctrl: false, alt: false });
        },
        Action::Reload => {
            v.push(KeyChord { code: KeyCode::Char('r'), ctrl: false, alt: false });
        },
        Action::Files => {
            v.push(KeyChord { code: KeyCode::Char('b'), ctrl: false, alt: false });
        },
        Action::Outline => {
            v.push(KeyChord { code: KeyCode::Char('o'), ctrl: false, alt: false });
        },
        Action::FocusMode => {
            v.push(KeyChord { code: KeyCode::Char('f'), ctrl: false, alt: false });
        },
        Action::FocusRight => {
            v.push(KeyChord { code: KeyCode::Char('l'), ctrl: false, alt: false });
        },
        Action::NextLink => {
            v.push(KeyChord { code: KeyCode::Char(']'), ctrl: false, alt: false });
        },
        Action::PrevLink => {
            v.push(KeyChord { code: KeyCode::Char('['), ctrl: false, alt: false });
        },
        Action::Back => {
            v.push(KeyChord { code: KeyCode::Char('H'), ctrl: false, alt: false });
        },
        Action::Forward => {
            v.push(KeyChord { code: KeyCode::Char('L'), ctrl: false, alt: false });
        },
        Action::Finder => {
            v.push(KeyChord { code: KeyCode::Char('p'), ctrl: true, alt: false });
        },
        Action::Search => {
            v.push(KeyChord { code: KeyCode::Char('/'), ctrl: false, alt: false });
        },
        Action::NextMatch => {
            v.push(KeyChord { code: KeyCode::Char('n'), ctrl: false, alt: false });
        },
        Action::PrevMatch => {
            v.push(KeyChord { code: KeyCode::Char('N'), ctrl: false, alt: false });
        },
        Action::Edit => {
            v.push(KeyChord { code: KeyCode::Char('E'), ctrl: false, alt: false });
        },
        Action::Help => {
            v.push(KeyChord { code: KeyCode::Char('?'), ctrl: false, alt: false });
            v.push(KeyChord { code: KeyCode::Char('h'), ctrl: false, alt: false });
        },
        Action::Quit => {
            v.push(KeyChord { code: KeyCode::Char('q'), ctrl: false, alt: false });
        },
    }
    assert(v@ =~= default_chords(a));
    v
}

// ---------------------------------------------------------------------------------------------
// The keymap
// ---------------------------------------------------------------------------------------------
/// No key is bound to two different actions.
pub open spec fn no_shared(b: Seq<Seq<KeyChord>>) -> bool {
    forall|i: int, j: int, c: KeyChord|
        0 <= i < b.len() && 0 <= j < b.len() && i != j && #[trigger] b[i].contains(c) ==> !(
        #[trigger] b[j].contains(c))
}

/// No key is listed twice, for one action or for two.
pub open spec fn all_distinct(b: Seq<Seq<KeyChord>>) -> bool {
    forall|i: int, p: int, j: int, q: int|
        0 <= i < b.len() && 0 <= j < b.len() && 0 <= p < b[i].len() && 0 <= q < b[j].len() && (i
            != j || p != q) ==> #[trigger] b[i][p] != #[trigger] b[j][q]
}

/// The keys of each action, in [`action_list`] order.
pub open spec fn default_bindings() -> Seq<Seq<KeyChord>> {
    action_list().map_values(|a: Action| default_chords(a))
}

/// The action bound to each key: one list of keys per action, in [`action_list`] order.
#[derive(Debug)]
pub struct Keymap {
    bindings: Vec<Vec<KeyChord>>,
}

impl View for Keymap {
    type V = Seq<Seq<KeyChord>>;

    closed spec fn view(&self) -> Seq<Seq<KeyChord>> {
        self.bindings@.map_values(|v: Vec<KeyChord>| v@)
    }
}

impl Keymap {
    /// One list per action, and no key bound to two actions.
    #[verifier::type_invariant]
    closed spec fn wf(self) -> bool {
        &&& self.bindings@.len() == action_list().len()
        &&& no_shared(self.bindings@.map_values(|v: Vec<KeyChord>| v@))
    }
}

/// The position of each action in the list is its index.
proof fn lemma_action_index(i: int)
    requires
        0 <= i < action_list().len(),
    ensures
        action_index(action_list()[i]) == i,
{
    if i == 0 {
        assert(action_index(action_list()[0]) == 0);
    } else if i == 1 {
        assert(action_index(action_list()[1]) == 1);
    } else if i == 2 {
        assert(action_index(action_list()[2]) == 2);
    } else if i == 3 {
        assert(action_index(action_list()[3]) == 3);
    } else if i == 4 {
        assert(action_index(action_list()[4]) == 4);
    } else if i == 5 {
        assert(action_index(action_list()[5]) == 5);
    } else if i == 6 {
        assert(action_index(action_list()[6]) == 6);
    } else if i == 7 {
        assert(action_index(action_list()[7]) == 7);
    } else if i == 8 {
        assert(action_index(action_list()[8]) == 8);
    } else if i == 9 {
        assert(action_index(action_list()[9]) == 9);
    } else if i == 10 {
        assert(action_index(action_list()[10]) == 10);
    } else if i == 11 {
        assert(action_index(action_list()[11]) == 11);
    } else if i == 12 {
        assert(action_index(action_list()[12]) == 12);
    } else if i == 13 {
        assert(action_index(action_list()[13]) == 13);
    } else if i == 14 {
        assert(action_index(action_list()[14]) == 14);
    } else if i == 15 {
        assert(action_index(action_list()[15]) == 15);
    } else if i == 16 {
        assert(action_index(action_list()[16]) == 16);
    } else if i == 17 {
        assert(action_index(action_list()[17]) == 17);
    } else if i == 18 {
        assert(action_index(action_list()[18]) == 18);
    } else if i == 19 {
        assert(action_index(action_list()[19]) == 19);
    } else if i == 20 {
        assert(action_index(action_list()[20]) == 20);
    } else if i == 21 {
        assert(action_index(action_list()[21]) == 21);
    } else if i == 22 {
        assert(action_index(action_list()[22]) == 22);
    } else if i == 23 {
        assert(action_index(action_list()[23]) == 23);
    } else if i == 24 {
        assert(action_index(action_list()[24]) == 24);
    } else if i == 25 {
        assert(action_index(action_list()[25]) == 25);
    } else if i == 26 {
        assert(action_index(action_list()[26]) == 26);
    }
}

proof fn lemma_defaults_distinct()
    ensures
        all_distinct(default_bindings()),
        no_shared(default_bindings()),
        default_bindings().len() == action_list().len(),
{
    let b = default_bindings();
    assert(b.len() == 27);
    assert forall|i: int, p: int, j: int, q: int|
        0 <= i < b.len() && 0 <= j < b.len() && 0 <= p < b[i].len() && 0 <= q < b[j].len() && (i
            != j || p != q) implies #[trigger] b[i][p] != #[trigger] b[j][q] by {
        assert(b[i] == default_chords(action_list()[i]));
        assert(b[j] == default_chords(action_list()[j]));
    }
    assert forall|i: int, j: int, c: KeyChord|
        0 <= i < b.len() && 0 <= j < b.len() && i != j && #[trigger] b[i].contains(c) implies !(
        #[trigger] b[j].contains(c)) by {
        if b[j].contains(c) {
            let p = choose|p: int| 0 <= p < b[i].len() && b[i][p] == c;
            let q = choose|q: int| 0 <= q < b[j].len() && b[j][q] == c;
            assert(b[i][p] != b[j][q]);
        }
    }
}

fn copy_keys(keys: &Vec<KeyChord>) -> (r: Vec<KeyChord>)
    ensures
        r@ == keys@,
{
    let mut out: Vec<KeyChord> = Vec::new();
    let mut i: usize = 0;
    while i < keys.len()
        invariant
            i <= keys.len(),
            out@ == keys@.take(i as int),
        decreases keys.len() - i,
    {
        out.push(keys[i]);
        i = i + 1;
        assert(out@ =~= keys@.take(i as int));
    }
    assert(keys@.take(keys.len() as int) =~= keys@);
    out
}

impl Clone for Keymap {
    fn clone(&self) -> (r: Self)
        ensures
            r@ == self@,
    {
        proof {
            use_type_invariant(self);
        }
        let ghost b = self@;
        let mut bindings: Vec<Vec<KeyChord>> = Vec::new();
        let mut i: usize = 0;
        while i < self.bindings.len()
            invariant
                i <= self.bindings.len(),
                b == self.bindings@.map_values(|v: Vec<KeyChord>| v@),
                bindings@.map_values(|v: Vec<KeyChord>| v@) == b.take(i as int),
            decreases self.bindings.len() - i,
        {
            let keys = copy_keys(&self.bindings[i]);
            let ghost before = bindings@.map_values(|v: Vec<KeyChord>| v@);
            bindings.push(keys);
            assert(bindings@.map_values(|v: Vec<KeyChord>| v@) =~= before.push(keys@));
            assert(b.take(i + 1) =~= b.take(i as int).push(b[i as int]));
            i = i + 1;
        }
        assert(b.take(i as int) =~= b);
        Keymap { bindings }
    }
}

impl Default for Keymap {
    /// Every action with its default keys.
    fn default() -> (r: Self)
        ensures
            r@ == default_bindings(),
            all_distinct(r@),
            no_shared(r@),
    {
        let all = actions();
        let mut bindings: Vec<Vec<KeyChord>> = Vec::new();
        let mut i: usize = 0;
        while i < all.len()
            invariant
                i <= all.len(),
                all@ == action_list(),
                bindings@.map_values(|v: Vec<KeyChord>| v@) == default_bindings().take(i as int),
            decreases all.len() - i,
        {
            let keys = default_keys(all[i]);
            let ghost before = bindings@.map_values(|v: Vec<KeyChord>| v@);
            bindings.push(keys);
            assert(bindings@.map_values(|v: Vec<KeyChord>| v@) =~= before.push(keys@));
            assert(default_bindings().take(i + 1) =~= default_bindings().take(i as int).push(
                default_chords(action_list()[i as int]),
            ));
            i = i + 1;
        }
        proof {
            lemma_defaults_distinct();
            assert(default_bindings().take(i as int) =~= default_bindings());
        }
        Keymap { bindings }
    }
}

impl Keymap {
    /// The keys bound to an action.
    pub fn keys(&self, action: Action) -> (r: &[KeyChord])
        ensures
            r@ == self@[action_index(action)],
    {
        proof {
            use_type_invariant(self);
        }
        let i = index_of_action(action);
        self.bindings[i].as_slice()
    }

    /// The first key of an action as the help shows it, or `-` for an action without keys.
    pub fn first(&self, action: Action) -> (r: String)
        ensures
            self@[action_index(action)].len() > 0 ==> r@ == chord_text(
                self@[action_index(action)][0],
            ),
            self@[action_index(action)].len() == 0 ==> r@ == "-"@,
    {
        let keys = self.keys(action);
        if keys.len() > 0 {
            keys[0].to_string()
        } else {
            "-".to_string()
        }
    }

    /// The action a key is bound to.
    pub fn action(&self, chord: &KeyChord) -> (r: Option<Action>)
        ensures
            r matches Some(a) ==> self@[action_index(a)].contains(*chord),
            r is None ==> forall|i: int| 0 <= i < self@.len() ==> !self@[i].contains(*chord),
    {
        proof {
            use_type_invariant(self);
        }
        let all = actions();
        let ghost b = self@;
        let mut i: usize = 0;
        while i < self.bindings.len()
            invariant
                i <= self.bindings.len(),
                all@ == action_list(),
                self.bindings@.len() == action_list().len(),
                b == self@,
                b == self.bindings@.map_values(|v: Vec<KeyChord>| v@),
                forall|j: int| 0 <= j < i ==> !b[j].contains(*chord),
            decreases self.bindings.len() - i,
        {
            let keys = &self.bindings[i];
            assert(b[i as int] == keys@);
            let mut k: usize = 0;
            while k < keys.len()
                invariant
                    k <= keys.len(),
                    i < all@.len(),
                    all@ == action_list(),
                    b == self@,
                    b[i as int] == keys@,
                    forall|p: int| 0 <= p < k ==> keys@[p] != *chord,
                decreases keys.len() - k,
            {
                if keys[k] == *chord {
                    let a = all[i];
                    proof {
                        lemma_action_index(i as int);
                    }
                    assert(keys@[k as int] == *chord);
                    assert(b[i as int][k as int] == *chord);
                    return Some(a);
                }
                k = k + 1;
            }
            i = i + 1;
        }
        None
    }
}

// ---------------------------------------------------------------------------------------------
// Overrides
// ---------------------------------------------------------------------------------------------
/// The first action with the name, in [`action_list`] order.
pub open spec fn named_from(name: Seq<char>, k: int) -> Option<Action>
    decreases action_list().len() - k,
{
    if k < 0 || k >= action_list().len() {
        None
    } else if action_name_spec(action_list()[k]) == name {
        Some(action_list()[k])
    } else {
        named_from(name, k + 1)
    }
}

/// `ks` without the keys in `cs`, in order.
pub open spec fn without(ks: Seq<KeyChord>, cs: Seq<KeyChord>) -> Seq<KeyChord>
    decreases ks.len(),
{
    if ks.len() == 0 {
        seq![]
    } else if cs.contains(ks.last()) {
        without(ks.drop_last(), cs)
    } else {
        without(ks.drop_last(), cs).push(ks.last())
    }
}

/// Action `i` gets the keys `cs`, and every other action loses them.
pub open spec fn take_keys(b: Seq<Seq<KeyChord>>, i: int, cs: Seq<KeyChord>) -> Seq<Seq<KeyChord>> {
    Seq::new(b.len(), |j: int| if j == i { cs } else { without(b[j], cs) })
}

/// The keys a list of texts names, or the first text that names none.
pub open spec fn parse_keys(keys: Seq<Seq<char>>) -> Result<Seq<KeyChord>, Seq<char>>
    decreases keys.len(),
{
    if keys.len() == 0 {
        Ok(seq![])
    } else {
        match parse_keys(keys.drop_last()) {
            Err(e) => Err(e),
            Ok(cs) => match key_spec(keys.last()) {
                Ok(c) => Ok(cs.push(c)),
                Err(e) => Err(e),
            },
        }
    }
}

/// The bindings with the overrides applied in order, or the first problem: an unknown
/// action, or a text that is not a key.
pub open spec fn apply_overrides(
    b: Seq<Seq<KeyChord>>,
    ovs: Seq<(Seq<char>, Seq<Seq<char>>)>,
) -> Result<Seq<Seq<KeyChord>>, Seq<char>>
    decreases ovs.len(),
{
    if ovs.len() == 0 {
        Ok(b)
    } else {
        match apply_overrides(b, ovs.drop_last()) {
            Err(e) => Err(e),
            Ok(b2) => {
                let (name, keys) = ovs.last();
                match named_from(name, 0) {
                    None => Err("unknown action `"@ + name + "` in [keys]"@),
                    Some(a) => match parse_keys(keys) {
                        Err(e) => Err(e),
                        Ok(cs) => Ok(take_keys(b2, action_index(a), cs)),
                    },
                }
            },
        }
    }
}

/// The overrides as values.
pub open spec fn override_views(o: Seq<(String, Vec<String>)>) -> Seq<(Seq<char>, Seq<Seq<char>>)> {
    o.map_values(|e: (String, Vec<String>)| (e.0@, e.1@.map_values(|k: String| k@)))
}

proof fn lemma_contains_last(ks: Seq<KeyChord>, c: KeyChord)
    requires
        ks.len() > 0,
    ensures
        ks.contains(c) <==> (ks.drop_last().contains(c) || ks.last() == c),
{
    if ks.contains(c) {
        let p = choose|p: int| 0 <= p < ks.len() && ks[p] == c;
        if p < ks.len() - 1 {
            assert(ks.drop_last()[p] == c);
        }
    }
    if ks.drop_last().contains(c) {
        let p = choose|p: int| 0 <= p < ks.drop_last().len() && ks.drop_last()[p] == c;
        assert(ks[p] == c);
    }
    if ks.last() == c {
        assert(ks[ks.len() - 1] == c);
    }
}

proof fn lemma_without_contains(ks: Seq<KeyChord>, cs: Seq<KeyChord>, c: KeyChord)
    ensures
        without(ks, cs).contains(c) <==> (ks.contains(c) && !cs.contains(c)),
    decreases ks.len(),
{
    if ks.len() > 0 {
        lemma_without_contains(ks.drop_last(), cs, c);
        lemma_contains_last(ks, c);
        let w = without(ks.drop_last(), cs);
        if !cs.contains(ks.last()) {
            lemma_contains_last(w.push(ks.last()), c);
            assert(w.push(ks.last()).drop_last() =~= w);
        }
    }
}

/// Taking keys for one action leaves no key with two actions.
proof fn lemma_take_keys(b: Seq<Seq<KeyChord>>, i: int, cs: Seq<KeyChord>)
    requires
        no_shared(b),
        0 <= i < b.len(),
    ensures
        no_shared(take_keys(b, i, cs)),
        take_keys(b, i, cs).len() == b.len(),
{
    let t = take_keys(b, i, cs);
    assert forall|x: int, y: int, c: KeyChord|
        0 <= x < t.len() && 0 <= y < t.len() && x != y && #[trigger] t[x].contains(c) implies !(
        #[trigger] t[y].contains(c)) by {
        lemma_without_contains(b[x], cs, c);
        lemma_without_contains(b[y], cs, c);
    }
}

/// Reading a key list: the keys, or the first error.
fn parse_key_list(keys: &Vec<String>) -> (r: Result<Vec<KeyChord>, String>)
    ensures
        r matches Ok(cs) ==> parse_keys(keys@.map_values(|k: String| k@)) == Ok::<
            Seq<KeyChord>,
            Seq<char>,
        >(cs@),
        r matches Err(e) ==> parse_keys(keys@.map_values(|k: String| k@)) == Err::<
            Seq<KeyChord>,
            Seq<char>,
        >(e@),
{
    let ghost kv = keys@.map_values(|k: String| k@);
    let mut out: Vec<KeyChord> = Vec::new();
    let mut i: usize = 0;
    assert(kv.take(0) =~= Seq::<Seq<char>>::empty());
    while i < keys.len()
        invariant
            i <= keys.len(),
            kv == keys@.map_values(|k: String| k@),
            parse_keys(kv.take(i as int)) == Ok::<Seq<KeyChord>, Seq<char>>(out@),
        decreases keys.len() - i,
    {
        assert(kv.take(i + 1).drop_last() =~= kv.take(i as int));
        assert(kv.take(i + 1).last() == keys@[i as int]@);
        match KeyChord::parse(keys[i].as_str()) {
            Ok(c) => out.push(c),
            Err(e) => {
                proof {
                    lemma_parse_keys_err(kv, i as int + 1, e@);
                }
                return Err(e);
            },
        }
        i = i + 1;
    }
    assert(kv.take(keys.len() as int) =~= kv);
    Ok(out)
}

/// An error in a prefix is the error of the whole list.
proof fn lemma_parse_keys_err(kv: Seq<Seq<char>>, n: int, e: Seq<char>)
    requires
        0 <= n <= kv.len(),
        parse_keys(kv.take(n)) == Err::<Seq<KeyChord>, Seq<char>>(e),
    ensures
        parse_keys(kv) == Err::<Seq<KeyChord>, Seq<char>>(e),
    decreases kv.len() - n,
{
    if n < kv.len() {
        assert(kv.take(n + 1).drop_last() =~= kv.take(n));
        lemma_parse_keys_err(kv, n + 1, e);
    } else {
        assert(kv.take(n) =~= kv);
    }
}

/// An error in a prefix of the overrides is the error of them all.
proof fn lemma_apply_err(
    b: Seq<Seq<KeyChord>>,
    ov: Seq<(Seq<char>, Seq<Seq<char>>)>,
    n: int,
    e: Seq<char>,
)
    requires
        0 <= n <= ov.len(),
        apply_overrides(b, ov.take(n)) == Err::<Seq<Seq<KeyChord>>, Seq<char>>(e),
    ensures
        apply_overrides(b, ov) == Err::<Seq<Seq<KeyChord>>, Seq<char>>(e),
    decreases ov.len() - n,
{
    if n < ov.len() {
        assert(ov.take(n + 1).drop_last() =~= ov.take(n));
        lemma_apply_err(b, ov, n + 1, e);
    } else {
        assert(ov.take(n) =~= ov);
    }
}

fn find_action(name: &String) -> (r: Option<Action>)
    ensures
        r == named_from(name@, 0),
{
    let all = actions();
    let v = chars_of(name.as_str());
    let mut k: usize = 0;
    while k < all.len()
        invariant
            k <= all.len(),
            all@ == action_list(),
            v@ == name@,
            named_from(name@, 0) == named_from(name@, k as int),
        decreases all.len() - k,
    {
        if eq_lit(&v, action_name(all[k])) {
            return Some(all[k]);
        }
        k = k + 1;
    }
    None
}

fn without_exec(ks: &Vec<KeyChord>, cs: &Vec<KeyChord>) -> (r: Vec<KeyChord>)
    ensures
        r@ == without(ks@, cs@),
{
    let mut out: Vec<KeyChord> = Vec::new();
    let mut i: usize = 0;
    assert(ks@.take(0) =~= Seq::<KeyChord>::empty());
    while i < ks.len()
        invariant
            i <= ks.len(),
            out@ == without(ks@.take(i as int), cs@),
        decreases ks.len() - i,
    {
        assert(ks@.take(i + 1).drop_last() =~= ks@.take(i as int));
        assert(ks@.take(i + 1).last() == ks@[i as int]);
        let c = ks[i];
        let mut taken = false;
        let mut k: usize = 0;
        while k < cs.len()
            invariant
                k <= cs.len(),
                taken == exists|p: int| 0 <= p < k && cs@[p] == c,
            decreases cs.len() - k,
        {
            if cs[k] == c {
                taken = true;
            }
            k = k + 1;
        }
        if !taken {
            out.push(c);
        }
        i = i + 1;
    }
    assert(ks@.take(ks.len() as int) =~= ks@);
    out
}

impl Keymap {
    /// Applies the `[keys]` table of the config, in the order given (the config gives it in
    /// name order). A listed action loses its default keys, and a key it takes is removed from
    /// whichever action had it before. An unknown action or a text that is not a key is an
    /// error.
    pub fn with_overrides(overrides: &Vec<(String, Vec<String>)>) -> (r: Result<Keymap, String>)
        ensures
            r matches Ok(k) ==> apply_overrides(default_bindings(), override_views(overrides@))
                == Ok::<Seq<Seq<KeyChord>>, Seq<char>>(k@) && no_shared(k@),
            r matches Err(e) ==> apply_overrides(default_bindings(), override_views(overrides@))
                == Err::<Seq<Seq<KeyChord>>, Seq<char>>(e@),
    {
        let base = Keymap::default();
        proof {
            use_type_invariant(&base);
        }
        let mut bindings = base.bindings;
        let ghost ov = override_views(overrides@);
        let mut i: usize = 0;
        assert(ov.take(0) =~= Seq::<(Seq<char>, Seq<Seq<char>>)>::empty());
        while i < overrides.len()
            invariant
                i <= overrides.len(),
                ov == override_views(overrides@),
                bindings@.len() == action_list().len(),
                apply_overrides(default_bindings(), ov.take(i as int)) == Ok::<
                    Seq<Seq<KeyChord>>,
                    Seq<char>,
                >(bindings@.map_values(|v: Vec<KeyChord>| v@)),
                no_shared(bindings@.map_values(|v: Vec<KeyChord>| v@)),
            decreases overrides.len() - i,
        {
            let ghost b0 = bindings@.map_values(|v: Vec<KeyChord>| v@);
            assert(ov.take(i + 1).drop_last() =~= ov.take(i as int));
            assert(ov.take(i + 1).last() == ov[i as int]);
            let (name, keys) = &overrides[i];
            let action = match find_action(name) {
                Some(a) => a,
                None => {
                    let mut e = String::new();
                    e.append("unknown action `");
                    e.append(name.as_str());
                    e.append("` in [keys]");
                    proof {
                        lemma_apply_err(default_bindings(), ov, i as int + 1, e@);
                    }
                    return Err(e);
                },
            };
            let chords = match parse_key_list(keys) {
                Ok(cs) => cs,
                Err(e) => {
                    proof {
                        lemma_apply_err(default_bindings(), ov, i as int + 1, e@);
                    }
                    return Err(e);
                },
            };
            let idx = index_of_action(action);
            let mut next: Vec<Vec<KeyChord>> = Vec::new();
            let mut j: usize = 0;
            while j < bindings.len()
                invariant
                    j <= bindings.len(),
                    idx < bindings.len(),
                    b0 == bindings@.map_values(|v: Vec<KeyChord>| v@),
                    next@.map_values(|v: Vec<KeyChord>| v@) == take_keys(b0, idx as int, chords@).take(
                        j as int,
                    ),
                decreases bindings.len() - j,
            {
                let keys_j = if j == idx {
                    copy_keys(&chords)
                } else {
                    without_exec(&bindings[j], &chords)
                };
                let ghost before = next@.map_values(|v: Vec<KeyChord>| v@);
                next.push(keys_j);
                assert(next@.map_values(|v: Vec<KeyChord>| v@) =~= before.push(keys_j@));
                assert(take_keys(b0, idx as int, chords@).take(j + 1) =~= take_keys(
                    b0,
                    idx as int,
                    chords@,
                ).take(j as int).push(take_keys(b0, idx as int, chords@)[j as int]));
                j = j + 1;
            }
            proof {
                lemma_take_keys(b0, idx as int, chords@);
                assert(take_keys(b0, idx as int, chords@).take(j as int) =~= take_keys(
                    b0,
                    idx as int,
                    chords@,
                ));
            }
            bindings = next;
            i = i + 1;
        }
        assert(ov.take(overrides.len() as int) =~= ov);
        Ok(Keymap { bindings })
    }
}

// ---------------------------------------------------------------------------------------------
// The help
// ---------------------------------------------------------------------------------------------
/// A row of the help: an action's keys, two actions' keys side by side, or fixed keys.
#[derive(Debug, Clone, Copy, PartialEq, Eq)]
pub enum Row {
    One(Action, &'static str),
    Pair(Action, Action, &'static str, &'static str),
    Fixed(&'static str, &'static str),
}

/// The help's sections: each title with its rows.
pub open spec fn section_table() -> Seq<(Seq<char>, Seq<Row>)> {
    seq![
        ("Reading"@, seq![Row::Pair(Action::ScrollDown, Action::ScrollUp, ", wheel", "Scroll one line"), Row::Pair(Action::HalfPageDown, Action::HalfPageUp, "", "Half page down / up"), Row::Pair(Action::PageDown, Action::PageUp, "", "Page down / up"), Row::Pair(Action::Top, Action::Bottom, "", "Top / bottom"), Row::One(Action::Toc, "Table of contents"), Row::One(Action::Images, "Show or hide images"), Row::One(Action::FrontMatter, "Expand or collapse the front matter"), Row::One(Action::Reload, "Reload the file")]),
        ("Panels and focus"@, seq![Row::Pair(Action::Files, Action::Outline, "", "Toggle the files / outline panel"), Row::One(Action::FocusMode, "Focus mode: hide the panels, full width"), Row::Fixed("`Tab` / `Shift-Tab`", "Cycle focus between the panes"), Row::Fixed("`Tab` then `←` / `→`", "Move focus in that direction"), Row::One(Action::FocusRight, "Focus the pane to the right"), Row::Pair(Action::ScrollDown, Action::ScrollUp, " in a panel", "Move, Enter opens or returns"), Row::Fixed("`Space`, `←` / `→` in a panel", "Fold, collapse / expand a folder or section"), Row::Fixed("`-` / `=` in a panel", "Fold all / unfold all"), Row::Fixed("`T` in the files panel", "Show titles instead of file names")]),
        ("Links and history"@, seq![Row::Pair(Action::NextLink, Action::PrevLink, "", "Select the next / previous link"), Row::Fixed("`Enter`, click", "Follow the selected link or open a footnote"), Row::Pair(Action::Back, Action::Forward, "", "Back / forward through visited pages"), Row::One(Action::Finder, "Find a file in the folder")]),
        ("Search and editing"@, seq![Row::One(Action::Search, "Search, Enter to keep, Esc to cancel"), Row::Pair(Action::NextMatch, Action::PrevMatch, "", "Next / previous match"), Row::One(Action::Edit, "Edit the file in $EDITOR, reload on return")]),
        ("Help and quit"@, seq![Row::One(Action::Help, "This help"), Row::One(Action::Quit, "Quit")])
    ]
}

fn sections_exec() -> (r: Vec<(&'static str, Vec<Row>)>)
    ensures
        r@.len() == section_table().len(),
        forall|i: int|
            0 <= i < r@.len() ==> (#[trigger] r@[i]).0@ == section_table()[i].0 && r@[i].1@
                == section_table()[i].1,
{
    let mut out: Vec<(&'static str, Vec<Row>)> = Vec::new();
    let mut rows: Vec<Row> = Vec::new();
    rows.push(Row::Pair(Action::ScrollDown, Action::ScrollUp, ", wheel", "Scroll one line"));
    rows.push(Row::Pair(Action::HalfPageDown, Action::HalfPageUp, "", "Half page down / up"));
    rows.push(Row::Pair(Action::PageDown, Action::PageUp, "", "Page down / up"));
    rows.push(Row::Pair(Action::Top, Action::Bottom, "", "Top / bottom"));
    rows.push(Row::One(Action::Toc, "Table of contents"));
    rows.push(Row::One(Action::Images, "Show or hide images"));
    rows.push(Row::One(Action::FrontMatter, "Expand or collapse the front matter"));
    rows.push(Row::One(Action::Reload, "Reload the file"));
    out.push(("Reading", rows));
    let mut rows: Vec<Row> = Vec::new();
    rows.push(Row::Pair(Action::Files, Action::Outline, "", "Toggle the files / outline panel"));
    rows.push(Row::One(Action::FocusMode, "Focus mode: hide the panels, full width"));
    rows.push(Row::Fixed("`Tab` / `Shift-Tab`", "Cycle focus between the panes"));
    rows.push(Row::Fixed("`Tab` then `←` / `→`", "Move focus in that direction"));
    rows.push(Row::One(Action::FocusRight, "Focus the pane to the right"));
    rows.push(Row::Pair(Action::ScrollDown, Action::ScrollUp, " in a panel", "Move, Enter opens or returns"));
    rows.push(Row::Fixed("`Space`, `←` / `→` in a panel", "Fold, collapse / expand a folder or section"));
    rows.push(Row::Fixed("`-` / `=` in a panel", "Fold all / unfold all"));
    rows.push(Row::Fixed("`T` in the files panel", "Show titles instead of file names"));
    out.push(("Panels and focus", rows));
    let mut rows: Vec<Row> = Vec::new();
    rows.push(Row::Pair(Action::NextLink, Action::PrevLink, "", "Select the next / previous link"));
    rows.push(Row::Fixed("`Enter`, click", "Follow the selected link or open a footnote"));
    rows.push(Row::Pair(Action::Back, Action::Forward, "", "Back / forward through visited pages"));
    rows.push(Row::One(Action::Finder, "Find a file in the folder"));
    out.push(("Links and history", rows));
    let mut rows: Vec<Row> = Vec::new();
    rows.push(Row::One(Action::Search, "Search, Enter to keep, Esc to cancel"));
    rows.push(Row::Pair(Action::NextMatch, Action::PrevMatch, "", "Next / previous match"));
    rows.push(Row::One(Action::Edit, "Edit the file in $EDITOR, reload on return"));
    out.push(("Search and editing", rows));
    let mut rows: Vec<Row> = Vec::new();
    rows.push(Row::One(Action::Help, "This help"));
    rows.push(Row::One(Action::Quit, "Quit"));
    out.push(("Help and quit", rows));
    out
}

/// A key in backticks, as the help writes it.
pub open spec fn tick(c: KeyChord) -> Seq<char> {
    seq!['`'] + chord_text(c) + seq!['`']
}

/// Each key in backticks.
pub open spec fn ticks(ks: Seq<KeyChord>) -> Seq<Seq<char>> {
    ks.map_values(|c: KeyChord| tick(c))
}

/// The `i`th pair of two actions' keys: `a / b`, or the one that is there.
pub open spec fn pair_part(a: Seq<KeyChord>, b: Seq<KeyChord>, i: int) -> Seq<char> {
    if i < a.len() && i < b.len() {
        tick(a[i]) + " / "@ + tick(b[i])
    } else if i < a.len() {
        tick(a[i])
    } else {
        tick(b[i])
    }
}

/// The pairs of two actions' keys, as many as the longer list has.
pub open spec fn pair_parts(a: Seq<KeyChord>, b: Seq<KeyChord>) -> Seq<Seq<char>> {
    Seq::new(if a.len() > b.len() { a.len() } else { b.len() }, |i: int| pair_part(a, b, i))
}

/// A help row's keys and label, or nothing for actions without keys.
pub open spec fn row_text(b: Seq<Seq<KeyChord>>, row: Row) -> Option<(Seq<char>, Seq<char>)> {
    match row {
        Row::Fixed(keys, label) => Some((keys@, label@)),
        Row::One(action, label) => {
            let ks = b[action_index(action)];
            if ks.len() == 0 {
                None
            } else {
                Some((join(ticks(ks), ", "@), label@))
            }
        },
        Row::Pair(x, y, suffix, label) => {
            let parts = pair_parts(b[action_index(x)], b[action_index(y)]);
            if parts.len() == 0 {
                None
            } else {
                Some((join(parts, ", "@) + suffix@, label@))
            }
        },
    }
}

/// The rows that have keys, in order.
pub open spec fn rows_text(b: Seq<Seq<KeyChord>>, rows: Seq<Row>) -> Seq<(Seq<char>, Seq<char>)>
    decreases rows.len(),
{
    if rows.len() == 0 {
        seq![]
    } else {
        match row_text(b, rows.last()) {
            Some(r) => rows_text(b, rows.drop_last()).push(r),
            None => rows_text(b, rows.drop_last()),
        }
    }
}

fn tick_exec(c: &KeyChord) -> (r: Vec<char>)
    ensures
        r@ == tick(*c),
{
    let mut out: Vec<char> = Vec::new();
    out.push('`');
    let t = c.to_string();
    let tv = chars_of(t.as_str());
    crate::text::extend(&mut out, &tv);
    out.push('`');
    assert(out@ =~= tick(*c));
    out
}

fn one_text(ks: &[KeyChord]) -> (r: Vec<char>)
    ensures
        r@ == join(ticks(ks@), ", "@),
{
    let mut parts: Vec<Vec<char>> = Vec::new();
    let mut i: usize = 0;
    while i < ks.len()
        invariant
            i <= ks.len(),
            crate::text::views(parts@) == ticks(ks@).take(i as int),
        decreases ks.len() - i,
    {
        let t = tick_exec(&ks[i]);
        let ghost before = crate::text::views(parts@);
        parts.push(t);
        assert(crate::text::views(parts@) =~= before.push(t@));
        assert(ticks(ks@).take(i + 1) =~= ticks(ks@).take(i as int).push(tick(ks@[i as int])));
        i = i + 1;
    }
    assert(ticks(ks@).take(ks.len() as int) =~= ticks(ks@));
    let sep = chars_of(", ");
    join_vec(&parts, &sep)
}

fn pair_text(a: &[KeyChord], b: &[KeyChord]) -> (r: Vec<Vec<char>>)
    ensures
        crate::text::views(r@) == pair_parts(a@, b@),
{
    let n = if a.len() > b.len() {
        a.len()
    } else {
        b.len()
    };
    let mut parts: Vec<Vec<char>> = Vec::new();
    let mut i: usize = 0;
    while i < n
        invariant
            i <= n,
            n == (if a@.len() > b@.len() { a@.len() } else { b@.len() }),
            crate::text::views(parts@) == pair_parts(a@, b@).take(i as int),
        decreases n - i,
    {
        let part = if i < a.len() && i < b.len() {
            let mut p = tick_exec(&a[i]);
            let mid = chars_of(" / ");
            crate::text::extend(&mut p, &mid);
            let y = tick_exec(&b[i]);
            crate::text::extend(&mut p, &y);
            p
        } else if i < a.len() {
            tick_exec(&a[i])
        } else {
            tick_exec(&b[i])
        };
        assert(part@ =~= pair_part(a@, b@, i as int));
        let ghost before = crate::text::views(parts@);
        parts.push(part);
        assert(crate::text::views(parts@) =~= before.push(part@));
        assert(pair_parts(a@, b@).take(i + 1) =~= pair_parts(a@, b@).take(i as int).push(
            pair_part(a@, b@, i as int),
        ));
        i = i + 1;
    }
    assert(pair_parts(a@, b@).take(n as int) =~= pair_parts(a@, b@));
    parts
}

/// The texts of pairs of a string and a static string.
pub open spec fn row_views(v: Seq<(String, &'static str)>) -> Seq<(Seq<char>, Seq<char>)> {
    v.map_values(|e: (String, &'static str)| (e.0@, e.1@))
}

impl Keymap {
    fn row_keys(&self, row: Row) -> (r: Option<(String, &'static str)>)
        ensures
            r is None ==> row_text(self@, row) is None,
            r matches Some(x) ==> row_text(self@, row) == Some((x.0@, x.1@)),
    {
        match row {
            Row::Fixed(keys, label) => Some((keys.to_string(), label)),
            Row::One(action, label) => {
                let ks = self.keys(action);
                if ks.len() == 0 {
                    None
                } else {
                    let t = one_text(ks);
                    Some((string_of(&t), label))
                }
            },
            Row::Pair(x, y, suffix, label) => {
                let a = self.keys(x);
                let b = self.keys(y);
                let parts = pair_text(a, b);
                if parts.len() == 0 {
                    None
                } else {
                    let sep = chars_of(", ");
                    let mut t = join_vec(&parts, &sep);
                    let sv = chars_of(suffix);
                    crate::text::extend(&mut t, &sv);
                    Some((string_of(&t), label))
                }
            },
        }
    }

    /// The help's sections: each title with its rows of keys in backticks and what they do.
    /// An action without keys has no row.
    pub fn sections(&self) -> (r: Vec<(&'static str, Vec<(String, &'static str)>)>)
        ensures
            r@.len() == section_table().len(),
            forall|i: int|
                0 <= i < r@.len() ==> (#[trigger] r@[i]).0@ == section_table()[i].0 && row_views(
                    r@[i].1@,
                ) == rows_text(self@, section_table()[i].1),
    {
        let table = sections_exec();
        let mut out: Vec<(&'static str, Vec<(String, &'static str)>)> = Vec::new();
        let mut i: usize = 0;
        while i < table.len()
            invariant
                i <= table.len(),
                table@.len() == section_table().len(),
                forall|k: int|
                    0 <= k < table@.len() ==> (#[trigger] table@[k]).0@ == section_table()[k].0
                        && table@[k].1@ == section_table()[k].1,
                out@.len() == i,
                forall|k: int|
                    0 <= k < i ==> (#[trigger] out@[k]).0@ == section_table()[k].0 && row_views(
                        out@[k].1@,
                    ) == rows_text(self@, section_table()[k].1),
            decreases table.len() - i,
        {
            let (title, rows) = &table[i];
            let ghost rs = rows@;
            let mut texts: Vec<(String, &'static str)> = Vec::new();
            let mut j: usize = 0;
            assert(rs.take(0) =~= Seq::<Row>::empty());
            assert(row_views(texts@) =~= Seq::<(Seq<char>, Seq<char>)>::empty());
            while j < rows.len()
                invariant
                    j <= rows.len(),
                    rs == rows@,
                    row_views(texts@) == rows_text(self@, rs.take(j as int)),
                decreases rows.len() - j,
            {
                assert(rs.take(j + 1).drop_last() =~= rs.take(j as int));
                assert(rs.take(j + 1).last() == rs[j as int]);
                let ghost before = row_views(texts@);
                match self.row_keys(rows[j]) {
                    Some(x) => {
                        texts.push(x);
                        assert(row_views(texts@) =~= before.push((x.0@, x.1@)));
                    },
                    None => {},
                }
                j = j + 1;
            }
            assert(rs.take(rows.len() as int) =~= rs);
            out.push((*title, texts));
            i = i + 1;
        }
        out
    }
}

/// `keys` without its backticks.
pub open spec fn plain_spec(keys: Seq<char>) -> Seq<char>
    decreases keys.len(),
{
    if keys.len() == 0 {
        seq![]
    } else if keys.last() == '`' {
        plain_spec(keys.drop_last())
    } else {
        plain_spec(keys.drop_last()).push(keys.last())
    }
}

/// Keys as the help writes them, without the backticks.
pub fn plain(keys: &str) -> (r: String)
    ensures
        r@ == plain_spec(keys@),
{
    let v = chars_of(keys);
    let mut out = String::new();
    let mut i: usize = 0;
    assert(v@.take(0) =~= Seq::<char>::empty());
    while i < v.len()
        invariant
            i <= v.len(),
            v@ == keys@,
            out@ == plain_spec(v@.take(i as int)),
        decreases v.len() - i,
    {
        assert(v@.take(i + 1).drop_last() =~= v@.take(i as int));
        if v[i] != '`' {
            push_char(&mut out, v[i]);
        }
        i = i + 1;
    }
    assert(v@.take(v.len() as int) =~= v@);
    out
}

// ---------------------------------------------------------------------------------------------
// The keys page of the docs
// ---------------------------------------------------------------------------------------------
/// The rows of a Markdown table of keys.
pub open spec fn rows_md(rows: Seq<(Seq<char>, Seq<char>)>) -> Seq<char>
    decreases rows.len(),
{
    if rows.len() == 0 {
        seq![]
    } else {
        rows_md(rows.drop_last()) + "| "@ + rows.last().0 + " | "@ + rows.last().1 + " |\n"@
    }
}

/// The help's sections as Markdown: a heading and a table each.
pub open spec fn sections_md(b: Seq<Seq<KeyChord>>, table: Seq<(Seq<char>, Seq<Row>)>) -> Seq<char>
    decreases table.len(),
{
    if table.len() == 0 {
        seq![]
    } else {
        sections_md(b, table.drop_last()) + "## "@ + table.last().0
            + "\n\n| Key | Action |\n| --- | --- |\n"@ + rows_md(rows_text(b, table.last().1))
            + "\n"@
    }
}

/// The table of actions: each name, its keys and what it does.
pub open spec fn actions_md(b: Seq<Seq<KeyChord>>, acts: Seq<Action>) -> Seq<char>
    decreases acts.len(),
{
    if acts.len() == 0 {
        seq![]
    } else {
        let a = acts.last();
        actions_md(b, acts.drop_last()) + "| `"@ + action_name_spec(a) + "` | "@ + join(
            ticks(b[action_index(a)]),
            ", "@,
        ) + " | "@ + action_about_spec(a) + " |\n"@
    }
}

/// The generated part of the keys page: the help's sections, how remapping works, and every
/// action with its default keys.
pub open spec fn markdown_spec() -> Seq<char> {
    sections_md(default_bindings(), section_table()) + "## Remapping\n\nEvery key above that is not fixed can be bound in the `[keys]` table of the [config file](configuration.md). An action listed there loses its default keys, and a key it takes is removed from the action that had it. An empty list unbinds the action.\n\n```toml\n[keys]\nscroll_down = [\"j\", \"down\", \"ctrl-n\"]\nquit = [\"q\", \"ctrl-q\"]\nimages = []\n```\n\nKeys are written as a single character, which keeps its case, a name (`space`, `enter`, `esc`, `tab`, `backspace`, `up`, `down`, `left`, `right`, `pageup`, `pagedown`, `home`, `end`, `f1` to `f12`), or either with a `ctrl-` or `alt-` prefix. `Esc`, `Tab`, `Ctrl-c` and the panel keys are fixed. `Enter`, `PgDn`, `PgUp`, `Home` and `End` scroll, page and jump unless a binding takes them.\n\n| Action | Default | What it does |\n| --- | --- | --- |\n"@ + actions_md(
        default_bindings(),
        action_list(),
    )
}

/// The generated part of the keys page of the docs: the help's sections with the default keys,
/// how remapping works, and every action with its default keys.
pub fn markdown() -> (r: String)
    ensures
        r@ == markdown_spec(),
{
    let keymap = Keymap::default();
    let secs = keymap.sections();
    let ghost table = section_table();
    let mut out = String::new();
    let mut i: usize = 0;
    assert(table.take(0) =~= Seq::<(Seq<char>, Seq<Row>)>::empty());
    while i < secs.len()
        invariant
            i <= secs.len(),
            secs@.len() == table.len(),
            table == section_table(),
            keymap@ == default_bindings(),
            forall|k: int|
                0 <= k < secs@.len() ==> (#[trigger] secs@[k]).0@ == table[k].0 && row_views(
                    secs@[k].1@,
                ) == rows_text(keymap@, table[k].1),
            out@ == sections_md(default_bindings(), table.take(i as int)),
        decreases secs.len() - i,
    {
        assert(table.take(i + 1).drop_last() =~= table.take(i as int));
        assert(table.take(i + 1).last() == table[i as int]);
        let (title, rows) = &secs[i];
        let ghost rv = row_views(rows@);
        let ghost pre = out@;
        out.append("## ");
        out.append(title);
        out.append("\n\n| Key | Action |\n| --- | --- |\n");
        let ghost mid = out@;
        let mut j: usize = 0;
        assert(rv.take(0) =~= Seq::<(Seq<char>, Seq<char>)>::empty());
        while j < rows.len()
            invariant
                j <= rows.len(),
                rv == row_views(rows@),
                out@ == mid + rows_md(rv.take(j as int)),
            decreases rows.len() - j,
        {
            assert(rv.take(j + 1).drop_last() =~= rv.take(j as int));
            assert(rv.take(j + 1).last() == (rows@[j as int].0@, rows@[j as int].1@));
            let (keys, action) = &rows[j];
            out.append("| ");
            out.append(keys.as_str());
            out.append(" | ");
            out.append(action);
            out.append(" |\n");
            j = j + 1;
            assert(out@ =~= mid + rows_md(rv.take(j as int)));
        }
        assert(rv.take(rows.len() as int) =~= rv);
        out.append("\n");
        i = i + 1;
        assert(out@ =~= sections_md(default_bindings(), table.take(i as int)));
    }
    assert(table.take(secs.len() as int) =~= table);
    out.append("## Remapping\n\nEvery key above that is not fixed can be bound in the `[keys]` table of the [config file](configuration.md). An action listed there loses its default keys, and a key it takes is removed from the action that had it. An empty list unbinds the action.\n\n```toml\n[keys]\nscroll_down = [\"j\", \"down\", \"ctrl-n\"]\nquit = [\"q\", \"ctrl-q\"]\nimages = []\n```\n\nKeys are written as a single character, which keeps its case, a name (`space`, `enter`, `esc`, `tab`, `backspace`, `up`, `down`, `left`, `right`, `pageup`, `pagedown`, `home`, `end`, `f1` to `f12`), or either with a `ctrl-` or `alt-` prefix. `Esc`, `Tab`, `Ctrl-c` and the panel keys are fixed. `Enter`, `PgDn`, `PgUp`, `Home` and `End` scroll, page and jump unless a binding takes them.\n\n| Action | Default | What it does |\n| --- | --- | --- |\n");
    let ghost before_actions = out@;
    let all = actions();
    let mut k: usize = 0;
    assert(action_list().take(0) =~= Seq::<Action>::empty());
    while k < all.len()
        invariant
            k <= all.len(),
            all@ == action_list(),
            keymap@ == default_bindings(),
            out@ == before_actions + actions_md(default_bindings(), action_list().take(k as int)),
        decreases all.len() - k,
    {
        assert(action_list().take(k + 1).drop_last() =~= action_list().take(k as int));
        assert(action_list().take(k + 1).last() == all@[k as int]);
        let a = all[k];
        out.append("| `");
        out.append(action_name(a));
        out.append("` | ");
        let t = one_text(keymap.keys(a));
        let ts = string_of(&t);
        out.append(ts.as_str());
        out.append(" | ");
        out.append(action_about(a));
        out.append(" |\n");
        k = k + 1;
        assert(out@ =~= before_actions + actions_md(default_bindings(), action_list().take(k as int)));
    }
    assert(action_list().take(all.len() as int) =~= action_list());
    out
}

} // verus!
