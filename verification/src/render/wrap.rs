//! Display widths of text as terminals count them, and the word wrapping of styled text into
//! lines of at most a given number of columns.
use unicode_width::{UnicodeWidthChar, UnicodeWidthStr};
use vstd::prelude::*;

use crate::render::theme::Color;
use crate::text::{chars_of, is_whitespace, is_ws, string_of};

verus! {

/// What a link on screen leads to.
#[derive(Debug, Clone, Copy, PartialEq, Eq, Structural)]
pub enum LinkKind {
    Url,
    Wiki,
    Footnote,
}

/// The columns `unicode-width` gives a character, `None` for control characters.
pub uninterp spec fn char_columns(c: char) -> Option<nat>;

/// The columns `unicode-width` gives a string.
pub uninterp spec fn str_columns(s: Seq<char>) -> nat;

/// `UnicodeWidthChar::width`: the columns a character takes, from the crate's Unicode tables;
/// the contract names the answer.
#[verifier::external_body]
pub fn char_width(c: char) -> (r: Option<usize>)
    ensures
        r is None ==> char_columns(c) is None,
        r matches Some(w) ==> char_columns(c) == Some(w as nat),
{
    UnicodeWidthChar::width(c)
}

/// `UnicodeWidthStr::width`: the columns a string takes, from the crate's Unicode tables; the
/// contract names the answer.
#[verifier::external_body]
pub fn width(s: &str) -> (r: usize)
    ensures
        r == str_columns(s@),
{
    UnicodeWidthStr::width(s)
}

/// Text attributes, as the terminal draws them.
pub const BOLD: u16 = 1;
pub const DIM: u16 = 2;
pub const ITALIC: u16 = 4;
pub const UNDERLINED: u16 = 8;
pub const REVERSED: u16 = 64;
pub const CROSSED_OUT: u16 = 256;

/// How a run of text is drawn: foreground and background colors (none: the terminal's own)
/// and the attribute bits above.
#[derive(Debug, Clone, Copy, PartialEq, Eq, Structural)]
pub struct Style {
    pub fg: Option<Color>,
    pub bg: Option<Color>,
    pub modifiers: u16,
}

/// `base` with `other` laid over it.
pub open spec fn patch_spec(base: Style, other: Style) -> Style {
    Style {
        fg: if other.fg is Some {
            other.fg
        } else {
            base.fg
        },
        bg: if other.bg is Some {
            other.bg
        } else {
            base.bg
        },
        modifiers: base.modifiers | other.modifiers,
    }
}

impl Style {
    pub fn new() -> (s: Style)
        ensures
            s == (Style { fg: None, bg: None, modifiers: 0 }),
    {
        Style { fg: None, bg: None, modifiers: 0 }
    }

    pub fn fg(self, c: Color) -> (s: Style)
        ensures
            s == (Style { fg: Some(c), ..self }),
    {
        Style { fg: Some(c), ..self }
    }

    pub fn bg(self, c: Color) -> (s: Style)
        ensures
            s == (Style { bg: Some(c), ..self }),
    {
        Style { bg: Some(c), ..self }
    }

    pub fn add_modifier(self, m: u16) -> (s: Style)
        ensures
            s == (Style { modifiers: self.modifiers | m, ..self }),
    {
        Style { modifiers: self.modifiers | m, ..self }
    }

    /// This style with `other` laid over it: its colors where it has them, and the
    /// attributes of both.
    pub fn patch(self, other: Style) -> (s: Style)
        ensures
            s == patch_spec(self, other),
    {
        Style {
            fg: match other.fg {
                Some(c) => Some(c),
                None => self.fg,
            },
            bg: match other.bg {
                Some(c) => Some(c),
                None => self.bg,
            },
            modifiers: self.modifiers | other.modifiers,
        }
    }

    pub fn bold(self) -> (s: Style)
        ensures
            s == (Style { modifiers: self.modifiers | BOLD, ..self }),
    {
        self.add_modifier(BOLD)
    }

    pub fn dim(self) -> (s: Style)
        ensures
            s == (Style { modifiers: self.modifiers | DIM, ..self }),
    {
        self.add_modifier(DIM)
    }

    pub fn italic(self) -> (s: Style)
        ensures
            s == (Style { modifiers: self.modifiers | ITALIC, ..self }),
    {
        self.add_modifier(ITALIC)
    }
}

/// Styled text on a line.
#[derive(Debug, Clone)]
pub struct Span {
    pub content: String,
    pub style: Style,
}

/// A piece of text to wrap: text that may break at its spaces, text that never breaks
/// (`atomic`), or a forced line break.
#[derive(Debug, Clone)]
pub enum Piece {
    Text { text: String, style: Style, atomic: bool },
    Break,
}

impl Piece {
    /// Text that may break at its spaces.
    pub fn text(text: &str, style: Style) -> (p: Piece)
        ensures
            p matches Piece::Text { text: t, style: st, atomic } && t@ == text@ && st == style
                && !atomic,
    {
        Piece::Text { text: text.to_owned(), style, atomic: false }
    }

    /// Text kept whole, spaces included.
    pub fn atomic(text: &str, style: Style) -> (p: Piece)
        ensures
            p matches Piece::Text { text: t, style: st, atomic } && t@ == text@ && st == style
                && atomic,
    {
        Piece::Text { text: text.to_owned(), style, atomic: true }
    }
}

// ---------------------------------------------------------------------------------------------
// The wrapping, as a sequence of states
// ---------------------------------------------------------------------------------------------
/// A count of columns, stopped at the largest `usize`.
pub open spec fn sat(n: nat) -> nat {
    if n > usize::MAX {
        usize::MAX as nat
    } else {
        n
    }
}

/// A character's columns, 0 for a control character.
pub open spec fn char_cols(c: char) -> nat {
    match char_columns(c) {
        Some(w) => w,
        None => 0,
    }
}

/// Where the wrapping stands: the lines done, the line being filled and its columns, and the
/// word being gathered.
#[verifier::ext_equal]
pub struct WrapState {
    pub lines: Seq<Seq<(Seq<char>, Style)>>,
    pub cur: Seq<(Seq<char>, Style)>,
    pub cur_width: nat,
    pub word: Seq<(Seq<char>, Style)>,
}

/// Nothing wrapped yet.
pub open spec fn start_state() -> WrapState {
    WrapState { lines: seq![], cur: seq![], cur_width: 0, word: seq![] }
}

/// A span that draws nothing: only whitespace, and no background.
pub open spec fn blank_run(r: (Seq<char>, Style)) -> bool {
    &&& forall|i: int| 0 <= i < r.0.len() ==> is_ws(#[trigger] r.0[i])
    &&& r.1.bg is None
}

/// The spans without their trailing blank ones.
pub open spec fn trim_tail(spans: Seq<(Seq<char>, Style)>) -> Seq<(Seq<char>, Style)>
    decreases spans.len(),
{
    if spans.len() > 0 && blank_run(spans.last()) {
        trim_tail(spans.drop_last())
    } else {
        spans
    }
}

/// The spans with each run of neighbours of one style joined into one span.
pub open spec fn merge_runs(spans: Seq<(Seq<char>, Style)>) -> Seq<(Seq<char>, Style)>
    decreases spans.len(),
{
    if spans.len() == 0 {
        seq![]
    } else {
        let m = merge_runs(spans.drop_last());
        let s = spans.last();
        if m.len() > 0 && m.last().1 == s.1 {
            m.update(m.len() - 1, (m.last().0 + s.0, s.1))
        } else {
            m.push(s)
        }
    }
}

/// The current line closed: trimmed, merged and added to the lines.
pub open spec fn flush_s(s: WrapState) -> WrapState {
    WrapState {
        lines: s.lines.push(merge_runs(trim_tail(s.cur))),
        cur: seq![],
        cur_width: 0,
        word: s.word,
    }
}

/// `text` added to the current line.
pub open spec fn push_s(s: WrapState, text: Seq<char>, style: Style) -> WrapState {
    WrapState {
        cur: s.cur.push((text, style)),
        cur_width: sat(s.cur_width + str_columns(text)),
        ..s
    }
}

/// A space added, unless the line is still empty.
pub open spec fn space_s(s: WrapState, text: Seq<char>, style: Style) -> WrapState {
    if s.cur_width > 0 {
        push_s(s, text, style)
    } else {
        s
    }
}

/// The columns of the word's parts together.
pub open spec fn word_columns(word: Seq<(Seq<char>, Style)>) -> nat
    decreases word.len(),
{
    if word.len() == 0 {
        0
    } else {
        sat(word_columns(word.drop_last()) + str_columns(word.last().0))
    }
}

/// Each part of a word added to the current line.
pub open spec fn push_all(s: WrapState, word: Seq<(Seq<char>, Style)>) -> WrapState
    decreases word.len(),
{
    if word.len() == 0 {
        s
    } else {
        let t = push_all(s, word.drop_last());
        push_s(t, word.last().0, word.last().1)
    }
}

/// Hard splitting of a too long part: the state, the chunk gathered and its columns.
#[verifier::ext_equal]
pub struct SplitState {
    pub s: WrapState,
    pub chunk: Seq<char>,
    pub chunk_width: nat,
}

/// One character of a hard split: the chunk goes out and the line closes when the character
/// would not fit on a line that already holds something.
pub open spec fn split_step(st: SplitState, ch: char, style: Style, w: nat) -> SplitState {
    let cw = char_cols(ch);
    let used = sat(st.s.cur_width + st.chunk_width);
    if sat(used + cw) > w && used > 0 {
        SplitState { s: flush_s(push_s(st.s, st.chunk, style)), chunk: seq![ch], chunk_width: sat(cw) }
    } else {
        SplitState { s: st.s, chunk: st.chunk.push(ch), chunk_width: sat(st.chunk_width + cw) }
    }
}

pub open spec fn split_chars(st: SplitState, chars: Seq<char>, style: Style, w: nat) -> SplitState
    decreases chars.len(),
{
    if chars.len() == 0 {
        st
    } else {
        split_step(split_chars(st, chars.drop_last(), style, w), chars.last(), style, w)
    }
}

/// One part split over as many lines as it needs.
pub open spec fn split_part(s: WrapState, part: (Seq<char>, Style), w: nat) -> WrapState {
    let f = split_chars(SplitState { s, chunk: seq![], chunk_width: 0 }, part.0, part.1, w);
    push_s(f.s, f.chunk, part.1)
}

pub open spec fn split_all(s: WrapState, word: Seq<(Seq<char>, Style)>, w: nat) -> WrapState
    decreases word.len(),
{
    if word.len() == 0 {
        s
    } else {
        split_part(split_all(s, word.drop_last(), w), word.last(), w)
    }
}

/// The gathered word placed: on a new line when it does not fit after what the line holds,
/// and split character by character when it is wider than a line.
pub open spec fn end_word_s(s: WrapState, w: nat) -> WrapState {
    if s.word.len() == 0 {
        s
    } else {
        let word = s.word;
        let s0 = WrapState { word: seq![], ..s };
        let total = word_columns(word);
        let s1 = if s0.cur_width > 0 && sat(s0.cur_width + total) > w {
            flush_s(s0)
        } else {
            s0
        };
        if total <= w {
            push_all(s1, word)
        } else {
            split_all(s1, word, w)
        }
    }
}

/// Where the run of spaces or of non-spaces that starts `s` ends, looking from `k` on.
pub open spec fn run_end(s: Seq<char>, k: int) -> int
    decreases s.len() - k,
{
    if 0 < k < s.len() && (s[k] == ' ') == (s[0] == ' ') {
        run_end(s, k + 1)
    } else {
        k
    }
}

/// `s` cut into its runs of spaces and of other characters.
pub open spec fn tokens(s: Seq<char>) -> Seq<Seq<char>>
    decreases s.len(),
{
    if s.len() == 0 {
        seq![]
    } else {
        let e = run_end(s, 1);
        if 1 <= e <= s.len() {
            seq![s.take(e)] + tokens(s.skip(e))
        } else {
            seq![]
        }
    }
}

/// One token: spaces end the word and go on the line, anything else joins the word.
pub open spec fn token_s(s: WrapState, tok: Seq<char>, style: Style, w: nat) -> WrapState {
    if tok.len() > 0 && tok[0] == ' ' {
        space_s(end_word_s(s, w), tok, style)
    } else {
        WrapState { word: s.word.push((tok, style)), ..s }
    }
}

pub open spec fn tokens_s(s: WrapState, toks: Seq<Seq<char>>, style: Style, w: nat) -> WrapState
    decreases toks.len(),
{
    if toks.len() == 0 {
        s
    } else {
        token_s(tokens_s(s, toks.drop_last(), style, w), toks.last(), style, w)
    }
}

/// One piece.
pub open spec fn piece_s(s: WrapState, p: Piece, w: nat) -> WrapState {
    match p {
        Piece::Break => flush_s(end_word_s(s, w)),
        Piece::Text { text, style, atomic } => if atomic {
            WrapState { word: s.word.push((text@, style)), ..s }
        } else {
            tokens_s(s, tokens(text@), style, w)
        },
    }
}

pub open spec fn pieces_s(s: WrapState, ps: Seq<Piece>, w: nat) -> WrapState
    decreases ps.len(),
{
    if ps.len() == 0 {
        s
    } else {
        piece_s(pieces_s(s, ps.drop_last(), w), ps.last(), w)
    }
}

/// The last word placed and the last line closed, if it holds anything.
pub open spec fn finish_s(s: WrapState, w: nat) -> WrapState {
    let t = end_word_s(s, w);
    if t.cur.len() > 0 {
        flush_s(t)
    } else {
        t
    }
}

/// The lines `pieces` wrap into at `width` columns (at least one).
pub open spec fn wrapped(pieces: Seq<Piece>, width: nat) -> Seq<Seq<(Seq<char>, Style)>> {
    let w = if width == 0 {
        1
    } else {
        width
    };
    finish_s(pieces_s(start_state(), pieces, w), w).lines
}

pub open spec fn span_view(s: Span) -> (Seq<char>, Style) {
    (s.content@, s.style)
}

pub open spec fn spans_view(v: Seq<Span>) -> Seq<(Seq<char>, Style)> {
    v.map_values(|s: Span| span_view(s))
}

pub open spec fn lines_view(v: Seq<Vec<Span>>) -> Seq<Seq<(Seq<char>, Style)>> {
    v.map_values(|l: Vec<Span>| spans_view(l@))
}

// ---------------------------------------------------------------------------------------------
// The wrapper
// ---------------------------------------------------------------------------------------------
/// Whether the span draws nothing.
fn is_blank(span: &Span) -> (b: bool)
    ensures
        b == blank_run(span_view(*span)),
{
    if span.style.bg.is_some() {
        return false;
    }
    let cs = chars_of(span.content.as_str());
    let mut i: usize = 0;
    while i < cs.len()
        invariant
            i <= cs.len(),
            cs@ == span.content@,
            forall|k: int| 0 <= k < i ==> is_ws(#[trigger] cs@[k]),
        decreases cs.len() - i,
    {
        if !is_whitespace(cs[i]) {
            assert(!is_ws(span_view(*span).0[i as int]));
            return false;
        }
        i = i + 1;
    }
    true
}

fn trim_tail_exec(cur: &mut Vec<Span>)
    ensures
        spans_view(final(cur)@) == trim_tail(spans_view(old(cur)@)),
{
    let ghost goal = trim_tail(spans_view(cur@));
    while cur.len() > 0 && is_blank(&cur[cur.len() - 1])
        invariant
            trim_tail(spans_view(cur@)) == goal,
        decreases cur.len(),
    {
        let ghost before = spans_view(cur@);
        cur.pop();
        assert(spans_view(cur@) =~= before.drop_last());
    }
}

pub open spec fn parts_view(v: Seq<(Vec<char>, Style)>) -> Seq<(Seq<char>, Style)> {
    v.map_values(|p: (Vec<char>, Style)| (p.0@, p.1))
}

fn merge_exec(cur: &Vec<Span>) -> (r: Vec<Span>)
    ensures
        spans_view(r@) == merge_runs(spans_view(cur@)),
{
    let ghost sv = spans_view(cur@);
    let mut acc: Vec<(Vec<char>, Style)> = Vec::new();
    let mut i: usize = 0;
    while i < cur.len()
        invariant
            i <= cur.len(),
            sv == spans_view(cur@),
            parts_view(acc@) == merge_runs(sv.take(i as int)),
        decreases cur.len() - i,
    {
        let cs = chars_of(cur[i].content.as_str());
        let st = cur[i].style;
        let ghost m = parts_view(acc@);
        assert(sv.take(i + 1).drop_last() =~= sv.take(i as int));
        assert(sv.take(i + 1).last() == sv[i as int]);
        let n = acc.len();
        if n > 0 && acc[n - 1].1 == st {
            let mut last = acc.pop().unwrap();
            crate::text::extend(&mut last.0, &cs);
            acc.push(last);
            assert(parts_view(acc@) =~= m.update(m.len() - 1, (m.last().0 + cs@, st)));
        } else {
            acc.push((cs, st));
            assert(parts_view(acc@) =~= m.push((cs@, st)));
        }
        i = i + 1;
    }
    assert(sv.take(cur.len() as int) =~= sv);
    let mut out: Vec<Span> = Vec::new();
    let mut j: usize = 0;
    while j < acc.len()
        invariant
            j <= acc.len(),
            out@.len() == j,
            spans_view(out@) == parts_view(acc@).take(j as int),
        decreases acc.len() - j,
    {
        let content = string_of(&acc[j].0);
        let ghost before = out@;
        out.push(Span { content, style: acc[j].1 });
        assert(forall|k: int| 0 <= k < j ==> out@[k] == before[k]);
        assert(spans_view(out@) =~= parts_view(acc@).take(j + 1));
        j = j + 1;
    }
    assert(parts_view(acc@).take(acc.len() as int) =~= parts_view(acc@));
    out
}

/// The columns of a word's parts together.
fn columns(word: &Vec<Span>) -> (r: usize)
    ensures
        r == word_columns(spans_view(word@)),
{
    let ghost wv = spans_view(word@);
    let mut total: usize = 0;
    let mut i: usize = 0;
    while i < word.len()
        invariant
            i <= word.len(),
            wv == spans_view(word@),
            total == word_columns(wv.take(i as int)),
        decreases word.len() - i,
    {
        assert(wv.take(i + 1).drop_last() =~= wv.take(i as int));
        total = total.saturating_add(width(word[i].content.as_str()));
        i = i + 1;
    }
    assert(wv.take(word.len() as int) =~= wv);
    total
}

/// The wrapping in progress.
struct Wrapper {
    width: usize,
    lines: Vec<Vec<Span>>,
    cur: Vec<Span>,
    cur_width: usize,
    word: Vec<Span>,
}

impl Wrapper {
    spec fn state(&self) -> WrapState {
        WrapState {
            lines: lines_view(self.lines@),
            cur: spans_view(self.cur@),
            cur_width: self.cur_width as nat,
            word: spans_view(self.word@),
        }
    }

    fn flush(&mut self)
        ensures
            final(self).state() == flush_s(old(self).state()),
            final(self).width == old(self).width,
    {
        let mut cur: Vec<Span> = Vec::new();
        std::mem::swap(&mut cur, &mut self.cur);
        trim_tail_exec(&mut cur);
        let merged = merge_exec(&cur);
        let ghost before = self.lines@;
        self.lines.push(merged);
        assert(lines_view(self.lines@) =~= lines_view(before).push(spans_view(merged@)));
        assert(spans_view(self.cur@) =~= Seq::<(Seq<char>, Style)>::empty());
        self.cur_width = 0;
    }

    fn push(&mut self, text: String, style: Style)
        ensures
            final(self).state() == push_s(old(self).state(), text@, style),
            final(self).width == old(self).width,
    {
        self.cur_width = self.cur_width.saturating_add(width(text.as_str()));
        let ghost before = self.cur@;
        self.cur.push(Span { content: text, style });
        assert(spans_view(self.cur@) =~= spans_view(before).push((text@, style)));
    }

    fn space(&mut self, text: String, style: Style)
        ensures
            final(self).state() == space_s(old(self).state(), text@, style),
            final(self).width == old(self).width,
    {
        if self.cur_width > 0 {
            self.push(text, style);
        }
    }

    fn push_all_exec(&mut self, word: &Vec<Span>)
        ensures
            final(self).state() == push_all(old(self).state(), spans_view(word@)),
            final(self).width == old(self).width,
    {
        let ghost s0 = self.state();
        let ghost w0 = self.width;
        let ghost wv = spans_view(word@);
        let mut i: usize = 0;
        while i < word.len()
            invariant
                i <= word.len(),
                wv == spans_view(word@),
                self.width == w0,
                self.state() == push_all(s0, wv.take(i as int)),
            decreases word.len() - i,
        {
            assert(wv.take(i + 1).drop_last() =~= wv.take(i as int));
            let text = word[i].content.clone();
            self.push(text, word[i].style);
            i = i + 1;
        }
        assert(wv.take(word.len() as int) =~= wv);
    }

    fn split_part_exec(&mut self, part: &Span)
        ensures
            final(self).state() == split_part(old(self).state(), span_view(*part), old(self).width as nat),
            final(self).width == old(self).width,
    {
        let ghost s0 = self.state();
        let ghost w0 = self.width;
        let cs = chars_of(part.content.as_str());
        let style = part.style;
        let mut chunk: Vec<char> = Vec::new();
        let mut chunk_width: usize = 0;
        let mut i: usize = 0;
        while i < cs.len()
            invariant
                i <= cs.len(),
                self.width == w0,
                (SplitState { s: self.state(), chunk: chunk@, chunk_width: chunk_width as nat })
                    == split_chars(
                    SplitState { s: s0, chunk: seq![], chunk_width: 0 },
                    cs@.take(i as int),
                    style,
                    w0 as nat,
                ),
            decreases cs.len() - i,
        {
            let ch = cs[i];
            assert(cs@.take(i + 1).drop_last() =~= cs@.take(i as int));
            let cw = match char_width(ch) {
                Some(w) => w,
                None => 0,
            };
            let used = self.cur_width.saturating_add(chunk_width);
            if used.saturating_add(cw) > self.width && used > 0 {
                let text = string_of(&chunk);
                self.push(text, style);
                self.flush();
                chunk = Vec::new();
                chunk.push(ch);
                assert(chunk@ =~= seq![ch]);
                chunk_width = cw;
            } else {
                chunk.push(ch);
                chunk_width = chunk_width.saturating_add(cw);
            }
            i = i + 1;
        }
        assert(cs@.take(cs.len() as int) =~= cs@);
        let text = string_of(&chunk);
        self.push(text, style);
    }

    fn split_all_exec(&mut self, word: &Vec<Span>)
        ensures
            final(self).state() == split_all(old(self).state(), spans_view(word@), old(self).width as nat),
            final(self).width == old(self).width,
    {
        let ghost s0 = self.state();
        let ghost w0 = self.width;
        let ghost wv = spans_view(word@);
        let mut i: usize = 0;
        while i < word.len()
            invariant
                i <= word.len(),
                wv == spans_view(word@),
                self.width == w0,
                self.state() == split_all(s0, wv.take(i as int), w0 as nat),
            decreases word.len() - i,
        {
            assert(wv.take(i + 1).drop_last() =~= wv.take(i as int));
            self.split_part_exec(&word[i]);
            i = i + 1;
        }
        assert(wv.take(word.len() as int) =~= wv);
    }

    fn end_word(&mut self)
        ensures
            final(self).state() == end_word_s(old(self).state(), old(self).width as nat),
            final(self).width == old(self).width,
    {
        if self.word.len() == 0 {
            return;
        }
        let mut word: Vec<Span> = Vec::new();
        std::mem::swap(&mut word, &mut self.word);
        assert(spans_view(self.word@) =~= Seq::<(Seq<char>, Style)>::empty());
        let total = columns(&word);
        if self.cur_width > 0 && self.cur_width.saturating_add(total) > self.width {
            self.flush();
        }
        if total <= self.width {
            self.push_all_exec(&word);
        } else {
            self.split_all_exec(&word);
        }
    }
}

proof fn lemma_run_end(s: Seq<char>, k: int)
    requires
        0 < k <= s.len(),
    ensures
        k <= run_end(s, k) <= s.len(),
    decreases s.len() - k,
{
    if k < s.len() && (s[k] == ' ') == (s[0] == ' ') {
        lemma_run_end(s, k + 1);
    }
}

impl Wrapper {
    /// A breakable text: its runs of spaces end words, its other runs join the word.
    fn tokens_exec(&mut self, text: &String, style: Style)
        ensures
            final(self).state() == tokens_s(old(self).state(), tokens(text@), style, old(self).width as nat),
            final(self).width == old(self).width,
    {
        let ghost s0 = self.state();
        let ghost w0 = self.width;
        let t = chars_of(text.as_str());
        let ghost mut done: Seq<Seq<char>> = seq![];
        assert(t@.skip(0) =~= t@);
        assert(done + tokens(t@.skip(0)) =~= tokens(t@));
        let mut i: usize = 0;
        while i < t.len()
            invariant
                i <= t.len(),
                self.width == w0,
                t@ == text@,
                tokens(t@) == done + tokens(t@.skip(i as int)),
                self.state() == tokens_s(s0, done, style, w0 as nat),
            decreases t.len() - i,
        {
            let ghost u = t@.skip(i as int);
            let mut j: usize = i + 1;
            while j < t.len() && ((t[j] == ' ') == (t[i] == ' '))
                invariant
                    i < j <= t.len(),
                    u == t@.skip(i as int),
                    run_end(u, j - i) == run_end(u, 1),
                decreases t.len() - j,
            {
                assert(u[j - i] == t@[j as int]);
                assert(u[0] == t@[i as int]);
                j = j + 1;
            }
            proof {
                if j < t.len() {
                    assert(u[j - i] == t@[j as int]);
                    assert(u[0] == t@[i as int]);
                }
                assert(run_end(u, j - i) == j - i);
                lemma_run_end(u, 1);
                assert(u.take(j - i) =~= t@.subrange(i as int, j as int));
                assert(u.skip(j - i) =~= t@.skip(j as int));
                assert(tokens(u) == seq![u.take(j - i)] + tokens(u.skip(j - i)));
            }
            let tok = crate::text::slice(&t, i, j);
            let ghost before = done;
            if t[i] == ' ' {
                self.end_word();
                self.space(string_of(&tok), style);
            } else {
                let content = string_of(&tok);
                let ghost wb = self.word@;
                self.word.push(Span { content, style });
                assert(spans_view(self.word@) =~= spans_view(wb).push((tok@, style)));
            }
            proof {
                done = done.push(tok@);
                assert(done.drop_last() =~= before);
                assert(tok@[0] == t@[i as int]);
                assert(tokens(t@) =~= done + tokens(t@.skip(j as int)));
            }
            i = j;
        }
        assert(t@.skip(t.len() as int) =~= Seq::<char>::empty());
        assert(done + Seq::<Seq<char>>::empty() =~= done);
    }
}

/// The lines `pieces` wrap into at `width` columns (at least one): words go whole onto the
/// line while they fit, a word wider than the line is split by characters, spaces that would
/// start a line are dropped, and each line loses its trailing blank spans and has neighbouring
/// spans of one style joined.
pub fn wrap(pieces: &[Piece], width: usize) -> (r: Vec<Vec<Span>>)
    ensures
        lines_view(r@) == wrapped(pieces@, width as nat),
{
    let w: usize = if width == 0 {
        1
    } else {
        width
    };
    let mut wr = Wrapper { width: w, lines: Vec::new(), cur: Vec::new(), cur_width: 0, word: Vec::new() };
    assert(lines_view(wr.lines@) =~= Seq::<Seq<(Seq<char>, Style)>>::empty());
    assert(spans_view(wr.cur@) =~= Seq::<(Seq<char>, Style)>::empty());
    assert(spans_view(wr.word@) =~= Seq::<(Seq<char>, Style)>::empty());
    assert(pieces@.take(0) =~= Seq::<Piece>::empty());
    let mut i: usize = 0;
    while i < pieces.len()
        invariant
            i <= pieces.len(),
            wr.width == w,
            wr.state() == pieces_s(start_state(), pieces@.take(i as int), w as nat),
        decreases pieces.len() - i,
    {
        assert(pieces@.take(i + 1).drop_last() =~= pieces@.take(i as int));
        match &pieces[i] {
            Piece::Break => {
                wr.end_word();
                wr.flush();
            },
            Piece::Text { text, style, atomic } => {
                if *atomic {
                    let ghost wb = wr.word@;
                    wr.word.push(Span { content: text.clone(), style: *style });
                    assert(spans_view(wr.word@) =~= spans_view(wb).push((text@, *style)));
                } else {
                    wr.tokens_exec(text, *style);
                }
            },
        }
        i = i + 1;
    }
    assert(pieces@.take(pieces.len() as int) =~= pieces@);
    wr.end_word();
    if wr.cur.len() > 0 {
        wr.flush();
    }
    wr.lines
}

// ---------------------------------------------------------------------------------------------
// Wrapped lines are trimmed
// ---------------------------------------------------------------------------------------------
/// A line that does not end in a blank span.
pub open spec fn trimmed_line(line: Seq<(Seq<char>, Style)>) -> bool {
    line.len() == 0 || !blank_run(line.last())
}

pub open spec fn all_trimmed(lines: Seq<Seq<(Seq<char>, Style)>>) -> bool {
    forall|i: int| 0 <= i < lines.len() ==> trimmed_line(#[trigger] lines[i])
}

proof fn lemma_trim_tail_trimmed(x: Seq<(Seq<char>, Style)>)
    ensures
        trimmed_line(trim_tail(x)),
    decreases x.len(),
{
    if x.len() > 0 && blank_run(x.last()) {
        lemma_trim_tail_trimmed(x.drop_last());
    }
}

proof fn lemma_merge_last(x: Seq<(Seq<char>, Style)>)
    requires
        x.len() > 0,
    ensures
        merge_runs(x).len() > 0,
        merge_runs(x).last().1 == x.last().1,
        exists|p: Seq<char>| merge_runs(x).last().0 == p + x.last().0,
    decreases x.len(),
{
    let m = merge_runs(x.drop_last());
    let s = x.last();
    if m.len() > 0 && m.last().1 == s.1 {
        assert(merge_runs(x).last().0 == m.last().0 + s.0);
    } else {
        assert(merge_runs(x).last().0 == seq![] + s.0);
    }
}

proof fn lemma_merge_trimmed(x: Seq<(Seq<char>, Style)>)
    requires
        trimmed_line(x),
    ensures
        trimmed_line(merge_runs(x)),
{
    if x.len() > 0 {
        lemma_merge_last(x);
        let last = merge_runs(x).last();
        let p = choose|p: Seq<char>| last.0 == p + x.last().0;
        if blank_run(last) {
            assert forall|i: int| 0 <= i < x.last().0.len() implies is_ws(#[trigger] x.last().0[i]) by {
                assert(last.0[p.len() + i] == x.last().0[i]);
            }
        }
    }
}

proof fn lemma_flush_trimmed(s: WrapState)
    requires
        all_trimmed(s.lines),
    ensures
        all_trimmed(flush_s(s).lines),
{
    lemma_trim_tail_trimmed(s.cur);
    lemma_merge_trimmed(trim_tail(s.cur));
    let l = flush_s(s).lines;
    assert forall|i: int| 0 <= i < l.len() implies trimmed_line(#[trigger] l[i]) by {
        if i < s.lines.len() {
            assert(l[i] == s.lines[i]);
        }
    }
}

proof fn lemma_push_all_trimmed(s: WrapState, word: Seq<(Seq<char>, Style)>)
    ensures
        push_all(s, word).lines == s.lines,
    decreases word.len(),
{
    if word.len() > 0 {
        lemma_push_all_trimmed(s, word.drop_last());
    }
}

proof fn lemma_split_chars_trimmed(st: SplitState, chars: Seq<char>, style: Style, w: nat)
    requires
        all_trimmed(st.s.lines),
    ensures
        all_trimmed(split_chars(st, chars, style, w).s.lines),
    decreases chars.len(),
{
    if chars.len() > 0 {
        let prev = split_chars(st, chars.drop_last(), style, w);
        lemma_split_chars_trimmed(st, chars.drop_last(), style, w);
        lemma_flush_trimmed(push_s(prev.s, prev.chunk, style));
    }
}

proof fn lemma_split_all_trimmed(s: WrapState, word: Seq<(Seq<char>, Style)>, w: nat)
    requires
        all_trimmed(s.lines),
    ensures
        all_trimmed(split_all(s, word, w).lines),
    decreases word.len(),
{
    if word.len() > 0 {
        let t = split_all(s, word.drop_last(), w);
        lemma_split_all_trimmed(s, word.drop_last(), w);
        lemma_split_chars_trimmed(
            SplitState { s: t, chunk: seq![], chunk_width: 0 },
            word.last().0,
            word.last().1,
            w,
        );
    }
}

proof fn lemma_end_word_trimmed(s: WrapState, w: nat)
    requires
        all_trimmed(s.lines),
    ensures
        all_trimmed(end_word_s(s, w).lines),
{
    if s.word.len() > 0 {
        let s0 = WrapState { word: seq![], ..s };
        lemma_flush_trimmed(s0);
        let total = word_columns(s.word);
        let s1 = if s0.cur_width > 0 && sat(s0.cur_width + total) > w {
            flush_s(s0)
        } else {
            s0
        };
        lemma_push_all_trimmed(s1, s.word);
        lemma_split_all_trimmed(s1, s.word, w);
    }
}

proof fn lemma_tokens_trimmed(s: WrapState, toks: Seq<Seq<char>>, style: Style, w: nat)
    requires
        all_trimmed(s.lines),
    ensures
        all_trimmed(tokens_s(s, toks, style, w).lines),
    decreases toks.len(),
{
    if toks.len() > 0 {
        lemma_tokens_trimmed(s, toks.drop_last(), style, w);
        lemma_end_word_trimmed(tokens_s(s, toks.drop_last(), style, w), w);
    }
}

proof fn lemma_pieces_trimmed(s: WrapState, ps: Seq<Piece>, w: nat)
    requires
        all_trimmed(s.lines),
    ensures
        all_trimmed(pieces_s(s, ps, w).lines),
    decreases ps.len(),
{
    if ps.len() > 0 {
        let t = pieces_s(s, ps.drop_last(), w);
        lemma_pieces_trimmed(s, ps.drop_last(), w);
        lemma_end_word_trimmed(t, w);
        lemma_flush_trimmed(end_word_s(t, w));
        match ps.last() {
            Piece::Text { text, style, atomic } => {
                if !atomic {
                    lemma_tokens_trimmed(t, tokens(text@), style, w);
                }
            },
            Piece::Break => {},
        }
    }
}

/// No wrapped line ends in a span that draws nothing: trailing whitespace without a background
/// is trimmed from every line.
pub proof fn law_wrapped_lines_are_trimmed(pieces: Seq<Piece>, width: nat)
    ensures
        forall|i: int|
            0 <= i < wrapped(pieces, width).len() ==> trimmed_line(#[trigger] wrapped(pieces, width)[i]),
{
    let w = if width == 0 {
        1
    } else {
        width
    };
    lemma_pieces_trimmed(start_state(), pieces, w);
    let t = pieces_s(start_state(), pieces, w);
    lemma_end_word_trimmed(t, w);
    lemma_flush_trimmed(end_word_s(t, w));
}

// ---------------------------------------------------------------------------------------------
// Wrapping keeps the text
// ---------------------------------------------------------------------------------------------
/// The characters of `s` that are not whitespace, in order.
pub open spec fn ink(s: Seq<char>) -> Seq<char>
    decreases s.len(),
{
    if s.len() == 0 {
        seq![]
    } else if is_ws(s.last()) {
        ink(s.drop_last())
    } else {
        ink(s.drop_last()).push(s.last())
    }
}

/// The text of a line's spans, one after another.
pub open spec fn flat(runs: Seq<(Seq<char>, Style)>) -> Seq<char>
    decreases runs.len(),
{
    if runs.len() == 0 {
        seq![]
    } else {
        flat(runs.drop_last()) + runs.last().0
    }
}

/// The text of the lines, one after another.
pub open spec fn flat_lines(lines: Seq<Seq<(Seq<char>, Style)>>) -> Seq<char>
    decreases lines.len(),
{
    if lines.len() == 0 {
        seq![]
    } else {
        flat_lines(lines.drop_last()) + flat(lines.last())
    }
}

/// The text of a piece (none for a break).
pub open spec fn piece_text(p: Piece) -> Seq<char> {
    match p {
        Piece::Text { text, .. } => text@,
        Piece::Break => seq![],
    }
}

/// The text of the pieces, one after another.
pub open spec fn pieces_text(ps: Seq<Piece>) -> Seq<char>
    decreases ps.len(),
{
    if ps.len() == 0 {
        seq![]
    } else {
        pieces_text(ps.drop_last()) + piece_text(ps.last())
    }
}

/// Everything the wrapping holds: the lines done, the line being filled, the word gathered.
pub open spec fn state_text(s: WrapState) -> Seq<char> {
    flat_lines(s.lines) + flat(s.cur) + flat(s.word)
}

proof fn lemma_ink_add(a: Seq<char>, b: Seq<char>)
    ensures
        ink(a + b) == ink(a) + ink(b),
    decreases b.len(),
{
    if b.len() == 0 {
        assert(a + b =~= a);
        assert(ink(a) + ink(b) =~= ink(a));
    } else {
        lemma_ink_add(a, b.drop_last());
        assert((a + b).drop_last() =~= a + b.drop_last());
        assert((a + b).last() == b.last());
        if !is_ws(b.last()) {
            assert(ink(a) + ink(b.drop_last()).push(b.last()) =~= (ink(a) + ink(b.drop_last())).push(b.last()));
        }
    }
}

proof fn lemma_ink_blank(s: Seq<char>)
    requires
        forall|i: int| 0 <= i < s.len() ==> is_ws(#[trigger] s[i]),
    ensures
        ink(s) == Seq::<char>::empty(),
    decreases s.len(),
{
    if s.len() > 0 {
        assert(is_ws(s[s.len() - 1]));
        lemma_ink_blank(s.drop_last());
    }
}

proof fn lemma_flat_update_last(m: Seq<(Seq<char>, Style)>, x: (Seq<char>, Style))
    requires
        m.len() > 0,
    ensures
        flat(m.update(m.len() - 1, x)) == flat(m.drop_last()) + x.0,
{
    assert(m.update(m.len() - 1, x).drop_last() =~= m.drop_last());
}

proof fn lemma_flat_merge(r: Seq<(Seq<char>, Style)>)
    ensures
        flat(merge_runs(r)) == flat(r),
    decreases r.len(),
{
    if r.len() > 0 {
        lemma_flat_merge(r.drop_last());
        let m = merge_runs(r.drop_last());
        let x = r.last();
        if m.len() > 0 && m.last().1 == x.1 {
            lemma_flat_update_last(m, (m.last().0 + x.0, x.1));
            assert(flat(m) == flat(m.drop_last()) + m.last().0);
            assert(flat(m.drop_last()) + (m.last().0 + x.0) =~= flat(m.drop_last()) + m.last().0 + x.0);
        } else {
            assert(m.push(x).drop_last() =~= m);
        }
    }
}

proof fn lemma_ink_trim(r: Seq<(Seq<char>, Style)>)
    ensures
        ink(flat(trim_tail(r))) == ink(flat(r)),
    decreases r.len(),
{
    if r.len() > 0 && blank_run(r.last()) {
        lemma_ink_trim(r.drop_last());
        lemma_ink_add(flat(r.drop_last()), r.last().0);
        lemma_ink_blank(r.last().0);
        assert(ink(flat(r.drop_last())) + Seq::<char>::empty() =~= ink(flat(r.drop_last())));
    }
}

proof fn lemma_flush_keeps_ink(s: WrapState)
    ensures
        ink(state_text(flush_s(s))) == ink(state_text(s)),
{
    let f = flush_s(s);
    let x = merge_runs(trim_tail(s.cur));
    assert(f.lines.drop_last() =~= s.lines);
    assert(flat_lines(f.lines) == flat_lines(s.lines) + flat(x));
    lemma_flat_merge(trim_tail(s.cur));
    lemma_ink_trim(s.cur);
    let fl = flat_lines(s.lines);
    assert(flat(Seq::<(Seq<char>, Style)>::empty()) == Seq::<char>::empty());
    assert(state_text(f) =~= fl + flat(trim_tail(s.cur)) + flat(s.word));
    lemma_ink_add(fl + flat(trim_tail(s.cur)), flat(s.word));
    lemma_ink_add(fl, flat(trim_tail(s.cur)));
    lemma_ink_add(fl + flat(s.cur), flat(s.word));
    lemma_ink_add(fl, flat(s.cur));
}

proof fn lemma_push_text(s: WrapState, text: Seq<char>, style: Style)
    requires
        s.word.len() == 0,
    ensures
        state_text(push_s(s, text, style)) == state_text(s) + text,
        push_s(s, text, style).word.len() == 0,
{
    assert(s.cur.push((text, style)).drop_last() =~= s.cur);
    assert(flat(s.word) == Seq::<char>::empty());
    assert(state_text(push_s(s, text, style)) =~= state_text(s) + text);
}

proof fn lemma_push_all_text(s: WrapState, word: Seq<(Seq<char>, Style)>)
    requires
        s.word.len() == 0,
    ensures
        state_text(push_all(s, word)) == state_text(s) + flat(word),
        push_all(s, word).word.len() == 0,
    decreases word.len(),
{
    if word.len() == 0 {
        assert(state_text(s) + flat(word) =~= state_text(s));
    } else {
        lemma_push_all_text(s, word.drop_last());
        let t = push_all(s, word.drop_last());
        lemma_push_text(t, word.last().0, word.last().1);
        assert(state_text(s) + flat(word.drop_last()) + word.last().0 =~= state_text(s) + flat(word));
    }
}

proof fn lemma_split_chars_text(st: SplitState, chars: Seq<char>, style: Style, w: nat)
    requires
        st.s.word.len() == 0,
    ensures
        ink(state_text(split_chars(st, chars, style, w).s) + split_chars(st, chars, style, w).chunk) == ink(
            state_text(st.s) + st.chunk,
        ) + ink(chars),
        split_chars(st, chars, style, w).s.word.len() == 0,
    decreases chars.len(),
{
    if chars.len() == 0 {
        assert(ink(state_text(st.s) + st.chunk) + ink(chars) =~= ink(state_text(st.s) + st.chunk));
    } else {
        lemma_split_chars_text(st, chars.drop_last(), style, w);
        let prev = split_chars(st, chars.drop_last(), style, w);
        let ch = chars.last();
        let base = ink(state_text(st.s) + st.chunk);
        lemma_ink_add(chars.drop_last(), seq![ch]);
        assert(chars.drop_last() + seq![ch] =~= chars);
        let cw = char_cols(ch);
        let used = sat(prev.s.cur_width + prev.chunk_width);
        if sat(used + cw) > w && used > 0 {
            let pushed = push_s(prev.s, prev.chunk, style);
            lemma_push_text(prev.s, prev.chunk, style);
            lemma_flush_keeps_ink(pushed);
            lemma_ink_add(state_text(flush_s(pushed)), seq![ch]);
            assert(base + ink(chars) =~= base + ink(chars.drop_last()) + ink(seq![ch]));
        } else {
            lemma_ink_add(state_text(prev.s) + prev.chunk, seq![ch]);
            assert(state_text(prev.s) + prev.chunk.push(ch) =~= state_text(prev.s) + prev.chunk + seq![ch]);
            assert(base + ink(chars) =~= base + ink(chars.drop_last()) + ink(seq![ch]));
        }
    }
}

proof fn lemma_split_all_text(s: WrapState, word: Seq<(Seq<char>, Style)>, w: nat)
    requires
        s.word.len() == 0,
    ensures
        ink(state_text(split_all(s, word, w))) == ink(state_text(s)) + ink(flat(word)),
        split_all(s, word, w).word.len() == 0,
    decreases word.len(),
{
    if word.len() == 0 {
        assert(ink(state_text(s)) + ink(flat(word)) =~= ink(state_text(s)));
    } else {
        lemma_split_all_text(s, word.drop_last(), w);
        let t = split_all(s, word.drop_last(), w);
        let part = word.last();
        let st = SplitState { s: t, chunk: seq![], chunk_width: 0 };
        lemma_split_chars_text(st, part.0, part.1, w);
        let f = split_chars(st, part.0, part.1, w);
        lemma_push_text(f.s, f.chunk, part.1);
        assert(state_text(t) + st.chunk =~= state_text(t));
        lemma_ink_add(flat(word.drop_last()), part.0);
        assert(ink(state_text(s)) + ink(flat(word)) =~= ink(state_text(s)) + ink(flat(word.drop_last())) + ink(part.0));
    }
}

proof fn lemma_end_word_text(s: WrapState, w: nat)
    ensures
        ink(state_text(end_word_s(s, w))) == ink(state_text(s)),
        end_word_s(s, w).word.len() == 0 || s.word.len() == 0 && end_word_s(s, w) == s,
{
    if s.word.len() > 0 {
        let s0 = WrapState { word: seq![], ..s };
        let total = word_columns(s.word);
        let s1 = if s0.cur_width > 0 && sat(s0.cur_width + total) > w {
            flush_s(s0)
        } else {
            s0
        };
        lemma_flush_keeps_ink(s0);
        assert(ink(state_text(s1)) == ink(state_text(s0)));
        assert(flat(s0.word) == Seq::<char>::empty());
        assert(state_text(s) =~= state_text(s0) + flat(s.word));
        lemma_ink_add(state_text(s0), flat(s.word));
        lemma_ink_add(state_text(s1), flat(s.word));
        if total <= w {
            lemma_push_all_text(s1, s.word);
        } else {
            lemma_split_all_text(s1, s.word, w);
        }
    }
}

proof fn lemma_run_end_same(s: Seq<char>, k: int)
    requires
        1 <= k <= s.len(),
        forall|j: int| 1 <= j < k ==> (#[trigger] s[j] == ' ') == (s[0] == ' '),
    ensures
        k <= run_end(s, k) <= s.len(),
        forall|j: int| 1 <= j < run_end(s, k) ==> (#[trigger] s[j] == ' ') == (s[0] == ' '),
    decreases s.len() - k,
{
    if 0 < k < s.len() && (s[k] == ' ') == (s[0] == ' ') {
        lemma_run_end_same(s, k + 1);
    }
}

/// A run that starts with a space is all spaces.
pub open spec fn spaces_when_led(toks: Seq<Seq<char>>) -> bool {
    forall|t: int, j: int|
        0 <= t < toks.len() && toks[t].len() > 0 && toks[t][0] == ' ' && 0 <= j < toks[t].len() ==> #[trigger] toks[t][j] == ' '
}

pub open spec fn joined(toks: Seq<Seq<char>>) -> Seq<char>
    decreases toks.len(),
{
    if toks.len() == 0 {
        seq![]
    } else {
        joined(toks.drop_last()) + toks.last()
    }
}

proof fn lemma_joined_prepend(x: Seq<char>, toks: Seq<Seq<char>>)
    ensures
        joined(seq![x] + toks) == x + joined(toks),
    decreases toks.len(),
{
    let all = seq![x] + toks;
    if toks.len() == 0 {
        assert(all.drop_last() =~= Seq::<Seq<char>>::empty());
        assert(all.last() == x);
        assert(joined(all) == joined(all.drop_last()) + all.last());
        assert(x + joined(toks) =~= x);
        assert(Seq::<char>::empty() + x =~= x);
    } else {
        lemma_joined_prepend(x, toks.drop_last());
        assert(all.drop_last() =~= seq![x] + toks.drop_last());
        assert(all.last() == toks.last());
        assert(joined(all) == joined(all.drop_last()) + all.last());
        assert(x + joined(toks.drop_last()) + toks.last() =~= x + (joined(toks.drop_last()) + toks.last()));
    }
}

proof fn lemma_tokens(s: Seq<char>)
    ensures
        joined(tokens(s)) == s,
        spaces_when_led(tokens(s)),
    decreases s.len(),
{
    if s.len() > 0 {
        lemma_run_end_same(s, 1);
        let e = run_end(s, 1);
        let head = s.take(e);
        let rest = tokens(s.skip(e));
        lemma_tokens(s.skip(e));
        lemma_joined_prepend(head, rest);
        assert(head + s.skip(e) =~= s);
        let toks = tokens(s);
        assert(toks == seq![head] + rest);
        assert forall|t: int, j: int|
            0 <= t < toks.len() && toks[t].len() > 0 && toks[t][0] == ' ' && 0 <= j < toks[t].len() implies #[trigger] toks[t][j] == ' ' by {
            if t == 0 {
                assert(toks[0] == head);
                if j > 0 {
                    assert(head[j] == s[j]);
                }
            } else {
                assert(toks[t] == rest[t - 1]);
            }
        }
    } else {
        assert(tokens(s) =~= Seq::<Seq<char>>::empty());
        assert(s =~= Seq::<char>::empty());
    }
}

proof fn lemma_tokens_text(s: WrapState, toks: Seq<Seq<char>>, style: Style, w: nat)
    requires
        spaces_when_led(toks),
    ensures
        ink(state_text(tokens_s(s, toks, style, w))) == ink(state_text(s)) + ink(joined(toks)),
    decreases toks.len(),
{
    if toks.len() == 0 {
        assert(ink(state_text(s)) + ink(joined(toks)) =~= ink(state_text(s)));
    } else {
        let dl = toks.drop_last();
        assert(spaces_when_led(dl)) by {
            assert forall|t: int, j: int|
                0 <= t < dl.len() && dl[t].len() > 0 && dl[t][0] == ' ' && 0 <= j < dl[t].len() implies #[trigger] dl[t][j] == ' ' by {
                assert(dl[t] == toks[t]);
            }
        }
        lemma_tokens_text(s, dl, style, w);
        let t = tokens_s(s, dl, style, w);
        let tok = toks.last();
        lemma_ink_add(joined(dl), tok);
        if tok.len() > 0 && tok[0] == ' ' {
            let e = end_word_s(t, w);
            lemma_end_word_text(t, w);
            assert forall|j: int| 0 <= j < tok.len() implies is_ws(#[trigger] tok[j]) by {
                assert(toks[toks.len() - 1][j] == ' ');
            }
            lemma_ink_blank(tok);
            if e.cur_width > 0 {
                assert(e.word.len() == 0);
                lemma_push_text(e, tok, style);
                lemma_ink_add(state_text(e), tok);
            }
            assert(ink(state_text(s)) + ink(joined(toks)) =~= ink(state_text(s)) + ink(joined(dl)) + ink(tok));
        } else {
            let nw = WrapState { word: t.word.push((tok, style)), ..t };
            assert(t.word.push((tok, style)).drop_last() =~= t.word);
            assert(state_text(nw) =~= state_text(t) + tok);
            lemma_ink_add(state_text(t), tok);
            assert(ink(state_text(s)) + ink(joined(toks)) =~= ink(state_text(s)) + ink(joined(dl)) + ink(tok));
        }
    }
}

proof fn lemma_pieces_text(s: WrapState, ps: Seq<Piece>, w: nat)
    ensures
        ink(state_text(pieces_s(s, ps, w))) == ink(state_text(s)) + ink(pieces_text(ps)),
    decreases ps.len(),
{
    if ps.len() == 0 {
        assert(ink(state_text(s)) + ink(pieces_text(ps)) =~= ink(state_text(s)));
    } else {
        lemma_pieces_text(s, ps.drop_last(), w);
        let t = pieces_s(s, ps.drop_last(), w);
        lemma_ink_add(pieces_text(ps.drop_last()), piece_text(ps.last()));
        match ps.last() {
            Piece::Break => {
                lemma_end_word_text(t, w);
                lemma_flush_keeps_ink(end_word_s(t, w));
                assert(ink(piece_text(ps.last())) =~= Seq::<char>::empty());
            },
            Piece::Text { text, style, atomic } => {
                if atomic {
                    let nw = WrapState { word: t.word.push((text@, style)), ..t };
                    assert(t.word.push((text@, style)).drop_last() =~= t.word);
                    assert(state_text(nw) =~= state_text(t) + text@);
                    lemma_ink_add(state_text(t), text@);
                } else {
                    lemma_tokens(text@);
                    lemma_tokens_text(t, tokens(text@), style, w);
                }
            },
        }
        assert(ink(state_text(s)) + ink(pieces_text(ps)) =~= ink(state_text(s)) + ink(pieces_text(ps.drop_last())) + ink(piece_text(ps.last())));
    }
}

/// Wrapping drops only whitespace: the characters of the pieces that are not whitespace all
/// come out on the lines, in their order.
pub proof fn law_wrapping_keeps_the_text(pieces: Seq<Piece>, width: nat)
    ensures
        ink(flat_lines(wrapped(pieces, width))) == ink(pieces_text(pieces)),
{
    let w = if width == 0 {
        1
    } else {
        width
    };
    let s0 = start_state();
    assert(state_text(s0) =~= Seq::<char>::empty());
    lemma_pieces_text(s0, pieces, w);
    assert(ink(state_text(s0)) =~= Seq::<char>::empty());
    assert(Seq::<char>::empty() + ink(pieces_text(pieces)) =~= ink(pieces_text(pieces)));
    let t = pieces_s(s0, pieces, w);
    lemma_end_word_text(t, w);
    let e = end_word_s(t, w);
    let f = finish_s(t, w);
    if e.cur.len() > 0 {
        lemma_flush_keeps_ink(e);
    }
    assert(f.word.len() == 0 && f.cur.len() == 0) by {
        if t.word.len() == 0 {
            assert(e == t);
        }
    }
    assert(state_text(f) =~= flat_lines(f.lines));
}

// ---------------------------------------------------------------------------------------------
// A break ends a line
// ---------------------------------------------------------------------------------------------
/// The state with `done` before its lines.
pub open spec fn after_lines(s: WrapState, done: Seq<Seq<(Seq<char>, Style)>>) -> WrapState {
    WrapState { lines: done + s.lines, ..s }
}

proof fn lemma_flush_after(s: WrapState, done: Seq<Seq<(Seq<char>, Style)>>)
    ensures
        flush_s(after_lines(s, done)) == after_lines(flush_s(s), done),
{
    assert(flush_s(after_lines(s, done)) =~= after_lines(flush_s(s), done));
}

proof fn lemma_push_all_after(s: WrapState, word: Seq<(Seq<char>, Style)>, done: Seq<Seq<(Seq<char>, Style)>>)
    ensures
        push_all(after_lines(s, done), word) == after_lines(push_all(s, word), done),
    decreases word.len(),
{
    if word.len() > 0 {
        lemma_push_all_after(s, word.drop_last(), done);
        assert(push_all(after_lines(s, done), word) =~= after_lines(push_all(s, word), done));
    } else {
        assert(push_all(after_lines(s, done), word) =~= after_lines(push_all(s, word), done));
    }
}

/// The hard split's state with `done` before its lines.
pub open spec fn split_after(st: SplitState, done: Seq<Seq<(Seq<char>, Style)>>) -> SplitState {
    SplitState { s: after_lines(st.s, done), ..st }
}

proof fn lemma_split_chars_after(st: SplitState, chars: Seq<char>, style: Style, w: nat, done: Seq<Seq<(Seq<char>, Style)>>)
    ensures
        split_chars(split_after(st, done), chars, style, w) == split_after(split_chars(st, chars, style, w), done),
    decreases chars.len(),
{
    let st2 = split_after(st, done);
    if chars.len() > 0 {
        lemma_split_chars_after(st, chars.drop_last(), style, w, done);
        let prev = split_chars(st, chars.drop_last(), style, w);
        lemma_flush_after(push_s(prev.s, prev.chunk, style), done);
        assert(push_s(after_lines(prev.s, done), prev.chunk, style) =~= after_lines(push_s(prev.s, prev.chunk, style), done));
        assert(split_chars(st2, chars, style, w) =~= split_after(split_chars(st, chars, style, w), done));
    } else {
        assert(split_chars(st2, chars, style, w) =~= split_after(split_chars(st, chars, style, w), done));
    }
}

proof fn lemma_split_all_after(s: WrapState, word: Seq<(Seq<char>, Style)>, w: nat, done: Seq<Seq<(Seq<char>, Style)>>)
    ensures
        split_all(after_lines(s, done), word, w) == after_lines(split_all(s, word, w), done),
    decreases word.len(),
{
    if word.len() > 0 {
        lemma_split_all_after(s, word.drop_last(), w, done);
        let t = split_all(s, word.drop_last(), w);
        let st = SplitState { s: t, chunk: seq![], chunk_width: 0 };
        lemma_split_chars_after(st, word.last().0, word.last().1, w, done);
        assert(split_after(st, done) == SplitState { s: after_lines(t, done), chunk: seq![], chunk_width: 0 });
        let f = split_chars(st, word.last().0, word.last().1, w);
        assert(push_s(after_lines(f.s, done), f.chunk, word.last().1) =~= after_lines(push_s(f.s, f.chunk, word.last().1), done));
    } else {
        assert(split_all(after_lines(s, done), word, w) =~= after_lines(split_all(s, word, w), done));
    }
}

proof fn lemma_end_word_after(s: WrapState, w: nat, done: Seq<Seq<(Seq<char>, Style)>>)
    ensures
        end_word_s(after_lines(s, done), w) == after_lines(end_word_s(s, w), done),
{
    if s.word.len() > 0 {
        let s0 = WrapState { word: seq![], ..s };
        assert(WrapState { word: seq![], ..after_lines(s, done) } =~= after_lines(s0, done));
        lemma_flush_after(s0, done);
        let total = word_columns(s.word);
        let s1 = if s0.cur_width > 0 && sat(s0.cur_width + total) > w {
            flush_s(s0)
        } else {
            s0
        };
        lemma_push_all_after(s1, s.word, done);
        lemma_split_all_after(s1, s.word, w, done);
    }
}

proof fn lemma_tokens_after(s: WrapState, toks: Seq<Seq<char>>, style: Style, w: nat, done: Seq<Seq<(Seq<char>, Style)>>)
    ensures
        tokens_s(after_lines(s, done), toks, style, w) == after_lines(tokens_s(s, toks, style, w), done),
    decreases toks.len(),
{
    if toks.len() > 0 {
        lemma_tokens_after(s, toks.drop_last(), style, w, done);
        let t = tokens_s(s, toks.drop_last(), style, w);
        lemma_end_word_after(t, w, done);
        let e = end_word_s(t, w);
        let tok = toks.last();
        assert(push_s(after_lines(e, done), tok, style) =~= after_lines(push_s(e, tok, style), done));
        assert(WrapState { word: after_lines(t, done).word.push((tok, style)), ..after_lines(t, done) } =~= after_lines(
            WrapState { word: t.word.push((tok, style)), ..t },
            done,
        ));
    }
}

proof fn lemma_pieces_after(s: WrapState, ps: Seq<Piece>, w: nat, done: Seq<Seq<(Seq<char>, Style)>>)
    ensures
        pieces_s(after_lines(s, done), ps, w) == after_lines(pieces_s(s, ps, w), done),
    decreases ps.len(),
{
    if ps.len() > 0 {
        lemma_pieces_after(s, ps.drop_last(), w, done);
        let t = pieces_s(s, ps.drop_last(), w);
        lemma_end_word_after(t, w, done);
        lemma_flush_after(end_word_s(t, w), done);
        match ps.last() {
            Piece::Text { text, style, atomic } => {
                if atomic {
                    assert(WrapState { word: after_lines(t, done).word.push((text@, style)), ..after_lines(t, done) } =~= after_lines(
                        WrapState { word: t.word.push((text@, style)), ..t },
                        done,
                    ));
                } else {
                    lemma_tokens_after(t, tokens(text@), style, w, done);
                }
            },
            Piece::Break => {},
        }
    }
}

proof fn lemma_pieces_concat(s: WrapState, a: Seq<Piece>, b: Seq<Piece>, w: nat)
    ensures
        pieces_s(s, a + b, w) == pieces_s(pieces_s(s, a, w), b, w),
    decreases b.len(),
{
    if b.len() == 0 {
        assert(a + b =~= a);
    } else {
        lemma_pieces_concat(s, a, b.drop_last(), w);
        assert((a + b).drop_last() =~= a + b.drop_last());
        assert((a + b).last() == b.last());
    }
}

/// A line break ends a line: the pieces before it wrap as they would alone, their last line
/// closed (an empty one if the break starts the text or follows another), and the pieces
/// after it wrap on lines of their own, as they would from the start.
pub proof fn law_breaks_end_lines(before: Seq<Piece>, after: Seq<Piece>, width: nat)
    ensures
        ({
            let w = if width == 0 { 1 } else { width };
            wrapped(before + seq![Piece::Break] + after, width) == flush_s(
                end_word_s(pieces_s(start_state(), before, w), w),
            ).lines + wrapped(after, width)
        }),
{
    let w = if width == 0 { 1 } else { width };
    let s0 = start_state();
    let pre = before + seq![Piece::Break];
    lemma_pieces_concat(s0, pre, after, w);
    lemma_pieces_concat(s0, before, seq![Piece::Break], w);
    assert(seq![Piece::Break].drop_last() =~= Seq::<Piece>::empty());
    let t = pieces_s(s0, before, w);
    let m = flush_s(end_word_s(t, w));
    assert(pieces_s(t, Seq::<Piece>::empty(), w) == t);
    assert(seq![Piece::Break].last() == Piece::Break);
    assert(pieces_s(t, seq![Piece::Break], w) == m);
    lemma_end_word_text(t, w);
    assert(m.word.len() == 0);
    assert(m.lines + Seq::<Seq<(Seq<char>, Style)>>::empty() =~= m.lines);
    assert(m =~= after_lines(s0, m.lines));
    lemma_pieces_after(s0, after, w, m.lines);
    let q = pieces_s(s0, after, w);
    lemma_end_word_after(q, w, m.lines);
    let e = end_word_s(q, w);
    if e.cur.len() > 0 {
        lemma_flush_after(e, m.lines);
    }
}

} // verus!
