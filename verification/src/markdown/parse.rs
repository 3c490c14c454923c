//! Markdown into a [`Document`]: pulldown-cmark reads the text into events, and a builder with a
//! stack of open elements turns the events into the document tree.
use pulldown_cmark::{
    BlockQuoteKind, CodeBlockKind, Event, LinkType, MetadataBlockKind, Options, Parser, Tag,
};
use std::ops::Range;
use vstd::prelude::*;

use crate::markdown::document::{
    Alert, Alignment, Block, BlockKind, Definition, Document, Footnote, FrontMatter, Inline, List,
    ListItem, MetaFormat, Table,
};
use crate::text::{chars_of, find_char, find_char_from, is_whitespace, is_ws, lead_ws,
    lemma_find_char_from, slice, string_of, trim_start,
};

verus! {

// ---------------------------------------------------------------------------------------------
// Events, as plain values
// ---------------------------------------------------------------------------------------------
/// The kind of a GitHub alert quote, as the parser reports it.
#[derive(Debug, Clone, Copy, PartialEq, Eq, Structural)]
pub enum QuoteKind {
    Note,
    Tip,
    Important,
    Warning,
    Caution,
}

/// A table column's alignment, as the parser reports it.
#[derive(Debug, Clone, Copy, PartialEq, Eq, Structural)]
pub enum ColumnAlign {
    Unaligned,
    Left,
    Center,
    Right,
}

/// An element that the parser opens.
#[derive(Debug, Clone, PartialEq, Eq)]
pub enum MdTag {
    Paragraph,
    Heading(u8),
    BlockQuote(Option<QuoteKind>),
    /// A code block, with the info string of a fenced one.
    CodeBlock(Option<String>),
    HtmlBlock,
    List(Option<u64>),
    Item,
    FootnoteDefinition(String),
    DefinitionList,
    DefinitionListTitle,
    DefinitionListDefinition,
    Table(Vec<ColumnAlign>),
    TableHead,
    TableRow,
    TableCell,
    Emphasis,
    Strong,
    Strikethrough,
    Superscript,
    Subscript,
    Link { wiki: bool, url: String, title: String },
    Image(String),
    MetadataBlock(MetaFormat),
}

/// One event of the parser's stream.
#[derive(Debug, Clone, PartialEq, Eq)]
pub enum MdEvent {
    Start(MdTag),
    End,
    Text(String),
    Code(String),
    InlineMath(String),
    DisplayMath(String),
    Html(String),
    InlineHtml(String),
    FootnoteReference(String),
    SoftBreak,
    HardBreak,
    Rule,
    TaskListMarker(bool),
}

/// The alert a quote kind stands for.
pub open spec fn alert_spec(kind: QuoteKind) -> Alert {
    match kind {
        QuoteKind::Note => Alert::Note,
        QuoteKind::Tip => Alert::Tip,
        QuoteKind::Important => Alert::Important,
        QuoteKind::Warning => Alert::Warning,
        QuoteKind::Caution => Alert::Caution,
    }
}

pub fn alert(kind: QuoteKind) -> (r: Alert)
    ensures
        r == alert_spec(kind),
{
    match kind {
        QuoteKind::Note => Alert::Note,
        QuoteKind::Tip => Alert::Tip,
        QuoteKind::Important => Alert::Important,
        QuoteKind::Warning => Alert::Warning,
        QuoteKind::Caution => Alert::Caution,
    }
}

/// The word a GitHub alert quote is marked with: `[!NOTE]`, `[!TIP]`, `[!IMPORTANT]`,
/// `[!WARNING]` or `[!CAUTION]`.
pub open spec fn marker_word(kind: QuoteKind) -> Seq<char> {
    match kind {
        QuoteKind::Note => "NOTE"@,
        QuoteKind::Tip => "TIP"@,
        QuoteKind::Important => "IMPORTANT"@,
        QuoteKind::Warning => "WARNING"@,
        QuoteKind::Caution => "CAUTION"@,
    }
}

/// An ASCII letter in upper case; other characters stay.
pub open spec fn ascii_upper(c: char) -> char {
    if 'a' <= c <= 'z' {
        ((c as u32) - 32) as char
    } else {
        c
    }
}

pub open spec fn upper_text(s: Seq<char>) -> Seq<char> {
    s.map_values(|c: char| ascii_upper(c))
}

/// Each alert quote becomes the alert of its own name: the alert's label, in capitals, is
/// the word the quote is marked with; and no two kinds of quote become the same alert.
pub proof fn law_alerts_keep_their_names(kind: QuoteKind, other: QuoteKind)
    ensures
        upper_text(alert_spec(kind).label_spec()) == marker_word(kind),
        alert_spec(kind) == alert_spec(other) ==> kind == other,
{
    reveal_strlit("Note");
    reveal_strlit("NOTE");
    reveal_strlit("Tip");
    reveal_strlit("TIP");
    reveal_strlit("Important");
    reveal_strlit("IMPORTANT");
    reveal_strlit("Warning");
    reveal_strlit("WARNING");
    reveal_strlit("Caution");
    reveal_strlit("CAUTION");
    assert(upper_text(alert_spec(kind).label_spec()) =~= marker_word(kind));
}

/// A column's alignment: columns without one are left aligned.
pub open spec fn alignment_spec(a: ColumnAlign) -> Alignment {
    match a {
        ColumnAlign::Unaligned => Alignment::Left,
        ColumnAlign::Left => Alignment::Left,
        ColumnAlign::Center => Alignment::Center,
        ColumnAlign::Right => Alignment::Right,
    }
}

pub fn alignment(a: ColumnAlign) -> (r: Alignment)
    ensures
        r == alignment_spec(a),
{
    match a {
        ColumnAlign::Unaligned => Alignment::Left,
        ColumnAlign::Left => Alignment::Left,
        ColumnAlign::Center => Alignment::Center,
        ColumnAlign::Right => Alignment::Right,
    }
}

// ---------------------------------------------------------------------------------------------
// Code block languages
// ---------------------------------------------------------------------------------------------
/// Whether `c` ends a fence's language: whitespace, `,` or `{`.
pub open spec fn ends_language(c: char) -> bool {
    is_ws(c) || c == ',' || c == '{'
}

/// The number of characters at the start of `s` before one that ends a language.
pub open spec fn language_len(s: Seq<char>) -> nat
    decreases s.len(),
{
    if s.len() == 0 || ends_language(s[0]) {
        0
    } else {
        1 + language_len(s.drop_first())
    }
}

/// The language a fence's info string names: its first word, up to whitespace, `,` or `{`.
pub open spec fn language_spec(info: Seq<char>) -> Option<Seq<char>> {
    let t = trim_start(info);
    let lang = t.take(language_len(t) as int);
    if lang.len() == 0 {
        None
    } else {
        Some(lang)
    }
}

proof fn lemma_language_len(s: Seq<char>, k: int)
    requires
        0 <= k <= s.len(),
        forall|j: int| 0 <= j < k ==> !ends_language(#[trigger] s[j]),
        k == s.len() || ends_language(s[k]),
    ensures
        language_len(s) == k,
    decreases k,
{
    if k > 0 {
        assert forall|j: int| 0 <= j < k - 1 implies !ends_language(#[trigger] s.drop_first()[j]) by {
            assert(s.drop_first()[j] == s[j + 1]);
        }
        if k < s.len() {
            assert(s.drop_first()[k - 1] == s[k]);
        }
        lemma_language_len(s.drop_first(), k - 1);
    }
}

/// The language of a fenced code block's info string.
pub fn language(info: &str) -> (r: Option<String>)
    ensures
        r is None ==> language_spec(info@) is None,
        r matches Some(l) ==> language_spec(info@) == Some(l@),
{
    let v = chars_of(info);
    let mut i: usize = 0;
    while i < v.len() && is_whitespace(v[i])
        invariant
            i <= v.len(),
            forall|j: int| 0 <= j < i ==> is_ws(#[trigger] v@[j]),
        decreases v.len() - i,
    {
        i = i + 1;
    }
    proof {
        crate::text::lemma_lead_ws_is(v@, i as int);
    }
    let start = i;
    while i < v.len() && !(is_whitespace(v[i]) || v[i] == ',' || v[i] == '{')
        invariant
            start <= i <= v.len(),
            forall|j: int| start <= j < i ==> !ends_language(#[trigger] v@[j]),
        decreases v.len() - i,
    {
        i = i + 1;
    }
    let ghost t = v@.skip(start as int);
    proof {
        assert forall|j: int| 0 <= j < i - start implies !ends_language(#[trigger] t[j]) by {
            assert(t[j] == v@[start + j]);
        }
        if i < v.len() {
            assert(t[i - start] == v@[i as int]);
        }
        lemma_language_len(t, i - start);
    }
    if i == start {
        None
    } else {
        let lang = slice(&v, start, i);
        assert(lang@ =~= t.take(i - start));
        Some(string_of(&lang))
    }
}

// ---------------------------------------------------------------------------------------------
// Emoji shortcodes
// ---------------------------------------------------------------------------------------------
/// The emoji that `emojis::get_by_shortcode` finds for a shortcode.
pub uninterp spec fn shortcode_emoji(code: Seq<char>) -> Option<Seq<char>>;

/// `emojis::get_by_shortcode`, with the emoji as text. Which shortcodes the crate knows is
/// its own table; the contract names the answer and says nothing more of it.
#[verifier::external_body]
fn emoji_for(code: &str) -> (r: Option<String>)
    ensures
        r is None ==> shortcode_emoji(code@) is None,
        r matches Some(e) ==> shortcode_emoji(code@) == Some(e@),
{
    match emojis::get_by_shortcode(code) {
        Some(e) => Some(e.as_str().to_string()),
        None => None,
    }
}

/// A character that may stand in a shortcode: ASCII letters and digits, `_`, `+` and `-`.
pub open spec fn shortcode_char(c: char) -> bool {
    ('a' <= c && c <= 'z') || ('A' <= c && c <= 'Z') || ('0' <= c && c <= '9') || c == '_' || c
        == '+' || c == '-'
}

/// The number of shortcode characters at the start of `s`.
pub open spec fn shortcode_len(s: Seq<char>) -> nat
    decreases s.len(),
{
    if s.len() == 0 || !shortcode_char(s[0]) {
        0
    } else {
        1 + shortcode_len(s.drop_first())
    }
}

/// `text` with each `:shortcode:` that names an emoji replaced by the emoji; other colons stay.
pub open spec fn emojify_spec(text: Seq<char>) -> Seq<char>
    decreases text.len(),
{
    match find_char_from(text, ':', 0) {
        None => text,
        Some(open) => if 0 <= open < text.len() {
            let after = text.skip(open + 1);
            let end = shortcode_len(after) as int;
            if 0 < end < after.len() && after[end] == ':' && shortcode_emoji(after.take(end)) is Some {
                text.take(open) + shortcode_emoji(after.take(end))->0 + emojify_spec(
                    after.skip(end + 1),
                )
            } else {
                text.take(open) + seq![':'] + emojify_spec(after)
            }
        } else {
            text
        },
    }
}

proof fn lemma_shortcode_len(s: Seq<char>, k: int)
    requires
        0 <= k <= s.len(),
        forall|j: int| 0 <= j < k ==> shortcode_char(#[trigger] s[j]),
        k == s.len() || !shortcode_char(s[k]),
    ensures
        shortcode_len(s) == k,
    decreases k,
{
    if k > 0 {
        assert forall|j: int| 0 <= j < k - 1 implies shortcode_char(#[trigger] s.drop_first()[j]) by {
            assert(s.drop_first()[j] == s[j + 1]);
        }
        if k < s.len() {
            assert(s.drop_first()[k - 1] == s[k]);
        }
        lemma_shortcode_len(s.drop_first(), k - 1);
    }
}

fn is_shortcode_char(c: char) -> (r: bool)
    ensures
        r == shortcode_char(c),
{
    ('a' <= c && c <= 'z') || ('A' <= c && c <= 'Z') || ('0' <= c && c <= '9') || c == '_' || c
        == '+' || c == '-'
}

/// One step of [`emojify`]: the text up to and including the next colon or emoji, and where
/// the rest starts; `None` when no colon is left.
fn emojify_step(v: &Vec<char>, rest: usize) -> (r: Option<(Vec<char>, usize)>)
    requires
        rest <= v.len(),
    ensures
        r is None ==> emojify_spec(v@.skip(rest as int)) == v@.skip(rest as int),
        r matches Some((p, n)) ==> rest < n <= v.len() && emojify_spec(v@.skip(rest as int))
            == p@ + emojify_spec(v@.skip(n as int)),
{
    let ghost r = v@.skip(rest as int);
    proof {
        crate::text::lemma_find_char_shift(v@, ':', rest as int);
        lemma_find_char_from(v@, ':', rest as int);
    }
    let open = match find_char(v, ':', rest) {
        None => return None,
        Some(open) => open,
    };
    let ghost o = open - rest;
    assert(0 <= o < r.len());
    let mut out = slice(v, rest, open);
    assert(out@ =~= r.take(o));
    let after_start = open + 1;
    let ghost after = r.skip(o + 1);
    assert(after =~= v@.skip(after_start as int));
    let mut end = after_start;
    while end < v.len() && is_shortcode_char(v[end])
        invariant
            after_start <= end <= v.len(),
            forall|j: int| after_start <= j < end ==> shortcode_char(#[trigger] v@[j]),
        decreases v.len() - end,
    {
        end = end + 1;
    }
    proof {
        assert forall|j: int| 0 <= j < end - after_start implies shortcode_char(
            #[trigger] after[j],
        ) by {
            assert(after[j] == v@[after_start + j]);
        }
        if end < v.len() {
            assert(after[end - after_start] == v@[end as int]);
        }
        lemma_shortcode_len(after, end - after_start);
    }
    if end > after_start && end < v.len() && v[end] == ':' {
        assert(after[end - after_start] == v@[end as int]);
        let code = slice(v, after_start, end);
        assert(code@ =~= after.take(end - after_start));
        let cs = string_of(&code);
        match emoji_for(cs.as_str()) {
            Some(e) => {
                let ev = chars_of(e.as_str());
                crate::text::extend(&mut out, &ev);
                assert(after.skip(end - after_start + 1) =~= v@.skip(end + 1));
                return Some((out, end + 1));
            },
            None => {},
        }
    }
    out.push(':');
    Some((out, after_start))
}

/// Text with its emoji shortcodes (`:tada:`) replaced by the emoji they name.
pub fn emojify(text: &str) -> (r: String)
    ensures
        r@ == emojify_spec(text@),
{
    let v = chars_of(text);
    let mut out: Vec<char> = Vec::new();
    let mut rest: usize = 0;
    assert(v@.skip(0) =~= v@);
    loop
        invariant
            rest <= v.len(),
            v@ == text@,
            out@ + emojify_spec(v@.skip(rest as int)) == emojify_spec(v@),
        decreases v.len() - rest,
    {
        match emojify_step(&v, rest) {
            None => {
                let tail = slice(&v, rest, v.len());
                assert(tail@ =~= v@.skip(rest as int));
                let ghost before = out@;
                crate::text::extend(&mut out, &tail);
                assert(out@ == before + emojify_spec(v@.skip(rest as int)));
                return string_of(&out);
            },
            Some((piece, next)) => {
                let ghost before = out@;
                crate::text::extend(&mut out, &piece);
                assert(out@ + emojify_spec(v@.skip(next as int)) =~= before + (piece@ + emojify_spec(
                    v@.skip(next as int),
                )));
                rest = next;
            },
        }
    }
}

// ---------------------------------------------------------------------------------------------
// The builder
// ---------------------------------------------------------------------------------------------
/// An element being built: what it has gathered so far.
pub enum Node {
    Root(Vec<Block>),
    Paragraph(Vec<Inline>),
    Heading { level: u8, content: Vec<Inline> },
    CodeBlock { lang: Option<String>, code: String },
    BlockQuote { alert: Option<Alert>, blocks: Vec<Block> },
    List(List),
    /// A list item: its blocks, and the inlines of a tight item not yet wrapped in a paragraph.
    Item { task: Option<bool>, blocks: Vec<Block>, pending: Vec<Inline> },
    DefList(Vec<Definition>),
    DefTitle(Vec<Inline>),
    DefDetail { blocks: Vec<Block>, pending: Vec<Inline> },
    Meta { format: MetaFormat, text: String },
    Footnote { label: String, blocks: Vec<Block> },
    Html(String),
    Table(Table),
    TableHead(Vec<Vec<Inline>>),
    TableRow(Vec<Vec<Inline>>),
    TableCell(Vec<Inline>),
    Emphasis(Vec<Inline>),
    Strong(Vec<Inline>),
    Strikethrough(Vec<Inline>),
    Link { content: Vec<Inline>, url: String, title: String },
    WikiLink { target: String, content: Vec<Inline> },
    Image { alt: Vec<Inline>, url: String },
    /// An element whose content belongs to the element around it.
    Transparent,
}

/// An open element and where it started in the text.
pub struct Frame {
    pub node: Node,
    pub start: usize,
}

/// The open elements, innermost last, with the footnotes and front matter read so far.
pub struct Builder {
    pub stack: Vec<Frame>,
    pub footnotes: Vec<Footnote>,
    pub front_matter: Option<FrontMatter>,
}

/// The root is at the bottom of the stack, and only there.
pub open spec fn root_at_bottom(stack: Seq<Frame>) -> bool {
    &&& stack.len() >= 1
    &&& stack[0].node is Root
    &&& forall|i: int| 1 <= i < stack.len() ==> !(#[trigger] stack[i].node is Root)
}

/// The nodes agree on whether they are the root, a footnote or front matter.
pub open spec fn same_kind(a: Node, b: Node) -> bool {
    &&& (a is Root) == (b is Root)
    &&& (a is Footnote) == (b is Footnote)
    &&& (a is Meta) == (b is Meta)
}

/// Two stacks of the same length whose frames agree in kind, one by one.
pub open spec fn same_shape(a: Seq<Frame>, b: Seq<Frame>) -> bool {
    a.len() == b.len() && forall|i: int| 0 <= i < a.len() ==> same_kind(#[trigger] a[i].node, b[i].node)
}

/// The number of open footnotes.
pub open spec fn open_footnotes(s: Seq<Frame>) -> nat
    decreases s.len(),
{
    if s.len() == 0 {
        0
    } else {
        open_footnotes(s.drop_last()) + if s.last().node is Footnote {
            1nat
        } else {
            0nat
        }
    }
}

/// The number of open front matter blocks.
pub open spec fn open_meta(s: Seq<Frame>) -> nat
    decreases s.len(),
{
    if s.len() == 0 {
        0
    } else {
        open_meta(s.drop_last()) + if s.last().node is Meta {
            1nat
        } else {
            0nat
        }
    }
}

proof fn lemma_same_shape_counts(a: Seq<Frame>, b: Seq<Frame>)
    requires
        same_shape(a, b),
    ensures
        open_footnotes(a) == open_footnotes(b),
        open_meta(a) == open_meta(b),
        root_at_bottom(a) ==> root_at_bottom(b),
    decreases a.len(),
{
    if a.len() > 0 {
        assert(same_kind(a[a.len() - 1].node, b[b.len() - 1].node));
        assert forall|i: int| 0 <= i < a.drop_last().len() implies same_kind(
            #[trigger] a.drop_last()[i].node,
            b.drop_last()[i].node,
        ) by {
            assert(same_kind(a[i].node, b[i].node));
        }
        lemma_same_shape_counts(a.drop_last(), b.drop_last());
    }
    if root_at_bottom(a) {
        assert(same_kind(a[0].node, b[0].node));
        assert forall|i: int| 1 <= i < b.len() implies !(#[trigger] b[i].node is Root) by {
            assert(same_kind(a[i].node, b[i].node));
        }
    }
}

/// Replacing one frame by a frame of the same kind keeps the shape.
proof fn lemma_update_shape(a: Seq<Frame>, k: int, f: Frame)
    requires
        0 <= k < a.len(),
        same_kind(a[k].node, f.node),
    ensures
        same_shape(a, a.update(k, f)),
{
}

proof fn lemma_push_counts(a: Seq<Frame>, f: Frame)
    ensures
        open_footnotes(a.push(f)) == open_footnotes(a) + if f.node is Footnote {
            1nat
        } else {
            0nat
        },
        open_meta(a.push(f)) == open_meta(a) + if f.node is Meta {
            1nat
        } else {
            0nat
        },
{
    assert(a.push(f).drop_last() =~= a);
}

/// What a builder has taken in: footnotes read or open, and whether front matter was seen.
pub open spec fn footnotes_seen(b: Builder) -> nat {
    b.footnotes@.len() + open_footnotes(b.stack@)
}

pub open spec fn meta_seen(b: Builder) -> bool {
    b.front_matter is Some || open_meta(b.stack@) > 0
}

/// The builder's invariant, and the counts it keeps, are unchanged.
pub open spec fn keeps(old: Builder, new: Builder) -> bool {
    &&& root_at_bottom(new.stack@)
    &&& footnotes_seen(new) == footnotes_seen(old)
    &&& meta_seen(new) == meta_seen(old)
}

/// The text of a text inline.
pub open spec fn text_of(x: Inline) -> Option<Seq<char>> {
    match x {
        Inline::Text(s) => Some(s@),
        _ => None,
    }
}

/// `new` is the run `old` with `x` added: text that follows text joins it, anything else
/// goes at the end.
pub open spec fn joined(old: Seq<Inline>, new: Seq<Inline>, x: Inline) -> bool {
    if old.len() > 0 && text_of(x) is Some && text_of(old.last()) is Some {
        &&& new.len() == old.len()
        &&& new.drop_last() == old.drop_last()
        &&& text_of(new.last()) == Some(text_of(old.last())->0 + text_of(x)->0)
    } else {
        new == old.push(x)
    }
}

/// Adds an inline to a run, joining text to text that ends it.
fn push_inline(target: &mut Vec<Inline>, x: Inline)
    ensures
        joined(old(target)@, final(target)@, x),
{
    let ghost t0 = target@;
    if let Inline::Text(new) = &x {
        if target.len() > 0 {
            let last = target.pop().unwrap();
            match last {
                Inline::Text(s) => {
                    let mut s = s;
                    s.append(new.as_str());
                    target.push(Inline::Text(s));
                    assert(target@.drop_last() =~= t0.drop_last());
                    return;
                },
                other => {
                    target.push(other);
                    assert(target@ =~= t0);
                },
            }
        }
    }
    target.push(x);
}

/// Where an inline goes in a node: its content, its pending inlines, the node around it, or
/// nowhere.
enum Role {
    Content,
    Skip,
    Stop,
}

fn inline_role(n: &Node) -> (r: Role)
    ensures
        r is Content <==> gathers_inlines(*n),
        r is Skip <==> n is Transparent,
        r is Content ==> !(n is Root) && !(n is Footnote) && !(n is Meta),
{
    match n {
        Node::Paragraph(_) | Node::Heading { .. } | Node::TableCell(_) | Node::Emphasis(_)
        | Node::Strong(_) | Node::Strikethrough(_) | Node::Link { .. } | Node::WikiLink { .. }
        | Node::DefTitle(_) | Node::Image { .. } | Node::Item { .. } | Node::DefDetail {
            ..
        } => Role::Content,
        Node::Transparent => Role::Skip,
        _ => Role::Stop,
    }
}

/// Whether a node gathers inlines: its content, or a list item's or definition's pending ones.
pub open spec fn gathers_inlines(n: Node) -> bool {
    ||| n is Paragraph
    ||| n is Heading
    ||| n is TableCell
    ||| n is Emphasis
    ||| n is Strong
    ||| n is Strikethrough
    ||| n is Link
    ||| n is WikiLink
    ||| n is DefTitle
    ||| n is Image
    ||| n is Item
    ||| n is DefDetail
}

/// The inlines a node has gathered.
pub open spec fn inline_slot(n: Node) -> Seq<Inline> {
    match n {
        Node::Paragraph(c) => c@,
        Node::Heading { content, .. } => content@,
        Node::TableCell(c) => c@,
        Node::Emphasis(c) => c@,
        Node::Strong(c) => c@,
        Node::Strikethrough(c) => c@,
        Node::Link { content, .. } => content@,
        Node::WikiLink { content, .. } => content@,
        Node::DefTitle(c) => c@,
        Node::Image { alt, .. } => alt@,
        Node::Item { pending, .. } => pending@,
        Node::DefDetail { pending, .. } => pending@,
        _ => seq![],
    }
}

/// Two nodes of one variant that agree in everything but the inlines they gathered.
pub open spec fn same_but_inlines(a: Node, b: Node) -> bool {
    match (a, b) {
        (Node::Paragraph(_), Node::Paragraph(_)) => true,
        (Node::Heading { level: x, .. }, Node::Heading { level: y, .. }) => x == y,
        (Node::TableCell(_), Node::TableCell(_)) => true,
        (Node::Emphasis(_), Node::Emphasis(_)) => true,
        (Node::Strong(_), Node::Strong(_)) => true,
        (Node::Strikethrough(_), Node::Strikethrough(_)) => true,
        (Node::Link { url: u, title: t, .. }, Node::Link { url: v, title: w, .. }) => u == v && t
            == w,
        (Node::WikiLink { target: x, .. }, Node::WikiLink { target: y, .. }) => x == y,
        (Node::DefTitle(_), Node::DefTitle(_)) => true,
        (Node::Image { url: x, .. }, Node::Image { url: y, .. }) => x == y,
        (Node::Item { task: t, blocks: b, .. }, Node::Item { task: u, blocks: c, .. }) => t == u
            && b == c,
        (Node::DefDetail { blocks: b, .. }, Node::DefDetail { blocks: c, .. }) => b == c,
        _ => false,
    }
}

/// `b` is the node `a` after taking `x` in: a node that gathers inlines adds it to them
/// (see `joined`); any other node is unchanged.
pub open spec fn takes_inline(a: Node, b: Node, x: Inline) -> bool {
    if gathers_inlines(a) {
        same_but_inlines(a, b) && joined(inline_slot(a), inline_slot(b), x)
    } else {
        b == a
    }
}

fn put_inline(node: &mut Node, x: Inline)
    ensures
        same_kind(*old(node), *final(node)),
        takes_inline(*old(node), *final(node), x),
{
    match node {
        Node::Paragraph(c) => push_inline(c, x),
        Node::Heading { content, .. } => push_inline(content, x),
        Node::TableCell(c) => push_inline(c, x),
        Node::Emphasis(c) => push_inline(c, x),
        Node::Strong(c) => push_inline(c, x),
        Node::Strikethrough(c) => push_inline(c, x),
        Node::Link { content, .. } => push_inline(content, x),
        Node::WikiLink { content, .. } => push_inline(content, x),
        Node::DefTitle(c) => push_inline(c, x),
        Node::Image { alt, .. } => push_inline(alt, x),
        Node::Item { pending, .. } => push_inline(pending, x),
        Node::DefDetail { pending, .. } => push_inline(pending, x),
        _ => {},
    }
}

/// Where a block goes in a node.
enum Home {
    Blocks,
    Skip,
}

/// Whether a node holds blocks.
pub open spec fn holds_blocks(n: Node) -> bool {
    n is Root || n is BlockQuote || n is Footnote || n is Item || n is DefDetail
}

/// The blocks a node holds.
pub open spec fn block_slot(n: Node) -> Seq<Block> {
    match n {
        Node::Root(b) => b@,
        Node::BlockQuote { blocks, .. } => blocks@,
        Node::Footnote { blocks, .. } => blocks@,
        Node::Item { blocks, .. } => blocks@,
        Node::DefDetail { blocks, .. } => blocks@,
        _ => seq![],
    }
}

/// A list item's or definition's pending inlines: what it gathered outside a paragraph.
pub open spec fn pending_slot(n: Node) -> Seq<Inline> {
    match n {
        Node::Item { pending, .. } => pending@,
        Node::DefDetail { pending, .. } => pending@,
        _ => seq![],
    }
}

/// Two nodes of one variant that agree in everything but their blocks and pending inlines.
pub open spec fn same_but_blocks(a: Node, b: Node) -> bool {
    match (a, b) {
        (Node::Root(_), Node::Root(_)) => true,
        (Node::BlockQuote { alert: x, .. }, Node::BlockQuote { alert: y, .. }) => x == y,
        (Node::Footnote { label: x, .. }, Node::Footnote { label: y, .. }) => x == y,
        (Node::Item { task: x, .. }, Node::Item { task: y, .. }) => x == y,
        (Node::DefDetail { .. }, Node::DefDetail { .. }) => true,
        _ => false,
    }
}

/// `new` is `old` with the pending inlines, when there are any, made a paragraph that spans
/// `start..end`.
pub open spec fn flushed(old: Seq<Block>, pending: Seq<Inline>, new: Seq<Block>, start: usize, end: usize) -> bool {
    if pending.len() > 0 {
        &&& new.len() == old.len() + 1
        &&& new.drop_last() == old
        &&& new.last().kind matches BlockKind::Paragraph(c) && c@ == pending
        &&& new.last().span.start == start
        &&& new.last().span.end == end
    } else {
        new == old
    }
}

/// `b` is the frame `a` after taking `block` in: a node that holds blocks first makes its
/// pending inlines a paragraph ending where the block starts, then adds the block; any other
/// frame is unchanged.
pub open spec fn takes_block(a: Frame, b: Frame, block: Block) -> bool {
    if holds_blocks(a.node) {
        &&& b.start == a.start
        &&& same_but_blocks(a.node, b.node)
        &&& pending_slot(b.node).len() == 0
        &&& block_slot(b.node).len() > 0
        &&& block_slot(b.node).last() == block
        &&& flushed(
            block_slot(a.node),
            pending_slot(a.node),
            block_slot(b.node).drop_last(),
            a.start,
            block.span.start,
        )
    } else {
        b == a
    }
}

fn block_home(n: &Node) -> (r: Home)
    ensures
        r is Blocks <==> holds_blocks(*n),
{
    match n {
        Node::Root(_) | Node::BlockQuote { .. } | Node::Footnote { .. } | Node::Item { .. }
        | Node::DefDetail { .. } => Home::Blocks,
        _ => Home::Skip,
    }
}

/// Wraps a tight item's pending inlines in a paragraph that ends at `end`.
fn flush_pending(blocks: &mut Vec<Block>, pending: &mut Vec<Inline>, start: usize, end: usize)
    ensures
        flushed(old(blocks)@, old(pending)@, final(blocks)@, start, end),
        final(pending)@.len() == 0,
{
    if pending.len() > 0 {
        let ghost b0 = blocks@;
        let mut taken: Vec<Inline> = Vec::new();
        std::mem::swap(&mut taken, pending);
        blocks.push(Block { kind: BlockKind::Paragraph(taken), span: start..end });
        assert(blocks@.drop_last() =~= b0);
    }
}

fn put_block(frame: &mut Frame, block: Block)
    ensures
        same_kind(old(frame).node, final(frame).node),
        takes_block(*old(frame), *final(frame), block),
{
    let start = frame.start;
    match &mut frame.node {
        Node::Root(blocks) => {
            let ghost b0 = blocks@;
            blocks.push(block);
            assert(blocks@.drop_last() =~= b0);
        },
        Node::BlockQuote { blocks, .. } => {
            let ghost b0 = blocks@;
            blocks.push(block);
            assert(blocks@.drop_last() =~= b0);
        },
        Node::Footnote { blocks, .. } => {
            let ghost b0 = blocks@;
            blocks.push(block);
            assert(blocks@.drop_last() =~= b0);
        },
        Node::Item { blocks, pending, .. } => {
            flush_pending(blocks, pending, start, block.span.start);
            let ghost mid = blocks@;
            blocks.push(block);
            assert(blocks@.drop_last() =~= mid);
        },
        Node::DefDetail { blocks, pending } => {
            flush_pending(blocks, pending, start, block.span.start);
            let ghost mid = blocks@;
            blocks.push(block);
            assert(blocks@.drop_last() =~= mid);
        },
        _ => {},
    }
}

/// `s` without one final newline.
fn without_final_newline(s: String) -> (r: String)
    ensures
        s@.len() > 0 && s@.last() == '\n' ==> r@ == s@.drop_last(),
        !(s@.len() > 0 && s@.last() == '\n') ==> r@ == s@,
{
    let v = chars_of(s.as_str());
    if v.len() > 0 && v[v.len() - 1] == '\n' {
        let t = slice(&v, 0, v.len() - 1);
        string_of(&t)
    } else {
        s
    }
}

/// `s` without its final newlines.
pub open spec fn trim_newlines(s: Seq<char>) -> Seq<char>
    decreases s.len(),
{
    if s.len() > 0 && s.last() == '\n' {
        trim_newlines(s.drop_last())
    } else {
        s
    }
}

fn without_final_newlines(s: String) -> (r: String)
    ensures
        r@ == trim_newlines(s@),
{
    let v = chars_of(s.as_str());
    let mut n = v.len();
    assert(v@.take(n as int) =~= v@);
    while n > 0 && v[n - 1] == '\n'
        invariant
            n <= v.len(),
            trim_newlines(v@.take(n as int)) == trim_newlines(v@),
        decreases n,
    {
        assert(v@.take(n as int).drop_last() =~= v@.take(n - 1));
        n = n - 1;
    }
    let t = slice(&v, 0, n);
    assert(t@ =~= v@.take(n as int));
    string_of(&t)
}

/// `new` is the stack `old` after `x` went to the frame it belongs in (see
/// `inline_target_in`), or unchanged when there is none.
pub open spec fn placed_inline(old: Seq<Frame>, new: Seq<Frame>, x: Inline) -> bool {
    match inline_target_in(old, old.len() as int) {
        Some(k) => {
            &&& 0 <= k < old.len()
            &&& new == old.update(k, new[k])
            &&& new[k].start == old[k].start
            &&& takes_inline(old[k].node, new[k].node, x)
        },
        None => new == old,
    }
}

/// `new` is the stack `old` after `block` went to the innermost frame that holds blocks (see
/// `takes_block`), or unchanged when none does.
pub open spec fn placed_block(old: Seq<Frame>, new: Seq<Frame>, block: Block) -> bool {
    match block_target_in(old, old.len() as int) {
        Some(k) => {
            &&& 0 <= k < old.len()
            &&& new == old.update(k, new[k])
            &&& takes_block(old[k], new[k], block)
        },
        None => new == old,
    }
}

/// A builder that has taken nothing in: the empty root alone, opened at 0.
pub open spec fn fresh(b: Builder) -> bool {
    &&& b.stack@.len() == 1
    &&& b.stack@[0].start == 0
    &&& b.stack@[0].node matches Node::Root(blocks) && blocks@.len() == 0
    &&& b.footnotes@.len() == 0
    &&& b.front_matter is None
}

/// `new` is the builder `old` after every element but the root closed, innermost first, at
/// the end of the text.
pub open spec fn closes_to(old: Builder, new: Builder) -> bool
    decreases old.stack@.len(),
{
    if old.stack@.len() < 2 {
        new == old
    } else {
        exists|m: Builder|
            m.stack@.len() == old.stack@.len() - 1 && #[trigger] closed_top(old, m, usize::MAX)
                && closes_to(m, new)
    }
}

/// The document a builder with only its root open holds: the root's blocks, the footnotes
/// and the front matter.
pub open spec fn root_document(b: Builder, doc: Document) -> bool {
    &&& b.stack@.len() == 1
    &&& b.stack@[0].node matches Node::Root(blocks) && doc.blocks == blocks
    &&& doc.footnotes == b.footnotes
    &&& doc.front_matter == b.front_matter
}

/// The document a builder gives when the text ends: every open element closed, then what the
/// root holds.
pub open spec fn finished(b: Builder, doc: Document) -> bool {
    exists|c: Builder| closes_to(b, c) && #[trigger] root_document(c, doc)
}

/// `b` is the builder `b0` after the events, one by one.
pub open spec fn ran(b0: Builder, events: Seq<(MdEvent, usize, usize)>, b: Builder) -> bool
    decreases events.len(),
{
    if events.len() == 0 {
        b == b0
    } else {
        exists|m: Builder|
            ran(b0, events.drop_last(), m) && #[trigger] stepped(
                m,
                b,
                events.last().0,
                events.last().1,
                events.last().2,
            )
    }
}

/// `doc` is what a fresh builder gives after taking the events in and closing what is open.
pub open spec fn built_from(events: Seq<(MdEvent, usize, usize)>, doc: Document) -> bool {
    exists|b0: Builder, b: Builder| #[trigger] fresh(b0) && #[trigger] ran(b0, events, b) && finished(b, doc)
}

impl Builder {
    pub fn new() -> (b: Builder)
        ensures
            fresh(b),
            root_at_bottom(b.stack@),
            footnotes_seen(b) == 0,
            !meta_seen(b),
    {
        let mut stack: Vec<Frame> = Vec::new();
        stack.push(Frame { node: Node::Root(Vec::new()), start: 0 });
        let b = Builder { stack, footnotes: Vec::new(), front_matter: None };
        proof {
            lemma_push_counts(Seq::<Frame>::empty(), b.stack@[0]);
            assert(b.stack@ =~= Seq::<Frame>::empty().push(b.stack@[0]));
        }
        b
    }

    /// Takes the frame at `k` out, puts `x` into its content, and puts it back.
    fn put_inline_at(&mut self, k: usize, x: Inline)
        requires
            root_at_bottom(old(self).stack@),
            k < old(self).stack@.len(),
        ensures
            keeps(*old(self), *final(self)),
            same_shape(old(self).stack@, final(self).stack@),
            final(self).footnotes@ == old(self).footnotes@,
            final(self).front_matter == old(self).front_matter,
            final(self).stack@ == old(self).stack@.update(k as int, final(self).stack@[k as int]),
            final(self).stack@[k as int].start == old(self).stack@[k as int].start,
            takes_inline(old(self).stack@[k as int].node, final(self).stack@[k as int].node, x),
    {
        let ghost s0 = self.stack@;
        let mut frame = self.stack.remove(k);
        put_inline(&mut frame.node, x);
        self.stack.insert(k, frame);
        proof {
            assert(self.stack@ =~= s0.update(k as int, frame));
            lemma_update_shape(s0, k as int, frame);
            lemma_same_shape_counts(s0, self.stack@);
        }
    }

    /// Adds an inline to the innermost element that holds inlines, looking through transparent
    /// ones; it is dropped when a block that holds none comes first.
    fn inline(&mut self, x: Inline)
        requires
            root_at_bottom(old(self).stack@),
        ensures
            keeps(*old(self), *final(self)),
            same_shape(old(self).stack@, final(self).stack@),
            final(self).footnotes@ == old(self).footnotes@,
            final(self).front_matter == old(self).front_matter,
            placed_inline(old(self).stack@, final(self).stack@, x),
    {
        match inline_target(&self.stack) {
            Some(k) => self.put_inline_at(k, x),
            None => {
                proof {
                    lemma_same_shape_counts(self.stack@, self.stack@);
                }
            },
        }
    }

    /// Takes the frame at `k` out, puts `block` into it, and puts it back.
    fn put_block_at(&mut self, k: usize, block: Block)
        requires
            root_at_bottom(old(self).stack@),
            k < old(self).stack@.len(),
        ensures
            keeps(*old(self), *final(self)),
            same_shape(old(self).stack@, final(self).stack@),
            final(self).footnotes@ == old(self).footnotes@,
            final(self).front_matter == old(self).front_matter,
            final(self).stack@ == old(self).stack@.update(k as int, final(self).stack@[k as int]),
            takes_block(old(self).stack@[k as int], final(self).stack@[k as int], block),
    {
        let ghost s0 = self.stack@;
        let mut frame = self.stack.remove(k);
        put_block(&mut frame, block);
        self.stack.insert(k, frame);
        proof {
            assert(self.stack@ =~= s0.update(k as int, frame));
            lemma_update_shape(s0, k as int, frame);
            lemma_same_shape_counts(s0, self.stack@);
        }
    }

    /// Adds a block to the innermost element that holds blocks, first wrapping a tight item's
    /// pending inlines in a paragraph.
    fn block(&mut self, kind: BlockKind, span: Range<usize>)
        requires
            root_at_bottom(old(self).stack@),
        ensures
            keeps(*old(self), *final(self)),
            same_shape(old(self).stack@, final(self).stack@),
            final(self).footnotes@ == old(self).footnotes@,
            final(self).front_matter == old(self).front_matter,
            placed_block(old(self).stack@, final(self).stack@, Block { kind, span }),
    {
        let block = Block { kind, span };
        match block_target(&self.stack) {
            Some(k) => self.put_block_at(k, block),
            None => {
                proof {
                    lemma_same_shape_counts(self.stack@, self.stack@);
                }
            },
        }
    }
}

/// The innermost of the first `n` frames that an inline goes into: one that gathers inlines,
/// looking through transparent ones; none when another comes first.
pub open spec fn inline_target_in(s: Seq<Frame>, n: int) -> Option<int>
    decreases n,
{
    if n <= 0 {
        None
    } else if gathers_inlines(s[n - 1].node) {
        Some(n - 1)
    } else if s[n - 1].node is Transparent {
        inline_target_in(s, n - 1)
    } else {
        None
    }
}

proof fn lemma_inline_target_in_range(s: Seq<Frame>, n: int)
    requires
        n <= s.len(),
    ensures
        inline_target_in(s, n) matches Some(k) ==> 0 <= k < n,
    decreases n,
{
    if n > 0 {
        lemma_inline_target_in_range(s, n - 1);
    }
}

/// The innermost frame that an inline goes into, if any.
fn inline_target(stack: &Vec<Frame>) -> (r: Option<usize>)
    ensures
        r matches Some(k) ==> k < stack@.len(),
        r is None ==> inline_target_in(stack@, stack@.len() as int) is None,
        r matches Some(k) ==> inline_target_in(stack@, stack@.len() as int) == Some(k as int),
{
    let mut k = stack.len();
    while k > 0
        invariant
            k <= stack.len(),
            inline_target_in(stack@, stack@.len() as int) == inline_target_in(stack@, k as int),
        decreases k,
    {
        k = k - 1;
        match inline_role(&stack[k].node) {
            Role::Skip => {},
            Role::Stop => return None,
            Role::Content => return Some(k),
        }
    }
    None
}

/// The innermost of the first `n` frames that holds blocks.
pub open spec fn block_target_in(s: Seq<Frame>, n: int) -> Option<int>
    decreases n,
{
    if n <= 0 {
        None
    } else if holds_blocks(s[n - 1].node) {
        Some(n - 1)
    } else {
        block_target_in(s, n - 1)
    }
}

/// The innermost frame that a block goes into, if any.
fn block_target(stack: &Vec<Frame>) -> (r: Option<usize>)
    ensures
        r matches Some(k) ==> k < stack@.len(),
        r is None ==> block_target_in(stack@, stack@.len() as int) is None,
        r matches Some(k) ==> block_target_in(stack@, stack@.len() as int) == Some(k as int),
{
    let mut k = stack.len();
    while k > 0
        invariant
            k <= stack.len(),
            block_target_in(stack@, stack@.len() as int) == block_target_in(stack@, k as int),
        decreases k,
    {
        k = k - 1;
        match block_home(&stack[k].node) {
            Home::Skip => {},
            Home::Blocks => return Some(k),
        }
    }
    None
}

/// A change to the innermost open element.
pub enum TopChange {
    /// A definition list gets a new term.
    Term(Vec<Inline>),
    /// A definition list's last term gets a new meaning.
    Detail(Vec<Block>),
    /// A list gets an item.
    Item(ListItem),
    /// A table gets its header row.
    Header(Vec<Vec<Inline>>),
    /// A table gets a body row.
    Row(Vec<Vec<Inline>>),
    /// A table row gets a cell.
    Cell(Vec<Inline>),
    /// A tight item's pending inlines become a paragraph ending at the position.
    Flush(usize),
}

/// `b` is the innermost frame `a` after `change`; a frame that the change does not fit is
/// unchanged.
pub open spec fn changed(a: Frame, b: Frame, change: TopChange) -> bool {
    &&& b.start == a.start
    &&& match change {
        TopChange::Term(term) => match a.node {
            Node::DefList(defs) => (b.node matches Node::DefList(d) && d@.len() == defs@.len() + 1
                && d@.drop_last() == defs@ && d@.last().term == term && d@.last().details@.len()
                == 0),
            _ => b.node == a.node,
        },
        TopChange::Detail(blocks) => match a.node {
            Node::DefList(defs) => if defs@.len() > 0 {
                (b.node matches Node::DefList(d) && d@.len() == defs@.len() && d@.drop_last()
                    == defs@.drop_last() && d@.last().term == defs@.last().term
                    && d@.last().details@ == defs@.last().details@.push(blocks))
            } else {
                b.node == a.node
            },
            _ => b.node == a.node,
        },
        TopChange::Item(item) => match a.node {
            Node::List(l) => (b.node matches Node::List(m) && m.start == l.start && m.tight
                == l.tight && m.items@ == l.items@.push(item)),
            _ => b.node == a.node,
        },
        TopChange::Header(cells) => match a.node {
            Node::Table(t) => (b.node matches Node::Table(u) && u.alignments == t.alignments
                && u.header == cells && u.rows == t.rows),
            _ => b.node == a.node,
        },
        TopChange::Row(cells) => match a.node {
            Node::Table(t) => (b.node matches Node::Table(u) && u.alignments == t.alignments
                && u.header == t.header && u.rows@ == t.rows@.push(cells)),
            _ => b.node == a.node,
        },
        TopChange::Cell(content) => match a.node {
            Node::TableHead(c) => (b.node matches Node::TableHead(d) && d@ == c@.push(content)),
            Node::TableRow(c) => (b.node matches Node::TableRow(d) && d@ == c@.push(content)),
            _ => b.node == a.node,
        },
        TopChange::Flush(pos) => match a.node {
            Node::Item { task, blocks, pending } => (b.node matches Node::Item {
                task: t,
                blocks: bs,
                pending: ps,
            } && t == task && ps@.len() == 0 && flushed(blocks@, pending@, bs@, a.start, pos)),
            Node::DefDetail { blocks, pending } => (b.node matches Node::DefDetail {
                blocks: bs,
                pending: ps,
            } && ps@.len() == 0 && flushed(blocks@, pending@, bs@, a.start, pos)),
            _ => b.node == a.node,
        },
    }
}

fn change_frame(f: &mut Frame, change: TopChange)
    ensures
        same_kind(old(f).node, final(f).node),
        changed(*old(f), *final(f), change),
{
    let start = f.start;
    match change {
        TopChange::Term(term) => match &mut f.node {
            Node::DefList(defs) => {
                let ghost d0 = defs@;
                defs.push(Definition { term, details: Vec::new() });
                assert(defs@.drop_last() =~= d0);
            },
            _ => {},
        },
        TopChange::Detail(blocks) => match &mut f.node {
            Node::DefList(defs) => {
                if defs.len() > 0 {
                    let ghost d0 = defs@;
                    let mut last = defs.pop().unwrap();
                    last.details.push(blocks);
                    defs.push(last);
                    assert(defs@.drop_last() =~= d0.drop_last());
                }
            },
            _ => {},
        },
        TopChange::Item(item) => match &mut f.node {
            Node::List(list) => list.items.push(item),
            _ => {},
        },
        TopChange::Header(cells) => match &mut f.node {
            Node::Table(table) => table.header = cells,
            _ => {},
        },
        TopChange::Row(cells) => match &mut f.node {
            Node::Table(table) => table.rows.push(cells),
            _ => {},
        },
        TopChange::Cell(content) => match &mut f.node {
            Node::TableHead(cells) => cells.push(content),
            Node::TableRow(cells) => cells.push(content),
            _ => {},
        },
        TopChange::Flush(pos) => match &mut f.node {
            Node::Item { blocks, pending, .. } => flush_pending(blocks, pending, start, pos),
            Node::DefDetail { blocks, pending } => flush_pending(blocks, pending, start, pos),
            _ => {},
        },
    }
}

/// Appends text to the innermost element when it gathers raw text: code (when `code` is set),
/// HTML or front matter. Whether it did.
/// Whether a node gathers raw text: a code block (for code text), HTML or front matter.
pub open spec fn gathers_raw(n: Node, code: bool) -> bool {
    (n is CodeBlock && code) || n is Html || n is Meta
}

/// The raw text a node has gathered.
pub open spec fn raw_slot(n: Node) -> Seq<char> {
    match n {
        Node::CodeBlock { code, .. } => code@,
        Node::Html(h) => h@,
        Node::Meta { text, .. } => text@,
        _ => seq![],
    }
}

/// Two nodes of one variant that agree in everything but their raw text.
pub open spec fn same_but_raw(a: Node, b: Node) -> bool {
    match (a, b) {
        (Node::CodeBlock { lang: x, .. }, Node::CodeBlock { lang: y, .. }) => x == y,
        (Node::Html(_), Node::Html(_)) => true,
        (Node::Meta { format: x, .. }, Node::Meta { format: y, .. }) => x == y,
        _ => false,
    }
}

/// `b` is the frame `a` with `s` appended to its raw text.
pub open spec fn appended(a: Frame, b: Frame, s: Seq<char>) -> bool {
    &&& b.start == a.start
    &&& same_but_raw(a.node, b.node)
    &&& raw_slot(b.node) == raw_slot(a.node) + s
}

fn append_raw(f: &mut Frame, s: &str, code: bool) -> (done: bool)
    ensures
        same_kind(old(f).node, final(f).node),
        done == gathers_raw(old(f).node, code),
        done ==> appended(*old(f), *final(f), s@),
        !done ==> *final(f) == *old(f),
{
    match &mut f.node {
        Node::CodeBlock { code: c, .. } => {
            if code {
                c.append(s);
                true
            } else {
                false
            }
        },
        Node::Html(h) => {
            h.append(s);
            true
        },
        Node::Meta { text, .. } => {
            text.append(s);
            true
        },
        _ => false,
    }
}

/// `new` is the stack `old` with its innermost frame changed by `change`.
pub open spec fn changed_top(old: Seq<Frame>, new: Seq<Frame>, change: TopChange) -> bool {
    &&& old.len() >= 1
    &&& new == old.update(old.len() - 1, new.last())
    &&& changed(old.last(), new.last(), change)
}

/// `new` is the stack `old` with `s` appended to the raw text of its innermost frame.
pub open spec fn appended_top(old: Seq<Frame>, new: Seq<Frame>, s: Seq<char>) -> bool {
    &&& old.len() >= 1
    &&& new == old.update(old.len() - 1, new.last())
    &&& appended(old.last(), new.last(), s)
}

/// `new` is the stack `old` after a paragraph opens: when the innermost frame is a list item,
/// the list around it becomes loose; nothing else changes.
pub open spec fn loosened(old: Seq<Frame>, new: Seq<Frame>) -> bool {
    if old.len() >= 2 && old.last().node is Item {
        let k = old.len() - 2;
        &&& new == old.update(k, new[k])
        &&& new[k].start == old[k].start
        &&& match old[k].node {
            Node::List(l) => (new[k].node matches Node::List(m) && m.start == l.start && !m.tight
                && m.items == l.items),
            _ => new[k].node == old[k].node,
        }
    } else {
        new == old
    }
}

/// The innermost list item among the first `n` frames.
pub open spec fn item_in(s: Seq<Frame>, n: int) -> Option<int>
    decreases n,
{
    if n <= 0 {
        None
    } else if s[n - 1].node is Item {
        Some(n - 1)
    } else {
        item_in(s, n - 1)
    }
}

proof fn lemma_item_in(s: Seq<Frame>, n: int)
    requires
        n <= s.len(),
    ensures
        item_in(s, n) matches Some(k) ==> 0 <= k < n && s[k].node is Item,
    decreases n,
{
    if n > 0 {
        lemma_item_in(s, n - 1);
    }
}

/// `new` is the stack `old` with its innermost list item marked as a task, done or not;
/// unchanged when no item is open.
pub open spec fn ticked(old: Seq<Frame>, new: Seq<Frame>, checked: bool) -> bool {
    match item_in(old, old.len() as int) {
        Some(k) => {
            &&& 0 <= k < old.len()
            &&& new == old.update(k, new[k])
            &&& new[k].start == old[k].start
            &&& (old[k].node matches Node::Item { blocks, pending, .. } && new[k].node
                matches Node::Item { task: t, blocks: b, pending: p } && t == Some(checked)
                && b == blocks && p == pending)
        },
        None => new == old,
    }
}

proof fn lemma_pop_push(s0: Seq<Frame>, f: Frame)
    requires
        s0.len() >= 1,
        same_kind(s0.last().node, f.node),
    ensures
        s0.drop_last().push(f) == s0.update(s0.len() - 1, f),
        same_shape(s0, s0.drop_last().push(f)),
{
    assert(s0.drop_last().push(f) =~= s0.update(s0.len() - 1, f));
    lemma_update_shape(s0, s0.len() - 1, f);
}

/// The counts drop by what the last frame held when it is taken off.
proof fn lemma_pop_counts(s0: Seq<Frame>)
    requires
        s0.len() >= 1,
    ensures
        open_footnotes(s0) == open_footnotes(s0.drop_last()) + if s0.last().node is Footnote {
            1nat
        } else {
            0nat
        },
        open_meta(s0) == open_meta(s0.drop_last()) + if s0.last().node is Meta {
            1nat
        } else {
            0nat
        },
{
}

impl Builder {
    /// Applies a change to the innermost open element.
    fn change_top(&mut self, change: TopChange)
        requires
            root_at_bottom(old(self).stack@),
        ensures
            keeps(*old(self), *final(self)),
            same_shape(old(self).stack@, final(self).stack@),
            final(self).footnotes@ == old(self).footnotes@,
            final(self).front_matter == old(self).front_matter,
            changed_top(old(self).stack@, final(self).stack@, change),
    {
        let ghost s0 = self.stack@;
        let mut f = self.stack.pop().unwrap();
        change_frame(&mut f, change);
        self.stack.push(f);
        proof {
            lemma_pop_push(s0, f);
            lemma_same_shape_counts(s0, self.stack@);
        }
    }

    /// Ends a tight item's implicit paragraph before a block starts in it.
    fn flush_item(&mut self, pos: usize)
        requires
            root_at_bottom(old(self).stack@),
        ensures
            keeps(*old(self), *final(self)),
            same_shape(old(self).stack@, final(self).stack@),
            final(self).footnotes@ == old(self).footnotes@,
            final(self).front_matter == old(self).front_matter,
            changed_top(old(self).stack@, final(self).stack@, TopChange::Flush(pos)),
    {
        self.change_top(TopChange::Flush(pos));
    }

    /// A paragraph directly in a list item makes the list loose.
    fn mark_loose(&mut self)
        requires
            root_at_bottom(old(self).stack@),
        ensures
            keeps(*old(self), *final(self)),
            same_shape(old(self).stack@, final(self).stack@),
            final(self).footnotes@ == old(self).footnotes@,
            final(self).front_matter == old(self).front_matter,
            loosened(old(self).stack@, final(self).stack@),
    {
        let ghost s0 = self.stack@;
        let n = self.stack.len();
        let item_on_top = n >= 2 && match &self.stack[n - 1].node {
            Node::Item { .. } => true,
            _ => false,
        };
        if item_on_top {
            let mut f = self.stack.remove(n - 2);
            match &mut f.node {
                Node::List(list) => list.tight = false,
                _ => {},
            }
            self.stack.insert(n - 2, f);
            proof {
                assert(self.stack@ =~= s0.update(n - 2, f));
                lemma_update_shape(s0, n - 2, f);
                lemma_same_shape_counts(s0, self.stack@);
            }
        } else {
            proof {
                lemma_same_shape_counts(s0, s0);
            }
        }
    }

    /// Marks the innermost list item as a task, done or not.
    fn task(&mut self, checked: bool)
        requires
            root_at_bottom(old(self).stack@),
        ensures
            keeps(*old(self), *final(self)),
            same_shape(old(self).stack@, final(self).stack@),
            final(self).footnotes@ == old(self).footnotes@,
            final(self).front_matter == old(self).front_matter,
            ticked(old(self).stack@, final(self).stack@, checked),
    {
        let ghost s0 = self.stack@;
        match item_index(&self.stack) {
            Some(k) => {
                proof {
                    lemma_item_in(s0, s0.len() as int);
                }
                let mut f = self.stack.remove(k);
                assert(f == s0[k as int]);
                match &mut f.node {
                    Node::Item { task, .. } => *task = Some(checked),
                    _ => {},
                }
                self.stack.insert(k, f);
                proof {
                    assert(self.stack@ =~= s0.update(k as int, f));
                    lemma_update_shape(s0, k as int, f);
                    lemma_same_shape_counts(s0, self.stack@);
                }
            },
            None => {
                proof {
                    lemma_same_shape_counts(s0, s0);
                }
            },
        }
    }

    /// Text: raw text of code, HTML and front matter, or an inline with its shortcodes made
    /// emoji.
    fn text(&mut self, s: &str)
        requires
            root_at_bottom(old(self).stack@),
        ensures
            keeps(*old(self), *final(self)),
            same_shape(old(self).stack@, final(self).stack@),
            final(self).footnotes@ == old(self).footnotes@,
            final(self).front_matter == old(self).front_matter,
            gathers_raw(old(self).stack@.last().node, true) ==> appended_top(
                old(self).stack@,
                final(self).stack@,
                s@,
            ),
            !gathers_raw(old(self).stack@.last().node, true) ==> exists|t: String|
                t@ == emojify_spec(s@) && placed_inline(
                    old(self).stack@,
                    final(self).stack@,
                    Inline::Text(t),
                ),
    {
        if !self.raw(s, true) {
            let e = emojify(s);
            let ghost t = e;
            self.inline(Inline::Text(e));
            assert(t@ == emojify_spec(s@));
        }
    }

    /// HTML: raw text of an HTML block or front matter, or inline HTML.
    fn html(&mut self, s: &str)
        requires
            root_at_bottom(old(self).stack@),
        ensures
            keeps(*old(self), *final(self)),
            same_shape(old(self).stack@, final(self).stack@),
            final(self).footnotes@ == old(self).footnotes@,
            final(self).front_matter == old(self).front_matter,
            gathers_raw(old(self).stack@.last().node, false) ==> appended_top(
                old(self).stack@,
                final(self).stack@,
                s@,
            ),
            !gathers_raw(old(self).stack@.last().node, false) ==> exists|t: String|
                t@ == s@ && placed_inline(old(self).stack@, final(self).stack@, Inline::Html(t)),
    {
        if !self.raw(s, false) {
            let t = s.to_string();
            let ghost g = t;
            self.inline(Inline::Html(t));
            assert(g@ == s@);
        }
    }

    /// Appends raw text to the innermost element if it gathers raw text.
    fn raw(&mut self, s: &str, code: bool) -> (done: bool)
        requires
            root_at_bottom(old(self).stack@),
        ensures
            keeps(*old(self), *final(self)),
            same_shape(old(self).stack@, final(self).stack@),
            final(self).footnotes@ == old(self).footnotes@,
            final(self).front_matter == old(self).front_matter,
            done == gathers_raw(old(self).stack@.last().node, code),
            done ==> appended_top(old(self).stack@, final(self).stack@, s@),
            !done ==> final(self).stack@ == old(self).stack@,
    {
        let ghost s0 = self.stack@;
        let mut f = self.stack.pop().unwrap();
        let done = append_raw(&mut f, s, code);
        self.stack.push(f);
        proof {
            lemma_pop_push(s0, f);
            lemma_same_shape_counts(s0, self.stack@);
            if !done {
                assert(self.stack@ =~= s0);
            }
        }
        done
    }
}

/// The innermost list item, if any.
fn item_index(stack: &Vec<Frame>) -> (r: Option<usize>)
    ensures
        r matches Some(k) ==> k < stack@.len(),
        r is None ==> item_in(stack@, stack@.len() as int) is None,
        r matches Some(k) ==> item_in(stack@, stack@.len() as int) == Some(k as int),
{
    let mut k = stack.len();
    while k > 0
        invariant
            k <= stack.len(),
            item_in(stack@, stack@.len() as int) == item_in(stack@, k as int),
        decreases k,
    {
        k = k - 1;
        match &stack[k].node {
            Node::Item { .. } => return Some(k),
            _ => {},
        }
    }
    None
}

/// Whether the event opens a footnote definition.
pub open spec fn opens_footnote(e: MdEvent) -> bool {
    e matches MdEvent::Start(MdTag::FootnoteDefinition(_))
}

/// Whether the event opens front matter.
pub open spec fn opens_meta(e: MdEvent) -> bool {
    e matches MdEvent::Start(MdTag::MetadataBlock(_))
}

/// The number of footnote definitions among the events.
pub open spec fn footnote_defs(events: Seq<(MdEvent, usize, usize)>) -> nat
    decreases events.len(),
{
    if events.len() == 0 {
        0
    } else {
        footnote_defs(events.drop_last()) + if opens_footnote(events.last().0) {
            1nat
        } else {
            0nat
        }
    }
}

/// Whether some event opens front matter.
pub open spec fn has_meta(events: Seq<(MdEvent, usize, usize)>) -> bool {
    exists|i: int| 0 <= i < events.len() && opens_meta(#[trigger] events[i].0)
}

fn table_alignments(aligns: &Vec<ColumnAlign>) -> (r: Vec<Alignment>)
    ensures
        r@ == aligns@.map_values(|a: ColumnAlign| alignment_spec(a)),
{
    let mut out: Vec<Alignment> = Vec::new();
    let mut i: usize = 0;
    while i < aligns.len()
        invariant
            i <= aligns.len(),
            out@ == aligns@.take(i as int).map_values(|a: ColumnAlign| alignment_spec(a)),
        decreases aligns.len() - i,
    {
        out.push(alignment(aligns[i]));
        i = i + 1;
        assert(out@ =~= aligns@.take(i as int).map_values(|a: ColumnAlign| alignment_spec(a)));
    }
    assert(aligns@.take(aligns.len() as int) =~= aligns@);
    out
}

/// `s` without one final newline.
pub open spec fn drop_final_newline(s: Seq<char>) -> Seq<char> {
    if s.len() > 0 && s.last() == '\n' {
        s.drop_last()
    } else {
        s
    }
}

/// `new` is the builder `old` after its innermost element closed at `pos`: a block goes to the
/// element around it that holds blocks (spanning from where the element opened to `pos`; code
/// without its final newline, HTML without its final newlines), an inline to the element that
/// gathers inlines, a term, meaning, item, header, row or cell to its definition list, list,
/// table or row (a tight item's or meaning's pending inlines first made a paragraph), a
/// footnote to the footnotes and front matter aside; a transparent element just closes.
pub open spec fn closed_top(old: Builder, new: Builder, pos: usize) -> bool {
    let s = old.stack@;
    let rest = s.drop_last();
    let st = s.last().start;
    let span = Range { start: st, end: pos };
    let same_aside = new.footnotes@ == old.footnotes@ && new.front_matter == old.front_matter;
    match s.last().node {
        Node::Root(_) => new == old,
        Node::Paragraph(c) => same_aside && placed_block(
            rest,
            new.stack@,
            Block { kind: BlockKind::Paragraph(c), span },
        ),
        Node::Heading { level, content } => same_aside && placed_block(
            rest,
            new.stack@,
            Block { kind: BlockKind::Heading { level, content }, span },
        ),
        Node::CodeBlock { lang, code } => same_aside && exists|c: String|
            c@ == drop_final_newline(code@) && #[trigger] placed_block(
                rest,
                new.stack@,
                Block { kind: BlockKind::CodeBlock { lang, code: c }, span },
            ),
        Node::BlockQuote { alert, blocks } => same_aside && placed_block(
            rest,
            new.stack@,
            Block { kind: BlockKind::BlockQuote { alert, blocks }, span },
        ),
        Node::List(list) => same_aside && placed_block(
            rest,
            new.stack@,
            Block { kind: BlockKind::List(list), span },
        ),
        Node::DefList(defs) => same_aside && placed_block(
            rest,
            new.stack@,
            Block { kind: BlockKind::DefinitionList(defs), span },
        ),
        Node::Table(t) => same_aside && placed_block(
            rest,
            new.stack@,
            Block { kind: BlockKind::Table(t), span },
        ),
        Node::Html(h) => same_aside && exists|t: String|
            t@ == trim_newlines(h@) && #[trigger] placed_block(
                rest,
                new.stack@,
                Block { kind: BlockKind::Html(t), span },
            ),
        Node::DefTitle(term) => same_aside && changed_top(rest, new.stack@, TopChange::Term(term)),
        Node::DefDetail { blocks, pending } => same_aside && exists|bs: Vec<Block>|
            flushed(blocks@, pending@, bs@, st, pos) && #[trigger] changed_top(
                rest,
                new.stack@,
                TopChange::Detail(bs),
            ),
        Node::Item { task, blocks, pending } => same_aside && exists|bs: Vec<Block>|
            flushed(blocks@, pending@, bs@, st, pos) && #[trigger] changed_top(
                rest,
                new.stack@,
                TopChange::Item(ListItem { task, blocks: bs }),
            ),
        Node::TableHead(cells) => same_aside && changed_top(rest, new.stack@, TopChange::Header(cells)),
        Node::TableRow(cells) => same_aside && changed_top(rest, new.stack@, TopChange::Row(cells)),
        Node::TableCell(c) => same_aside && changed_top(rest, new.stack@, TopChange::Cell(c)),
        Node::Emphasis(c) => same_aside && placed_inline(rest, new.stack@, Inline::Emphasis(c)),
        Node::Strong(c) => same_aside && placed_inline(rest, new.stack@, Inline::Strong(c)),
        Node::Strikethrough(c) => same_aside && placed_inline(
            rest,
            new.stack@,
            Inline::Strikethrough(c),
        ),
        Node::Link { content, url, title } => same_aside && placed_inline(
            rest,
            new.stack@,
            Inline::Link { content, url, title },
        ),
        Node::WikiLink { target, content } => same_aside && placed_inline(
            rest,
            new.stack@,
            Inline::WikiLink { target, content },
        ),
        Node::Image { alt, url } => same_aside && placed_inline(
            rest,
            new.stack@,
            Inline::Image { alt, url },
        ),
        Node::Meta { format, text } => {
            &&& new.stack@ == rest
            &&& new.footnotes@ == old.footnotes@
            &&& new.front_matter matches Some(fm) && fm.format == format && fm.text@
                == trim_newlines(text@)
        },
        Node::Footnote { label, blocks } => {
            &&& new.stack@ == rest
            &&& new.front_matter == old.front_matter
            &&& new.footnotes@ == old.footnotes@.push(Footnote { label, blocks })
        },
        Node::Transparent => same_aside && new.stack@ == rest,
    }
}

/// The language of an optional text.
pub open spec fn opt_text(s: Option<String>) -> Option<Seq<char>> {
    match s {
        Some(t) => Some(t@),
        None => None,
    }
}

/// `n` is the empty element that `tag` opens.
pub open spec fn opened(tag: MdTag, n: Node) -> bool {
    match tag {
        MdTag::Paragraph => (n matches Node::Paragraph(c) && c@.len() == 0),
        MdTag::Heading(level) => (n matches Node::Heading { level: l, content } && l == level
            && content@.len() == 0),
        MdTag::BlockQuote(kind) => (n matches Node::BlockQuote { alert, blocks } && blocks@.len()
            == 0 && alert == match kind {
            Some(k) => Some(alert_spec(k)),
            None => None,
        }),
        MdTag::CodeBlock(info) => (n matches Node::CodeBlock { lang, code } && code@.len() == 0
            && opt_text(lang) == match info {
            Some(i) => language_spec(i@),
            None => None,
        }),
        MdTag::HtmlBlock => (n matches Node::Html(h) && h@.len() == 0),
        MdTag::List(start) => (n matches Node::List(l) && l.start == start && l.tight
            && l.items@.len() == 0),
        MdTag::Item => (n matches Node::Item { task, blocks, pending } && task is None
            && blocks@.len() == 0 && pending@.len() == 0),
        MdTag::FootnoteDefinition(label) => (n matches Node::Footnote { label: x, blocks } && x
            == label && blocks@.len() == 0),
        MdTag::DefinitionList => (n matches Node::DefList(d) && d@.len() == 0),
        MdTag::DefinitionListTitle => (n matches Node::DefTitle(c) && c@.len() == 0),
        MdTag::DefinitionListDefinition => (n matches Node::DefDetail { blocks, pending }
            && blocks@.len() == 0 && pending@.len() == 0),
        MdTag::Table(aligns) => (n matches Node::Table(t) && t.alignments@ == aligns@.map_values(
            |a: ColumnAlign| alignment_spec(a),
        ) && t.header@.len() == 0 && t.rows@.len() == 0),
        MdTag::TableHead => (n matches Node::TableHead(c) && c@.len() == 0),
        MdTag::TableRow => (n matches Node::TableRow(c) && c@.len() == 0),
        MdTag::TableCell => (n matches Node::TableCell(c) && c@.len() == 0),
        MdTag::Emphasis => (n matches Node::Emphasis(c) && c@.len() == 0),
        MdTag::Strong => (n matches Node::Strong(c) && c@.len() == 0),
        MdTag::Strikethrough => (n matches Node::Strikethrough(c) && c@.len() == 0),
        MdTag::Superscript => n is Transparent,
        MdTag::Subscript => n is Transparent,
        MdTag::Link { wiki, url, title } => if wiki {
            (n matches Node::WikiLink { target, content } && target == url && content@.len() == 0)
        } else {
            (n matches Node::Link { content, url: u, title: t } && u == url && t == title
                && content@.len() == 0)
        },
        MdTag::Image(url) => (n matches Node::Image { alt, url: u } && u == url && alt@.len()
            == 0),
        MdTag::MetadataBlock(format) => (n matches Node::Meta { format: f, text } && f == format
            && text@.len() == 0),
    }
}

/// Whether a tag opens a block that ends a tight item's implicit paragraph first.
pub open spec fn flushes(tag: MdTag) -> bool {
    ||| tag is Paragraph
    ||| tag is BlockQuote
    ||| tag is CodeBlock
    ||| tag is HtmlBlock
    ||| tag is List
    ||| tag is Table
    ||| tag is DefinitionList
}

/// `new` is the builder `old` after the element `tag` opened at `pos` (see `Builder::start`).
pub open spec fn started(old: Builder, new: Builder, tag: MdTag, pos: usize) -> bool {
    &&& new.stack@.len() == old.stack@.len() + 1
    &&& new.stack@.last().start == pos
    &&& opened(tag, new.stack@.last().node)
    &&& !flushes(tag) ==> new.stack@.drop_last() == old.stack@
    &&& flushes(tag) && !(tag is Paragraph) ==> changed_top(
        old.stack@,
        new.stack@.drop_last(),
        TopChange::Flush(pos),
    )
    &&& tag is Paragraph ==> exists|mid: Seq<Frame>|
        #[trigger] changed_top(old.stack@, mid, TopChange::Flush(pos)) && loosened(
            mid,
            new.stack@.drop_last(),
        )
    &&& new.footnotes@ == old.footnotes@
    &&& new.front_matter == old.front_matter
}

/// `new` is the builder `old` after the inline `x` went where it belongs.
pub open spec fn took_inline(old: Builder, new: Builder, x: Inline) -> bool {
    &&& placed_inline(old.stack@, new.stack@, x)
    &&& new.footnotes@ == old.footnotes@
    &&& new.front_matter == old.front_matter
}

/// `new` is the builder `old` after text `s`: raw text of an open code block, HTML block or
/// front matter, else a text inline with its shortcodes made emoji.
pub open spec fn text_taken(old: Builder, new: Builder, s: Seq<char>) -> bool {
    &&& new.footnotes@ == old.footnotes@
    &&& new.front_matter == old.front_matter
    &&& gathers_raw(old.stack@.last().node, true) ==> appended_top(old.stack@, new.stack@, s)
    &&& !gathers_raw(old.stack@.last().node, true) ==> exists|t: String|
        t@ == emojify_spec(s) && #[trigger] placed_inline(old.stack@, new.stack@, Inline::Text(t))
}

/// `new` is the builder `old` after HTML `s`: raw text of an open HTML block or front matter,
/// else an inline.
pub open spec fn html_taken(old: Builder, new: Builder, s: Seq<char>) -> bool {
    &&& new.footnotes@ == old.footnotes@
    &&& new.front_matter == old.front_matter
    &&& gathers_raw(old.stack@.last().node, false) ==> appended_top(old.stack@, new.stack@, s)
    &&& !gathers_raw(old.stack@.last().node, false) ==> exists|t: String|
        t@ == s && #[trigger] placed_inline(old.stack@, new.stack@, Inline::Html(t))
}

/// `new` is the builder `old` after the event `e`, which covers `start..end` of the text.
pub open spec fn stepped(old: Builder, new: Builder, e: MdEvent, start: usize, end: usize) -> bool {
    match e {
        MdEvent::Start(tag) => started(old, new, tag, start),
        MdEvent::End => if old.stack@.len() >= 2 {
            closed_top(old, new, end)
        } else {
            new == old
        },
        MdEvent::Text(s) => text_taken(old, new, s@),
        MdEvent::Code(s) => took_inline(old, new, Inline::Code(s)),
        MdEvent::InlineMath(s) => took_inline(old, new, Inline::Math { display: false, source: s }),
        MdEvent::DisplayMath(s) => took_inline(old, new, Inline::Math { display: true, source: s }),
        MdEvent::Html(s) => html_taken(old, new, s@),
        MdEvent::InlineHtml(s) => took_inline(old, new, Inline::Html(s)),
        MdEvent::FootnoteReference(s) => took_inline(old, new, Inline::FootnoteRef(s)),
        MdEvent::SoftBreak => took_inline(old, new, Inline::SoftBreak),
        MdEvent::HardBreak => took_inline(old, new, Inline::HardBreak),
        MdEvent::Rule => {
            &&& placed_block(
                old.stack@,
                new.stack@,
                Block { kind: BlockKind::Rule, span: Range { start, end } },
            )
            &&& new.footnotes@ == old.footnotes@
            &&& new.front_matter == old.front_matter
        },
        MdEvent::TaskListMarker(checked) => {
            &&& ticked(old.stack@, new.stack@, checked)
            &&& new.footnotes@ == old.footnotes@
            &&& new.front_matter == old.front_matter
        },
    }
}

impl Builder {
    /// Opens an element. A block that starts in a tight list item first ends the item's
    /// implicit paragraph; a paragraph in an item makes its list loose.
    fn start(&mut self, tag: MdTag, pos: usize)
        requires
            root_at_bottom(old(self).stack@),
        ensures
            final(self).stack@.len() == old(self).stack@.len() + 1,
            final(self).stack@.last().start == pos,
            opened(tag, final(self).stack@.last().node),
            !flushes(tag) ==> final(self).stack@.drop_last() == old(self).stack@,
            flushes(tag) && !(tag is Paragraph) ==> changed_top(
                old(self).stack@,
                final(self).stack@.drop_last(),
                TopChange::Flush(pos),
            ),
            tag is Paragraph ==> exists|mid: Seq<Frame>|
                changed_top(old(self).stack@, mid, TopChange::Flush(pos)) && loosened(
                    mid,
                    final(self).stack@.drop_last(),
                ),
            final(self).footnotes@ == old(self).footnotes@,
            final(self).front_matter == old(self).front_matter,
            root_at_bottom(final(self).stack@),
            footnotes_seen(*final(self)) == footnotes_seen(*old(self)) + if tag is FootnoteDefinition {
                1nat
            } else {
                0nat
            },
            meta_seen(*final(self)) == (meta_seen(*old(self)) || tag is MetadataBlock),
    {
        let ghost s_in = self.stack@;
        let node = match tag {
            MdTag::Paragraph => {
                self.flush_item(pos);
                let ghost mid = self.stack@;
                self.mark_loose();
                assert(changed_top(s_in, mid, TopChange::Flush(pos)));
                Node::Paragraph(Vec::new())
            },
            MdTag::Heading(level) => Node::Heading { level, content: Vec::new() },
            MdTag::BlockQuote(kind) => {
                self.flush_item(pos);
                let a = match kind {
                    Some(k) => Some(alert(k)),
                    None => None,
                };
                Node::BlockQuote { alert: a, blocks: Vec::new() }
            },
            MdTag::CodeBlock(info) => {
                self.flush_item(pos);
                let lang = match &info {
                    Some(i) => language(i.as_str()),
                    None => None,
                };
                Node::CodeBlock { lang, code: String::new() }
            },
            MdTag::HtmlBlock => {
                self.flush_item(pos);
                Node::Html(String::new())
            },
            MdTag::List(start) => {
                self.flush_item(pos);
                Node::List(List { start, tight: true, items: Vec::new() })
            },
            MdTag::Item => Node::Item { task: None, blocks: Vec::new(), pending: Vec::new() },
            MdTag::FootnoteDefinition(label) => Node::Footnote { label, blocks: Vec::new() },
            MdTag::Table(aligns) => {
                self.flush_item(pos);
                let alignments = table_alignments(&aligns);
                Node::Table(Table { alignments, header: Vec::new(), rows: Vec::new() })
            },
            MdTag::TableHead => Node::TableHead(Vec::new()),
            MdTag::TableRow => Node::TableRow(Vec::new()),
            MdTag::TableCell => Node::TableCell(Vec::new()),
            MdTag::Emphasis => Node::Emphasis(Vec::new()),
            MdTag::Strong => Node::Strong(Vec::new()),
            MdTag::Strikethrough => Node::Strikethrough(Vec::new()),
            MdTag::Link { wiki, url, title } => if wiki {
                Node::WikiLink { target: url, content: Vec::new() }
            } else {
                Node::Link { content: Vec::new(), url, title }
            },
            MdTag::Image(url) => Node::Image { alt: Vec::new(), url },
            MdTag::MetadataBlock(format) => Node::Meta { format, text: String::new() },
            MdTag::DefinitionList => {
                self.flush_item(pos);
                Node::DefList(Vec::new())
            },
            MdTag::DefinitionListTitle => Node::DefTitle(Vec::new()),
            MdTag::DefinitionListDefinition => Node::DefDetail {
                blocks: Vec::new(),
                pending: Vec::new(),
            },
            MdTag::Superscript => Node::Transparent,
            MdTag::Subscript => Node::Transparent,
        };
        let ghost s0 = self.stack@;
        let f = Frame { node, start: pos };
        self.stack.push(f);
        proof {
            lemma_push_counts(s0, f);
            assert(self.stack@ == s0.push(f));
            assert(self.stack@.drop_last() =~= s0);
        }
    }

    /// Closes the innermost element (never the root) and hands what it built to the element
    /// around it.
    fn end_frame(&mut self, pos: usize)
        requires
            root_at_bottom(old(self).stack@),
        ensures
            keeps(*old(self), *final(self)),
            old(self).stack@.len() >= 2 ==> final(self).stack@.len() == old(self).stack@.len() - 1,
            old(self).stack@.len() >= 2 ==> closed_top(*old(self), *final(self), pos),
            old(self).stack@.len() < 2 ==> *final(self) == *old(self),
    {
        let ghost b0 = *self;
        if self.stack.len() < 2 {
            return ;
        }
        let ghost s0 = self.stack@;
        let frame = self.stack.pop().unwrap();
        proof {
            lemma_pop_counts(s0);
            assert(self.stack@ == s0.drop_last());
            assert(!(frame.node is Root));
        }
        let start = frame.start;
        match frame.node {
            Node::Root(_) => {},
            Node::Paragraph(content) => self.block(BlockKind::Paragraph(content), start..pos),
            Node::Heading { level, content } => self.block(
                BlockKind::Heading { level, content },
                start..pos,
            ),
            Node::CodeBlock { lang, code } => {
                let code = without_final_newline(code);
                let ghost c = code;
                self.block(BlockKind::CodeBlock { lang, code }, start..pos);
                assert(c@ == drop_final_newline(old(self).stack@.last().node->CodeBlock_code@));
            },
            Node::BlockQuote { alert, blocks } => self.block(
                BlockKind::BlockQuote { alert, blocks },
                start..pos,
            ),
            Node::List(list) => self.block(BlockKind::List(list), start..pos),
            Node::DefList(definitions) => self.block(
                BlockKind::DefinitionList(definitions),
                start..pos,
            ),
            Node::DefTitle(term) => self.change_top(TopChange::Term(term)),
            Node::DefDetail { blocks, pending } => {
                let ghost b0 = blocks@;
                let mut blocks = blocks;
                if pending.len() > 0 {
                    blocks.push(Block { kind: BlockKind::Paragraph(pending), span: start..pos });
                    assert(blocks@.drop_last() =~= b0);
                }
                let ghost bs = blocks;
                self.change_top(TopChange::Detail(blocks));
                assert(flushed(b0, old(self).stack@.last().node->DefDetail_pending@, bs@, start, pos));
            },
            Node::Meta { format, text } => {
                let text = without_final_newlines(text);
                self.front_matter = Some(FrontMatter { format, text });
            },
            Node::Item { task, blocks, pending } => {
                let ghost b0 = blocks@;
                let mut blocks = blocks;
                if pending.len() > 0 {
                    blocks.push(Block { kind: BlockKind::Paragraph(pending), span: start..pos });
                    assert(blocks@.drop_last() =~= b0);
                }
                let ghost bs = blocks;
                self.change_top(TopChange::Item(ListItem { task, blocks }));
                assert(flushed(b0, old(self).stack@.last().node->Item_pending@, bs@, start, pos));
            },
            Node::Footnote { label, blocks } => {
                self.footnotes.push(Footnote { label, blocks });
            },
            Node::Html(html) => {
                let html = without_final_newlines(html);
                let ghost h = html;
                self.block(BlockKind::Html(html), start..pos);
                assert(h@ == trim_newlines(old(self).stack@.last().node->Html_0@));
            },
            Node::Table(table) => self.block(BlockKind::Table(table), start..pos),
            Node::TableHead(cells) => self.change_top(TopChange::Header(cells)),
            Node::TableRow(cells) => self.change_top(TopChange::Row(cells)),
            Node::TableCell(content) => self.change_top(TopChange::Cell(content)),
            Node::Emphasis(content) => self.inline(Inline::Emphasis(content)),
            Node::Strong(content) => self.inline(Inline::Strong(content)),
            Node::Strikethrough(content) => self.inline(Inline::Strikethrough(content)),
            Node::Link { content, url, title } => self.inline(Inline::Link { content, url, title }),
            Node::WikiLink { target, content } => self.inline(Inline::WikiLink { target, content }),
            Node::Image { alt, url } => self.inline(Inline::Image { alt, url }),
            Node::Transparent => {},
        }
    }

    /// Takes one event in.
    pub fn event(&mut self, e: MdEvent, start: usize, end: usize)
        requires
            root_at_bottom(old(self).stack@),
        ensures
            stepped(*old(self), *final(self), e, start, end),
            root_at_bottom(final(self).stack@),
            footnotes_seen(*final(self)) == footnotes_seen(*old(self)) + if opens_footnote(e) {
                1nat
            } else {
                0nat
            },
            meta_seen(*final(self)) == (meta_seen(*old(self)) || opens_meta(e)),
    {
        match e {
            MdEvent::Start(tag) => self.start(tag, start),
            MdEvent::End => self.end_frame(end),
            MdEvent::Text(s) => {
                let ghost b0 = *self;
                self.text(s.as_str());
                proof {
                    if !gathers_raw(b0.stack@.last().node, true) {
                        let t = choose|t: String|
                            t@ == emojify_spec(s@) && placed_inline(
                                b0.stack@,
                                self.stack@,
                                Inline::Text(t),
                            );
                        assert(text_taken(b0, *self, s@));
                    }
                }
            },
            MdEvent::Code(s) => self.inline(Inline::Code(s)),
            MdEvent::InlineMath(s) => self.inline(Inline::Math { display: false, source: s }),
            MdEvent::DisplayMath(s) => self.inline(Inline::Math { display: true, source: s }),
            MdEvent::Html(s) => self.html(s.as_str()),
            MdEvent::InlineHtml(s) => self.inline(Inline::Html(s)),
            MdEvent::FootnoteReference(s) => self.inline(Inline::FootnoteRef(s)),
            MdEvent::SoftBreak => self.inline(Inline::SoftBreak),
            MdEvent::HardBreak => self.inline(Inline::HardBreak),
            MdEvent::Rule => self.block(BlockKind::Rule, start..end),
            MdEvent::TaskListMarker(checked) => self.task(checked),
        }
    }

    /// Closes every open element and hands back the document.
    pub fn finish(self) -> (doc: Document)
        requires
            root_at_bottom(self.stack@),
        ensures
            finished(self, doc),
            doc.footnotes@.len() == footnotes_seen(self),
            (doc.front_matter is Some) == meta_seen(self),
    {
        let mut b = self;
        let ghost b0 = b;
        while b.stack.len() > 1
            invariant
                root_at_bottom(b.stack@),
                footnotes_seen(b) == footnotes_seen(b0),
                meta_seen(b) == meta_seen(b0),
                forall|x: Builder| closes_to(b, x) ==> closes_to(b0, x),
            decreases b.stack@.len(),
        {
            let ghost prev = b;
            b.end_frame(usize::MAX);
            proof {
                assert forall|x: Builder| closes_to(b, x) implies closes_to(b0, x) by {
                    assert(closed_top(prev, b, usize::MAX));
                    assert(closes_to(prev, x));
                }
            }
        }
        proof {
            assert(closes_to(b, b));
        }
        let ghost bf = b;
        let ghost s0 = b.stack@;
        proof {
            lemma_pop_counts(s0);
            assert(s0.drop_last() =~= Seq::<Frame>::empty());
        }
        let root = b.stack.pop().unwrap();
        let blocks = match root.node {
            Node::Root(blocks) => blocks,
            _ => Vec::new(),
        };
        let doc = Document { front_matter: b.front_matter, blocks, footnotes: b.footnotes };
        assert(closes_to(b0, bf) && root_document(bf, doc));
        doc
    }
}

/// Builds the document the events describe, each with the span of text it came from.
pub fn build(events: Vec<(MdEvent, usize, usize)>) -> (doc: Document)
    ensures
        built_from(events@, doc),
        doc.footnotes@.len() == footnote_defs(events@),
        (doc.front_matter is Some) == has_meta(events@),
{
    let ghost evs = events@;
    let total = events.len();
    let mut b = Builder::new();
    let ghost b_init = b;
    let mut rest = events;
    let mut reversed: Vec<(MdEvent, usize, usize)> = Vec::new();
    while rest.len() > 0
        invariant
            rest@ + reversed@.reverse() == evs,
        decreases rest.len(),
    {
        let e = rest.pop().unwrap();
        let ghost before = reversed@;
        reversed.push(e);
        assert(reversed@.reverse() =~= seq![e] + before.reverse());
    }
    assert(reversed@.reverse() =~= evs);
    let mut done: usize = 0;
    assert(evs.take(0) =~= Seq::<(MdEvent, usize, usize)>::empty());
    while reversed.len() > 0
        invariant
            root_at_bottom(b.stack@),
            done + reversed@.len() == evs.len(),
            evs.len() == total,
            reversed@.reverse() == evs.skip(done as int),
            footnotes_seen(b) == footnote_defs(evs.take(done as int)),
            meta_seen(b) == has_meta(evs.take(done as int)),
            fresh(b_init),
            ran(b_init, evs.take(done as int), b),
        decreases reversed.len(),
    {
        let ghost r0 = reversed@;
        let (e, start, end) = reversed.pop().unwrap();
        let ghost item = (e, start, end);
        assert(r0 == reversed@.push(item));
        assert(r0.reverse() =~= seq![item] + reversed@.reverse());
        assert(evs[done as int] == item) by {
            assert(evs.skip(done as int)[0] == evs[done as int]);
        }
        assert(evs.take(done + 1).drop_last() =~= evs.take(done as int));
        assert((seq![item] + reversed@.reverse()).drop_first() =~= reversed@.reverse());
        assert(evs.skip(done + 1) =~= evs.skip(done as int).drop_first());
        proof {
            let t = evs.take(done + 1);
            assert(t.last() == item);
            if has_meta(t) {
                let i = choose|i: int| 0 <= i < t.len() && opens_meta(#[trigger] t[i].0);
                if i < done {
                    assert(evs.take(done as int)[i] == t[i]);
                }
            }
            if has_meta(evs.take(done as int)) {
                let i = choose|i: int|
                    0 <= i < evs.take(done as int).len() && opens_meta(
                        #[trigger] evs.take(done as int)[i].0,
                    );
                assert(t[i] == evs.take(done as int)[i]);
            }
            if opens_meta(e) {
                assert(opens_meta(t[done as int].0));
            }
        }
        let ghost prev = b;
        b.event(e, start, end);
        proof {
            let t = evs.take(done + 1);
            assert(t.drop_last() =~= evs.take(done as int));
            assert(stepped(prev, b, t.last().0, t.last().1, t.last().2));
            assert(ran(b_init, t, b));
        }
        done = done + 1;
    }
    assert(evs.take(done as int) =~= evs);
    let ghost bf = b;
    let doc = b.finish();
    assert(fresh(b_init) && ran(b_init, evs, bf) && finished(bf, doc));
    assert(built_from(evs, doc));
    doc
}

// ---------------------------------------------------------------------------------------------
// Reading pulldown-cmark's events
// ---------------------------------------------------------------------------------------------
/// A tag as plain values: texts as characters.
pub enum TagView {
    Paragraph,
    Heading(u8),
    BlockQuote(Option<QuoteKind>),
    CodeBlock(Option<Seq<char>>),
    HtmlBlock,
    List(Option<u64>),
    Item,
    FootnoteDefinition(Seq<char>),
    DefinitionList,
    DefinitionListTitle,
    DefinitionListDefinition,
    Table(Seq<ColumnAlign>),
    TableHead,
    TableRow,
    TableCell,
    Emphasis,
    Strong,
    Strikethrough,
    Superscript,
    Subscript,
    Link { wiki: bool, url: Seq<char>, title: Seq<char> },
    Image(Seq<char>),
    MetadataBlock(MetaFormat),
}

/// An event as plain values: texts as characters.
pub enum EventView {
    Start(TagView),
    End,
    Text(Seq<char>),
    Code(Seq<char>),
    InlineMath(Seq<char>),
    DisplayMath(Seq<char>),
    Html(Seq<char>),
    InlineHtml(Seq<char>),
    FootnoteReference(Seq<char>),
    SoftBreak,
    HardBreak,
    Rule,
    TaskListMarker(bool),
}

pub open spec fn tag_view(t: MdTag) -> TagView {
    match t {
        MdTag::Paragraph => TagView::Paragraph,
        MdTag::Heading(l) => TagView::Heading(l),
        MdTag::BlockQuote(k) => TagView::BlockQuote(k),
        MdTag::CodeBlock(info) => TagView::CodeBlock(opt_text(info)),
        MdTag::HtmlBlock => TagView::HtmlBlock,
        MdTag::List(s) => TagView::List(s),
        MdTag::Item => TagView::Item,
        MdTag::FootnoteDefinition(l) => TagView::FootnoteDefinition(l@),
        MdTag::DefinitionList => TagView::DefinitionList,
        MdTag::DefinitionListTitle => TagView::DefinitionListTitle,
        MdTag::DefinitionListDefinition => TagView::DefinitionListDefinition,
        MdTag::Table(a) => TagView::Table(a@),
        MdTag::TableHead => TagView::TableHead,
        MdTag::TableRow => TagView::TableRow,
        MdTag::TableCell => TagView::TableCell,
        MdTag::Emphasis => TagView::Emphasis,
        MdTag::Strong => TagView::Strong,
        MdTag::Strikethrough => TagView::Strikethrough,
        MdTag::Superscript => TagView::Superscript,
        MdTag::Subscript => TagView::Subscript,
        MdTag::Link { wiki, url, title } => TagView::Link { wiki, url: url@, title: title@ },
        MdTag::Image(u) => TagView::Image(u@),
        MdTag::MetadataBlock(f) => TagView::MetadataBlock(f),
    }
}

pub open spec fn event_view(e: MdEvent) -> EventView {
    match e {
        MdEvent::Start(t) => EventView::Start(tag_view(t)),
        MdEvent::End => EventView::End,
        MdEvent::Text(s) => EventView::Text(s@),
        MdEvent::Code(s) => EventView::Code(s@),
        MdEvent::InlineMath(s) => EventView::InlineMath(s@),
        MdEvent::DisplayMath(s) => EventView::DisplayMath(s@),
        MdEvent::Html(s) => EventView::Html(s@),
        MdEvent::InlineHtml(s) => EventView::InlineHtml(s@),
        MdEvent::FootnoteReference(s) => EventView::FootnoteReference(s@),
        MdEvent::SoftBreak => EventView::SoftBreak,
        MdEvent::HardBreak => EventView::HardBreak,
        MdEvent::Rule => EventView::Rule,
        MdEvent::TaskListMarker(c) => EventView::TaskListMarker(c),
    }
}

/// Events with the byte ranges they cover, as plain values.
pub open spec fn events_view(evs: Seq<(MdEvent, usize, usize)>) -> Seq<(EventView, usize, usize)> {
    evs.map_values(|e: (MdEvent, usize, usize)| (event_view(e.0), e.1, e.2))
}

/// The events pulldown-cmark gives for `text` (with the options `cmark_events` sets), each
/// with the byte range it covers, as plain values.
pub uninterp spec fn cmark_plain(text: Seq<char>) -> Seq<(EventView, usize, usize)>;

#[verifier::external_type_specification]
#[verifier::external_body]
pub struct ExCmarkEvent<'a>(Event<'a>);

/// `pulldown_cmark::Parser::new_ext` over `text`, with tables, footnotes, strikethrough, task
/// lists, smart punctuation, heading attributes, YAML and TOML front matter, math, GFM alerts,
/// definition lists and wiki links, as events with the byte range each covers. Which events
/// these are is named (`cmark_plain`): each event, read as plain values (see `read_event`),
/// with its range.
#[verifier::external_body]
fn cmark_events<'a>(text: &'a str) -> (r: Vec<(Event<'a>, Range<usize>)>)
    ensures
        r@.len() == cmark_plain(text@).len(),
        forall|i: int|
            0 <= i < r@.len() ==> (read_event(&(#[trigger] r@[i]).0), r@[i].1.start, r@[i].1.end)
                == cmark_plain(text@)[i],
{
    let options = Options::ENABLE_TABLES | Options::ENABLE_FOOTNOTES
        | Options::ENABLE_STRIKETHROUGH | Options::ENABLE_TASKLISTS
        | Options::ENABLE_SMART_PUNCTUATION | Options::ENABLE_HEADING_ATTRIBUTES
        | Options::ENABLE_YAML_STYLE_METADATA_BLOCKS
        | Options::ENABLE_PLUSES_DELIMITED_METADATA_BLOCKS | Options::ENABLE_MATH
        | Options::ENABLE_GFM | Options::ENABLE_DEFINITION_LIST | Options::ENABLE_WIKILINKS;
    Parser::new_ext(text, options).into_offset_iter().collect()
}

/// Which of pulldown-cmark's events an event is.
pub enum EventKind {
    Start,
    End,
    Text,
    Code,
    InlineMath,
    DisplayMath,
    Html,
    InlineHtml,
    FootnoteReference,
    SoftBreak,
    HardBreak,
    Rule,
    TaskListMarker(bool),
}

/// The variant of a pulldown-cmark event.
pub uninterp spec fn cmark_kind(e: &Event<'_>) -> EventKind;

/// The variant of a `pulldown_cmark::Event`, with a task marker's state.
#[verifier::external_body]
fn event_kind(e: &Event<'_>) -> (r: EventKind)
    ensures
        r == cmark_kind(e),
{
    match e {
        Event::Start(_) => EventKind::Start,
        Event::End(_) => EventKind::End,
        Event::Text(_) => EventKind::Text,
        Event::Code(_) => EventKind::Code,
        Event::InlineMath(_) => EventKind::InlineMath,
        Event::DisplayMath(_) => EventKind::DisplayMath,
        Event::Html(_) => EventKind::Html,
        Event::InlineHtml(_) => EventKind::InlineHtml,
        Event::FootnoteReference(_) => EventKind::FootnoteReference,
        Event::SoftBreak => EventKind::SoftBreak,
        Event::HardBreak => EventKind::HardBreak,
        Event::Rule => EventKind::Rule,
        Event::TaskListMarker(c) => EventKind::TaskListMarker(*c),
    }
}

/// The text a pulldown-cmark event carries (none for events without text).
pub uninterp spec fn cmark_text(e: &Event<'_>) -> Seq<char>;

/// The text a `pulldown_cmark::Event` carries, or nothing.
#[verifier::external_body]
fn event_text(e: &Event<'_>) -> (r: String)
    ensures
        r@ == cmark_text(e),
{
    match e {
        Event::Text(s) => s.to_string(),
        Event::Code(s) => s.to_string(),
        Event::InlineMath(s) => s.to_string(),
        Event::DisplayMath(s) => s.to_string(),
        Event::Html(s) => s.to_string(),
        Event::InlineHtml(s) => s.to_string(),
        Event::FootnoteReference(s) => s.to_string(),
        _ => String::new(),
    }
}

/// Which tag a start event opens, with its number fields.
pub enum TagKind {
    Paragraph,
    Heading(u8),
    BlockQuote,
    CodeBlock,
    HtmlBlock,
    List(Option<u64>),
    Item,
    FootnoteDefinition,
    DefinitionList,
    DefinitionListTitle,
    DefinitionListDefinition,
    Table,
    TableHead,
    TableRow,
    TableCell,
    MetadataBlock,
    Emphasis,
    Strong,
    Strikethrough,
    Superscript,
    Subscript,
    Link,
    Image,
}

/// The block tag a pulldown-cmark start event opens.
pub uninterp spec fn cmark_block_tag(e: &Event<'_>) -> Option<TagKind>;

/// The block tag a `pulldown_cmark::Event::Start` opens, for paragraphs, headings, quotes,
/// code, HTML, lists, items and footnotes.
#[verifier::external_body]
fn block_tag(e: &Event<'_>) -> (r: Option<TagKind>)
    ensures
        r == cmark_block_tag(e),
{
    match e {
        Event::Start(Tag::Paragraph) => Some(TagKind::Paragraph),
        Event::Start(Tag::Heading { level, .. }) => Some(TagKind::Heading(*level as u8)),
        Event::Start(Tag::BlockQuote(_)) => Some(TagKind::BlockQuote),
        Event::Start(Tag::CodeBlock(_)) => Some(TagKind::CodeBlock),
        Event::Start(Tag::HtmlBlock) => Some(TagKind::HtmlBlock),
        Event::Start(Tag::List(start)) => Some(TagKind::List(*start)),
        Event::Start(Tag::Item) => Some(TagKind::Item),
        Event::Start(Tag::FootnoteDefinition(_)) => Some(TagKind::FootnoteDefinition),
        _ => None,
    }
}

/// The definition list, table or front matter tag a pulldown-cmark start event opens.
pub uninterp spec fn cmark_table_tag(e: &Event<'_>) -> Option<TagKind>;

/// The tag a `pulldown_cmark::Event::Start` opens, for definition lists, tables and front
/// matter.
#[verifier::external_body]
fn table_tag(e: &Event<'_>) -> (r: Option<TagKind>)
    ensures
        r == cmark_table_tag(e),
{
    match e {
        Event::Start(Tag::DefinitionList) => Some(TagKind::DefinitionList),
        Event::Start(Tag::DefinitionListTitle) => Some(TagKind::DefinitionListTitle),
        Event::Start(Tag::DefinitionListDefinition) => Some(TagKind::DefinitionListDefinition),
        Event::Start(Tag::Table(_)) => Some(TagKind::Table),
        Event::Start(Tag::TableHead) => Some(TagKind::TableHead),
        Event::Start(Tag::TableRow) => Some(TagKind::TableRow),
        Event::Start(Tag::TableCell) => Some(TagKind::TableCell),
        Event::Start(Tag::MetadataBlock(_)) => Some(TagKind::MetadataBlock),
        _ => None,
    }
}

/// The inline tag a pulldown-cmark start event opens.
pub uninterp spec fn cmark_span_tag(e: &Event<'_>) -> Option<TagKind>;

/// The inline tag a `pulldown_cmark::Event::Start` opens.
#[verifier::external_body]
fn span_tag(e: &Event<'_>) -> (r: Option<TagKind>)
    ensures
        r == cmark_span_tag(e),
{
    match e {
        Event::Start(Tag::Emphasis) => Some(TagKind::Emphasis),
        Event::Start(Tag::Strong) => Some(TagKind::Strong),
        Event::Start(Tag::Strikethrough) => Some(TagKind::Strikethrough),
        Event::Start(Tag::Superscript) => Some(TagKind::Superscript),
        Event::Start(Tag::Subscript) => Some(TagKind::Subscript),
        Event::Start(Tag::Link { .. }) => Some(TagKind::Link),
        Event::Start(Tag::Image { .. }) => Some(TagKind::Image),
        _ => None,
    }
}

/// The label of a pulldown-cmark footnote definition start.
pub uninterp spec fn cmark_label(e: &Event<'_>) -> Seq<char>;

/// The label of a `pulldown_cmark` footnote definition start, or nothing.
#[verifier::external_body]
fn footnote_label_of(e: &Event<'_>) -> (r: String)
    ensures
        r@ == cmark_label(e),
{
    match e {
        Event::Start(Tag::FootnoteDefinition(l)) => l.to_string(),
        _ => String::new(),
    }
}

/// The destination of a pulldown-cmark link or image start.
pub uninterp spec fn cmark_dest(e: &Event<'_>) -> Seq<char>;

/// The destination of a `pulldown_cmark` link or image start, or nothing.
#[verifier::external_body]
fn link_dest(e: &Event<'_>) -> (r: String)
    ensures
        r@ == cmark_dest(e),
{
    match e {
        Event::Start(Tag::Link { dest_url, .. }) => dest_url.to_string(),
        Event::Start(Tag::Image { dest_url, .. }) => dest_url.to_string(),
        _ => String::new(),
    }
}

/// The title of a pulldown-cmark link start.
pub uninterp spec fn cmark_title(e: &Event<'_>) -> Seq<char>;

/// The title of a `pulldown_cmark` link start, or nothing.
#[verifier::external_body]
fn link_title(e: &Event<'_>) -> (r: String)
    ensures
        r@ == cmark_title(e),
{
    match e {
        Event::Start(Tag::Link { title, .. }) => title.to_string(),
        _ => String::new(),
    }
}

/// The alert kind of a pulldown-cmark block quote start.
pub uninterp spec fn cmark_quote(e: &Event<'_>) -> Option<QuoteKind>;

/// The alert kind of a `pulldown_cmark` block quote start.
#[verifier::external_body]
fn quote_kind(e: &Event<'_>) -> (r: Option<QuoteKind>)
    ensures
        r == cmark_quote(e),
{
    match e {
        Event::Start(Tag::BlockQuote(Some(BlockQuoteKind::Note))) => Some(QuoteKind::Note),
        Event::Start(Tag::BlockQuote(Some(BlockQuoteKind::Tip))) => Some(QuoteKind::Tip),
        Event::Start(Tag::BlockQuote(Some(BlockQuoteKind::Important))) => Some(QuoteKind::Important),
        Event::Start(Tag::BlockQuote(Some(BlockQuoteKind::Warning))) => Some(QuoteKind::Warning),
        Event::Start(Tag::BlockQuote(Some(BlockQuoteKind::Caution))) => Some(QuoteKind::Caution),
        _ => None,
    }
}

/// The info string of a pulldown-cmark fenced code block start.
pub uninterp spec fn cmark_fence(e: &Event<'_>) -> Option<Seq<char>>;

/// The info string of a `pulldown_cmark` fenced code block start.
#[verifier::external_body]
fn fence_info(e: &Event<'_>) -> (r: Option<String>)
    ensures
        match r {
            Some(i) => cmark_fence(e) == Some(i@),
            None => cmark_fence(e) is None,
        },
{
    match e {
        Event::Start(Tag::CodeBlock(CodeBlockKind::Fenced(info))) => Some(info.to_string()),
        _ => None,
    }
}

/// Whether a pulldown-cmark link start is a wiki link.
pub uninterp spec fn cmark_wiki(e: &Event<'_>) -> bool;

/// Whether a `pulldown_cmark` link start is a wiki link.
#[verifier::external_body]
fn is_wiki_link(e: &Event<'_>) -> (r: bool)
    ensures
        r == cmark_wiki(e),
{
    match e {
        Event::Start(Tag::Link { link_type: LinkType::WikiLink { .. }, .. }) => true,
        _ => false,
    }
}

/// The kind of a pulldown-cmark metadata block start.
pub uninterp spec fn cmark_meta(e: &Event<'_>) -> Option<MetaFormat>;

/// The kind of a `pulldown_cmark` metadata block start.
#[verifier::external_body]
fn meta_format(e: &Event<'_>) -> (r: Option<MetaFormat>)
    ensures
        r == cmark_meta(e),
{
    match e {
        Event::Start(Tag::MetadataBlock(MetadataBlockKind::YamlStyle)) => Some(MetaFormat::Yaml),
        Event::Start(Tag::MetadataBlock(MetadataBlockKind::PlusesStyle)) => Some(MetaFormat::Toml),
        _ => None,
    }
}

/// The number of columns of a pulldown-cmark table start.
pub uninterp spec fn cmark_columns(e: &Event<'_>) -> usize;

/// The number of columns of a `pulldown_cmark` table start.
#[verifier::external_body]
fn column_count(e: &Event<'_>) -> (r: usize)
    ensures
        r == cmark_columns(e),
{
    match e {
        Event::Start(Tag::Table(aligns)) => aligns.len(),
        _ => 0,
    }
}

/// The alignment of column `i` of a pulldown-cmark table start.
pub uninterp spec fn cmark_align(e: &Event<'_>, i: usize) -> Option<ColumnAlign>;

/// The alignment of column `i` of a `pulldown_cmark` table start.
#[verifier::external_body]
fn column_align(e: &Event<'_>, i: usize) -> (r: Option<ColumnAlign>)
    ensures
        r == cmark_align(e, i),
{
    match e {
        Event::Start(Tag::Table(aligns)) => match aligns.get(i) {
            Some(pulldown_cmark::Alignment::None) => Some(ColumnAlign::Unaligned),
            Some(pulldown_cmark::Alignment::Left) => Some(ColumnAlign::Left),
            Some(pulldown_cmark::Alignment::Center) => Some(ColumnAlign::Center),
            Some(pulldown_cmark::Alignment::Right) => Some(ColumnAlign::Right),
            None => None,
        },
        _ => None,
    }
}

/// Which tag a pulldown-cmark start event opens: a block tag, else a definition list, table
/// or front matter tag, else an inline tag (a tag of none of these reads as a subscript, which
/// is transparent).
pub open spec fn cmark_tag_kind(e: &Event<'_>) -> TagKind {
    match cmark_block_tag(e) {
        Some(k) => k,
        None => match cmark_table_tag(e) {
            Some(k) => k,
            None => match cmark_span_tag(e) {
                Some(k) => k,
                None => TagKind::Subscript,
            },
        },
    }
}

/// The alignments of a table start's columns, unaligned where pulldown-cmark gives none.
pub open spec fn cmark_aligns(e: &Event<'_>) -> Seq<ColumnAlign> {
    Seq::new(
        cmark_columns(e) as nat,
        |i: int| match cmark_align(e, i as usize) {
            Some(a) => a,
            None => ColumnAlign::Unaligned,
        },
    )
}

/// `t` is the tag that the start event `e` opens, as plain values.
pub open spec fn tag_read(e: &Event<'_>, t: MdTag) -> bool {
    match cmark_tag_kind(e) {
        TagKind::Paragraph => t == MdTag::Paragraph,
        TagKind::Heading(level) => t == MdTag::Heading(level),
        TagKind::BlockQuote => t == MdTag::BlockQuote(cmark_quote(e)),
        TagKind::CodeBlock => (t matches MdTag::CodeBlock(info) && opt_text(info) == cmark_fence(e)),
        TagKind::HtmlBlock => t == MdTag::HtmlBlock,
        TagKind::List(start) => t == MdTag::List(start),
        TagKind::Item => t == MdTag::Item,
        TagKind::FootnoteDefinition => (t matches MdTag::FootnoteDefinition(l) && l@ == cmark_label(e)),
        TagKind::DefinitionList => t == MdTag::DefinitionList,
        TagKind::DefinitionListTitle => t == MdTag::DefinitionListTitle,
        TagKind::DefinitionListDefinition => t == MdTag::DefinitionListDefinition,
        TagKind::Table => (t matches MdTag::Table(a) && a@ == cmark_aligns(e)),
        TagKind::TableHead => t == MdTag::TableHead,
        TagKind::TableRow => t == MdTag::TableRow,
        TagKind::TableCell => t == MdTag::TableCell,
        TagKind::MetadataBlock => t == MdTag::MetadataBlock(
            match cmark_meta(e) {
                Some(f) => f,
                None => MetaFormat::Yaml,
            },
        ),
        TagKind::Emphasis => t == MdTag::Emphasis,
        TagKind::Strong => t == MdTag::Strong,
        TagKind::Strikethrough => t == MdTag::Strikethrough,
        TagKind::Superscript => t == MdTag::Superscript,
        TagKind::Subscript => t == MdTag::Subscript,
        TagKind::Link => (t matches MdTag::Link { wiki, url, title } && wiki == cmark_wiki(e)
            && url@ == cmark_dest(e) && title@ == cmark_title(e)),
        TagKind::Image => (t matches MdTag::Image(url) && url@ == cmark_dest(e)),
    }
}

/// The tag a start event opens, as plain values.
fn tag_of(e: &Event<'_>) -> (r: MdTag)
    ensures
        tag_read(e, r),
        tag_view(r) == read_tag(e),
{
    let kind = match block_tag(e) {
        Some(k) => k,
        None => match table_tag(e) {
            Some(k) => k,
            None => match span_tag(e) {
                Some(k) => k,
                None => TagKind::Subscript,
            },
        },
    };
    match kind {
        TagKind::Paragraph => MdTag::Paragraph,
        TagKind::Heading(level) => MdTag::Heading(level),
        TagKind::BlockQuote => MdTag::BlockQuote(quote_kind(e)),
        TagKind::CodeBlock => MdTag::CodeBlock(fence_info(e)),
        TagKind::HtmlBlock => MdTag::HtmlBlock,
        TagKind::List(start) => MdTag::List(start),
        TagKind::Item => MdTag::Item,
        TagKind::FootnoteDefinition => MdTag::FootnoteDefinition(footnote_label_of(e)),
        TagKind::DefinitionList => MdTag::DefinitionList,
        TagKind::DefinitionListTitle => MdTag::DefinitionListTitle,
        TagKind::DefinitionListDefinition => MdTag::DefinitionListDefinition,
        TagKind::Table => {
            let n = column_count(e);
            let mut aligns: Vec<ColumnAlign> = Vec::new();
            let mut i: usize = 0;
            while i < n
                invariant
                    i <= n,
                    n == cmark_columns(e),
                    aligns@ == cmark_aligns(e).take(i as int),
                decreases n - i,
            {
                match column_align(e, i) {
                    Some(a) => aligns.push(a),
                    None => aligns.push(ColumnAlign::Unaligned),
                }
                i = i + 1;
                assert(aligns@ =~= cmark_aligns(e).take(i as int));
            }
            assert(cmark_aligns(e).take(n as int) =~= cmark_aligns(e));
            MdTag::Table(aligns)
        },
        TagKind::TableHead => MdTag::TableHead,
        TagKind::TableRow => MdTag::TableRow,
        TagKind::TableCell => MdTag::TableCell,
        TagKind::MetadataBlock => MdTag::MetadataBlock(
            match meta_format(e) {
                Some(f) => f,
                None => MetaFormat::Yaml,
            },
        ),
        TagKind::Emphasis => MdTag::Emphasis,
        TagKind::Strong => MdTag::Strong,
        TagKind::Strikethrough => MdTag::Strikethrough,
        TagKind::Superscript => MdTag::Superscript,
        TagKind::Subscript => MdTag::Subscript,
        TagKind::Link => MdTag::Link { wiki: is_wiki_link(e), url: link_dest(e), title: link_title(e) },
        TagKind::Image => MdTag::Image(link_dest(e)),
    }
}

/// `r` is the pulldown-cmark event `e` as plain values.
pub open spec fn event_read(e: &Event<'_>, r: MdEvent) -> bool {
    match cmark_kind(e) {
        EventKind::Start => (r matches MdEvent::Start(t) && tag_read(e, t)),
        EventKind::End => r == MdEvent::End,
        EventKind::Text => (r matches MdEvent::Text(s) && s@ == cmark_text(e)),
        EventKind::Code => (r matches MdEvent::Code(s) && s@ == cmark_text(e)),
        EventKind::InlineMath => (r matches MdEvent::InlineMath(s) && s@ == cmark_text(e)),
        EventKind::DisplayMath => (r matches MdEvent::DisplayMath(s) && s@ == cmark_text(e)),
        EventKind::Html => (r matches MdEvent::Html(s) && s@ == cmark_text(e)),
        EventKind::InlineHtml => (r matches MdEvent::InlineHtml(s) && s@ == cmark_text(e)),
        EventKind::FootnoteReference => (r matches MdEvent::FootnoteReference(s) && s@
            == cmark_text(e)),
        EventKind::SoftBreak => r == MdEvent::SoftBreak,
        EventKind::HardBreak => r == MdEvent::HardBreak,
        EventKind::Rule => r == MdEvent::Rule,
        EventKind::TaskListMarker(c) => r == MdEvent::TaskListMarker(c),
    }
}

/// The tag a pulldown-cmark start event opens, as plain values.
pub open spec fn read_tag(e: &Event<'_>) -> TagView {
    match cmark_tag_kind(e) {
        TagKind::Paragraph => TagView::Paragraph,
        TagKind::Heading(level) => TagView::Heading(level),
        TagKind::BlockQuote => TagView::BlockQuote(cmark_quote(e)),
        TagKind::CodeBlock => TagView::CodeBlock(cmark_fence(e)),
        TagKind::HtmlBlock => TagView::HtmlBlock,
        TagKind::List(start) => TagView::List(start),
        TagKind::Item => TagView::Item,
        TagKind::FootnoteDefinition => TagView::FootnoteDefinition(cmark_label(e)),
        TagKind::DefinitionList => TagView::DefinitionList,
        TagKind::DefinitionListTitle => TagView::DefinitionListTitle,
        TagKind::DefinitionListDefinition => TagView::DefinitionListDefinition,
        TagKind::Table => TagView::Table(cmark_aligns(e)),
        TagKind::TableHead => TagView::TableHead,
        TagKind::TableRow => TagView::TableRow,
        TagKind::TableCell => TagView::TableCell,
        TagKind::MetadataBlock => TagView::MetadataBlock(
            match cmark_meta(e) {
                Some(f) => f,
                None => MetaFormat::Yaml,
            },
        ),
        TagKind::Emphasis => TagView::Emphasis,
        TagKind::Strong => TagView::Strong,
        TagKind::Strikethrough => TagView::Strikethrough,
        TagKind::Superscript => TagView::Superscript,
        TagKind::Subscript => TagView::Subscript,
        TagKind::Link => TagView::Link { wiki: cmark_wiki(e), url: cmark_dest(e), title: cmark_title(e) },
        TagKind::Image => TagView::Image(cmark_dest(e)),
    }
}

/// A pulldown-cmark event as plain values.
pub open spec fn read_event(e: &Event<'_>) -> EventView {
    match cmark_kind(e) {
        EventKind::Start => EventView::Start(read_tag(e)),
        EventKind::End => EventView::End,
        EventKind::Text => EventView::Text(cmark_text(e)),
        EventKind::Code => EventView::Code(cmark_text(e)),
        EventKind::InlineMath => EventView::InlineMath(cmark_text(e)),
        EventKind::DisplayMath => EventView::DisplayMath(cmark_text(e)),
        EventKind::Html => EventView::Html(cmark_text(e)),
        EventKind::InlineHtml => EventView::InlineHtml(cmark_text(e)),
        EventKind::FootnoteReference => EventView::FootnoteReference(cmark_text(e)),
        EventKind::SoftBreak => EventView::SoftBreak,
        EventKind::HardBreak => EventView::HardBreak,
        EventKind::Rule => EventView::Rule,
        EventKind::TaskListMarker(c) => EventView::TaskListMarker(c),
    }
}

/// A pulldown-cmark event as plain values.
fn event_of(e: &Event<'_>) -> (r: MdEvent)
    ensures
        event_read(e, r),
        event_view(r) == read_event(e),
{
    match event_kind(e) {
        EventKind::Start => MdEvent::Start(tag_of(e)),
        EventKind::End => MdEvent::End,
        EventKind::Text => MdEvent::Text(event_text(e)),
        EventKind::Code => MdEvent::Code(event_text(e)),
        EventKind::InlineMath => MdEvent::InlineMath(event_text(e)),
        EventKind::DisplayMath => MdEvent::DisplayMath(event_text(e)),
        EventKind::Html => MdEvent::Html(event_text(e)),
        EventKind::InlineHtml => MdEvent::InlineHtml(event_text(e)),
        EventKind::FootnoteReference => MdEvent::FootnoteReference(event_text(e)),
        EventKind::SoftBreak => MdEvent::SoftBreak,
        EventKind::HardBreak => MdEvent::HardBreak,
        EventKind::Rule => MdEvent::Rule,
        EventKind::TaskListMarker(c) => MdEvent::TaskListMarker(c),
    }
}

/// Parses Markdown into a document: blocks with the byte spans they came from, footnotes
/// apart, and front matter aside. The document is what `build` makes of pulldown-cmark's
/// events for the text; which events those are is pulldown-cmark's.
pub fn parse(text: &str) -> (doc: Document)
    ensures
        exists|events: Seq<(MdEvent, usize, usize)>|
            #[trigger] built_from(events, doc) && events_view(events) == cmark_plain(text@),
{
    let raw = cmark_events(text);
    let mut events: Vec<(MdEvent, usize, usize)> = Vec::new();
    let mut i: usize = 0;
    while i < raw.len()
        invariant
            i <= raw.len(),
            raw@.len() == cmark_plain(text@).len(),
            forall|j: int|
                0 <= j < raw@.len() ==> (read_event(&(#[trigger] raw@[j]).0), raw@[j].1.start, raw@[j].1.end)
                    == cmark_plain(text@)[j],
            events_view(events@) == cmark_plain(text@).take(i as int),
        decreases raw.len() - i,
    {
        let pair = &raw[i];
        let e = event_of(&pair.0);
        let ghost before = events@;
        events.push((e, pair.1.start, pair.1.end));
        assert(events_view(events@) =~= events_view(before).push((event_view(e), pair.1.start, pair.1.end)));
        assert(cmark_plain(text@).take(i + 1) =~= cmark_plain(text@).take(i as int).push(cmark_plain(text@)[i as int]));
        i = i + 1;
    }
    assert(cmark_plain(text@).take(raw@.len() as int) =~= cmark_plain(text@));
    let ghost evs = events@;
    let doc = build(events);
    assert(built_from(evs, doc));
    doc
}

} // verus!
