//! Inline content turned into the pieces the wrapper lays out: emphasis, strong and
//! strikethrough as attributes, code and math kept whole, links with their address and
//! target, images as a marker with their alt text and address, badges as chips, and
//! footnote references as superscript labels that lead to the note.
use vstd::prelude::*;

use crate::markdown::document::{plain_seq, plain_text, Inline};
use crate::render::badge::{badge_url, from_url, from_url_spec, is_badge, BadgeText, BadgeView, Rgb};
use crate::render::layout::{clip, clipped, footnote_label, footnote_label_spec, sole_image, sole_image_spec};
use crate::render::styles::{fg_bg_style, fg_style};
use crate::render::theme::{ColorMode, Theme};
use crate::render::wrap::{patch_spec, LinkKind, Piece, Style, BOLD, CROSSED_OUT, ITALIC, UNDERLINED};
use crate::text::{chars_eq, chars_of, extend, replace_all, replace_lit, string_of, trim, trimmed};

verus! {

/// Where a piece of text leads: an address, a wiki page or a footnote.
#[derive(Debug, Clone, PartialEq, Eq)]
pub struct LinkRef {
    pub url: String,
    pub kind: LinkKind,
}

/// A piece to wrap, with the link it belongs to and, for a badge chip, the color its
/// background takes (the drawing picks a readable text color for it).
#[derive(Debug, Clone)]
pub struct InlinePiece {
    pub piece: Piece,
    pub link: Option<LinkRef>,
    pub tint: Option<Rgb>,
}

/// A piece as plain values: its text, style, whether it is kept whole, whether it is a line
/// break, its link and its tint.
pub struct PieceView {
    pub text: Seq<char>,
    pub style: Style,
    pub atomic: bool,
    pub brk: bool,
    pub link: Option<(Seq<char>, LinkKind)>,
    pub tint: Option<Rgb>,
}

pub open spec fn link_view(l: Option<LinkRef>) -> Option<(Seq<char>, LinkKind)> {
    match l {
        Some(r) => Some((r.url@, r.kind)),
        None => None,
    }
}

pub open spec fn piece_view(p: InlinePiece) -> PieceView {
    match p.piece {
        Piece::Text { text, style, atomic } => PieceView {
            text: text@,
            style,
            atomic,
            brk: false,
            link: link_view(p.link),
            tint: p.tint,
        },
        Piece::Break => PieceView {
            text: seq![],
            style: Style { fg: None, bg: None, modifiers: 0 },
            atomic: false,
            brk: true,
            link: link_view(p.link),
            tint: p.tint,
        },
    }
}

pub open spec fn pieces_view(v: Seq<InlinePiece>) -> Seq<PieceView> {
    v.map_values(|p: InlinePiece| piece_view(p))
}

/// Text that may break at its spaces, or that is kept whole.
pub open spec fn text_piece(text: Seq<char>, style: Style, atomic: bool, link: Option<(Seq<char>, LinkKind)>) -> PieceView {
    PieceView { text, style, atomic, brk: false, link, tint: None }
}

/// Tabs as four spaces.
pub open spec fn expand_tabs(s: Seq<char>) -> Seq<char> {
    replace_all(s, seq!['\t'], seq![' ', ' ', ' ', ' '])
}

/// Math source on one line: newlines and tabs as spaces.
pub open spec fn flat_math(s: Seq<char>) -> Seq<char> {
    s.map_values(|c: char| if c == '\n' || c == '\t' { ' ' } else { c })
}

/// Inline code as shown: in backticks without colors, else padded by a space on each side.
pub open spec fn code_text(mono: bool, s: Seq<char>) -> Seq<char> {
    if mono {
        "`"@ + s + "`"@
    } else {
        " "@ + s + " "@
    }
}

/// Math as written: between `$$` when it is display math, else between `$`.
pub open spec fn math_text(display: bool, source: Seq<char>) -> Seq<char> {
    if display {
        "$$"@ + flat_math(source) + "$$"@
    } else {
        "$"@ + flat_math(source) + "$"@
    }
}

/// The first entry for `url` among what was learnt of badges before.
pub open spec fn known_badge(known: Seq<(Seq<char>, BadgeView)>, url: Seq<char>) -> Option<BadgeView>
    decreases known.len(),
{
    if known.len() == 0 {
        None
    } else if known[0].0 == url {
        Some(known[0].1)
    } else {
        known_badge(known.drop_first(), url)
    }
}

/// The text a badge image shows: what was learnt of its URL before, else what the URL
/// itself says, with the alt text (or `badge`) as the label when it names none.
pub open spec fn badge_look(alt: Seq<Inline>, url: Seq<char>, known: Seq<(Seq<char>, BadgeView)>) -> BadgeView {
    match known_badge(known, url) {
        Some(b) => b,
        None => {
            let t = match from_url_spec(url) {
                Some(b) => b,
                None => BadgeView { label: seq![], value: None, color: None, label_color: None },
            };
            if t.label.len() == 0 {
                let a = trim(plain_seq(alt));
                BadgeView { label: if a.len() == 0 { "badge"@ } else { a }, ..t }
            } else {
                t
            }
        },
    }
}

/// The widest a chip's label or value is shown.
pub const MAX_LABEL_WIDTH: usize = 40;

/// A badge as chips: `[label: value]` in muted text without colors; else the label and the
/// value (when it has one) each padded by a space, in the chip styles tinted by the badge's
/// colors.
pub open spec fn chip_pieces(b: BadgeView, link: Option<(Seq<char>, LinkKind)>, theme: Theme) -> Seq<PieceView> {
    let label = clipped(b.label, MAX_LABEL_WIDTH as nat);
    let value = match b.value {
        Some(v) => if clipped(v, MAX_LABEL_WIDTH as nat).len() > 0 {
            Some(clipped(v, MAX_LABEL_WIDTH as nat))
        } else {
            None
        },
        None => None,
    };
    if theme.mode == ColorMode::Mono {
        let text = match value {
            Some(v) => "["@ + label + ": "@ + v + "]"@,
            None => "["@ + label + "]"@,
        };
        seq![text_piece(text, fg_style(theme.fg_muted, 0), true, link)]
    } else {
        let first = PieceView {
            text: " "@ + label + " "@,
            style: fg_bg_style(theme.fg_muted, theme.label_bg, 0),
            atomic: true,
            brk: false,
            link,
            tint: b.label_color,
        };
        match value {
            Some(v) => seq![
                first,
                PieceView {
                    text: " "@ + v + " "@,
                    style: fg_bg_style(theme.fg, theme.label_value_bg, 0),
                    atomic: true,
                    brk: false,
                    link,
                    tint: b.color,
                },
            ],
            None => seq![first],
        }
    }
}

/// Whether a link's content is a lone badge image.
pub open spec fn badge_only(content: Seq<Inline>) -> bool {
    match sole_image_spec(content) {
        Some(i) => content[i] matches Inline::Image { url, .. } && badge_url(url@),
        None => false,
    }
}

/// The pieces of one inline, in `style`, inside `link` (if any).
pub open spec fn inline_spec(
    x: Inline,
    style: Style,
    link: Option<(Seq<char>, LinkKind)>,
    theme: Theme,
    known: Seq<(Seq<char>, BadgeView)>,
) -> Seq<PieceView>
    decreases x,
{
    match x {
        Inline::Text(s) => seq![text_piece(expand_tabs(s@), style, false, link)],
        Inline::Code(s) => seq![
            text_piece(code_text(theme.mode == ColorMode::Mono, s@), fg_bg_style(theme.code_fg, theme.code_bg, 0), true, link),
        ],
        Inline::Math { display, source } => seq![
            text_piece(math_text(display, source@), fg_style(theme.math, ITALIC), true, link),
        ],
        Inline::Emphasis(c) => inlines_spec(
            c@,
            Style { modifiers: style.modifiers | ITALIC, ..style },
            link,
            theme,
            known,
        ),
        Inline::Strong(c) => inlines_spec(c@, Style { modifiers: style.modifiers | BOLD, ..style }, link, theme, known),
        Inline::Strikethrough(c) => inlines_spec(
            c@,
            Style { modifiers: style.modifiers | CROSSED_OUT, ..style },
            link,
            theme,
            known,
        ),
        Inline::Link { content, url, .. } => {
            let target = Some((url@, LinkKind::Url));
            let inner = inlines_spec(content@, patch_spec(style, fg_style(theme.link, UNDERLINED)), target, theme, known);
            if url@.len() > 0 && !badge_only(content@) && plain_seq(content@) != url@ {
                inner + seq![
                    text_piece(" "@, style, false, target),
                    text_piece("("@ + url@ + ")"@, fg_style(theme.link_url, 0), false, target),
                ]
            } else {
                inner
            }
        },
        Inline::WikiLink { target, content } => inlines_spec(
            content@,
            patch_spec(style, fg_style(theme.link, UNDERLINED)),
            Some((target@, LinkKind::Wiki)),
            theme,
            known,
        ),
        Inline::Image { alt, url } => if badge_url(url@) {
            chip_pieces(badge_look(alt@, url@, known), link, theme)
        } else {
            seq![text_piece("▣ "@, fg_style(theme.accent, 0), false, link)]
                + inlines_spec(alt@, Style { modifiers: style.modifiers | ITALIC, ..style }, link, theme, known)
                + seq![text_piece(" ("@ + url@ + ")"@, fg_style(theme.link_url, 0), false, link)]
        },
        Inline::FootnoteRef(label) => seq![
            text_piece(
                footnote_label_spec(label@),
                fg_style(theme.accent, 0),
                true,
                match link {
                    Some(l) => Some(l),
                    None => Some((label@, LinkKind::Footnote)),
                },
            ),
        ],
        Inline::Html(s) => seq![text_piece(s@, fg_style(theme.fg_faint, 0), false, link)],
        Inline::SoftBreak => seq![text_piece(" "@, style, false, link)],
        Inline::HardBreak => seq![
            PieceView {
                text: seq![],
                style: Style { fg: None, bg: None, modifiers: 0 },
                atomic: false,
                brk: true,
                link: None,
                tint: None,
            },
        ],
    }
}

/// The pieces of a run of inlines, one after another.
pub open spec fn inlines_spec(
    s: Seq<Inline>,
    style: Style,
    link: Option<(Seq<char>, LinkKind)>,
    theme: Theme,
    known: Seq<(Seq<char>, BadgeView)>,
) -> Seq<PieceView>
    decreases s,
{
    if s.len() == 0 {
        seq![]
    } else {
        inlines_spec(s.drop_last(), style, link, theme, known) + inline_spec(s.last(), style, link, theme, known)
    }
}

pub open spec fn known_view(v: Seq<(String, BadgeText)>) -> Seq<(Seq<char>, BadgeView)> {
    v.map_values(|e: (String, BadgeText)| (e.0@, e.1@))
}

// ---------------------------------------------------------------------------------------------
// Pieces inside a link lead to it
// ---------------------------------------------------------------------------------------------
/// An inline with no link or wiki link in it.
pub open spec fn linkless(x: Inline) -> bool
    decreases x,
{
    match x {
        Inline::Link { .. } => false,
        Inline::WikiLink { .. } => false,
        Inline::Emphasis(c) => all_linkless(c@),
        Inline::Strong(c) => all_linkless(c@),
        Inline::Strikethrough(c) => all_linkless(c@),
        Inline::Image { alt, .. } => all_linkless(alt@),
        _ => true,
    }
}

pub open spec fn all_linkless(s: Seq<Inline>) -> bool
    decreases s,
{
    if s.len() == 0 {
        true
    } else {
        all_linkless(s.drop_last()) && linkless(s.last())
    }
}

/// Every piece but a line break leads to `l`.
pub open spec fn all_lead_to(ps: Seq<PieceView>, l: (Seq<char>, LinkKind)) -> bool {
    forall|k: int| 0 <= k < ps.len() ==> (#[trigger] ps[k]).brk || ps[k].link == Some(l)
}

proof fn lemma_lead_concat(a: Seq<PieceView>, b: Seq<PieceView>, l: (Seq<char>, LinkKind))
    requires
        all_lead_to(a, l),
        all_lead_to(b, l),
    ensures
        all_lead_to(a + b, l),
{
    assert forall|k: int| 0 <= k < (a + b).len() implies (#[trigger] (a + b)[k]).brk || (a + b)[k].link == Some(l) by {
        if k < a.len() {
            assert((a + b)[k] == a[k]);
        } else {
            assert((a + b)[k] == b[k - a.len()]);
        }
    }
}

proof fn lemma_inline_leads(
    x: Inline,
    style: Style,
    l: (Seq<char>, LinkKind),
    theme: Theme,
    known: Seq<(Seq<char>, BadgeView)>,
)
    requires
        linkless(x),
    ensures
        all_lead_to(inline_spec(x, style, Some(l), theme, known), l),
    decreases x,
{
    match x {
        Inline::Emphasis(c) => lemma_inlines_lead(
            c@,
            Style { modifiers: style.modifiers | ITALIC, ..style },
            l,
            theme,
            known,
        ),
        Inline::Strong(c) => lemma_inlines_lead(c@, Style { modifiers: style.modifiers | BOLD, ..style }, l, theme, known),
        Inline::Strikethrough(c) => lemma_inlines_lead(
            c@,
            Style { modifiers: style.modifiers | CROSSED_OUT, ..style },
            l,
            theme,
            known,
        ),
        Inline::Image { alt, url } => {
            if !badge_url(url@) {
                let st = Style { modifiers: style.modifiers | ITALIC, ..style };
                lemma_inlines_lead(alt@, st, l, theme, known);
                let first = seq![text_piece("▣ "@, fg_style(theme.accent, 0), false, Some(l))];
                let last = seq![text_piece(" ("@ + url@ + ")"@, fg_style(theme.link_url, 0), false, Some(l))];
                lemma_lead_concat(first, inlines_spec(alt@, st, Some(l), theme, known), l);
                lemma_lead_concat(first + inlines_spec(alt@, st, Some(l), theme, known), last, l);
            }
        },
        _ => {},
    }
}

proof fn lemma_inlines_lead(
    s: Seq<Inline>,
    style: Style,
    l: (Seq<char>, LinkKind),
    theme: Theme,
    known: Seq<(Seq<char>, BadgeView)>,
)
    requires
        all_linkless(s),
    ensures
        all_lead_to(inlines_spec(s, style, Some(l), theme, known), l),
    decreases s,
{
    if s.len() > 0 {
        lemma_inlines_lead(s.drop_last(), style, l, theme, known);
        lemma_inline_leads(s.last(), style, l, theme, known);
        lemma_lead_concat(
            inlines_spec(s.drop_last(), style, Some(l), theme, known),
            inline_spec(s.last(), style, Some(l), theme, known),
            l,
        );
    }
}

/// Inside a link, everything its content shows leads to it: every piece but a line break
/// carries the link, unless another link inside takes over.
pub proof fn law_link_content_leads_to_the_link(
    inlines: Seq<Inline>,
    style: Style,
    l: (Seq<char>, LinkKind),
    theme: Theme,
    known: Seq<(Seq<char>, BadgeView)>,
)
    requires
        all_linkless(inlines),
    ensures
        all_lead_to(inlines_spec(inlines, style, Some(l), theme, known), l),
{
    lemma_inlines_lead(inlines, style, l, theme, known);
}

// ---------------------------------------------------------------------------------------------
// Building the pieces
// ---------------------------------------------------------------------------------------------
proof fn lemma_view_push(v: Seq<InlinePiece>, p: InlinePiece)
    ensures
        pieces_view(v.push(p)) == pieces_view(v).push(piece_view(p)),
{
    assert(pieces_view(v.push(p)) =~= pieces_view(v).push(piece_view(p)));
}

fn copy_link(l: &Option<LinkRef>) -> (r: Option<LinkRef>)
    ensures
        link_view(r) == link_view(*l),
{
    match l {
        Some(x) => Some(LinkRef { url: x.url.clone(), kind: x.kind }),
        None => None,
    }
}

fn copy_badge(b: &BadgeText) -> (r: BadgeText)
    ensures
        r@ == b@,
{
    BadgeText {
        label: b.label.clone(),
        value: match &b.value {
            Some(v) => Some(v.clone()),
            None => None,
        },
        color: b.color,
        label_color: b.label_color,
    }
}

/// `a`, `b` and `c` one after another.
fn cat3(a: &str, b: &Vec<char>, c: &str) -> (r: String)
    ensures
        r@ == a@ + b@ + c@,
{
    let mut v = chars_of(a);
    extend(&mut v, b);
    let cv = chars_of(c);
    extend(&mut v, &cv);
    string_of(&v)
}

fn push_piece(out: &mut Vec<InlinePiece>, text: String, style: Style, atomic: bool, link: Option<LinkRef>, tint: Option<Rgb>)
    ensures
        pieces_view(final(out)@) == pieces_view(old(out)@).push(
            PieceView { text: text@, style, atomic, brk: false, link: link_view(link), tint },
        ),
{
    let p = InlinePiece { piece: Piece::Text { text, style, atomic }, link, tint };
    proof {
        lemma_view_push(out@, p);
    }
    out.push(p);
}

fn is_mono(theme: &Theme) -> (r: bool)
    ensures
        r == (theme.mode == ColorMode::Mono),
{
    match theme.mode {
        ColorMode::Mono => true,
        _ => false,
    }
}

fn flat_math_exec(s: &Vec<char>) -> (r: Vec<char>)
    ensures
        r@ == flat_math(s@),
{
    let mut out: Vec<char> = Vec::new();
    let mut i: usize = 0;
    while i < s.len()
        invariant
            i <= s.len(),
            out@ == flat_math(s@.take(i as int)),
        decreases s.len() - i,
    {
        let c = s[i];
        if c == '\n' || c == '\t' {
            out.push(' ');
        } else {
            out.push(c);
        }
        i = i + 1;
        assert(out@ =~= flat_math(s@.take(i as int)));
    }
    assert(s@.take(s.len() as int) =~= s@);
    out
}

fn known_badge_exec(known: &Vec<(String, BadgeText)>, url: &str) -> (r: Option<BadgeText>)
    ensures
        r is None ==> known_badge(known_view(known@), url@) is None,
        r matches Some(b) ==> known_badge(known_view(known@), url@) == Some(b@),
{
    let u = chars_of(url);
    let ghost kv = known_view(known@);
    let mut i: usize = 0;
    assert(kv.skip(0) =~= kv);
    while i < known.len()
        invariant
            i <= known.len(),
            kv == known_view(known@),
            u@ == url@,
            known_badge(kv, url@) == known_badge(kv.skip(i as int), url@),
        decreases known.len() - i,
    {
        let k = chars_of(known[i].0.as_str());
        assert(kv.skip(i as int)[0] == kv[i as int]);
        if chars_eq(&k, &u) {
            return Some(copy_badge(&known[i].1));
        }
        assert(kv.skip(i as int).drop_first() =~= kv.skip(i + 1));
        i = i + 1;
    }
    None
}

fn badge_look_exec(alt: &Vec<Inline>, url: &str, known: &Vec<(String, BadgeText)>) -> (r: BadgeText)
    ensures
        r@ == badge_look(alt@, url@, known_view(known@)),
{
    match known_badge_exec(known, url) {
        Some(b) => b,
        None => {
            let t = match from_url(url) {
                Some(b) => b,
                None => BadgeText { label: String::new(), value: None, color: None, label_color: None },
            };
            let lv = chars_of(t.label.as_str());
            if lv.len() == 0 {
                let p = plain_text(alt);
                let pv = chars_of(p.as_str());
                let a = trimmed(&pv);
                let label = if a.len() == 0 {
                    string_of(&chars_of("badge"))
                } else {
                    string_of(&a)
                };
                BadgeText { label, ..t }
            } else {
                t
            }
        },
    }
}

fn push_chips(b: &BadgeText, link: &Option<LinkRef>, theme: &Theme, out: &mut Vec<InlinePiece>)
    ensures
        pieces_view(final(out)@) == pieces_view(old(out)@) + chip_pieces(b@, link_view(*link), *theme),
{
    let ghost start = pieces_view(out@);
    let label = chars_of(clip(b.label.as_str(), MAX_LABEL_WIDTH).as_str());
    let value: Option<Vec<char>> = match &b.value {
        Some(v) => {
            let c = chars_of(clip(v.as_str(), MAX_LABEL_WIDTH).as_str());
            if c.len() > 0 {
                Some(c)
            } else {
                None
            }
        },
        None => None,
    };
    let ghost want = chip_pieces(b@, link_view(*link), *theme);
    if is_mono(theme) {
        let text = match &value {
            Some(v) => {
                let mut t = chars_of("[");
                extend(&mut t, &label);
                let sep = chars_of(": ");
                extend(&mut t, &sep);
                extend(&mut t, v);
                let close = chars_of("]");
                extend(&mut t, &close);
                string_of(&t)
            },
            None => cat3("[", &label, "]"),
        };
        push_piece(out, text, theme.muted(), true, copy_link(link), None);
        assert(pieces_view(out@) =~= start + want);
    } else {
        push_piece(out, cat3(" ", &label, " "), theme.label(), true, copy_link(link), b.label_color);
        match &value {
            Some(v) => {
                push_piece(out, cat3(" ", v, " "), theme.label_value(), true, copy_link(link), b.color);
            },
            None => {},
        }
        assert(pieces_view(out@) =~= start + want);
    }
}

fn is_badge_only(content: &Vec<Inline>) -> (r: bool)
    ensures
        r == badge_only(content@),
{
    match sole_image(content) {
        Some(i) => match &content[i] {
            Inline::Image { url, .. } => is_badge(url.as_str()),
            _ => false,
        },
        None => false,
    }
}

proof fn lemma_inlines_step(
    s: Seq<Inline>,
    i: int,
    style: Style,
    link: Option<(Seq<char>, LinkKind)>,
    theme: Theme,
    known: Seq<(Seq<char>, BadgeView)>,
)
    requires
        0 <= i < s.len(),
    ensures
        inlines_spec(s.take(i + 1), style, link, theme, known) == inlines_spec(s.take(i), style, link, theme, known)
            + inline_spec(s[i], style, link, theme, known),
{
    assert(s.take(i + 1).drop_last() =~= s.take(i));
    assert(s.take(i + 1).last() == s[i]);
}

fn push_inlines(
    inlines: &Vec<Inline>,
    style: Style,
    link: &Option<LinkRef>,
    theme: &Theme,
    known: &Vec<(String, BadgeText)>,
    out: &mut Vec<InlinePiece>,
)
    ensures
        pieces_view(final(out)@) == pieces_view(old(out)@) + inlines_spec(
            inlines@,
            style,
            link_view(*link),
            *theme,
            known_view(known@),
        ),
    decreases inlines,
{
    let ghost start = pieces_view(out@);
    let ghost lk = link_view(*link);
    let ghost kv = known_view(known@);
    proof {
        reveal_strlit("\t");
        reveal_strlit("    ");
    }
    let mut i: usize = 0;
    assert(inlines@.take(0) =~= Seq::<Inline>::empty());
    assert(start + Seq::<PieceView>::empty() =~= start);
    while i < inlines.len()
        invariant
            i <= inlines.len(),
            lk == link_view(*link),
            kv == known_view(known@),
            "\t"@ == seq!['\t'],
            "    "@ == seq![' ', ' ', ' ', ' '],
            pieces_view(out@) == start + inlines_spec(inlines@.take(i as int), style, lk, *theme, kv),
        decreases inlines.len() - i,
    {
        let ghost before = pieces_view(out@);
        let x = &inlines[i];
        proof {
            lemma_inlines_step(inlines@, i as int, style, lk, *theme, kv);
        }
        match x {
            Inline::Text(s) => {
                let t = replace_lit(&chars_of(s.as_str()), "\t", "    ");
                push_piece(out, string_of(&t), style, false, copy_link(link), None);
            },
            Inline::Code(s) => {
                let sv = chars_of(s.as_str());
                let text = if is_mono(theme) {
                    cat3("`", &sv, "`")
                } else {
                    cat3(" ", &sv, " ")
                };
                push_piece(out, text, theme.code_inline(), true, copy_link(link), None);
            },
            Inline::Math { display, source } => {
                let f = flat_math_exec(&chars_of(source.as_str()));
                let text = if *display {
                    cat3("$$", &f, "$$")
                } else {
                    cat3("$", &f, "$")
                };
                push_piece(out, text, theme.math(), true, copy_link(link), None);
            },
            Inline::Emphasis(c) => {
                push_inlines(c, style.add_modifier(ITALIC), link, theme, known, out);
            },
            Inline::Strong(c) => {
                push_inlines(c, style.add_modifier(BOLD), link, theme, known, out);
            },
            Inline::Strikethrough(c) => {
                push_inlines(c, style.add_modifier(CROSSED_OUT), link, theme, known, out);
            },
            Inline::Link { content, url, .. } => {
                let target = Some(LinkRef { url: url.clone(), kind: LinkKind::Url });
                push_inlines(content, style.patch(theme.link()), &target, theme, known, out);
                let uv = chars_of(url.as_str());
                if uv.len() > 0 && !is_badge_only(content) {
                    let pv = chars_of(plain_text(content).as_str());
                    if !chars_eq(&pv, &uv) {
                        push_piece(out, string_of(&chars_of(" ")), style, false, copy_link(&target), None);
                        push_piece(out, cat3("(", &uv, ")"), theme.link_url(), false, copy_link(&target), None);
                    }
                }
            },
            Inline::WikiLink { target, content } => {
                let t = Some(LinkRef { url: target.clone(), kind: LinkKind::Wiki });
                push_inlines(content, style.patch(theme.link()), &t, theme, known, out);
            },
            Inline::Image { alt, url } => {
                if is_badge(url.as_str()) {
                    let b = badge_look_exec(alt, url.as_str(), known);
                    push_chips(&b, link, theme, out);
                } else {
                    push_piece(out, string_of(&chars_of("▣ ")), Style::new().fg(theme.accent), false, copy_link(link), None);
                    push_inlines(alt, style.add_modifier(ITALIC), link, theme, known, out);
                    let uv = chars_of(url.as_str());
                    push_piece(out, cat3(" (", &uv, ")"), theme.link_url(), false, copy_link(link), None);
                }
            },
            Inline::FootnoteRef(label) => {
                let to = match link {
                    Some(_) => copy_link(link),
                    None => Some(LinkRef { url: label.clone(), kind: LinkKind::Footnote }),
                };
                push_piece(out, footnote_label(label.as_str()), theme.footnote(), true, to, None);
            },
            Inline::Html(s) => {
                push_piece(out, s.clone(), theme.faint(), false, copy_link(link), None);
            },
            Inline::SoftBreak => {
                push_piece(out, string_of(&chars_of(" ")), style, false, copy_link(link), None);
            },
            Inline::HardBreak => {
                let p = InlinePiece { piece: Piece::Break, link: None, tint: None };
                proof {
                    lemma_view_push(out@, p);
                }
                out.push(p);
            },
        }
        assert(pieces_view(out@) =~= start + inlines_spec(inlines@.take(i + 1), style, lk, *theme, kv));
        i = i + 1;
    }
    assert(inlines@.take(inlines.len() as int) =~= inlines@);
}

/// The pieces `inlines` wrap as, in `style`, inside `link` (if any), with the theme's colors;
/// `known` holds what was learnt of badges before, by URL.
pub fn inline_pieces(
    inlines: &Vec<Inline>,
    style: Style,
    link: Option<LinkRef>,
    theme: &Theme,
    known: &Vec<(String, BadgeText)>,
) -> (r: Vec<InlinePiece>)
    ensures
        pieces_view(r@) == inlines_spec(inlines@, style, link_view(link), *theme, known_view(known@)),
{
    let mut out: Vec<InlinePiece> = Vec::new();
    push_inlines(inlines, style, &link, theme, known, &mut out);
    assert(pieces_view(Seq::<InlinePiece>::empty()) =~= Seq::<PieceView>::empty());
    assert(Seq::<PieceView>::empty() + inlines_spec(inlines@, style, link_view(link), *theme, known_view(known@))
        =~= inlines_spec(inlines@, style, link_view(link), *theme, known_view(known@)));
    out
}

} // verus!
