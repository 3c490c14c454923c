//! A laid-out document: its lines and what they record (source offsets, headings, links and
//! image slots), the lookups on it, and the small text rules the layout applies (footnote
//! labels, which images stand alone).
use std::collections::HashMap;
use vstd::prelude::*;

use crate::markdown::document::{Block, BlockKind, Definition, Document, Inline, ListItem};
use crate::render::badge::{badge_url, is_badge, Badges};
use crate::markdown::slug::{slug, slug_spec};
use crate::render::fit::{fit_chars, fitting};
use crate::render::table::{push_n, spaces};
use crate::render::wrap::{str_columns, width, LinkKind, Span};
use crate::text::{
    chars_eq, chars_of, decimal, decimal_u64, extend, is_ascii_digit, is_whitespace, is_ws,
    push_char, string_of, trim, trimmed,
};

verus! {

/// How front matter is shown.
#[derive(Debug, Clone, Copy, PartialEq, Eq, Structural)]
pub enum FrontMatterView {
    Collapsed,
    Expanded,
    Hidden,
}

impl Default for FrontMatterView {
    fn default() -> (r: Self)
        ensures
            r == FrontMatterView::Collapsed,
    {
        FrontMatterView::Collapsed
    }
}

/// The size of a terminal cell in pixels, and the pixel size of each image known so far.
#[derive(Debug, Default)]
pub struct ImageSizes {
    pub font: (u16, u16),
    pub sizes: HashMap<String, (u32, u32)>,
}

impl Clone for ImageSizes {
    fn clone(&self) -> (r: Self)
        ensures
            r.font == self.font,
    {
        ImageSizes { font: self.font, sizes: self.sizes.clone() }
    }
}

/// What the layout shows beyond the document itself.
#[derive(Debug, Clone, Default)]
pub struct Options {
    pub front_matter: FrontMatterView,
    pub images: Option<ImageSizes>,
    pub badges: Badges,
}

/// The cells an image is drawn over.
#[derive(Debug, Clone, PartialEq, Eq)]
pub struct ImageSlot {
    pub line: usize,
    pub col: u16,
    pub cols: u16,
    pub rows: u16,
    pub url: String,
}

/// A heading as laid out: its level, text, first line and anchor.
#[derive(Debug, Clone, PartialEq, Eq)]
pub struct Heading {
    pub level: u8,
    pub text: String,
    pub line: usize,
    pub slug: String,
}

/// A link as laid out: the columns it covers on its line, and where it leads.
#[derive(Debug, Clone, PartialEq, Eq)]
pub struct Link {
    pub line: usize,
    pub start: u16,
    pub end: u16,
    pub url: String,
    pub kind: LinkKind,
}

/// A laid-out document: its lines, the source offset each line comes from, and where its
/// headings, links and images are.
#[derive(Debug, Default)]
pub struct Layout {
    pub lines: Vec<Vec<Span>>,
    pub sources: Vec<Option<usize>>,
    pub headings: Vec<Heading>,
    pub links: Vec<Link>,
    pub images: Vec<ImageSlot>,
}

/// The first line at or after `from` that comes from offset `offset` of the source or later.
pub open spec fn first_source_at_or_after(sources: Seq<Option<usize>>, offset: usize, from: int) -> Option<int>
    decreases sources.len() - from,
{
    if from < 0 || from >= sources.len() {
        None
    } else if sources[from] matches Some(o) && o >= offset {
        Some(from)
    } else {
        first_source_at_or_after(sources, offset, from + 1)
    }
}

/// The first source offset given at or after line `from`.
pub open spec fn first_source(sources: Seq<Option<usize>>, from: int) -> Option<usize>
    decreases sources.len() - from,
{
    if from < 0 || from >= sources.len() {
        None
    } else if sources[from] is Some {
        sources[from]
    } else {
        first_source(sources, from + 1)
    }
}

/// The first heading from `from` on whose anchor is `slug`.
pub open spec fn first_heading_with(hs: Seq<Heading>, slug: Seq<char>, from: int) -> Option<int>
    decreases hs.len() - from,
{
    if from < 0 || from >= hs.len() {
        None
    } else if hs[from].slug@ == slug {
        Some(from)
    } else {
        first_heading_with(hs, slug, from + 1)
    }
}

/// The link covers column `col` of line `line`.
pub open spec fn link_covers(l: Link, line: usize, col: u16) -> bool {
    l.line == line && l.start <= col && col < l.end
}

/// The first link from `from` on that covers the cell.
pub open spec fn first_link_at(ls: Seq<Link>, line: usize, col: u16, from: int) -> Option<int>
    decreases ls.len() - from,
{
    if from < 0 || from >= ls.len() {
        None
    } else if link_covers(ls[from], line, col) {
        Some(from)
    } else {
        first_link_at(ls, line, col, from + 1)
    }
}

/// A line's text: its spans one after the other.
pub open spec fn spans_text(spans: Seq<Span>) -> Seq<char>
    decreases spans.len(),
{
    if spans.len() == 0 {
        seq![]
    } else {
        spans_text(spans.drop_last()) + spans.last().content@
    }
}

impl Layout {
    /// The first line that comes from `offset` of the source or later; the first line when
    /// none does.
    pub fn line_for_source(&self, offset: usize) -> (r: usize)
        ensures
            r == match first_source_at_or_after(self.sources@, offset, 0) {
                Some(i) => i as usize,
                None => 0,
            },
    {
        let mut i: usize = 0;
        while i < self.sources.len()
            invariant
                i <= self.sources.len(),
                first_source_at_or_after(self.sources@, offset, 0) == first_source_at_or_after(self.sources@, offset, i as int),
            decreases self.sources.len() - i,
        {
            match self.sources[i] {
                Some(o) => {
                    if o >= offset {
                        return i;
                    }
                },
                None => {},
            }
            i = i + 1;
        }
        0
    }

    /// The line of the heading whose anchor `anchor` names (compared as slugs).
    pub fn line_for_anchor(&self, anchor: &str) -> (r: Option<usize>)
        ensures
            r == match first_heading_with(self.headings@, slug_spec(anchor@), 0) {
                Some(i) => Some(self.headings@[i].line),
                None => None::<usize>,
            },
    {
        let wanted = slug(anchor);
        let w = chars_of(wanted.as_str());
        let mut i: usize = 0;
        while i < self.headings.len()
            invariant
                i <= self.headings.len(),
                w@ == slug_spec(anchor@),
                first_heading_with(self.headings@, w@, 0) == first_heading_with(self.headings@, w@, i as int),
            decreases self.headings.len() - i,
        {
            let h = chars_of(self.headings[i].slug.as_str());
            if chars_eq(&h, &w) {
                return Some(self.headings[i].line);
            }
            i = i + 1;
        }
        None
    }

    /// The link drawn over column `col` of line `line`, if any.
    pub fn link_at(&self, line: usize, col: u16) -> (r: Option<&Link>)
        ensures
            r == match first_link_at(self.links@, line, col, 0) {
                Some(i) => Some(&self.links@[i]),
                None => None::<&Link>,
            },
    {
        let mut i: usize = 0;
        while i < self.links.len()
            invariant
                i <= self.links.len(),
                first_link_at(self.links@, line, col, 0) == first_link_at(self.links@, line, col, i as int),
            decreases self.links.len() - i,
        {
            let l = &self.links[i];
            if l.line == line && l.start <= col && col < l.end {
                return Some(l);
            }
            i = i + 1;
        }
        None
    }

    /// The source offset of line `line`, or of the first line after it that has one.
    pub fn source_at(&self, line: usize) -> (r: Option<usize>)
        ensures
            r == first_source(self.sources@, line as int),
    {
        let mut i: usize = line;
        while i < self.sources.len()
            invariant
                line <= i,
                first_source(self.sources@, line as int) == first_source(self.sources@, i as int),
            decreases self.sources.len() - i,
        {
            if self.sources[i].is_some() {
                return self.sources[i];
            }
            i = i + 1;
        }
        None
    }

    /// Each line's text.
    pub fn plain_lines(&self) -> (r: Vec<String>)
        ensures
            r@.len() == self.lines@.len(),
            forall|i: int| 0 <= i < r@.len() ==> #[trigger] r@[i]@ == spans_text(self.lines@[i]@),
    {
        let mut out: Vec<String> = Vec::new();
        let mut i: usize = 0;
        while i < self.lines.len()
            invariant
                i <= self.lines.len(),
                out@.len() == i,
                forall|k: int| 0 <= k < i ==> #[trigger] out@[k]@ == spans_text(self.lines@[k]@),
            decreases self.lines.len() - i,
        {
            let line = &self.lines[i];
            let mut acc: Vec<char> = Vec::new();
            let mut j: usize = 0;
            while j < line.len()
                invariant
                    j <= line.len(),
                    acc@ == spans_text(line@.take(j as int)),
                decreases line.len() - j,
            {
                let cs = chars_of(line[j].content.as_str());
                extend(&mut acc, &cs);
                assert(line@.take(j + 1).drop_last() =~= line@.take(j as int));
                j = j + 1;
            }
            assert(line@.take(line.len() as int) =~= line@);
            out.push(string_of(&acc));
            i = i + 1;
        }
        out
    }
}

// ---------------------------------------------------------------------------------------------
// Footnote labels
// ---------------------------------------------------------------------------------------------
/// The superscript form of an ASCII digit.
pub open spec fn superscript(d: char) -> char {
    if d == '0' {
        '⁰'
    } else if d == '1' {
        '¹'
    } else if d == '2' {
        '²'
    } else if d == '3' {
        '³'
    } else if d == '4' {
        '⁴'
    } else if d == '5' {
        '⁵'
    } else if d == '6' {
        '⁶'
    } else if d == '7' {
        '⁷'
    } else if d == '8' {
        '⁸'
    } else {
        '⁹'
    }
}

/// How a footnote reference reads: a number in superscript digits, anything else in brackets.
pub open spec fn footnote_label_spec(label: Seq<char>) -> Seq<char> {
    if label.len() > 0 && forall|i: int| 0 <= i < label.len() ==> is_ascii_digit(#[trigger] label[i]) {
        label.map_values(|d: char| superscript(d))
    } else {
        seq!['['] + label + seq![']']
    }
}

fn superscript_of(d: char) -> (r: char)
    ensures
        r == superscript(d),
{
    if d == '0' {
        '⁰'
    } else if d == '1' {
        '¹'
    } else if d == '2' {
        '²'
    } else if d == '3' {
        '³'
    } else if d == '4' {
        '⁴'
    } else if d == '5' {
        '⁵'
    } else if d == '6' {
        '⁶'
    } else if d == '7' {
        '⁷'
    } else if d == '8' {
        '⁸'
    } else {
        '⁹'
    }
}

/// How a footnote reference is shown: `¹²` for a numeric label, `[label]` for any other.
pub fn footnote_label(label: &str) -> (r: String)
    ensures
        r@ == footnote_label_spec(label@),
{
    let v = crate::text::chars_of(label);
    let mut digits = v.len() > 0;
    let mut i: usize = 0;
    while i < v.len()
        invariant
            i <= v.len(),
            digits == (v.len() > 0 && forall|j: int| 0 <= j < i ==> is_ascii_digit(#[trigger] v@[j])),
        decreases v.len() - i,
    {
        if !('0' <= v[i] && v[i] <= '9') {
            digits = false;
        }
        i = i + 1;
    }
    let mut out = String::new();
    if digits {
        let mut k: usize = 0;
        while k < v.len()
            invariant
                k <= v.len(),
                out@ == v@.take(k as int).map_values(|d: char| superscript(d)),
            decreases v.len() - k,
        {
            push_char(&mut out, superscript_of(v[k]));
            k = k + 1;
            assert(out@ =~= v@.take(k as int).map_values(|d: char| superscript(d)));
        }
        assert(v@.take(v.len() as int) =~= v@);
    } else {
        push_char(&mut out, '[');
        out.append(label);
        push_char(&mut out, ']');
        assert(out@ =~= seq!['['] + label@ + seq![']']);
    }
    out
}

// ---------------------------------------------------------------------------------------------
// Images that stand alone
// ---------------------------------------------------------------------------------------------
/// An inline that does not count against an image standing alone: a line break or blank text.
pub open spec fn quiet(x: Inline) -> bool {
    match x {
        Inline::SoftBreak => true,
        Inline::HardBreak => true,
        Inline::Text(s) => trim(s@).len() == 0,
        _ => false,
    }
}

/// Every inline but the one at `i` is quiet.
pub open spec fn quiet_but(s: Seq<Inline>, i: int) -> bool {
    forall|j: int| 0 <= j < s.len() && j != i ==> quiet(#[trigger] s[j])
}

/// The index of the image a paragraph holds and nothing else but quiet inlines.
pub open spec fn sole_image_spec(s: Seq<Inline>) -> Option<int> {
    if exists|i: int| 0 <= i < s.len() && s[i] is Image && quiet_but(s, i) {
        Some(choose|i: int| 0 <= i < s.len() && s[i] is Image && quiet_but(s, i))
    } else {
        None
    }
}

fn is_quiet(x: &Inline) -> (r: bool)
    ensures
        r == quiet(*x),
{
    match x {
        Inline::SoftBreak => true,
        Inline::HardBreak => true,
        Inline::Text(s) => {
            let v = crate::text::chars_of(s.as_str());
            trimmed(&v).len() == 0
        },
        _ => false,
    }
}

/// The index of the paragraph's only image, when all else in it is quiet.
pub fn sole_image(content: &Vec<Inline>) -> (r: Option<usize>)
    ensures
        r is None ==> sole_image_spec(content@) is None,
        r matches Some(i) ==> sole_image_spec(content@) == Some(i as int),
{
    let ghost s = content@;
    let mut found: Option<usize> = None;
    let mut k: usize = 0;
    while k < content.len()
        invariant
            k <= content.len(),
            s == content@,
            found is None ==> forall|j: int| 0 <= j < k ==> quiet(#[trigger] s[j]),
            found matches Some(f) ==> f < k && s[f as int] is Image && forall|j: int|
                0 <= j < k && j != f ==> quiet(#[trigger] s[j]),
        decreases content.len() - k,
    {
        let x = &content[k];
        let is_image = match x {
            Inline::Image { .. } => true,
            _ => false,
        };
        if is_image && found.is_none() {
            found = Some(k);
        } else if !is_quiet(x) {
            proof {
                assert(!quiet(s[k as int]));
                assert forall|i: int| 0 <= i < s.len() && s[i] is Image implies !quiet_but(s, i) by {
                    if i != k {
                        assert(!quiet(s[k as int]));
                    } else {
                        match found {
                            Some(f) => {
                                assert(!quiet(s[f as int]));
                            },
                            None => {},
                        }
                    }
                }
            }
            return None;
        }
        k = k + 1;
    }
    match found {
        Some(f) => {
            proof {
                assert(s[f as int] is Image && quiet_but(s, f as int));
                let i = choose|i: int| 0 <= i < s.len() && s[i] is Image && quiet_but(s, i);
                if i != f {
                    assert(!quiet(s[f as int]));
                }
            }
            Some(f)
        },
        None => {
            proof {
                assert forall|i: int| 0 <= i < s.len() && s[i] is Image implies !quiet_but(s, i) by {
                    assert(!quiet(s[i]));
                }
            }
            None
        },
    }
}

/// Display math.
pub open spec fn display_math(x: Inline) -> bool {
    x matches Inline::Math { display: true, .. }
}

/// The source of the paragraph's only display math, when all else in it is quiet.
pub open spec fn sole_math_spec(s: Seq<Inline>) -> Option<int> {
    if exists|i: int| 0 <= i < s.len() && display_math(s[i]) && quiet_but(s, i) {
        Some(
            choose|i: int|
                0 <= i < s.len() && display_math(s[i]) && quiet_but(
                    s,
                    i,
                ),
        )
    } else {
        None
    }
}

/// The index of the paragraph's only display math, when all else in it is quiet.
pub fn sole_display_math(content: &Vec<Inline>) -> (r: Option<usize>)
    ensures
        r is None ==> sole_math_spec(content@) is None,
        r matches Some(i) ==> sole_math_spec(content@) == Some(i as int),
{
    let ghost s = content@;
    let mut found: Option<usize> = None;
    let mut k: usize = 0;
    while k < content.len()
        invariant
            k <= content.len(),
            s == content@,
            found is None ==> forall|j: int| 0 <= j < k ==> quiet(#[trigger] s[j]),
            found matches Some(f) ==> f < k && display_math(s[f as int]) && forall|j: int| 0 <= j < k && j != f ==> quiet(#[trigger] s[j]),
        decreases content.len() - k,
    {
        let x = &content[k];
        let is_math = match x {
            Inline::Math { display, .. } => *display,
            _ => false,
        };
        if is_math && found.is_none() {
            found = Some(k);
        } else if !is_quiet(x) {
            proof {
                assert forall|i: int|
                    0 <= i < s.len() && display_math(s[i]) implies !quiet_but(s, i) by {
                    if i != k {
                        assert(!quiet(s[k as int]));
                    } else {
                        match found {
                            Some(f) => {
                                assert(!quiet(s[f as int]));
                            },
                            None => {},
                        }
                    }
                }
            }
            return None;
        }
        k = k + 1;
    }
    match found {
        Some(f) => {
            proof {
                assert(display_math(s[f as int]) && quiet_but(s, f as int));
                let i = choose|i: int|
                    0 <= i < s.len() && display_math(s[i]) && quiet_but(
                        s,
                        i,
                    );
                if i != f {
                    assert(!quiet(s[f as int]));
                }
            }
            Some(f)
        },
        None => {
            proof {
                assert forall|i: int|
                    0 <= i < s.len() && display_math(s[i]) implies !quiet_but(s, i) by {
                    assert(!quiet(s[i]));
                }
            }
            None
        },
    }
}

// ---------------------------------------------------------------------------------------------
// Image URLs
// ---------------------------------------------------------------------------------------------
/// The URL of a paragraph's image when it stands alone and is not a badge.
pub open spec fn paragraph_image(content: Seq<Inline>) -> Seq<Seq<char>> {
    match sole_image_spec(content) {
        Some(i) => match content[i] {
            Inline::Image { url, .. } => if badge_url(url@) {
                seq![]
            } else {
                seq![url@]
            },
            _ => seq![],
        },
        None => seq![],
    }
}

/// The images that stand alone in the blocks, in order, looking into quotes, list items and
/// definitions' details.
pub open spec fn block_images(b: Block) -> Seq<Seq<char>>
    decreases b,
{
    match b.kind {
        BlockKind::Paragraph(c) => paragraph_image(c@),
        BlockKind::BlockQuote { blocks, .. } => blocks_images(blocks@),
        BlockKind::List(l) => items_images(l.items@),
        BlockKind::DefinitionList(d) => defs_images(d@),
        _ => seq![],
    }
}

pub open spec fn blocks_images(s: Seq<Block>) -> Seq<Seq<char>>
    decreases s,
{
    if s.len() == 0 {
        seq![]
    } else {
        blocks_images(s.drop_last()) + block_images(s.last())
    }
}

pub open spec fn items_images(s: Seq<ListItem>) -> Seq<Seq<char>>
    decreases s,
{
    if s.len() == 0 {
        seq![]
    } else {
        items_images(s.drop_last()) + blocks_images(s.last().blocks@)
    }
}

pub open spec fn details_images(s: Seq<Vec<Block>>) -> Seq<Seq<char>>
    decreases s,
{
    if s.len() == 0 {
        seq![]
    } else {
        details_images(s.drop_last()) + blocks_images(s.last()@)
    }
}

pub open spec fn defs_images(s: Seq<Definition>) -> Seq<Seq<char>>
    decreases s,
{
    if s.len() == 0 {
        seq![]
    } else {
        defs_images(s.drop_last()) + details_images(s.last().details@)
    }
}

/// The text of each string.
pub open spec fn texts(v: Seq<String>) -> Seq<Seq<char>> {
    v.map_values(|s: String| s@)
}

proof fn lemma_texts_push(v: Seq<String>, s: String)
    ensures
        texts(v.push(s)) == texts(v).push(s@),
{
    assert(texts(v.push(s)) =~= texts(v).push(s@));
}

fn collect_paragraph(content: &Vec<Inline>, urls: &mut Vec<String>)
    ensures
        texts(final(urls)@) == texts(old(urls)@) + paragraph_image(content@),
{
    match sole_image(content) {
        Some(i) => match &content[i] {
            Inline::Image { url, .. } => {
                if !is_badge(url.as_str()) {
                    proof {
                        lemma_texts_push(urls@, *url);
                    }
                    urls.push(url.clone());
                    assert(texts(urls@) =~= texts(old(urls)@) + seq![url@]);
                } else {
                    assert(texts(urls@) =~= texts(urls@) + Seq::<Seq<char>>::empty());
                }
            },
            _ => {
                assert(texts(urls@) =~= texts(urls@) + Seq::<Seq<char>>::empty());
            },
        },
        None => {
            assert(texts(urls@) =~= texts(urls@) + Seq::<Seq<char>>::empty());
        },
    }
}

fn collect_blocks(blocks: &Vec<Block>, urls: &mut Vec<String>)
    ensures
        texts(final(urls)@) == texts(old(urls)@) + blocks_images(blocks@),
    decreases blocks,
{
    let ghost start = texts(urls@);
    let mut i: usize = 0;
    assert(blocks@.take(0) =~= Seq::<Block>::empty());
    assert(start + Seq::<Seq<char>>::empty() =~= start);
    while i < blocks.len()
        invariant
            i <= blocks.len(),
            texts(urls@) == start + blocks_images(blocks@.take(i as int)),
        decreases blocks.len() - i,
    {
        assert(blocks@.take(i + 1).drop_last() =~= blocks@.take(i as int));
        let ghost before = texts(urls@);
        let block = &blocks[i];
        match &block.kind {
            BlockKind::Paragraph(content) => collect_paragraph(content, urls),
            BlockKind::BlockQuote { blocks: inner, .. } => collect_blocks(inner, urls),
            BlockKind::List(list) => collect_items(&list.items, urls),
            BlockKind::DefinitionList(defs) => collect_defs(defs, urls),
            _ => {
                assert(texts(urls@) =~= before + Seq::<Seq<char>>::empty());
            },
        }
        assert(blocks@.take(i + 1).last() == blocks@[i as int]);
        assert(blocks_images(blocks@.take(i + 1)) == blocks_images(blocks@.take(i as int))
            + block_images(blocks@[i as int]));
        assert(texts(urls@) == before + block_images(blocks@[i as int]));
        assert(texts(urls@) =~= start + blocks_images(blocks@.take(i + 1)));
        i = i + 1;
    }
    assert(blocks@.take(blocks.len() as int) =~= blocks@);
}

fn collect_items(items: &Vec<ListItem>, urls: &mut Vec<String>)
    ensures
        texts(final(urls)@) == texts(old(urls)@) + items_images(items@),
    decreases items,
{
    let ghost start = texts(urls@);
    let mut i: usize = 0;
    assert(items@.take(0) =~= Seq::<ListItem>::empty());
    assert(start + Seq::<Seq<char>>::empty() =~= start);
    while i < items.len()
        invariant
            i <= items.len(),
            texts(urls@) == start + items_images(items@.take(i as int)),
        decreases items.len() - i,
    {
        assert(items@.take(i + 1).drop_last() =~= items@.take(i as int));
        let item = &items[i];
        collect_blocks(&item.blocks, urls);
        assert(texts(urls@) =~= start + items_images(items@.take(i + 1)));
        i = i + 1;
    }
    assert(items@.take(items.len() as int) =~= items@);
}

fn collect_details(details: &Vec<Vec<Block>>, urls: &mut Vec<String>)
    ensures
        texts(final(urls)@) == texts(old(urls)@) + details_images(details@),
    decreases details,
{
    let ghost start = texts(urls@);
    let mut i: usize = 0;
    assert(details@.take(0) =~= Seq::<Vec<Block>>::empty());
    assert(start + Seq::<Seq<char>>::empty() =~= start);
    while i < details.len()
        invariant
            i <= details.len(),
            texts(urls@) == start + details_images(details@.take(i as int)),
        decreases details.len() - i,
    {
        assert(details@.take(i + 1).drop_last() =~= details@.take(i as int));
        let detail = &details[i];
        collect_blocks(detail, urls);
        assert(texts(urls@) =~= start + details_images(details@.take(i + 1)));
        i = i + 1;
    }
    assert(details@.take(details.len() as int) =~= details@);
}

fn collect_defs(defs: &Vec<Definition>, urls: &mut Vec<String>)
    ensures
        texts(final(urls)@) == texts(old(urls)@) + defs_images(defs@),
    decreases defs,
{
    let ghost start = texts(urls@);
    let mut i: usize = 0;
    assert(defs@.take(0) =~= Seq::<Definition>::empty());
    assert(start + Seq::<Seq<char>>::empty() =~= start);
    while i < defs.len()
        invariant
            i <= defs.len(),
            texts(urls@) == start + defs_images(defs@.take(i as int)),
        decreases defs.len() - i,
    {
        assert(defs@.take(i + 1).drop_last() =~= defs@.take(i as int));
        let def = &defs[i];
        collect_details(&def.details, urls);
        assert(texts(urls@) =~= start + defs_images(defs@.take(i + 1)));
        i = i + 1;
    }
    assert(defs@.take(defs.len() as int) =~= defs@);
}

/// The URLs of the images that stand alone in a paragraph (not badges) in the body, in order,
/// looking into quotes, list items and definitions.
pub fn image_urls(doc: &Document) -> (r: Vec<String>)
    ensures
        texts(r@) == blocks_images(doc.blocks@),
{
    let mut urls: Vec<String> = Vec::new();
    collect_blocks(&doc.blocks, &mut urls);
    assert(texts(Seq::<String>::empty()) + blocks_images(doc.blocks@) =~= blocks_images(doc.blocks@));
    urls
}

/// `s` with each run of whitespace made one space and none left at either end, as splitting
/// at whitespace and joining the words with spaces gives; with whether a space is owed before
/// the next word.
pub open spec fn squeezed_gap(s: Seq<char>) -> (Seq<char>, bool)
    decreases s.len(),
{
    if s.len() == 0 {
        (seq![], false)
    } else {
        let (out, gap) = squeezed_gap(s.drop_last());
        let c = s.last();
        if is_ws(c) {
            (out, out.len() > 0)
        } else if gap {
            (out + seq![' ', c], false)
        } else {
            (out.push(c), false)
        }
    }
}

/// `s`'s words joined by single spaces.
pub open spec fn squeezed(s: Seq<char>) -> Seq<char> {
    squeezed_gap(s).0
}

/// A label cut to `max` columns: its words joined by single spaces, and when that is wider
/// than `max`, the characters that fit in one column less, then `…`.
pub open spec fn clipped(s: Seq<char>, max: nat) -> Seq<char> {
    let t = squeezed(s);
    if str_columns(t) <= max {
        t
    } else {
        fitting(t, if max >= 1 {
            (max - 1) as nat
        } else {
            0
        }) + seq!['…']
    }
}

fn squeeze(s: &str) -> (r: Vec<char>)
    ensures
        r@ == squeezed(s@),
{
    let cs = chars_of(s);
    let mut out: Vec<char> = Vec::new();
    let mut gap = false;
    let mut i: usize = 0;
    while i < cs.len()
        invariant
            i <= cs.len(),
            cs@ == s@,
            (out@, gap) == squeezed_gap(cs@.take(i as int)),
        decreases cs.len() - i,
    {
        let c = cs[i];
        assert(cs@.take(i + 1).drop_last() =~= cs@.take(i as int));
        if is_whitespace(c) {
            gap = out.len() > 0;
        } else {
            if gap {
                out.push(' ');
            }
            out.push(c);
            gap = false;
        }
        i = i + 1;
    }
    assert(cs@.take(cs.len() as int) =~= cs@);
    out
}

/// Cuts a label to `max` columns (see `clipped`).
pub fn clip(text: &str, max: usize) -> (r: String)
    ensures
        r@ == clipped(text@, max as nat),
{
    let t = string_of(&squeeze(text));
    if width(t.as_str()) <= max {
        return t;
    }
    let room = if max >= 1 {
        max - 1
    } else {
        0
    };
    let mut out = fit_chars(&t, room);
    out.push('…');
    string_of(&out)
}

/// The bullet of a list at `depth`, the three shapes in turn.
pub open spec fn bullet_spec(depth: nat) -> Seq<char> {
    if depth % 3 == 0 {
        "•"@
    } else if depth % 3 == 1 {
        "◦"@
    } else {
        "▪"@
    }
}

/// `s` with spaces before it to make it `w` characters long.
pub open spec fn pad_left(s: Seq<char>, w: nat) -> Seq<char> {
    if s.len() < w {
        spaces((w - s.len()) as nat) + s
    } else {
        s
    }
}

/// The marker of item `i` of a list of `count` items at `depth`: a box for a task, ticked
/// when done; for an ordered list starting at `start`, the item's number and a dot, right
/// aligned to the last number's width; else the depth's bullet; a space after.
pub open spec fn list_marker_spec(task: Option<bool>, start: Option<u64>, i: nat, count: nat, depth: nat) -> Seq<
    char,
> {
    match task {
        Some(true) => "☑ "@,
        Some(false) => "☐ "@,
        None => match start {
            Some(s) => {
                let last: nat = if count >= 1 {
                    (s + count - 1) as nat
                } else {
                    s as nat
                };
                pad_left(decimal((s + i) as nat) + seq!['.'], decimal(last).len() + 1) + seq![' ']
            },
            None => bullet_spec(depth) + seq![' '],
        },
    }
}

/// The marker drawn before item `index` of a list of `count` items (see `list_marker_spec`).
pub fn list_marker(task: Option<bool>, start: Option<u64>, index: usize, count: usize, depth: usize) -> (r: String)
    requires
        index < count,
        start matches Some(s) ==> s + count - 1 <= u64::MAX,
    ensures
        r@ == list_marker_spec(task, start, index as nat, count as nat, depth as nat),
{
    match task {
        Some(true) => "☑ ".to_string(),
        Some(false) => "☐ ".to_string(),
        None => match start {
            Some(s) => {
                let last = decimal_u64(s + (count - 1) as u64);
                let mut label = decimal_u64(s + index as u64);
                label.push('.');
                let mut out: Vec<char> = Vec::new();
                if label.len() <= last.len() {
                    push_n(&mut out, ' ', last.len() - label.len() + 1);
                }
                let ghost pad = out@;
                let mut k: usize = 0;
                while k < label.len()
                    invariant
                        k <= label.len(),
                        out@ == pad + label@.take(k as int),
                    decreases label.len() - k,
                {
                    out.push(label[k]);
                    assert(label@.take(k + 1) =~= label@.take(k as int).push(label@[k as int]));
                    k = k + 1;
                }
                assert(label@.take(label.len() as int) =~= label@);
                out.push(' ');
                assert(out@ =~= list_marker_spec(task, start, index as nat, count as nat, depth as nat));
                string_of(&out)
            },
            None => {
                let b = if depth % 3 == 0 {
                    "• "
                } else if depth % 3 == 1 {
                    "◦ "
                } else {
                    "▪ "
                };
                proof {
                    reveal_strlit("• ");
                    reveal_strlit("◦ ");
                    reveal_strlit("▪ ");
                    reveal_strlit("•");
                    reveal_strlit("◦");
                    reveal_strlit("▪");
                }
                b.to_string()
            },
        },
    }
}

} // verus!
