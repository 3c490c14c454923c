//! The parsed form of a Markdown document: blocks, inlines, footnotes and front matter.
use std::ops::Range;
use vstd::prelude::*;

use crate::text::push_char;

verus! {

#[derive(Debug, Default, PartialEq)]
pub struct Document {
    pub front_matter: Option<FrontMatter>,
    pub blocks: Vec<Block>,
    pub footnotes: Vec<Footnote>,
}

#[derive(Debug, Clone, PartialEq, Eq)]
pub struct FrontMatter {
    pub format: MetaFormat,
    pub text: String,
}

#[derive(Debug, Clone, Copy, PartialEq, Eq, Structural)]
pub enum MetaFormat {
    Yaml,
    Toml,
}

impl FrontMatter {
    /// The name of the front matter's language, for highlighting.
    pub fn language(&self) -> (r: &'static str)
        ensures
            self.format == MetaFormat::Yaml ==> r@ == "yaml"@,
            self.format == MetaFormat::Toml ==> r@ == "toml"@,
    {
        match self.format {
            MetaFormat::Yaml => "yaml",
            MetaFormat::Toml => "toml",
        }
    }
}

#[derive(Debug, PartialEq)]
pub struct Block {
    pub kind: BlockKind,
    pub span: Range<usize>,
}

#[derive(Debug, PartialEq)]
pub enum BlockKind {
    Heading { level: u8, content: Vec<Inline> },
    Paragraph(Vec<Inline>),
    CodeBlock { lang: Option<String>, code: String },
    BlockQuote { alert: Option<Alert>, blocks: Vec<Block> },
    List(List),
    DefinitionList(Vec<Definition>),
    Table(Table),
    Rule,
    Html(String),
}

#[derive(Debug, Clone, Copy, PartialEq, Eq, Structural)]
pub enum Alert {
    Note,
    Tip,
    Important,
    Warning,
    Caution,
}

impl Alert {
    pub open spec fn label_spec(self) -> Seq<char> {
        match self {
            Alert::Note => "Note"@,
            Alert::Tip => "Tip"@,
            Alert::Important => "Important"@,
            Alert::Warning => "Warning"@,
            Alert::Caution => "Caution"@,
        }
    }

    pub open spec fn icon_spec(self) -> Seq<char> {
        match self {
            Alert::Note => "●"@,
            Alert::Tip => "✦"@,
            Alert::Important => "◆"@,
            Alert::Warning => "▲"@,
            Alert::Caution => "■"@,
        }
    }

    /// The alert's title, as GitHub writes it.
    pub fn label(self) -> (r: &'static str)
        ensures
            r@ == self.label_spec(),
    {
        match self {
            Alert::Note => "Note",
            Alert::Tip => "Tip",
            Alert::Important => "Important",
            Alert::Warning => "Warning",
            Alert::Caution => "Caution",
        }
    }

    /// The symbol drawn before the alert's title.
    pub fn icon(self) -> (r: &'static str)
        ensures
            r@ == self.icon_spec(),
    {
        match self {
            Alert::Note => "●",
            Alert::Tip => "✦",
            Alert::Important => "◆",
            Alert::Warning => "▲",
            Alert::Caution => "■",
        }
    }
}

#[derive(Debug, PartialEq)]
pub struct Definition {
    pub term: Vec<Inline>,
    pub details: Vec<Vec<Block>>,
}

#[derive(Debug, PartialEq)]
pub struct List {
    pub start: Option<u64>,
    pub tight: bool,
    pub items: Vec<ListItem>,
}

#[derive(Debug, PartialEq)]
pub struct ListItem {
    pub task: Option<bool>,
    pub blocks: Vec<Block>,
}

#[derive(Debug, PartialEq)]
pub struct Table {
    pub alignments: Vec<Alignment>,
    pub header: Vec<Vec<Inline>>,
    pub rows: Vec<Vec<Vec<Inline>>>,
}

#[derive(Debug, Clone, Copy, PartialEq, Eq, Structural)]
pub enum Alignment {
    Left,
    Center,
    Right,
}

impl Default for Alignment {
    fn default() -> (r: Self)
        ensures
            r == Alignment::Left,
    {
        Alignment::Left
    }
}

#[derive(Debug, PartialEq)]
pub struct Footnote {
    pub label: String,
    pub blocks: Vec<Block>,
}

#[derive(Debug, PartialEq)]
pub enum Inline {
    Text(String),
    Code(String),
    Math { display: bool, source: String },
    Emphasis(Vec<Inline>),
    Strong(Vec<Inline>),
    Strikethrough(Vec<Inline>),
    Link { content: Vec<Inline>, url: String, title: String },
    WikiLink { target: String, content: Vec<Inline> },
    Image { alt: Vec<Inline>, url: String },
    FootnoteRef(String),
    Html(String),
    SoftBreak,
    HardBreak,
}

/// The text an inline reads as: its characters, children flattened, breaks as spaces and
/// footnote references as `[label]`.
pub open spec fn plain_inline(x: Inline) -> Seq<char>
    decreases x,
{
    match x {
        Inline::Text(s) => s@,
        Inline::Code(s) => s@,
        Inline::Html(s) => s@,
        Inline::Math { source, .. } => source@,
        Inline::Emphasis(c) => plain_seq(c@),
        Inline::Strong(c) => plain_seq(c@),
        Inline::Strikethrough(c) => plain_seq(c@),
        Inline::Link { content, .. } => plain_seq(content@),
        Inline::WikiLink { content, .. } => plain_seq(content@),
        Inline::Image { alt, .. } => plain_seq(alt@),
        Inline::FootnoteRef(label) => seq!['['] + label@ + seq![']'],
        Inline::SoftBreak => seq![' '],
        Inline::HardBreak => seq![' '],
    }
}

/// The plain text of a run of inlines, one after another.
pub open spec fn plain_seq(s: Seq<Inline>) -> Seq<char>
    decreases s,
{
    if s.len() == 0 {
        seq![]
    } else {
        plain_seq(s.drop_last()) + plain_inline(s.last())
    }
}

/// The inlines' text without formatting.
pub fn plain_text(inlines: &Vec<Inline>) -> (r: String)
    ensures
        r@ == plain_seq(inlines@),
{
    let mut out = String::new();
    push_plain(inlines, &mut out);
    out
}

fn push_plain(inlines: &Vec<Inline>, out: &mut String)
    ensures
        final(out)@ == old(out)@ + plain_seq(inlines@),
    decreases inlines,
{
    let mut i: usize = 0;
    while i < inlines.len()
        invariant
            i <= inlines.len(),
            out@ == old(out)@ + plain_seq(inlines@.take(i as int)),
        decreases inlines.len() - i,
    {
        let inline = &inlines[i];
        let ghost pre = out@;
        assert(inlines@.take(i + 1).drop_last() == inlines@.take(i as int));
        match inline {
            Inline::Text(s) => out.append(s.as_str()),
            Inline::Code(s) => out.append(s.as_str()),
            Inline::Html(s) => out.append(s.as_str()),
            Inline::Math { source, .. } => out.append(source.as_str()),
            Inline::Emphasis(c) => push_plain(c, out),
            Inline::Strong(c) => push_plain(c, out),
            Inline::Strikethrough(c) => push_plain(c, out),
            Inline::Link { content, .. } => push_plain(content, out),
            Inline::WikiLink { content, .. } => push_plain(content, out),
            Inline::Image { alt, .. } => push_plain(alt, out),
            Inline::FootnoteRef(label) => {
                push_char(out, '[');
                out.append(label.as_str());
                push_char(out, ']');
            },
            Inline::SoftBreak => push_char(out, ' '),
            Inline::HardBreak => push_char(out, ' '),
        }
        assert(out@ =~= pre + plain_inline(*inline));
        i = i + 1;
    }
    assert(inlines@.take(inlines.len() as int) == inlines@);
}

} // verus!
