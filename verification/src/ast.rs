//! The parsed document model.
use vstd::prelude::*;
use crate::attrs::AttributeMap;
use crate::text::{append, lit, string_chars, to_string};

verus! {

#[derive(Debug, PartialEq, Eq, Default)]
pub struct Document {
    pub title: Option<Heading>,
    pub attributes: AttributeMap,
    pub blocks: Vec<Block>,
}

#[derive(Debug, PartialEq, Eq)]
pub enum Block {
    Heading(Heading),
    Paragraph(Paragraph),
    Admonition(AdmonitionBlock),
    UnorderedList(UnorderedList),
    OrderedList(OrderedList),
    DescriptionList(DescriptionList),
    Table(TableBlock),
    Listing(Listing),
    Literal(Listing),
    CalloutList(CalloutList),
    Example(CompoundBlock),
    Sidebar(CompoundBlock),
    Open(CompoundBlock),
    Quote(QuoteBlock),
    Passthrough(PassthroughBlock),
    Image(ImageBlock),
    Toc,
}

#[derive(Debug, PartialEq, Eq)]
pub struct ImageBlock {
    pub target: String,
    pub alt: String,
    pub width: Option<String>,
    pub height: Option<String>,
    pub metadata: BlockMetadata,
}

#[derive(Debug, PartialEq, Eq)]
pub struct Heading {
    pub level: u8,
    pub title: String,
    pub id: Option<String>,
    pub reftext: Option<String>,
    pub metadata: BlockMetadata,
}

#[derive(Debug, PartialEq, Eq)]
pub struct Paragraph {
    pub lines: Vec<String>,
    pub inlines: Vec<Inline>,
    pub id: Option<String>,
    pub reftext: Option<String>,
    pub metadata: BlockMetadata,
}

#[derive(Debug, PartialEq, Eq)]
pub struct AdmonitionBlock {
    pub variant: AdmonitionVariant,
    pub blocks: Vec<Block>,
    pub id: Option<String>,
    pub reftext: Option<String>,
    pub metadata: BlockMetadata,
}

#[derive(Debug, PartialEq, Eq)]
pub struct Listing {
    pub lines: Vec<String>,
    /// (line index, callout number) for each callout marker stripped from the lines.
    pub callouts: Vec<(usize, u32)>,
    pub reftext: Option<String>,
    pub metadata: BlockMetadata,
}

#[derive(Debug, Clone, Copy, PartialEq, Eq, Structural)]
pub enum OpenBlockContext {
    Abstract,
    Comment,
    PartIntro,
}

#[derive(Debug, PartialEq, Eq)]
pub struct CompoundBlock {
    pub blocks: Vec<Block>,
    pub reftext: Option<String>,
    pub context: Option<OpenBlockContext>,
    pub metadata: BlockMetadata,
}

#[derive(Debug, PartialEq, Eq)]
pub struct QuoteBlock {
    pub blocks: Vec<Block>,
    pub content: Option<String>,
    pub attribution: Option<String>,
    pub citetitle: Option<String>,
    pub is_verse: bool,
    pub reftext: Option<String>,
    pub metadata: BlockMetadata,
}

#[derive(Debug, PartialEq, Eq)]
pub struct PassthroughBlock {
    pub content: String,
    pub reftext: Option<String>,
    pub metadata: BlockMetadata,
}

#[derive(Debug, PartialEq, Eq)]
pub struct CalloutList {
    pub items: Vec<CalloutItem>,
    pub metadata: BlockMetadata,
}

#[derive(Debug, PartialEq, Eq)]
pub struct CalloutItem {
    pub number: u32,
    pub inlines: Vec<Inline>,
}

#[derive(Debug, PartialEq, Eq)]
pub struct TableBlock {
    pub header: Option<TableRow>,
    pub rows: Vec<TableRow>,
    pub reftext: Option<String>,
    pub metadata: BlockMetadata,
}

#[derive(Debug, PartialEq, Eq)]
pub struct TableRow {
    pub cells: Vec<TableCell>,
}

#[derive(Debug, PartialEq, Eq)]
pub struct TableCell {
    pub content: String,
    pub inlines: Vec<Inline>,
    pub blocks: Vec<Block>,
    pub colspan: usize,
    pub rowspan: usize,
    pub style: Option<String>,
}

#[derive(Debug, PartialEq, Eq, Default)]
pub struct BlockMetadata {
    pub id: Option<String>,
    pub title: Option<String>,
    pub style: Option<String>,
    pub role: Option<String>,
    pub attributes: AttributeMap,
    pub options: Vec<String>,
    pub roles: Vec<String>,
}

#[derive(Debug, PartialEq, Eq)]
pub struct UnorderedList {
    pub items: Vec<ListItem>,
    pub reftext: Option<String>,
    pub metadata: BlockMetadata,
}

#[derive(Debug, PartialEq, Eq)]
pub struct OrderedList {
    pub items: Vec<ListItem>,
    pub reftext: Option<String>,
    pub metadata: BlockMetadata,
}

#[derive(Debug, PartialEq, Eq)]
pub struct ListItem {
    pub blocks: Vec<Block>,
}

#[derive(Debug, PartialEq, Eq)]
pub struct DescriptionList {
    pub items: Vec<DescriptionListItem>,
    pub reftext: Option<String>,
    pub metadata: BlockMetadata,
}

#[derive(Debug, PartialEq, Eq)]
pub struct DescriptionListItem {
    pub terms: Vec<DescriptionListTerm>,
    pub description: Option<ListItem>,
}

#[derive(Debug, PartialEq, Eq)]
pub struct DescriptionListTerm {
    pub text: String,
    pub inlines: Vec<Inline>,
}

#[derive(Debug, PartialEq, Eq)]
pub enum Inline {
    Text(String),
    Span(InlineSpan),
    Link(InlineLink),
    Xref(InlineXref),
    Anchor(InlineAnchor),
    Passthrough(String),
    Image(InlineImage),
    Icon(InlineIcon),
    Footnote(InlineFootnote),
}

#[derive(Debug, PartialEq, Eq)]
pub struct InlineImage {
    pub target: String,
    pub alt: String,
    pub width: Option<String>,
    pub height: Option<String>,
}

#[derive(Debug, PartialEq, Eq)]
pub struct InlineIcon {
    pub name: String,
    pub size: Option<String>,
    pub title: Option<String>,
    pub role: Option<String>,
}

#[derive(Debug, PartialEq, Eq)]
pub struct InlineFootnote {
    pub inlines: Vec<Inline>,
}

#[derive(Debug, Clone, Copy, PartialEq, Eq, Structural)]
pub enum AdmonitionVariant {
    Note,
    Tip,
    Important,
    Caution,
    Warning,
}

#[derive(Debug, PartialEq, Eq)]
pub struct InlineSpan {
    pub variant: InlineVariant,
    pub form: InlineForm,
    pub inlines: Vec<Inline>,
}

#[derive(Debug, PartialEq, Eq)]
pub struct InlineLink {
    pub target: String,
    pub text: Vec<Inline>,
    pub bare: bool,
    pub window: Option<String>,
}

#[derive(Debug, PartialEq, Eq)]
pub struct InlineXref {
    pub target: String,
    pub text: Vec<Inline>,
    pub shorthand: bool,
    pub explicit_text: bool,
}

#[derive(Debug, PartialEq, Eq)]
pub struct InlineAnchor {
    pub id: String,
    pub reftext: Option<String>,
    pub inlines: Vec<Inline>,
}

#[derive(Debug, Clone, Copy, PartialEq, Eq, Structural)]
pub enum InlineVariant {
    Strong,
    Emphasis,
    Monospace,
    Subscript,
    Superscript,
}

#[derive(Debug, Clone, Copy, PartialEq, Eq, Structural)]
pub enum InlineForm {
    Constrained,
    Unconstrained,
}

/// The text an inline shows, without markup.
pub open spec fn inline_text(i: Inline) -> Seq<char>
    decreases i,
{
    match i {
        Inline::Text(t) => t@,
        Inline::Span(s) => inlines_text(s.inlines@),
        Inline::Link(l) => inlines_text(l.text@),
        Inline::Xref(x) => inlines_text(x.text@),
        Inline::Anchor(a) => inlines_text(a.inlines@),
        Inline::Passthrough(raw) => raw@,
        Inline::Image(img) => img.alt@,
        Inline::Icon(icon) => Seq::empty(),
        Inline::Footnote(f) => Seq::empty(),
    }
}

/// The concatenated text of a sequence of inlines.
pub open spec fn inlines_text(s: Seq<Inline>) -> Seq<char>
    decreases s,
{
    if s.len() == 0 {
        Seq::empty()
    } else {
        inlines_text(s.subrange(0, s.len() - 1)) + inline_text(s[s.len() - 1])
    }
}

/// Appends the plain text of each inline in `inlines` to `out`.
pub fn append_inlines_text(out: &mut Vec<char>, inlines: &Vec<Inline>)
    ensures
        final(out)@ == old(out)@ + inlines_text(inlines@),
    decreases inlines,
{
    let mut i: usize = 0;
    while i < inlines.len()
        invariant
            i <= inlines@.len(),
            out@ == old(out)@ + inlines_text(inlines@.subrange(0, i as int)),
        decreases inlines.len() - i,
    {
        let ghost before = out@;
        append_inline_text(out, &inlines[i]);
        assert(inlines@.subrange(0, i + 1).subrange(0, i as int) =~= inlines@.subrange(0, i as int));
        i += 1;
        assert(out@ =~= old(out)@ + inlines_text(inlines@.subrange(0, i as int)));
    }
    assert(inlines@.subrange(0, inlines@.len() as int) =~= inlines@);
}

/// Appends the plain text of one inline to `out`.
pub fn append_inline_text(out: &mut Vec<char>, inline: &Inline)
    ensures
        final(out)@ == old(out)@ + inline_text(*inline),
    decreases inline,
{
    match inline {
        Inline::Text(t) => {
            let cs = string_chars(t);
            append(out, &cs);
        },
        Inline::Span(s) => append_inlines_text(out, &s.inlines),
        Inline::Link(l) => append_inlines_text(out, &l.text),
        Inline::Xref(x) => append_inlines_text(out, &x.text),
        Inline::Anchor(a) => append_inlines_text(out, &a.inlines),
        Inline::Passthrough(raw) => {
            let cs = string_chars(raw);
            append(out, &cs);
        },
        Inline::Image(img) => {
            let cs = string_chars(&img.alt);
            append(out, &cs);
        },
        Inline::Icon(_) => {
            assert(out@ =~= old(out)@ + Seq::<char>::empty());
        },
        Inline::Footnote(_) => {
            assert(out@ =~= old(out)@ + Seq::<char>::empty());
        },
    }
}

/// The plain text of a sequence of inlines.
pub fn inlines_plain_text(inlines: &Vec<Inline>) -> (r: Vec<char>)
    ensures
        r@ == inlines_text(inlines@),
{
    let mut out: Vec<char> = Vec::new();
    append_inlines_text(&mut out, inlines);
    assert(out@ =~= inlines_text(inlines@));
    out
}

impl Inline {
    /// The text this inline shows, with its markup removed.
    pub fn plain_text(&self) -> (r: String)
        ensures
            r@ == inline_text(*self),
    {
        let mut out: Vec<char> = Vec::new();
        append_inline_text(&mut out, self);
        assert(out@ =~= inline_text(*self));
        to_string(&out)
    }
}

impl Paragraph {
    /// The text of the paragraph's inlines, with their markup removed.
    pub fn plain_text(&self) -> (r: String)
        ensures
            r@ == inlines_text(self.inlines@),
    {
        let out = inlines_plain_text(&self.inlines);
        to_string(&out)
    }
}

pub open spec fn variant_name(v: AdmonitionVariant) -> Seq<char> {
    match v {
        AdmonitionVariant::Note => "note"@,
        AdmonitionVariant::Tip => "tip"@,
        AdmonitionVariant::Important => "important"@,
        AdmonitionVariant::Caution => "caution"@,
        AdmonitionVariant::Warning => "warning"@,
    }
}

pub open spec fn variant_label(v: AdmonitionVariant) -> Seq<char> {
    match v {
        AdmonitionVariant::Note => "Note"@,
        AdmonitionVariant::Tip => "Tip"@,
        AdmonitionVariant::Important => "Important"@,
        AdmonitionVariant::Caution => "Caution"@,
        AdmonitionVariant::Warning => "Warning"@,
    }
}

impl AdmonitionVariant {
    /// The lower-case name of the variant.
    pub fn as_str(&self) -> (r: &'static str)
        ensures
            r@ == variant_name(*self),
    {
        match self {
            AdmonitionVariant::Note => "note",
            AdmonitionVariant::Tip => "tip",
            AdmonitionVariant::Important => "important",
            AdmonitionVariant::Caution => "caution",
            AdmonitionVariant::Warning => "warning",
        }
    }

    /// The capitalised label of the variant.
    pub fn label(&self) -> (r: &'static str)
        ensures
            r@ == variant_label(*self),
    {
        match self {
            AdmonitionVariant::Note => "Note",
            AdmonitionVariant::Tip => "Tip",
            AdmonitionVariant::Important => "Important",
            AdmonitionVariant::Caution => "Caution",
            AdmonitionVariant::Warning => "Warning",
        }
    }
}

impl BlockMetadata {
    /// Metadata with nothing set.
    pub fn new() -> (r: Self)
        ensures
            r.id is None,
            r.title is None,
            r.style is None,
            r.role is None,
            r.attributes@ == Map::<Seq<char>, Seq<char>>::empty(),
            r.options@.len() == 0,
            r.roles@.len() == 0,
    {
        BlockMetadata {
            id: None,
            title: None,
            style: None,
            role: None,
            attributes: AttributeMap::new(),
            options: Vec::new(),
            roles: Vec::new(),
        }
    }
}

} // verus!
