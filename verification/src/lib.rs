//! An AsciiDoc parser and HTML renderer: text is normalized, parsed into a
//! document of blocks and inlines, prepared (sections, footnotes, cross
//! references) and rendered as HTML.
pub mod text;
pub mod attrs;
pub mod ast;
pub mod inline;
pub mod normalize;
pub mod meta;
pub mod header;
pub mod parser;
pub mod blocks;
pub mod lists;
pub mod tables;
pub mod prepare;
pub mod render;
pub mod preprocess;

pub use ast::{
    AdmonitionBlock, AdmonitionVariant, Block, Document, Heading, Inline, InlineAnchor,
    InlineFootnote, InlineForm, InlineImage, InlineLink, InlineSpan, InlineVariant, InlineXref,
    Paragraph,
};
pub use attrs::AttributeMap;
pub use inline::{SpannedInline, parse_inlines, parse_spanned_inlines};
pub use parser::parse_document;
pub use prepare::{
    AdmonitionBlock as PreparedAdmonitionBlock, AnchorInline, Author, CompoundBlock, DocumentBlock,
    DocumentSection, Footnote, FootnoteInline, ImageBlock, ImageInline, LinkInline, ParagraphBlock,
    PassthroughBlock, PassthroughInline, PreparedBlock, PreparedInline, Revision, SectionBlock,
    SpanInline, TableBlock, TableCell, TableRow, TextInline, XrefInline, prepare_document,
};
pub use render::{render_html, render_prepared_html};
