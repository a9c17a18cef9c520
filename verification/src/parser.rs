//! The block parser: document header, then blocks line by line.
use vstd::prelude::*;
use crate::ast::{
    AdmonitionBlock, AdmonitionVariant, Block, BlockMetadata, CompoundBlock, Document, Heading,
    Listing, OpenBlockContext, Paragraph, PassthroughBlock, QuoteBlock,
};
use crate::attrs::AttributeMap;
use crate::blocks::{
    make_listing_from_lines, parse_admonition_paragraph, parse_block_image, parse_callout_list,
    parse_delimited_block, apply_prelude_to_image,
};
use crate::header::{parse_atx_heading, parse_attribute_entry_at, parse_document_header, parse_heading};
use crate::inline::parse_inline_chars;
use crate::lists::{parse_description_list, parse_ordered_list, parse_unordered_list};
use crate::meta::{
    style_variant, string_views,
    clear_resolved_style, is_comment_line, opt_is, parse_attribute_list_line, parse_block_anchor,
    parse_delimited_block_marker, style_admonition, try_parse_block_prelude, BlockKind,
    BlockPrelude, PendingAnchor,
};
use crate::normalize::normalize_chars;
use crate::tables::parse_table;
use crate::text::{
    count_leading, cut, eq_str, is_alphanumeric, is_blank, is_whitespace, join_str, lines,
    string_chars, to_chars, to_string, trim, trim_end, all_equal, views, join_spec,
};

verus! {

/// Bounds the nesting depth of the recursive block parser. The depth of nested
/// blocks never exceeds the number of lines, and each level of nesting uses a
/// bounded number of nested calls, so a fuel proportional to the line count is
/// never exhausted by real input.
pub fn initial_fuel(line_count: usize) -> (r: usize)
    ensures
        r > 0,
        r == if line_count < usize::MAX / 16 - 1 {
            16 * (line_count + 1)
        } else {
            usize::MAX as int
        },
{
    if line_count < usize::MAX / 16 - 1 {
        16 * (line_count + 1)
    } else {
        usize::MAX
    }
}

/// Parses an AsciiDoc document.
pub fn parse_document(input: &str) -> (r: Document)
    ensures
        input@.len() == 0 ==> r.title is None && r.blocks@.len() == 0 && r.attributes@
            == Map::<Seq<char>, Seq<char>>::empty(),
        r.title matches Some(h) ==> h.level == 0,
        input@.len() > 0 ==> exists|ls: Seq<Vec<char>>|
            #[trigger] crate::text::views(ls) == crate::text::lines_spec(
                crate::normalize::normalize_spec(input@, true),
            ) && (crate::header::document_title_spec(ls) matches Some(t) ==> (r.title matches Some(h)
                && h.title@ == t && h.id is None && h.reftext is None)) && (no_implicit_author(ls) ==> match crate::header::header_entries(
                ls,
                header_entries_start(ls),
                Map::empty(),
                false,
            ) {
                Some((end, attrs, false)) => simple_document(ls.subrange(end, ls.len() as int)) ==> ({
                    let body = ls.subrange(end, ls.len() as int);
                    let acc = document_acc(body, body.len() as int, true, true, header_title(ls), attrs);
                    &&& items_match(r.blocks@, close_open(acc.0, acc.1))
                    &&& heading_view(r.title) == acc.2
                    &&& r.attributes@ == acc.3
                }),
                _ => true,
            }),
{
    let cs = to_chars(input);
    if cs.len() == 0 {
        return Document { title: None, attributes: AttributeMap::new(), blocks: Vec::new() };
    }
    let normalized = normalize_chars(&cs, true);
    let all_lines = lines(&normalized);
    let (title, attributes, index) = parse_document_header(&all_lines);
    let mut title = title;
    let mut attributes = attributes;
    let body = vstd::slice::slice_subrange(all_lines.as_slice(), index, all_lines.len());
    let fuel = initial_fuel(all_lines.len());
    let ghost title0 = title;
    let ghost attributes0 = attributes@;
    let blocks = parse_blocks_from_lines(body, &mut title, true, &mut attributes, true, fuel);
    proof {
        assert(body@ =~= all_lines@.subrange(index as int, all_lines@.len() as int));
        assert(heading_view(title0) == header_title(all_lines@));
    }
    assert(crate::text::views(all_lines@) == crate::text::lines_spec(
        crate::normalize::normalize_spec(input@, true),
    ));
    Document { title, attributes, blocks }
}

/// The document has no title, or no implicit author line under its title.
pub open spec fn no_implicit_author(ls: Seq<Vec<char>>) -> bool {
    crate::header::document_title_spec(ls) is None || !(crate::header::author_line_candidate(
        ls,
        crate::header::title_end(ls),
    ) && crate::header::entry_authors(
        crate::text::split_spec(crate::text::trim_spec(ls[crate::header::title_end(ls)]@), ';'),
    ).len() > 0)
}

/// Where the attribute entries of the header start: after the title, or after the
/// leading comment lines when there is none.
pub open spec fn header_entries_start(ls: Seq<Vec<char>>) -> int {
    if crate::header::document_title_spec(ls) is Some {
        crate::header::title_end(ls)
    } else {
        crate::header::comments_end(ls, 0)
    }
}

/// The document title's level and text, as the header reads it.
pub open spec fn header_title(ls: Seq<Vec<char>>) -> Option<(u8, Seq<char>)> {
    match crate::header::document_title_spec(ls) {
        Some(t) => Some((0u8, t)),
        None => None,
    }
}

/// Strings holding the given character sequences.
pub fn strings_of(v: &[Vec<char>]) -> (r: Vec<String>)
    ensures
        r@.len() == v@.len(),
        forall|k: int| 0 <= k < v@.len() ==> (#[trigger] r@[k])@ == v@[k]@,
{
    let mut r: Vec<String> = Vec::new();
    let mut i: usize = 0;
    while i < v.len()
        invariant
            i <= v@.len(),
            r@.len() == i,
            forall|k: int| 0 <= k < i ==> (#[trigger] r@[k])@ == v@[k]@,
        decreases v.len() - i,
    {
        r.push(to_string(&v[i]));
        i += 1;
    }
    r
}

pub fn opt_string(v: &Option<Vec<char>>) -> (r: Option<String>)
    ensures
        r is Some <==> v is Some,
        r matches Some(s) ==> s@ == v->0@,
{
    match v {
        Some(x) => Some(to_string(x)),
        None => None,
    }
}

/// A paragraph from its lines; its inlines are parsed from the lines joined by newlines.
pub fn make_paragraph_full(
    lines: &Vec<Vec<char>>,
    id: Option<String>,
    reftext: Option<String>,
    metadata: BlockMetadata,
) -> (r: Paragraph)
    ensures
        r.lines@.len() == lines@.len(),
        forall|k: int| 0 <= k < lines@.len() ==> (#[trigger] r.lines@[k])@ == lines@[k]@,
        r.id == id,
        r.reftext == reftext,
        r.metadata == metadata,
{
    let joined = join_str(lines, "\n");
    Paragraph { inlines: parse_inline_chars(&joined), lines: strings_of(lines), id, reftext, metadata }
}

/// A plain paragraph of `lines`, with no id, reftext or metadata.
pub fn make_paragraph(lines: &Vec<Vec<char>>) -> (r: Paragraph)
    ensures
        r.lines@.len() == lines@.len(),
        forall|k: int| 0 <= k < lines@.len() ==> (#[trigger] r.lines@[k])@ == lines@[k]@,
        r.id is None && r.reftext is None,
        r.metadata.style is None && r.metadata.id is None && r.metadata.attributes@ == Map::<
            Seq<char>,
            Seq<char>,
        >::empty(),
{
    make_paragraph_full(lines, None, None, BlockMetadata::new())
}

fn single_paragraph(lines: &Vec<Vec<char>>) -> (r: Vec<Block>)
    ensures
        r@.len() == 1,
        r@[0] matches Block::Paragraph(p) && p.lines@.len() == lines@.len() && (forall|k: int|
            0 <= k < lines@.len() ==> (#[trigger] p.lines@[k])@ == lines@[k]@),
{
    let mut v: Vec<Block> = Vec::new();
    v.push(Block::Paragraph(make_paragraph(lines)));
    v
}

/// Paragraph-like content, or an admonition when its first line has an admonition prefix.
pub fn make_paragraph_like_block(lines: Vec<Vec<char>>) -> (r: Block)
    ensures
        ({
            let prefix = if lines@.len() > 0 {
                crate::meta::admonition_prefix_spec(lines@[0]@)
            } else {
                None
            };
            match prefix {
                Some(p) => {
                    &&& r matches Block::Admonition(a)
                    &&& a.variant == p.0
                    &&& a.blocks@.len() == 1
                    &&& a.blocks@[0] matches Block::Paragraph(para)
                    &&& para.lines@.len() == lines@.len()
                    &&& para.lines@[0]@ == p.1
                    &&& forall|k: int| 1 <= k < lines@.len() ==> (#[trigger] para.lines@[k])@ == lines@[k]@
                },
                None => block_target(r) == paragraph_target(None, first_line_indented(lines@)),
            }
        }),
{
    if lines.len() > 0 {
        match crate::meta::parse_admonition_prefix(&lines[0]) {
            Some((variant, first_line)) => {
                let mut paragraph_lines = lines;
                paragraph_lines.set(0, first_line);
                return Block::Admonition(
                    AdmonitionBlock {
                        variant,
                        blocks: single_paragraph(&paragraph_lines),
                        id: None,
                        reftext: None,
                        metadata: BlockMetadata::new(),
                    },
                );
            },
            None => {},
        }
    }
    make_block_from_paragraph(lines, None, None, BlockMetadata::new())
}

/// The kinds of block a styled paragraph or open block can become.
#[derive(Debug, Clone, Copy, PartialEq, Eq, Structural)]
pub enum BlockTarget {
    Admonition(AdmonitionVariant),
    Literal,
    Example,
    Sidebar,
    Open(Option<OpenBlockContext>),
    Listing,
    Quote,
    Verse,
    Passthrough,
    Paragraph,
    Other,
}

/// The kind of a block.
pub open spec fn block_target(b: Block) -> BlockTarget {
    match b {
        Block::Admonition(a) => BlockTarget::Admonition(a.variant),
        Block::Literal(_) => BlockTarget::Literal,
        Block::Example(_) => BlockTarget::Example,
        Block::Sidebar(_) => BlockTarget::Sidebar,
        Block::Open(c) => BlockTarget::Open(c.context),
        Block::Listing(_) => BlockTarget::Listing,
        Block::Quote(q) => if q.is_verse {
            BlockTarget::Verse
        } else {
            BlockTarget::Quote
        },
        Block::Passthrough(_) => BlockTarget::Passthrough,
        Block::Paragraph(_) => BlockTarget::Paragraph,
        _ => BlockTarget::Other,
    }
}

/// The open-block context a style names.
pub open spec fn open_context(s: Seq<char>) -> Option<OpenBlockContext> {
    if s == "abstract"@ {
        Some(OpenBlockContext::Abstract)
    } else if s == "comment"@ {
        Some(OpenBlockContext::Comment)
    } else if s == "partintro"@ {
        Some(OpenBlockContext::PartIntro)
    } else {
        None
    }
}

/// What a paragraph becomes: its style decides (`normal` keeps a paragraph); an
/// unstyled paragraph whose first line starts with a space or tab is literal.
pub open spec fn paragraph_target(style: Option<Seq<char>>, indented: bool) -> BlockTarget {
    match style {
        Some(s) => if s == "normal"@ {
            BlockTarget::Paragraph
        } else if style_variant(s) is Some {
            BlockTarget::Admonition(style_variant(s)->0)
        } else if s == "literal"@ {
            BlockTarget::Literal
        } else if s == "example"@ {
            BlockTarget::Example
        } else if s == "sidebar"@ {
            BlockTarget::Sidebar
        } else if s == "open"@ || s == "abstract"@ || s == "partintro"@ || s == "comment"@ {
            BlockTarget::Open(open_context(s))
        } else if s == "listing"@ || s == "source"@ {
            BlockTarget::Listing
        } else if s == "quote"@ {
            BlockTarget::Quote
        } else if s == "verse"@ {
            BlockTarget::Verse
        } else if s == "pass"@ {
            BlockTarget::Passthrough
        } else if indented {
            BlockTarget::Literal
        } else {
            BlockTarget::Paragraph
        },
        None => if indented {
            BlockTarget::Literal
        } else {
            BlockTarget::Paragraph
        },
    }
}

/// The first line starts with a space or a tab.
pub open spec fn first_line_indented(lines: Seq<Vec<char>>) -> bool {
    lines.len() > 0 && lines[0]@.len() > 0 && (lines[0]@[0] == ' ' || lines[0]@[0] == '\t')
}

/// A style as a character sequence.
pub open spec fn style_view(style: Option<String>) -> Option<Seq<char>> {
    match style {
        Some(s) => Some(s@),
        None => None,
    }
}

/// Builds the block a paragraph's style asks for.
pub fn make_block_from_paragraph(
    lines: Vec<Vec<char>>,
    id: Option<String>,
    reftext: Option<String>,
    metadata: BlockMetadata,
) -> (r: Block)
    ensures
        block_target(r) == paragraph_target(style_view(metadata.style), first_line_indented(lines@)),
        block_target(r) == BlockTarget::Paragraph ==> (r matches Block::Paragraph(p) && p.lines@.len()
            == lines@.len()),
        r matches Block::Paragraph(p) ==> string_views(p.lines@) == views(lines@) && p.id == id && p.reftext
            == reftext && (style_view(metadata.style) == Some("normal"@) ==> p.metadata.style is None
            && p.metadata.attributes@ == metadata.attributes@.remove("style"@) && p.metadata.id == metadata.id
            && p.metadata.title == metadata.title) && (style_view(metadata.style) != Some("normal"@)
            ==> p.metadata == metadata),
        r matches Block::Literal(l) ==> string_views(l.lines@) == views(lines@) && l.callouts@.len() == 0
            && l.reftext == reftext && (style_view(metadata.style) != Some("literal"@) ==> l.metadata == metadata)
            && (style_view(metadata.style) == Some("literal"@) ==> l.metadata.style is None && l.metadata.id == (if metadata.id is Some {
            metadata.id
        } else {
            id
        })),
        r matches Block::Admonition(a) ==> a.reftext == reftext && a.id == (if metadata.id is Some {
            metadata.id
        } else {
            id
        }) && a.blocks@.len() == 1 && (a.blocks@[0] matches Block::Paragraph(q) && string_views(q.lines@)
            == views(lines@)),
        r matches Block::Passthrough(pt) ==> pt.content@ == join_spec(views(lines@), seq!['\n'])
            && pt.reftext == reftext && pt.metadata.style is None && pt.metadata.id == metadata.id,
{
    let ghost style0 = style_view(metadata.style);
    let ghost indented = first_line_indented(lines@);
    let mut metadata = metadata;
    let explicit_normal = opt_is(&metadata.style, "normal");
    if explicit_normal {
        clear_resolved_style(&mut metadata);
    }
    match style_admonition(&metadata) {
        Some(variant) => {
            if metadata.id.is_none() {
                metadata.id = id;
            }
            let block_id = crate::text::copy_opt(&metadata.id);
            return Block::Admonition(
                AdmonitionBlock {
                    variant,
                    blocks: single_paragraph(&lines),
                    id: block_id,
                    reftext,
                    metadata,
                },
            );
        },
        None => {},
    }
    if opt_is(&metadata.style, "literal") {
        if metadata.id.is_none() {
            metadata.id = id;
        }
        clear_resolved_style(&mut metadata);
        let ls = strings_of(&lines);
        assert(string_views(ls@) =~= views(lines@));
        return Block::Literal(
            Listing { lines: ls, callouts: Vec::new(), reftext, metadata },
        );
    }
    let is_example = opt_is(&metadata.style, "example");
    let is_sidebar = opt_is(&metadata.style, "sidebar");
    let is_open = opt_is(&metadata.style, "open");
    let is_abstract = opt_is(&metadata.style, "abstract");
    let is_partintro = opt_is(&metadata.style, "partintro");
    let is_comment = opt_is(&metadata.style, "comment");
    if is_example || is_sidebar || is_open || is_abstract || is_partintro || is_comment {
        if metadata.id.is_none() {
            metadata.id = id;
        }
        clear_resolved_style(&mut metadata);
        let blocks = single_paragraph(&lines);
        if is_example {
            return Block::Example(CompoundBlock { blocks, reftext, context: None, metadata });
        } else if is_sidebar {
            return Block::Sidebar(CompoundBlock { blocks, reftext, context: None, metadata });
        } else {
            let context = if is_abstract {
                Some(OpenBlockContext::Abstract)
            } else if is_comment {
                Some(OpenBlockContext::Comment)
            } else if is_partintro {
                Some(OpenBlockContext::PartIntro)
            } else {
                None
            };
            return Block::Open(CompoundBlock { blocks, reftext, context, metadata });
        }
    }
    if opt_is(&metadata.style, "listing") || opt_is(&metadata.style, "source") {
        if metadata.id.is_none() {
            metadata.id = id;
        }
        if opt_is(&metadata.style, "listing") {
            clear_resolved_style(&mut metadata);
        }
        return Block::Listing(make_listing_from_lines(&lines, reftext, metadata));
    }
    if opt_is(&metadata.style, "quote") {
        if metadata.id.is_none() {
            metadata.id = id;
        }
        clear_resolved_style(&mut metadata);
        let attribution = attr_copy(&metadata, "$2");
        let citetitle = attr_copy(&metadata, "$3");
        return Block::Quote(
            QuoteBlock {
                blocks: single_paragraph(&lines),
                content: None,
                attribution,
                citetitle,
                is_verse: false,
                reftext,
                metadata,
            },
        );
    }
    if opt_is(&metadata.style, "verse") {
        if metadata.id.is_none() {
            metadata.id = id;
        }
        clear_resolved_style(&mut metadata);
        let attribution = attr_copy(&metadata, "$2");
        let citetitle = attr_copy(&metadata, "$3");
        let content = to_string(&join_str(&lines, "\n"));
        return Block::Quote(
            QuoteBlock {
                blocks: Vec::new(),
                content: Some(content),
                attribution,
                citetitle,
                is_verse: true,
                reftext,
                metadata,
            },
        );
    }
    if opt_is(&metadata.style, "pass") {
        clear_resolved_style(&mut metadata);
        let content = to_string(&join_str(&lines, "\n"));
        proof {
            reveal_strlit("\n");
            assert("\n"@ =~= seq!['\n']);
        }
        return Block::Passthrough(PassthroughBlock { content, reftext, metadata });
    }
    if !explicit_normal && lines.len() > 0 && lines[0].len() > 0 && (lines[0][0] == ' '
        || lines[0][0] == '\t') {
        let ls = strings_of(&lines);
        assert(string_views(ls@) =~= views(lines@));
        return Block::Literal(
            Listing { lines: ls, callouts: Vec::new(), reftext, metadata },
        );
    }
    Block::Paragraph(make_paragraph_full(&lines, id, reftext, metadata))
}

/// A copy of a metadata attribute's value.
pub fn attr_copy(metadata: &BlockMetadata, key: &str) -> (r: Option<String>)
    ensures
        r is Some <==> metadata.attributes@.contains_key(key@),
        r matches Some(v) ==> v@ == metadata.attributes@[key@],
{
    match metadata.attributes.get(key) {
        Some(v) => Some(v.clone()),
        None => None,
    }
}

/// Appends a line to the last paragraph (or the paragraph of a trailing admonition).
pub fn append_to_last_paragraph(blocks: &mut Vec<Block>, line: Vec<char>)
    ensures
        final(blocks)@.len() >= old(blocks)@.len(),
        final(blocks)@.len() >= 1,
{
    let n = blocks.len();
    if n > 0 {
        let mut last = blocks.pop().unwrap();
        let handled = append_line_to_block(&mut last, &line);
        blocks.push(last);
        if handled {
            return;
        }
    }
    let mut v: Vec<Vec<char>> = Vec::new();
    v.push(line);
    blocks.push(make_paragraph_like_block(v));
}

fn append_line_to_paragraph(paragraph: &mut Paragraph, line: &[char])
    ensures
        final(paragraph).lines@.len() == old(paragraph).lines@.len() + 1,
        forall|k: int| 0 <= k < old(paragraph).lines@.len() ==> #[trigger] final(paragraph).lines@[k] == old(
            paragraph,
        ).lines@[k],
        final(paragraph).lines@.last()@ == line@,
        final(paragraph).id == old(paragraph).id && final(paragraph).reftext == old(paragraph).reftext,
        final(paragraph).metadata == old(paragraph).metadata,
{
    paragraph.lines.push(to_string(line));
    let mut cs: Vec<Vec<char>> = Vec::new();
    let mut i: usize = 0;
    while i < paragraph.lines.len()
        invariant
            i <= paragraph.lines@.len(),
        decreases paragraph.lines.len() - i,
    {
        cs.push(string_chars(&paragraph.lines[i]));
        i += 1;
    }
    let joined = join_str(&cs, "\n");
    paragraph.inlines = parse_inline_chars(&joined);
}

fn append_line_to_block(block: &mut Block, line: &[char]) -> (r: bool)
    ensures
        r == (*old(block) is Paragraph || (*old(block) matches Block::Admonition(a) && a.blocks@.len() > 0
            && a.blocks@.last() is Paragraph)),
        !r && !(*old(block) is Admonition) ==> *final(block) == *old(block),
        *old(block) matches Block::Admonition(a0) ==> (*final(block) matches Block::Admonition(a1) && a1.variant
            == a0.variant && a1.blocks@.len() == a0.blocks@.len() && (!r ==> a1.blocks@ == a0.blocks@)),
        *old(block) matches Block::Paragraph(p0) ==> (*final(block) matches Block::Paragraph(p1)
            && p1.lines@.len() == p0.lines@.len() + 1 && p1.lines@.last()@ == line@),
{
    match block {
        Block::Paragraph(paragraph) => {
            append_line_to_paragraph(paragraph, line);
            true
        },
        Block::Admonition(admonition) => {
            let n = admonition.blocks.len();
            if n == 0 {
                return false;
            }
            let mut inner = admonition.blocks.pop().unwrap();
            let ok = match &mut inner {
                Block::Paragraph(paragraph) => {
                    append_line_to_paragraph(paragraph, line);
                    true
                },
                _ => false,
            };
            admonition.blocks.push(inner);
            ok
        },
        _ => false,
    }
}

/// Metadata with nothing set.
pub open spec fn empty_metadata(m: BlockMetadata) -> bool {
    &&& m.id is None && m.title is None && m.style is None && m.role is None
    &&& m.attributes@ == Map::<Seq<char>, Seq<char>>::empty()
    &&& m.options@.len() == 0 && m.roles@.len() == 0
}

/// Line `i` is claimed by no block rule, an attribute entry aside: no delimiter,
/// comment, anchor, block attributes or title, heading, list, callout, table, table
/// of contents, image or admonition starts there.
pub open spec fn quiet_but_entry(lines: Seq<Vec<char>>, i: int) -> bool {
    let l = lines[i]@;
    &&& crate::meta::delimiter_spec(l) is None
    &&& !crate::header::comment_line_spec(l)
    &&& crate::meta::double_bracket_inner(l) is None
    &&& crate::meta::hash_anchor_inner(l) is None
    &&& crate::meta::prelude_len(views(lines), i) == 0
    &&& crate::header::atx_heading_spec(l) is None
    &&& crate::header::setext_heading_spec(lines, i) is None
    &&& !crate::lists::marker_at(lines, i, crate::meta::ListKind::Unordered, 1)
    &&& !crate::lists::marker_at(lines, i, crate::meta::ListKind::Ordered, 1)
    &&& !crate::lists::opens_description_list(lines, i)
    &&& crate::blocks::callout_items(views(lines), i, 0).len() == 0
    &&& !crate::tables::table_delimiter_line(l)
    &&& crate::text::trim_spec(l) != "toc::[]"@
    &&& crate::blocks::block_image_spec(l) is None
    &&& crate::meta::admonition_prefix_spec(l) is None
}

/// Line `i` is claimed by no block rule at all.
pub open spec fn quiet_line(lines: Seq<Vec<char>>, i: int) -> bool {
    quiet_but_entry(lines, i) && !crate::header::is_attribute_entry(lines[i]@)
}

/// Line `i` is an ATX heading (`= Title`, `## Title`) that no delimiter, comment,
/// anchor or block attribute line claims first.
pub open spec fn heading_line(lines: Seq<Vec<char>>, i: int) -> bool {
    let l = lines[i]@;
    &&& crate::meta::delimiter_spec(l) is None
    &&& !crate::header::comment_line_spec(l)
    &&& crate::meta::double_bracket_inner(l) is None
    &&& crate::meta::hash_anchor_inner(l) is None
    &&& crate::meta::prelude_len(views(lines), i) == 0
    &&& crate::header::atx_heading_spec(l) is Some
}

/// Line `i` is a one-line attribute entry (`:name: value`) that nothing else claims.
pub open spec fn entry_line(lines: Seq<Vec<char>>, i: int) -> bool {
    &&& quiet_but_entry(lines, i)
    &&& crate::header::is_attribute_entry(lines[i]@)
    &&& !crate::header::entry_continues(lines[i]@, crate::header::entry_sep(lines[i]@))
}

/// A line of a simple document: a line comment, an ATX heading, a one-line attribute
/// entry, or a line no rule claims that is blank or starts with neither a space nor a
/// tab.
pub open spec fn simple_line(lines: Seq<Vec<char>>, i: int) -> bool {
    let l = lines[i]@;
    ||| crate::header::comment_line_spec(l)
    ||| heading_line(lines, i)
    ||| entry_line(lines, i)
    ||| (quiet_line(lines, i) && (crate::normalize::blank_line(l) || !(l[0] == ' ' || l[0] == '\t')))
}

/// A document of prose paragraphs, headings, attribute entries and comments.
pub open spec fn simple_document(lines: Seq<Vec<char>>) -> bool {
    forall|i: int| 0 <= i < lines.len() ==> #[trigger] simple_line(lines, i)
}

/// A block of a simple document: whether it is a heading, its level, and its lines
/// (the heading's title alone, for a heading).
pub type SimpleItem = (bool, u8, Seq<Seq<char>>);

/// `items`, with the open paragraph closed when it has lines.
pub open spec fn close_open(items: Seq<SimpleItem>, open: Seq<Seq<char>>) -> Seq<SimpleItem> {
    if open.len() > 0 {
        items.push((false, 0u8, open))
    } else {
        items
    }
}

/// Reading the first `n` lines of a simple document: the blocks so far, the open
/// paragraph, the document title and the document attributes. A comment line is
/// skipped; a heading closes the paragraph and becomes the title when titles are
/// allowed, there is none yet, no block came before it and it has level 0, else a
/// block; an attribute entry outside a paragraph is stored when entries are taken; a
/// blank line closes the paragraph; any other line joins it.
pub open spec fn document_acc(
    lines: Seq<Vec<char>>,
    n: int,
    allow_title: bool,
    take_entries: bool,
    title0: Option<(u8, Seq<char>)>,
    attrs0: Map<Seq<char>, Seq<char>>,
) -> (Seq<SimpleItem>, Seq<Seq<char>>, Option<(u8, Seq<char>)>, Map<Seq<char>, Seq<char>>)
    decreases n,
{
    if n <= 0 {
        (Seq::empty(), Seq::empty(), title0, attrs0)
    } else {
        let (items, open, title, attrs) = document_acc(lines, n - 1, allow_title, take_entries, title0, attrs0);
        let l = lines[n - 1]@;
        if crate::header::comment_line_spec(l) {
            (items, open, title, attrs)
        } else if heading_line(lines, n - 1) {
            let a = crate::header::atx_heading_spec(l)->0;
            let closed = close_open(items, open);
            if allow_title && title is None && closed.len() == 0 && a.0 == 0 {
                (closed, Seq::empty(), Some(a), attrs)
            } else {
                (closed.push((true, a.0, seq![a.1])), Seq::empty(), title, attrs)
            }
        } else if take_entries && open.len() == 0 && crate::header::is_attribute_entry(l) {
            (items, open, title, attrs.insert(crate::header::entry_name(l, crate::header::entry_sep(l)), crate::header::entry_value(l, crate::header::entry_sep(l))))
        } else if crate::normalize::blank_line(l) {
            (close_open(items, open), Seq::empty(), title, attrs)
        } else {
            (items, open.push(l), title, attrs)
        }
    }
}

/// A parsed block is the simple-document block `it`: a heading of that level and
/// title, or a plain paragraph with those lines.
pub open spec fn item_matches(b: Block, it: SimpleItem) -> bool {
    if it.0 {
        b matches Block::Heading(h) && h.level == it.1 && it.2 == seq![h.title@]
    } else {
        b matches Block::Paragraph(p) && string_views(p.lines@) == it.2 && p.id is None && p.reftext is None
            && empty_metadata(p.metadata)
    }
}

/// The parsed blocks are the simple-document blocks, in order.
pub open spec fn items_match(bs: Seq<Block>, items: Seq<SimpleItem>) -> bool {
    &&& bs.len() == items.len()
    &&& forall|j: int| 0 <= j < bs.len() ==> item_matches(#[trigger] bs[j], items[j])
}

/// A title's level and text.
pub open spec fn heading_view(t: Option<Heading>) -> Option<(u8, Seq<char>)> {
    match t {
        Some(h) => Some((h.level, h.title@)),
        None => None,
    }
}

/// Turns the collected paragraph lines (if any) into a block.
fn flush_paragraph(
    blocks: &mut Vec<Block>,
    current_paragraph: &mut Vec<Vec<char>>,
    current_anchor: &mut Option<PendingAnchor>,
    current_prelude: &mut Option<BlockPrelude>,
)
    ensures
        old(current_paragraph)@.len() == 0 ==> final(blocks)@ == old(blocks)@,
        final(blocks)@.len() >= old(blocks)@.len(),
        final(current_paragraph)@.len() == 0,
        *final(current_anchor) is None,
        *final(current_prelude) is None,
        old(current_paragraph)@.len() > 0 && *old(current_anchor) is None && *old(current_prelude) is None
            && !first_line_indented(old(current_paragraph)@) ==> final(blocks)@.len() == old(blocks)@.len() + 1
            && final(blocks)@.drop_last() == old(blocks)@ && (final(blocks)@.last() matches Block::Paragraph(p)
            && string_views(p.lines@) == views(old(current_paragraph)@) && p.id is None && p.reftext is None
            && empty_metadata(p.metadata)),
{
    if current_paragraph.len() == 0 {
        *current_anchor = None;
        *current_prelude = None;
        return;
    }
    let mut lines: Vec<Vec<char>> = Vec::new();
    std::mem::swap(&mut lines, current_paragraph);
    let anchor = current_anchor.take();
    let prelude = current_prelude.take();
    let metadata = match prelude {
        Some(p) => p.metadata,
        None => BlockMetadata::new(),
    };
    let (id, reftext) = match &anchor {
        Some(a) => (Some(to_string(&a.id)), opt_string(&a.reftext)),
        None => (crate::text::copy_opt(&metadata.id), None),
    };
    blocks.push(make_block_from_paragraph(lines, id, reftext, metadata));
}

/// Applies a pending anchor to a block, moving a level-0 heading into the document title slot.
fn push_block(
    blocks: &mut Vec<Block>,
    title: &mut Option<Heading>,
    allow_document_title: bool,
    block: Block,
    anchor: Option<PendingAnchor>,
)
    ensures
        *final(title) == *old(title) || (*final(title) matches Some(h) && h.level == 0 && allow_document_title),
        ({
            let slot = allow_document_title && *old(title) is None && old(blocks)@.len() == 0 && (
            block matches Block::Heading(h) && h.level == 0);
            &&& slot ==> final(blocks)@ == old(blocks)@ && (*final(title) matches Some(t) && (block matches Block::Heading(
                h,
            ) && t.title == h.title && t.level == h.level))
            &&& !slot ==> *final(title) == *old(title) && final(blocks)@.len() == old(blocks)@.len() + 1
                && final(blocks)@.subrange(0, old(blocks)@.len() as int) == old(blocks)@
            &&& !slot && anchor is None ==> final(blocks)@ == old(blocks)@.push(block)
        }),
{
    match block {
        Block::Heading(heading) => {
            let mut heading = heading;
            match anchor {
                Some(a) => {
                    heading.id = Some(to_string(&a.id));
                    heading.reftext = opt_string(&a.reftext);
                },
                None => {},
            }
            if allow_document_title && heading.level == 0 && title.is_none() && blocks.len() == 0 {
                *title = Some(heading);
            } else {
                blocks.push(Block::Heading(heading));
            }
        },
        Block::Admonition(admonition) => {
            let mut admonition = admonition;
            match anchor {
                Some(a) => {
                    if admonition.id.is_none() {
                        admonition.id = Some(to_string(&a.id));
                    }
                    if admonition.reftext.is_none() {
                        admonition.reftext = opt_string(&a.reftext);
                    }
                },
                None => {},
            }
            blocks.push(Block::Admonition(admonition));
        },
        Block::UnorderedList(list) => {
            let mut list = list;
            anchor_metadata(&mut list.metadata, &mut list.reftext, anchor);
            blocks.push(Block::UnorderedList(list));
        },
        Block::DescriptionList(list) => {
            let mut list = list;
            anchor_metadata(&mut list.metadata, &mut list.reftext, anchor);
            blocks.push(Block::DescriptionList(list));
        },
        Block::OrderedList(list) => {
            let mut list = list;
            anchor_metadata(&mut list.metadata, &mut list.reftext, anchor);
            blocks.push(Block::OrderedList(list));
        },
        Block::Listing(listing) => {
            let mut listing = listing;
            anchor_metadata(&mut listing.metadata, &mut listing.reftext, anchor);
            blocks.push(Block::Listing(listing));
        },
        Block::Literal(listing) => {
            let mut listing = listing;
            anchor_metadata(&mut listing.metadata, &mut listing.reftext, anchor);
            blocks.push(Block::Literal(listing));
        },
        Block::Table(table) => {
            let mut table = table;
            anchor_metadata(&mut table.metadata, &mut table.reftext, anchor);
            blocks.push(Block::Table(table));
        },
        Block::Example(b) => {
            let mut b = b;
            anchor_metadata(&mut b.metadata, &mut b.reftext, anchor);
            blocks.push(Block::Example(b));
        },
        Block::Sidebar(b) => {
            let mut b = b;
            anchor_metadata(&mut b.metadata, &mut b.reftext, anchor);
            blocks.push(Block::Sidebar(b));
        },
        Block::Open(b) => {
            let mut b = b;
            anchor_metadata(&mut b.metadata, &mut b.reftext, anchor);
            blocks.push(Block::Open(b));
        },
        other => blocks.push(other),
    }
}

/// A pending anchor gives a block its id and reftext unless its metadata already has an id.
fn anchor_metadata(
    metadata: &mut BlockMetadata,
    reftext: &mut Option<String>,
    anchor: Option<PendingAnchor>,
)
    ensures
        match anchor {
            Some(a) => if old(metadata).id is None {
                crate::text::opt_view(final(metadata).id) == Some(a.id@) && crate::text::opt_view(*final(reftext))
                    == crate::meta::opt_chars_view(a.reftext) && final(metadata).attributes == old(
                    metadata,
                ).attributes && final(metadata).style == old(metadata).style
            } else {
                *final(metadata) == *old(metadata) && *final(reftext) == *old(reftext)
            },
            None => *final(metadata) == *old(metadata) && *final(reftext) == *old(reftext),
        },
{
    match anchor {
        Some(a) => {
            if metadata.id.is_none() {
                metadata.id = Some(to_string(&a.id));
                *reftext = opt_string(&a.reftext);
            }
        },
        None => {},
    }
}

fn apply_prelude_to_heading(heading: Heading, prelude: Option<BlockPrelude>) -> (r: Heading)
    ensures
        r.title == heading.title && r.level == heading.level,
        match prelude {
            Some(p) => r.metadata == p.metadata && r.id == (if heading.id is None {
                p.metadata.id
            } else {
                heading.id
            }),
            None => r == heading,
        },
{
    let mut heading = heading;
    match prelude {
        Some(p) => {
            if heading.id.is_none() {
                heading.id = crate::text::copy_opt(&p.metadata.id);
            }
            heading.metadata = p.metadata;
        },
        None => {},
    }
    heading
}

/// Parses the blocks of `lines`. Level-0 headings may become the document title
/// when `allow_document_title` holds; attribute entries between blocks go to
/// `document_attributes` when `has_document_attributes` holds.
#[verifier::spinoff_prover]
#[verifier::rlimit(60)]
pub fn parse_blocks_from_lines(
    lines: &[Vec<char>],
    title: &mut Option<Heading>,
    allow_document_title: bool,
    document_attributes: &mut AttributeMap,
    has_document_attributes: bool,
    fuel: usize,
) -> (r: Vec<Block>)
    ensures
        lines@.len() == 0 ==> r@.len() == 0,
        *final(title) == *old(title) || (*final(title) matches Some(h) && h.level == 0 && allow_document_title),
        *old(title) is Some ==> *final(title) == *old(title),
        fuel > 0 && lines@.len() > 0 && crate::header::atx_heading_spec(lines@[0]@) is Some ==> r@.len() > 0
            || *final(title) is Some,
        forall|k: Seq<char>| old(document_attributes)@.contains_key(k) ==> #[trigger] final(document_attributes)@.contains_key(k),
        !has_document_attributes ==> final(document_attributes)@ == old(document_attributes)@,
        fuel > 0 && simple_document(lines@) ==> ({
            let acc = document_acc(
                lines@,
                lines@.len() as int,
                allow_document_title,
                has_document_attributes,
                heading_view(*old(title)),
                old(document_attributes)@,
            );
            &&& items_match(r@, close_open(acc.0, acc.1))
            &&& heading_view(*final(title)) == acc.2
            &&& final(document_attributes)@ == acc.3
        }),
    decreases fuel, 0usize,
{
    let mut blocks: Vec<Block> = Vec::new();
    if fuel == 0 {
        return blocks;
    }
    let ghost simple = simple_document(lines@);
    let ghost title0 = heading_view(*title);
    let ghost attrs0 = document_attributes@;
    let mut index: usize = 0;
    let mut current_paragraph: Vec<Vec<char>> = Vec::new();
    let mut current_anchor: Option<PendingAnchor> = None;
    let mut current_prelude: Option<BlockPrelude> = None;
    let mut pending_anchor: Option<PendingAnchor> = None;
    let mut pending_prelude: Option<BlockPrelude> = None;
    let n = lines.len();
    let ghost first_atx = lines@.len() > 0 && crate::header::atx_heading_spec(lines@[0]@) is Some;
    let ghost mut pushed = false;

    while index < n
        invariant
            n == lines@.len(),
            index <= n,
            fuel > 0,
            first_atx == (lines@.len() > 0 && crate::header::atx_heading_spec(lines@[0]@) is Some),
            index == 0 ==> current_paragraph@.len() == 0 && pending_prelude is None && pending_anchor is None,
            pushed ==> blocks@.len() > 0 || *title is Some,
            first_atx && index > 0 ==> pushed,
            n == 0 ==> blocks@.len() == 0 && current_paragraph@.len() == 0,
            *title == *old(title) || (*title matches Some(h) && h.level == 0 && allow_document_title),
            *old(title) is Some ==> *title == *old(title),
            forall|k: Seq<char>| old(document_attributes)@.contains_key(k) ==> #[trigger] document_attributes@.contains_key(k),
            !has_document_attributes ==> document_attributes@ == old(document_attributes)@,
            simple == simple_document(lines@),
            title0 == heading_view(*old(title)),
            attrs0 == old(document_attributes)@,
            simple ==> pending_prelude is None && pending_anchor is None && current_anchor is None
                && current_prelude is None,
            simple ==> ({
                let acc = document_acc(lines@, index as int, allow_document_title, has_document_attributes, title0, attrs0);
                &&& items_match(blocks@, acc.0)
                &&& views(current_paragraph@) == acc.1
                &&& heading_view(*title) == acc.2
                &&& document_attributes@ == acc.3
            }),
            simple && current_paragraph@.len() > 0 ==> !first_line_indented(current_paragraph@),
        decreases n - index,
    {
        let line = &lines[index];
        let ghost acc = document_acc(lines@, index as int, allow_document_title, has_document_attributes, title0, attrs0);
        let ghost next_acc = document_acc(lines@, index + 1, allow_document_title, has_document_attributes, title0, attrs0);
        proof {
            if simple {
                assert(simple_line(lines@, index as int));
            }
        }
        proof {
            if first_atx && index == 0 {
                crate::header::lemma_atx_line_is_plain(lines@[0]@);
                assert(crate::text::views(lines@)[0] == lines@[0]@);
            }
        }

        match parse_delimited_block_marker(line) {
            Some((delimiter, BlockKind::Comment)) => {
                let ghost iter_start = index;
                index += 1;
                while index < n && !crate::text::chars_eq(&trim(&lines[index]), &delimiter)
                    invariant
                        index <= n,
                        index > iter_start,
                        n == lines@.len(),
                    decreases n - index,
                {
                    index += 1;
                }
                if index < n {
                    index += 1;
                }
                continue;
            },
            _ => {},
        }

        if is_comment_line(line) {
            index += 1;
            continue;
        }

        match parse_block_anchor(line) {
            Some(anchor) => {
                flush_paragraph(&mut blocks, &mut current_paragraph, &mut current_anchor, &mut current_prelude);
                pending_anchor = Some(anchor);
                index += 1;
                continue;
            },
            None => {},
        }

        if current_paragraph.len() == 0 && pending_prelude.is_none() {
            match try_parse_block_prelude(lines, index) {
                Some(prelude) => {
                    index += prelude.consumed_lines;
                    pending_prelude = Some(prelude);
                    continue;
                },
                None => {},
            }
        }

        let delimited = match &pending_prelude {
            Some(p) => parse_delimited_block(lines, index, Some(p), fuel - 1),
            None => parse_delimited_block(lines, index, None, fuel - 1),
        };
        match delimited {
            Some((block, consumed)) => {
                flush_paragraph(&mut blocks, &mut current_paragraph, &mut current_anchor, &mut current_prelude);
                let anchor = pending_anchor.take();
                push_block(&mut blocks, title, allow_document_title, block, anchor);
                proof {
                    pushed = true;
                }
                pending_prelude = None;
                index += consumed;
                continue;
            },
            None => {},
        }

        let heading = if current_paragraph.len() == 0 {
            parse_heading(lines, index)
        } else {
            match parse_atx_heading(line) {
                Some(h) => Some((h, 1)),
                None => None,
            }
        };
        match heading {
            Some((heading, consumed)) => {
                let ghost b0 = blocks@;
                let ghost c0 = current_paragraph@;
                flush_paragraph(&mut blocks, &mut current_paragraph, &mut current_anchor, &mut current_prelude);
                let ghost b1 = blocks@;
                proof {
                    if simple {
                        if c0.len() > 0 {
                            lemma_flush_items(b0, b1, acc.0, acc.1);
                        }
                        assert(items_match(b1, close_open(acc.0, acc.1)));
                        assert(heading_line(lines@, index as int));
                        assert(crate::header::atx_heading_spec(lines@[index as int]@) == Some((heading.level, heading.title@)));
                        assert(consumed == 1);
                    }
                }
                let prelude = pending_prelude.take();
                let anchor = pending_anchor.take();
                let hb = apply_prelude_to_heading(heading, prelude);
                push_block(&mut blocks, title, allow_document_title, Block::Heading(hb), anchor);
                proof {
                    pushed = true;
                    if simple {
                        if !(allow_document_title && acc.2 is None && b1.len() == 0 && hb.level == 0) {
                            lemma_push_heading(b1, blocks@, close_open(acc.0, acc.1), hb);
                        }
                    }
                }
                index += consumed;
                continue;
            },
            None => {},
        }

        match parse_unordered_list(lines, index, fuel - 1) {
            Some((list, consumed)) => {
                flush_paragraph(&mut blocks, &mut current_paragraph, &mut current_anchor, &mut current_prelude);
                let mut list = list;
                match pending_prelude.take() {
                    Some(p) => {
                        list.metadata = p.metadata;
                    },
                    None => {},
                }
                let anchor = pending_anchor.take();
                push_block(&mut blocks, title, allow_document_title, Block::UnorderedList(list), anchor);
                proof {
                    pushed = true;
                }
                index += consumed;
                continue;
            },
            None => {},
        }

        match parse_description_list(lines, index) {
            Some((list, consumed)) => {
                flush_paragraph(&mut blocks, &mut current_paragraph, &mut current_anchor, &mut current_prelude);
                let mut list = list;
                match pending_prelude.take() {
                    Some(p) => {
                        list.metadata = p.metadata;
                    },
                    None => {},
                }
                let anchor = pending_anchor.take();
                push_block(&mut blocks, title, allow_document_title, Block::DescriptionList(list), anchor);
                proof {
                    pushed = true;
                }
                index += consumed;
                continue;
            },
            None => {},
        }

        match parse_ordered_list(lines, index, fuel - 1) {
            Some((list, consumed)) => {
                flush_paragraph(&mut blocks, &mut current_paragraph, &mut current_anchor, &mut current_prelude);
                let mut list = list;
                match pending_prelude.take() {
                    Some(p) => {
                        list.metadata = p.metadata;
                    },
                    None => {},
                }
                let anchor = pending_anchor.take();
                push_block(&mut blocks, title, allow_document_title, Block::OrderedList(list), anchor);
                proof {
                    pushed = true;
                }
                index += consumed;
                continue;
            },
            None => {},
        }

        match parse_callout_list(lines, index) {
            Some((colist, consumed)) => {
                flush_paragraph(&mut blocks, &mut current_paragraph, &mut current_anchor, &mut current_prelude);
                let anchor = pending_anchor.take();
                push_block(&mut blocks, title, allow_document_title, colist, anchor);
                proof {
                    pushed = true;
                }
                pending_prelude = None;
                index += consumed;
                continue;
            },
            None => {},
        }

        let table = match &pending_prelude {
            Some(p) => parse_table(lines, index, Some(p), fuel - 1),
            None => parse_table(lines, index, None, fuel - 1),
        };
        match table {
            Some((table, consumed)) => {
                flush_paragraph(&mut blocks, &mut current_paragraph, &mut current_anchor, &mut current_prelude);
                let mut table = table;
                match pending_prelude.take() {
                    Some(p) => {
                        table.metadata = p.metadata;
                    },
                    None => {},
                }
                let anchor = pending_anchor.take();
                push_block(&mut blocks, title, allow_document_title, Block::Table(table), anchor);
                proof {
                    pushed = true;
                }
                index += consumed;
                continue;
            },
            None => {},
        }

        if current_paragraph.len() == 0 && pending_prelude.is_none() && pending_anchor.is_none()
            && has_document_attributes {
            match parse_attribute_entry_at(lines, index) {
                Some((name, value, consumed)) => {
                    proof {
                        if simple {
                            let l = lines@[index as int]@;
                            let sep = crate::header::entry_sep(l);
                            assert(crate::header::first_at(l, ':', 1, sep));
                            assert(entry_line(lines@, index as int));
                            assert(consumed == 1);
                            assert(name@ == crate::header::entry_name(l, sep));
                            assert(value@ == crate::header::entry_value(l, sep));
                        }
                    }
                    document_attributes.insert_chars(&name, to_string(&value));
                    index += consumed;
                    continue;
                },
                None => {},
            }
        }

        if current_paragraph.len() == 0 && eq_str(&trim(line), "toc::[]") {
            flush_paragraph(&mut blocks, &mut current_paragraph, &mut current_anchor, &mut current_prelude);
            let anchor = pending_anchor.take();
            push_block(&mut blocks, title, allow_document_title, Block::Toc, anchor);
            proof {
                pushed = true;
            }
            pending_prelude = None;
            index += 1;
            continue;
        }

        if current_paragraph.len() == 0 {
            match parse_block_image(line) {
                Some(image) => {
                    flush_paragraph(&mut blocks, &mut current_paragraph, &mut current_anchor, &mut current_prelude);
                    let prelude = pending_prelude.take();
                    let anchor = pending_anchor.take();
                    push_block(&mut blocks, title, allow_document_title, Block::Image(apply_prelude_to_image(image, prelude)), anchor);
                    proof {
                        pushed = true;
                    }
                    index += 1;
                    continue;
                },
                None => {},
            }
        }

        if current_paragraph.len() == 0 {
            let admonition = match &pending_prelude {
                Some(p) => parse_admonition_paragraph(lines, index, Some(p)),
                None => parse_admonition_paragraph(lines, index, None),
            };
            match admonition {
                Some((block, consumed)) => {
                    let anchor = pending_anchor.take();
                    push_block(&mut blocks, title, allow_document_title, block, anchor);
                    proof {
                        pushed = true;
                    }
                    pending_prelude = None;
                    index += consumed;
                    continue;
                },
                None => {},
            }
        }

        if is_blank(line) {
            let ghost b0 = blocks@;
            let ghost c0 = current_paragraph@;
            flush_paragraph(&mut blocks, &mut current_paragraph, &mut current_anchor, &mut current_prelude);
            proof {
                if simple {
                    assert(views(current_paragraph@) =~= Seq::<Seq<char>>::empty());
                    if c0.len() > 0 {
                        lemma_flush_items(b0, blocks@, acc.0, acc.1);
                    }
                    assert(next_acc == (close_open(acc.0, acc.1), Seq::<Seq<char>>::empty(), acc.2, acc.3));
                }
            }
            pending_prelude = None;
            index += 1;
            continue;
        }

        if current_paragraph.len() == 0 {
            current_anchor = pending_anchor.take();
            current_prelude = pending_prelude.take();
        }
        let ghost c1 = current_paragraph@;
        current_paragraph.push(crate::text::copy(line));
        proof {
            if simple {
                assert(views(current_paragraph@) =~= views(c1).push(lines@[index as int]@));
                assert(next_acc == (acc.0, acc.1.push(lines@[index as int]@), acc.2, acc.3));
            }
        }
        index += 1;
    }

    let ghost b0 = blocks@;
    let ghost c0 = current_paragraph@;
    flush_paragraph(&mut blocks, &mut current_paragraph, &mut current_anchor, &mut current_prelude);
    proof {
        if simple {
            let acc = document_acc(lines@, n as int, allow_document_title, has_document_attributes, title0, attrs0);
            if c0.len() > 0 {
                lemma_flush_items(b0, blocks@, acc.0, acc.1);
            }
        }
    }
    blocks
}

/// Closing a paragraph adds its block to the matching blocks.
proof fn lemma_flush_items(b0: Seq<Block>, b1: Seq<Block>, items: Seq<SimpleItem>, open: Seq<Seq<char>>)
    requires
        items_match(b0, items),
        open.len() > 0,
        b1.len() == b0.len() + 1,
        b1.drop_last() == b0,
        b1.last() matches Block::Paragraph(p) && string_views(p.lines@) == open && p.id is None && p.reftext is None
            && empty_metadata(p.metadata),
    ensures
        items_match(b1, close_open(items, open)),
{
    let its = close_open(items, open);
    assert forall|j: int| 0 <= j < b1.len() implies item_matches(#[trigger] b1[j], its[j]) by {
        if j < b0.len() {
            assert(b1[j] == b1.drop_last()[j]);
            assert(its[j] == items[j]);
        }
    }
}

/// Pushing a heading adds its block to the matching blocks.
proof fn lemma_push_heading(b0: Seq<Block>, b1: Seq<Block>, items: Seq<SimpleItem>, h: Heading)
    requires
        items_match(b0, items),
        b1 == b0.push(Block::Heading(h)),
    ensures
        items_match(b1, items.push((true, h.level, seq![h.title@]))),
{
    let its = items.push((true, h.level, seq![h.title@]));
    assert forall|j: int| 0 <= j < b1.len() implies item_matches(#[trigger] b1[j], its[j]) by {
        if j < b0.len() {
            assert(b1[j] == b0[j]);
            assert(its[j] == items[j]);
        }
    }
}

} // verus!
