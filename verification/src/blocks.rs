//! Delimited blocks, block images, admonition paragraphs, listings with
//! callout markers, and callout lists.
use vstd::prelude::*;
use crate::ast::{
    AdmonitionBlock, AdmonitionVariant, Block, BlockMetadata, CalloutItem, CalloutList,
    CompoundBlock, ImageBlock, Listing, OpenBlockContext, PassthroughBlock, QuoteBlock,
};
use crate::attrs::AttributeMap;
use crate::header::parse_heading;
use crate::inline::{auto_generate_alt, parse_inline_chars, trim_matches_char};
use crate::meta::{
    delimiter_spec, style_variant, admonition_prefix_spec, string_views,
    admonition_variant_from_style, apply_fenced_code_metadata, clear_resolved_style,
    is_delimited_block_delimiter, opt_is, parse_admonition_prefix, parse_block_anchor,
    parse_delimited_block_marker, parse_fenced_code_opening, parse_list_marker, BlockKind,
    BlockPrelude,
};
use crate::parser::{
    style_view, block_target, make_paragraph_like_block, open_context, parse_blocks_from_lines, strings_of, BlockTarget,
};
use crate::text::{
    chars_eq, cut, ends_with_str, eq_str, find_char, is_blank, join_str, parse_usize, rfind_char,
    starts_with_str, strip_prefix_str, to_string, trim, trim_end, trim_start, copy, trim_spec, views, join_spec,
};

verus! {

/// `s` parsed as a `u32` (std `str::parse::<u32>`).
pub fn parse_u32(s: &[char]) -> (r: Option<u32>)
    ensures
        r is Some <==> (crate::text::parses_unsigned(s@) && crate::text::digits_value(
            crate::text::unsigned_digits(s@),
        ) <= u32::MAX),
        r matches Some(v) ==> v as nat == crate::text::digits_value(crate::text::unsigned_digits(s@)),
{
    match parse_usize(s) {
        Some(v) => {
            if v <= u32::MAX as usize {
                Some(v as u32)
            } else {
                None
            }
        },
        None => None,
    }
}

/// A copy of a block prelude, or an empty one.
fn prelude_or_default(p: Option<&BlockPrelude>) -> (r: BlockPrelude)
    ensures
        style_view(r.metadata.style) == prelude_style(p),
        r.metadata.attributes@ == prelude_attrs(p),
        crate::text::opt_view(r.metadata.id) == prelude_id(p),
{
    match p {
        Some(p) => BlockPrelude { metadata: p.metadata.copy(), consumed_lines: p.consumed_lines },
        None => BlockPrelude { metadata: BlockMetadata::new(), consumed_lines: 0 },
    }
}

/// The lines strictly between two indices.
fn slice_lines(lines: &[Vec<char>], a: usize, b: usize) -> (r: &[Vec<char>])
    requires
        a <= b <= lines@.len(),
    ensures
        r@ == lines@.subrange(a as int, b as int),
{
    vstd::slice::slice_subrange(lines, a, b)
}

/// Parses nested block content (no document title, no document attributes).
fn parse_nested_blocks(lines: &[Vec<char>], fuel: usize) -> (r: Vec<Block>)
    ensures
        lines@.len() == 0 ==> r@.len() == 0,
        fuel > 0 && lines@.len() > 0 && crate::header::atx_heading_spec(lines@[0]@) is Some ==> r@.len() > 0,
    decreases fuel, 1usize,
{
    let mut nested_title = None;
    let mut scratch = AttributeMap::new();
    parse_blocks_from_lines(lines, &mut nested_title, false, &mut scratch, false, fuel)
}

/// The style a pending prelude gives, if any.
pub open spec fn prelude_style(p: Option<&BlockPrelude>) -> Option<Seq<char>> {
    match p {
        Some(p) => style_view(p.metadata.style),
        None => None,
    }
}

/// The attributes a pending prelude gives a block (none without one).
pub open spec fn prelude_attrs(p: Option<&BlockPrelude>) -> Map<Seq<char>, Seq<char>> {
    match p {
        Some(p) => p.metadata.attributes@,
        None => Map::empty(),
    }
}

/// The id a pending prelude gives a block.
pub open spec fn prelude_id(p: Option<&BlockPrelude>) -> Option<Seq<char>> {
    match p {
        Some(p) => crate::text::opt_view(p.metadata.id),
        None => None,
    }
}

/// What a delimited block holds, given the lines between its delimiters: verbatim
/// blocks keep the lines (passthroughs and verses joined by line breaks), compound
/// blocks drop their resolved style, and none has a reftext of its own.
pub open spec fn delimited_contents(b: Block, inner: Seq<Seq<char>>, p: Option<&BlockPrelude>) -> bool {
    match b {
        Block::Admonition(a) => a.reftext is None && crate::text::opt_view(a.id) == prelude_id(p)
            && a.metadata.attributes@ == prelude_attrs(p),
        Block::Passthrough(pt) => pt.content@ == join_spec(inner, seq!['\n']) && pt.reftext is None,
        Block::Literal(l) => string_views(l.lines@) == inner && l.callouts@.len() == 0 && l.reftext is None,
        Block::Example(c) => c.reftext is None && c.context is None && c.metadata.style is None
            && c.metadata.attributes@ == prelude_attrs(p).remove("style"@),
        Block::Sidebar(c) => c.reftext is None && c.context is None && c.metadata.style is None
            && c.metadata.attributes@ == prelude_attrs(p).remove("style"@),
        Block::Quote(q) => q.reftext is None && q.metadata.style is None && q.metadata.attributes@ == prelude_attrs(
            p,
        ).remove("style"@) && (q.is_verse ==> q.blocks@.len() == 0 && (q.content matches Some(c) && c@
            == join_spec(inner, seq!['\n']))),
        Block::Open(c) => c.reftext is None,
        _ => true,
    }
}

/// What a delimited block of the given kind becomes with the given style: an
/// example block styled as an admonition is that admonition; `literal` turns a
/// listing into a literal block and `listing`/`source` the other way; a quote
/// block styled `verse` is a verse; an open block follows `open_block_target`.
pub open spec fn delimited_target(kind: BlockKind, style: Option<Seq<char>>) -> BlockTarget {
    if kind == BlockKind::Example && style is Some && style_variant(style->0) is Some {
        BlockTarget::Admonition(style_variant(style->0)->0)
    } else {
        let effective = if kind == BlockKind::Listing && style == Some("literal"@) {
            BlockKind::Literal
        } else if kind == BlockKind::Literal && (style == Some("listing"@) || style == Some("source"@)) {
            BlockKind::Listing
        } else {
            kind
        };
        match effective {
            BlockKind::Passthrough => BlockTarget::Passthrough,
            BlockKind::Listing => BlockTarget::Listing,
            BlockKind::Literal => BlockTarget::Literal,
            BlockKind::Example => BlockTarget::Example,
            BlockKind::Sidebar => BlockTarget::Sidebar,
            BlockKind::Quote => if style == Some("verse"@) {
                BlockTarget::Verse
            } else {
                BlockTarget::Quote
            },
            BlockKind::Open => open_block_target(
                match style {
                    Some(s) => s,
                    None => Seq::empty(),
                },
            ),
            BlockKind::Comment => BlockTarget::Other,
        }
    }
}

/// A delimited block starting at `index` (its opening delimiter) and ending at the
/// first later line equal, once trimmed, to the delimiter. Returns the block and the
/// number of lines it takes, delimiters included. Comment blocks are not returned.
pub fn parse_delimited_block(
    lines: &[Vec<char>],
    index: usize,
    pending_prelude: Option<&BlockPrelude>,
    fuel: usize,
) -> (r: Option<(Block, usize)>)
    ensures
        r matches Some(p) ==> 2 <= p.1 && index + p.1 <= lines@.len(),
        index >= lines@.len() ==> r is None,
        r matches Some(p) ==> (delimiter_spec(lines@[index as int]@) matches Some(dk) && dk.1
            != BlockKind::Comment && trim_spec(lines@[index + p.1 - 1]@) == dk.0 && (forall|k: int|
            index < k < index + p.1 - 1 ==> trim_spec(#[trigger] lines@[k]@) != dk.0) && block_target(p.0)
            == delimited_target(dk.1, prelude_style(pending_prelude))),
        fuel > 0 && index < lines@.len() && (delimiter_spec(lines@[index as int]@) matches Some(dk) && dk.1
            != BlockKind::Comment && exists|j: int| index < j < lines@.len() && trim_spec(#[trigger] lines@[j]@)
            == dk.0) ==> r is Some,
        r matches Some(p) ==> delimited_contents(
            p.0,
            views(lines@).subrange(index + 1, index + p.1 - 1),
            pending_prelude,
        ),
    decreases fuel, 3usize,
{
    proof {
        reveal_strlit("\n");
        assert("\n"@ =~= seq!['\n']);
    }
    if index >= lines.len() {
        return None;
    }
    let n = lines.len();
    let delimiter_line = &lines[index];
    let fenced_entries = parse_fenced_code_opening(delimiter_line);
    let (delimiter, kind) = match parse_delimited_block_marker(delimiter_line) {
        Some(p) => p,
        None => return None,
    };
    if kind == BlockKind::Comment {
        return None;
    }
    let mut closing = index + 1;
    while closing < n && !chars_eq(&trim(&lines[closing]), &delimiter)
        invariant
            n == lines@.len(),
            index < closing <= n,
            forall|k: int| index < k < closing ==> trim_spec(#[trigger] lines@[k]@) != delimiter@,
        decreases n - closing,
    {
        closing += 1;
    }
    if closing >= n {
        return None;
    }
    let ghost style = prelude_style(pending_prelude);
    let inner = slice_lines(lines, index + 1, closing);
    assert(views(inner@) =~= views(lines@).subrange(index + 1, closing as int));
    let consumed = closing - index + 1;
    let prelude = prelude_or_default(pending_prelude);
    let mut metadata = prelude.metadata;
    if fuel == 0 {
        return None;
    }
    if kind == BlockKind::Example {
        let variant = match &metadata.style {
            Some(s) => {
                let sc = crate::text::string_chars(s);
                admonition_variant_from_style(&sc)
            },
            None => None,
        };
        match variant {
            Some(variant) => {
                let id = crate::text::copy_opt(&metadata.id);
                return Some(
                    (
                        Block::Admonition(
                            AdmonitionBlock {
                                variant,
                                blocks: parse_nested_blocks(inner, fuel - 1),
                                id,
                                reftext: None,
                                metadata,
                            },
                        ),
                        consumed,
                    ),
                );
            },
            None => {},
        }
    }
    let effective = if kind == BlockKind::Listing && opt_is(&metadata.style, "literal") {
        BlockKind::Literal
    } else if kind == BlockKind::Literal && (opt_is(&metadata.style, "listing") || opt_is(
        &metadata.style,
        "source",
    )) {
        BlockKind::Listing
    } else {
        kind
    };
    let block = match effective {
        BlockKind::Passthrough => Block::Passthrough(
            PassthroughBlock { content: to_string(&join_str(inner, "\n")), reftext: None, metadata },
        ),
        BlockKind::Listing => {
            if opt_is(&metadata.style, "listing") {
                clear_resolved_style(&mut metadata);
            }
            match &fenced_entries {
                Some(entries) => apply_fenced_code_metadata(&mut metadata, entries),
                None => {},
            }
            Block::Listing(make_listing_from_lines(inner, None, metadata))
        },
        BlockKind::Literal => {
            if opt_is(&metadata.style, "literal") {
                clear_resolved_style(&mut metadata);
            }
            let ls = strings_of(inner);
            assert(string_views(ls@) =~= views(inner@));
            Block::Literal(Listing { lines: ls, callouts: Vec::new(), reftext: None, metadata })
        },
        BlockKind::Example => {
            clear_resolved_style(&mut metadata);
            Block::Example(
                CompoundBlock {
                    blocks: parse_nested_blocks(inner, fuel - 1),
                    reftext: None,
                    context: None,
                    metadata,
                },
            )
        },
        BlockKind::Sidebar => {
            clear_resolved_style(&mut metadata);
            Block::Sidebar(
                CompoundBlock {
                    blocks: parse_nested_blocks(inner, fuel - 1),
                    reftext: None,
                    context: None,
                    metadata,
                },
            )
        },
        BlockKind::Quote => {
            let is_verse = opt_is(&metadata.style, "verse");
            clear_resolved_style(&mut metadata);
            let attribution = crate::parser::attr_copy(&metadata, "$2");
            let citetitle = crate::parser::attr_copy(&metadata, "$3");
            if is_verse {
                Block::Quote(
                    QuoteBlock {
                        blocks: Vec::new(),
                        content: Some(to_string(&join_str(inner, "\n"))),
                        attribution,
                        citetitle,
                        is_verse: true,
                        reftext: None,
                        metadata,
                    },
                )
            } else {
                Block::Quote(
                    QuoteBlock {
                        blocks: parse_nested_blocks(inner, fuel - 1),
                        content: None,
                        attribution,
                        citetitle,
                        is_verse: false,
                        reftext: None,
                        metadata,
                    },
                )
            }
        },
        BlockKind::Open => masquerade_open_block(metadata, inner, fuel - 1),
        BlockKind::Comment => return None,
    };
    Some((block, consumed))
}

/// What an open block (`--`) becomes for its style (empty when it has none).
pub open spec fn open_block_target(s: Seq<char>) -> BlockTarget {
    if style_variant(s) is Some {
        BlockTarget::Admonition(style_variant(s)->0)
    } else if s == "literal"@ {
        BlockTarget::Literal
    } else if s == "listing"@ || s == "source"@ {
        BlockTarget::Listing
    } else if s == "sidebar"@ {
        BlockTarget::Sidebar
    } else if s == "example"@ {
        BlockTarget::Example
    } else if s == "quote"@ {
        BlockTarget::Quote
    } else if s == "verse"@ {
        BlockTarget::Verse
    } else if s == "pass"@ || s == "stem"@ || s == "latexmath"@ || s == "asciimath"@ {
        BlockTarget::Passthrough
    } else if s == "abstract"@ || s == "comment"@ || s == "partintro"@ {
        BlockTarget::Open(open_context(s))
    } else {
        BlockTarget::Open(None)
    }
}

/// A style's characters, empty when there is none.
pub open spec fn style_or_empty(style: Option<String>) -> Seq<char> {
    match style {
        Some(s) => s@,
        None => Seq::empty(),
    }
}

/// `m1` is `m0` with its resolved style dropped (the style and its attribute).
pub open spec fn style_cleared(m0: BlockMetadata, m1: BlockMetadata) -> bool {
    &&& m1.style is None
    &&& m1.attributes@ == m0.attributes@.remove("style"@)
    &&& m1.id == m0.id
    &&& m1.title == m0.title
}

/// Styles an open block keeps on the block it becomes: admonition names, `source`,
/// the math styles, and styles it does not know (`open` excepted).
pub open spec fn open_style_kept(s: Seq<char>) -> bool {
    ||| style_variant(s) is Some
    ||| s == "source"@ || s == "stem"@ || s == "latexmath"@ || s == "asciimath"@
    ||| (open_block_target(s) == BlockTarget::Open(None) && s != "open"@)
}

/// An open block (`--`) takes the block type its style names; without a known
/// style it stays an open block.
pub fn masquerade_open_block(metadata: BlockMetadata, inner: &[Vec<char>], fuel: usize) -> (r: Block)
    ensures
        block_target(r) == open_block_target(style_or_empty(metadata.style)),
        r matches Block::Admonition(a) ==> a.id == metadata.id && a.reftext is None && a.metadata == metadata,
        r matches Block::Passthrough(pt) ==> pt.content@ == join_spec(views(inner@), seq!['\n']) && pt.reftext
            is None && (open_style_kept(style_or_empty(metadata.style)) ==> pt.metadata == metadata) && (
        !open_style_kept(style_or_empty(metadata.style)) ==> style_cleared(metadata, pt.metadata)),
        r matches Block::Literal(l) ==> string_views(l.lines@) == views(inner@) && l.callouts@.len() == 0
            && l.reftext is None && style_cleared(metadata, l.metadata),
        r matches Block::Listing(l) ==> l.reftext is None && string_views(l.lines@) == listing_state(views(inner@)).0
            && l.callouts@ == listing_state(views(inner@)).1 && (style_or_empty(metadata.style) == "source"@
            ==> l.metadata == metadata) && (style_or_empty(metadata.style) == "listing"@ ==> style_cleared(
            metadata,
            l.metadata,
        )),
        r matches Block::Sidebar(c) ==> c.reftext is None && c.context is None && style_cleared(metadata, c.metadata),
        r matches Block::Example(c) ==> c.reftext is None && c.context is None && style_cleared(metadata, c.metadata),
        r matches Block::Open(c) ==> c.reftext is None && c.context == open_context(style_or_empty(metadata.style))
            && (open_style_kept(style_or_empty(metadata.style)) ==> c.metadata == metadata) && (!open_style_kept(
            style_or_empty(metadata.style),
        ) ==> style_cleared(metadata, c.metadata)),
        r matches Block::Quote(q) ==> q.reftext is None && style_cleared(metadata, q.metadata) && q.is_verse == (
        style_or_empty(metadata.style) == "verse"@) && (q.is_verse ==> q.blocks@.len() == 0 && (q.content matches Some(
            c,
        ) && c@ == join_spec(views(inner@), seq!['\n']))),
    decreases fuel, 2usize,
{
    proof {
        reveal_strlit("\n");
        assert("\n"@ =~= seq!['\n']);
    }
    let mut metadata = metadata;
    let style: Vec<char> = match &metadata.style {
        Some(s) => crate::text::string_chars(s),
        None => Vec::new(),
    };
    match admonition_variant_from_style(&style) {
        Some(variant) => {
            let id = crate::text::copy_opt(&metadata.id);
            return Block::Admonition(
                AdmonitionBlock {
                    variant,
                    blocks: parse_nested_blocks(inner, fuel),
                    id,
                    reftext: None,
                    metadata,
                },
            );
        },
        None => {},
    }
    if eq_str(&style, "literal") {
        clear_resolved_style(&mut metadata);
        let ls = strings_of(inner);
        assert(string_views(ls@) =~= views(inner@));
        return Block::Literal(Listing { lines: ls, callouts: Vec::new(), reftext: None, metadata });
    }
    if eq_str(&style, "listing") {
        proof {
            reveal_strlit("listing");
            reveal_strlit("source");
            assert("listing"@ != "source"@) by {
                assert("listing"@[0] != "source"@[0]);
            }
        }
        clear_resolved_style(&mut metadata);
        return Block::Listing(make_listing_from_lines(inner, None, metadata));
    }
    if eq_str(&style, "source") {
        proof {
            reveal_strlit("listing");
            reveal_strlit("source");
            assert("listing"@ != "source"@) by {
                assert("listing"@[0] != "source"@[0]);
            }
        }
        return Block::Listing(make_listing_from_lines(inner, None, metadata));
    }
    if eq_str(&style, "sidebar") {
        clear_resolved_style(&mut metadata);
        return Block::Sidebar(
            CompoundBlock { blocks: parse_nested_blocks(inner, fuel), reftext: None, context: None, metadata },
        );
    }
    if eq_str(&style, "example") {
        clear_resolved_style(&mut metadata);
        return Block::Example(
            CompoundBlock { blocks: parse_nested_blocks(inner, fuel), reftext: None, context: None, metadata },
        );
    }
    if eq_str(&style, "quote") {
        proof {
            reveal_strlit("quote");
            reveal_strlit("verse");
            assert(style_or_empty(metadata.style) == "quote"@);
            assert("quote"@ != "verse"@) by {
                assert("quote"@[0] != "verse"@[0]);
            }
        }
        clear_resolved_style(&mut metadata);
        let attribution = crate::parser::attr_copy(&metadata, "$2");
        let citetitle = crate::parser::attr_copy(&metadata, "$3");
        return Block::Quote(
            QuoteBlock {
                blocks: parse_nested_blocks(inner, fuel),
                content: None,
                attribution,
                citetitle,
                is_verse: false,
                reftext: None,
                metadata,
            },
        );
    }
    if eq_str(&style, "verse") {
        clear_resolved_style(&mut metadata);
        let attribution = crate::parser::attr_copy(&metadata, "$2");
        let citetitle = crate::parser::attr_copy(&metadata, "$3");
        return Block::Quote(
            QuoteBlock {
                blocks: Vec::new(),
                content: Some(to_string(&join_str(inner, "\n"))),
                attribution,
                citetitle,
                is_verse: true,
                reftext: None,
                metadata,
            },
        );
    }
    if eq_str(&style, "pass") {
        proof {
            reveal_strlit("pass");
            reveal_strlit("source");
            reveal_strlit("stem");
            reveal_strlit("latexmath");
            reveal_strlit("asciimath");
            reveal_strlit("open");
            assert(style@ == "pass"@);
            assert(style@ != "source"@ && style@ != "stem"@ && style@ != "latexmath"@ && style@ != "asciimath"@
                && style@ != "open"@) by {
                assert(style@[0] == 'p' && style@[1] == 'a');
            }
            assert(open_block_target(style@) == BlockTarget::Passthrough);
            assert(!open_style_kept(style@));
        }
        clear_resolved_style(&mut metadata);
        return Block::Passthrough(
            PassthroughBlock { content: to_string(&join_str(inner, "\n")), reftext: None, metadata },
        );
    }
    if eq_str(&style, "stem") || eq_str(&style, "latexmath") || eq_str(&style, "asciimath") {
        assert(style@ == style_or_empty(metadata.style));
        assert(open_style_kept(style@));
        let content = to_string(&join_str(inner, "\n"));
        assert(content@ == join_spec(views(inner@), seq!['\n']));
        return Block::Passthrough(
            PassthroughBlock { content, reftext: None, metadata },
        );
    }
    if eq_str(&style, "abstract") || eq_str(&style, "comment") || eq_str(&style, "partintro") {
        let context = if eq_str(&style, "abstract") {
            OpenBlockContext::Abstract
        } else if eq_str(&style, "comment") {
            OpenBlockContext::Comment
        } else {
            OpenBlockContext::PartIntro
        };
        clear_resolved_style(&mut metadata);
        return Block::Open(
            CompoundBlock {
                blocks: parse_nested_blocks(inner, fuel),
                reftext: None,
                context: Some(context),
                metadata,
            },
        );
    }
    if eq_str(&style, "open") {
        clear_resolved_style(&mut metadata);
    }
    Block::Open(
        CompoundBlock { blocks: parse_nested_blocks(inner, fuel), reftext: None, context: None, metadata },
    )
}

/// The line starts (after leading whitespace) with `word` in upper case, a colon,
/// whitespace and text; `text` is that text, trimmed.
pub open spec fn labelled_with(line: Seq<char>, word: Seq<char>, text: Seq<char>) -> bool {
    let t = crate::text::trim_start_spec(line);
    let n = word.len() as int;
    &&& t.len() > n + 1
    &&& crate::text::lower_seq(t.subrange(0, n)) == word
    &&& forall|i: int| 0 <= i < n ==> crate::text::is_ascii_upper_spec(#[trigger] t[i])
    &&& t[n] == ':'
    &&& crate::text::is_ws(t[n + 1])
    &&& text == crate::text::trim_spec(t.subrange(n + 1, t.len() as int))
    &&& text.len() > 0
}

proof fn lemma_label(line: Seq<char>, word: Seq<char>, upper: Seq<char>, text: Seq<char>)
    requires
        upper.len() == word.len() + 1,
        upper[word.len() as int] == ':',
        forall|i: int| 0 <= i < word.len() ==> crate::text::is_ascii_upper_spec(#[trigger] upper[i]),
        forall|i: int| 0 <= i < word.len() ==> (#[trigger] word[i]) as u32 == upper[i] as u32 + 32,
    ensures
        crate::meta::after_prefix_spec(crate::text::trim_start_spec(line), upper) == Some(text) <==> labelled_with(line, word, text),
{
    let t = crate::text::trim_start_spec(line);
    let n = word.len() as int;
    if crate::meta::after_prefix_spec(t, upper) == Some(text) {
        let u = t.subrange(0, n);
        assert forall|i: int| 0 <= i < n implies t[i] == upper[i] by {
            assert(t.subrange(0, n + 1)[i] == upper[i]);
        }
        assert(t[n] == t.subrange(0, n + 1)[n]);
        assert forall|i: int| 0 <= i < n implies crate::text::lower_seq(u)[i] == word[i] by {
            assert(u[i] == upper[i]);
            assert(crate::text::lower_seq(u)[i] == crate::text::lower_spec(u[i]));
            assert(crate::text::lower_spec(upper[i]) == ((upper[i] as u32) + 32) as char);
            assert(65 <= upper[i] as u32 <= 90);
            let x: u32 = ((upper[i] as u32) + 32) as u32;
            assert(x == word[i] as u32);
            vstd::utf8::char_u32_cast(word[i], x);
            assert(x as char == word[i]);
        }
        assert(crate::text::lower_seq(u) =~= word);
        let rem = t.subrange(n + 1, t.len() as int);
        assert(rem[0] == t[n + 1]);
    }
    if labelled_with(line, word, text) {
        let u = t.subrange(0, n);
        assert forall|i: int| 0 <= i < n implies t[i] == upper[i] by {
            assert(crate::text::lower_seq(u)[i] == word[i]);
            assert(u[i] == t[i]);
            assert(crate::text::is_ascii_upper_spec(t[i]));
            assert((t[i] as u32) + 32 == word[i] as u32);
        }
        assert(t.subrange(0, n + 1) =~= upper);
        let rem = t.subrange(n + 1, t.len() as int);
        assert(rem[0] == t[n + 1]);
    }
}

/// An admonition paragraph's variant is the one its label names: the label, in
/// lower case, is the variant's name (`NOTE:` note, `TIP:` tip, `IMPORTANT:`
/// important, `CAUTION:` caution, `WARNING:` warning), and the text after it is the
/// paragraph's text; and a line labelled with a variant's name in upper case is an
/// admonition of that variant.
pub proof fn law_admonition_label_names_the_variant(line: Seq<char>, v: AdmonitionVariant, text: Seq<char>)
    ensures
        crate::meta::admonition_prefix_spec(line) == Some((v, text)) <==> labelled_with(line, crate::ast::variant_name(v), text),
{
    reveal_strlit("NOTE:");
    reveal_strlit("TIP:");
    reveal_strlit("IMPORTANT:");
    reveal_strlit("CAUTION:");
    reveal_strlit("WARNING:");
    reveal_strlit("note");
    reveal_strlit("tip");
    reveal_strlit("important");
    reveal_strlit("caution");
    reveal_strlit("warning");
    let t = crate::text::trim_start_spec(line);
    let prefixes = seq!["NOTE:"@, "TIP:"@, "IMPORTANT:"@, "CAUTION:"@, "WARNING:"@];
    assert forall|j: int| 0 <= j < 5 && crate::meta::after_prefix_spec(t, #[trigger] prefixes[j]) is Some implies t.len() > 0
        && t[0] == prefixes[j][0] by {
        assert(t.subrange(0, prefixes[j].len() as int)[0] == t[0]);
    }
    assert(prefixes[0] == "NOTE:"@);
    assert(prefixes[1] == "TIP:"@);
    assert(prefixes[2] == "IMPORTANT:"@);
    assert(prefixes[3] == "CAUTION:"@);
    assert(prefixes[4] == "WARNING:"@);
    match v {
        AdmonitionVariant::Note => lemma_label(line, "note"@, "NOTE:"@, text),
        AdmonitionVariant::Tip => lemma_label(line, "tip"@, "TIP:"@, text),
        AdmonitionVariant::Important => lemma_label(line, "important"@, "IMPORTANT:"@, text),
        AdmonitionVariant::Caution => lemma_label(line, "caution"@, "CAUTION:"@, text),
        AdmonitionVariant::Warning => lemma_label(line, "warning"@, "WARNING:"@, text),
    }
}

proof fn lemma_lower_word(upper: Seq<char>, word: Seq<char>)
    requires
        upper.len() == word.len(),
        forall|i: int| 0 <= i < word.len() ==> crate::text::is_ascii_upper_spec(#[trigger] upper[i]),
        forall|i: int| 0 <= i < word.len() ==> (#[trigger] word[i]) as u32 == upper[i] as u32 + 32,
    ensures
        crate::text::lower_seq(upper) == word,
{
    assert forall|i: int| 0 <= i < word.len() implies crate::text::lower_seq(upper)[i] == word[i] by {
        assert(crate::text::lower_seq(upper)[i] == crate::text::lower_spec(upper[i]));
        assert(65 <= upper[i] as u32 <= 90);
        let x: u32 = ((upper[i] as u32) + 32) as u32;
        vstd::utf8::char_u32_cast(word[i], x);
    }
    assert(crate::text::lower_seq(upper) =~= word);
}

/// A block style names an admonition exactly when, in lower case, it is the
/// admonition's name: `note`, `tip`, `important`, `caution` or `warning`, written
/// in any case.
pub proof fn law_admonition_style_names_the_variant(style: Seq<char>, v: AdmonitionVariant)
    ensures
        style_variant(style) == Some(v) <==> crate::text::lower_seq(style) == crate::ast::variant_name(v),
{
    reveal_strlit("NOTE");
    reveal_strlit("TIP");
    reveal_strlit("IMPORTANT");
    reveal_strlit("CAUTION");
    reveal_strlit("WARNING");
    reveal_strlit("note");
    reveal_strlit("tip");
    reveal_strlit("important");
    reveal_strlit("caution");
    reveal_strlit("warning");
    lemma_lower_word("NOTE"@, "note"@);
    lemma_lower_word("TIP"@, "tip"@);
    lemma_lower_word("IMPORTANT"@, "important"@);
    lemma_lower_word("CAUTION"@, "caution"@);
    lemma_lower_word("WARNING"@, "warning"@);
    let l = crate::text::lower_seq(style);
    if l == "note"@ || l == "tip"@ || l == "important"@ || l == "caution"@ || l == "warning"@ {
        assert(l.len() > 0);
    }
    assert("note"@[0] != "tip"@[0] && "note"@[0] != "important"@[0] && "note"@[0] != "caution"@[0]
        && "note"@[0] != "warning"@[0] && "tip"@[0] != "important"@[0] && "tip"@[0] != "caution"@[0]
        && "tip"@[0] != "warning"@[0] && "important"@[0] != "caution"@[0] && "important"@[0] != "warning"@[0]
        && "caution"@[0] != "warning"@[0]);
}

/// An admonition paragraph (`NOTE: text`) and the lines that continue it, up to a
/// blank line, an anchor, a heading, a list item or a delimiter.
pub fn parse_admonition_paragraph(
    lines: &[Vec<char>],
    index: usize,
    pending_prelude: Option<&BlockPrelude>,
) -> (r: Option<(Block, usize)>)
    ensures
        r matches Some(p) ==> 1 <= p.1 && index + p.1 <= lines@.len(),
        r is Some <==> index < lines@.len() && admonition_prefix_spec(lines@[index as int]@) is Some,
        r matches Some(p) ==> p.0 matches Block::Admonition(a) && a.variant == (admonition_prefix_spec(
            lines@[index as int]@,
        )->0).0 && a.blocks@.len() == 1,
{
    if index >= lines.len() {
        return None;
    }
    let (variant, first_line) = match parse_admonition_prefix(&lines[index]) {
        Some(p) => p,
        None => return None,
    };
    let n = lines.len();
    let mut paragraph_lines: Vec<Vec<char>> = Vec::new();
    paragraph_lines.push(first_line);
    let mut consumed: usize = 1;
    while index + consumed < n
        invariant
            n == lines@.len(),
            index < n,
            1 <= consumed,
            index + consumed <= n,
        decreases n - index - consumed,
    {
        let line = &lines[index + consumed];
        if is_blank(line) || parse_block_anchor(line).is_some() || parse_heading(
            lines,
            index + consumed,
        ).is_some() || parse_list_marker(line).is_some() || is_delimited_block_delimiter(line) {
            break;
        }
        paragraph_lines.push(copy(line));
        consumed += 1;
    }
    let mut blocks: Vec<Block> = Vec::new();
    blocks.push(make_paragraph_like_block(paragraph_lines));
    let admonition = AdmonitionBlock {
        variant,
        blocks,
        id: match pending_prelude {
            Some(p) => crate::text::copy_opt(&p.metadata.id),
            None => None,
        },
        reftext: None,
        metadata: BlockMetadata::new(),
    };
    let admonition = match pending_prelude {
        Some(p) => apply_prelude_to_admonition(admonition, Some(p.copy())),
        None => admonition,
    };
    Some((Block::Admonition(admonition), consumed))
}

/// A prelude gives an admonition its metadata, and its id unless it has one.
pub fn apply_prelude_to_admonition(admonition: AdmonitionBlock, prelude: Option<BlockPrelude>) -> (r:
    AdmonitionBlock)
    ensures
        prelude is None ==> r == admonition,
        r.variant == admonition.variant,
        r.blocks == admonition.blocks,
        r.reftext == admonition.reftext,
        prelude matches Some(p) ==> r.metadata == p.metadata,
        prelude matches Some(p) ==> r.id == (if admonition.id is None {
            p.metadata.id
        } else {
            admonition.id
        }),
{
    let mut admonition = admonition;
    match prelude {
        Some(p) => {
            if admonition.id.is_none() {
                admonition.id = crate::text::copy_opt(&p.metadata.id);
            }
            admonition.metadata = p.metadata;
        },
        None => {},
    }
    admonition
}

/// A prelude gives an image its metadata.
pub fn apply_prelude_to_image(image: ImageBlock, prelude: Option<BlockPrelude>) -> (r: ImageBlock)
    ensures
        prelude is None ==> r == image,
        r.target == image.target && r.alt == image.alt,
        r.width == image.width && r.height == image.height,
        prelude matches Some(p) ==> r.metadata == p.metadata,
{
    let mut image = image;
    match prelude {
        Some(p) => {
            image.metadata = p.metadata;
        },
        None => {},
    }
    image
}

/// `image::target[alt,width,height,key=value]` on a line of its own.
pub fn parse_block_image(line: &[char]) -> (r: Option<ImageBlock>)
    ensures
        r matches Some(img) ==> img.target@.len() > 0 && crate::text::starts_at(line@, 0, "image::"@),
        r is Some <==> block_image_spec(line@) is Some,
        r matches Some(img) ==> ({
            let (t, a) = block_image_spec(line@)->0;
            &&& img.target@ == t
            &&& img.alt@ == image_alt_spec(a, t)
            &&& crate::text::opt_view(img.width) == nonempty_positional(image_positional(image_parts(a)), 1)
            &&& crate::text::opt_view(img.height) == nonempty_positional(image_positional(image_parts(a)), 2)
            &&& img.metadata.attributes@ == image_named(image_parts(a))
        }),
{
    proof {
        reveal_strlit("image::");
    }
    let rest = match strip_prefix_str(line, "image::") {
        Some(r) => r,
        None => return None,
    };
    let bracket_start = match find_char(&rest, '[') {
        Some(i) => i,
        None => return None,
    };
    let bracket_end = match rfind_char(&rest, ']') {
        Some(i) => i,
        None => return None,
    };
    if bracket_end <= bracket_start {
        return None;
    }
    let target = trim(&cut(&rest, 0, bracket_start));
    if target.len() == 0 {
        return None;
    }
    let attr_text = cut(&rest, bracket_start + 1, bracket_end);
    let (alt, width, height, named) = parse_image_attributes(&attr_text, &target);
    let mut metadata = BlockMetadata::new();
    metadata.attributes = named;
    Some(ImageBlock { target: to_string(&target), alt, width, height, metadata })
}

/// The state of the image attribute split after reading `s`: the parts closed so
/// far, the open part, whether a quote is open, and the quote character.
pub open spec fn image_split_state(s: Seq<char>) -> (Seq<Seq<char>>, Seq<char>, bool, char)
    decreases s.len(),
{
    if s.len() == 0 {
        (Seq::empty(), Seq::empty(), false, '"')
    } else {
        let st = image_split_state(s.drop_last());
        let ch = s.last();
        if !st.2 && (ch == '"' || ch == '\'') {
            (st.0, st.1.push(ch), true, ch)
        } else if st.2 && ch == st.3 {
            (st.0, st.1.push(ch), false, st.3)
        } else if !st.2 && ch == ',' {
            (st.0.push(st.1), Seq::empty(), st.2, st.3)
        } else {
            (st.0, st.1.push(ch), st.2, st.3)
        }
    }
}

/// The parts of an image attribute list: split at commas outside quotes, quotes kept.
pub open spec fn split_image_attrs_spec(s: Seq<char>) -> Seq<Seq<char>> {
    let st = image_split_state(s);
    st.0.push(st.1)
}

/// The parts of an image's attribute text; none when the text is empty.
pub open spec fn image_parts(attr_text: Seq<char>) -> Seq<Seq<char>> {
    if attr_text.len() > 0 {
        split_image_attrs_spec(attr_text)
    } else {
        Seq::empty()
    }
}

/// The trimmed parts that hold no `=`, in order.
pub open spec fn image_positional(parts: Seq<Seq<char>>) -> Seq<Seq<char>>
    decreases parts.len(),
{
    if parts.len() == 0 {
        Seq::empty()
    } else {
        let prev = image_positional(parts.drop_last());
        let part = trim_spec(parts.last());
        if crate::text::first_pos(part, '=') >= 0 {
            prev
        } else {
            prev.push(part)
        }
    }
}

/// The `key=value` parts as a map, later keys winning: key and value trimmed, the
/// value stripped of double and then single quotes at both ends.
pub open spec fn image_named(parts: Seq<Seq<char>>) -> Map<Seq<char>, Seq<char>>
    decreases parts.len(),
{
    if parts.len() == 0 {
        Map::empty()
    } else {
        let prev = image_named(parts.drop_last());
        let part = trim_spec(parts.last());
        let eq = crate::text::first_pos(part, '=');
        if eq >= 0 {
            prev.insert(
                trim_spec(part.subrange(0, eq)),
                crate::inline::trim_matches_spec(
                    crate::inline::trim_matches_spec(
                        trim_spec(part.subrange(eq + 1, part.len() as int)),
                        '"',
                    ),
                    '\'',
                ),
            )
        } else {
            prev
        }
    }
}

/// The positional attribute at `k` when it is there and not empty.
pub open spec fn nonempty_positional(pos: Seq<Seq<char>>, k: int) -> Option<Seq<char>> {
    if pos.len() > k && pos[k].len() > 0 {
        Some(pos[k])
    } else {
        None
    }
}

/// The alt text of a block image: its first positional attribute, or, when that
/// is missing or empty, the text made from the target.
pub open spec fn image_alt_spec(attr_text: Seq<char>, target: Seq<char>) -> Seq<char> {
    match nonempty_positional(image_positional(image_parts(attr_text)), 0) {
        Some(a) => a,
        None => crate::inline::auto_alt_spec(target),
    }
}

/// The target and attribute text of an `image::target[attrs]` line: the text
/// between `image::` and the first `[`, trimmed and not empty, and what stands
/// between that `[` and the last `]`.
pub open spec fn block_image_spec(line: Seq<char>) -> Option<(Seq<char>, Seq<char>)> {
    let rest = line.subrange(7, line.len() as int);
    let bs = crate::text::first_pos(rest, '[');
    let be = crate::text::last_pos(rest, ']');
    if !crate::text::starts_at(line, 0, "image::"@) || bs < 0 || be < 0 || be <= bs || trim_spec(
        rest.subrange(0, bs),
    ).len() == 0 {
        None
    } else {
        Some((trim_spec(rest.subrange(0, bs)), rest.subrange(bs + 1, be)))
    }
}

/// Alt text, width, height and named attributes of a block image. Without a
/// non-empty first positional attribute, the alt text comes from the target.
pub fn parse_image_attributes(attr_text: &[char], target: &[char]) -> (r: (
    String,
    Option<String>,
    Option<String>,
    AttributeMap,
))
    ensures
        r.1 matches Some(w) ==> w@.len() > 0,
        r.2 matches Some(h) ==> h@.len() > 0,
        r.0@ == image_alt_spec(attr_text@, target@),
        crate::text::opt_view(r.1) == nonempty_positional(image_positional(image_parts(attr_text@)), 1),
        crate::text::opt_view(r.2) == nonempty_positional(image_positional(image_parts(attr_text@)), 2),
        r.3@ == image_named(image_parts(attr_text@)),
{
    let mut named = AttributeMap::new();
    let mut positional: Vec<Vec<char>> = Vec::new();
    let ghost all_parts = image_parts(attr_text@);
    if attr_text.len() > 0 {
        let parts = split_image_attrs(attr_text);
        let mut i: usize = 0;
        while i < parts.len()
            invariant
                i <= parts@.len(),
                crate::text::views(parts@) == all_parts,
                crate::text::views(positional@) == image_positional(all_parts.subrange(0, i as int)),
                named@ == image_named(all_parts.subrange(0, i as int)),
            decreases parts.len() - i,
        {
            assert(all_parts.subrange(0, i + 1).drop_last() == all_parts.subrange(0, i as int));
            let part = trim(&parts[i]);
            match find_char(&part, '=') {
                Some(eq) => {
                    let key = trim(&cut(&part, 0, eq));
                    let value = trim(&cut(&part, eq + 1, part.len()));
                    let value = trim_matches_char(&trim_matches_char(&value, '"'), '\'');
                    named.insert_chars(&key, to_string(&value));
                },
                None => positional.push(part),
            }
            i += 1;
        }
        assert(all_parts.subrange(0, parts@.len() as int) == all_parts);
    }
    assert(crate::text::views(positional@) == image_positional(all_parts));
    let alt = if positional.len() > 0 && positional[0].len() > 0 {
        to_string(&positional[0])
    } else {
        to_string(&auto_generate_alt(target))
    };
    let width = if positional.len() > 1 && positional[1].len() > 0 {
        Some(to_string(&positional[1]))
    } else {
        None
    };
    let height = if positional.len() > 2 && positional[2].len() > 0 {
        Some(to_string(&positional[2]))
    } else {
        None
    };
    (alt, width, height, named)
}

/// Splits at commas outside single or double quotes; the quotes are kept.
pub fn split_image_attrs(text: &[char]) -> (r: Vec<Vec<char>>)
    ensures
        r@.len() >= 1,
        crate::text::views(r@) == split_image_attrs_spec(text@),
{
    let mut parts: Vec<Vec<char>> = Vec::new();
    let mut current: Vec<char> = Vec::new();
    let mut in_quote = false;
    let mut quote_char = '"';
    let mut i: usize = 0;
    while i < text.len()
        invariant
            i <= text@.len(),
            crate::text::views(parts@) == image_split_state(text@.subrange(0, i as int)).0,
            current@ == image_split_state(text@.subrange(0, i as int)).1,
            in_quote == image_split_state(text@.subrange(0, i as int)).2,
            quote_char == image_split_state(text@.subrange(0, i as int)).3,
        decreases text.len() - i,
    {
        let ch = text[i];
        assert(text@.subrange(0, i + 1).drop_last() == text@.subrange(0, i as int));
        i += 1;
        if !in_quote && (ch == '"' || ch == '\'') {
            in_quote = true;
            quote_char = ch;
        } else if in_quote && ch == quote_char {
            in_quote = false;
        } else if !in_quote && ch == ',' {
            let mut done: Vec<char> = Vec::new();
            std::mem::swap(&mut done, &mut current);
            parts.push(done);
            continue;
        }
        current.push(ch);
    }
    parts.push(current);
    assert(text@.subrange(0, text@.len() as int) == text@);
    parts
}

/// `s` read as a `u32`, as std `str::parse::<u32>` reads it.
pub open spec fn u32_spec(s: Seq<char>) -> Option<u32> {
    if crate::text::parses_unsigned(s) && crate::text::digits_value(crate::text::unsigned_digits(s))
        <= u32::MAX {
        Some(crate::text::digits_value(crate::text::unsigned_digits(s)) as u32)
    } else {
        None
    }
}

/// The automatic callout counter after one more `.` marker (it stays at the
/// largest `u32`).
pub open spec fn bump(c: u32) -> u32 {
    if c < u32::MAX {
        (c + 1) as u32
    } else {
        c
    }
}

/// The number a callout marker's text gives, and the counter after it: `.`
/// takes the next automatic number, digits give their value.
pub open spec fn marker_number(num: Seq<char>, counter: u32) -> Option<(u32, u32)> {
    if num == "."@ {
        Some((bump(counter), bump(counter)))
    } else {
        match u32_spec(num) {
            Some(v) => Some((v, counter)),
            None => None,
        }
    }
}

/// The last position at or before `i` where `p` occurs in `s`, or -1.
pub open spec fn last_match_from(s: Seq<char>, p: Seq<char>, i: int) -> int
    decreases i + 1,
{
    if i < 0 {
        -1
    } else if crate::text::starts_at(s, i, p) {
        i
    } else {
        last_match_from(s, p, i - 1)
    }
}

/// The start of the last occurrence of `p` in `s`, or -1.
pub open spec fn last_match(s: Seq<char>, p: Seq<char>) -> int {
    last_match_from(s, p, s.len() - p.len())
}

/// A `<!--N-->` marker at the end of `t`: the text before it (trimmed at its end),
/// its number and the counter after it.
pub open spec fn comment_callout(t: Seq<char>, counter: u32) -> Option<(Seq<char>, u32, u32)> {
    let rest = t.subrange(0, t.len() - 3);
    let start = last_match(rest, "<!--"@);
    if !crate::text::ends_with_spec(t, "-->"@) || start < 0 {
        None
    } else {
        match marker_number(rest.subrange(start + 4, rest.len() as int), counter) {
            Some((n, c)) => Some((crate::text::trim_end_spec(rest.subrange(0, start)), n, c)),
            None => None,
        }
    }
}

/// A `<N>` marker at the end of `t`: the text before it (trimmed at its end), its
/// number and the counter after it.
pub open spec fn angle_callout(t: Seq<char>, counter: u32) -> Option<(Seq<char>, u32, u32)> {
    let rest = t.drop_last();
    let start = crate::text::last_pos(rest, '<');
    if t.len() == 0 || t.last() != '>' || start < 0 {
        None
    } else {
        match marker_number(rest.subrange(start + 1, rest.len() as int), counter) {
            Some((n, c)) => Some((crate::text::trim_end_spec(rest.subrange(0, start)), n, c)),
            None => None,
        }
    }
}

/// The callout marker at the end of a listing line (a comment marker tried
/// first): the line without it, its number, and the counter after it.
pub open spec fn callout_marker_spec(line: Seq<char>, counter: u32) -> Option<(Seq<char>, u32, u32)> {
    let t = crate::text::trim_end_spec(line);
    match comment_callout(t, counter) {
        Some(x) => Some(x),
        None => angle_callout(t, counter),
    }
}

/// Removes a callout marker (`<1>`, `<.>`, `<!--1-->`, `<!--.-->`) from the end of
/// a listing line. `<.>` takes the next number of `auto_counter`.
pub fn strip_callout_marker(line: &[char], auto_counter: &mut u32) -> (r: (Vec<char>, Option<u32>))
    ensures
        r.1 is None ==> r.0@ == line@ && *final(auto_counter) == *old(auto_counter),
        match callout_marker_spec(line@, *old(auto_counter)) {
            Some((c, n, k)) => r.0@ == c && r.1 == Some(n) && *final(auto_counter) == k,
            None => r.0@ == line@ && r.1 is None && *final(auto_counter) == *old(auto_counter),
        },
{
    proof {
        reveal_strlit("<!--");
        reveal_strlit("-->");
        reveal_strlit(".");
    }
    let trimmed = trim_end(line);
    match crate::text::strip_suffix_str(&trimmed, "-->") {
        Some(rest) => {
            let rest_len = rest.len();
            match find_last(&rest, "<!--") {
                Some(start) => {
                    let num = cut(&rest, start + 4, rest_len);
                    let content = trim_end(&cut(&rest, 0, start));
                    if eq_str(&num, ".") {
                        if *auto_counter < u32::MAX {
                            *auto_counter = *auto_counter + 1;
                        }
                        return (content, Some(*auto_counter));
                    }
                    match parse_u32(&num) {
                        Some(v) => return (content, Some(v)),
                        None => {},
                    }
                },
                None => {},
            }
        },
        None => {},
    }
    if trimmed.len() > 0 && trimmed[trimmed.len() - 1] == '>' {
        let rest = cut(&trimmed, 0, trimmed.len() - 1);
        match rfind_char(&rest, '<') {
            Some(start) => {
                let num = cut(&rest, start + 1, rest.len());
                let content = trim_end(&cut(&rest, 0, start));
                if eq_str(&num, ".") {
                    if *auto_counter < u32::MAX {
                        *auto_counter = *auto_counter + 1;
                    }
                    return (content, Some(*auto_counter));
                }
                match parse_u32(&num) {
                    Some(v) => return (content, Some(v)),
                    None => {},
                }
            },
            None => {},
        }
    }
    (copy(line), None)
}

/// The start of the last occurrence of `p` in `s`.
fn find_last(s: &[char], p: &str) -> (r: Option<usize>)
    ensures
        r matches Some(i) ==> i + p@.len() <= s@.len() && crate::text::starts_at(s@, i as int, p@),
        r matches Some(i) ==> i == last_match(s@, p@),
        r is None <==> last_match(s@, p@) < 0,
{
    let pc = crate::text::to_chars(p);
    if pc.len() > s.len() {
        assert(last_match(s@, p@) == -1);
        return None;
    }
    let mut i = s.len() - pc.len();
    loop
        invariant
            i <= s@.len() - pc@.len(),
            pc@ == p@,
            last_match(s@, p@) == last_match_from(s@, p@, i as int),
        decreases i,
    {
        if crate::text::starts_with_at(s, i, &pc) {
            return Some(i);
        }
        if i == 0 {
            assert(last_match_from(s@, p@, -1) == -1);
            return None;
        }
        i -= 1;
    }
}

/// A listing's lines without their callout markers, the `(line index, number)` of
/// each marker in order, and the automatic counter after them.
pub open spec fn listing_state(lines: Seq<Seq<char>>) -> (Seq<Seq<char>>, Seq<(usize, u32)>, u32)
    decreases lines.len(),
{
    if lines.len() == 0 {
        (Seq::empty(), Seq::empty(), 0u32)
    } else {
        let st = listing_state(lines.drop_last());
        match callout_marker_spec(lines.last(), st.2) {
            Some((c, n, k)) => (st.0.push(c), st.1.push(((lines.len() - 1) as usize, n)), k),
            None => (st.0.push(lines.last()), st.1, st.2),
        }
    }
}

/// A listing whose lines lose their callout markers; `callouts` records, in order,
/// the index of each line that had one and its number.
pub fn make_listing_from_lines(lines: &[Vec<char>], reftext: Option<String>, metadata: BlockMetadata) -> (r:
    Listing)
    ensures
        r.lines@.len() == lines@.len(),
        r.reftext == reftext,
        r.metadata == metadata,
        crate::meta::string_views(r.lines@) == listing_state(crate::text::views(lines@)).0,
        r.callouts@ == listing_state(crate::text::views(lines@)).1,
        forall|k: int| 0 <= k < r.callouts@.len() ==> (#[trigger] r.callouts@[k]).0 < lines@.len(),
        forall|a: int, b: int| 0 <= a < b < r.callouts@.len() ==> r.callouts@[a].0 < r.callouts@[b].0,
{
    let mut stripped: Vec<String> = Vec::new();
    let mut callouts: Vec<(usize, u32)> = Vec::new();
    let mut auto_counter: u32 = 0;
    let mut idx: usize = 0;
    let ghost ls = crate::text::views(lines@);
    while idx < lines.len()
        invariant
            idx <= lines@.len(),
            ls == crate::text::views(lines@),
            stripped@.len() == idx,
            forall|k: int| 0 <= k < callouts@.len() ==> (#[trigger] callouts@[k]).0 < idx,
            forall|a: int, b: int| 0 <= a < b < callouts@.len() ==> callouts@[a].0 < callouts@[b].0,
            crate::meta::string_views(stripped@) == listing_state(ls.subrange(0, idx as int)).0,
            callouts@ == listing_state(ls.subrange(0, idx as int)).1,
            auto_counter == listing_state(ls.subrange(0, idx as int)).2,
        decreases lines.len() - idx,
    {
        assert(ls.subrange(0, idx + 1).drop_last() == ls.subrange(0, idx as int));
        assert(ls.subrange(0, idx + 1).last() == lines@[idx as int]@);
        let (content, marker) = strip_callout_marker(&lines[idx], &mut auto_counter);
        match marker {
            Some(number) => callouts.push((idx, number)),
            None => {},
        }
        stripped.push(to_string(&content));
        idx += 1;
    }
    assert(ls.subrange(0, lines@.len() as int) == ls);
    Listing { lines: stripped, callouts, reftext, metadata }
}

/// A callout list line `<N> text` (or `<.> text`) read with the automatic counter
/// at `counter`: its number, the counter after it, and its text.
pub open spec fn callout_item_spec(line: Seq<char>, counter: u32) -> Option<(u32, u32, Seq<char>)> {
    let t = crate::text::trim_start_spec(line);
    let rest = t.drop_first();
    let gt = crate::text::first_pos(rest, '>');
    if t.len() == 0 || t[0] != '<' || gt < 0 {
        None
    } else {
        match marker_number(rest.subrange(0, gt), counter) {
            Some((n, c)) => Some((n, c, trim_spec(rest.subrange(gt + 1, rest.len() as int)))),
            None => None,
        }
    }
}

/// The numbers and texts of the callout list lines in a row from `i`.
pub open spec fn callout_items(lines: Seq<Seq<char>>, i: int, counter: u32) -> Seq<(u32, Seq<char>)>
    decreases lines.len() - i,
{
    if 0 <= i < lines.len() {
        match callout_item_spec(lines[i], counter) {
            Some((n, c, text)) => seq![(n, text)] + callout_items(lines, i + 1, c),
            None => Seq::empty(),
        }
    } else {
        Seq::empty()
    }
}

/// Consecutive `<N> text` (or `<.> text`) lines starting at `index`.
pub fn parse_callout_list(lines: &[Vec<char>], index: usize) -> (r: Option<(Block, usize)>)
    ensures
        r matches Some(p) ==> 1 <= p.1 && index + p.1 <= lines@.len(),
        r is Some <==> callout_items(crate::text::views(lines@), index as int, 0).len() > 0,
        r matches Some(p) ==> p.1 == callout_items(crate::text::views(lines@), index as int, 0).len(),
        r matches Some(p) ==> p.0 matches Block::CalloutList(cl) && cl.items@.len() == p.1 && forall|k: int|
            0 <= k < cl.items@.len() ==> (#[trigger] cl.items@[k]).number == callout_items(
                crate::text::views(lines@),
                index as int,
                0,
            )[k].0,
{
    let n = lines.len();
    let mut items: Vec<CalloutItem> = Vec::new();
    let mut i = index;
    let mut auto_counter: u32 = 0;
    let ghost ls = crate::text::views(lines@);
    let ghost all = callout_items(ls, index as int, 0);
    let ghost mut got: Seq<(u32, Seq<char>)> = Seq::empty();
    while i < n
        invariant
            n == lines@.len(),
            ls == crate::text::views(lines@),
            index <= i,
            index < n ==> i <= n,
            index >= n ==> i == index,
            items@.len() == i - index,
            items@.len() > 0 ==> i > index,
            items@.len() == got.len(),
            all == callout_items(ls, index as int, 0),
            all == got + callout_items(ls, i as int, auto_counter),
            forall|k: int| 0 <= k < items@.len() ==> (#[trigger] items@[k]).number == got[k].0,
        ensures
            callout_items(ls, i as int, auto_counter).len() == 0,
            all == got + callout_items(ls, i as int, auto_counter),
            items@.len() == got.len(),
            items@.len() == i - index,
            forall|k: int| 0 <= k < items@.len() ==> (#[trigger] items@[k]).number == got[k].0,
            index < n ==> i <= n,
            index >= n ==> i == index,
        decreases n - i,
    {
        let trimmed = trim_start(&lines[i]);
        if trimmed.len() == 0 || trimmed[0] != '<' {
            break;
        }
        let rest = cut(&trimmed, 1, trimmed.len());
        assert(rest@ == trimmed@.drop_first());
        let gt = match find_char(&rest, '>') {
            Some(g) => g,
            None => break,
        };
        let num = cut(&rest, 0, gt);
        proof {
            reveal_strlit(".");
        }
        let number = if eq_str(&num, ".") {
            if auto_counter < u32::MAX {
                auto_counter = auto_counter + 1;
            }
            Some(auto_counter)
        } else {
            parse_u32(&num)
        };
        match number {
            Some(number) => {
                let content = trim(&cut(&rest, gt + 1, rest.len()));
                proof {
                    got = got.push((number, content@));
                    assert(got == got.drop_last().push((number, content@)));
                }
                items.push(CalloutItem { number, inlines: parse_inline_chars(&content) });
                i += 1;
            },
            None => break,
        }
    }
    if items.len() == 0 {
        return None;
    }
    Some((Block::CalloutList(CalloutList { items, metadata: BlockMetadata::new() }), i - index))
}

} // verus!
