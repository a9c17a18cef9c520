//! The prepared document model handed to renderers: sections with ids,
//! a preamble, numbered footnotes and resolved cross references.
use vstd::prelude::*;
use crate::ast::{
    AdmonitionBlock as AstAdmonitionBlock, Block, BlockMetadata, CompoundBlock as AstCompoundBlock,
    DescriptionList as AstDescriptionList, Document, ImageBlock as AstImageBlock, Inline, InlineForm,
    InlineVariant, ListItem, Listing as AstListing, Paragraph, PassthroughBlock as AstPassthroughBlock,
    QuoteBlock as AstQuoteBlock, TableBlock as AstTableBlock, TableCell as AstTableCell,
    TableRow as AstTableRow, inlines_text, variant_name,
};
use crate::attrs::AttributeMap;
use crate::meta::contains_string;
use crate::normalize::{trim_outer_blank_lines, trimmed_outer_lines};
use crate::text::{
    append, char_is_alphanumeric, chars_eq, contains_str, copy, copy_opt, cut, decimal_spec, is_alphanumeric,
    is_blank, join_str, lit, lower_seq, lower_spec, starts_at, starts_with_str, string_chars, to_ascii_lower,
    to_ascii_lowercase, to_chars, to_string, trim, trim_spec, usize_to_chars, opt_view,
};

verus! {

/// Whether a block holds inline content or other blocks.
#[derive(Debug, Clone, Copy, PartialEq, Eq, Structural)]
pub enum ContentModel {
    Simple,
    Compound,
}

/// The prepared document: title, header flags, attributes, revision, blocks with
/// their sections, numbered footnotes, the section outline and the authors.
#[derive(Debug, PartialEq, Eq)]
pub struct DocumentBlock {
    pub node_type: String,
    pub title: String,
    pub has_header: bool,
    pub no_header: bool,
    pub attributes: AttributeMap,
    pub revision: Option<Revision>,
    pub blocks: Vec<PreparedBlock>,
    pub content_model: Option<ContentModel>,
    pub footnotes: Vec<Footnote>,
    pub sections: Vec<DocumentSection>,
    pub authors: Vec<Author>,
}

/// One entry of the section outline.
#[derive(Debug, PartialEq, Eq)]
pub struct DocumentSection {
    pub id: String,
    pub title: String,
    pub level: u8,
    pub num: String,
    pub sections: Vec<DocumentSection>,
}

#[derive(Debug, PartialEq, Eq)]
pub enum PreparedBlock {
    Preamble(CompoundBlock),
    Paragraph(ParagraphBlock),
    Admonition(AdmonitionBlock),
    Section(SectionBlock),
    UnorderedList(ListBlock),
    OrderedList(ListBlock),
    DescriptionList(DescriptionListBlock),
    Table(TableBlock),
    Listing(ListingBlock),
    Literal(ListingBlock),
    CalloutList(CalloutListBlock),
    Example(CompoundBlock),
    Sidebar(CompoundBlock),
    Open(CompoundBlock),
    Quote(QuoteBlock),
    Passthrough(PassthroughBlock),
    Image(ImageBlock),
    Toc(TocBlock),
}

#[derive(Debug, PartialEq, Eq)]
pub struct ParagraphBlock {
    pub id: Option<String>,
    pub reftext: Option<String>,
    pub blocks: Vec<PreparedBlock>,
    pub content: String,
    pub inlines: Vec<PreparedInline>,
    pub attributes: AttributeMap,
    pub content_model: Option<ContentModel>,
    pub line_number: Option<u32>,
    pub style: Option<String>,
    pub role: Option<String>,
    pub level: u8,
    pub title: Option<String>,
}

#[derive(Debug, PartialEq, Eq)]
pub struct AdmonitionBlock {
    pub id: Option<String>,
    pub reftext: Option<String>,
    pub blocks: Vec<PreparedBlock>,
    pub attributes: AttributeMap,
    pub content_model: Option<ContentModel>,
    pub line_number: Option<u32>,
    pub style: Option<String>,
    pub role: Option<String>,
    pub level: u8,
    pub title: Option<String>,
    pub variant: String,
}

#[derive(Debug, PartialEq, Eq)]
pub struct ListBlock {
    pub id: Option<String>,
    pub reftext: Option<String>,
    pub items: Vec<ListItemBlock>,
    pub attributes: AttributeMap,
    pub content_model: Option<ContentModel>,
    pub style: Option<String>,
    pub role: Option<String>,
    pub level: u8,
    pub name: String,
    pub title: Option<String>,
}

#[derive(Debug, PartialEq, Eq)]
pub struct ListItemBlock {
    pub blocks: Vec<PreparedBlock>,
}

#[derive(Debug, PartialEq, Eq)]
pub struct DescriptionListBlock {
    pub id: Option<String>,
    pub reftext: Option<String>,
    pub items: Vec<DescriptionListItemBlock>,
    pub attributes: AttributeMap,
    pub content_model: Option<ContentModel>,
    pub style: Option<String>,
    pub role: Option<String>,
    pub level: u8,
    pub name: String,
    pub title: Option<String>,
}

#[derive(Debug, PartialEq, Eq)]
pub struct DescriptionListItemBlock {
    pub terms: Vec<DescriptionListTermBlock>,
    pub description: Option<ListItemBlock>,
}

#[derive(Debug, PartialEq, Eq)]
pub struct DescriptionListTermBlock {
    pub text: String,
    pub inlines: Vec<PreparedInline>,
}

#[derive(Debug, PartialEq, Eq)]
pub struct ListingBlock {
    pub id: Option<String>,
    pub reftext: Option<String>,
    pub content: String,
    pub attributes: AttributeMap,
    pub content_model: Option<ContentModel>,
    pub line_number: Option<u32>,
    pub style: Option<String>,
    pub role: Option<String>,
    pub level: u8,
    pub title: Option<String>,
    /// (line index within `content`, callout number), in line order.
    pub callout_lines: Vec<(usize, u32)>,
}

#[derive(Debug, PartialEq, Eq)]
pub struct CalloutListBlock {
    pub items: Vec<CalloutItemBlock>,
}

#[derive(Debug, PartialEq, Eq)]
pub struct CalloutItemBlock {
    pub number: u32,
    pub inlines: Vec<PreparedInline>,
}

#[derive(Debug, PartialEq, Eq)]
pub struct TableBlock {
    pub id: Option<String>,
    pub reftext: Option<String>,
    pub header: Option<TableRow>,
    pub rows: Vec<TableRow>,
    pub attributes: AttributeMap,
    pub content_model: Option<ContentModel>,
    pub style: Option<String>,
    pub role: Option<String>,
    pub level: u8,
    pub title: Option<String>,
}

#[derive(Debug, PartialEq, Eq)]
pub struct TableRow {
    pub cells: Vec<TableCell>,
}

#[derive(Debug, PartialEq, Eq)]
pub struct TableCell {
    pub content: String,
    pub inlines: Vec<PreparedInline>,
    pub blocks: Vec<PreparedBlock>,
    pub colspan: usize,
    pub rowspan: usize,
    pub style: Option<String>,
}

#[derive(Debug, PartialEq, Eq)]
pub enum PreparedInline {
    Text(TextInline),
    Span(SpanInline),
    Link(LinkInline),
    Xref(XrefInline),
    Anchor(AnchorInline),
    Passthrough(PassthroughInline),
    Image(ImageInline),
    Icon(IconInline),
    Footnote(FootnoteInline),
}

#[derive(Debug, PartialEq, Eq)]
pub struct TextInline {
    pub value: String,
}

#[derive(Debug, PartialEq, Eq)]
pub struct SpanInline {
    pub variant: String,
    pub form: String,
    pub inlines: Vec<PreparedInline>,
}

#[derive(Debug, PartialEq, Eq)]
pub struct LinkInline {
    pub target: String,
    pub inlines: Vec<PreparedInline>,
    pub bare: bool,
    pub window: Option<String>,
}

#[derive(Debug, PartialEq, Eq)]
pub struct XrefInline {
    pub target: String,
    pub href: String,
    pub inlines: Vec<PreparedInline>,
    pub shorthand: bool,
}

#[derive(Debug, PartialEq, Eq)]
pub struct AnchorInline {
    pub id: String,
    pub reftext: Option<String>,
    pub inlines: Vec<PreparedInline>,
}

#[derive(Debug, PartialEq, Eq)]
pub struct PassthroughInline {
    pub value: String,
}

#[derive(Debug, PartialEq, Eq)]
pub struct PassthroughBlock {
    pub id: Option<String>,
    pub content: String,
    pub style: Option<String>,
    pub role: Option<String>,
    pub title: Option<String>,
}

#[derive(Debug, Clone, Copy, PartialEq, Eq)]
pub struct TocBlock {}

#[derive(Debug, PartialEq, Eq)]
pub struct ImageBlock {
    pub id: Option<String>,
    pub reftext: Option<String>,
    pub target: String,
    pub alt: String,
    pub width: Option<String>,
    pub height: Option<String>,
    pub attributes: AttributeMap,
    pub title: Option<String>,
    pub style: Option<String>,
    pub role: Option<String>,
    pub link: Option<String>,
    pub float: Option<String>,
    pub align: Option<String>,
}

#[derive(Debug, PartialEq, Eq)]
pub struct ImageInline {
    pub target: String,
    pub alt: String,
    pub width: Option<String>,
    pub height: Option<String>,
}

#[derive(Debug, PartialEq, Eq)]
pub struct IconInline {
    pub name: String,
    pub size: Option<String>,
    pub title: Option<String>,
    pub role: Option<String>,
}

#[derive(Debug, PartialEq, Eq)]
pub struct FootnoteInline {
    pub index: Option<u32>,
    pub inlines: Vec<PreparedInline>,
}

#[derive(Debug, PartialEq, Eq)]
pub struct SectionBlock {
    pub id: String,
    pub reftext: Option<String>,
    pub blocks: Vec<PreparedBlock>,
    pub attributes: AttributeMap,
    pub content_model: Option<ContentModel>,
    pub line_number: Option<u32>,
    pub style: Option<String>,
    pub role: Option<String>,
    pub level: u8,
    pub title: String,
    pub numbered: bool,
    pub num: String,
    pub name: String,
}

#[derive(Debug, PartialEq, Eq)]
pub struct CompoundBlock {
    pub id: Option<String>,
    pub reftext: Option<String>,
    pub blocks: Vec<PreparedBlock>,
    pub attributes: AttributeMap,
    pub content_model: Option<ContentModel>,
    pub line_number: Option<u32>,
    pub style: Option<String>,
    pub role: Option<String>,
    pub level: u8,
    pub title: Option<String>,
}

#[derive(Debug, PartialEq, Eq)]
pub struct QuoteBlock {
    pub id: Option<String>,
    pub reftext: Option<String>,
    pub blocks: Vec<PreparedBlock>,
    pub content: String,
    pub attributes: AttributeMap,
    pub content_model: Option<ContentModel>,
    pub line_number: Option<u32>,
    pub style: Option<String>,
    pub role: Option<String>,
    pub level: u8,
    pub title: Option<String>,
    pub attribution: Option<String>,
    pub citetitle: Option<String>,
    pub is_verse: bool,
}

/// A footnote collected from the text, with its number.
#[derive(Debug, PartialEq, Eq)]
pub struct Footnote {
    pub text: Option<String>,
    pub index: Option<u32>,
    pub inlines: Vec<PreparedInline>,
}

#[derive(Debug, PartialEq, Eq)]
pub struct Author {
    pub name: Option<String>,
    pub email: Option<String>,
}

#[derive(Debug, PartialEq, Eq)]
pub struct Revision {
    pub number: Option<String>,
    pub date: Option<String>,
    pub remark: Option<String>,
}


// ---------------------------------------------------------------------------
// Section ids

/// The slug state after reading `s`: the slug so far (starting with `_`) and
/// whether the last character read was a separator.
pub open spec fn slug_state(s: Seq<char>) -> (Seq<char>, bool)
    decreases s.len(),
{
    if s.len() == 0 {
        (seq!['_'], false)
    } else {
        let (slug, prev) = slug_state(s.drop_last());
        let c = s.last();
        if char_is_alphanumeric(c) {
            (slug.push(lower_spec(c)), false)
        } else if !prev {
            (slug.push('_'), true)
        } else {
            (slug, prev)
        }
    }
}

/// `s` without its trailing underscores.
pub open spec fn strip_trailing_underscores(s: Seq<char>) -> Seq<char>
    decreases s.len(),
{
    if s.len() > 0 && s.last() == '_' {
        strip_trailing_underscores(s.drop_last())
    } else {
        s
    }
}

/// The slug of a title: `_`, then each alphanumeric character lower-cased and each
/// run of other characters as one `_`, without trailing underscores; `_section`
/// when nothing is left but the leading `_`.
pub open spec fn slug_spec(title: Seq<char>) -> Seq<char> {
    let s = strip_trailing_underscores(slug_state(title).0);
    if s == seq!['_'] {
        "_section"@
    } else {
        s
    }
}

/// A section slug never ends with an underscore.
pub proof fn law_slug_has_no_trailing_underscore(title: Seq<char>)
    ensures
        slug_spec(title).len() == 0 || slug_spec(title).last() != '_',
{
    lemma_strip_trailing_underscores(slug_state(title).0);
    reveal_strlit("_section");
}

proof fn lemma_strip_trailing_underscores(s: Seq<char>)
    ensures
        strip_trailing_underscores(s).len() == 0 || strip_trailing_underscores(s).last() != '_',
    decreases s.len(),
{
    if s.len() > 0 && s.last() == '_' {
        lemma_strip_trailing_underscores(s.drop_last());
    }
}

/// The slug of a section title (see `slug_spec`).
pub fn slugify(title: &[char]) -> (r: Vec<char>)
    ensures
        r@ == slug_spec(title@),
{
    let mut slug: Vec<char> = Vec::new();
    slug.push('_');
    let mut previous_was_separator = false;
    let mut i: usize = 0;
    while i < title.len()
        invariant
            i <= title@.len(),
            (slug@, previous_was_separator) == slug_state(title@.subrange(0, i as int)),
        decreases title.len() - i,
    {
        assert(title@.subrange(0, i + 1).drop_last() =~= title@.subrange(0, i as int));
        let ch = title[i];
        if is_alphanumeric(ch) {
            slug.push(to_ascii_lower(ch));
            previous_was_separator = false;
        } else if !previous_was_separator {
            slug.push('_');
            previous_was_separator = true;
        }
        i += 1;
    }
    assert(title@.subrange(0, title@.len() as int) =~= title@);
    let ghost full = slug@;
    while slug.len() > 0 && slug[slug.len() - 1] == '_'
        invariant
            strip_trailing_underscores(slug@) == strip_trailing_underscores(full),
        decreases slug.len(),
    {
        let ghost before = slug@;
        slug.pop();
        assert(slug@ =~= before.drop_last());
    }
    if slug.len() == 1 && slug[0] == '_' {
        assert(slug@ =~= seq!['_']);
        return to_chars("_section");
    }
    proof {
        if slug@ == seq!['_'] {
            assert(slug@[0] == '_');
        }
    }
    slug
}

/// `section_ids[level]` counts the sections at `level` under the current parent;
/// deeper counters restart. The id is the title's slug, with `-n` from the second
/// section with that counter on.
pub fn next_section_id(section_ids: &mut Vec<u32>, level: u8, title: &[char]) -> (r: Vec<char>)
    ensures
        final(section_ids)@.len() == (if old(section_ids)@.len() > level as nat {
            old(section_ids)@.len()
        } else {
            level as nat + 1
        }),
        final(section_ids)@[level as int] == (if old(section_ids)@.len() > level as nat {
            bump(old(section_ids)@[level as int])
        } else {
            1u32
        }),
        forall|k: int| 0 <= k < level && k < old(section_ids)@.len() ==> final(section_ids)@[k] == old(section_ids)@[k],
        forall|k: int| old(section_ids)@.len() <= k < level ==> final(section_ids)@[k] == 0,
        forall|k: int| level < k < final(section_ids)@.len() ==> final(section_ids)@[k] == 0,
        final(section_ids)@[level as int] == 1 ==> r@ == slug_spec(title@),
        final(section_ids)@[level as int] != 1 ==> r@ == slug_spec(title@) + "-"@ + decimal_spec(
            final(section_ids)@[level as int] as nat,
        ),
{
    let depth = level as usize;
    while section_ids.len() <= depth
        invariant
            forall|k: int| 0 <= k < old(section_ids)@.len() ==> section_ids@[k] == old(section_ids)@[k],
            forall|k: int| old(section_ids)@.len() <= k < section_ids@.len() ==> section_ids@[k] == 0,
            section_ids@.len() >= old(section_ids)@.len(),
            section_ids@.len() <= (if old(section_ids)@.len() > depth {
                old(section_ids)@.len() as int
            } else {
                depth + 1
            }),
        decreases depth + 1 - section_ids@.len(),
    {
        section_ids.push(0);
    }
    let current = section_ids[depth];
    let next = if current < u32::MAX {
        current + 1
    } else {
        current
    };
    let ghost before_set = section_ids@;
    section_ids.set(depth, next);
    let mut k = depth + 1;
    let ghost mid = section_ids@;
    assert(mid[depth as int] == next);
    assert(forall|j: int| 0 <= j < depth && j < old(section_ids)@.len() ==> mid[j] == before_set[j]);
    assert(forall|j: int| old(section_ids)@.len() <= j < depth ==> mid[j] == before_set[j]);
    while k < section_ids.len()
        invariant
            depth < k <= section_ids@.len(),
            section_ids@.len() == mid.len(),
            mid[depth as int] == next,
            forall|j: int| 0 <= j < depth && j < old(section_ids)@.len() ==> mid[j] == old(section_ids)@[j],
            forall|j: int| old(section_ids)@.len() <= j < depth ==> mid[j] == 0,
            forall|j: int| 0 <= j <= depth ==> section_ids@[j] == mid[j],
            forall|j: int| depth < j < k ==> section_ids@[j] == 0,
            forall|j: int| k <= j < section_ids@.len() ==> section_ids@[j] == mid[j],
        decreases section_ids.len() - k,
    {
        section_ids.set(k, 0);
        k += 1;
    }
    assert(section_ids@[depth as int] == next);
    assert(forall|j: int| 0 <= j < depth && j < old(section_ids)@.len() ==> section_ids@[j] == old(section_ids)@[j]);
    assert forall|j: int| old(section_ids)@.len() <= j < depth implies section_ids@[j] == 0 by {
        assert(section_ids@[j] == mid[j]);
    }
    let base = slugify(title);
    if next == 1 {
        base
    } else {
        let mut r = base;
        r.push('-');
        let d = usize_to_chars(next as usize);
        append(&mut r, &d);
        proof {
            reveal_strlit("-");
        }
        r
    }
}

/// A counter one higher, staying at the largest `u32`.
pub open spec fn bump(n: u32) -> u32 {
    if n < u32::MAX {
        (n + 1) as u32
    } else {
        n
    }
}

// ---------------------------------------------------------------------------
// Cross-reference keys and targets

/// `s` without its leading `#` characters.
pub open spec fn strip_leading_hashes(s: Seq<char>) -> Seq<char>
    decreases s.len(),
{
    if s.len() > 0 && s[0] == '#' {
        strip_leading_hashes(s.drop_first())
    } else {
        s
    }
}

/// The lookup key of an id or title: trimmed, without leading `#`, lower-cased (ASCII).
pub open spec fn ref_key_spec(value: Seq<char>) -> Seq<char> {
    lower_seq(strip_leading_hashes(trim_spec(value)))
}

/// The lookup key of an id or title (see `ref_key_spec`).
pub fn normalize_section_ref_key(value: &[char]) -> (r: Vec<char>)
    ensures
        r@ == ref_key_spec(value@),
{
    let t = trim(value);
    let mut i: usize = 0;
    assert(t@.subrange(0, t@.len() as int) =~= t@);
    while i < t.len() && t[i] == '#'
        invariant
            i <= t@.len(),
            strip_leading_hashes(t@) == strip_leading_hashes(t@.subrange(i as int, t@.len() as int)),
        decreases t.len() - i,
    {
        assert(t@.subrange(i as int, t@.len() as int).drop_first() =~= t@.subrange(i + 1, t@.len() as int));
        i += 1;
    }
    assert(t@.subrange(0, t@.len() as int) =~= t@);
    let rest = cut(&t, i, t.len());
    to_ascii_lowercase(&rest)
}

/// `s` without its leading underscores.
pub open spec fn trim_start_underscores_spec(s: Seq<char>) -> Seq<char>
    decreases s.len(),
{
    if s.len() > 0 && s[0] == '_' {
        trim_start_underscores_spec(s.drop_first())
    } else {
        s
    }
}

/// `s` without its leading underscores.
fn trim_start_underscores(s: &[char]) -> (r: Vec<char>)
    ensures
        r@ == trim_start_underscores_spec(s@),
{
    let mut i: usize = 0;
    assert(s@.subrange(0, s@.len() as int) =~= s@);
    while i < s.len() && s[i] == '_'
        invariant
            i <= s@.len(),
            trim_start_underscores_spec(s@.subrange(i as int, s@.len() as int)) == trim_start_underscores_spec(s@),
        decreases s.len() - i,
    {
        assert(s@.subrange(i as int, s@.len() as int).drop_first() =~= s@.subrange(i + 1, s@.len() as int));
        i += 1;
    }
    cut(s, i, s.len())
}

/// Where an unresolved cross reference points: targets that start with `#` or
/// name an `.adoc` file are kept, others become `#target`.
pub fn xref_href(target: &[char]) -> (r: Vec<char>)
    ensures
        (starts_at(target@, 0, "#"@) || exists|k: int| starts_at(target@, k, ".adoc"@)) ==> r@ == target@,
        !(starts_at(target@, 0, "#"@) || exists|k: int| starts_at(target@, k, ".adoc"@)) ==> r@ == seq!['#']
            + target@,
{
    if starts_with_str(target, "#") || contains_str(target, ".adoc") {
        copy(target)
    } else {
        let mut r: Vec<char> = Vec::new();
        r.push('#');
        append(&mut r, target);
        r
    }
}

/// What a cross reference can resolve to: for each key, the target id and an
/// optional title. The first entry for a key stays.
pub struct RefTable {
    pub ids: AttributeMap,
    pub titles: AttributeMap,
}

impl RefTable {
    pub fn new() -> (r: Self)
        ensures
            r.ids@ == Map::<Seq<char>, Seq<char>>::empty(),
            r.titles@ == Map::<Seq<char>, Seq<char>>::empty(),
    {
        RefTable { ids: AttributeMap::new(), titles: AttributeMap::new() }
    }

    /// Records a target under `key` unless the key already has one.
    pub fn add(&mut self, key: &[char], id: &String, title: &Option<String>)
        ensures
            old(self).ids@.contains_key(key@) ==> final(self).ids@ == old(self).ids@ && final(self).titles@
                == old(self).titles@,
            !old(self).ids@.contains_key(key@) ==> final(self).ids@ == old(self).ids@.insert(key@, id@),
            !old(self).ids@.contains_key(key@) ==> (match title {
                Some(t) => final(self).titles@ == old(self).titles@.insert(key@, t@),
                None => final(self).titles@ == old(self).titles@,
            }),
            final(self).ids@.contains_key(key@),
            refs_kept(*old(self), *final(self)),
    {
        if self.ids.contains_key_chars(key) {
            return;
        }
        self.ids.insert_chars(key, id.clone());
        match title {
            Some(t) => self.titles.insert_chars(key, t.clone()),
            None => {},
        }
    }

    /// The target recorded for a cross-reference target, unless it names an `.adoc` file.
    pub fn lookup(&self, target: &[char]) -> (r: Option<(String, Option<String>)>)
        ensures
            r matches Some(p) ==> self.ids@.contains_key(ref_key_spec(target@)) && p.0@ == self.ids@[ref_key_spec(
                target@,
            )],
            r is None ==> (exists|k: int| starts_at(target@, k, ".adoc"@)) || !self.ids@.contains_key(
                ref_key_spec(target@),
            ),
            r is Some <==> !(exists|k: int| starts_at(target@, k, ".adoc"@)) && self.ids@.contains_key(
                ref_key_spec(target@),
            ),
            r matches Some(p) ==> opt_view(p.1) == (if self.titles@.contains_key(ref_key_spec(target@)) {
                Some(self.titles@[ref_key_spec(target@)])
            } else {
                None
            }),
    {
        if contains_str(target, ".adoc") {
            return None;
        }
        let key = normalize_section_ref_key(target);
        match self.ids.get_chars(&key) {
            Some(id) => {
                let title = match self.titles.get_chars(&key) {
                    Some(t) => Some(t.clone()),
                    None => None,
                };
                Some((id.clone(), title))
            },
            None => None,
        }
    }
}

// ---------------------------------------------------------------------------
// Authors and revision

/// A trimmed, non-empty attribute value.
fn non_empty_attr(attributes: &AttributeMap, key: &[char]) -> (r: Option<String>)
    ensures
        r matches Some(v) ==> attributes@.contains_key(key@) && v@ == trim_spec(attributes@[key@]) && v@.len()
            > 0,
        r is None ==> !attributes@.contains_key(key@) || trim_spec(attributes@[key@]).len() == 0,
{
    match attributes.get_chars(key) {
        Some(v) => {
            let t = trim(&string_chars(v));
            if t.len() == 0 {
                None
            } else {
                Some(to_string(&t))
            }
        },
        None => None,
    }
}

/// Authors from `author_1`/`email_1`, `author_2`/`email_2`, ... up to the first
/// index with neither.
/// The name and email of the author numbered `i`: `author_i` and `email_i`.
pub open spec fn indexed_author(attrs: Map<Seq<char>, Seq<char>>, i: nat) -> (Option<Seq<char>>, Option<Seq<char>>) {
    (
        nonblank_attr(attrs, "author"@ + "_"@ + crate::text::decimal_spec(i)),
        nonblank_attr(attrs, "email"@ + "_"@ + crate::text::decimal_spec(i)),
    )
}

/// The numbered authors from `i` on, up to the first number with neither a name
/// nor an email (or the largest `usize`).
pub open spec fn indexed_authors_from(attrs: Map<Seq<char>, Seq<char>>, i: nat) -> Seq<
    (Option<Seq<char>>, Option<Seq<char>>),
>
    decreases usize::MAX - i,
{
    let a = indexed_author(attrs, i);
    if i > usize::MAX || (a.0 is None && a.1 is None) {
        Seq::empty()
    } else if i == usize::MAX {
        seq![a]
    } else {
        seq![a] + indexed_authors_from(attrs, i + 1)
    }
}

/// Authors by their views.
pub open spec fn authors_view(v: Seq<Author>) -> Seq<(Option<Seq<char>>, Option<Seq<char>>)> {
    v.map_values(|a: Author| (crate::text::opt_view(a.name), crate::text::opt_view(a.email)))
}

pub fn collect_indexed_authors(attributes: &AttributeMap) -> (r: Vec<Author>)
    ensures
        forall|k: int| 0 <= k < r@.len() ==> (#[trigger] r@[k]).name is Some || r@[k].email is Some,
        authors_view(r@) == indexed_authors_from(attributes@, 1),
{
    let mut authors: Vec<Author> = Vec::new();
    let mut index: usize = 1;
    loop
        invariant_except_break
            indexed_authors_from(attributes@, 1) == authors_view(authors@) + indexed_authors_from(
                attributes@,
                index as nat,
            ),
        invariant
            forall|k: int| 0 <= k < authors@.len() ==> (#[trigger] authors@[k]).name is Some || authors@[k].email
                is Some,
            1 <= index,
        ensures
            authors_view(authors@) == indexed_authors_from(attributes@, 1),
        decreases usize::MAX - index,
    {
        let name = non_empty_attr(attributes, &crate::header::indexed_key("author", index));
        let email = non_empty_attr(attributes, &crate::header::indexed_key("email", index));
        if name.is_none() && email.is_none() {
            break;
        }
        let ghost before = authors@;
        authors.push(Author { name, email });
        assert(authors_view(authors@) == authors_view(before).push(indexed_author(attributes@, index as nat)));
        if index == usize::MAX {
            break;
        }
        index += 1;
    }
    authors
}

/// The document's authors: the indexed ones, else one from `author` and `email`.
/// The document's authors: the numbered ones, or else the one `author` and
/// `email` give, when either is set.
pub open spec fn authors_spec(attrs: Map<Seq<char>, Seq<char>>) -> Seq<(Option<Seq<char>>, Option<Seq<char>>)> {
    let indexed = indexed_authors_from(attrs, 1);
    let single = (nonblank_attr(attrs, "author"@), nonblank_attr(attrs, "email"@));
    if indexed.len() > 0 {
        indexed
    } else if single.0 is None && single.1 is None {
        Seq::empty()
    } else {
        seq![single]
    }
}

pub fn prepare_authors(document: &Document) -> (r: Vec<Author>)
    ensures
        forall|k: int| 0 <= k < r@.len() ==> (#[trigger] r@[k]).name is Some || r@[k].email is Some,
        authors_view(r@) == authors_spec(document.attributes@),
{
    let indexed = collect_indexed_authors(&document.attributes);
    if indexed.len() > 0 {
        return indexed;
    }
    let name = non_empty_attr(&document.attributes, &to_chars("author"));
    let email = non_empty_attr(&document.attributes, &to_chars("email"));
    let mut v: Vec<Author> = Vec::new();
    if name.is_none() && email.is_none() {
        return v;
    }
    v.push(Author { name, email });
    assert(authors_view(v@) == seq![(crate::text::opt_view(name), crate::text::opt_view(email))]) by {
        assert(authors_view(v@).len() == 1);
    }
    v
}

/// An attribute's value, trimmed, when it is set and not blank.
pub open spec fn nonblank_attr(attrs: Map<Seq<char>, Seq<char>>, key: Seq<char>) -> Option<Seq<char>> {
    if attrs.contains_key(key) && trim_spec(attrs[key]).len() > 0 {
        Some(trim_spec(attrs[key]))
    } else {
        None
    }
}

/// The revision's number, date and remark from `revnumber`, `revdate` and
/// `revremark`, when one of them is set.
pub open spec fn revision_spec(attrs: Map<Seq<char>, Seq<char>>) -> Option<
    (Option<Seq<char>>, Option<Seq<char>>, Option<Seq<char>>),
> {
    let n = nonblank_attr(attrs, "revnumber"@);
    let d = nonblank_attr(attrs, "revdate"@);
    let m = nonblank_attr(attrs, "revremark"@);
    if n is None && d is None && m is None {
        None
    } else {
        Some((n, d, m))
    }
}

/// A revision by its view.
pub open spec fn revision_view(r: Option<Revision>) -> Option<
    (Option<Seq<char>>, Option<Seq<char>>, Option<Seq<char>>),
> {
    match r {
        Some(rev) => Some(
            (
                crate::text::opt_view(rev.number),
                crate::text::opt_view(rev.date),
                crate::text::opt_view(rev.remark),
            ),
        ),
        None => None,
    }
}

/// The revision from `revnumber`, `revdate` and `revremark`, when one is set.
pub fn prepare_revision(document: &Document) -> (r: Option<Revision>)
    ensures
        r matches Some(rev) ==> rev.number is Some || rev.date is Some || rev.remark is Some,
        revision_view(r) == revision_spec(document.attributes@),
{
    let number = non_empty_attr(&document.attributes, &to_chars("revnumber"));
    let date = non_empty_attr(&document.attributes, &to_chars("revdate"));
    let remark = non_empty_attr(&document.attributes, &to_chars("revremark"));
    if number.is_none() && date.is_none() && remark.is_none() {
        None
    } else {
        Some(Revision { number, date, remark })
    }
}

// ---------------------------------------------------------------------------
// From the parsed document to prepared blocks

/// Prepares a whole document: blocks with sections (and a preamble before the
/// first section), numbered footnotes, resolved cross references and the outline.
pub fn prepare_document(document: &Document) -> (r: DocumentBlock)
    ensures
        r.node_type@ == "document"@,
        r.has_header == (document.title is Some),
        r.no_header == (document.title is None),
        r.attributes@ == document.attributes@,
        r.content_model == Some(ContentModel::Compound),
        document.title matches Some(h) ==> r.title@ == h.title@,
        document.title is None ==> r.title@.len() == 0,
        forall|k: int| 0 <= k < r.footnotes@.len() ==> (#[trigger] r.footnotes@[k]).index == Some(capped(k + 1)),
        document.blocks@.len() == 0 ==> r.blocks@.len() == 0 && r.sections@.len() == 0 && r.footnotes@.len() == 0,
        revision_view(r.revision) == revision_spec(document.attributes@),
        authors_view(r.authors@) == authors_spec(document.attributes@),
        r.sections@.len() == section_count(r.blocks@),
        r.sections@.len() == section_blocks(r.blocks@).len(),
        forall|k: int| 0 <= k < r.sections@.len() ==> outline_entry(#[trigger] r.sections@[k], section_blocks(r.blocks@)[k]),
        forall|k: int| 0 <= k < r.footnotes@.len() ==> footnote_text_is_plain(#[trigger] r.footnotes@[k]),
        exists|sec: RefTable, blk: RefTable|
            #[trigger] xrefs_resolved_blocks(r.blocks@, sec, blk, usize::MAX as nat) && forall|k: int|
                0 <= k < r.blocks@.len() && #[trigger] r.blocks@[k] is Section ==> sec.ids@.contains_key(
                    ref_key_spec(r.blocks@[k]->Section_0.id@),
                ) && sec.ids@.contains_key(ref_key_spec(r.blocks@[k]->Section_0.title@))
                    && blk.ids@.contains_key(ref_key_spec(r.blocks@[k]->Section_0.id@)),
{
    let mut section_ids: Vec<u32> = Vec::new();
    let blocks = prepare_block_range(&document.blocks, 0, document.blocks.len(), true, &mut section_ids);
    let mut footnotes: Vec<Footnote> = Vec::new();
    let mut next_index: u32 = 1;
    let blocks = number_footnotes_in_blocks(blocks, &mut footnotes, &mut next_index, usize::MAX);
    let mut section_refs = RefTable::new();
    collect_section_refs_into(&blocks, &mut section_refs);
    let mut block_refs = RefTable::new();
    collect_block_refs_into(&blocks, &mut block_refs);
    let ghost numbered = blocks@;
    let blocks = resolve_xrefs_in_blocks(blocks, &section_refs, &block_refs, usize::MAX);
    proof {
        assert forall|k: int|
            0 <= k < blocks@.len() && #[trigger] blocks@[k] is Section implies section_refs.ids@.contains_key(
                ref_key_spec(blocks@[k]->Section_0.id@),
            ) && section_refs.ids@.contains_key(ref_key_spec(blocks@[k]->Section_0.title@))
                && block_refs.ids@.contains_key(ref_key_spec(blocks@[k]->Section_0.id@)) by {
            assert(same_section_head(numbered[k], blocks@[k]));
            assert(block_ref_id(numbered[k]) == Some(numbered[k]->Section_0.id@));
        }
        assert(xrefs_resolved_blocks(blocks@, section_refs, block_refs, usize::MAX as nat));
    }
    let footnotes = resolve_xrefs_in_footnotes(footnotes, &section_refs, &block_refs);
    let sections = collect_sections(&blocks);
    let title = match &document.title {
        Some(h) => h.title.clone(),
        None => String::new(),
    };
    DocumentBlock {
        node_type: lit("document"),
        title,
        has_header: document.title.is_some(),
        no_header: document.title.is_none(),
        attributes: document.attributes.clone(),
        revision: prepare_revision(document),
        blocks,
        content_model: Some(ContentModel::Compound),
        footnotes,
        sections,
        authors: prepare_authors(document),
    }
}

/// The index of the next heading at `level` or above (a smaller number) at or
/// after `index`, or `end`.
pub fn find_section_end(blocks: &Vec<Block>, index: usize, end: usize, level: u8) -> (r: usize)
    requires
        index <= end <= blocks@.len(),
    ensures
        index <= r <= end,
        r < end ==> (blocks@[r as int] matches Block::Heading(h) && h.level <= level),
        forall|k: int| index <= k < r ==> !(#[trigger] blocks@[k] matches Block::Heading(h) && h.level <= level),
{
    let mut i = index;
    while i < end
        invariant
            index <= i <= end <= blocks@.len(),
            forall|k: int| index <= k < i ==> !(#[trigger] blocks@[k] matches Block::Heading(h) && h.level <= level),
        decreases end - i,
    {
        match &blocks[i] {
            Block::Heading(h) => {
                if h.level <= level {
                    return i;
                }
            },
            _ => {},
        }
        i += 1;
    }
    i
}

/// The index of the first heading in `blocks[start..end]`, or `end`.
pub open spec fn first_heading(blocks: Seq<Block>, start: int, end: int) -> int
    decreases end - start,
{
    if start >= end {
        end
    } else if blocks[start] is Heading {
        start
    } else {
        first_heading(blocks, start + 1, end)
    }
}

proof fn lemma_first_heading(blocks: Seq<Block>, start: int, end: int)
    requires
        start <= end,
    ensures
        start <= first_heading(blocks, start, end) <= end,
        first_heading(blocks, start, end) < end ==> blocks[first_heading(blocks, start, end)] is Heading,
        forall|k: int| start <= k < first_heading(blocks, start, end) ==> !(#[trigger] blocks[k] is Heading),
    decreases end - start,
{
    if start < end && !(blocks[start] is Heading) {
        lemma_first_heading(blocks, start + 1, end);
    }
}

/// The number of blocks that `prepare_block_range` puts before the first section:
/// one preamble when wrapping and blocks come before the first heading, else those
/// blocks themselves.
pub open spec fn leading_count(blocks: Seq<Block>, start: int, end: int, wrap: bool) -> int {
    let k = first_heading(blocks, start, end);
    if wrap {
        if k > start {
            1
        } else {
            0
        }
    } else {
        k - start
    }
}

/// `p` holds, in order, prepared blocks of the kinds of `blocks[start..start + p.len()]`.
pub open spec fn kinds_follow(blocks: Seq<Block>, start: int, p: Seq<PreparedBlock>) -> bool {
    forall|j: int| 0 <= j < p.len() ==> kind_matches(blocks[start + j], #[trigger] p[j])
}

/// Prepares `blocks[start..end]`. With `wrap_document_preamble`, blocks before the
/// first heading are wrapped in a preamble; each heading becomes a section holding
/// the blocks up to the next heading of its level or above.
pub fn prepare_block_range(
    blocks: &Vec<Block>,
    start: usize,
    end: usize,
    wrap_document_preamble: bool,
    section_ids: &mut Vec<u32>,
) -> (r: Vec<PreparedBlock>)
    requires
        start <= end <= blocks@.len(),
    ensures
        start == end ==> r@.len() == 0,
        no_headings(blocks@, start as int, end as int) && !wrap_document_preamble ==> r@.len() == end - start
            && forall|k: int| 0 <= k < r@.len() ==> kind_matches(blocks@[start + k], #[trigger] r@[k]),
        no_headings(blocks@, start as int, end as int) && wrap_document_preamble ==> r@.len() == (if start < end {
            1int
        } else {
            0
        }) && (start < end ==> r@[0] is Preamble),
        r@.len() >= leading_count(blocks@, start as int, end as int, wrap_document_preamble),
        forall|j: int|
            leading_count(blocks@, start as int, end as int, wrap_document_preamble) <= j < r@.len()
                ==> #[trigger] r@[j] is Section,
        r@.len() > leading_count(blocks@, start as int, end as int, wrap_document_preamble) <==> first_heading(
            blocks@,
            start as int,
            end as int,
        ) < end,
        wrap_document_preamble && first_heading(blocks@, start as int, end as int) > start ==> (r@[0] matches PreparedBlock::Preamble(p)
            && p.blocks@.len() == first_heading(blocks@, start as int, end as int) - start && kinds_follow(
            blocks@,
            start as int,
            p.blocks@,
        )),
        !wrap_document_preamble ==> kinds_follow(
            blocks@,
            start as int,
            r@.subrange(0, first_heading(blocks@, start as int, end as int) - start),
        ),
        first_heading(blocks@, start as int, end as int) == end ==> final(section_ids)@ == old(section_ids)@,
    decreases blocks, end - start,
{
    let ghost fh = first_heading(blocks@, start as int, end as int);
    let ghost lead = leading_count(blocks@, start as int, end as int, wrap_document_preamble);
    proof {
        lemma_first_heading(blocks@, start as int, end as int);
    }
    let mut prepared: Vec<PreparedBlock> = Vec::new();
    let mut preamble_blocks: Vec<PreparedBlock> = Vec::new();
    let mut seen_section = false;
    let mut index = start;
    while index < end
        invariant
            start <= index <= end <= blocks@.len(),
            no_headings(blocks@, start as int, end as int) ==> !seen_section,
            no_headings(blocks@, start as int, end as int) && !wrap_document_preamble ==> preamble_blocks@.len() == 0
                && prepared@.len() == index - start && forall|k: int|
                0 <= k < prepared@.len() ==> kind_matches(blocks@[start + k], #[trigger] prepared@[k]),
            no_headings(blocks@, start as int, end as int) && wrap_document_preamble ==> prepared@.len() == 0
                && preamble_blocks@.len() == index - start,
            fh == first_heading(blocks@, start as int, end as int),
            lead == leading_count(blocks@, start as int, end as int, wrap_document_preamble),
            start <= fh <= end,
            fh < end ==> blocks@[fh] is Heading,
            forall|k: int| start <= k < fh ==> !(#[trigger] blocks@[k] is Heading),
            !seen_section ==> index <= fh && section_ids@ == old(section_ids)@,
            !seen_section && wrap_document_preamble ==> prepared@.len() == 0 && preamble_blocks@.len() == index
                - start && kinds_follow(blocks@, start as int, preamble_blocks@),
            !seen_section && !wrap_document_preamble ==> preamble_blocks@.len() == 0 && prepared@.len() == index
                - start && kinds_follow(blocks@, start as int, prepared@),
            seen_section ==> fh < end && fh < index && preamble_blocks@.len() == 0 && (index < end
                ==> blocks@[index as int] is Heading),
            seen_section ==> prepared@.len() > lead && forall|j: int| lead <= j < prepared@.len() ==> #[trigger] prepared@[j] is Section,
            seen_section && wrap_document_preamble && fh > start ==> (prepared@[0] matches PreparedBlock::Preamble(p)
                && p.blocks@.len() == fh - start && kinds_follow(blocks@, start as int, p.blocks@)),
            seen_section && !wrap_document_preamble ==> kinds_follow(blocks@, start as int, prepared@.subrange(0, fh - start)),
        decreases end - index,
    {
        let block = &blocks[index];
        let item: Option<PreparedBlock> = match block {
            Block::Paragraph(p) => Some(PreparedBlock::Paragraph(prepare_paragraph(p))),
            Block::Admonition(a) => Some(PreparedBlock::Admonition(prepare_admonition_block(a))),
            Block::UnorderedList(l) => Some(
                PreparedBlock::UnorderedList(prepare_list(&l.items, &l.metadata, &l.reftext, "ulist")),
            ),
            Block::OrderedList(l) => Some(
                PreparedBlock::OrderedList(prepare_list(&l.items, &l.metadata, &l.reftext, "olist")),
            ),
            Block::DescriptionList(l) => Some(PreparedBlock::DescriptionList(prepare_description_list(l))),
            Block::Table(t) => Some(PreparedBlock::Table(prepare_table(t))),
            Block::Listing(l) => Some(PreparedBlock::Listing(prepare_listing(l))),
            Block::Literal(l) => Some(PreparedBlock::Literal(prepare_listing(l))),
            Block::CalloutList(c) => Some(PreparedBlock::CalloutList(prepare_callout_list(c))),
            Block::Example(b) => Some(PreparedBlock::Example(prepare_compound_block(b))),
            Block::Sidebar(b) => Some(PreparedBlock::Sidebar(prepare_compound_block(b))),
            Block::Open(b) => Some(PreparedBlock::Open(prepare_compound_block(b))),
            Block::Quote(q) => Some(PreparedBlock::Quote(prepare_quote_block(q))),
            Block::Passthrough(p) => Some(PreparedBlock::Passthrough(prepare_passthrough(p))),
            Block::Image(img) => Some(PreparedBlock::Image(prepare_image_block(img))),
            Block::Toc => Some(PreparedBlock::Toc(TocBlock {})),
            Block::Heading(_) => None,
        };
        assert(item matches Some(b) ==> kind_matches(blocks@[index as int], b));
        assert(item is None ==> blocks@[index as int] is Heading);
        match item {
            Some(b) => {
                if wrap_document_preamble && !seen_section {
                    preamble_blocks.push(b);
                } else {
                    prepared.push(b);
                }
                index += 1;
            },
            None => {
                let heading = match block {
                    Block::Heading(h) => h,
                    _ => {
                        index += 1;
                        continue;
                    },
                };
                if wrap_document_preamble && !seen_section && preamble_blocks.len() > 0 {
                    let mut taken: Vec<PreparedBlock> = Vec::new();
                    std::mem::swap(&mut taken, &mut preamble_blocks);
                    prepared.push(PreparedBlock::Preamble(prepare_preamble(taken)));
                }
                seen_section = true;
                let level = heading.level;
                let id = match &heading.id {
                    Some(id) => id.clone(),
                    None => {
                        let title = string_chars(&heading.title);
                        to_string(&next_section_id(section_ids, level, &title))
                    },
                };
                let next = find_section_end(blocks, index + 1, end, level);
                let section_blocks = prepare_block_range(blocks, index + 1, next, false, section_ids);
                let ghost before = prepared@;
                proof {
                    if !wrap_document_preamble && before.len() == fh - start {
                        assert(before.subrange(0, fh - start) =~= before);
                    }
                }
                prepared.push(
                    PreparedBlock::Section(
                        SectionBlock {
                            id,
                            reftext: copy_opt(&heading.reftext),
                            blocks: section_blocks,
                            attributes: heading.metadata.attributes.clone(),
                            content_model: Some(ContentModel::Compound),
                            line_number: None,
                            style: copy_opt(&heading.metadata.style),
                            role: copy_opt(&heading.metadata.role),
                            level,
                            title: heading.title.clone(),
                            numbered: false,
                            num: String::new(),
                            name: lit("section"),
                        },
                    ),
                );
                proof {
                    if !wrap_document_preamble {
                        assert(prepared@.subrange(0, fh - start) =~= before.subrange(0, fh - start));
                    }
                }
                index = next;
            },
        }
    }
    if wrap_document_preamble && preamble_blocks.len() > 0 {
        prepared.push(PreparedBlock::Preamble(prepare_preamble(preamble_blocks)));
    } else {
        prepared.append(&mut preamble_blocks);
    }
    prepared
}

/// Whether `blocks[start..end]` holds no heading.
pub open spec fn no_headings(blocks: Seq<Block>, start: int, end: int) -> bool {
    forall|k: int| start <= k < end ==> !(#[trigger] blocks[k] is Heading)
}

/// Whether a prepared block is of the kind its parsed block is prepared into, and
/// holds what it is prepared from: a paragraph's text and attributes, an
/// admonition's variant, a passthrough's trimmed content, an image's target, alt
/// text and placement, and the attributes of verbatim and compound blocks.
pub open spec fn kind_matches(b: Block, p: PreparedBlock) -> bool {
    match b {
        Block::Heading(_) => p is Section,
        Block::Paragraph(a) => p matches PreparedBlock::Paragraph(q) && q.content@ == inlines_text(a.inlines@)
            && q.attributes@ == a.metadata.attributes@,
        Block::Admonition(a) => p matches PreparedBlock::Admonition(q) && q.variant@ == variant_name(a.variant),
        Block::UnorderedList(_) => p is UnorderedList,
        Block::OrderedList(_) => p is OrderedList,
        Block::DescriptionList(_) => p is DescriptionList,
        Block::Table(_) => p is Table,
        Block::Listing(a) => p matches PreparedBlock::Listing(q) && q.attributes@ == a.metadata.attributes@,
        Block::Literal(a) => p matches PreparedBlock::Literal(q) && q.attributes@ == a.metadata.attributes@,
        Block::CalloutList(_) => p is CalloutList,
        Block::Example(a) => p matches PreparedBlock::Example(q) && q.attributes@ == a.metadata.attributes@,
        Block::Sidebar(a) => p matches PreparedBlock::Sidebar(q) && q.attributes@ == a.metadata.attributes@,
        Block::Open(a) => p matches PreparedBlock::Open(q) && q.attributes@ == a.metadata.attributes@,
        Block::Quote(_) => p is Quote,
        Block::Passthrough(a) => p matches PreparedBlock::Passthrough(q) && trimmed_outer_lines(a.content@, q.content@),
        Block::Image(a) => p matches PreparedBlock::Image(q) && q.target@ == a.target@ && q.alt@ == a.alt@
            && q.attributes@ == a.metadata.attributes@ && image_placement(q),
        Block::Toc => p is Toc,
    }
}

/// A paragraph's plain text and prepared inlines.
pub fn prepare_paragraph(paragraph: &Paragraph) -> (r: ParagraphBlock)
    ensures
        r.content@ == inlines_text(paragraph.inlines@),
        r.content_model == Some(ContentModel::Simple),
        r.attributes@ == paragraph.metadata.attributes@,
        r.level == 0,
{
    ParagraphBlock {
        id: copy_opt(&paragraph.id),
        reftext: copy_opt(&paragraph.reftext),
        blocks: Vec::new(),
        content: paragraph.plain_text(),
        inlines: prepare_inlines(&paragraph.inlines),
        attributes: paragraph.metadata.attributes.clone(),
        content_model: Some(ContentModel::Simple),
        line_number: None,
        style: copy_opt(&paragraph.metadata.style),
        role: copy_opt(&paragraph.metadata.role),
        level: 0,
        title: copy_opt(&paragraph.metadata.title),
    }
}

pub fn prepare_admonition_block(block: &AstAdmonitionBlock) -> (r: AdmonitionBlock)
    ensures
        r.variant@ == variant_name(block.variant),
        r.content_model == Some(ContentModel::Compound),
    decreases block, 0int,
{
    let mut ids: Vec<u32> = Vec::new();
    let id = match &block.id {
        Some(i) => Some(i.clone()),
        None => copy_opt(&block.metadata.id),
    };
    AdmonitionBlock {
        id,
        reftext: copy_opt(&block.reftext),
        blocks: prepare_block_range(&block.blocks, 0, block.blocks.len(), false, &mut ids),
        attributes: block.metadata.attributes.clone(),
        content_model: Some(ContentModel::Compound),
        line_number: None,
        style: copy_opt(&block.metadata.style),
        role: copy_opt(&block.metadata.role),
        level: 0,
        title: copy_opt(&block.metadata.title),
        variant: lit(block.variant.as_str()),
    }
}

/// An ordered (`olist`) or unordered (`ulist`) list.
pub fn prepare_list(items: &Vec<ListItem>, metadata: &BlockMetadata, reftext: &Option<String>, name: &str) -> (r:
    ListBlock)
    ensures
        r.items@.len() == items@.len(),
        r.name@ == name@,
        r.attributes@ == metadata.attributes@,
    decreases items, 0int,
{
    let mut out: Vec<ListItemBlock> = Vec::new();
    let mut i: usize = 0;
    while i < items.len()
        invariant
            i <= items@.len(),
            out@.len() == i,
        decreases items.len() - i,
    {
        let mut ids: Vec<u32> = Vec::new();
        let item = &items[i];
        out.push(ListItemBlock { blocks: prepare_block_range(&item.blocks, 0, item.blocks.len(), false, &mut ids) });
        i += 1;
    }
    ListBlock {
        items: out,
        attributes: metadata.attributes.clone(),
        content_model: Some(ContentModel::Compound),
        level: 0,
        name: lit(name),
        id: copy_opt(&metadata.id),
        reftext: copy_opt(reftext),
        style: copy_opt(&metadata.style),
        role: copy_opt(&metadata.role),
        title: copy_opt(&metadata.title),
    }
}

pub fn prepare_description_list(list: &AstDescriptionList) -> (r: DescriptionListBlock)
    ensures
        r.items@.len() == list.items@.len(),
        r.name@ == "dlist"@,
    decreases list, 0int,
{
    let mut out: Vec<DescriptionListItemBlock> = Vec::new();
    let mut i: usize = 0;
    while i < list.items.len()
        invariant
            i <= list.items@.len(),
            out@.len() == i,
        decreases list.items.len() - i,
    {
        let item = &list.items[i];
        let mut terms: Vec<DescriptionListTermBlock> = Vec::new();
        let mut k: usize = 0;
        while k < item.terms.len()
            invariant
                k <= item.terms@.len(),
            decreases item.terms.len() - k,
        {
            terms.push(
                DescriptionListTermBlock {
                    text: item.terms[k].text.clone(),
                    inlines: prepare_inlines(&item.terms[k].inlines),
                },
            );
            k += 1;
        }
        let description = match &item.description {
            Some(d) => {
                let mut ids: Vec<u32> = Vec::new();
                proof {
                    assert(decreases_to!(list => list.items));
                    assert(decreases_to!(list.items => list.items@[i as int]));
                    assert(decreases_to!(list.items@[i as int] => list.items@[i as int].description));
                }
                Some(ListItemBlock { blocks: prepare_block_range(&d.blocks, 0, d.blocks.len(), false, &mut ids) })
            },
            None => None,
        };
        out.push(DescriptionListItemBlock { terms, description });
        i += 1;
    }
    DescriptionListBlock {
        items: out,
        attributes: list.metadata.attributes.clone(),
        content_model: Some(ContentModel::Compound),
        level: 0,
        name: lit("dlist"),
        id: copy_opt(&list.metadata.id),
        reftext: copy_opt(&list.reftext),
        style: copy_opt(&list.metadata.style),
        role: copy_opt(&list.metadata.role),
        title: copy_opt(&list.metadata.title),
    }
}

/// The first non-blank line and one past the last non-blank line (`(n, n)` when all are blank).
pub fn trimmed_content_bounds(lines: &Vec<String>) -> (r: (usize, usize))
    ensures
        r.0 <= r.1 <= lines@.len(),
        forall|k: int| 0 <= k < r.0 ==> trim_spec(#[trigger] lines@[k]@).len() == 0,
        forall|k: int| r.1 <= k < lines@.len() ==> trim_spec(#[trigger] lines@[k]@).len() == 0,
        r.0 < r.1 ==> trim_spec(lines@[r.0 as int]@).len() > 0 && trim_spec(lines@[r.1 - 1]@).len() > 0,
{
    let n = lines.len();
    let mut start: usize = 0;
    while start < n && is_blank(&string_chars(&lines[start]))
        invariant
            n == lines@.len(),
            start <= n,
            forall|k: int| 0 <= k < start ==> trim_spec(#[trigger] lines@[k]@).len() == 0,
        decreases n - start,
    {
        start += 1;
    }
    let mut end = n;
    while end > start && is_blank(&string_chars(&lines[end - 1]))
        invariant
            n == lines@.len(),
            start <= end <= n,
            forall|k: int| end <= k < n ==> trim_spec(#[trigger] lines@[k]@).len() == 0,
        decreases end,
    {
        end -= 1;
    }
    (start, end)
}

/// `n` is the number of one of the callouts.
pub open spec fn is_callout_number(callouts: Seq<(usize, u32)>, n: u32) -> bool {
    exists|j: int| 0 <= j < callouts.len() && #[trigger] callouts[j].1 == n
}

/// Whether the block asks for line numbers (`linenums` option).
fn has_linenums(metadata: &BlockMetadata) -> (r: bool)
    ensures
        r == (crate::meta::string_views(metadata.options@).contains("linenums"@) || metadata.attributes@.contains_key(
            "linenums-option"@,
        ) || metadata.attributes@.contains_key("linenums"@)),
{
    proof {
        reveal_strlit("linenums");
    }
    let ghost v = crate::meta::string_views(metadata.options@);
    proof {
        if v.contains("linenums"@) {
            let k = choose|k: int| 0 <= k < v.len() && v[k] == "linenums"@;
            assert(metadata.options@[k]@ == "linenums"@);
        }
    }
    let in_options = contains_string(&metadata.options, &to_chars("linenums"));
    proof {
        if in_options {
            let k = choose|k: int| 0 <= k < metadata.options@.len() && (#[trigger] metadata.options@[k])@ == "linenums"@;
            assert(v[k] == "linenums"@);
        }
    }
    in_options || metadata.attributes.contains_key("linenums-option") || metadata.attributes.contains_key("linenums")
}

/// A listing's content without leading and trailing blank lines, its callouts
/// renumbered to lines of that content, and its first line number when it asks
/// for line numbers.
pub fn prepare_listing(listing: &AstListing) -> (r: ListingBlock)
    ensures
        r.content_model == Some(ContentModel::Simple),
        r.attributes@ == listing.metadata.attributes@,
        forall|k: int| 0 <= k < r.callout_lines@.len() ==> is_callout_number(listing.callouts@, (#[trigger] r.callout_lines@[k]).1),
{
    let (start, end) = trimmed_content_bounds(&listing.lines);
    let mut parts: Vec<Vec<char>> = Vec::new();
    let mut i = start;
    while i < end
        invariant
            start <= i <= end <= listing.lines@.len(),
        decreases end - i,
    {
        parts.push(string_chars(&listing.lines[i]));
        i += 1;
    }
    let line_number = if has_linenums(&listing.metadata) {
        match listing.metadata.attributes.get("start") {
            Some(s) => match crate::blocks::parse_u32(&trim(&string_chars(s))) {
                Some(n) => Some(n),
                None => Some(1),
            },
            None => Some(1),
        }
    } else {
        None
    };
    let mut callout_lines: Vec<(usize, u32)> = Vec::new();
    let ghost mut source: Seq<int> = Seq::empty();
    let mut k: usize = 0;
    while k < listing.callouts.len()
        invariant
            k <= listing.callouts@.len(),
            source.len() == callout_lines@.len(),
            forall|a: int|
                0 <= a < callout_lines@.len() ==> 0 <= #[trigger] source[a] < listing.callouts@.len()
                    && callout_lines@[a].1 == listing.callouts@[source[a]].1,
        decreases listing.callouts.len() - k,
    {
        let (line, number) = listing.callouts[k];
        if line >= start && line < end {
            callout_lines.push((line - start, number));
            proof {
                source = source.push(k as int);
            }
        }
        k += 1;
    }
    assert forall|a: int| 0 <= a < callout_lines@.len() implies is_callout_number(listing.callouts@, (#[trigger] callout_lines@[a]).1) by {
        assert(0 <= source[a] < listing.callouts@.len());
        assert(listing.callouts@[source[a]].1 == callout_lines@[a].1);
    }
    let r = ListingBlock {
        id: copy_opt(&listing.metadata.id),
        reftext: copy_opt(&listing.reftext),
        content: to_string(&join_str(&parts, "\n")),
        attributes: listing.metadata.attributes.clone(),
        content_model: Some(ContentModel::Simple),
        line_number,
        style: copy_opt(&listing.metadata.style),
        role: copy_opt(&listing.metadata.role),
        level: 0,
        title: copy_opt(&listing.metadata.title),
        callout_lines,
    };
    assert(r.callout_lines@ == callout_lines@);
    r
}

pub fn prepare_callout_list(colist: &crate::ast::CalloutList) -> (r: CalloutListBlock)
    ensures
        r.items@.len() == colist.items@.len(),
        forall|k: int| 0 <= k < r.items@.len() ==> (#[trigger] r.items@[k]).number == colist.items@[k].number,
{
    let mut items: Vec<CalloutItemBlock> = Vec::new();
    let mut i: usize = 0;
    while i < colist.items.len()
        invariant
            i <= colist.items@.len(),
            items@.len() == i,
            forall|k: int| 0 <= k < i ==> (#[trigger] items@[k]).number == colist.items@[k].number,
        decreases colist.items.len() - i,
    {
        items.push(
            CalloutItemBlock { number: colist.items[i].number, inlines: prepare_inlines(&colist.items[i].inlines) },
        );
        i += 1;
    }
    CalloutListBlock { items }
}

pub fn prepare_table(table: &AstTableBlock) -> (r: TableBlock)
    ensures
        r.rows@.len() == table.rows@.len(),
        r.header is Some == table.header is Some,
    decreases table, 0int,
{
    let header = match &table.header {
        Some(h) => Some(prepare_table_row(h)),
        None => None,
    };
    let mut rows: Vec<TableRow> = Vec::new();
    let mut i: usize = 0;
    while i < table.rows.len()
        invariant
            i <= table.rows@.len(),
            rows@.len() == i,
        decreases table.rows.len() - i,
    {
        rows.push(prepare_table_row(&table.rows[i]));
        i += 1;
    }
    TableBlock {
        id: copy_opt(&table.metadata.id),
        reftext: copy_opt(&table.reftext),
        header,
        rows,
        attributes: table.metadata.attributes.clone(),
        content_model: Some(ContentModel::Compound),
        style: copy_opt(&table.metadata.style),
        role: copy_opt(&table.metadata.role),
        level: 0,
        title: copy_opt(&table.metadata.title),
    }
}

pub fn prepare_table_row(row: &AstTableRow) -> (r: TableRow)
    ensures
        r.cells@.len() == row.cells@.len(),
    decreases row, 0int,
{
    let mut cells: Vec<TableCell> = Vec::new();
    let mut i: usize = 0;
    while i < row.cells.len()
        invariant
            i <= row.cells@.len(),
            cells@.len() == i,
        decreases row.cells.len() - i,
    {
        cells.push(prepare_table_cell(&row.cells[i]));
        i += 1;
    }
    TableRow { cells }
}

pub fn prepare_table_cell(cell: &AstTableCell) -> (r: TableCell)
    ensures
        r.content@ == cell.content@,
        r.colspan == cell.colspan,
        r.rowspan == cell.rowspan,
    decreases cell, 0int,
{
    let mut ids: Vec<u32> = Vec::new();
    TableCell {
        content: cell.content.clone(),
        inlines: prepare_inlines(&cell.inlines),
        blocks: prepare_block_range(&cell.blocks, 0, cell.blocks.len(), false, &mut ids),
        colspan: cell.colspan,
        rowspan: cell.rowspan,
        style: copy_opt(&cell.style),
    }
}

pub fn prepare_compound_block(block: &AstCompoundBlock) -> (r: CompoundBlock)
    ensures
        r.content_model == Some(ContentModel::Compound),
        r.attributes@ == block.metadata.attributes@,
    decreases block, 0int,
{
    let mut ids: Vec<u32> = Vec::new();
    CompoundBlock {
        id: copy_opt(&block.metadata.id),
        reftext: copy_opt(&block.reftext),
        blocks: prepare_block_range(&block.blocks, 0, block.blocks.len(), false, &mut ids),
        attributes: block.metadata.attributes.clone(),
        content_model: Some(ContentModel::Compound),
        line_number: None,
        style: copy_opt(&block.metadata.style),
        role: copy_opt(&block.metadata.role),
        level: 0,
        title: copy_opt(&block.metadata.title),
    }
}

pub fn prepare_quote_block(block: &AstQuoteBlock) -> (r: QuoteBlock)
    ensures
        r.is_verse == block.is_verse,
        r.content_model == Some(if block.is_verse {
            ContentModel::Simple
        } else {
            ContentModel::Compound
        }),
    decreases block, 0int,
{
    let mut ids: Vec<u32> = Vec::new();
    let content = match &block.content {
        Some(c) => trim_outer_blank_lines(c.as_str()),
        None => String::new(),
    };
    QuoteBlock {
        id: copy_opt(&block.metadata.id),
        reftext: copy_opt(&block.reftext),
        blocks: prepare_block_range(&block.blocks, 0, block.blocks.len(), false, &mut ids),
        content,
        attributes: block.metadata.attributes.clone(),
        content_model: if block.is_verse {
            Some(ContentModel::Simple)
        } else {
            Some(ContentModel::Compound)
        },
        line_number: None,
        style: copy_opt(&block.metadata.style),
        role: copy_opt(&block.metadata.role),
        level: 0,
        title: copy_opt(&block.metadata.title),
        attribution: copy_opt(&block.attribution),
        citetitle: copy_opt(&block.citetitle),
        is_verse: block.is_verse,
    }
}

/// A passthrough block keeps its content without leading and trailing blank lines.
pub fn prepare_passthrough(block: &AstPassthroughBlock) -> (r: PassthroughBlock)
    ensures
        trimmed_outer_lines(block.content@, r.content@),
{
    PassthroughBlock {
        id: copy_opt(&block.metadata.id),
        content: trim_outer_blank_lines(block.content.as_str()),
        style: copy_opt(&block.metadata.style),
        role: copy_opt(&block.metadata.role),
        title: copy_opt(&block.metadata.title),
    }
}

/// A named image attribute that is set and not empty.
fn named_image_attr(image: &AstImageBlock, name: &str) -> (r: Option<String>)
    ensures
        r matches Some(v) ==> v@.len() > 0 && image.metadata.attributes@.contains_key(name@) && v@
            == image.metadata.attributes@[name@],
        r is Some <==> image.metadata.attributes@.contains_key(name@) && image.metadata.attributes@[name@].len() > 0,
{
    match image.metadata.attributes.get(name) {
        Some(v) => {
            let c = string_chars(v);
            if c.len() == 0 {
                None
            } else {
                Some(v.clone())
            }
        },
        None => None,
    }
}

/// The value of attribute `name` when it is set and not empty.
pub open spec fn nonempty_attr(attrs: Map<Seq<char>, Seq<char>>, name: Seq<char>) -> Option<Seq<char>> {
    if attrs.contains_key(name) && attrs[name].len() > 0 {
        Some(attrs[name])
    } else {
        None
    }
}

/// An image block's alignment, float and link are its `align`, `float` and `link`
/// attributes when they are set and not empty.
pub open spec fn image_placement(b: ImageBlock) -> bool {
    &&& opt_view(b.align) == nonempty_attr(b.attributes@, "align"@)
    &&& opt_view(b.float) == nonempty_attr(b.attributes@, "float"@)
    &&& opt_view(b.link) == nonempty_attr(b.attributes@, "link"@)
}

/// A prepared image keeps where it was asked to stand: an `align`, `float` or
/// `link` attribute with a value becomes the image's alignment, float or link, and
/// without one there is none.
pub proof fn law_image_keeps_its_placement(b: ImageBlock)
    requires
        image_placement(b),
    ensures
        b.attributes@.contains_key("align"@) && b.attributes@["align"@].len() > 0 ==> (b.align matches Some(a)
            && a@ == b.attributes@["align"@]),
        !(b.attributes@.contains_key("align"@) && b.attributes@["align"@].len() > 0) ==> b.align is None,
        b.attributes@.contains_key("float"@) && b.attributes@["float"@].len() > 0 ==> (b.float matches Some(f)
            && f@ == b.attributes@["float"@]),
        !(b.attributes@.contains_key("float"@) && b.attributes@["float"@].len() > 0) ==> b.float is None,
        b.attributes@.contains_key("link"@) && b.attributes@["link"@].len() > 0 ==> (b.link matches Some(l)
            && l@ == b.attributes@["link"@]),
        !(b.attributes@.contains_key("link"@) && b.attributes@["link"@].len() > 0) ==> b.link is None,
{
}

pub fn prepare_image_block(image: &AstImageBlock) -> (r: ImageBlock)
    ensures
        r.target@ == image.target@,
        r.alt@ == image.alt@,
        r.attributes@ == image.metadata.attributes@,
        image_placement(r),
{
    ImageBlock {
        id: copy_opt(&image.metadata.id),
        reftext: None,
        target: image.target.clone(),
        alt: image.alt.clone(),
        width: copy_opt(&image.width),
        height: copy_opt(&image.height),
        attributes: image.metadata.attributes.clone(),
        title: copy_opt(&image.metadata.title),
        style: copy_opt(&image.metadata.style),
        role: copy_opt(&image.metadata.role),
        link: named_image_attr(image, "link"),
        float: named_image_attr(image, "float"),
        align: named_image_attr(image, "align"),
    }
}

/// The blocks before the first section.
pub fn prepare_preamble(blocks: Vec<PreparedBlock>) -> (r: CompoundBlock)
    ensures
        r.blocks == blocks,
        r.content_model == Some(ContentModel::Compound),
        r.id is None && r.title is None,
{
    CompoundBlock {
        id: None,
        reftext: None,
        blocks,
        attributes: AttributeMap::new(),
        content_model: Some(ContentModel::Compound),
        line_number: None,
        style: None,
        role: None,
        level: 0,
        title: None,
    }
}

pub open spec fn inline_variant_name_spec(v: InlineVariant) -> Seq<char> {
    match v {
        InlineVariant::Strong => "strong"@,
        InlineVariant::Emphasis => "emphasis"@,
        InlineVariant::Monospace => "monospace"@,
        InlineVariant::Subscript => "subscript"@,
        InlineVariant::Superscript => "superscript"@,
    }
}

pub fn inline_variant_name(v: InlineVariant) -> (r: &'static str)
    ensures
        r@ == inline_variant_name_spec(v),
{
    match v {
        InlineVariant::Strong => "strong",
        InlineVariant::Emphasis => "emphasis",
        InlineVariant::Monospace => "monospace",
        InlineVariant::Subscript => "subscript",
        InlineVariant::Superscript => "superscript",
    }
}

/// The name of an inline form.
pub open spec fn inline_form_name_spec(f: InlineForm) -> Seq<char> {
    match f {
        InlineForm::Constrained => "constrained"@,
        InlineForm::Unconstrained => "unconstrained"@,
    }
}

pub fn inline_form_name(f: InlineForm) -> (r: &'static str)
    ensures
        f == InlineForm::Constrained ==> r@ == "constrained"@,
        f == InlineForm::Unconstrained ==> r@ == "unconstrained"@,
        r@ == inline_form_name_spec(f),
{
    match f {
        InlineForm::Constrained => "constrained",
        InlineForm::Unconstrained => "unconstrained",
    }
}

/// Prepared inlines, one for each parsed inline, in order.
/// `p` is what preparing the inline `i` gives: the same kind, with the same
/// text, targets and attributes, span variants and forms by name, nested inlines
/// prepared in turn, and footnotes not yet numbered.
pub open spec fn inline_prepared(i: Inline, p: PreparedInline) -> bool
    decreases i, 1int,
{
    match i {
        Inline::Text(t) => p matches PreparedInline::Text(q) && q.value@ == t@,
        Inline::Span(x) => p matches PreparedInline::Span(q) && q.variant@ == inline_variant_name_spec(x.variant)
            && q.form@ == inline_form_name_spec(x.form) && inlines_prepared(x.inlines@, q.inlines@),
        Inline::Link(x) => p matches PreparedInline::Link(q) && q.target == x.target && q.bare == x.bare && q.window
            == x.window && inlines_prepared(x.text@, q.inlines@),
        Inline::Xref(x) => p matches PreparedInline::Xref(q) && q.target == x.target && q.href == x.target
            && q.shorthand == x.shorthand && inlines_prepared(x.text@, q.inlines@),
        Inline::Anchor(x) => p matches PreparedInline::Anchor(q) && q.id == x.id && q.reftext == x.reftext
            && inlines_prepared(x.inlines@, q.inlines@),
        Inline::Passthrough(raw) => p matches PreparedInline::Passthrough(q) && q.value == raw,
        Inline::Image(x) => p matches PreparedInline::Image(q) && q.target == x.target && q.alt == x.alt && q.width
            == x.width && q.height == x.height,
        Inline::Icon(x) => p matches PreparedInline::Icon(q) && q.name == x.name && q.size == x.size && q.title
            == x.title && q.role == x.role,
        Inline::Footnote(x) => p matches PreparedInline::Footnote(q) && q.index is None && inlines_prepared(
            x.inlines@,
            q.inlines@,
        ),
    }
}

/// `ps` is `is` prepared one by one.
pub open spec fn inlines_prepared(is: Seq<Inline>, ps: Seq<PreparedInline>) -> bool
    decreases is, 0int,
{
    &&& is.len() == ps.len()
    &&& is.len() > 0 ==> inlines_prepared(is.subrange(0, is.len() - 1), ps.subrange(0, ps.len() - 1))
        && inline_prepared(is[is.len() - 1], ps[ps.len() - 1])
}

pub fn prepare_inlines(inlines: &Vec<Inline>) -> (r: Vec<PreparedInline>)
    ensures
        r@.len() == inlines@.len(),
        inlines_prepared(inlines@, r@),
    decreases inlines,
{
    let mut out: Vec<PreparedInline> = Vec::new();
    let mut i: usize = 0;
    while i < inlines.len()
        invariant
            i <= inlines@.len(),
            out@.len() == i,
            inlines_prepared(inlines@.subrange(0, i as int), out@),
        decreases inlines.len() - i,
    {
        let ghost o = out@;
        let p = prepare_inline(&inlines[i]);
        out.push(p);
        proof {
            let a = inlines@.subrange(0, i + 1);
            assert(a.subrange(0, a.len() - 1) =~= inlines@.subrange(0, i as int));
            assert(out@.subrange(0, out@.len() - 1) =~= o);
            assert(a[a.len() - 1] == inlines@[i as int]);
        }
        i += 1;
    }
    assert(inlines@.subrange(0, inlines@.len() as int) =~= inlines@);
    out
}

pub fn prepare_inline(inline: &Inline) -> (r: PreparedInline)
    ensures
        inline_prepared(*inline, r),
    decreases inline,
{
    match inline {
        Inline::Text(t) => PreparedInline::Text(TextInline { value: t.clone() }),
        Inline::Span(s) => PreparedInline::Span(
            SpanInline {
                variant: lit(inline_variant_name(s.variant)),
                form: lit(inline_form_name(s.form)),
                inlines: prepare_inlines(&s.inlines),
            },
        ),
        Inline::Link(l) => PreparedInline::Link(
            LinkInline {
                target: l.target.clone(),
                inlines: prepare_inlines(&l.text),
                bare: l.bare,
                window: copy_opt(&l.window),
            },
        ),
        Inline::Xref(x) => PreparedInline::Xref(
            XrefInline {
                target: x.target.clone(),
                href: x.target.clone(),
                inlines: prepare_inlines(&x.text),
                shorthand: x.shorthand,
            },
        ),
        Inline::Anchor(a) => PreparedInline::Anchor(
            AnchorInline { id: a.id.clone(), reftext: copy_opt(&a.reftext), inlines: prepare_inlines(&a.inlines) },
        ),
        Inline::Passthrough(raw) => PreparedInline::Passthrough(PassthroughInline { value: raw.clone() }),
        Inline::Image(img) => PreparedInline::Image(
            ImageInline {
                target: img.target.clone(),
                alt: img.alt.clone(),
                width: copy_opt(&img.width),
                height: copy_opt(&img.height),
            },
        ),
        Inline::Icon(icon) => PreparedInline::Icon(
            IconInline {
                name: icon.name.clone(),
                size: copy_opt(&icon.size),
                title: copy_opt(&icon.title),
                role: copy_opt(&icon.role),
            },
        ),
        Inline::Footnote(f) => PreparedInline::Footnote(
            FootnoteInline { index: None, inlines: prepare_inlines(&f.inlines) },
        ),
    }
}

// ---------------------------------------------------------------------------
// Plain text and copies of prepared content

/// `b` is a copy of `a`: the same kind and fields, nested inlines copies in turn.
pub open spec fn same_inline(a: PreparedInline, b: PreparedInline) -> bool
    decreases a, 1int,
{
    match a {
        PreparedInline::Text(x) => b matches PreparedInline::Text(y) && y == x,
        PreparedInline::Span(x) => b matches PreparedInline::Span(y) && y.variant == x.variant && y.form == x.form
            && same_inlines(x.inlines@, y.inlines@),
        PreparedInline::Link(x) => b matches PreparedInline::Link(y) && y.target == x.target && y.bare == x.bare
            && y.window == x.window && same_inlines(x.inlines@, y.inlines@),
        PreparedInline::Xref(x) => b matches PreparedInline::Xref(y) && y.target == x.target && y.href == x.href
            && y.shorthand == x.shorthand && same_inlines(x.inlines@, y.inlines@),
        PreparedInline::Anchor(x) => b matches PreparedInline::Anchor(y) && y.id == x.id && y.reftext == x.reftext
            && same_inlines(x.inlines@, y.inlines@),
        PreparedInline::Passthrough(x) => b matches PreparedInline::Passthrough(y) && y == x,
        PreparedInline::Image(x) => b matches PreparedInline::Image(y) && y == x,
        PreparedInline::Icon(x) => b matches PreparedInline::Icon(y) && y == x,
        PreparedInline::Footnote(x) => b matches PreparedInline::Footnote(y) && y.index == x.index && same_inlines(
            x.inlines@,
            y.inlines@,
        ),
    }
}

/// `bs` is a copy of `as_`, inline by inline.
pub open spec fn same_inlines(as_: Seq<PreparedInline>, bs: Seq<PreparedInline>) -> bool
    decreases as_, 0int,
{
    &&& as_.len() == bs.len()
    &&& as_.len() > 0 ==> same_inlines(as_.subrange(0, as_.len() - 1), bs.subrange(0, bs.len() - 1))
        && same_inline(as_[as_.len() - 1], bs[bs.len() - 1])
}

/// A copy of prepared inlines.
pub fn copy_prepared_inlines(inlines: &Vec<PreparedInline>) -> (r: Vec<PreparedInline>)
    ensures
        r@.len() == inlines@.len(),
        same_inlines(inlines@, r@),
    decreases inlines,
{
    let mut out: Vec<PreparedInline> = Vec::new();
    let mut i: usize = 0;
    while i < inlines.len()
        invariant
            i <= inlines@.len(),
            out@.len() == i,
            same_inlines(inlines@.subrange(0, i as int), out@),
        decreases inlines.len() - i,
    {
        let ghost o = out@;
        out.push(copy_prepared_inline(&inlines[i]));
        proof {
            let a = inlines@.subrange(0, i + 1);
            assert(a.subrange(0, a.len() - 1) =~= inlines@.subrange(0, i as int));
            assert(out@.subrange(0, out@.len() - 1) =~= o);
            assert(a[a.len() - 1] == inlines@[i as int]);
        }
        i += 1;
    }
    assert(inlines@.subrange(0, inlines@.len() as int) =~= inlines@);
    out
}

pub fn copy_prepared_inline(inline: &PreparedInline) -> (r: PreparedInline)
    ensures
        same_inline(*inline, r),
    decreases inline,
{
    match inline {
        PreparedInline::Text(t) => PreparedInline::Text(TextInline { value: t.value.clone() }),
        PreparedInline::Span(s) => PreparedInline::Span(
            SpanInline {
                variant: s.variant.clone(),
                form: s.form.clone(),
                inlines: copy_prepared_inlines(&s.inlines),
            },
        ),
        PreparedInline::Link(l) => PreparedInline::Link(
            LinkInline {
                target: l.target.clone(),
                inlines: copy_prepared_inlines(&l.inlines),
                bare: l.bare,
                window: copy_opt(&l.window),
            },
        ),
        PreparedInline::Xref(x) => PreparedInline::Xref(
            XrefInline {
                target: x.target.clone(),
                href: x.href.clone(),
                inlines: copy_prepared_inlines(&x.inlines),
                shorthand: x.shorthand,
            },
        ),
        PreparedInline::Anchor(a) => PreparedInline::Anchor(
            AnchorInline { id: a.id.clone(), reftext: copy_opt(&a.reftext), inlines: copy_prepared_inlines(&a.inlines) },
        ),
        PreparedInline::Passthrough(p) => PreparedInline::Passthrough(PassthroughInline { value: p.value.clone() }),
        PreparedInline::Image(img) => PreparedInline::Image(
            ImageInline {
                target: img.target.clone(),
                alt: img.alt.clone(),
                width: copy_opt(&img.width),
                height: copy_opt(&img.height),
            },
        ),
        PreparedInline::Icon(icon) => PreparedInline::Icon(
            IconInline {
                name: icon.name.clone(),
                size: copy_opt(&icon.size),
                title: copy_opt(&icon.title),
                role: copy_opt(&icon.role),
            },
        ),
        PreparedInline::Footnote(f) => PreparedInline::Footnote(
            FootnoteInline { index: f.index, inlines: copy_prepared_inlines(&f.inlines) },
        ),
    }
}

/// The text a prepared inline shows: link, xref, span and anchor text, image alt
/// text, icon names, and `[n]` for a footnote numbered `n` (`[0]` before numbering).
pub open spec fn prepared_inline_text(i: PreparedInline) -> Seq<char>
    decreases i,
{
    match i {
        PreparedInline::Text(t) => t.value@,
        PreparedInline::Span(s) => prepared_inlines_text(s.inlines@),
        PreparedInline::Link(l) => prepared_inlines_text(l.inlines@),
        PreparedInline::Xref(x) => prepared_inlines_text(x.inlines@),
        PreparedInline::Anchor(a) => prepared_inlines_text(a.inlines@),
        PreparedInline::Passthrough(p) => p.value@,
        PreparedInline::Image(img) => img.alt@,
        PreparedInline::Icon(icon) => icon.name@,
        PreparedInline::Footnote(f) => seq!['['] + decimal_spec(
            match f.index {
                Some(n) => n as nat,
                None => 0nat,
            },
        ) + seq![']'],
    }
}

/// The concatenated text of prepared inlines.
pub open spec fn prepared_inlines_text(s: Seq<PreparedInline>) -> Seq<char>
    decreases s,
{
    if s.len() == 0 {
        Seq::empty()
    } else {
        prepared_inlines_text(s.subrange(0, s.len() - 1)) + prepared_inline_text(s[s.len() - 1])
    }
}

pub fn append_prepared_inlines_text(out: &mut Vec<char>, inlines: &Vec<PreparedInline>)
    ensures
        final(out)@ == old(out)@ + prepared_inlines_text(inlines@),
    decreases inlines,
{
    let mut i: usize = 0;
    while i < inlines.len()
        invariant
            i <= inlines@.len(),
            out@ == old(out)@ + prepared_inlines_text(inlines@.subrange(0, i as int)),
        decreases inlines.len() - i,
    {
        append_prepared_inline_text(out, &inlines[i]);
        assert(inlines@.subrange(0, i + 1).subrange(0, i as int) =~= inlines@.subrange(0, i as int));
        i += 1;
        assert(out@ =~= old(out)@ + prepared_inlines_text(inlines@.subrange(0, i as int)));
    }
    assert(inlines@.subrange(0, inlines@.len() as int) =~= inlines@);
}

pub fn append_prepared_inline_text(out: &mut Vec<char>, inline: &PreparedInline)
    ensures
        final(out)@ == old(out)@ + prepared_inline_text(*inline),
    decreases inline,
{
    match inline {
        PreparedInline::Text(t) => append(out, &string_chars(&t.value)),
        PreparedInline::Span(s) => append_prepared_inlines_text(out, &s.inlines),
        PreparedInline::Link(l) => append_prepared_inlines_text(out, &l.inlines),
        PreparedInline::Xref(x) => append_prepared_inlines_text(out, &x.inlines),
        PreparedInline::Anchor(a) => append_prepared_inlines_text(out, &a.inlines),
        PreparedInline::Passthrough(p) => append(out, &string_chars(&p.value)),
        PreparedInline::Image(img) => append(out, &string_chars(&img.alt)),
        PreparedInline::Icon(icon) => append(out, &string_chars(&icon.name)),
        PreparedInline::Footnote(f) => {
            let n: u32 = match f.index {
                Some(n) => n,
                None => 0,
            };
            let mut t: Vec<char> = Vec::new();
            t.push('[');
            append(&mut t, &usize_to_chars(n as usize));
            t.push(']');
            append(out, &t);
        },
    }
}

/// The plain text of prepared inlines.
pub fn prepared_inlines_plain_text(inlines: &Vec<PreparedInline>) -> (r: String)
    ensures
        r@ == prepared_inlines_text(inlines@),
{
    let mut out: Vec<char> = Vec::new();
    append_prepared_inlines_text(&mut out, inlines);
    assert(out@ =~= prepared_inlines_text(inlines@));
    to_string(&out)
}

/// The non-empty plain texts of prepared blocks, in order.
pub open spec fn prepared_nonempty_texts(bs: Seq<PreparedBlock>) -> Seq<Seq<char>>
    decreases bs, 1int,
{
    if bs.len() == 0 {
        Seq::empty()
    } else {
        let t = prepared_nonempty_texts(bs.subrange(0, bs.len() - 1));
        let x = prepared_block_text(bs[bs.len() - 1]);
        if x.len() > 0 {
            t.push(x)
        } else {
            t
        }
    }
}

/// The plain text of prepared blocks: each block's non-empty text, joined by newlines.
pub open spec fn prepared_blocks_text(bs: Seq<PreparedBlock>) -> Seq<char>
    decreases bs, 2int,
{
    crate::text::join_spec(prepared_nonempty_texts(bs), "\n"@)
}

/// The plain texts of prepared list items.
pub open spec fn prepared_item_texts(items: Seq<ListItemBlock>) -> Seq<Seq<char>>
    decreases items, 1int,
{
    if items.len() == 0 {
        Seq::empty()
    } else {
        prepared_item_texts(items.subrange(0, items.len() - 1)).push(
            prepared_blocks_text(items[items.len() - 1].blocks@),
        )
    }
}

/// The lines of prepared description list items: each term, then the description.
pub open spec fn prepared_description_parts(items: Seq<DescriptionListItemBlock>) -> Seq<Seq<char>>
    decreases items, 1int,
{
    if items.len() == 0 {
        Seq::empty()
    } else {
        let item = items[items.len() - 1];
        prepared_description_parts(items.subrange(0, items.len() - 1)) + item.terms@.map_values(
            |t: DescriptionListTermBlock| t.text@,
        ) + match item.description {
            Some(d) => seq![prepared_blocks_text(d.blocks@)],
            None => Seq::empty(),
        }
    }
}

/// The contents of the cells of prepared rows, row by row.
pub open spec fn prepared_cell_contents(rows: Seq<TableRow>) -> Seq<Seq<char>>
    decreases rows.len(),
{
    if rows.len() == 0 {
        Seq::empty()
    } else {
        prepared_cell_contents(rows.drop_last()) + rows.last().cells@.map_values(|c: TableCell| c.content@)
    }
}

/// The plain text of a prepared block.
pub open spec fn prepared_block_text(b: PreparedBlock) -> Seq<char>
    decreases b, 3int,
{
    match b {
        PreparedBlock::Preamble(c) => prepared_blocks_text(c.blocks@),
        PreparedBlock::Example(c) => prepared_blocks_text(c.blocks@),
        PreparedBlock::Sidebar(c) => prepared_blocks_text(c.blocks@),
        PreparedBlock::Open(c) => prepared_blocks_text(c.blocks@),
        PreparedBlock::Paragraph(p) => p.content@,
        PreparedBlock::Admonition(a) => prepared_blocks_text(a.blocks@),
        PreparedBlock::Section(s) => prepared_blocks_text(s.blocks@),
        PreparedBlock::UnorderedList(l) => crate::text::join_spec(prepared_item_texts(l.items@), "\n"@),
        PreparedBlock::OrderedList(l) => crate::text::join_spec(prepared_item_texts(l.items@), "\n"@),
        PreparedBlock::DescriptionList(l) => crate::text::join_spec(prepared_description_parts(l.items@), "\n"@),
        PreparedBlock::Table(t) => crate::text::join_spec(prepared_cell_contents(t.rows@), "\n"@),
        PreparedBlock::Listing(l) => l.content@,
        PreparedBlock::Literal(l) => l.content@,
        PreparedBlock::Quote(q) => if q.content@.len() == 0 {
            prepared_blocks_text(q.blocks@)
        } else {
            q.content@
        },
        PreparedBlock::Passthrough(p) => p.content@,
        PreparedBlock::Image(img) => img.alt@,
        PreparedBlock::Toc(_) => Seq::empty(),
        PreparedBlock::CalloutList(_) => Seq::empty(),
    }
}

/// The plain text of prepared blocks: each block's non-empty text, joined by newlines.
pub fn prepared_blocks_plain_text(blocks: &Vec<PreparedBlock>) -> (r: String)
    ensures
        r@ == prepared_blocks_text(blocks@),
    decreases blocks,
{
    let mut parts: Vec<Vec<char>> = Vec::new();
    let mut i: usize = 0;
    while i < blocks.len()
        invariant
            i <= blocks@.len(),
            crate::text::views(parts@) == prepared_nonempty_texts(blocks@.subrange(0, i as int)),
        decreases blocks.len() - i,
    {
        let ghost p0 = parts@;
        let t = string_chars(&prepared_block_plain_text(&blocks[i]));
        proof {
            let b = blocks@.subrange(0, i + 1);
            assert(b.subrange(0, b.len() - 1) =~= blocks@.subrange(0, i as int));
            assert(b[b.len() - 1] == blocks@[i as int]);
        }
        if t.len() > 0 {
            parts.push(t);
            assert(crate::text::views(parts@) =~= crate::text::views(p0).push(t@));
        }
        i += 1;
    }
    assert(blocks@.subrange(0, blocks@.len() as int) =~= blocks@);
    to_string(&join_str(&parts, "\n"))
}

fn prepared_items_plain_text(items: &Vec<ListItemBlock>) -> (r: String)
    ensures
        r@ == crate::text::join_spec(prepared_item_texts(items@), "\n"@),
    decreases items,
{
    let mut parts: Vec<Vec<char>> = Vec::new();
    let mut i: usize = 0;
    while i < items.len()
        invariant
            i <= items@.len(),
            crate::text::views(parts@) == prepared_item_texts(items@.subrange(0, i as int)),
        decreases items.len() - i,
    {
        let ghost p0 = parts@;
        let t = string_chars(&prepared_blocks_plain_text(&items[i].blocks));
        proof {
            let b = items@.subrange(0, i + 1);
            assert(b.subrange(0, b.len() - 1) =~= items@.subrange(0, i as int));
            assert(b[b.len() - 1] == items@[i as int]);
        }
        parts.push(t);
        assert(crate::text::views(parts@) =~= crate::text::views(p0).push(t@));
        i += 1;
    }
    assert(items@.subrange(0, items@.len() as int) =~= items@);
    to_string(&join_str(&parts, "\n"))
}

fn prepared_description_items_plain_text(items: &Vec<DescriptionListItemBlock>) -> (r: String)
    ensures
        r@ == crate::text::join_spec(prepared_description_parts(items@), "\n"@),
    decreases items,
{
    let mut parts: Vec<Vec<char>> = Vec::new();
    let mut i: usize = 0;
    while i < items.len()
        invariant
            i <= items@.len(),
            crate::text::views(parts@) == prepared_description_parts(items@.subrange(0, i as int)),
        decreases items.len() - i,
    {
        let item = &items[i];
        let ghost p0 = crate::text::views(parts@);
        let mut k: usize = 0;
        while k < item.terms.len()
            invariant
                k <= item.terms@.len(),
                crate::text::views(parts@) == p0 + item.terms@.subrange(0, k as int).map_values(
                    |t: DescriptionListTermBlock| t.text@,
                ),
            decreases item.terms.len() - k,
        {
            let ghost q0 = crate::text::views(parts@);
            parts.push(string_chars(&item.terms[k].text));
            assert(crate::text::views(parts@) =~= q0.push(item.terms@[k as int].text@));
            assert(item.terms@.subrange(0, k + 1).map_values(|t: DescriptionListTermBlock| t.text@) =~= item.terms@.subrange(
                0,
                k as int,
            ).map_values(|t: DescriptionListTermBlock| t.text@).push(item.terms@[k as int].text@));
            k += 1;
        }
        assert(item.terms@.subrange(0, item.terms@.len() as int) =~= item.terms@);
        let ghost p1 = crate::text::views(parts@);
        match &item.description {
            Some(d) => {
                proof {
                    assert(decreases_to!(items => items@[i as int]));
                    assert(decreases_to!(items@[i as int] => items@[i as int].description));
                    assert(decreases_to!(items@[i as int].description => d));
                }
                let t = string_chars(&prepared_blocks_plain_text(&d.blocks));
                parts.push(t);
                assert(crate::text::views(parts@) =~= p1 + seq![t@]);
            },
            None => {
                assert(crate::text::views(parts@) =~= p1 + Seq::<Seq<char>>::empty());
            },
        }
        proof {
            let b = items@.subrange(0, i + 1);
            assert(b.subrange(0, b.len() - 1) =~= items@.subrange(0, i as int));
            assert(b[b.len() - 1] == items@[i as int]);
        }
        i += 1;
    }
    assert(items@.subrange(0, items@.len() as int) =~= items@);
    to_string(&join_str(&parts, "\n"))
}

/// The plain text of a prepared block.
pub fn prepared_block_plain_text(block: &PreparedBlock) -> (r: String)
    ensures
        r@ == prepared_block_text(*block),
    decreases block,
{
    match block {
        PreparedBlock::Preamble(b) => prepared_blocks_plain_text(&b.blocks),
        PreparedBlock::Example(b) => prepared_blocks_plain_text(&b.blocks),
        PreparedBlock::Sidebar(b) => prepared_blocks_plain_text(&b.blocks),
        PreparedBlock::Open(b) => prepared_blocks_plain_text(&b.blocks),
        PreparedBlock::Paragraph(p) => to_string(&string_chars(&p.content)),
        PreparedBlock::Admonition(a) => prepared_blocks_plain_text(&a.blocks),
        PreparedBlock::Section(s) => prepared_blocks_plain_text(&s.blocks),
        PreparedBlock::UnorderedList(l) => prepared_items_plain_text(&l.items),
        PreparedBlock::OrderedList(l) => prepared_items_plain_text(&l.items),
        PreparedBlock::DescriptionList(l) => prepared_description_items_plain_text(&l.items),
        PreparedBlock::Table(t) => {
            let mut parts: Vec<Vec<char>> = Vec::new();
            let mut i: usize = 0;
            while i < t.rows.len()
                invariant
                    i <= t.rows@.len(),
                    crate::text::views(parts@) == prepared_cell_contents(t.rows@.subrange(0, i as int)),
                decreases t.rows.len() - i,
            {
                let row = &t.rows[i];
                let ghost p0 = crate::text::views(parts@);
                let mut j: usize = 0;
                while j < row.cells.len()
                    invariant
                        j <= row.cells@.len(),
                        crate::text::views(parts@) == p0 + row.cells@.subrange(0, j as int).map_values(
                            |c: TableCell| c.content@,
                        ),
                    decreases row.cells.len() - j,
                {
                    let ghost q0 = crate::text::views(parts@);
                    parts.push(string_chars(&row.cells[j].content));
                    assert(crate::text::views(parts@) =~= q0.push(row.cells@[j as int].content@));
                    assert(row.cells@.subrange(0, j + 1).map_values(|c: TableCell| c.content@) =~= row.cells@.subrange(
                        0,
                        j as int,
                    ).map_values(|c: TableCell| c.content@).push(row.cells@[j as int].content@));
                    j += 1;
                }
                assert(row.cells@.subrange(0, row.cells@.len() as int) =~= row.cells@);
                assert(t.rows@.subrange(0, i + 1).drop_last() =~= t.rows@.subrange(0, i as int));
                i += 1;
            }
            assert(t.rows@.subrange(0, t.rows@.len() as int) =~= t.rows@);
            to_string(&join_str(&parts, "\n"))
        },
        PreparedBlock::Listing(l) => to_string(&string_chars(&l.content)),
        PreparedBlock::Literal(l) => to_string(&string_chars(&l.content)),
        PreparedBlock::Quote(q) => {
            let c = string_chars(&q.content);
            if c.len() == 0 {
                prepared_blocks_plain_text(&q.blocks)
            } else {
                to_string(&c)
            }
        },
        PreparedBlock::Passthrough(p) => to_string(&string_chars(&p.content)),
        PreparedBlock::Image(img) => to_string(&string_chars(&img.alt)),
        PreparedBlock::Toc(_) => String::new(),
        PreparedBlock::CalloutList(_) => String::new(),
    }
}

// ---------------------------------------------------------------------------
// Footnotes

/// `n` as a `u32`, or the largest `u32` when it does not fit.
pub open spec fn capped(n: int) -> u32 {
    if n <= u32::MAX {
        n as u32
    } else {
        u32::MAX
    }
}

/// Footnotes so far are numbered 1, 2, 3, ... and `next` is the next number.
pub open spec fn footnotes_numbered(footnotes: Seq<Footnote>, next: u32) -> bool {
    &&& forall|k: int| 0 <= k < footnotes.len() ==> (#[trigger] footnotes[k]).index == Some(capped(k + 1))
    &&& next == capped(footnotes.len() as int + 1)
}

/// Takes the vector out of `v`, leaving it empty.
fn take_blocks(v: &mut Vec<PreparedBlock>) -> (r: Vec<PreparedBlock>)
    ensures
        r == *old(v),
        final(v)@.len() == 0,
{
    let mut out: Vec<PreparedBlock> = Vec::new();
    std::mem::swap(&mut out, v);
    out
}

fn take_inlines(v: &mut Vec<PreparedInline>) -> (r: Vec<PreparedInline>)
    ensures
        r == *old(v),
        final(v)@.len() == 0,
{
    let mut out: Vec<PreparedInline> = Vec::new();
    std::mem::swap(&mut out, v);
    out
}

/// The blocks hold one paragraph.
pub open spec fn single_paragraph_blocks(bs: Seq<PreparedBlock>) -> bool {
    bs.len() == 1 && bs[0] is Paragraph
}

/// How many footnotes numbering `bs` with fuel `f` records: none when the fuel
/// is spent, else those of each block.
pub open spec fn footnotes_in_blocks(bs: Seq<PreparedBlock>, f: nat) -> nat
    decreases f, 1int, 0int,
{
    if f == 0 {
        0
    } else {
        footnotes_in_block_seq(bs, (f - 1) as nat)
    }
}

/// The footnotes of each block of `bs` in turn.
pub open spec fn footnotes_in_block_seq(bs: Seq<PreparedBlock>, f: nat) -> nat
    decreases f, 6int, bs.len(),
{
    if bs.len() == 0 {
        0
    } else {
        footnotes_in_block(bs[0], f) + footnotes_in_block_seq(bs.drop_first(), f)
    }
}

/// How many footnotes numbering `is` with fuel `f` records.
pub open spec fn footnotes_in_inlines(is: Seq<PreparedInline>, f: nat) -> nat
    decreases f, 1int, 0int,
{
    if f == 0 {
        0
    } else {
        footnotes_in_inline_seq(is, (f - 1) as nat)
    }
}

/// The footnotes of each inline of `is` in turn.
pub open spec fn footnotes_in_inline_seq(is: Seq<PreparedInline>, f: nat) -> nat
    decreases f, 6int, is.len(),
{
    if is.len() == 0 {
        0
    } else {
        footnotes_in_inline(is[0], f) + footnotes_in_inline_seq(is.drop_first(), f)
    }
}

/// The footnotes of one inline: a footnote counts itself after those inside it.
pub open spec fn footnotes_in_inline(i: PreparedInline, f: nat) -> nat
    decreases f, 5int, 0int,
{
    match i {
        PreparedInline::Span(x) => footnotes_in_inlines(x.inlines@, f),
        PreparedInline::Link(x) => footnotes_in_inlines(x.inlines@, f),
        PreparedInline::Xref(x) => footnotes_in_inlines(x.inlines@, f),
        PreparedInline::Anchor(x) => footnotes_in_inlines(x.inlines@, f),
        PreparedInline::Footnote(x) => footnotes_in_inlines(x.inlines@, f) + 1,
        _ => 0,
    }
}

/// The footnotes of one block: those of its blocks, inlines, items or rows.
pub open spec fn footnotes_in_block(b: PreparedBlock, f: nat) -> nat
    decreases f, 5int, 0int,
{
    match b {
        PreparedBlock::Preamble(x) => footnotes_in_blocks(x.blocks@, f),
        PreparedBlock::Paragraph(x) => footnotes_in_inlines(x.inlines@, f),
        PreparedBlock::Admonition(x) => footnotes_in_blocks(x.blocks@, f),
        PreparedBlock::UnorderedList(x) => footnotes_in_items(x.items@, f),
        PreparedBlock::OrderedList(x) => footnotes_in_items(x.items@, f),
        PreparedBlock::DescriptionList(x) => footnotes_in_ditems(x.items@, f),
        PreparedBlock::Table(x) => (match x.header {
            Some(h) => footnotes_in_row(h, f),
            None => 0,
        }) + footnotes_in_rows(x.rows@, f),
        PreparedBlock::Example(x) => footnotes_in_blocks(x.blocks@, f),
        PreparedBlock::Sidebar(x) => footnotes_in_blocks(x.blocks@, f),
        PreparedBlock::Open(x) => footnotes_in_blocks(x.blocks@, f),
        PreparedBlock::Quote(x) => footnotes_in_blocks(x.blocks@, f),
        PreparedBlock::Section(x) => footnotes_in_blocks(x.blocks@, f),
        _ => 0,
    }
}

/// The footnotes of list items.
pub open spec fn footnotes_in_items(items: Seq<ListItemBlock>, f: nat) -> nat
    decreases f, 4int, items.len(),
{
    if items.len() == 0 {
        0
    } else {
        footnotes_in_blocks(items[0].blocks@, f) + footnotes_in_items(items.drop_first(), f)
    }
}

/// The footnotes of description list items: their terms, then their descriptions.
pub open spec fn footnotes_in_ditems(items: Seq<DescriptionListItemBlock>, f: nat) -> nat
    decreases f, 4int, items.len(),
{
    if items.len() == 0 {
        0
    } else {
        footnotes_in_terms(items[0].terms@, f) + (match items[0].description {
            Some(d) => footnotes_in_blocks(d.blocks@, f),
            None => 0,
        }) + footnotes_in_ditems(items.drop_first(), f)
    }
}

/// The footnotes of description list terms.
pub open spec fn footnotes_in_terms(ts: Seq<DescriptionListTermBlock>, f: nat) -> nat
    decreases f, 3int, ts.len(),
{
    if ts.len() == 0 {
        0
    } else {
        footnotes_in_inlines(ts[0].inlines@, f) + footnotes_in_terms(ts.drop_first(), f)
    }
}

/// The footnotes of table rows.
pub open spec fn footnotes_in_rows(rows: Seq<TableRow>, f: nat) -> nat
    decreases f, 4int, rows.len(),
{
    if rows.len() == 0 {
        0
    } else {
        footnotes_in_row(rows[0], f) + footnotes_in_rows(rows.drop_first(), f)
    }
}

/// The footnotes of a table row.
pub open spec fn footnotes_in_row(row: TableRow, f: nat) -> nat
    decreases f, 3int, 0int,
{
    footnotes_in_cells(row.cells@, f)
}

/// The footnotes of table cells: those of each cell's blocks and, unless they
/// are one paragraph, of its inlines.
pub open spec fn footnotes_in_cells(cells: Seq<TableCell>, f: nat) -> nat
    decreases f, 2int, cells.len(),
{
    if cells.len() == 0 {
        0
    } else {
        footnotes_in_blocks(cells[0].blocks@, f) + (if single_paragraph_blocks(cells[0].blocks@) {
            0
        } else {
            footnotes_in_inlines(cells[0].inlines@, f)
        }) + footnotes_in_cells(cells.drop_first(), f)
    }
}

/// Numbers the footnotes in `blocks`, in document order, recording each one.
pub fn number_footnotes_in_blocks(
    blocks: Vec<PreparedBlock>,
    footnotes: &mut Vec<Footnote>,
    next: &mut u32,
    fuel: usize,
) -> (r: Vec<PreparedBlock>)
    requires
        footnotes_numbered(old(footnotes)@, *old(next)),
    ensures
        footnotes_numbered(final(footnotes)@, *final(next)),
        final(footnotes)@.len() >= old(footnotes)@.len(),
        r@.len() == blocks@.len(),
        blocks@.len() == 0 ==> final(footnotes)@ == old(footnotes)@,
        final(footnotes)@.len() == old(footnotes)@.len() + footnotes_in_blocks(blocks@, fuel as nat),
        forall|k: int| 0 <= k < blocks@.len() ==> same_block_kind(blocks@[k], #[trigger] r@[k]),
    decreases fuel, 2usize,
{
    if fuel == 0 {
        return blocks;
    }
    let ghost orig = blocks@;
    let mut blocks = blocks;
    let n = blocks.len();
    let mut out: Vec<PreparedBlock> = Vec::new();
    while blocks.len() > 0
        invariant
            fuel > 0,
            footnotes_numbered(footnotes@, *next),
            footnotes@.len() >= old(footnotes)@.len(),
            out@.len() + blocks@.len() == n,
            n == 0 ==> footnotes@ == old(footnotes)@,
            n == orig.len(),
            blocks@ == orig.subrange(out@.len() as int, n as int),
            old(footnotes)@.len() + footnotes_in_block_seq(orig, (fuel - 1) as nat) == footnotes@.len()
                + footnotes_in_block_seq(blocks@, (fuel - 1) as nat),
            forall|k: int| 0 <= k < out@.len() ==> same_block_kind(orig[k], #[trigger] out@[k]),
        decreases blocks.len(),
    {
        let ghost rem = blocks@;
        let b = blocks.remove(0);
        assert(blocks@ =~= rem.drop_first());
        assert(orig.subrange(out@.len() as int + 1, n as int) =~= rem.drop_first());
        out.push(number_footnotes_in_block(b, footnotes, next, fuel - 1));
    }
    out
}

fn number_footnotes_in_items(
    items: Vec<ListItemBlock>,
    footnotes: &mut Vec<Footnote>,
    next: &mut u32,
    fuel: usize,
) -> (r: Vec<ListItemBlock>)
    requires
        footnotes_numbered(old(footnotes)@, *old(next)),
    ensures
        footnotes_numbered(final(footnotes)@, *final(next)),
        final(footnotes)@.len() >= old(footnotes)@.len(),
        final(footnotes)@.len() == old(footnotes)@.len() + footnotes_in_items(items@, fuel as nat),
        r@.len() == items@.len(),
    decreases fuel, 3usize,
{
    let ghost orig = items@;
    let mut items = items;
    let mut out: Vec<ListItemBlock> = Vec::new();
    while items.len() > 0
        invariant
            footnotes_numbered(footnotes@, *next),
            footnotes@.len() >= old(footnotes)@.len(),
            out@.len() + items@.len() == orig.len(),
            old(footnotes)@.len() + footnotes_in_items(orig, fuel as nat) == footnotes@.len() + footnotes_in_items(
                items@,
                fuel as nat,
            ),
        decreases items.len(),
    {
        let ghost rem = items@;
        let item = items.remove(0);
        assert(items@ =~= rem.drop_first());
        out.push(ListItemBlock { blocks: number_footnotes_in_blocks(item.blocks, footnotes, next, fuel) });
    }
    out
}

/// A table cell after numbering: a cell holding one paragraph takes that
/// paragraph's inlines and text.
fn number_footnotes_in_row(row: TableRow, footnotes: &mut Vec<Footnote>, next: &mut u32, fuel: usize) -> (r:
    TableRow)
    requires
        footnotes_numbered(old(footnotes)@, *old(next)),
    ensures
        footnotes_numbered(final(footnotes)@, *final(next)),
        final(footnotes)@.len() >= old(footnotes)@.len(),
        final(footnotes)@.len() == old(footnotes)@.len() + footnotes_in_row(row, fuel as nat),
        r.cells@.len() == row.cells@.len(),
    decreases fuel, 3usize,
{
    let ghost orig = row.cells@;
    let mut cells = row.cells;
    let mut out: Vec<TableCell> = Vec::new();
    while cells.len() > 0
        invariant
            footnotes_numbered(footnotes@, *next),
            footnotes@.len() >= old(footnotes)@.len(),
            out@.len() + cells@.len() == orig.len(),
            old(footnotes)@.len() + footnotes_in_cells(orig, fuel as nat) == footnotes@.len() + footnotes_in_cells(
                cells@,
                fuel as nat,
            ),
        decreases cells.len(),
    {
        let ghost rem = cells@;
        let mut cell = cells.remove(0);
        assert(cells@ =~= rem.drop_first());
        let ghost cell0 = cell;
        let blocks = take_blocks(&mut cell.blocks);
        cell.blocks = number_footnotes_in_blocks(blocks, footnotes, next, fuel);
        assert(single_paragraph_blocks(cell.blocks@) == single_paragraph_blocks(cell0.blocks@)) by {
            if cell0.blocks@.len() == 1 {
                assert(same_block_kind(cell0.blocks@[0], cell.blocks@[0]));
            }
        }
        let single = single_paragraph_text(&cell.blocks);
        match single {
            Some((inlines, content)) => {
                cell.inlines = inlines;
                cell.content = content;
            },
            None => {
                let inlines = take_inlines(&mut cell.inlines);
                cell.inlines = number_footnotes_in_inlines(inlines, footnotes, next, fuel);
                cell.content = if cell.inlines.len() == 0 {
                    prepared_blocks_plain_text(&cell.blocks)
                } else {
                    prepared_inlines_plain_text(&cell.inlines)
                };
            },
        }
        out.push(cell);
    }
    TableRow { cells: out }
}

/// The inlines and text of the paragraph, when the blocks are one paragraph.
fn single_paragraph_text(blocks: &Vec<PreparedBlock>) -> (r: Option<(Vec<PreparedInline>, String)>)
    ensures
        r is Some <==> blocks@.len() == 1 && blocks@[0] is Paragraph,
        r matches Some(p) ==> (blocks@[0] matches PreparedBlock::Paragraph(q) && same_inlines(q.inlines@, p.0@)
            && p.1 == q.content),
{
    if blocks.len() != 1 {
        return None;
    }
    match &blocks[0] {
        PreparedBlock::Paragraph(p) => Some((copy_prepared_inlines(&p.inlines), p.content.clone())),
        _ => None,
    }
}

fn number_footnotes_in_block(block: PreparedBlock, footnotes: &mut Vec<Footnote>, next: &mut u32, fuel: usize) -> (r:
    PreparedBlock)
    requires
        footnotes_numbered(old(footnotes)@, *old(next)),
    ensures
        footnotes_numbered(final(footnotes)@, *final(next)),
        final(footnotes)@.len() >= old(footnotes)@.len(),
        final(footnotes)@.len() == old(footnotes)@.len() + footnotes_in_block(block, fuel as nat),
        same_block_kind(block, r),
    decreases fuel, 4usize,
{
    match block {
        PreparedBlock::Preamble(mut b) => {
            let bs = take_blocks(&mut b.blocks);
            b.blocks = number_footnotes_in_blocks(bs, footnotes, next, fuel);
            PreparedBlock::Preamble(b)
        },
        PreparedBlock::Paragraph(mut p) => {
            let inl = take_inlines(&mut p.inlines);
            p.inlines = number_footnotes_in_inlines(inl, footnotes, next, fuel);
            p.content = prepared_inlines_plain_text(&p.inlines);
            PreparedBlock::Paragraph(p)
        },
        PreparedBlock::Admonition(mut a) => {
            let bs = take_blocks(&mut a.blocks);
            a.blocks = number_footnotes_in_blocks(bs, footnotes, next, fuel);
            PreparedBlock::Admonition(a)
        },
        PreparedBlock::UnorderedList(mut l) => {
            let mut items: Vec<ListItemBlock> = Vec::new();
            std::mem::swap(&mut items, &mut l.items);
            l.items = number_footnotes_in_items(items, footnotes, next, fuel);
            PreparedBlock::UnorderedList(l)
        },
        PreparedBlock::OrderedList(mut l) => {
            let mut items: Vec<ListItemBlock> = Vec::new();
            std::mem::swap(&mut items, &mut l.items);
            l.items = number_footnotes_in_items(items, footnotes, next, fuel);
            PreparedBlock::OrderedList(l)
        },
        PreparedBlock::DescriptionList(mut l) => {
            let mut items: Vec<DescriptionListItemBlock> = Vec::new();
            std::mem::swap(&mut items, &mut l.items);
            let ghost orig = items@;
            let mut out: Vec<DescriptionListItemBlock> = Vec::new();
            while items.len() > 0
                invariant
                    footnotes_numbered(footnotes@, *next),
                    footnotes@.len() >= old(footnotes)@.len(),
                    old(footnotes)@.len() + footnotes_in_ditems(orig, fuel as nat) == footnotes@.len()
                        + footnotes_in_ditems(items@, fuel as nat),
                decreases items.len(),
            {
                let ghost rem = items@;
                let item = items.remove(0);
                assert(items@ =~= rem.drop_first());
                let ghost f0 = footnotes@.len();
                let ghost terms0 = item.terms@;
                let mut terms = item.terms;
                let mut new_terms: Vec<DescriptionListTermBlock> = Vec::new();
                while terms.len() > 0
                    invariant
                        footnotes_numbered(footnotes@, *next),
                        footnotes@.len() >= old(footnotes)@.len(),
                        f0 + footnotes_in_terms(terms0, fuel as nat) == footnotes@.len() + footnotes_in_terms(
                            terms@,
                            fuel as nat,
                        ),
                    decreases terms.len(),
                {
                    let ghost trem = terms@;
                    let term = terms.remove(0);
                    assert(terms@ =~= trem.drop_first());
                    let inlines = number_footnotes_in_inlines(term.inlines, footnotes, next, fuel);
                    let text = prepared_inlines_plain_text(&inlines);
                    new_terms.push(DescriptionListTermBlock { text, inlines });
                }
                let description = match item.description {
                    Some(d) => Some(
                        ListItemBlock { blocks: number_footnotes_in_blocks(d.blocks, footnotes, next, fuel) },
                    ),
                    None => None,
                };
                out.push(DescriptionListItemBlock { terms: new_terms, description });
            }
            l.items = out;
            PreparedBlock::DescriptionList(l)
        },
        PreparedBlock::Table(mut t) => {
            let header = match t.header {
                Some(h) => Some(number_footnotes_in_row(h, footnotes, next, fuel)),
                None => None,
            };
            let mut rows: Vec<TableRow> = Vec::new();
            std::mem::swap(&mut rows, &mut t.rows);
            let ghost orig = rows@;
            let ghost f0 = footnotes@.len();
            let mut out: Vec<TableRow> = Vec::new();
            while rows.len() > 0
                invariant
                    footnotes_numbered(footnotes@, *next),
                    footnotes@.len() >= old(footnotes)@.len(),
                    f0 + footnotes_in_rows(orig, fuel as nat) == footnotes@.len() + footnotes_in_rows(
                        rows@,
                        fuel as nat,
                    ),
                decreases rows.len(),
            {
                let ghost rem = rows@;
                let row = rows.remove(0);
                assert(rows@ =~= rem.drop_first());
                out.push(number_footnotes_in_row(row, footnotes, next, fuel));
            }
            t.header = header;
            t.rows = out;
            PreparedBlock::Table(t)
        },
        PreparedBlock::Example(mut b) => {
            let bs = take_blocks(&mut b.blocks);
            b.blocks = number_footnotes_in_blocks(bs, footnotes, next, fuel);
            PreparedBlock::Example(b)
        },
        PreparedBlock::Sidebar(mut b) => {
            let bs = take_blocks(&mut b.blocks);
            b.blocks = number_footnotes_in_blocks(bs, footnotes, next, fuel);
            PreparedBlock::Sidebar(b)
        },
        PreparedBlock::Open(mut b) => {
            let bs = take_blocks(&mut b.blocks);
            b.blocks = number_footnotes_in_blocks(bs, footnotes, next, fuel);
            PreparedBlock::Open(b)
        },
        PreparedBlock::Quote(mut q) => {
            let bs = take_blocks(&mut q.blocks);
            q.blocks = number_footnotes_in_blocks(bs, footnotes, next, fuel);
            PreparedBlock::Quote(q)
        },
        PreparedBlock::Section(mut s) => {
            let bs = take_blocks(&mut s.blocks);
            s.blocks = number_footnotes_in_blocks(bs, footnotes, next, fuel);
            PreparedBlock::Section(s)
        },
        other => other,
    }
}

/// Numbers the footnotes in inlines; a footnote inside a footnote is numbered first.
pub fn number_footnotes_in_inlines(
    inlines: Vec<PreparedInline>,
    footnotes: &mut Vec<Footnote>,
    next: &mut u32,
    fuel: usize,
) -> (r: Vec<PreparedInline>)
    requires
        footnotes_numbered(old(footnotes)@, *old(next)),
    ensures
        footnotes_numbered(final(footnotes)@, *final(next)),
        final(footnotes)@.len() >= old(footnotes)@.len(),
        r@.len() == inlines@.len(),
        final(footnotes)@.len() == old(footnotes)@.len() + footnotes_in_inlines(inlines@, fuel as nat),
        forall|k: int| 0 <= k < inlines@.len() ==> same_inline_kind(inlines@[k], #[trigger] r@[k]),
    decreases fuel, 2usize,
{
    if fuel == 0 {
        return inlines;
    }
    let ghost orig = inlines@;
    let mut inlines = inlines;
    let n = inlines.len();
    let mut out: Vec<PreparedInline> = Vec::new();
    while inlines.len() > 0
        invariant
            fuel > 0,
            footnotes_numbered(footnotes@, *next),
            footnotes@.len() >= old(footnotes)@.len(),
            out@.len() + inlines@.len() == n,
            n == orig.len(),
            inlines@ == orig.subrange(out@.len() as int, n as int),
            old(footnotes)@.len() + footnotes_in_inline_seq(orig, (fuel - 1) as nat) == footnotes@.len()
                + footnotes_in_inline_seq(inlines@, (fuel - 1) as nat),
            forall|k: int| 0 <= k < out@.len() ==> same_inline_kind(orig[k], #[trigger] out@[k]),
        decreases inlines.len(),
    {
        let ghost rem = inlines@;
        let i = inlines.remove(0);
        assert(inlines@ =~= rem.drop_first());
        assert(orig.subrange(out@.len() as int + 1, n as int) =~= rem.drop_first());
        out.push(number_footnotes_in_inline(i, footnotes, next, fuel - 1));
    }
    out
}

fn number_footnotes_in_inline(inline: PreparedInline, footnotes: &mut Vec<Footnote>, next: &mut u32, fuel: usize) -> (r:
    PreparedInline)
    requires
        footnotes_numbered(old(footnotes)@, *old(next)),
    ensures
        footnotes_numbered(final(footnotes)@, *final(next)),
        final(footnotes)@.len() >= old(footnotes)@.len(),
        final(footnotes)@.len() == old(footnotes)@.len() + footnotes_in_inline(inline, fuel as nat),
        same_inline_kind(inline, r),
        r matches PreparedInline::Footnote(x) ==> x.index == Some(
            capped((old(footnotes)@.len() + footnotes_in_inline(inline, fuel as nat)) as int),
        ),
    decreases fuel, 4usize,
{
    match inline {
        PreparedInline::Span(mut s) => {
            let inl = take_inlines(&mut s.inlines);
            s.inlines = number_footnotes_in_inlines(inl, footnotes, next, fuel);
            PreparedInline::Span(s)
        },
        PreparedInline::Link(mut l) => {
            let inl = take_inlines(&mut l.inlines);
            l.inlines = number_footnotes_in_inlines(inl, footnotes, next, fuel);
            PreparedInline::Link(l)
        },
        PreparedInline::Xref(mut x) => {
            let inl = take_inlines(&mut x.inlines);
            x.inlines = number_footnotes_in_inlines(inl, footnotes, next, fuel);
            PreparedInline::Xref(x)
        },
        PreparedInline::Anchor(mut a) => {
            let inl = take_inlines(&mut a.inlines);
            a.inlines = number_footnotes_in_inlines(inl, footnotes, next, fuel);
            PreparedInline::Anchor(a)
        },
        PreparedInline::Footnote(mut f) => {
            let inl = take_inlines(&mut f.inlines);
            f.inlines = number_footnotes_in_inlines(inl, footnotes, next, fuel);
            let index = *next;
            *next = if index < u32::MAX {
                index + 1
            } else {
                index
            };
            f.index = Some(index);
            let text = prepared_inlines_plain_text(&f.inlines);
            let ghost before = footnotes@;
            footnotes.push(Footnote { text: Some(text), index: Some(index), inlines: copy_prepared_inlines(&f.inlines) });
            assert forall|k: int| 0 <= k < footnotes@.len() implies (#[trigger] footnotes@[k]).index == Some(
                capped(k + 1),
            ) by {
                if k < before.len() {
                    assert(footnotes@[k] == before[k]);
                }
            }
            PreparedInline::Footnote(f)
        },
        other => other,
    }
}

// ---------------------------------------------------------------------------
// Cross-reference targets

/// Every target recorded in `a` is still recorded in `b`, with the same id and title:
/// the first entry for a key stays.
pub open spec fn refs_kept(a: RefTable, b: RefTable) -> bool {
    forall|k: Seq<char>|
        #[trigger] a.ids@.contains_key(k) ==> b.ids@.contains_key(k) && b.ids@[k] == a.ids@[k]
            && b.titles@.contains_key(k) == a.titles@.contains_key(k) && (a.titles@.contains_key(k)
            ==> b.titles@[k] == a.titles@[k])
}

/// The id under which a prepared block is recorded as a cross-reference target.
pub open spec fn block_ref_id(b: PreparedBlock) -> Option<Seq<char>> {
    match b {
        PreparedBlock::Paragraph(p) => opt_view(p.id),
        PreparedBlock::Admonition(a) => opt_view(a.id),
        PreparedBlock::UnorderedList(l) => opt_view(l.id),
        PreparedBlock::OrderedList(l) => opt_view(l.id),
        PreparedBlock::DescriptionList(l) => opt_view(l.id),
        PreparedBlock::Listing(l) => opt_view(l.id),
        PreparedBlock::Literal(l) => opt_view(l.id),
        PreparedBlock::Table(t) => opt_view(t.id),
        PreparedBlock::Example(b) => opt_view(b.id),
        PreparedBlock::Sidebar(b) => opt_view(b.id),
        PreparedBlock::Open(b) => opt_view(b.id),
        PreparedBlock::Quote(q) => opt_view(q.id),
        PreparedBlock::Section(s) => Some(s.id@),
        PreparedBlock::Image(i) => opt_view(i.id),
        _ => None,
    }
}

/// Records the keys under which a section can be referenced: its id and title,
/// their slugs, and the forms without leading underscores.
pub fn collect_section_refs_into(blocks: &Vec<PreparedBlock>, refs: &mut RefTable)
    ensures
        refs_kept(*old(refs), *final(refs)),
        forall|k: int|
            0 <= k < blocks@.len() && #[trigger] blocks@[k] is Section ==> final(refs).ids@.contains_key(
                ref_key_spec(blocks@[k]->Section_0.id@),
            ) && final(refs).ids@.contains_key(ref_key_spec(blocks@[k]->Section_0.title@)),
    decreases blocks,
{
    let mut i: usize = 0;
    while i < blocks.len()
        invariant
            i <= blocks@.len(),
            refs_kept(*old(refs), *refs),
            forall|k: int|
                0 <= k < i && #[trigger] blocks@[k] is Section ==> refs.ids@.contains_key(
                    ref_key_spec(blocks@[k]->Section_0.id@),
                ) && refs.ids@.contains_key(ref_key_spec(blocks@[k]->Section_0.title@)),
        decreases blocks.len() - i,
    {
        collect_section_ref(&blocks[i], refs);
        i += 1;
    }
}

fn collect_section_ref(block: &PreparedBlock, refs: &mut RefTable)
    ensures
        refs_kept(*old(refs), *final(refs)),
        block matches PreparedBlock::Section(s) ==> final(refs).ids@.contains_key(ref_key_spec(s.id@))
            && final(refs).ids@.contains_key(ref_key_spec(s.title@)),
    decreases block,
{
    match block {
        PreparedBlock::Section(section) => {
            let title: Option<String> = match &section.reftext {
                Some(r) => Some(r.clone()),
                None => Some(section.title.clone()),
            };
            let id = string_chars(&section.id);
            let t = string_chars(&section.title);
            let slug = slugify(&t);
            refs.add(&normalize_section_ref_key(&id), &section.id, &title);
            refs.add(&normalize_section_ref_key(&trim_start_underscores(&id)), &section.id, &title);
            refs.add(&normalize_section_ref_key(&t), &section.id, &title);
            refs.add(&normalize_section_ref_key(&slug), &section.id, &title);
            refs.add(&normalize_section_ref_key(&trim_start_underscores(&slug)), &section.id, &title);
            collect_section_refs_into(&section.blocks, refs);
        },
        _ => {},
    }
}

/// Records a block with an id under the key of its id; its title is its reftext, else its title.
fn add_block_ref(refs: &mut RefTable, id: &Option<String>, reftext: &Option<String>, title: &Option<String>)
    ensures
        refs_kept(*old(refs), *final(refs)),
        id matches Some(x) ==> final(refs).ids@.contains_key(ref_key_spec(x@)),
{
    match id {
        Some(id) => {
            let key = normalize_section_ref_key(&string_chars(id));
            let t = match reftext {
                Some(r) => Some(r.clone()),
                None => copy_opt(title),
            };
            refs.add(&key, id, &t);
        },
        None => {},
    }
}

/// Records every block and inline anchor with an id.
/// Each block of `bs` that names a target is recorded in `refs`.
pub open spec fn blocks_recorded(bs: Seq<PreparedBlock>, refs: RefTable) -> bool {
    forall|k: int|
        0 <= k < bs.len() && (#[trigger] block_ref_id(bs[k])) is Some ==> refs.ids@.contains_key(
            ref_key_spec(block_ref_id(bs[k])->0),
        )
}

/// Keeping entries is transitive.
proof fn lemma_kept_trans(a: RefTable, b: RefTable, c: RefTable)
    requires
        refs_kept(a, b),
        refs_kept(b, c),
    ensures
        refs_kept(a, c),
{
    assert forall|k: Seq<char>| #[trigger] a.ids@.contains_key(k) implies c.ids@.contains_key(k) && c.ids@[k]
        == a.ids@[k] && c.titles@.contains_key(k) == a.titles@.contains_key(k) && (a.titles@.contains_key(k)
        ==> c.titles@[k] == a.titles@[k]) by {
        assert(b.ids@.contains_key(k));
    }
}

/// What was recorded stays recorded as the table grows.
proof fn lemma_recorded_kept(bs: Seq<PreparedBlock>, a: RefTable, b: RefTable)
    requires
        blocks_recorded(bs, a),
        refs_kept(a, b),
    ensures
        blocks_recorded(bs, b),
{
    assert forall|k: int|
        0 <= k < bs.len() && (#[trigger] block_ref_id(bs[k])) is Some implies b.ids@.contains_key(
            ref_key_spec(block_ref_id(bs[k])->0),
        ) by {
        assert(a.ids@.contains_key(ref_key_spec(block_ref_id(bs[k])->0)));
    }
}

/// Every section of `bs`, and those nested in it down to `depth` more levels, is
/// recorded in `refs` under the key of its id.
pub open spec fn sections_recorded(bs: Seq<PreparedBlock>, refs: RefTable, depth: nat) -> bool
    decreases depth,
{
    forall|k: int|
        0 <= k < bs.len() ==> (#[trigger] bs[k] matches PreparedBlock::Section(s) ==> refs.ids@.contains_key(
            ref_key_spec(s.id@),
        ) && (depth > 0 ==> sections_recorded(s.blocks@, refs, (depth - 1) as nat)))
}

/// A section's nested sections are recorded at every depth.
pub open spec fn section_children_recorded(b: PreparedBlock, refs: RefTable) -> bool {
    b matches PreparedBlock::Section(s) ==> forall|depth: nat| #[trigger] sections_recorded(s.blocks@, refs, depth)
}

proof fn lemma_sections_kept(bs: Seq<PreparedBlock>, a: RefTable, b: RefTable, depth: nat)
    requires
        sections_recorded(bs, a, depth),
        refs_kept(a, b),
    ensures
        sections_recorded(bs, b, depth),
    decreases depth,
{
    assert forall|k: int| 0 <= k < bs.len() implies (#[trigger] bs[k] matches PreparedBlock::Section(s)
        ==> b.ids@.contains_key(ref_key_spec(s.id@)) && (depth > 0 ==> sections_recorded(
        s.blocks@,
        b,
        (depth - 1) as nat,
    ))) by {
        if let PreparedBlock::Section(s) = bs[k] {
            assert(a.ids@.contains_key(ref_key_spec(s.id@)));
            if depth > 0 {
                lemma_sections_kept(s.blocks@, a, b, (depth - 1) as nat);
            }
        }
    }
}

pub fn collect_block_refs_into(blocks: &Vec<PreparedBlock>, refs: &mut RefTable)
    ensures
        refs_kept(*old(refs), *final(refs)),
        blocks_recorded(blocks@, *final(refs)),
        forall|k: int|
            0 <= k < blocks@.len() && (#[trigger] block_ref_id(blocks@[k])) is Some ==> final(refs).ids@.contains_key(
                ref_key_spec(block_ref_id(blocks@[k])->0),
            ),
        forall|depth: nat| #[trigger] sections_recorded(blocks@, *final(refs), depth),
    decreases blocks,
{
    let mut i: usize = 0;
    while i < blocks.len()
        invariant
            i <= blocks@.len(),
            refs_kept(*old(refs), *refs),
            forall|k: int|
                0 <= k < i && (#[trigger] block_ref_id(blocks@[k])) is Some ==> refs.ids@.contains_key(
                    ref_key_spec(block_ref_id(blocks@[k])->0),
                ),
            forall|k: int| 0 <= k < i ==> section_children_recorded(#[trigger] blocks@[k], *refs),
        decreases blocks.len() - i,
    {
        let ghost before = *refs;
        collect_block_ref(&blocks[i], refs);
        proof {
            assert forall|k: int| 0 <= k < i + 1 implies section_children_recorded(#[trigger] blocks@[k], *refs) by {
                if k < i {
                    if let PreparedBlock::Section(s) = blocks@[k] {
                        assert forall|depth: nat| #[trigger] sections_recorded(s.blocks@, *refs, depth) by {
                            assert(sections_recorded(s.blocks@, before, depth));
                            lemma_sections_kept(s.blocks@, before, *refs, depth);
                        }
                    }
                }
            }
        }
        i += 1;
    }
    proof {
        assert forall|depth: nat| #[trigger] sections_recorded(blocks@, *refs, depth) by {
            assert forall|k: int| 0 <= k < blocks@.len() implies (#[trigger] blocks@[k] matches PreparedBlock::Section(s)
                ==> refs.ids@.contains_key(ref_key_spec(s.id@)) && (depth > 0 ==> sections_recorded(
                s.blocks@,
                *refs,
                (depth - 1) as nat,
            ))) by {
                if let PreparedBlock::Section(s) = blocks@[k] {
                    assert(block_ref_id(blocks@[k]) == Some(s.id@));
                    assert(section_children_recorded(blocks@[k], *refs));
                    if depth > 0 {
                        assert(sections_recorded(s.blocks@, *refs, (depth - 1) as nat));
                    }
                }
            }
        }
    }
}

fn collect_items_refs(items: &Vec<ListItemBlock>, refs: &mut RefTable)
    ensures
        refs_kept(*old(refs), *final(refs)),
        forall|j: int| 0 <= j < items@.len() ==> blocks_recorded(#[trigger] items@[j].blocks@, *final(refs)),
    decreases items,
{
    let mut i: usize = 0;
    while i < items.len()
        invariant
            i <= items@.len(),
            refs_kept(*old(refs), *refs),
            forall|j: int| 0 <= j < i ==> blocks_recorded(#[trigger] items@[j].blocks@, *refs),
        decreases items.len() - i,
    {
        let ghost before = *refs;
        collect_block_refs_into(&items[i].blocks, refs);
        proof {
            assert forall|j: int| 0 <= j < i + 1 implies blocks_recorded(#[trigger] items@[j].blocks@, *refs) by {
                if j < i {
                    lemma_recorded_kept(items@[j].blocks@, before, *refs);
                }
            }
        }
        i += 1;
    }
}

fn collect_description_items_refs(items: &Vec<DescriptionListItemBlock>, refs: &mut RefTable)
    ensures
        refs_kept(*old(refs), *final(refs)),
        forall|j: int|
            0 <= j < items@.len() ==> (#[trigger] items@[j].description matches Some(d) ==> blocks_recorded(
                d.blocks@,
                *final(refs),
            )),
    decreases items,
{
    let mut i: usize = 0;
    while i < items.len()
        invariant
            i <= items@.len(),
            refs_kept(*old(refs), *refs),
            forall|j: int|
                0 <= j < i ==> (#[trigger] items@[j].description matches Some(d) ==> blocks_recorded(d.blocks@, *refs)),
        decreases items.len() - i,
    {
        let ghost start = *refs;
        let item = &items[i];
        let mut k: usize = 0;
        while k < item.terms.len()
            invariant
                k <= item.terms@.len(),
                refs_kept(*old(refs), *refs),
                refs_kept(start, *refs),
            decreases item.terms.len() - k,
        {
            let ghost before = *refs;
            collect_inline_anchor_refs(&item.terms[k].inlines, refs);
            proof {
                lemma_kept_trans(start, before, *refs);
            }
            k += 1;
        }
        let ghost mid = *refs;
        match &item.description {
            Some(d) => {
                proof {
                    assert(decreases_to!(items => items@[i as int]));
                    assert(decreases_to!(items@[i as int] => items@[i as int].description));
                    assert(decreases_to!(items@[i as int].description => d));
                }
                collect_block_refs_into(&d.blocks, refs);
            },
            None => {},
        }
        proof {
            assert forall|j: int|
                0 <= j < i + 1 implies (#[trigger] items@[j].description matches Some(d) ==> blocks_recorded(
                d.blocks@,
                *refs,
            )) by {
                if j < i {
                    lemma_kept_trans(start, mid, *refs);
                    if let Some(d) = items@[j].description {
                        lemma_recorded_kept(d.blocks@, start, *refs);
                    }
                }
            }
        }
        i += 1;
    }
}

/// The blocks of each cell of a row are recorded.
pub open spec fn row_recorded(row: TableRow, refs: RefTable) -> bool {
    forall|j: int| 0 <= j < row.cells@.len() ==> blocks_recorded(#[trigger] row.cells@[j].blocks@, refs)
}

fn collect_row_refs(row: &TableRow, refs: &mut RefTable)
    ensures
        refs_kept(*old(refs), *final(refs)),
        row_recorded(*row, *final(refs)),
    decreases row,
{
    let mut i: usize = 0;
    while i < row.cells.len()
        invariant
            i <= row.cells@.len(),
            refs_kept(*old(refs), *refs),
            forall|j: int| 0 <= j < i ==> blocks_recorded(#[trigger] row.cells@[j].blocks@, *refs),
        decreases row.cells.len() - i,
    {
        let ghost before = *refs;
        collect_block_refs_into(&row.cells[i].blocks, refs);
        proof {
            assert forall|j: int| 0 <= j < i + 1 implies blocks_recorded(#[trigger] row.cells@[j].blocks@, *refs) by {
                if j < i {
                    lemma_recorded_kept(row.cells@[j].blocks@, before, *refs);
                }
            }
        }
        i += 1;
    }
}

/// What was recorded of a row stays recorded as the table grows.
proof fn lemma_row_recorded_kept(row: TableRow, a: RefTable, b: RefTable)
    requires
        row_recorded(row, a),
        refs_kept(a, b),
    ensures
        row_recorded(row, b),
{
    assert forall|j: int| 0 <= j < row.cells@.len() implies blocks_recorded(#[trigger] row.cells@[j].blocks@, b) by {
        lemma_recorded_kept(row.cells@[j].blocks@, a, b);
    }
}

fn collect_rows_refs(rows: &Vec<TableRow>, refs: &mut RefTable)
    ensures
        refs_kept(*old(refs), *final(refs)),
        forall|j: int| 0 <= j < rows@.len() ==> row_recorded(#[trigger] rows@[j], *final(refs)),
    decreases rows,
{
    let mut i: usize = 0;
    while i < rows.len()
        invariant
            i <= rows@.len(),
            refs_kept(*old(refs), *refs),
            forall|j: int| 0 <= j < i ==> row_recorded(#[trigger] rows@[j], *refs),
        decreases rows.len() - i,
    {
        let ghost before = *refs;
        collect_row_refs(&rows[i], refs);
        proof {
            assert forall|j: int| 0 <= j < i + 1 implies row_recorded(#[trigger] rows@[j], *refs) by {
                if j < i {
                    lemma_row_recorded_kept(rows@[j], before, *refs);
                }
            }
        }
        i += 1;
    }
}

fn collect_block_ref(block: &PreparedBlock, refs: &mut RefTable)
    ensures
        refs_kept(*old(refs), *final(refs)),
        block_ref_id(*block) matches Some(x) ==> final(refs).ids@.contains_key(ref_key_spec(x)),
        section_children_recorded(*block, *final(refs)),
    decreases block,
{
    match block {
        PreparedBlock::Preamble(p) => collect_block_refs_into(&p.blocks, refs),
        PreparedBlock::Paragraph(p) => {
            add_block_ref(refs, &p.id, &p.reftext, &p.title);
            collect_inline_anchor_refs(&p.inlines, refs);
        },
        PreparedBlock::Admonition(a) => {
            add_block_ref(refs, &a.id, &a.reftext, &a.title);
            collect_block_refs_into(&a.blocks, refs);
        },
        PreparedBlock::UnorderedList(l) => {
            add_block_ref(refs, &l.id, &l.reftext, &l.title);
            collect_items_refs(&l.items, refs);
        },
        PreparedBlock::OrderedList(l) => {
            add_block_ref(refs, &l.id, &l.reftext, &l.title);
            collect_items_refs(&l.items, refs);
        },
        PreparedBlock::DescriptionList(l) => {
            add_block_ref(refs, &l.id, &l.reftext, &l.title);
            collect_description_items_refs(&l.items, refs);
        },
        PreparedBlock::Listing(l) => add_block_ref(refs, &l.id, &l.reftext, &l.title),
        PreparedBlock::Literal(l) => add_block_ref(refs, &l.id, &l.reftext, &l.title),
        PreparedBlock::Table(t) => {
            add_block_ref(refs, &t.id, &t.reftext, &t.title);
            match &t.header {
                Some(h) => collect_row_refs(h, refs),
                None => {},
            }
            collect_rows_refs(&t.rows, refs);
        },
        PreparedBlock::Example(b) => {
            add_block_ref(refs, &b.id, &b.reftext, &b.title);
            collect_block_refs_into(&b.blocks, refs);
        },
        PreparedBlock::Sidebar(b) => {
            add_block_ref(refs, &b.id, &b.reftext, &b.title);
            collect_block_refs_into(&b.blocks, refs);
        },
        PreparedBlock::Open(b) => {
            add_block_ref(refs, &b.id, &b.reftext, &b.title);
            collect_block_refs_into(&b.blocks, refs);
        },
        PreparedBlock::Quote(q) => {
            add_block_ref(refs, &q.id, &q.reftext, &q.title);
            collect_block_refs_into(&q.blocks, refs);
        },
        PreparedBlock::Section(s) => {
            let id = Some(s.id.clone());
            let title = Some(s.title.clone());
            add_block_ref(refs, &id, &s.reftext, &title);
            collect_block_refs_into(&s.blocks, refs);
        },
        PreparedBlock::Image(img) => add_block_ref(refs, &img.id, &img.reftext, &img.title),
        _ => {},
    }
}

/// Records inline anchors; an anchor's title is its reftext, else its text when not empty.
pub fn collect_inline_anchor_refs(inlines: &Vec<PreparedInline>, refs: &mut RefTable)
    ensures
        refs_kept(*old(refs), *final(refs)),
        forall|k: int|
            0 <= k < inlines@.len() && #[trigger] inlines@[k] is Anchor ==> final(refs).ids@.contains_key(
                ref_key_spec(inlines@[k]->Anchor_0.id@),
            ),
    decreases inlines,
{
    let mut i: usize = 0;
    while i < inlines.len()
        invariant
            i <= inlines@.len(),
            refs_kept(*old(refs), *refs),
            forall|k: int|
                0 <= k < i && #[trigger] inlines@[k] is Anchor ==> refs.ids@.contains_key(
                    ref_key_spec(inlines@[k]->Anchor_0.id@),
                ),
        decreases inlines.len() - i,
    {
        collect_inline_anchor_ref(&inlines[i], refs);
        i += 1;
    }
}

fn collect_inline_anchor_ref(inline: &PreparedInline, refs: &mut RefTable)
    ensures
        refs_kept(*old(refs), *final(refs)),
        inline matches PreparedInline::Anchor(a) ==> final(refs).ids@.contains_key(ref_key_spec(a.id@)),
    decreases inline,
{
    match inline {
        PreparedInline::Anchor(a) => {
            let text = prepared_inlines_plain_text(&a.inlines);
            let title = match &a.reftext {
                Some(r) => Some(r.clone()),
                None => if string_chars(&text).len() > 0 {
                    Some(text)
                } else {
                    None
                },
            };
            let key = normalize_section_ref_key(&string_chars(&a.id));
            refs.add(&key, &a.id, &title);
            collect_inline_anchor_refs(&a.inlines, refs);
        },
        PreparedInline::Span(s) => collect_inline_anchor_refs(&s.inlines, refs),
        PreparedInline::Link(l) => collect_inline_anchor_refs(&l.inlines, refs),
        PreparedInline::Xref(x) => collect_inline_anchor_refs(&x.inlines, refs),
        PreparedInline::Footnote(f) => collect_inline_anchor_refs(&f.inlines, refs),
        _ => {},
    }
}

// ---------------------------------------------------------------------------
// Resolving cross references

/// `#id`.
fn hash_href(id: &String) -> (r: String)
    ensures
        r@ == seq!['#'] + id@,
{
    let mut v: Vec<char> = Vec::new();
    v.push('#');
    append(&mut v, &string_chars(id));
    to_string(&v)
}

/// Whether the inlines are exactly one text inline equal to `target`.
fn is_single_text(inlines: &Vec<PreparedInline>, target: &String) -> (r: bool)
    ensures
        r == (inlines@.len() == 1 && (inlines@[0] matches PreparedInline::Text(t) && t.value@ == target@)),
{
    if inlines.len() != 1 {
        return false;
    }
    match &inlines[0] {
        PreparedInline::Text(t) => chars_eq(&string_chars(&t.value), &string_chars(target)),
        _ => false,
    }
}

fn single_text(value: String) -> (r: Vec<PreparedInline>)
    ensures
        r@.len() == 1,
        r@[0] matches PreparedInline::Text(t) && t.value == value,
{
    let mut v: Vec<PreparedInline> = Vec::new();
    v.push(PreparedInline::Text(TextInline { value }));
    v
}

/// Points an xref at a section (first) or a block with that key; text equal to the
/// target is replaced by the target's title. Unresolved targets use `xref_href`.
/// The table that resolves a target: the section table first, then the block table;
/// none for `.adoc` targets or unknown keys.
pub open spec fn resolving_table(target: Seq<char>, section_refs: RefTable, block_refs: RefTable) -> Option<RefTable> {
    let key = ref_key_spec(target);
    if exists|k: int| starts_at(target, k, ".adoc"@) {
        None
    } else if section_refs.ids@.contains_key(key) {
        Some(section_refs)
    } else if block_refs.ids@.contains_key(key) {
        Some(block_refs)
    } else {
        None
    }
}

/// Points an xref at a section (first) or a block with that key; text equal to the
/// target is replaced by the target's title. Unresolved targets use `xref_href`.
pub fn resolve_xref(xref: XrefInline, section_refs: &RefTable, block_refs: &RefTable) -> (r: XrefInline)
    ensures
        r.target == xref.target,
        r.href@ == resolved_href(xref.target@, *section_refs, *block_refs),
        r.shorthand == xref.shorthand,
        ({
            let key = ref_key_spec(xref.target@);
            match resolving_table(xref.target@, *section_refs, *block_refs) {
                Some(table) => {
                    &&& r.href@ == seq!['#'] + table.ids@[key]
                    &&& if xref.inlines@.len() == 1 && (xref.inlines@[0] matches PreparedInline::Text(t)
                        && t.value@ == xref.target@) && table.titles@.contains_key(key) {
                        r.inlines@.len() == 1 && (r.inlines@[0] matches PreparedInline::Text(t) && t.value@
                            == table.titles@[key])
                    } else {
                        r.inlines == xref.inlines
                    }
                },
                None => {
                    &&& r.href@ == if starts_at(xref.target@, 0, "#"@) || exists|k: int|
                        starts_at(xref.target@, k, ".adoc"@) {
                        xref.target@
                    } else {
                        seq!['#'] + xref.target@
                    }
                    &&& r.inlines == xref.inlines
                },
            }
        }),
{
    let mut xref = xref;
    let target = string_chars(&xref.target);
    match section_refs.lookup(&target) {
        Some((id, title)) => {
            xref.href = hash_href(&id);
            if is_single_text(&xref.inlines, &xref.target) {
                match title {
                    Some(t) => xref.inlines = single_text(t),
                    None => {},
                }
            }
        },
        None => match block_refs.lookup(&target) {
            Some((id, title)) => {
                xref.href = hash_href(&id);
                if is_single_text(&xref.inlines, &xref.target) {
                    match title {
                        Some(t) => xref.inlines = single_text(t),
                        None => {},
                    }
                }
            },
            None => {
                xref.href = to_string(&xref_href(&target));
            },
        },
    }
    xref
}

/// Where a cross reference to `target` points: the id recorded for it (sections
/// first), else the target itself when it names a document or an anchor, else
/// `#` and the target.
pub open spec fn resolved_href(target: Seq<char>, section_refs: RefTable, block_refs: RefTable) -> Seq<char> {
    match resolving_table(target, section_refs, block_refs) {
        Some(table) => seq!['#'] + table.ids@[ref_key_spec(target)],
        None => if starts_at(target, 0, "#"@) || exists|k: int| starts_at(target, k, ".adoc"@) {
            target
        } else {
            seq!['#'] + target
        },
    }
}

/// Every cross reference reached in `bs` with fuel `f` points where its target
/// resolves.
pub open spec fn xrefs_resolved_blocks(bs: Seq<PreparedBlock>, sec: RefTable, blk: RefTable, f: nat) -> bool
    decreases f, 1int,
{
    f == 0 || forall|k: int| 0 <= k < bs.len() ==> xrefs_resolved_block(#[trigger] bs[k], sec, blk, (f - 1) as nat)
}

/// Every cross reference reached in `is` with fuel `f` points where its target
/// resolves.
pub open spec fn xrefs_resolved_inlines(is: Seq<PreparedInline>, sec: RefTable, blk: RefTable, f: nat) -> bool
    decreases f, 1int,
{
    f == 0 || forall|k: int| 0 <= k < is.len() ==> xrefs_resolved_inline(#[trigger] is[k], sec, blk, (f - 1) as nat)
}

/// A cross reference points where its target resolves, and so do those inside
/// spans, anchors, footnotes and cross references.
pub open spec fn xrefs_resolved_inline(i: PreparedInline, sec: RefTable, blk: RefTable, f: nat) -> bool
    decreases f, 5int,
{
    match i {
        PreparedInline::Xref(x) => x.href@ == resolved_href(x.target@, sec, blk) && xrefs_resolved_inlines(
            x.inlines@,
            sec,
            blk,
            f,
        ),
        PreparedInline::Anchor(x) => xrefs_resolved_inlines(x.inlines@, sec, blk, f),
        PreparedInline::Span(x) => xrefs_resolved_inlines(x.inlines@, sec, blk, f),
        PreparedInline::Footnote(x) => xrefs_resolved_inlines(x.inlines@, sec, blk, f),
        _ => true,
    }
}

/// The cross references in a row's cell blocks are resolved.
pub open spec fn xrefs_resolved_row(row: TableRow, sec: RefTable, blk: RefTable, f: nat) -> bool
    decreases f, 3int,
{
    forall|k: int| 0 <= k < row.cells@.len() ==> xrefs_resolved_blocks(#[trigger] row.cells@[k].blocks@, sec, blk, f)
}

/// The cross references in a block's content are resolved.
pub open spec fn xrefs_resolved_block(b: PreparedBlock, sec: RefTable, blk: RefTable, f: nat) -> bool
    decreases f, 5int,
{
    match b {
        PreparedBlock::Preamble(x) => xrefs_resolved_blocks(x.blocks@, sec, blk, f),
        PreparedBlock::Paragraph(x) => xrefs_resolved_inlines(x.inlines@, sec, blk, f),
        PreparedBlock::Admonition(x) => xrefs_resolved_blocks(x.blocks@, sec, blk, f),
        PreparedBlock::UnorderedList(x) => forall|k: int|
            0 <= k < x.items@.len() ==> xrefs_resolved_blocks(#[trigger] x.items@[k].blocks@, sec, blk, f),
        PreparedBlock::OrderedList(x) => forall|k: int|
            0 <= k < x.items@.len() ==> xrefs_resolved_blocks(#[trigger] x.items@[k].blocks@, sec, blk, f),
        PreparedBlock::DescriptionList(x) => forall|k: int|
            0 <= k < x.items@.len() ==> (forall|j: int|
                0 <= j < x.items@[k].terms@.len() ==> xrefs_resolved_inlines(
                    #[trigger] x.items@[k].terms@[j].inlines@,
                    sec,
                    blk,
                    f,
                )) && (#[trigger] x.items@[k].description matches Some(d) ==> xrefs_resolved_blocks(
                d.blocks@,
                sec,
                blk,
                f,
            )),
        PreparedBlock::Table(x) => (x.header matches Some(h) ==> xrefs_resolved_row(h, sec, blk, f)) && forall|
            k: int,
        | 0 <= k < x.rows@.len() ==> xrefs_resolved_row(#[trigger] x.rows@[k], sec, blk, f),
        PreparedBlock::Example(x) => xrefs_resolved_blocks(x.blocks@, sec, blk, f),
        PreparedBlock::Sidebar(x) => xrefs_resolved_blocks(x.blocks@, sec, blk, f),
        PreparedBlock::Open(x) => xrefs_resolved_blocks(x.blocks@, sec, blk, f),
        PreparedBlock::Quote(x) => xrefs_resolved_blocks(x.blocks@, sec, blk, f),
        PreparedBlock::Section(x) => xrefs_resolved_blocks(x.blocks@, sec, blk, f),
        _ => true,
    }
}

pub fn resolve_xrefs_in_blocks(blocks: Vec<PreparedBlock>, section_refs: &RefTable, block_refs: &RefTable, fuel: usize) -> (r:
    Vec<PreparedBlock>)
    ensures
        r@.len() == blocks@.len(),
        xrefs_resolved_blocks(r@, *section_refs, *block_refs, fuel as nat),
        forall|k: int| 0 <= k < blocks@.len() ==> same_section_head(blocks@[k], #[trigger] r@[k]),
    decreases fuel, 2usize,
{
    if fuel == 0 {
        return blocks;
    }
    let mut blocks = blocks;
    let ghost orig = blocks@;
    let n = blocks.len();
    let mut out: Vec<PreparedBlock> = Vec::new();
    while blocks.len() > 0
        invariant
            fuel > 0,
            out@.len() + blocks@.len() == n,
            n == orig.len(),
            blocks@ == orig.subrange(out@.len() as int, n as int),
            forall|k: int|
                0 <= k < out@.len() ==> xrefs_resolved_block(#[trigger] out@[k], *section_refs, *block_refs, (fuel - 1) as nat),
            forall|k: int| 0 <= k < out@.len() ==> same_section_head(orig[k], #[trigger] out@[k]),
        decreases blocks.len(),
    {
        let ghost before = blocks@;
        let b = blocks.remove(0);
        assert(b == orig[out@.len() as int]);
        assert(blocks@ =~= orig.subrange(out@.len() as int + 1, n as int));
        out.push(resolve_xrefs_in_block(b, section_refs, block_refs, fuel - 1));
    }
    out
}

/// A section stays a section with the same id and title.
pub open spec fn same_section_head(a: PreparedBlock, b: PreparedBlock) -> bool {
    &&& (a is Section <==> b is Section)
    &&& a matches PreparedBlock::Section(s0) ==> (b matches PreparedBlock::Section(s1) && s1.id == s0.id && s1.title
        == s0.title)
}

/// Whether two prepared blocks are of the same kind.
pub open spec fn same_block_kind(a: PreparedBlock, b: PreparedBlock) -> bool {
    match a {
        PreparedBlock::Preamble(_) => b is Preamble,
        PreparedBlock::Paragraph(_) => b is Paragraph,
        PreparedBlock::Admonition(_) => b is Admonition,
        PreparedBlock::Section(_) => b is Section,
        PreparedBlock::UnorderedList(_) => b is UnorderedList,
        PreparedBlock::OrderedList(_) => b is OrderedList,
        PreparedBlock::DescriptionList(_) => b is DescriptionList,
        PreparedBlock::Table(_) => b is Table,
        PreparedBlock::Listing(_) => b is Listing,
        PreparedBlock::Literal(_) => b is Literal,
        PreparedBlock::CalloutList(_) => b is CalloutList,
        PreparedBlock::Example(_) => b is Example,
        PreparedBlock::Sidebar(_) => b is Sidebar,
        PreparedBlock::Open(_) => b is Open,
        PreparedBlock::Quote(_) => b is Quote,
        PreparedBlock::Passthrough(_) => b is Passthrough,
        PreparedBlock::Image(_) => b is Image,
        PreparedBlock::Toc(_) => b is Toc,
    }
}

/// Whether two prepared inlines are of the same kind.
pub open spec fn same_inline_kind(a: PreparedInline, b: PreparedInline) -> bool {
    match a {
        PreparedInline::Text(_) => b is Text,
        PreparedInline::Span(_) => b is Span,
        PreparedInline::Link(_) => b is Link,
        PreparedInline::Xref(_) => b is Xref,
        PreparedInline::Anchor(_) => b is Anchor,
        PreparedInline::Passthrough(_) => b is Passthrough,
        PreparedInline::Image(_) => b is Image,
        PreparedInline::Icon(_) => b is Icon,
        PreparedInline::Footnote(_) => b is Footnote,
    }
}

fn resolve_xrefs_in_items(items: Vec<ListItemBlock>, section_refs: &RefTable, block_refs: &RefTable, fuel: usize) -> (r:
    Vec<ListItemBlock>)
    ensures
        r@.len() == items@.len(),
        forall|k: int|
            0 <= k < r@.len() ==> xrefs_resolved_blocks(#[trigger] r@[k].blocks@, *section_refs, *block_refs, fuel as nat),
    decreases fuel, 3usize,
{
    let mut items = items;
    let n = items.len();
    let mut out: Vec<ListItemBlock> = Vec::new();
    while items.len() > 0
        invariant
            out@.len() + items@.len() == n,
            forall|k: int|
                0 <= k < out@.len() ==> xrefs_resolved_blocks(#[trigger] out@[k].blocks@, *section_refs, *block_refs, fuel as nat),
        decreases items.len(),
    {
        let item = items.remove(0);
        out.push(ListItemBlock { blocks: resolve_xrefs_in_blocks(item.blocks, section_refs, block_refs, fuel) });
    }
    out
}

fn resolve_xrefs_in_row(row: TableRow, section_refs: &RefTable, block_refs: &RefTable, fuel: usize) -> (r: TableRow)
    ensures
        r.cells@.len() == row.cells@.len(),
        xrefs_resolved_row(r, *section_refs, *block_refs, fuel as nat),
    decreases fuel, 3usize,
{
    let mut cells = row.cells;
    let n = cells.len();
    let mut out: Vec<TableCell> = Vec::new();
    while cells.len() > 0
        invariant
            out@.len() + cells@.len() == n,
            forall|k: int|
                0 <= k < out@.len() ==> xrefs_resolved_blocks(#[trigger] out@[k].blocks@, *section_refs, *block_refs, fuel as nat),
        decreases cells.len(),
    {
        let mut cell = cells.remove(0);
        let blocks = take_blocks(&mut cell.blocks);
        cell.blocks = resolve_xrefs_in_blocks(blocks, section_refs, block_refs, fuel);
        match single_paragraph_text(&cell.blocks) {
            Some((inlines, content)) => {
                cell.inlines = inlines;
                cell.content = content;
            },
            None => {
                cell.inlines = Vec::new();
                cell.content = prepared_blocks_plain_text(&cell.blocks);
            },
        }
        out.push(cell);
    }
    TableRow { cells: out }
}

fn resolve_xrefs_in_block(block: PreparedBlock, section_refs: &RefTable, block_refs: &RefTable, fuel: usize) -> (r:
    PreparedBlock)
    ensures
        same_block_kind(block, r),
        block is Listing || block is Literal || block is CalloutList || block is Passthrough || block is Image
            || block is Toc ==> r == block,
        xrefs_resolved_block(r, *section_refs, *block_refs, fuel as nat),
        same_section_head(block, r),
    decreases fuel, 4usize,
{
    match block {
        PreparedBlock::Preamble(mut b) => {
            let bs = take_blocks(&mut b.blocks);
            b.blocks = resolve_xrefs_in_blocks(bs, section_refs, block_refs, fuel);
            PreparedBlock::Preamble(b)
        },
        PreparedBlock::Paragraph(mut p) => {
            let inl = take_inlines(&mut p.inlines);
            p.inlines = resolve_xrefs_in_inlines(inl, section_refs, block_refs, fuel);
            p.content = prepared_inlines_plain_text(&p.inlines);
            PreparedBlock::Paragraph(p)
        },
        PreparedBlock::Admonition(mut a) => {
            let bs = take_blocks(&mut a.blocks);
            a.blocks = resolve_xrefs_in_blocks(bs, section_refs, block_refs, fuel);
            PreparedBlock::Admonition(a)
        },
        PreparedBlock::UnorderedList(mut l) => {
            let mut items: Vec<ListItemBlock> = Vec::new();
            std::mem::swap(&mut items, &mut l.items);
            l.items = resolve_xrefs_in_items(items, section_refs, block_refs, fuel);
            PreparedBlock::UnorderedList(l)
        },
        PreparedBlock::OrderedList(mut l) => {
            let mut items: Vec<ListItemBlock> = Vec::new();
            std::mem::swap(&mut items, &mut l.items);
            l.items = resolve_xrefs_in_items(items, section_refs, block_refs, fuel);
            PreparedBlock::OrderedList(l)
        },
        PreparedBlock::DescriptionList(mut l) => {
            let mut items: Vec<DescriptionListItemBlock> = Vec::new();
            std::mem::swap(&mut items, &mut l.items);
            let mut out: Vec<DescriptionListItemBlock> = Vec::new();
            while items.len() > 0
                invariant
                    forall|k: int|
                        0 <= k < out@.len() ==> (forall|j: int|
                            0 <= j < out@[k].terms@.len() ==> xrefs_resolved_inlines(
                                #[trigger] out@[k].terms@[j].inlines@,
                                *section_refs,
                                *block_refs,
                                fuel as nat,
                            )) && (#[trigger] out@[k].description matches Some(d) ==> xrefs_resolved_blocks(
                            d.blocks@,
                            *section_refs,
                            *block_refs,
                            fuel as nat,
                        )),
                decreases items.len(),
            {
                let item = items.remove(0);
                let mut terms = item.terms;
                let mut new_terms: Vec<DescriptionListTermBlock> = Vec::new();
                while terms.len() > 0
                    invariant
                        forall|j: int|
                            0 <= j < new_terms@.len() ==> xrefs_resolved_inlines(
                                #[trigger] new_terms@[j].inlines@,
                                *section_refs,
                                *block_refs,
                                fuel as nat,
                            ),
                    decreases terms.len(),
                {
                    let term = terms.remove(0);
                    let inlines = resolve_xrefs_in_inlines(term.inlines, section_refs, block_refs, fuel);
                    let text = prepared_inlines_plain_text(&inlines);
                    new_terms.push(DescriptionListTermBlock { text, inlines });
                }
                let description = match item.description {
                    Some(d) => Some(
                        ListItemBlock { blocks: resolve_xrefs_in_blocks(d.blocks, section_refs, block_refs, fuel) },
                    ),
                    None => None,
                };
                out.push(DescriptionListItemBlock { terms: new_terms, description });
            }
            l.items = out;
            PreparedBlock::DescriptionList(l)
        },
        PreparedBlock::Table(mut t) => {
            let header = match t.header {
                Some(h) => Some(resolve_xrefs_in_row(h, section_refs, block_refs, fuel)),
                None => None,
            };
            let mut rows: Vec<TableRow> = Vec::new();
            std::mem::swap(&mut rows, &mut t.rows);
            let mut out: Vec<TableRow> = Vec::new();
            while rows.len() > 0
                invariant
                    forall|k: int|
                        0 <= k < out@.len() ==> xrefs_resolved_row(#[trigger] out@[k], *section_refs, *block_refs, fuel as nat),
                decreases rows.len(),
            {
                let row = rows.remove(0);
                out.push(resolve_xrefs_in_row(row, section_refs, block_refs, fuel));
            }
            t.header = header;
            t.rows = out;
            PreparedBlock::Table(t)
        },
        PreparedBlock::Example(mut b) => {
            let bs = take_blocks(&mut b.blocks);
            b.blocks = resolve_xrefs_in_blocks(bs, section_refs, block_refs, fuel);
            PreparedBlock::Example(b)
        },
        PreparedBlock::Sidebar(mut b) => {
            let bs = take_blocks(&mut b.blocks);
            b.blocks = resolve_xrefs_in_blocks(bs, section_refs, block_refs, fuel);
            PreparedBlock::Sidebar(b)
        },
        PreparedBlock::Open(mut b) => {
            let bs = take_blocks(&mut b.blocks);
            b.blocks = resolve_xrefs_in_blocks(bs, section_refs, block_refs, fuel);
            PreparedBlock::Open(b)
        },
        PreparedBlock::Quote(mut q) => {
            let bs = take_blocks(&mut q.blocks);
            q.blocks = resolve_xrefs_in_blocks(bs, section_refs, block_refs, fuel);
            PreparedBlock::Quote(q)
        },
        PreparedBlock::Section(mut s) => {
            let bs = take_blocks(&mut s.blocks);
            s.blocks = resolve_xrefs_in_blocks(bs, section_refs, block_refs, fuel);
            PreparedBlock::Section(s)
        },
        other => other,
    }
}

/// The title that replaces a cross reference's text: the title recorded for its
/// target, when its text is just the target itself.
pub open spec fn xref_title_text(x: XrefInline, sec: RefTable, blk: RefTable) -> Option<Seq<char>> {
    let key = ref_key_spec(x.target@);
    match resolving_table(x.target@, sec, blk) {
        Some(table) => if x.inlines@.len() == 1 && (x.inlines@[0] matches PreparedInline::Text(t) && t.value@
            == x.target@) && table.titles@.contains_key(key) {
            Some(table.titles@[key])
        } else {
            None
        },
        None => None,
    }
}

/// How resolving changes one inline at the top level: text stays as it is, and a
/// cross reference whose text is its target shows the target's title.
pub open spec fn inline_resolved_from(a: PreparedInline, b: PreparedInline, sec: RefTable, blk: RefTable) -> bool {
    &&& a is Text ==> b == a
    &&& a matches PreparedInline::Xref(x) ==> (b matches PreparedInline::Xref(y) && y.target == x.target && (
    xref_title_text(x, sec, blk) matches Some(t) ==> y.inlines@.len() == 1 && (y.inlines@[0] matches PreparedInline::Text(
        tt,
    ) && tt.value@ == t)))
}

pub fn resolve_xrefs_in_inlines(
    inlines: Vec<PreparedInline>,
    section_refs: &RefTable,
    block_refs: &RefTable,
    fuel: usize,
) -> (r: Vec<PreparedInline>)
    ensures
        r@.len() == inlines@.len(),
        xrefs_resolved_inlines(r@, *section_refs, *block_refs, fuel as nat),
        fuel > 0 ==> forall|k: int|
            0 <= k < inlines@.len() ==> inline_resolved_from(inlines@[k], #[trigger] r@[k], *section_refs, *block_refs),
        fuel == 0 ==> r == inlines,
    decreases fuel, 2usize,
{
    if fuel == 0 {
        return inlines;
    }
    let mut inlines = inlines;
    let ghost orig = inlines@;
    let n = inlines.len();
    let mut out: Vec<PreparedInline> = Vec::new();
    while inlines.len() > 0
        invariant
            fuel > 0,
            out@.len() + inlines@.len() == n,
            n == orig.len(),
            inlines@ == orig.subrange(out@.len() as int, n as int),
            forall|k: int|
                0 <= k < out@.len() ==> xrefs_resolved_inline(#[trigger] out@[k], *section_refs, *block_refs, (fuel - 1) as nat),
            forall|k: int| 0 <= k < out@.len() ==> inline_resolved_from(orig[k], #[trigger] out@[k], *section_refs, *block_refs),
        decreases inlines.len(),
    {
        let i = inlines.remove(0);
        assert(i == orig[out@.len() as int]);
        assert(inlines@ =~= orig.subrange(out@.len() as int + 1, n as int));
        out.push(resolve_xrefs_in_inline(i, section_refs, block_refs, fuel - 1));
    }
    out
}

fn resolve_xrefs_in_inline(inline: PreparedInline, section_refs: &RefTable, block_refs: &RefTable, fuel: usize) -> (r:
    PreparedInline)
    ensures
        same_inline_kind(inline, r),
        inline is Text || inline is Link || inline is Passthrough || inline is Image || inline is Icon ==> r == inline,
        inline matches PreparedInline::Xref(x) ==> (r matches PreparedInline::Xref(y) && y.target == x.target),
        xrefs_resolved_inline(r, *section_refs, *block_refs, fuel as nat),
        inline_resolved_from(inline, r, *section_refs, *block_refs),
    decreases fuel, 4usize,
{
    match inline {
        PreparedInline::Anchor(mut a) => {
            let inl = take_inlines(&mut a.inlines);
            a.inlines = resolve_xrefs_in_inlines(inl, section_refs, block_refs, fuel);
            PreparedInline::Anchor(a)
        },
        PreparedInline::Span(mut s) => {
            let inl = take_inlines(&mut s.inlines);
            s.inlines = resolve_xrefs_in_inlines(inl, section_refs, block_refs, fuel);
            PreparedInline::Span(s)
        },
        PreparedInline::Footnote(mut f) => {
            let inl = take_inlines(&mut f.inlines);
            f.inlines = resolve_xrefs_in_inlines(inl, section_refs, block_refs, fuel);
            PreparedInline::Footnote(f)
        },
        PreparedInline::Xref(x) => {
            let ghost x0 = x;
            let mut x = resolve_xref(x, section_refs, block_refs);
            let inl = take_inlines(&mut x.inlines);
            let ghost inl0 = inl@;
            x.inlines = resolve_xrefs_in_inlines(inl, section_refs, block_refs, fuel);
            proof {
                if xref_title_text(x0, *section_refs, *block_refs) is Some {
                    assert(inl0.len() == 1 && inl0[0] is Text);
                    if fuel > 0 {
                        assert(inline_resolved_from(inl0[0], x.inlines@[0], *section_refs, *block_refs));
                    }
                }
            }
            PreparedInline::Xref(x)
        },
        other => other,
    }
}

/// A footnote's text is the plain text of its inlines.
pub open spec fn footnote_text_is_plain(f: Footnote) -> bool {
    f.text matches Some(t) && t@ == prepared_inlines_text(f.inlines@)
}

/// Resolves the cross references in footnote text; each footnote keeps its number.
pub fn resolve_xrefs_in_footnotes(footnotes: Vec<Footnote>, section_refs: &RefTable, block_refs: &RefTable) -> (r: Vec<
    Footnote,
>)
    ensures
        r@.len() == footnotes@.len(),
        forall|k: int| 0 <= k < r@.len() ==> (#[trigger] r@[k]).index == footnotes@[k].index,
        forall|k: int| 0 <= k < r@.len() ==> footnote_text_is_plain(#[trigger] r@[k]),
{
    let mut rest = footnotes;
    let ghost orig = rest@;
    let mut out: Vec<Footnote> = Vec::new();
    let mut i: usize = 0;
    while rest.len() > 0
        invariant
            out@.len() + rest@.len() == orig.len(),
            rest@ == orig.subrange(out@.len() as int, orig.len() as int),
            forall|k: int| 0 <= k < out@.len() ==> (#[trigger] out@[k]).index == orig[k].index,
            forall|k: int| 0 <= k < out@.len() ==> footnote_text_is_plain(#[trigger] out@[k]),
        decreases rest.len(),
    {
        let ghost before = rest@;
        let f = rest.remove(0);
        assert(f == orig[out@.len() as int]);
        let inlines = resolve_xrefs_in_inlines(f.inlines, section_refs, block_refs, usize::MAX);
        let text = prepared_inlines_plain_text(&inlines);
        out.push(Footnote { text: Some(text), index: f.index, inlines });
        assert(rest@ =~= orig.subrange(out@.len() as int, orig.len() as int));
    }
    out
}

// ---------------------------------------------------------------------------
// The outline

/// The sections among `blocks`, each with its own subsections.
pub fn collect_sections(blocks: &Vec<PreparedBlock>) -> (r: Vec<DocumentSection>)
    ensures
        r@.len() == section_count(blocks@),
        r@.len() == section_blocks(blocks@).len(),
        forall|k: int| 0 <= k < r@.len() ==> outline_entry(#[trigger] r@[k], section_blocks(blocks@)[k]),
    decreases blocks,
{
    let mut out: Vec<DocumentSection> = Vec::new();
    let mut i: usize = 0;
    while i < blocks.len()
        invariant
            i <= blocks@.len(),
            out@.len() == section_count(blocks@.subrange(0, i as int)),
            out@.len() == section_blocks(blocks@.subrange(0, i as int)).len(),
            forall|k: int| 0 <= k < out@.len() ==> outline_entry(#[trigger] out@[k], section_blocks(blocks@.subrange(0, i as int))[k]),
        decreases blocks.len() - i,
    {
        let ghost pre = blocks@.subrange(0, i as int);
        assert(blocks@.subrange(0, i + 1).drop_last() =~= blocks@.subrange(0, i as int));
        let ghost before = out@;
        match section_entry(&blocks[i]) {
            Some(s) => out.push(s),
            None => {},
        }
        proof {
            let nxt = blocks@.subrange(0, i + 1);
            assert forall|k: int| 0 <= k < out@.len() implies outline_entry(#[trigger] out@[k], section_blocks(nxt)[k]) by {
                if k < before.len() {
                    assert(out@[k] == before[k]);
                    assert(section_blocks(nxt)[k] == section_blocks(pre)[k]);
                }
            }
        }
        i += 1;
    }
    assert(blocks@.subrange(0, i as int) =~= blocks@);
    out
}

/// The sections among `blocks`, in order.
pub open spec fn section_blocks(blocks: Seq<PreparedBlock>) -> Seq<SectionBlock>
    decreases blocks.len(),
{
    if blocks.len() == 0 {
        Seq::empty()
    } else {
        section_blocks(blocks.drop_last()) + match blocks.last() {
            PreparedBlock::Section(s) => seq![s],
            _ => Seq::empty(),
        }
    }
}

/// An outline entry names its section: the same id, title and level, and as many
/// subsections as the section holds.
pub open spec fn outline_entry(e: DocumentSection, s: SectionBlock) -> bool {
    e.id@ == s.id@ && e.title@ == s.title@ && e.level == s.level && e.sections@.len() == section_count(s.blocks@)
}

/// The number of sections among `blocks`.
pub open spec fn section_count(blocks: Seq<PreparedBlock>) -> nat
    decreases blocks.len(),
{
    if blocks.len() == 0 {
        0
    } else {
        section_count(blocks.drop_last()) + if blocks.last() is Section {
            1nat
        } else {
            0
        }
    }
}

fn section_entry(block: &PreparedBlock) -> (r: Option<DocumentSection>)
    ensures
        r is Some <==> block is Section,
        r matches Some(e) ==> (*block matches PreparedBlock::Section(s) && outline_entry(e, s)),
    decreases block,
{
    match block {
        PreparedBlock::Section(s) => Some(
            DocumentSection {
                id: s.id.clone(),
                title: s.title.clone(),
                level: s.level,
                num: s.num.clone(),
                sections: collect_sections(&s.blocks),
            },
        ),
        _ => None,
    }
}

} // verus!
