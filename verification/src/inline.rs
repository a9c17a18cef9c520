//! Inline markup: spans, links, cross references, anchors, passthroughs,
//! images and footnotes.
use vstd::prelude::*;
use crate::ast::{
    Inline, InlineAnchor, InlineFootnote, InlineForm, InlineImage, InlineLink, InlineSpan,
    InlineVariant, InlineXref,
};
use crate::text::{
    char_is_alphanumeric, contains_char, cut, eq_str, find_char, find_from, is_alphanumeric,
    is_ascii_alnum, is_whitespace, is_ws, lit, replace_char, rfind_char, split_char,
    starts_at, starts_with_str, starts_with_str_at, strip_prefix_str, strip_suffix_str, to_chars,
    to_string, trim, ends_with_str,
};

verus! {

#[derive(Debug, PartialEq, Eq)]
pub struct SpannedInline {
    pub inline: Inline,
    pub start: usize,
    pub end: usize,
}

/// Spans lie inside `[lo, hi]`, are non-empty, and come in order without overlapping.
pub open spec fn spans_in_order(r: Seq<SpannedInline>, lo: int, hi: int) -> bool {
    &&& forall|k: int| 0 <= k < r.len() ==> lo <= (#[trigger] r[k]).start < r[k].end <= hi
    &&& forall|k: int| 0 <= k < r.len() - 1 ==> (#[trigger] r[k]).end <= r[k + 1].start
}

/// The spans tile `[lo, hi]`: none when the range is empty, else the first starts at
/// `lo`, the last ends at `hi`, and each ends where the next starts.
pub open spec fn spans_tile(r: Seq<SpannedInline>, lo: int, hi: int) -> bool {
    &&& r.len() == 0 <==> lo == hi
    &&& r.len() > 0 ==> r[0].start == lo && r.last().end == hi
    &&& forall|k: int| 0 <= k < r.len() - 1 ==> (#[trigger] r[k]).end == r[k + 1].start
}

/// Text runs are merged: no two text inlines follow each other, and none is empty.
#[verifier::opaque]
pub open spec fn text_runs_merged(r: Seq<Inline>) -> bool {
    &&& forall|k: int| 0 <= k < r.len() - 1 ==> !((#[trigger] r[k]) is Text && r[k + 1] is Text)
    &&& forall|k: int| 0 <= k < r.len() ==> (#[trigger] r[k] matches Inline::Text(t) ==> t@.len() > 0)
}

/// The inlines of spans, in order.
pub open spec fn span_inlines(r: Seq<SpannedInline>) -> Seq<Inline> {
    r.map_values(|x: SpannedInline| x.inline)
}

/// A span's variant is fixed by the marker that opens it: `*` strong, `_`
/// emphasis, `` ` `` monospace, `~` subscript and `^` superscript; and it is
/// unconstrained exactly when that marker is doubled (never for `~` and `^`). This
/// holds of every span in a result of `parse_spanned_inlines`.
pub proof fn law_span_markers_name_their_variants(r: Seq<SpannedInline>, chars: Seq<char>)
    requires
        markup_spans_start_at_markup(r, chars, 0),
    ensures
        forall|k: int|
            0 <= k < r.len() ==> ((#[trigger] r[k]).inline matches Inline::Span(sp) ==> {
                let c = chars[r[k].start as int];
                &&& c == '*' ==> sp.variant == InlineVariant::Strong
                &&& c == '_' ==> sp.variant == InlineVariant::Emphasis
                &&& c == '`' ==> sp.variant == InlineVariant::Monospace
                &&& c == '~' ==> sp.variant == InlineVariant::Subscript
                &&& c == '^' ==> sp.variant == InlineVariant::Superscript
                &&& (sp.form == InlineForm::Unconstrained <==> c != '~' && c != '^' && r[k].start + 1 < chars.len()
                    && chars[r[k].start + 1] == c)
            }),
{
    reveal(markup_spans_start_at_markup);
    assert forall|k: int| 0 <= k < r.len() implies ((#[trigger] r[k]).inline matches Inline::Span(sp) ==> {
        let c = chars[r[k].start as int];
        &&& c == '*' ==> sp.variant == InlineVariant::Strong
        &&& c == '_' ==> sp.variant == InlineVariant::Emphasis
        &&& c == '`' ==> sp.variant == InlineVariant::Monospace
        &&& c == '~' ==> sp.variant == InlineVariant::Subscript
        &&& c == '^' ==> sp.variant == InlineVariant::Superscript
        &&& (sp.form == InlineForm::Unconstrained <==> c != '~' && c != '^' && r[k].start + 1 < chars.len()
            && chars[r[k].start + 1] == c)
    }) by {
        if let Inline::Span(sp) = r[k].inline {
            assert(sp.variant == marker_variant(chars[r[k].start - 0])->0);
        }
    }
}

/// What the walk knows of one span it keeps: markup starts where it starts unless
/// it is text, and a span's variant and form come from its opening marker.
#[verifier::opaque]
pub open spec fn markup_entry(x: SpannedInline, chars: Seq<char>, base: int) -> bool {
    &&& !(x.inline is Text) ==> markup_at(chars, x.start - base)
    &&& x.inline matches Inline::Span(sp) ==> sp.variant == marker_variant(chars[x.start - base])->0 && (sp.form
        == InlineForm::Unconstrained <==> doubled_marker(chars, x.start - base))
}

proof fn lemma_text_entry(x: SpannedInline, chars: Seq<char>, base: int)
    requires
        x.inline is Text,
    ensures
        markup_entry(x, chars, base),
{
    reveal(markup_entry);
}

proof fn lemma_push_markup(rs: Seq<SpannedInline>, x: SpannedInline, chars: Seq<char>, base: int)
    requires
        markup_spans_start_at_markup(rs, chars, base),
        markup_entry(x, chars, base),
    ensures
        markup_spans_start_at_markup(rs.push(x), chars, base),
{
    reveal(markup_spans_start_at_markup);
    reveal(markup_entry);
    let r = rs.push(x);
    assert forall|k: int| 0 <= k < r.len() && !((#[trigger] r[k]).inline is Text) implies markup_at(
        chars,
        r[k].start - base,
    ) by {
        if k < rs.len() {
            assert(r[k] == rs[k]);
        }
    }
    assert forall|k: int| 0 <= k < r.len() implies ((#[trigger] r[k]).inline matches Inline::Span(sp)
        ==> sp.variant == marker_variant(chars[r[k].start - base])->0 && (sp.form == InlineForm::Unconstrained
        <==> doubled_marker(chars, r[k].start - base))) by {
        if k < rs.len() {
            assert(r[k] == rs[k]);
        }
    }
}

proof fn lemma_push_merged(rs: Seq<SpannedInline>, x: SpannedInline)
    requires
        text_runs_merged(span_inlines(rs)),
        rs.len() > 0 && rs.last().inline is Text ==> !(x.inline is Text),
        x.inline matches Inline::Text(t) ==> t@.len() > 0,
    ensures
        text_runs_merged(span_inlines(rs.push(x))),
{
    reveal(text_runs_merged);
    let a = span_inlines(rs);
    let b = span_inlines(rs.push(x));
    assert(b =~= a.push(x.inline));
    assert forall|k: int| 0 <= k < b.len() - 1 implies !((#[trigger] b[k]) is Text && b[k + 1] is Text) by {
        if k < a.len() - 1 {
            assert(b[k] == a[k] && b[k + 1] == a[k + 1]);
        } else {
            assert(b[k] == rs.last().inline);
        }
    }
    assert forall|k: int| 0 <= k < b.len() implies (#[trigger] b[k] matches Inline::Text(t) ==> t@.len() > 0) by {
        if k < a.len() {
            assert(b[k] == a[k]);
        }
    }
}

/// Every span that is not text starts where markup is recognised, and a span's
/// variant is the one its opening marker names.
#[verifier::opaque]
pub open spec fn markup_spans_start_at_markup(r: Seq<SpannedInline>, chars: Seq<char>, base: int) -> bool {
    &&& forall|k: int| 0 <= k < r.len() && !((#[trigger] r[k]).inline is Text) ==> markup_at(chars, r[k].start - base)
    &&& forall|k: int|
        0 <= k < r.len() ==> ((#[trigger] r[k]).inline matches Inline::Span(sp) ==> sp.variant == marker_variant(
            chars[r[k].start - base],
        )->0 && (sp.form == InlineForm::Unconstrained <==> doubled_marker(chars, r[k].start - base)))
}

/// A sub-parser result: `n > 0` characters consumed from `start`, and a span covering them.
pub open spec fn parsed_at(r: Option<(SpannedInline, usize)>, len: int, start: int, base: int) -> bool {
    r matches Some(p) ==> 0 < p.1 && start + p.1 <= len && p.0.start == base + start && p.0.end
        == base + start + p.1
}

/// Parses inline markup in `input`.
pub fn parse_inlines(input: &str) -> (r: Vec<Inline>)
    ensures
        r@.len() == 0 <==> input@.len() == 0,
        text_runs_merged(r@),
        unmarked_text(input@) && input@.len() > 0 ==> r@.len() == 1 && (r@[0] matches Inline::Text(t) && t@
            == input@),
{
    let chars = to_chars(input);
    parse_inline_chars(&chars)
}

/// Parses inline markup in `chars`.
pub fn parse_inline_chars(chars: &[char]) -> (r: Vec<Inline>)
    ensures
        r@.len() == 0 <==> chars@.len() == 0,
        text_runs_merged(r@),
        unmarked_text(chars@) && chars@.len() > 0 ==> r@.len() == 1 && (r@[0] matches Inline::Text(t) && t@
            == chars@),
{
    let n = chars.len();
    assert(chars@.len() == n);
    let spanned = parse_spanned_inlines_with_base(chars, 0);
    let ghost sv = spanned@;
    let r = strip_spans(spanned);
    assert(r@ =~= span_inlines(sv));
    r
}

/// Parses inline markup in `input`, keeping the character range each inline came from.
pub fn parse_spanned_inlines(input: &str) -> (r: Vec<SpannedInline>)
    ensures
        spans_in_order(r@, 0, input@.len() as int),
        spans_tile(r@, 0, input@.len() as int),
        text_runs_merged(span_inlines(r@)),
        markup_spans_start_at_markup(r@, input@, 0),
        unmarked_text(input@) && input@.len() > 0 ==> r@.len() == 1 && (r@[0].inline matches Inline::Text(t)
            && t@ == input@),
{
    let chars = to_chars(input);
    let n = chars.len();
    parse_spanned_inlines_with_base(&chars, 0)
}

/// Parses `chars`, whose first character sits at position `base` of the whole input.
#[verifier::spinoff_prover]
#[verifier::rlimit(100)]
fn parse_spanned_inlines_with_base(chars: &[char], base: usize) -> (r: Vec<SpannedInline>)
    requires
        base + chars@.len() <= usize::MAX,
    ensures
        spans_in_order(r@, base as int, base + chars@.len()),
        spans_tile(r@, base as int, base + chars@.len()),
        text_runs_merged(span_inlines(r@)),
        markup_spans_start_at_markup(r@, chars@, base as int),
        unmarked_text(chars@) && chars@.len() > 0 ==> r@.len() == 1 && (r@[0].inline matches Inline::Text(t)
            && t@ == chars@),
    decreases chars@.len(), 3int,
{
    let mut result: Vec<SpannedInline> = Vec::new();
    let mut text_start: Option<usize> = None;
    let mut text: Vec<char> = Vec::new();
    let mut index: usize = 0;
    let len = chars.len();
    proof {
        reveal(text_runs_merged);
        reveal(markup_spans_start_at_markup);
        assert(span_inlines(result@) =~= Seq::<Inline>::empty());
    }

    while index < len
        invariant
            len == chars@.len(),
            base + len <= usize::MAX,
            index <= len,
            spans_in_order(result@, base as int, base + index),
            text_start matches Some(ts) ==> ts < index && spans_tile(result@, base as int, base + ts),
            text_start is None ==> spans_tile(result@, base as int, base + index),
            text_runs_merged(span_inlines(result@)),
            markup_spans_start_at_markup(result@, chars@, base as int),
            text_start is Some ==> text@.len() > 0,
            result@.len() > 0 ==> !(result@.last().inline is Text),
            unmarked_text(chars@) ==> result@.len() == 0 && text@ == chars@.subrange(0, index as int) && (index
                > 0 ==> text_start == Some(0usize)) && (index == 0 ==> text_start is None),
        decreases len - index,
    {
        if chars[index] == '\\' && index + 1 < len {
            let next = chars[index + 1];
            if is_escapable_char(next) || next == 'h' || next == 'l' {
                proof {
                    if unmarked_text(chars@) {
                        assert(escape_at(chars@, index as int));
                    }
                }
                if text_start.is_none() {
                    text_start = Some(index);
                }
                text.push(next);
                index += 2;
                continue;
            }
        }

        let parsed = parse_markup_at(chars, index, base);
        match parsed {
            Some((inline, consumed)) => {
                match text_start {
                    Some(ts) => {
                        let t = to_string(&text);
                        let sp = SpannedInline { inline: Inline::Text(t), start: base + ts, end: base + index };
                        proof {
                            lemma_push_merged(result@, sp);
                            lemma_text_entry(sp, chars@, base as int);
                            lemma_push_markup(result@, sp, chars@, base as int);
                        }
                        result.push(sp);
                        text = Vec::new();
                        text_start = None;
                    },
                    None => {},
                }
                proof {
                    lemma_push_merged(result@, inline);
                    lemma_push_markup(result@, inline, chars@, base as int);
                }
                result.push(inline);
                index += consumed;
            },
            None => {
                if text_start.is_none() {
                    text_start = Some(index);
                }
                let ghost t0 = text@;
                text.push(chars[index]);
                proof {
                    if unmarked_text(chars@) {
                        assert(text@ =~= chars@.subrange(0, index + 1));
                    }
                }
                index += 1;
            },
        }
    }
    proof {
        if unmarked_text(chars@) {
            assert(chars@.subrange(0, len as int) =~= chars@);
        }
    }

    match text_start {
        Some(ts) => {
            let t = to_string(&text);
            let sp = SpannedInline { inline: Inline::Text(t), start: base + ts, end: base + len };
            proof {
                lemma_push_merged(result@, sp);
                lemma_text_entry(sp, chars@, base as int);
                lemma_push_markup(result@, sp, chars@, base as int);
            }
            result.push(sp);
        },
        None => {},
    }
    result
}

/// The characters that open a span: strong, emphasis, monospace, subscript, superscript.
pub open spec fn is_span_marker(c: char) -> bool {
    c == '*' || c == '_' || c == '`' || c == '~' || c == '^'
}

/// Whether inline markup can start at position `i` of `s`: a span marker, or one
/// of the openers of passthroughs, anchors, cross references, footnotes, images,
/// links and URLs.
pub open spec fn markup_opener_at(s: Seq<char>, i: int) -> bool {
    ||| (0 <= i < s.len() && is_span_marker(s[i]))
    ||| crate::text::starts_at(s, i, "+++"@)
    ||| crate::text::starts_at(s, i, "pass:["@)
    ||| crate::text::starts_at(s, i, "[#"@)
    ||| crate::text::starts_at(s, i, "anchor:"@)
    ||| crate::text::starts_at(s, i, "[["@)
    ||| crate::text::starts_at(s, i, "xref:"@)
    ||| crate::text::starts_at(s, i, "<<"@)
    ||| crate::text::starts_at(s, i, "footnote:["@)
    ||| crate::text::starts_at(s, i, "image:"@)
    ||| crate::text::starts_at(s, i, "link:"@)
    ||| crate::text::starts_at(s, i, "http://"@)
    ||| crate::text::starts_at(s, i, "https://"@)
    ||| crate::text::starts_at(s, i, "irc://"@)
}

/// Text in which no markup can start and no backslash escapes anything.
pub open spec fn plain_inline_text(s: Seq<char>) -> bool {
    forall|i: int| 0 <= i < s.len() ==> !markup_opener_at(s, i) && s[i] != '\\'
}

/// A backslash at `i` escapes the character after it.
pub open spec fn escape_at(s: Seq<char>, i: int) -> bool {
    0 <= i && i + 1 < s.len() && s[i] == '\\' && (is_escapable_spec(s[i + 1]) || s[i + 1] == 'h'
        || s[i + 1] == 'l')
}

/// Text in which no inline markup parses at any position and no backslash
/// escapes anything.
pub open spec fn unmarked_text(s: Seq<char>) -> bool {
    forall|i: int|
        #![trigger markup_at(s, i)]
        #![trigger escape_at(s, i)]
        0 <= i < s.len() ==> !markup_at(s, i) && !escape_at(s, i)
}

/// Markup parses only where one of its openers stands.
pub proof fn lemma_markup_has_opener(s: Seq<char>, i: int)
    requires
        0 <= i < s.len(),
        markup_at(s, i),
    ensures
        markup_opener_at(s, i),
{
}

/// Text with no markup opener and no backslash is unmarked text.
pub proof fn lemma_plain_text_unmarked(s: Seq<char>)
    requires
        plain_inline_text(s),
    ensures
        unmarked_text(s),
{
    assert forall|i: int| 0 <= i < s.len() implies !markup_at(s, i) && !escape_at(s, i) by {
        if markup_at(s, i) {
            lemma_markup_has_opener(s, i);
        }
    }
}

/// Tries each kind of inline markup at `start`, in the order the grammar gives them priority.
/// Some inline markup parses at `start`: a passthrough, an anchor, a cross
/// reference, a footnote, an image, a link, a URL or a span.
pub open spec fn markup_at(s: Seq<char>, start: int) -> bool {
    ||| triple_plus_at(s, start)
    ||| pass_macro_at(s, start)
    ||| phrase_anchor_at(s, start)
    ||| anchor_macro_at(s, start)
    ||| anchor_brackets_at(s, start)
    ||| xref_macro_at(s, start)
    ||| xref_shorthand_at(s, start)
    ||| footnote_at(s, start)
    ||| inline_image_parts(s, start) is Some
    ||| link_macro_at(s, start)
    ||| raw_url_at(s, start)
    ||| span_at(s, start)
}

fn parse_markup_at(chars: &[char], start: usize, base: usize) -> (r: Option<(SpannedInline, usize)>)
    requires
        start < chars@.len(),
        base + chars@.len() <= usize::MAX,
    ensures
        r matches Some(p) ==> markup_entry(p.0, chars@, base as int),
        r matches Some(p) ==> !(p.0.inline is Text),
        parsed_at(r, chars@.len() as int, start as int, base as int),
        r is Some ==> markup_opener_at(chars@, start as int),
        r is Some <==> markup_at(chars@, start as int),
    decreases chars@.len(), 2int,
{
    proof {
        reveal(markup_entry);
    }
    let r = parse_triple_plus_passthrough(chars, start, base);
    if r.is_some() {
        return r;
    }
    let r = parse_pass_macro(chars, start, base);
    if r.is_some() {
        return r;
    }
    let r = parse_phrase_anchor(chars, start, base);
    if r.is_some() {
        return r;
    }
    let r = parse_inline_anchor_macro(chars, start, base);
    if r.is_some() {
        return r;
    }
    let r = parse_inline_anchor_brackets(chars, start, base);
    if r.is_some() {
        return r;
    }
    let r = parse_xref_macro(chars, start, base);
    if r.is_some() {
        return r;
    }
    let r = parse_xref_shorthand(chars, start, base);
    if r.is_some() {
        return r;
    }
    let r = parse_footnote(chars, start, base);
    if r.is_some() {
        return r;
    }
    let r = parse_inline_image(chars, start, base);
    if r.is_some() {
        return r;
    }
    let r = parse_link_macro(chars, start, base);
    if r.is_some() {
        return r;
    }
    let r = parse_raw_url(chars, start, base);
    if r.is_some() {
        return r;
    }
    parse_span(chars, start, base)
}

pub open spec fn is_escapable_spec(c: char) -> bool {
    c == '\\' || c == '*' || c == '_' || c == '`' || c == '[' || c == ']' || c == '{' || c == '}'
        || c == '<' || c == '>'
}

/// Characters that a backslash makes literal.
fn is_escapable_char(c: char) -> (r: bool)
    ensures
        r == is_escapable_spec(c),
{
    c == '\\' || c == '*' || c == '_' || c == '`' || c == '[' || c == ']' || c == '{' || c == '}'
        || c == '<' || c == '>'
}

/// Parses `inner`, a text shorter than the one being parsed, as nested inline content.
fn nested_inlines(inner: &[char], base: usize) -> (r: Vec<Inline>)
    requires
        base + inner@.len() <= usize::MAX,
    ensures
        inner@.len() == 0 ==> r@.len() == 0,
        unmarked_text(inner@) && inner@.len() > 0 ==> r@.len() == 1 && (r@[0] matches Inline::Text(t)
            && t@ == inner@),
    decreases inner@.len(), 4int,
{
    let spanned = parse_spanned_inlines_with_base(inner, base);
    strip_spans(spanned)
}

fn one_text(t: &[char]) -> (r: Vec<Inline>)
    ensures
        r@.len() == 1,
        r@[0] matches Inline::Text(s) && s@ == t@,
{
    let mut v: Vec<Inline> = Vec::new();
    v.push(Inline::Text(to_string(t)));
    v
}

/// The span variant a marker character opens.
pub open spec fn marker_variant(c: char) -> Option<InlineVariant> {
    if c == '*' {
        Some(InlineVariant::Strong)
    } else if c == '_' {
        Some(InlineVariant::Emphasis)
    } else if c == '`' {
        Some(InlineVariant::Monospace)
    } else if c == '~' {
        Some(InlineVariant::Subscript)
    } else if c == '^' {
        Some(InlineVariant::Superscript)
    } else {
        None
    }
}

fn variant_of_marker(c: char) -> (r: Option<InlineVariant>)
    ensures
        r is Some <==> (c == '*' || c == '_' || c == '`' || c == '~' || c == '^'),
        r == marker_variant(c),
{
    if c == '*' {
        Some(InlineVariant::Strong)
    } else if c == '_' {
        Some(InlineVariant::Emphasis)
    } else if c == '`' {
        Some(InlineVariant::Monospace)
    } else if c == '~' {
        Some(InlineVariant::Subscript)
    } else if c == '^' {
        Some(InlineVariant::Superscript)
    } else {
        None
    }
}

/// A span of some variant opens at `start` and is closed later: doubled
/// strong, emphasis and monospace markers open unconstrained spans, single
/// ones and subscript and superscript markers constrained spans.
pub open spec fn span_at(s: Seq<char>, start: int) -> bool {
    let m = s[start];
    &&& is_span_marker(m)
    &&& if !adjacent_marker(m) && start + 1 < s.len() && s[start + 1] == m {
        unconstrained_opens(s, start, m) && exists|e: int| unconstrained_close(s, start, m, e)
    } else {
        constrained_opens(s, start, m) && exists|e: int| constrained_close(s, start, m, e)
    }
}

fn parse_span(chars: &[char], start: usize, base: usize) -> (r: Option<(SpannedInline, usize)>)
    requires
        start < chars@.len(),
        base + chars@.len() <= usize::MAX,
    ensures
        r matches Some(p) ==> !(p.0.inline is Text),
        parsed_at(r, chars@.len() as int, start as int, base as int),
        r is Some ==> is_span_marker(chars@[start as int]),
        r is Some <==> span_at(chars@, start as int),
        r matches Some(p) ==> p.0.inline matches Inline::Span(sp) && sp.variant == marker_variant(
            chars@[start as int],
        )->0,
        r matches Some(p) ==> (p.0.inline matches Inline::Span(sp) && (sp.form == InlineForm::Unconstrained
            <==> doubled_marker(chars@, start as int))),
    decreases chars@.len(), 1int,
{
    let marker = chars[start];
    let variant = match variant_of_marker(marker) {
        Some(v) => v,
        None => return None,
    };
    if marker == '~' || marker == '^' {
        return parse_constrained_span(chars, start, base, marker, variant);
    }
    if start + 1 < chars.len() && chars[start + 1] == marker {
        parse_unconstrained_span(chars, start, base, marker, variant)
    } else {
        parse_constrained_span(chars, start, base, marker, variant)
    }
}

/// A doubled marker at `start` can open an unconstrained span: text follows it
/// that starts neither with whitespace nor with the marker.
pub open spec fn unconstrained_opens(s: Seq<char>, start: int, marker: char) -> bool {
    start + 2 < s.len() && !crate::text::is_ws(s[start + 2]) && s[start + 2] != marker
}

/// The doubled marker at `end` closes the unconstrained span opened at `start`:
/// the content between is not empty and ends with neither whitespace nor the marker.
pub open spec fn unconstrained_close(s: Seq<char>, start: int, marker: char, end: int) -> bool {
    start + 2 < end && end + 1 < s.len() && s[end] == marker && s[end + 1] == marker
        && !crate::text::is_ws(s[end - 1]) && s[end - 1] != marker
}

/// The span that `(span, consumed)` describes has the given variant and form, and
/// plain content between `from` and `to` is one text inline.
pub open spec fn span_content(
    p: (SpannedInline, usize),
    s: Seq<char>,
    variant: InlineVariant,
    form: InlineForm,
    from: int,
    to: int,
) -> bool {
    p.0.inline matches Inline::Span(sp) && sp.variant == variant && sp.form == form && (unmarked_text(
        s.subrange(from, to),
    ) && from < to ==> sp.inlines@.len() == 1 && (sp.inlines@[0] matches Inline::Text(t) && t@
        == s.subrange(from, to)))
}

fn parse_unconstrained_span(
    chars: &[char],
    start: usize,
    base: usize,
    marker: char,
    variant: InlineVariant,
) -> (r: Option<(SpannedInline, usize)>)
    requires
        start < chars@.len(),
        base + chars@.len() <= usize::MAX,
    ensures
        r matches Some(p) ==> !(p.0.inline is Text),
        parsed_at(r, chars@.len() as int, start as int, base as int),
        r is Some <==> unconstrained_opens(chars@, start as int, marker) && exists|e: int|
            unconstrained_close(chars@, start as int, marker, e),
        r matches Some(p) ==> unconstrained_close(chars@, start as int, marker, start + p.1 - 2) && forall|e: int|
            start + 2 < e < start + p.1 - 2 ==> !unconstrained_close(chars@, start as int, marker, e),
        r matches Some(p) ==> span_content(p, chars@, variant, InlineForm::Unconstrained, start + 2, start + p.1 - 2),
    decreases chars@.len(), 0int,
{
    let len = chars.len();
    if len - start <= 2 {
        return None;
    }
    let opener = chars[start + 2];
    if is_whitespace(opener) || opener == marker {
        return None;
    }
    let mut end = start + 2;
    while len >= 1 && end < len - 1
        invariant
            len == chars@.len(),
            base + len <= usize::MAX,
            start < len,
            start + 2 <= end <= len,
            start < len,
            unconstrained_opens(chars@, start as int, marker),
            forall|e: int| start + 2 < e < end ==> !unconstrained_close(chars@, start as int, marker, e),
        decreases len - end,
    {
        if chars[end] == marker && chars[end + 1] == marker {
            let bad = end == start + 2 || is_whitespace(chars[start + 2]) || is_whitespace(
                chars[end - 1],
            ) || chars[end - 1] == marker;
            if bad {
                end += 1;
                continue;
            }
            assert(unconstrained_close(chars@, start as int, marker, end as int));
            let inlines = nested_inlines(&cut(chars, start + 2, end), base + start + 2);
            return Some(
                (
                    SpannedInline {
                        inline: Inline::Span(
                            InlineSpan { variant, form: InlineForm::Unconstrained, inlines },
                        ),
                        start: base + start,
                        end: base + end + 2,
                    },
                    end + 2 - start,
                ),
            );
        }
        end += 1;
    }
    None
}

/// Subscript and superscript markers may stand next to letters and digits.
/// The span marker at `start` is doubled (`**`, `__`, ``` `` ```), which opens an
/// unconstrained span; `~` and `^` are never doubled.
pub open spec fn doubled_marker(s: Seq<char>, start: int) -> bool {
    !adjacent_marker(s[start]) && start + 1 < s.len() && s[start + 1] == s[start]
}

pub open spec fn adjacent_marker(marker: char) -> bool {
    marker == '~' || marker == '^'
}

/// A single marker at `start` can open a constrained span: unless it may stand
/// next to words, no letter or digit precedes it; text follows it that starts
/// neither with whitespace nor with the marker.
pub open spec fn constrained_opens(s: Seq<char>, start: int, marker: char) -> bool {
    &&& start + 1 < s.len()
    &&& (adjacent_marker(marker) || start == 0 || !crate::text::char_is_alphanumeric(s[start - 1]))
    &&& !crate::text::is_ws(s[start + 1])
    &&& s[start + 1] != marker
}

/// The marker at `end` closes the constrained span opened at `start`: the
/// content between is not empty, ends with neither whitespace nor the marker,
/// and, unless the marker may stand next to words, no letter or digit follows.
pub open spec fn constrained_close(s: Seq<char>, start: int, marker: char, end: int) -> bool {
    &&& start + 1 < end < s.len()
    &&& s[end] == marker
    &&& !crate::text::is_ws(s[end - 1])
    &&& s[end - 1] != marker
    &&& (adjacent_marker(marker) || !(end + 1 < s.len() && crate::text::char_is_alphanumeric(s[end + 1])))
}

fn parse_constrained_span(
    chars: &[char],
    start: usize,
    base: usize,
    marker: char,
    variant: InlineVariant,
) -> (r: Option<(SpannedInline, usize)>)
    requires
        start < chars@.len(),
        base + chars@.len() <= usize::MAX,
    ensures
        r matches Some(p) ==> !(p.0.inline is Text),
        parsed_at(r, chars@.len() as int, start as int, base as int),
        r is Some <==> constrained_opens(chars@, start as int, marker) && exists|e: int|
            constrained_close(chars@, start as int, marker, e),
        r matches Some(p) ==> constrained_close(chars@, start as int, marker, start + p.1 - 1) && forall|e: int|
            start + 1 < e < start + p.1 - 1 ==> !constrained_close(chars@, start as int, marker, e),
        r matches Some(p) ==> span_content(p, chars@, variant, InlineForm::Constrained, start + 1, start + p.1 - 1),
    decreases chars@.len(), 0int,
{
    let adjacent_ok = marker == '~' || marker == '^';
    let len = chars.len();
    if len - start <= 1 {
        return None;
    }
    let opener = chars[start + 1];
    if (!adjacent_ok && start > 0 && is_alphanumeric(chars[start - 1])) || is_whitespace(opener)
        || opener == marker {
        return None;
    }
    let mut end = start + 1;
    while end < len
        invariant
            len == chars@.len(),
            base + len <= usize::MAX,
            start < len,
            start + 1 <= end,
            start < len,
            adjacent_ok == adjacent_marker(marker),
            constrained_opens(chars@, start as int, marker),
            forall|e: int| start + 1 < e < end ==> !constrained_close(chars@, start as int, marker, e),
        decreases len - end,
    {
        if chars[end] == marker {
            let next_alnum = end + 1 < len && is_alphanumeric(chars[end + 1]);
            let bad = end == start + 1 || is_whitespace(chars[start + 1]) || is_whitespace(
                chars[end - 1],
            ) || chars[end - 1] == marker || (!adjacent_ok && next_alnum);
            if bad {
                end += 1;
                continue;
            }
            assert(constrained_close(chars@, start as int, marker, end as int));
            let inlines = nested_inlines(&cut(chars, start + 1, end), base + start + 1);
            return Some(
                (
                    SpannedInline {
                        inline: Inline::Span(
                            InlineSpan { variant, form: InlineForm::Constrained, inlines },
                        ),
                        start: base + start,
                        end: base + end + 1,
                    },
                    end + 1 - start,
                ),
            );
        }
        end += 1;
    }
    None
}

/// `(content start, content end, index after the bracket)` of a `[...]` group opening at `open`.
fn parse_bracket_text(chars: &[char], open: usize) -> (r: Option<(usize, usize, usize)>)
    ensures
        r matches Some(t) ==> open < chars@.len() && chars@[open as int] == '[' && t.0 == open + 1
            && t.0 <= t.1 && t.1 < chars@.len() && chars@[t.1 as int] == ']' && t.2 == t.1 + 1
            && forall|k: int| open < k < t.1 ==> chars@[k] != ']',
        r is None ==> !(open < chars@.len() && chars@[open as int] == '[' && exists|k: int|
            open < k < chars@.len() && chars@[k] == ']'),
        r is Some <==> open < chars@.len() && chars@[open as int] == '[' && crate::text::next_pos(
            chars@,
            open + 1,
            ']',
        ) >= 0,
        r matches Some(t) ==> t.1 == crate::text::next_pos(chars@, open + 1, ']'),
{
    if open >= chars.len() || chars[open] != '[' {
        return None;
    }
    match crate::text::find_char_from(chars, open + 1, ']') {
        Some(i) => Some((open + 1, i, i + 1)),
        None => None,
    }
}

/// Whether `id` may name an anchor: ASCII letters, digits, `_`, `-`, `:` and `.`.
pub open spec fn valid_anchor_id_spec(id: Seq<char>) -> bool {
    forall|k: int|
        0 <= k < id.len() ==> (crate::text::is_ascii_alnum_spec(#[trigger] id[k]) || id[k] == '_'
            || id[k] == '-' || id[k] == ':' || id[k] == '.')
}

pub fn is_valid_anchor_id(id: &[char]) -> (r: bool)
    ensures
        r == valid_anchor_id_spec(id@),
{
    let mut i: usize = 0;
    while i < id.len()
        invariant
            i <= id.len(),
            forall|k: int|
                0 <= k < i ==> (crate::text::is_ascii_alnum_spec(#[trigger] id@[k]) || id@[k]
                    == '_' || id@[k] == '-' || id@[k] == ':' || id@[k] == '.'),
        decreases id.len() - i,
    {
        let c = id[i];
        if !(is_ascii_alnum(c) || c == '_' || c == '-' || c == ':' || c == '.') {
            return false;
        }
        i += 1;
    }
    true
}

/// `s` without its trailing `c`s.
pub open spec fn trim_end_matches_spec(s: Seq<char>, c: char) -> Seq<char>
    decreases s.len(),
{
    if s.len() > 0 && s.last() == c {
        trim_end_matches_spec(s.drop_last(), c)
    } else {
        s
    }
}

/// `s` without its leading and trailing `c`s.
pub open spec fn trim_matches_spec(s: Seq<char>, c: char) -> Seq<char>
    decreases s.len(),
{
    if s.len() > 0 && s[0] == c {
        trim_matches_spec(s.drop_first(), c)
    } else {
        trim_end_matches_spec(s, c)
    }
}

/// Strips every leading and trailing `c` (std `str::trim_matches` with a char).
pub fn trim_matches_char(s: &[char], c: char) -> (r: Vec<char>)
    ensures
        r@.len() <= s@.len(),
        r@ == trim_matches_spec(s@, c),
{
    let mut a: usize = 0;
    assert(s@.subrange(0, s@.len() as int) =~= s@);
    while a < s.len() && s[a] == c
        invariant
            a <= s.len(),
            trim_matches_spec(s@.subrange(a as int, s@.len() as int), c) == trim_matches_spec(s@, c),
        decreases s.len() - a,
    {
        assert(s@.subrange(a as int, s@.len() as int).drop_first() =~= s@.subrange(a + 1, s@.len() as int));
        a += 1;
    }
    let mut b: usize = s.len();
    while b > a && s[b - 1] == c
        invariant
            a <= b <= s.len(),
            trim_end_matches_spec(s@.subrange(a as int, b as int), c) == trim_matches_spec(s@, c),
        decreases b,
    {
        assert(s@.subrange(a as int, b as int).drop_last() =~= s@.subrange(a as int, b - 1));
        b -= 1;
    }
    cut(s, a, b)
}

/// A `+++` passthrough opens at `start` and another `+++` closes it.
pub open spec fn triple_plus_at(s: Seq<char>, start: int) -> bool {
    crate::text::starts_at(s, start, "+++"@) && exists|i: int|
        start + 3 <= i && #[trigger] crate::text::starts_at(s, i, "+++"@)
}

fn parse_triple_plus_passthrough(chars: &[char], start: usize, base: usize) -> (r: Option<
    (SpannedInline, usize),
>)
    requires
        start < chars@.len(),
        base + chars@.len() <= usize::MAX,
    ensures
        r matches Some(p) ==> !(p.0.inline is Span),
        r matches Some(p) ==> !(p.0.inline is Text),
        parsed_at(r, chars@.len() as int, start as int, base as int),
        r is Some ==> crate::text::starts_at(chars@, start as int, "+++"@),
        r is Some <==> triple_plus_at(chars@, start as int),
        r matches Some(p) ==> ({
            let close = start + p.1 - 3;
            &&& start + 3 <= close
            &&& crate::text::starts_at(chars@, close, "+++"@)
            &&& forall|j: int| start + 3 <= j < close ==> !#[trigger] crate::text::starts_at(chars@, j, "+++"@)
            &&& p.0.inline matches Inline::Passthrough(t) && t@ == chars@.subrange(start + 3, close)
        }),
{
    proof {
        reveal_strlit("+++");
    }
    if !starts_with_str_at(chars, start, "+++") {
        return None;
    }
    let len = chars.len();
    let content_start = start + 3;
    let mut index = content_start;
    while len >= 2 && index < len - 2
        invariant
            crate::text::starts_at(chars@, start as int, "+++"@),
            len == chars@.len(),
            base + len <= usize::MAX,
            start < len,
            content_start == start + 3,
            content_start <= index <= len,
            forall|j: int| start + 3 <= j < index ==> !#[trigger] crate::text::starts_at(chars@, j, "+++"@),
        decreases len - index,
    {
        assert(crate::text::starts_at(chars@, index as int, "+++"@) <==> (chars@[index as int] == '+'
            && chars@[index + 1] == '+' && chars@[index + 2] == '+')) by {
            reveal_strlit("+++");
            if crate::text::starts_at(chars@, index as int, "+++"@) {
                let w = chars@.subrange(index as int, index + 3);
                assert(w[0] == '+' && w[1] == '+' && w[2] == '+');
            }
            if chars@[index as int] == '+' && chars@[index + 1] == '+' && chars@[index + 2] == '+' {
                assert(chars@.subrange(index as int, index + 3) =~= "+++"@);
            }
        }
        if chars[index] == '+' && chars[index + 1] == '+' && chars[index + 2] == '+' {
            let raw = cut(chars, content_start, index);
            let end = index + 3;
            return Some(
                (
                    SpannedInline {
                        inline: Inline::Passthrough(to_string(&raw)),
                        start: base + start,
                        end: base + end,
                    },
                    end - start,
                ),
            );
        }
        index += 1;
    }
    assert forall|i: int| start + 3 <= i implies !#[trigger] crate::text::starts_at(chars@, i, "+++"@) by {
        if i >= index {
            assert(i + 3 > len);
        }
    }
    None
}

/// A `pass:[...]` macro opens at `start` and a `]` closes it.
pub open spec fn pass_macro_at(s: Seq<char>, start: int) -> bool {
    crate::text::starts_at(s, start, "pass:["@) && exists|k: int|
        start + 6 <= k < s.len() && #[trigger] s[k] == ']'
}

fn parse_pass_macro(chars: &[char], start: usize, base: usize) -> (r: Option<(SpannedInline, usize)>)
    requires
        start < chars@.len(),
        base + chars@.len() <= usize::MAX,
    ensures
        r matches Some(p) ==> !(p.0.inline is Span),
        r matches Some(p) ==> !(p.0.inline is Text),
        parsed_at(r, chars@.len() as int, start as int, base as int),
        r is Some ==> crate::text::starts_at(chars@, start as int, "pass:["@),
        r is Some <==> pass_macro_at(chars@, start as int),
        r matches Some(p) ==> ({
            let close = start + p.1 - 1;
            &&& start + 6 <= close < chars@.len()
            &&& chars@[close] == ']'
            &&& forall|j: int| start + 6 <= j < close ==> #[trigger] chars@[j] != ']'
            &&& p.0.inline matches Inline::Passthrough(t) && t@ == chars@.subrange(start + 6, close)
        }),
{
    proof {
        reveal_strlit("pass:[");
    }
    if !starts_with_str_at(chars, start, "pass:[") {
        return None;
    }
    let content_start = start + 6;
    match crate::text::find_char_from(chars, content_start, ']') {
        Some(index) => {
            let raw = cut(chars, content_start, index);
            let end = index + 1;
            Some(
                (
                    SpannedInline {
                        inline: Inline::Passthrough(to_string(&raw)),
                        start: base + start,
                        end: base + end,
                    },
                    end - start,
                ),
            )
        },
        None => None,
    }
}

/// Splits at the first `,` (std `splitn(2, ',')`).
fn split_first_comma(s: &[char]) -> (r: (Vec<char>, Option<Vec<char>>))
    ensures
        r.0@.len() <= s@.len(),
        r.1 matches Some(t) ==> t@.len() < s@.len(),
        r.0@ == crate::meta::before_first(s@, ','),
        r.1 is Some <==> crate::text::first_pos(s@, ',') >= 0,
        r.1 matches Some(t) ==> t@ == s@.subrange(crate::text::first_pos(s@, ',') + 1, s@.len() as int),
{
    match find_char(s, ',') {
        Some(i) => (cut(s, 0, i), Some(cut(s, i + 1, s.len()))),
        None => (cut(s, 0, s.len()), None),
    }
}

/// The reftext of a phrase anchor: the first attribute from `k` on that starts
/// with `reftext=` gives it, trimmed and stripped of double quotes, unless that
/// leaves nothing.
pub open spec fn phrase_reftext(parts: Seq<Seq<char>>, k: int) -> Option<Seq<char>>
    decreases parts.len() - k,
{
    if k < 0 || k >= parts.len() {
        None
    } else {
        let p = crate::text::trim_spec(parts[k]);
        if crate::text::starts_at(p, 0, "reftext="@) {
            nonempty_opt(trim_matches_spec(crate::text::trim_spec(p.subrange(8, p.len() as int)), '"'))
        } else {
            phrase_reftext(parts, k + 1)
        }
    }
}

/// The parts of a `[#id,...]#text#` phrase anchor at `start`: the end of its
/// attributes (the first `]`, with `#` right after it) and the end of its text
/// (the next `#`).
pub open spec fn phrase_parts(s: Seq<char>, start: int) -> Option<(int, int)> {
    let attr_end = crate::text::next_pos(s, start + 2, ']');
    let text_end = crate::text::next_pos(s, attr_end + 2, '#');
    if attr_end < 0 || attr_end + 1 >= s.len() || s[attr_end + 1] != '#' || text_end < 0 {
        None
    } else {
        Some((attr_end, text_end))
    }
}

/// A `[#id]#text#` phrase anchor with a valid id stands at `start`.
pub open spec fn phrase_anchor_at(s: Seq<char>, start: int) -> bool {
    crate::text::starts_at(s, start, "[#"@) && (phrase_parts(
        s,
        start,
    ) matches Some(pp) && ({
        let id = crate::text::trim_spec(
            crate::meta::before_first(s.subrange(start + 2, pp.0), ','),
        );
        id.len() > 0 && valid_anchor_id_spec(id)
    }))
}

fn parse_phrase_anchor(chars: &[char], start: usize, base: usize) -> (r: Option<(SpannedInline, usize)>)
    requires
        start < chars@.len(),
        base + chars@.len() <= usize::MAX,
    ensures
        r matches Some(p) ==> !(p.0.inline is Span),
        r matches Some(p) ==> !(p.0.inline is Text),
        parsed_at(r, chars@.len() as int, start as int, base as int),
        r is Some ==> crate::text::starts_at(chars@, start as int, "[#"@),
        r is Some <==> phrase_anchor_at(chars@, start as int),
        r matches Some(p) ==> ({
            let pp = phrase_parts(chars@, start as int)->0;
            let inner = chars@.subrange(start + 2, pp.0);
            &&& p.1 == pp.1 + 1 - start
            &&& p.0.inline matches Inline::Anchor(a) && a.id@ == crate::text::trim_spec(
                crate::meta::before_first(inner, ','),
            ) && crate::text::opt_view(a.reftext) == phrase_reftext(crate::text::split_spec(inner, ','), 1)
                && nested_from(a.inlines@, chars@.subrange(pp.0 + 2, pp.1))
        }),
    decreases chars@.len(), 0int,
{
    proof {
        reveal_strlit("[#");
    }
    if !starts_with_str_at(chars, start, "[#") {
        return None;
    }
    let len = chars.len();
    let attr_end = match crate::text::find_char_from(chars, start + 2, ']') {
        Some(i) => i,
        None => return None,
    };
    if attr_end + 1 >= len || chars[attr_end + 1] != '#' {
        return None;
    }
    let inner = cut(chars, start + 2, attr_end);
    let parts = split_char(&inner, ',');
    let id = trim(&parts[0]);
    if id.len() == 0 || !is_valid_anchor_id(&id) {
        return None;
    }
    let mut reftext: Option<String> = None;
    let mut k: usize = 1;
    let ghost pv = crate::text::views(parts@);
    while k < parts.len()
        invariant_except_break
            reftext is None,
        invariant
            1 <= k <= parts@.len(),
            pv == crate::text::views(parts@),
            phrase_reftext(pv, 1) == phrase_reftext(pv, k as int),
        ensures
            crate::text::opt_view(reftext) == phrase_reftext(pv, 1),
        decreases parts.len() - k,
    {
        let part = trim(&parts[k]);
        proof {
            reveal_strlit("reftext=");
        }
        match strip_prefix_str(&part, "reftext=") {
            Some(value) => {
                let v = trim_matches_char(&trim(&value), '"');
                if v.len() > 0 {
                    reftext = Some(to_string(&v));
                }
                break;
            },
            None => {},
        }
        k += 1;
    }
    match crate::text::find_char_from(chars, attr_end + 2, '#') {
        Some(text_end) => {
            let inlines = nested_inlines(&cut(chars, attr_end + 2, text_end), base + attr_end + 2);
            Some(
                (
                    SpannedInline {
                        inline: Inline::Anchor(
                            InlineAnchor { id: to_string(&id), reftext, inlines },
                        ),
                        start: base + start,
                        end: base + text_end + 1,
                    },
                    text_end + 1 - start,
                ),
            )
        },
        None => None,
    }
}

/// The end of a macro target: the first `[` or whitespace at or after `from`,
/// or the end of `s`.
pub open spec fn macro_target_end(s: Seq<char>, from: int) -> int
    decreases s.len() - from,
{
    if from < 0 || from >= s.len() || s[from] == '[' || crate::text::is_ws(s[from]) {
        from
    } else {
        macro_target_end(s, from + 1)
    }
}

/// A scan that stopped at `r` found the macro target's end.
proof fn lemma_macro_target_end(s: Seq<char>, from: int, r: int)
    requires
        0 <= from <= r <= s.len(),
        forall|k: int| from <= k < r ==> s[k] != '[' && !crate::text::is_ws(#[trigger] s[k]),
        r < s.len() ==> s[r] == '[' || crate::text::is_ws(s[r]),
    ensures
        macro_target_end(s, from) == r,
    decreases r - from,
{
    if from < r {
        assert(s[from] != '[' && !crate::text::is_ws(s[from]));
        lemma_macro_target_end(s, from + 1, r);
    }
}

/// The end of a macro target: the first `[` or whitespace at or after `from`.
fn scan_macro_target(chars: &[char], from: usize) -> (r: usize)
    requires
        from <= chars@.len(),
    ensures
        from <= r <= chars@.len(),
        forall|k: int| from <= k < r ==> chars@[k] != '[' && !crate::text::is_ws(#[trigger] chars@[k]),
        r < chars@.len() ==> chars@[r as int] == '[' || crate::text::is_ws(chars@[r as int]),
        r == macro_target_end(chars@, from as int),
{
    let mut t = from;
    while t < chars.len() && chars[t] != '[' && !is_whitespace(chars[t])
        invariant
            from <= t <= chars@.len(),
            forall|k: int| from <= k < t ==> chars@[k] != '[' && !crate::text::is_ws(#[trigger] chars@[k]),
        decreases chars.len() - t,
    {
        t += 1;
    }
    proof {
        lemma_macro_target_end(chars@, from as int, t as int);
    }
    t
}

/// The parts of a `name:target[text]` macro at `start` whose name (with its
/// colon) is `k` characters long: where the target starts and ends, and where
/// the text starts and ends (at the first `]`). The target must not be empty.
pub open spec fn macro_parts(s: Seq<char>, start: int, k: int) -> Option<(int, int, int, int)> {
    let ts = start + k;
    let te = macro_target_end(s, ts);
    let close = crate::text::next_pos(s, te + 1, ']');
    if te >= s.len() || s[te] != '[' || te == ts || close < 0 {
        None
    } else {
        Some((ts, te, te + 1, close))
    }
}

/// `t` unless it is empty.
pub open spec fn nonempty_opt(t: Seq<char>) -> Option<Seq<char>> {
    if t.len() == 0 {
        None
    } else {
        Some(t)
    }
}

/// Nested content `inlines` parsed from `text`: plain text is one text inline.
pub open spec fn nested_from(inlines: Seq<Inline>, text: Seq<char>) -> bool {
    unmarked_text(text) && text.len() > 0 ==> inlines.len() == 1 && (inlines[0] matches Inline::Text(
        t,
    ) && t@ == text)
}

/// An `anchor:id[reftext]` macro with a valid id stands at `start`.
pub open spec fn anchor_macro_at(s: Seq<char>, start: int) -> bool {
    crate::text::starts_at(s, start, "anchor:"@) && (macro_parts(
        s,
        start,
        7,
    ) matches Some(m) && valid_anchor_id_spec(s.subrange(m.0, m.1)))
}

fn parse_inline_anchor_macro(chars: &[char], start: usize, base: usize) -> (r: Option<
    (SpannedInline, usize),
>)
    requires
        start < chars@.len(),
        base + chars@.len() <= usize::MAX,
    ensures
        r matches Some(p) ==> !(p.0.inline is Span),
        r matches Some(p) ==> !(p.0.inline is Text),
        parsed_at(r, chars@.len() as int, start as int, base as int),
        r is Some ==> crate::text::starts_at(chars@, start as int, "anchor:"@),
        r is Some <==> anchor_macro_at(chars@, start as int),
        r matches Some(p) ==> ({
            let m = macro_parts(chars@, start as int, 7)->0;
            &&& p.1 == m.3 + 1 - start
            &&& p.0.inline matches Inline::Anchor(a) && a.id@ == chars@.subrange(m.0, m.1)
                && crate::text::opt_view(a.reftext) == nonempty_opt(crate::text::trim_spec(chars@.subrange(m.2, m.3)))
                && a.inlines@.len() == 0
        }),
{
    proof {
        reveal_strlit("anchor:");
    }
    if !starts_with_str_at(chars, start, "anchor:") {
        return None;
    }
    let target_start = start + 7;
    let target_end = scan_macro_target(chars, target_start);
    if target_end >= chars.len() || chars[target_end] != '[' || target_end == target_start {
        return None;
    }
    let (text_start, text_end, consumed) = match parse_bracket_text(chars, target_end) {
        Some(t) => t,
        None => return None,
    };
    let id = cut(chars, target_start, target_end);
    if !is_valid_anchor_id(&id) {
        return None;
    }
    let rt = trim(&cut(chars, text_start, text_end));
    let reftext = if rt.len() == 0 {
        None
    } else {
        Some(to_string(&rt))
    };
    Some(
        (
            SpannedInline {
                inline: Inline::Anchor(
                    InlineAnchor { id: to_string(&id), reftext, inlines: Vec::new() },
                ),
                start: base + start,
                end: base + consumed,
            },
            consumed - start,
        ),
    )
}

/// The first position at or after `from` where `c` stands twice in a row, or -1.
pub open spec fn next_double(s: Seq<char>, from: int, c: char) -> int
    decreases s.len() - from,
{
    if from < 0 || from + 1 >= s.len() {
        -1
    } else if s[from] == c && s[from + 1] == c {
        from
    } else {
        next_double(s, from + 1, c)
    }
}

/// `next_double` from what a search from `from` found: a pair at `i`, or none
/// when `i` reached the last character.
proof fn lemma_next_double(s: Seq<char>, from: int, c: char, i: int)
    requires
        0 <= from <= i,
        forall|k: int| from <= k < i && k + 1 < s.len() ==> !(#[trigger] s[k] == c && s[k + 1] == c),
        (i + 1 < s.len() && s[i] == c && s[i + 1] == c) || i + 1 >= s.len(),
    ensures
        next_double(s, from, c) == if i + 1 < s.len() {
            i
        } else {
            -1
        },
    decreases s.len() - from,
{
    if from + 1 < s.len() && !(s[from] == c && s[from + 1] == c) {
        lemma_next_double(s, from + 1, c, i);
    }
}

/// The reftext after the first comma of an anchor's or a reference's content,
/// trimmed, when there is a comma and the text is not empty.
pub open spec fn after_comma_text(inner: Seq<char>) -> Option<Seq<char>> {
    let c = crate::text::first_pos(inner, ',');
    if c < 0 {
        None
    } else {
        nonempty_opt(crate::text::trim_spec(inner.subrange(c + 1, inner.len() as int)))
    }
}

/// An `[[id,reftext]]` anchor with a valid id stands at `start`.
pub open spec fn anchor_brackets_at(s: Seq<char>, start: int) -> bool {
    ({
        let close = next_double(s, start + 2, ']');
        let id = crate::text::trim_spec(
            crate::meta::before_first(s.subrange(start + 2, close), ','),
        );
        crate::text::starts_at(s, start, "[["@) && close >= 0 && id.len() > 0
            && valid_anchor_id_spec(id)
    })
}

fn parse_inline_anchor_brackets(chars: &[char], start: usize, base: usize) -> (r: Option<
    (SpannedInline, usize),
>)
    requires
        start < chars@.len(),
        base + chars@.len() <= usize::MAX,
    ensures
        r matches Some(p) ==> !(p.0.inline is Span),
        r matches Some(p) ==> !(p.0.inline is Text),
        parsed_at(r, chars@.len() as int, start as int, base as int),
        r is Some ==> crate::text::starts_at(chars@, start as int, "[["@),
        r is Some <==> anchor_brackets_at(chars@, start as int),
        r matches Some(p) ==> ({
            let close = next_double(chars@, start + 2, ']');
            let inner = chars@.subrange(start + 2, close);
            &&& close == start + p.1 - 2
            &&& p.0.inline matches Inline::Anchor(a) && a.id@ == crate::text::trim_spec(
                crate::meta::before_first(inner, ','),
            ) && crate::text::opt_view(a.reftext) == after_comma_text(inner) && a.inlines@.len() == 0
        }),
{
    proof {
        reveal_strlit("[[");
    }
    if !starts_with_str_at(chars, start, "[[") {
        return None;
    }
    let len = chars.len();
    let mut end = start + 2;
    while len >= 1 && end < len - 1
        invariant
            crate::text::starts_at(chars@, start as int, "[["@),
            len == chars@.len(),
            base + len <= usize::MAX,
            start < len,
            start + 2 <= end <= len,
            forall|k: int| start + 2 <= k < end && k + 1 < len ==> !(#[trigger] chars@[k] == ']' && chars@[k + 1] == ']'),
        decreases len - end,
    {
        if chars[end] == ']' && chars[end + 1] == ']' {
            proof {
                lemma_next_double(chars@, start + 2, ']', end as int);
            }
            let inner = cut(chars, start + 2, end);
            let (first, rest) = split_first_comma(&inner);
            let id = trim(&first);
            if id.len() == 0 || !is_valid_anchor_id(&id) {
                return None;
            }
            let reftext = match rest {
                Some(r) => {
                    let t = trim(&r);
                    if t.len() == 0 {
                        None
                    } else {
                        Some(to_string(&t))
                    }
                },
                None => None,
            };
            return Some(
                (
                    SpannedInline {
                        inline: Inline::Anchor(
                            InlineAnchor { id: to_string(&id), reftext, inlines: Vec::new() },
                        ),
                        start: base + start,
                        end: base + end + 2,
                    },
                    end + 2 - start,
                ),
            );
        }
        end += 1;
    }
    proof {
        lemma_next_double(chars@, start + 2, ']', if end + 1 >= len { end as int } else { len as int });
    }
    None
}

/// An `xref:target[text]` macro stands at `start`.
pub open spec fn xref_macro_at(s: Seq<char>, start: int) -> bool {
    crate::text::starts_at(s, start, "xref:"@) && macro_parts(
        s,
        start,
        5,
    ) is Some
}

fn parse_xref_macro(chars: &[char], start: usize, base: usize) -> (r: Option<(SpannedInline, usize)>)
    requires
        start < chars@.len(),
        base + chars@.len() <= usize::MAX,
    ensures
        r matches Some(p) ==> !(p.0.inline is Span),
        r matches Some(p) ==> !(p.0.inline is Text),
        parsed_at(r, chars@.len() as int, start as int, base as int),
        r is Some ==> crate::text::starts_at(chars@, start as int, "xref:"@),
        r is Some <==> xref_macro_at(chars@, start as int),
        r matches Some(p) ==> ({
            let m = macro_parts(chars@, start as int, 5)->0;
            &&& p.1 == m.3 + 1 - start
            &&& p.0.inline matches Inline::Xref(x) && x.target@ == chars@.subrange(m.0, m.1) && !x.shorthand
                && x.explicit_text == (m.3 > m.2) && (m.3 > m.2 ==> nested_from(
                x.text@,
                chars@.subrange(m.2, m.3),
            )) && (m.3 <= m.2 ==> x.text@.len() == 1 && (x.text@[0] matches Inline::Text(t) && t@
                == chars@.subrange(m.0, m.1)))
        }),
    decreases chars@.len(), 0int,
{
    proof {
        reveal_strlit("xref:");
    }
    if !starts_with_str_at(chars, start, "xref:") {
        return None;
    }
    let target_start = start + 5;
    let target_end = scan_macro_target(chars, target_start);
    if target_end >= chars.len() || chars[target_end] != '[' || target_end == target_start {
        return None;
    }
    let (text_start, text_end, consumed) = match parse_bracket_text(chars, target_end) {
        Some(t) => t,
        None => return None,
    };
    let target = cut(chars, target_start, target_end);
    let explicit = text_end > text_start;
    let text = if !explicit {
        one_text(&target)
    } else {
        nested_inlines(&cut(chars, text_start, text_end), base + text_start)
    };
    Some(
        (
            SpannedInline {
                inline: Inline::Xref(
                    InlineXref {
                        target: to_string(&target),
                        text,
                        shorthand: false,
                        explicit_text: explicit,
                    },
                ),
                start: base + start,
                end: base + consumed,
            },
            consumed - start,
        ),
    )
}

/// A `<<target,text>>` reference with a target stands at `start`.
pub open spec fn xref_shorthand_at(s: Seq<char>, start: int) -> bool {
    ({
        let close = next_double(s, start + 2, '>');
        let inner = s.subrange(start + 2, close);
        crate::text::starts_at(s, start, "<<"@) && close >= 0 && crate::text::trim_spec(
            inner,
        ).len() > 0 && crate::text::trim_spec(crate::meta::before_first(inner, ',')).len() > 0
    })
}

fn parse_xref_shorthand(chars: &[char], start: usize, base: usize) -> (r: Option<
    (SpannedInline, usize),
>)
    requires
        start < chars@.len(),
        base + chars@.len() <= usize::MAX,
    ensures
        r matches Some(p) ==> !(p.0.inline is Span),
        r matches Some(p) ==> !(p.0.inline is Text),
        parsed_at(r, chars@.len() as int, start as int, base as int),
        r is Some ==> crate::text::starts_at(chars@, start as int, "<<"@),
        r is Some <==> xref_shorthand_at(chars@, start as int),
        r matches Some(p) ==> ({
            let close = next_double(chars@, start + 2, '>');
            let inner = chars@.subrange(start + 2, close);
            let target = crate::text::trim_spec(crate::meta::before_first(inner, ','));
            &&& close == start + p.1 - 2
            &&& p.0.inline matches Inline::Xref(x) && x.target@ == target && x.shorthand
                && x.explicit_text == (after_comma_text(inner) is Some) && match after_comma_text(inner) {
                Some(t) => nested_from(x.text@, t),
                None => x.text@.len() == 1 && (x.text@[0] matches Inline::Text(t) && t@ == target),
            }
        }),
    decreases chars@.len(), 0int,
{
    proof {
        reveal_strlit("<<");
    }
    if !starts_with_str_at(chars, start, "<<") {
        return None;
    }
    let len = chars.len();
    let mut end = start + 2;
    while len >= 1 && end < len - 1
        invariant
            crate::text::starts_at(chars@, start as int, "<<"@),
            len == chars@.len(),
            base + len <= usize::MAX,
            start < len,
            start + 2 <= end <= len,
            forall|k: int| start + 2 <= k < end && k + 1 < len ==> !(#[trigger] chars@[k] == '>' && chars@[k + 1] == '>'),
        decreases len - end,
    {
        if chars[end] == '>' && chars[end + 1] == '>' {
            proof {
                lemma_next_double(chars@, start + 2, '>', end as int);
            }
            let inner = cut(chars, start + 2, end);
            if trim(&inner).len() == 0 {
                return None;
            }
            let (first, rest) = split_first_comma(&inner);
            let target = trim(&first);
            if target.len() == 0 {
                return None;
            }
            let text_source: Option<Vec<char>> = match rest {
                Some(r) => {
                    let t = trim(&r);
                    if t.len() == 0 {
                        None
                    } else {
                        Some(t)
                    }
                },
                None => None,
            };
            let explicit = text_source.is_some();
            let text = match text_source {
                Some(ts) => {
                    if ts.len() < len {
                        let offset = match find_from(&inner, 0, &ts) {
                            Some(o) => o,
                            None => 0,
                        };
                        if offset <= inner.len() {
                            nested_inlines(&ts, base)
                        } else {
                            nested_inlines(&ts, base)
                        }
                    } else {
                        one_text(&ts)
                    }
                },
                None => one_text(&target),
            };
            return Some(
                (
                    SpannedInline {
                        inline: Inline::Xref(
                            InlineXref {
                                target: to_string(&target),
                                text,
                                shorthand: true,
                                explicit_text: explicit,
                            },
                        ),
                        start: base + start,
                        end: base + end + 2,
                    },
                    end + 2 - start,
                ),
            );
        }
        end += 1;
    }
    proof {
        lemma_next_double(chars@, start + 2, '>', if end + 1 >= len { end as int } else { len as int });
    }
    None
}

/// Link attributes: optional text and target window.
struct LinkAttrs {
    text: Option<Vec<char>>,
    window: Option<Vec<char>>,
}

/// The link text and window after the attribute at position `k` (`part`): the first
/// attribute is the text (a trailing `^` asks for a new window), and any
/// `window=` attribute names the window.
pub open spec fn link_attr_step(k: int, part: Seq<char>, st: (Option<Seq<char>>, Option<Seq<char>>)) -> (
    Option<Seq<char>>,
    Option<Seq<char>>,
) {
    let p = crate::text::trim_spec(part);
    let window = trim_matches_spec(p.subrange(7, p.len() as int), '"');
    if p.len() == 0 {
        st
    } else if k == 0 && crate::text::ends_with_spec(p, "^"@) {
        (Some(p.subrange(0, p.len() - 1)), Some("_blank"@))
    } else if crate::text::starts_at(p, 0, "window="@) {
        (st.0, Some(window))
    } else if k == 0 {
        (Some(p), st.1)
    } else {
        st
    }
}

/// The link text and window that the attributes `parts` give, in order.
pub open spec fn link_attrs_spec(parts: Seq<Seq<char>>) -> (Option<Seq<char>>, Option<Seq<char>>)
    decreases parts.len(),
{
    if parts.len() == 0 {
        (None, None)
    } else {
        link_attr_step(parts.len() - 1, parts.last(), link_attrs_spec(parts.drop_last()))
    }
}

fn parse_link_attrs(chars: &[char]) -> (r: LinkAttrs)
    ensures
        (crate::meta::opt_chars_view(r.text), crate::meta::opt_chars_view(r.window)) == link_attrs_spec(
            crate::text::split_spec(chars@, ','),
        ),
{
    proof {
        reveal_strlit("^");
        reveal_strlit("window=");
        reveal_strlit("_blank");
    }
    let parts = split_char(chars, ',');
    let mut text: Option<Vec<char>> = None;
    let mut window: Option<Vec<char>> = None;
    let mut index: usize = 0;
    while index < parts.len()
        invariant
            index <= parts@.len(),
            (crate::meta::opt_chars_view(text), crate::meta::opt_chars_view(window)) == link_attrs_spec(
                crate::text::views(parts@.subrange(0, index as int)),
            ),
            "window="@.len() == 7,
            "^"@ == seq!['^'],
        decreases parts.len() - index,
    {
        assert(crate::text::views(parts@.subrange(0, index + 1)).drop_last() =~= crate::text::views(
            parts@.subrange(0, index as int),
        ));
        assert(crate::text::views(parts@.subrange(0, index + 1)).last() == parts@[index as int]@);
        let part = trim(&parts[index]);
        if part.len() == 0 {
            index += 1;
            continue;
        }
        if index == 0 {
            match strip_suffix_str(&part, "^") {
                Some(stripped) => {
                    text = Some(stripped);
                    window = Some(to_chars("_blank"));
                    index += 1;
                    continue;
                },
                None => {},
            }
            match strip_prefix_str(&part, "window=") {
                Some(value) => {
                    window = Some(trim_matches_char(&value, '"'));
                    index += 1;
                    continue;
                },
                None => {},
            }
            text = Some(part);
            index += 1;
            continue;
        }
        match strip_prefix_str(&part, "window=") {
            Some(value) => {
                window = Some(trim_matches_char(&value, '"'));
            },
            None => {},
        }
        index += 1;
    }
    assert(parts@.subrange(0, parts@.len() as int) =~= parts@);
    LinkAttrs { text, window }
}

fn opt_string(v: Option<Vec<char>>) -> (r: Option<String>)
    ensures
        r is Some <==> v is Some,
        r matches Some(s) ==> s@ == v->0@,
{
    match v {
        Some(x) => Some(to_string(&x)),
        None => None,
    }
}

/// A link's text inlines: from its text attribute, or else from its target;
/// when that is empty, the target as one text inline.
pub open spec fn link_text_from(text: Seq<Inline>, source: Option<Seq<char>>, target: Seq<char>) -> bool {
    let src = match source {
        Some(t) => t,
        None => target,
    };
    if src.len() == 0 {
        text.len() == 1 && (text[0] matches Inline::Text(t) && t@ == target)
    } else {
        nested_from(text, src)
    }
}

/// A `link:target[attrs]` macro stands at `start`.
pub open spec fn link_macro_at(s: Seq<char>, start: int) -> bool {
    crate::text::starts_at(s, start, "link:"@) && macro_parts(
        s,
        start,
        5,
    ) is Some
}

fn parse_link_macro(chars: &[char], start: usize, base: usize) -> (r: Option<(SpannedInline, usize)>)
    requires
        start < chars@.len(),
        base + chars@.len() <= usize::MAX,
    ensures
        r matches Some(p) ==> !(p.0.inline is Span),
        r matches Some(p) ==> !(p.0.inline is Text),
        parsed_at(r, chars@.len() as int, start as int, base as int),
        r is Some ==> crate::text::starts_at(chars@, start as int, "link:"@),
        r is Some <==> link_macro_at(chars@, start as int),
        r matches Some(p) ==> ({
            let m = macro_parts(chars@, start as int, 5)->0;
            let target = chars@.subrange(m.0, m.1);
            let la = link_attrs_spec(crate::text::split_spec(chars@.subrange(m.2, m.3), ','));
            &&& p.1 == m.3 + 1 - start
            &&& p.0.inline matches Inline::Link(l) && l.target@ == target && l.bare == (la.0 is None)
                && crate::text::opt_view(l.window) == la.1 && link_text_from(l.text@, la.0, target)
        }),
    decreases chars@.len(), 0int,
{
    proof {
        reveal_strlit("link:");
    }
    if !starts_with_str_at(chars, start, "link:") {
        return None;
    }
    let target_start = start + 5;
    let target_end = scan_macro_target(chars, target_start);
    if target_end >= chars.len() || chars[target_end] != '[' || target_end == target_start {
        return None;
    }
    let (text_start, text_end, consumed) = match parse_bracket_text(chars, target_end) {
        Some(t) => t,
        None => return None,
    };
    let target = cut(chars, target_start, target_end);
    let attrs = parse_link_attrs(&cut(chars, text_start, text_end));
    let bare = attrs.text.is_none();
    let text_source = match &attrs.text {
        Some(t) => crate::text::copy(t),
        None => crate::text::copy(&target),
    };
    let text_inlines = if text_source.len() == 0 {
        one_text(&target)
    } else if text_source.len() < chars.len() {
        nested_inlines(&text_source, base)
    } else {
        one_text(&text_source)
    };
    Some(
        (
            SpannedInline {
                inline: Inline::Link(
                    InlineLink {
                        target: to_string(&target),
                        text: text_inlines,
                        bare,
                        window: opt_string(attrs.window),
                    },
                ),
                start: base + start,
                end: base + consumed,
            },
            consumed - start,
        ),
    )
}

fn is_trailing_url_punct(c: char) -> (r: bool)
    ensures
        r == (c == ',' || c == '.' || c == ';' || c == ':' || c == ')' || c == '!' || c == '?'),
{
    c == ',' || c == '.' || c == ';' || c == ':' || c == ')' || c == '!' || c == '?'
}

/// The length of the URL scheme at `start` (`http://`, `https://`, `irc://`), or 0.
pub open spec fn url_scheme_len(s: Seq<char>, start: int) -> int {
    if crate::text::starts_at(s, start, "http://"@) {
        7
    } else if crate::text::starts_at(s, start, "https://"@) {
        8
    } else if crate::text::starts_at(s, start, "irc://"@) {
        6
    } else {
        0
    }
}

/// Where a bare URL ends once trailing punctuation (never past `lo`) is left out.
pub open spec fn url_trim_end(s: Seq<char>, lo: int, e: int) -> int
    decreases e - lo,
{
    if e > lo && 0 < e <= s.len() && (s[e - 1] == ',' || s[e - 1] == '.' || s[e - 1] == ';'
        || s[e - 1] == ':' || s[e - 1] == ')' || s[e - 1] == '!' || s[e - 1] == '?') {
        url_trim_end(s, lo, e - 1)
    } else {
        e
    }
}

/// A raw URL at `start`: after its scheme, at least one character that is
/// neither whitespace nor `[`; when `[` follows, a `]` closes its attributes.
pub open spec fn raw_url_at(s: Seq<char>, start: int) -> bool {
    let k = url_scheme_len(s, start);
    let e = macro_target_end(s, start + k);
    &&& k > 0
    &&& e > start + k
    &&& (e < s.len() && s[e] == '[' ==> crate::text::next_pos(s, e + 1, ']') >= 0)
}

fn parse_raw_url(chars: &[char], start: usize, base: usize) -> (r: Option<(SpannedInline, usize)>)
    requires
        start < chars@.len(),
        base + chars@.len() <= usize::MAX,
    ensures
        r matches Some(p) ==> !(p.0.inline is Span),
        r matches Some(p) ==> !(p.0.inline is Text),
        parsed_at(r, chars@.len() as int, start as int, base as int),
        r is Some ==> crate::text::starts_at(chars@, start as int, "http://"@) || crate::text::starts_at(chars@, start as int, "https://"@) || crate::text::starts_at(chars@, start as int, "irc://"@),
        r is Some <==> raw_url_at(chars@, start as int),
        r matches Some(p) ==> ({
            let k = url_scheme_len(chars@, start as int);
            let e = macro_target_end(chars@, start + k);
            p.0.inline matches Inline::Link(l) && if e < chars@.len() && chars@[e] == '[' {
                let close = crate::text::next_pos(chars@, e + 1, ']');
                let la = link_attrs_spec(crate::text::split_spec(chars@.subrange(e + 1, close), ','));
                &&& p.1 == close + 1 - start
                &&& l.target@ == chars@.subrange(start as int, e)
                &&& l.bare == (la.0 is None)
                &&& crate::text::opt_view(l.window) == la.1
                &&& match la.0 {
                    Some(t) => nested_from(l.text@, t),
                    None => l.text@.len() == 1 && (l.text@[0] matches Inline::Text(t) && t@
                        == chars@.subrange(start as int, e)),
                }
            } else {
                let te = url_trim_end(chars@, start + k, e);
                &&& p.1 == te - start
                &&& l.target@ == chars@.subrange(start as int, te)
                &&& l.bare
                &&& l.window is None
                &&& l.text@.len() == 1 && (l.text@[0] matches Inline::Text(t) && t@ == chars@.subrange(
                    start as int,
                    te,
                ))
            }
        }),
    decreases chars@.len(), 0int,
{
    proof {
        reveal_strlit("http://");
        reveal_strlit("https://");
        reveal_strlit("irc://");
    }
    let scheme_len: usize = if starts_with_str_at(chars, start, "http://") {
        7
    } else if starts_with_str_at(chars, start, "https://") {
        8
    } else if starts_with_str_at(chars, start, "irc://") {
        6
    } else {
        return None;
    };
    let len = chars.len();
    if start + scheme_len > len {
        return None;
    }
    assert(scheme_len == url_scheme_len(chars@, start as int));
    let mut end = scan_macro_target(chars, start + scheme_len);
    let ghost url_end = end;
    if end == start + scheme_len {
        return None;
    }
    let mut bare = true;
    let mut target_end = end;
    let text: Vec<Inline>;
    let mut window: Option<Vec<char>> = None;
    if end < len && chars[end] == '[' {
        let (text_start, text_end, consumed) = match parse_bracket_text(chars, end) {
            Some(t) => t,
            None => return None,
        };
        let attrs = parse_link_attrs(&cut(chars, text_start, text_end));
        bare = attrs.text.is_none();
        text = match &attrs.text {
            None => one_text(&cut(chars, start, target_end)),
            Some(t) => {
                if t.len() < len {
                    nested_inlines(t, base)
                } else {
                    one_text(t)
                }
            },
        };
        window = attrs.window;
        end = consumed;
    } else {
        while end > start + scheme_len && is_trailing_url_punct(chars[end - 1])
            invariant
                start + scheme_len <= end <= len,
                len == chars@.len(),
                url_trim_end(chars@, start + scheme_len, url_end as int) == url_trim_end(
                    chars@,
                    start + scheme_len,
                    end as int,
                ),
            decreases end,
        {
            end -= 1;
        }
        target_end = end;
        text = one_text(&cut(chars, start, end));
    }
    let target = cut(chars, start, target_end);
    Some(
        (
            SpannedInline {
                inline: Inline::Link(
                    InlineLink { target: to_string(&target), text, bare, window: opt_string(window) },
                ),
                start: base + start,
                end: base + end,
            },
            end - start,
        ),
    )
}

/// A `footnote:[text]` macro stands at `start` and a `]` closes it.
pub open spec fn footnote_at(s: Seq<char>, start: int) -> bool {
    crate::text::starts_at(s, start, "footnote:["@) && crate::text::next_pos(
        s,
        start + 10,
        ']',
    ) >= 0
}

fn parse_footnote(chars: &[char], start: usize, base: usize) -> (r: Option<(SpannedInline, usize)>)
    requires
        start < chars@.len(),
        base + chars@.len() <= usize::MAX,
    ensures
        r matches Some(p) ==> !(p.0.inline is Span),
        r matches Some(p) ==> !(p.0.inline is Text),
        parsed_at(r, chars@.len() as int, start as int, base as int),
        r is Some ==> crate::text::starts_at(chars@, start as int, "footnote:["@),
        r is Some <==> footnote_at(chars@, start as int),
        r matches Some(p) ==> ({
            let close = crate::text::next_pos(chars@, start + 10, ']');
            &&& p.1 == close + 1 - start
            &&& p.0.inline matches Inline::Footnote(f) && nested_from(
                f.inlines@,
                chars@.subrange(start + 10, close),
            )
        }),
    decreases chars@.len(), 0int,
{
    proof {
        reveal_strlit("footnote:[");
    }
    if !starts_with_str_at(chars, start, "footnote:[") {
        return None;
    }
    assert(chars@.subrange(start as int, start + 10)[9] == chars@[start + 9]);
    let (text_start, text_end, consumed) = match parse_bracket_text(chars, start + 9) {
        Some(t) => t,
        None => return None,
    };
    let inlines = nested_inlines(&cut(chars, text_start, text_end), base + text_start);
    Some(
        (
            SpannedInline {
                inline: Inline::Footnote(InlineFootnote { inlines }),
                start: base + start,
                end: base + consumed,
            },
            consumed - start,
        ),
    )
}

/// A character of an alt text taken from a file name: `-` and `_` read as spaces.
pub open spec fn alt_char(c: char) -> char {
    if c == '-' || c == '_' {
        ' '
    } else {
        c
    }
}

/// The file name of `target` (after the last `/` or `\`) without its extension,
/// with `-` and `_` read as spaces.
pub open spec fn auto_alt_spec(target: Seq<char>) -> Seq<char> {
    let stem = crate::text::before_last(
        crate::text::after_last(crate::text::after_last(target, '/'), '\\'),
        '.',
    );
    Seq::new(stem.len(), |k: int| alt_char(stem[k]))
}

/// The alt text derived from an image target: the file name without its
/// extension, with `-` and `_` read as spaces.
pub fn auto_generate_alt(target: &[char]) -> (r: Vec<char>)
    ensures
        r@ == auto_alt_spec(target@),
{
    let after_slash = match rfind_char(target, '/') {
        Some(i) => cut(target, i + 1, target.len()),
        None => cut(target, 0, target.len()),
    };
    let filename = match rfind_char(&after_slash, '\\') {
        Some(i) => cut(&after_slash, i + 1, after_slash.len()),
        None => cut(&after_slash, 0, after_slash.len()),
    };
    let stem = match rfind_char(&filename, '.') {
        Some(i) => cut(&filename, 0, i),
        None => cut(&filename, 0, filename.len()),
    };
    let a = replace_char(&stem, '-', ' ');
    let r = replace_char(&a, '_', ' ');
    assert(r@ =~= auto_alt_spec(target@));
    r
}

/// The positional attributes among `parts`: those without `=`, trimmed.
pub open spec fn positional_parts(parts: Seq<Seq<char>>) -> Seq<Seq<char>>
    decreases parts.len(),
{
    if parts.len() == 0 {
        Seq::empty()
    } else {
        let t = positional_parts(parts.drop_last());
        let p = crate::text::trim_spec(parts.last());
        if p.contains('=') {
            t
        } else {
            t.push(p)
        }
    }
}

/// The positional attribute at `k` when it is given and not empty.
pub open spec fn nonempty_at(pos: Seq<Seq<char>>, k: int) -> Option<Seq<char>> {
    if pos.len() > k && pos[k].len() > 0 {
        Some(pos[k])
    } else {
        None
    }
}

/// The positional attributes of an inline image's attribute text.
pub open spec fn inline_image_positional(attr_text: Seq<char>) -> Seq<Seq<char>> {
    if attr_text.len() == 0 {
        Seq::empty()
    } else {
        positional_parts(crate::text::split_spec(attr_text, ','))
    }
}

/// The alt text of an inline image: its first positional attribute, or else the
/// text made from its target.
pub open spec fn inline_image_alt(attr_text: Seq<char>, target: Seq<char>) -> Seq<char> {
    match nonempty_at(inline_image_positional(attr_text), 0) {
        Some(a) => a,
        None => auto_alt_spec(target),
    }
}

fn parse_inline_image_attributes(attr_text: &[char], target: &[char]) -> (r: (
    String,
    Option<String>,
    Option<String>,
))
    ensures
        ({
            let pos = if attr_text@.len() == 0 {
                Seq::empty()
            } else {
                positional_parts(crate::text::split_spec(attr_text@, ','))
            };
            &&& r.0@ == match nonempty_at(pos, 0) {
                Some(a) => a,
                None => auto_alt_spec(target@),
            }
            &&& crate::text::opt_view(r.1) == nonempty_at(pos, 1)
            &&& crate::text::opt_view(r.2) == nonempty_at(pos, 2)
        }),
        r.0@ == inline_image_alt(attr_text@, target@),
{
    let mut positional: Vec<Vec<char>> = Vec::new();
    if attr_text.len() > 0 {
        let parts = split_char(attr_text, ',');
        let mut i: usize = 0;
        while i < parts.len()
            invariant
                i <= parts@.len(),
                crate::text::views(positional@) == positional_parts(crate::text::views(parts@.subrange(0, i as int))),
            decreases parts.len() - i,
        {
            assert(crate::text::views(parts@.subrange(0, i + 1)).drop_last() =~= crate::text::views(
                parts@.subrange(0, i as int),
            ));
            assert(crate::text::views(parts@.subrange(0, i + 1)).last() == parts@[i as int]@);
            let ghost p0 = positional@;
            let part = trim(&parts[i]);
            if !contains_char(&part, '=') {
                positional.push(part);
                assert(crate::text::views(positional@) =~= crate::text::views(p0).push(part@));
            }
            i += 1;
        }
        assert(parts@.subrange(0, parts@.len() as int) =~= parts@);
    }
    assert(attr_text@.len() == 0 ==> crate::text::views(positional@) =~= Seq::<Seq<char>>::empty());
    let alt = if positional.len() > 0 && positional[0].len() > 0 {
        to_string(&positional[0])
    } else {
        to_string(&auto_generate_alt(target))
    };
    let width = if positional.len() > 1 && positional[1].len() > 0 {
        Some(to_string(&positional[1]))
    } else {
        None
    };
    let height = if positional.len() > 2 && positional[2].len() > 0 {
        Some(to_string(&positional[2]))
    } else {
        None
    };
    (alt, width, height)
}

/// Where the bracket group that is `depth` levels deep at `i` closes: the index
/// after its `]`, nested `[...]` groups counted; -1 when it never closes.
pub open spec fn balanced_close(s: Seq<char>, i: int, depth: nat) -> int
    decreases s.len() - i,
{
    if depth == 0 {
        i
    } else if i < 0 || i >= s.len() {
        -1
    } else if s[i] == '[' {
        balanced_close(s, i + 1, depth + 1)
    } else if s[i] == ']' {
        balanced_close(s, i + 1, (depth - 1) as nat)
    } else {
        balanced_close(s, i + 1, depth)
    }
}

/// The parts of an inline `image:target[attrs]` at `start` (not a block
/// `image::`): the trimmed target before the first `[`, not empty, where that
/// `[` stands, and the index after the `]` that balances it.
pub open spec fn inline_image_parts(s: Seq<char>, start: int) -> Option<(Seq<char>, int, int)> {
    let bs = crate::text::next_pos(s, start + 6, '[');
    let target = crate::text::trim_spec(s.subrange(start + 6, bs));
    let e = balanced_close(s, bs + 1, 1);
    if s.len() - start <= 6 || !crate::text::starts_at(s, start, "image:"@) || s[start + 6] == ':'
        || bs < 0 || target.len() == 0 || e < 0 {
        None
    } else {
        Some((target, bs, e))
    }
}

fn parse_inline_image(chars: &[char], start: usize, base: usize) -> (r: Option<(SpannedInline, usize)>)
    requires
        start < chars@.len(),
        base + chars@.len() <= usize::MAX,
    ensures
        r matches Some(p) ==> !(p.0.inline is Span),
        r matches Some(p) ==> !(p.0.inline is Text),
        parsed_at(r, chars@.len() as int, start as int, base as int),
        r is Some ==> crate::text::starts_at(chars@, start as int, "image:"@),
        r is Some <==> inline_image_parts(chars@, start as int) is Some,
        r matches Some(p) ==> ({
            let ip = inline_image_parts(chars@, start as int)->0;
            let attr_text = chars@.subrange(ip.1 + 1, ip.2 - 1);
            &&& p.1 == ip.2 - start
            &&& p.0.inline matches Inline::Image(img) && img.target@ == ip.0 && img.alt@ == inline_image_alt(
                attr_text,
                ip.0,
            ) && crate::text::opt_view(img.width) == nonempty_at(inline_image_positional(attr_text), 1)
                && crate::text::opt_view(img.height) == nonempty_at(inline_image_positional(attr_text), 2)
        }),
{
    proof {
        reveal_strlit("image:");
    }
    let len = chars.len();
    if len - start <= 6 {
        return None;
    }
    if !starts_with_str_at(chars, start, "image:") {
        return None;
    }
    if chars[start + 6] == ':' {
        return None;
    }
    let target_start = start + 6;
    let bracket_start = match crate::text::find_char_from(chars, target_start, '[') {
        Some(i) => i,
        None => return None,
    };
    let target = trim(&cut(chars, target_start, bracket_start));
    if target.len() == 0 {
        return None;
    }
    let mut i = bracket_start + 1;
    let mut depth: usize = 1;
    while i < len && depth > 0
        invariant
            len == chars@.len(),
            base + len <= usize::MAX,
            start < len,
            bracket_start < len,
            bracket_start + 1 <= i <= len,
            depth <= i - bracket_start,
            depth == 0 ==> i > bracket_start + 1,
            balanced_close(chars@, bracket_start + 1, 1) == balanced_close(chars@, i as int, depth as nat),
        decreases len - i,
    {
        if chars[i] == '[' {
            depth += 1;
        } else if chars[i] == ']' {
            depth -= 1;
        }
        i += 1;
    }
    if depth != 0 {
        return None;
    }
    let attr_text = cut(chars, bracket_start + 1, i - 1);
    let (alt, width, height) = parse_inline_image_attributes(&attr_text, &target);
    Some(
        (
            SpannedInline {
                inline: Inline::Image(InlineImage { target: to_string(&target), alt, width, height }),
                start: base + start,
                end: base + i,
            },
            i - start,
        ),
    )
}

/// The inlines of spanned inlines, in order.
fn strip_spans(v: Vec<SpannedInline>) -> (r: Vec<Inline>)
    ensures
        r@.len() == v@.len(),
        forall|k: int| 0 <= k < v@.len() ==> r@[k] == (#[trigger] v@[k]).inline,
{
    let ghost orig = v@;
    let ghost n = v@.len();
    let mut v = v;
    let mut rev: Vec<Inline> = Vec::new();
    while v.len() > 0
        invariant
            n == orig.len(),
            rev@.len() + v@.len() == n,
            v@ == orig.subrange(0, v@.len() as int),
            forall|k: int| 0 <= k < rev@.len() ==> rev@[k] == (#[trigger] orig[n - 1 - k]).inline,
        decreases v.len(),
    {
        let ghost before = v@;
        match v.pop() {
            Some(s) => {
                assert(s == orig[n - 1 - rev@.len()]);
                rev.push(s.inline);
            },
            None => {},
        }
        assert(v@ =~= orig.subrange(0, v@.len() as int));
    }
    let mut r: Vec<Inline> = Vec::new();
    while rev.len() > 0
        invariant
            n == orig.len(),
            r@.len() + rev@.len() == n,
            forall|k: int| 0 <= k < rev@.len() ==> rev@[k] == (#[trigger] orig[n - 1 - k]).inline,
            forall|k: int| 0 <= k < r@.len() ==> r@[k] == (#[trigger] orig[k]).inline,
        decreases rev.len(),
    {
        let ghost before = rev@;
        match rev.pop() {
            Some(x) => {
                assert(x == orig[n - 1 - (before.len() - 1)].inline);
                r.push(x);
            },
            None => {},
        }
    }
    r
}

} // verus!
