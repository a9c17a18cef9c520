//! Line-level recognisers shared by the block parser: block attribute lists,
//! titles, anchors, delimiters, list markers and admonition prefixes.
use vstd::prelude::*;
use crate::ast::{AdmonitionVariant, BlockMetadata};
use crate::attrs::AttributeMap;
use crate::inline::is_valid_anchor_id;
use crate::inline::trim_matches_char;
use crate::text::{
    all_equal, append, append_str, char_from_ascii, chars_eq, count_leading, cut, eq_ignore_ascii_case,
    eq_str, find_char, is_ascii_digit, is_blank, is_whitespace, lit, parse_usize, split_char,
    starts_with_str, string_chars, strip_prefix_str, strip_suffix_str, to_chars, to_string, trim,
    trim_end, trim_start, usize_to_chars, copy_opt, copy_strings, is_ws, trim_spec, trim_start_spec,
};

verus! {

/// The kinds of delimited block a delimiter line can open.
#[derive(Debug, Clone, Copy, PartialEq, Eq, Structural)]
pub enum BlockKind {
    Open,
    Listing,
    Example,
    Sidebar,
    Passthrough,
    Quote,
    Literal,
    Comment,
}

/// An anchor line (`[[id,reftext]]` or `[#id]`) waiting for the block it names.
pub struct PendingAnchor {
    pub id: Vec<char>,
    pub reftext: Option<Vec<char>>,
}

/// Block metadata lines (title, attribute lists) and how many lines they took.
pub struct BlockPrelude {
    pub metadata: BlockMetadata,
    pub consumed_lines: usize,
}

impl BlockMetadata {
    /// A field-by-field copy.
    pub fn copy(&self) -> (r: Self)
        ensures
            r.attributes@ == self.attributes@,
            r.id == self.id || (r.id is Some && self.id is Some && r.id->0@ == self.id->0@),
            crate::parser::style_view(r.style) == crate::parser::style_view(self.style),
    {
        BlockMetadata {
            id: copy_opt(&self.id),
            title: copy_opt(&self.title),
            style: copy_opt(&self.style),
            role: copy_opt(&self.role),
            attributes: self.attributes.clone(),
            options: copy_strings(&self.options),
            roles: copy_strings(&self.roles),
        }
    }
}

impl BlockPrelude {
    pub fn copy(&self) -> (r: Self)
        ensures
            r.consumed_lines == self.consumed_lines,
            crate::parser::style_view(r.metadata.style) == crate::parser::style_view(self.metadata.style),
    {
        BlockPrelude { metadata: self.metadata.copy(), consumed_lines: self.consumed_lines }
    }
}

/// Whether the string `s` equals the literal `t`.
pub fn string_is(s: &String, t: &str) -> (r: bool)
    ensures
        r == (s@ == t@),
{
    let cs = string_chars(s);
    eq_str(&cs, t)
}

/// Whether an optional string is present and equals the literal `t`.
pub fn opt_is(s: &Option<String>, t: &str) -> (r: bool)
    ensures
        r == (s is Some && s->0@ == t@),
{
    match s {
        Some(v) => string_is(v, t),
        None => false,
    }
}

/// Whether `v` holds a string equal to `t`.
pub fn contains_string(v: &Vec<String>, t: &[char]) -> (r: bool)
    ensures
        r == exists|k: int| 0 <= k < v@.len() && (#[trigger] v@[k])@ == t@,
{
    let mut i: usize = 0;
    while i < v.len()
        invariant
            i <= v@.len(),
            forall|k: int| 0 <= k < i ==> (#[trigger] v@[k])@ != t@,
        decreases v.len() - i,
    {
        let c = string_chars(&v[i]);
        if chars_eq(&c, t) {
            return true;
        }
        i += 1;
    }
    false
}

pub open spec fn style_variant(style: Seq<char>) -> Option<AdmonitionVariant> {
    if crate::text::eq_ignore_case_spec(style, "NOTE"@) {
        Some(AdmonitionVariant::Note)
    } else if crate::text::eq_ignore_case_spec(style, "TIP"@) {
        Some(AdmonitionVariant::Tip)
    } else if crate::text::eq_ignore_case_spec(style, "IMPORTANT"@) {
        Some(AdmonitionVariant::Important)
    } else if crate::text::eq_ignore_case_spec(style, "CAUTION"@) {
        Some(AdmonitionVariant::Caution)
    } else if crate::text::eq_ignore_case_spec(style, "WARNING"@) {
        Some(AdmonitionVariant::Warning)
    } else {
        None
    }
}

/// The admonition a block style names, compared ASCII case-insensitively.
pub fn admonition_variant_from_style(style: &[char]) -> (r: Option<AdmonitionVariant>)
    ensures
        r == style_variant(style@),
{
    if eq_ignore_ascii_case(style, "NOTE") {
        Some(AdmonitionVariant::Note)
    } else if eq_ignore_ascii_case(style, "TIP") {
        Some(AdmonitionVariant::Tip)
    } else if eq_ignore_ascii_case(style, "IMPORTANT") {
        Some(AdmonitionVariant::Important)
    } else if eq_ignore_ascii_case(style, "CAUTION") {
        Some(AdmonitionVariant::Caution)
    } else if eq_ignore_ascii_case(style, "WARNING") {
        Some(AdmonitionVariant::Warning)
    } else {
        None
    }
}

/// The admonition variant named by a metadata style, if any.
pub fn style_admonition(metadata: &BlockMetadata) -> (r: Option<AdmonitionVariant>)
    ensures
        metadata.style is None ==> r is None,
        metadata.style matches Some(s) ==> r == style_variant(s@),
{
    match &metadata.style {
        Some(s) => {
            let c = string_chars(s);
            admonition_variant_from_style(&c)
        },
        None => None,
    }
}

/// The trimmed text after `prefix` at the start of `t`, when whitespace follows the
/// prefix and the text is not empty.
pub open spec fn after_prefix_spec(t: Seq<char>, prefix: Seq<char>) -> Option<Seq<char>> {
    let rem = t.subrange(prefix.len() as int, t.len() as int);
    if crate::text::starts_at(t, 0, prefix) && rem.len() > 0 && is_ws(rem[0]) && trim_spec(rem).len() > 0 {
        Some(trim_spec(rem))
    } else {
        None
    }
}

/// The admonition a line starts with (`NOTE:`, `TIP:`, `IMPORTANT:`, `CAUTION:`
/// or `WARNING:` after leading whitespace, then whitespace), and its text.
pub open spec fn admonition_prefix_spec(line: Seq<char>) -> Option<(AdmonitionVariant, Seq<char>)> {
    let t = trim_start_spec(line);
    if after_prefix_spec(t, "NOTE:"@) is Some {
        Some((AdmonitionVariant::Note, after_prefix_spec(t, "NOTE:"@)->0))
    } else if after_prefix_spec(t, "TIP:"@) is Some {
        Some((AdmonitionVariant::Tip, after_prefix_spec(t, "TIP:"@)->0))
    } else if after_prefix_spec(t, "IMPORTANT:"@) is Some {
        Some((AdmonitionVariant::Important, after_prefix_spec(t, "IMPORTANT:"@)->0))
    } else if after_prefix_spec(t, "CAUTION:"@) is Some {
        Some((AdmonitionVariant::Caution, after_prefix_spec(t, "CAUTION:"@)->0))
    } else if after_prefix_spec(t, "WARNING:"@) is Some {
        Some((AdmonitionVariant::Warning, after_prefix_spec(t, "WARNING:"@)->0))
    } else {
        None
    }
}

/// `NOTE: text` and the like: the variant and the trimmed text after the prefix.
pub fn parse_admonition_prefix(line: &[char]) -> (r: Option<(AdmonitionVariant, Vec<char>)>)
    ensures
        r matches Some(p) ==> p.1@.len() > 0,
        r is Some <==> admonition_prefix_spec(line@) is Some,
        r matches Some(p) ==> admonition_prefix_spec(line@) == Some((p.0, p.1@)),
{
    let trimmed = trim_start(line);
    let r = try_admonition_prefix(&trimmed, "NOTE:", AdmonitionVariant::Note);
    if r.is_some() {
        return r;
    }
    let r = try_admonition_prefix(&trimmed, "TIP:", AdmonitionVariant::Tip);
    if r.is_some() {
        return r;
    }
    let r = try_admonition_prefix(&trimmed, "IMPORTANT:", AdmonitionVariant::Important);
    if r.is_some() {
        return r;
    }
    let r = try_admonition_prefix(&trimmed, "CAUTION:", AdmonitionVariant::Caution);
    if r.is_some() {
        return r;
    }
    try_admonition_prefix(&trimmed, "WARNING:", AdmonitionVariant::Warning)
}

fn try_admonition_prefix(trimmed: &[char], prefix: &str, variant: AdmonitionVariant) -> (r: Option<
    (AdmonitionVariant, Vec<char>),
>)
    ensures
        r matches Some(p) ==> p.1@.len() > 0 && p.0 == variant,
        r is Some <==> after_prefix_spec(trimmed@, prefix@) is Some,
        r matches Some(p) ==> after_prefix_spec(trimmed@, prefix@) == Some(p.1@),
{
    match strip_prefix_str(trimmed, prefix) {
        Some(rem) => {
            if rem.len() == 0 || !is_whitespace(rem[0]) {
                return None;
            }
            let content = trim(&rem);
            if content.len() == 0 {
                return None;
            }
            Some((variant, content))
        },
        None => None,
    }
}

/// The line opens a fenced code block: three backquotes, not four.
pub open spec fn fence_opening(line: Seq<char>) -> bool {
    let t = trim_spec(line);
    crate::text::starts_at(t, 0, "```"@) && !(t.len() > 3 && t[3] == '`')
}

/// The block kind a delimiter made of repeated `c` opens.
pub open spec fn delimiter_kind(c: char) -> Option<BlockKind> {
    if c == '-' {
        Some(BlockKind::Listing)
    } else if c == '=' {
        Some(BlockKind::Example)
    } else if c == '*' {
        Some(BlockKind::Sidebar)
    } else if c == '+' {
        Some(BlockKind::Passthrough)
    } else if c == '_' {
        Some(BlockKind::Quote)
    } else if c == '.' {
        Some(BlockKind::Literal)
    } else if c == '/' {
        Some(BlockKind::Comment)
    } else {
        None
    }
}

/// The delimiter that closes the block a line opens, and the block's kind: `--`
/// (open), a fence (listing, closed by three backquotes), or four or more of one
/// delimiter character.
pub open spec fn delimiter_spec(line: Seq<char>) -> Option<(Seq<char>, BlockKind)> {
    let t = trim_spec(line);
    if t == "--"@ {
        Some((t, BlockKind::Open))
    } else if fence_opening(line) {
        Some(("```"@, BlockKind::Listing))
    } else if t.len() >= 4 && (forall|k: int| 0 <= k < t.len() ==> #[trigger] t[k] == t[0]) && delimiter_kind(t[0]) is Some {
        Some((t, delimiter_kind(t[0])->0))
    } else {
        None
    }
}

/// A fenced code opening line (```` ``` ```` plus optional attributes): the attribute entries.
/// The attribute entries after a fence: none when only whitespace follows it.
pub open spec fn fence_attributes_spec(line: Seq<char>) -> Seq<Seq<char>> {
    let t = trim_spec(line);
    let attrs = trim_spec(t.subrange(3, t.len() as int));
    if attrs.len() == 0 {
        Seq::empty()
    } else {
        split_attribute_list_spec(attrs)
    }
}

pub fn parse_fenced_code_opening(line: &[char]) -> (r: Option<Vec<Vec<char>>>)
    ensures
        r is Some <==> fence_opening(line@),
        r matches Some(v) ==> crate::text::views(v@) == fence_attributes_spec(line@),
{
    let trimmed = trim(line);
    proof {
        reveal_strlit("```");
    }
    let rest = match strip_prefix_str(&trimmed, "```") {
        Some(r) => r,
        None => return None,
    };
    if rest.len() > 0 && rest[0] == '`' {
        assert(trimmed@[3] == rest@[0]);
        return None;
    }
    let attrs = trim(&rest);
    if attrs.len() == 0 {
        Some(Vec::new())
    } else {
        Some(split_attribute_list(&attrs))
    }
}

/// A delimiter line: the delimiter to close with and the kind of block it opens.
pub fn parse_delimited_block_marker(line: &[char]) -> (r: Option<(Vec<char>, BlockKind)>)
    ensures
        r matches Some(p) ==> p.0@.len() > 0 && delimiter_spec(line@) == Some((p.0@, p.1)),
        r is None <==> delimiter_spec(line@) is None,
{
    proof {
        reveal_strlit("--");
        reveal_strlit("```");
    }
    let trimmed = trim(line);
    if eq_str(&trimmed, "--") {
        proof {
            reveal_strlit("--");
        }
        return Some((trimmed, BlockKind::Open));
    }
    if parse_fenced_code_opening(line).is_some() {
        let d = to_chars("```");
        proof {
            reveal_strlit("```");
        }
        return Some((d, BlockKind::Listing));
    }
    if trimmed.len() < 4 {
        return None;
    }
    let first = trimmed[0];
    if !all_equal(&trimmed, first) {
        assert(!(forall|k: int| 0 <= k < trimmed@.len() ==> #[trigger] trimmed@[k] == trimmed@[0]));
        return None;
    }
    let kind = if first == '-' {
        BlockKind::Listing
    } else if first == '=' {
        BlockKind::Example
    } else if first == '*' {
        BlockKind::Sidebar
    } else if first == '+' {
        BlockKind::Passthrough
    } else if first == '_' {
        BlockKind::Quote
    } else if first == '.' {
        BlockKind::Literal
    } else if first == '/' {
        BlockKind::Comment
    } else {
        return None;
    };
    Some((trimmed, kind))
}

pub fn is_delimited_block_delimiter(line: &[char]) -> (r: bool)
    ensures
        r == (delimiter_spec(line@) is Some),
{
    parse_delimited_block_marker(line).is_some()
}

/// A `//` comment line that is not itself a comment-block delimiter.
pub fn is_comment_line(line: &[char]) -> (r: bool)
    ensures
        r == (crate::text::starts_at(trim_start_spec(line@), 0, "//"@) && delimiter_spec(line@) is None),
{
    let t = trim_start(line);
    starts_with_str(&t, "//") && parse_delimited_block_marker(line).is_none()
}

/// List kinds.
#[derive(Debug, Clone, Copy, PartialEq, Eq, Structural)]
pub enum ListKind {
    Unordered,
    Ordered,
}

/// A list item marker: its kind, nesting level and the item text.
pub struct ParsedListMarker {
    pub kind: ListKind,
    pub level: usize,
    pub content: Vec<char>,
}

/// The length of the run of `c` that `s` starts with.
pub open spec fn run_len(s: Seq<char>, c: char) -> nat
    decreases s.len(),
{
    if s.len() > 0 && s[0] == c {
        1 + run_len(s.drop_first(), c)
    } else {
        0
    }
}

/// The length of the run of ASCII digits that `s` starts with.
pub open spec fn digit_run(s: Seq<char>) -> nat
    decreases s.len(),
{
    if s.len() > 0 && crate::text::is_ascii_digit_spec(s[0]) {
        1 + digit_run(s.drop_first())
    } else {
        0
    }
}

/// A run measured from the front is the first `n` characters, all `c`, with no
/// `c` right after them.
pub proof fn lemma_run_len(s: Seq<char>, c: char, n: int)
    requires
        0 <= n <= s.len(),
        forall|k: int| 0 <= k < n ==> s[k] == c,
        n < s.len() ==> s[n] != c,
    ensures
        run_len(s, c) == n,
    decreases s.len(),
{
    if n > 0 {
        assert forall|k: int| 0 <= k < n - 1 implies s.drop_first()[k] == c by {
            assert(s[k + 1] == c);
        }
        lemma_run_len(s.drop_first(), c, n - 1);
    }
}

/// The digit run of `s` is its first `n` characters when exactly those are digits.
proof fn lemma_digit_run(s: Seq<char>, n: int)
    requires
        0 <= n <= s.len(),
        forall|k: int| 0 <= k < n ==> crate::text::is_ascii_digit_spec(s[k]),
        n < s.len() ==> !crate::text::is_ascii_digit_spec(s[n]),
    ensures
        digit_run(s) == n,
    decreases s.len(),
{
    if n > 0 {
        assert forall|k: int| 0 <= k < n - 1 implies crate::text::is_ascii_digit_spec(
            s.drop_first()[k],
        ) by {
            assert(crate::text::is_ascii_digit_spec(s[k + 1]));
        }
        lemma_digit_run(s.drop_first(), n - 1);
    }
}

/// The item text after a list marker: whitespace must follow the marker, and the
/// trimmed rest must not be empty.
pub open spec fn list_content_spec(rem: Seq<char>) -> Option<Seq<char>> {
    if rem.len() > 0 && is_ws(rem[0]) && trim_spec(rem).len() > 0 {
        Some(trim_spec(rem))
    } else {
        None
    }
}

/// The marker a line opens with, after leading whitespace: a run of `*` or `-`
/// (unordered, its length the level), a run of `.` (ordered, its length the
/// level), or digits and a `.` (ordered, level one); each followed by the item
/// text.
pub open spec fn list_marker_spec(line: Seq<char>) -> Option<(ListKind, nat, Seq<char>)> {
    let t = trim_start_spec(line);
    if t.len() == 0 {
        None
    } else if t[0] == '*' || t[0] == '-' || t[0] == '.' {
        let n = run_len(t, t[0]);
        let kind = if t[0] == '.' {
            ListKind::Ordered
        } else {
            ListKind::Unordered
        };
        match list_content_spec(t.subrange(n as int, t.len() as int)) {
            Some(c) => Some((kind, n, c)),
            None => None,
        }
    } else if crate::text::is_ascii_digit_spec(t[0]) {
        let d = digit_run(t);
        if d < t.len() && t[d as int] == '.' {
            match list_content_spec(t.subrange(d as int + 1, t.len() as int)) {
                Some(c) => Some((ListKind::Ordered, 1nat, c)),
                None => None,
            }
        } else {
            None
        }
    } else {
        None
    }
}

/// The text after a list marker: it must start with whitespace and not be blank.
fn parse_list_content(remainder: &[char]) -> (r: Option<Vec<char>>)
    ensures
        r matches Some(c) ==> c@ == trim_spec(remainder@) && c@.len() > 0,
        r is Some <==> (remainder@.len() > 0 && is_ws(remainder@[0]) && trim_spec(remainder@).len() > 0),
{
    if remainder.len() == 0 || !is_whitespace(remainder[0]) {
        return None;
    }
    let content = trim(remainder);
    if content.len() == 0 {
        return None;
    }
    Some(content)
}

/// Recognises `* item`, `** item`, `- item`, `. item`, `1. item`.
pub fn parse_list_marker(line: &[char]) -> (r: Option<ParsedListMarker>)
    ensures
        r matches Some(m) ==> m.level >= 1 && m.content@.len() > 0,
        r is None <==> list_marker_spec(line@) is None,
        r matches Some(m) ==> list_marker_spec(line@) == Some((m.kind, m.level as nat, m.content@)),
{
    let trimmed = trim_start(line);
    if trimmed.len() == 0 {
        return None;
    }
    let first = trimmed[0];
    if first == '*' || first == '-' {
        let level = count_leading(&trimmed, first);
        proof {
            lemma_run_len(trimmed@, first, level as int);
        }
        let rem = cut(&trimmed, level, trimmed.len());
        match parse_list_content(&rem) {
            Some(content) => Some(ParsedListMarker { kind: ListKind::Unordered, level, content }),
            None => None,
        }
    } else if first == '.' {
        let level = count_leading(&trimmed, '.');
        proof {
            lemma_run_len(trimmed@, '.', level as int);
        }
        let rem = cut(&trimmed, level, trimmed.len());
        match parse_list_content(&rem) {
            Some(content) => Some(ParsedListMarker { kind: ListKind::Ordered, level, content }),
            None => None,
        }
    } else if is_ascii_digit(first) {
        let mut digits: usize = 0;
        while digits < trimmed.len() && is_ascii_digit(trimmed[digits])
            invariant
                digits <= trimmed@.len(),
                forall|k: int| 0 <= k < digits ==> crate::text::is_ascii_digit_spec(trimmed@[k]),
            decreases trimmed.len() - digits,
        {
            digits += 1;
        }
        proof {
            lemma_digit_run(trimmed@, digits as int);
        }
        if digits >= trimmed.len() || trimmed[digits] != '.' {
            return None;
        }
        let rem = cut(&trimmed, digits + 1, trimmed.len());
        match parse_list_content(&rem) {
            Some(content) => Some(ParsedListMarker { kind: ListKind::Ordered, level: 1, content }),
            None => None,
        }
    } else {
        None
    }
}

/// The title a `.Title` line gives: the line starts with `.`, is neither a list
/// item nor a delimiter, and what follows the dot, trimmed at its end, is not
/// empty.
pub open spec fn block_title_spec(line: Seq<char>) -> Option<Seq<char>> {
    if list_marker_spec(line) is Some || delimiter_spec(line) is Some || line.len() == 0
        || line[0] != '.' {
        None
    } else {
        let t = crate::text::trim_end_spec(line.subrange(1, line.len() as int));
        if t.len() == 0 {
            None
        } else {
            Some(t)
        }
    }
}

/// `.Title` lines (that are not list items or delimiters).
pub fn parse_block_title(line: &[char]) -> (r: Option<Vec<char>>)
    ensures
        r matches Some(t) ==> t@.len() > 0,
        r is None <==> block_title_spec(line@) is None,
        r matches Some(t) ==> block_title_spec(line@) == Some(t@),
{
    if parse_list_marker(line).is_some() {
        return None;
    }
    if is_delimited_block_delimiter(line) {
        return None;
    }
    if line.len() == 0 || line[0] != '.' {
        return None;
    }
    let title = trim_end(&cut(line, 1, line.len()));
    if title.len() == 0 {
        None
    } else {
        Some(title)
    }
}

/// What stands between the brackets of a `[...]` line, once trimmed.
pub open spec fn attribute_list_inner(line: Seq<char>) -> Option<Seq<char>> {
    let t = trim_spec(line);
    if t.len() >= 2 && t[0] == '[' && t.last() == ']' {
        Some(t.subrange(1, t.len() - 1))
    } else {
        None
    }
}

/// `[a,b,c]` lines: their comma-separated entries.
pub fn parse_attribute_list_line(line: &[char]) -> (r: Option<Vec<Vec<char>>>)
    ensures
        r is Some <==> ({
            let t = trim_spec(line@);
            t.len() >= 2 && t[0] == '[' && t.last() == ']'
        }),
        r is Some <==> attribute_list_inner(line@) is Some,
        r matches Some(v) ==> v@.len() >= 1,
        r matches Some(v) ==> crate::text::views(v@) == split_attribute_list_spec(
            attribute_list_inner(line@)->0,
        ),
{
    let trimmed = trim(line);
    if trimmed.len() < 2 || trimmed[0] != '[' || trimmed[trimmed.len() - 1] != ']' {
        return None;
    }
    let inner = cut(&trimmed, 1, trimmed.len() - 1);
    Some(split_attribute_list(&inner))
}

/// The state of the attribute-list split after reading `s`: the entries closed
/// so far (trimmed), the open entry, and the quote character that is open.
pub open spec fn attr_split_state(s: Seq<char>) -> (Seq<Seq<char>>, Seq<char>, Option<char>)
    decreases s.len(),
{
    if s.len() == 0 {
        (Seq::empty(), Seq::empty(), None)
    } else {
        let st = attr_split_state(s.drop_last());
        let ch = s.last();
        if (ch == '\'' || ch == '"') && st.2 == Some(ch) {
            (st.0, st.1.push(ch), None)
        } else if (ch == '\'' || ch == '"') && st.2 is None {
            (st.0, st.1.push(ch), Some(ch))
        } else if ch == ',' && st.2 is None {
            (st.0.push(trim_spec(st.1)), Seq::empty(), st.2)
        } else {
            (st.0, st.1.push(ch), st.2)
        }
    }
}

/// The entries of an attribute list: split at each comma outside single or
/// double quotes, each entry trimmed.
pub open spec fn split_attribute_list_spec(s: Seq<char>) -> Seq<Seq<char>> {
    let st = attr_split_state(s);
    st.0.push(trim_spec(st.1))
}

/// Splits at commas outside quotes; each entry is trimmed.
pub fn split_attribute_list(input: &[char]) -> (r: Vec<Vec<char>>)
    ensures
        r@.len() >= 1,
        crate::text::views(r@) == split_attribute_list_spec(input@),
{
    let mut values: Vec<Vec<char>> = Vec::new();
    let mut current: Vec<char> = Vec::new();
    let mut quote: Option<char> = None;
    let mut i: usize = 0;
    while i < input.len()
        invariant
            i <= input@.len(),
            crate::text::views(values@) == attr_split_state(input@.subrange(0, i as int)).0,
            current@ == attr_split_state(input@.subrange(0, i as int)).1,
            quote == attr_split_state(input@.subrange(0, i as int)).2,
        decreases input.len() - i,
    {
        let ch = input[i];
        assert(input@.subrange(0, i + 1).drop_last() == input@.subrange(0, i as int));
        if (ch == '\'' || ch == '"') && quote == Some(ch) {
            quote = None;
            current.push(ch);
        } else if (ch == '\'' || ch == '"') && quote.is_none() {
            quote = Some(ch);
            current.push(ch);
        } else if ch == ',' && quote.is_none() {
            values.push(trim(&current));
            current = Vec::new();
        } else {
            current.push(ch);
        }
        i += 1;
    }
    values.push(trim(&current));
    assert(input@.subrange(0, input@.len() as int) == input@);
    assert(crate::text::views(values@) == split_attribute_list_spec(input@));
    values
}

/// A value with its surrounding double or single quotes removed.
pub open spec fn unquote_spec(v: Seq<char>) -> Seq<char> {
    if v.len() >= 2 && ((v[0] == '"' && v.last() == '"') || (v[0] == '\'' && v.last() == '\'')) {
        v.subrange(1, v.len() - 1)
    } else {
        v
    }
}

/// The `(name, value)` of a `name=value` entry: split at the first `=`, the name
/// trimmed and non-empty, the value trimmed and unquoted.
pub open spec fn named_attribute_spec(entry: Seq<char>) -> Option<(Seq<char>, Seq<char>)> {
    let sep = crate::text::first_pos(entry, '=');
    if sep < 0 || trim_spec(entry.subrange(0, sep)).len() == 0 {
        None
    } else {
        Some(
            (
                trim_spec(entry.subrange(0, sep)),
                unquote_spec(trim_spec(entry.subrange(sep + 1, entry.len() as int))),
            ),
        )
    }
}

/// The `(style, id)` of a `style#id` entry: split at the first `#`, both parts
/// non-empty and the id a valid anchor id.
pub open spec fn style_id_shorthand_spec(entry: Seq<char>) -> Option<(Seq<char>, Seq<char>)> {
    let sep = crate::text::first_pos(entry, '#');
    let style = entry.subrange(0, sep);
    let id = entry.subrange(sep + 1, entry.len() as int);
    if sep < 0 || style.len() == 0 || id.len() == 0 || !crate::inline::valid_anchor_id_spec(id) {
        None
    } else {
        Some((style, id))
    }
}

/// `"v"` or `'v'` becomes `v`.
pub fn unquote_attribute_value(value: &[char]) -> (r: Vec<char>)
    ensures
        r@ == unquote_spec(value@),
{
    if value.len() >= 2 {
        let first = value[0];
        let last = value[value.len() - 1];
        if (first == '"' && last == '"') || (first == '\'' && last == '\'') {
            return cut(value, 1, value.len() - 1);
        }
    }
    cut(value, 0, value.len())
}

/// `name=value` entries.
pub fn parse_named_attribute(entry: &[char]) -> (r: Option<(Vec<char>, Vec<char>)>)
    ensures
        r matches Some(p) ==> p.0@.len() > 0,
        r is Some <==> named_attribute_spec(entry@) is Some,
        r matches Some(p) ==> named_attribute_spec(entry@) == Some((p.0@, p.1@)),
{
    let sep = match find_char(entry, '=') {
        Some(i) => i,
        None => return None,
    };
    let name = trim(&cut(entry, 0, sep));
    if name.len() == 0 {
        return None;
    }
    let value = unquote_attribute_value(&trim(&cut(entry, sep + 1, entry.len())));
    Some((name, value))
}

/// `style#id` entries.
fn parse_style_id_shorthand(entry: &[char]) -> (r: Option<(Vec<char>, Vec<char>)>)
    ensures
        r is Some <==> style_id_shorthand_spec(entry@) is Some,
        r matches Some(p) ==> style_id_shorthand_spec(entry@) == Some((p.0@, p.1@)),
{
    let sep = match find_char(entry, '#') {
        Some(i) => i,
        None => return None,
    };
    let style = cut(entry, 0, sep);
    let id = cut(entry, sep + 1, entry.len());
    if style.len() == 0 || id.len() == 0 || !is_valid_anchor_id(&id) {
        return None;
    }
    Some((style, id))
}

/// `$n`, the attribute name of the `n`-th positional attribute.
pub fn slot_name(slot: usize) -> (r: Vec<char>)
    ensures
        r@ == seq!['$'] + crate::text::decimal_spec(slot as nat),
{
    let mut r: Vec<char> = Vec::new();
    r.push('$');
    let d = usize_to_chars(slot);
    append(&mut r, &d);
    r
}

/// `name-option`.
pub fn option_attr_name(option: &[char]) -> (r: Vec<char>)
    ensures
        r@ == option@ + "-option"@,
{
    let mut r = crate::text::copy(option);
    append_str(&mut r, "-option");
    r
}

/// The number of a positional attribute name `$n`.
pub open spec fn positional_number(key: Seq<char>) -> Option<nat> {
    if key.len() > 0 && key[0] == '$' && crate::text::parses_unsigned(key.drop_first())
        && crate::text::digits_value(crate::text::unsigned_digits(key.drop_first())) <= usize::MAX {
        Some(crate::text::digits_value(crate::text::unsigned_digits(key.drop_first())))
    } else {
        None
    }
}

/// `r` is one past the largest positional number among the keys of `attrs` (1
/// when there is none), staying at the largest `usize`.
pub open spec fn is_next_slot(attrs: Map<Seq<char>, Seq<char>>, r: nat) -> bool {
    &&& 1 <= r <= usize::MAX
    &&& forall|k: Seq<char>|
        #[trigger] attrs.contains_key(k) && positional_number(k) is Some ==> positional_number(k)->0 < r || r
            == usize::MAX
    &&& r == 1 || r == usize::MAX || exists|k: Seq<char>|
        #[trigger] attrs.contains_key(k) && positional_number(k) == Some((r - 1) as nat)
    &&& r == usize::MAX ==> exists|k: Seq<char>|
        #[trigger] attrs.contains_key(k) && positional_number(k) is Some && positional_number(k)->0 + 1
            >= usize::MAX
}

/// One past the largest positional slot already in use.
fn next_attribute_slot(metadata: &BlockMetadata) -> (r: usize)
    ensures
        is_next_slot(metadata.attributes@, r as nat),
{
    proof {
        reveal_strlit("$");
    }
    let keys = metadata.attributes.keys();
    let mut max: usize = 0;
    let mut found = false;
    let mut i: usize = 0;
    while i < keys.len()
        invariant
            i <= keys@.len(),
            keys@.len() == metadata.attributes.len(),
            forall|j: int| 0 <= j < keys@.len() ==> metadata.attributes@.contains_key((#[trigger] keys@[j])@),
            forall|j: int|
                0 <= j < i && positional_number((#[trigger] keys@[j])@) is Some ==> positional_number(
                    keys@[j]@,
                )->0 <= max,
            found ==> exists|k: Seq<char>|
                #[trigger] metadata.attributes@.contains_key(k) && positional_number(k) == Some(max as nat),
            !found ==> max == 0,
        decreases keys.len() - i,
    {
        let k = string_chars(&keys[i]);
        match strip_prefix_str(&k, "$") {
            Some(digits) => {
                proof {
                    reveal_strlit("$");
                }
                assert("$"@ =~= seq!['$']);
                assert(k@.subrange(0, 1) =~= seq!['$']);
                assert(k@[0] == k@.subrange(0, 1)[0]);
                assert(digits@ =~= k@.drop_first());
                match parse_usize(&digits) {
                    Some(n) => {
                        assert(positional_number(keys@[i as int]@) == Some(n as nat));
                        if !found || n > max {
                            max = n;
                        }
                        found = true;
                    },
                    None => {},
                }
            },
            None => {
                proof {
                    reveal_strlit("$");
                    if k@.len() > 0 && k@[0] == '$' {
                        assert(k@.subrange(0, 1) =~= "$"@);
                    }
                }
            },
        }
        i += 1;
    }
    proof {
        assert forall|k: Seq<char>|
            #[trigger] metadata.attributes@.contains_key(k) && positional_number(k) is Some implies positional_number(
                k,
            )->0 <= max by {
            let j = choose|j: int| 0 <= j < keys@.len() && (#[trigger] keys@[j])@ == k;
        }
    }
    if !found {
        1
    } else if max == usize::MAX {
        max
    } else {
        max + 1
    }
}

/// The views of a sequence of strings.
pub open spec fn string_views(v: Seq<String>) -> Seq<Seq<char>> {
    v.map_values(|x: String| x@)
}

/// Adds an option (once) and its `name-option` attribute.
pub fn add_option(metadata: &mut BlockMetadata, option: &[char])
    ensures
        string_views(final(metadata).options@) == (if string_views(old(metadata).options@).contains(option@) {
            string_views(old(metadata).options@)
        } else {
            string_views(old(metadata).options@).push(option@)
        }),
        old(metadata).attributes@.contains_key(option@ + "-option"@) ==> final(metadata).attributes@ == old(
            metadata,
        ).attributes@,
        !old(metadata).attributes@.contains_key(option@ + "-option"@) ==> final(metadata).attributes@ == old(
            metadata,
        ).attributes@.insert(option@ + "-option"@, Seq::empty()),
        final(metadata).id == old(metadata).id && final(metadata).title == old(metadata).title,
        final(metadata).style == old(metadata).style && final(metadata).role == old(metadata).role,
        final(metadata).roles == old(metadata).roles,
{
    let ghost before = string_views(metadata.options@);
    proof {
        if before.contains(option@) {
            let k = choose|k: int| 0 <= k < before.len() && before[k] == option@;
            assert(metadata.options@[k]@ == option@);
        }
    }
    if !contains_string(&metadata.options, option) {
        metadata.options.push(to_string(option));
        assert(string_views(metadata.options@) =~= before.push(option@));
    } else {
        proof {
            let k = choose|k: int| 0 <= k < metadata.options@.len() && (#[trigger] metadata.options@[k])@ == option@;
            assert(before[k] == option@);
        }
    }
    let key = option_attr_name(option);
    metadata.attributes.insert_if_absent_chars(&key, String::new());
}

/// Joins strings with a space.
pub fn join_space(v: &Vec<String>) -> (r: String)
    ensures
        r@ == crate::text::join_spec(string_views(v@), seq![' ']),
{
    let mut out: Vec<char> = Vec::new();
    let mut i: usize = 0;
    while i < v.len()
        invariant
            i <= v@.len(),
            out@ == crate::text::join_spec(string_views(v@.subrange(0, i as int)), seq![' ']),
        decreases v.len() - i,
    {
        if i > 0 {
            out.push(' ');
        }
        let c = string_chars(&v[i]);
        append(&mut out, &c);
        i += 1;
        let ghost w = string_views(v@.subrange(0, i as int));
        assert(w.drop_last() =~= string_views(v@.subrange(0, i - 1)));
        assert(w.last() == v@[i - 1]@);
        if i == 1 {
            assert(w.len() == 1);
            assert(out@ =~= w[0]);
        }
    }
    assert(v@.subrange(0, v@.len() as int) =~= v@);
    to_string(&out)
}

/// The words completed so far and the word being read, after reading `s`.
pub open spec fn words_acc(s: Seq<char>) -> (Seq<Seq<char>>, Seq<char>)
    decreases s.len(),
{
    if s.len() == 0 {
        (Seq::empty(), Seq::empty())
    } else {
        let (d, c) = words_acc(s.drop_last());
        if is_ws(s.last()) {
            if c.len() > 0 {
                (d.push(c), Seq::empty())
            } else {
                (d, c)
            }
        } else {
            (d, c.push(s.last()))
        }
    }
}

/// The maximal runs of non-whitespace characters of `s`, in order.
pub open spec fn words_spec(s: Seq<char>) -> Seq<Seq<char>> {
    let (d, c) = words_acc(s);
    if c.len() > 0 {
        d.push(c)
    } else {
        d
    }
}

/// Whitespace-separated words (std `split_whitespace`).
pub fn split_whitespace(s: &[char]) -> (r: Vec<Vec<char>>)
    ensures
        crate::text::views(r@) == words_spec(s@),
        forall|k: int| 0 <= k < r@.len() ==> (#[trigger] r@[k])@.len() > 0,
        forall|k: int, j: int| 0 <= k < r@.len() && 0 <= j < r@[k]@.len() ==> !is_ws(#[trigger] r@[k]@[j]),
        r@.len() == 0 <==> crate::text::all_ws(s@),
{
    let mut out: Vec<Vec<char>> = Vec::new();
    let mut current: Vec<char> = Vec::new();
    let mut i: usize = 0;
    while i < s.len()
        invariant
            i <= s@.len(),
            forall|k: int| 0 <= k < out@.len() ==> (#[trigger] out@[k])@.len() > 0,
            forall|k: int, j: int| 0 <= k < out@.len() && 0 <= j < out@[k]@.len() ==> !is_ws(#[trigger] out@[k]@[j]),
            forall|j: int| 0 <= j < current@.len() ==> !is_ws(#[trigger] current@[j]),
            (out@.len() == 0 && current@.len() == 0) <==> crate::text::all_ws(s@.subrange(0, i as int)),
            (crate::text::views(out@), current@) == words_acc(s@.subrange(0, i as int)),
        decreases s.len() - i,
    {
        assert(s@.subrange(0, i + 1).drop_last() =~= s@.subrange(0, i as int));
        let ghost out0 = out@;
        let ghost pre = s@.subrange(0, i as int);
        let ghost nxt = s@.subrange(0, i + 1);
        assert(nxt =~= pre.push(s@[i as int]));
        proof {
            if crate::text::all_ws(nxt) {
                assert(is_ws(nxt[i as int]));
                assert forall|k: int| 0 <= k < pre.len() implies is_ws(pre[k]) by {
                    assert(nxt[k] == pre[k]);
                }
            }
            if crate::text::all_ws(pre) && is_ws(s@[i as int]) {
                assert forall|k: int| 0 <= k < nxt.len() implies is_ws(nxt[k]) by {
                    if k < i {
                        assert(nxt[k] == pre[k]);
                    }
                }
            }
        }
        if is_whitespace(s[i]) {
            if current.len() > 0 {
                let ghost cur = current@;
                out.push(current);
                current = Vec::new();
                assert(crate::text::views(out@) =~= crate::text::views(out0).push(cur));
                assert(current@ =~= Seq::<char>::empty());
            }
        } else {
            current.push(s[i]);
        }
        i += 1;
    }
    assert(s@.subrange(0, s@.len() as int) =~= s@);
    let ghost out0 = out@;
    if current.len() > 0 {
        let ghost cur = current@;
        out.push(current);
        assert(crate::text::views(out@) =~= crate::text::views(out0).push(cur));
    }
    out
}

/// The trimmed, non-empty pieces of `parts`, in order.
pub open spec fn trimmed_nonempty(parts: Seq<Seq<char>>) -> Seq<Seq<char>>
    decreases parts.len(),
{
    if parts.len() == 0 {
        Seq::empty()
    } else {
        let t = trimmed_nonempty(parts.drop_last());
        let x = trim_spec(parts.last());
        if x.len() > 0 {
            t.push(x)
        } else {
            t
        }
    }
}

/// `xs` without repeats, each value at its first place.
pub open spec fn dedup_spec(xs: Seq<Seq<char>>) -> Seq<Seq<char>>
    decreases xs.len(),
{
    if xs.len() == 0 {
        Seq::empty()
    } else {
        let d = dedup_spec(xs.drop_last());
        if d.contains(xs.last()) {
            d
        } else {
            d.push(xs.last())
        }
    }
}

/// `xs` with each value of `ys` added at the end unless already there.
pub open spec fn add_unique_all(xs: Seq<Seq<char>>, ys: Seq<Seq<char>>) -> Seq<Seq<char>>
    decreases ys.len(),
{
    if ys.len() == 0 {
        xs
    } else {
        let a = add_unique_all(xs, ys.drop_last());
        if a.contains(ys.last()) {
            a
        } else {
            a.push(ys.last())
        }
    }
}

/// `m` with `key` set to `value` unless it already has the key.
pub open spec fn insert_if_absent_spec(
    m: Map<Seq<char>, Seq<char>>,
    key: Seq<char>,
    value: Seq<char>,
) -> Map<Seq<char>, Seq<char>> {
    if m.contains_key(key) {
        m
    } else {
        m.insert(key, value)
    }
}

/// `attrs` with an empty `<option>-option` attribute for each option, where absent.
pub open spec fn option_attrs(attrs: Map<Seq<char>, Seq<char>>, options: Seq<Seq<char>>) -> Map<
    Seq<char>,
    Seq<char>,
>
    decreases options.len(),
{
    if options.len() == 0 {
        attrs
    } else {
        insert_if_absent_spec(option_attrs(attrs, options.drop_last()), options.last() + "-option"@, Seq::empty())
    }
}

/// The name of the positional attribute at `slot`.
pub open spec fn slot_key(slot: nat) -> Seq<char> {
    seq!['$'] + crate::text::decimal_spec(slot)
}

/// Every field of `m1` but those the clause names is that of `m0`.
pub open spec fn keeps_id_style(m0: BlockMetadata, m1: BlockMetadata) -> bool {
    m1.id == m0.id && m1.style == m0.style && m1.title == m0.title
}

/// The options, roles and role of `m1` are those of `m0`.
pub open spec fn keeps_lists(m0: BlockMetadata, m1: BlockMetadata) -> bool {
    m1.options == m0.options && m1.roles == m0.roles && m1.role == m0.role
}

/// What one entry of a block attribute list does to the metadata (`slot` is its
/// positional slot): a `name=value` entry sets the attribute (`opts` also sets the
/// options, `role` the roles); `#id` sets the id; `style#id`, while no style is set,
/// sets both; `.role` entries add roles; `%option` entries add options; any other
/// entry is positional: the first sets the style, and after `source` one sets the
/// language. Every entry but a named one is also kept under its `$slot` name.
pub open spec fn entry_applied(m0: BlockMetadata, e: Seq<char>, slot: nat, m1: BlockMetadata) -> bool {
    let key = slot_key(slot);
    if e.len() == 0 {
        m1 == m0
    } else if named_attribute_spec(e) is Some {
        let pair = named_attribute_spec(e)->0;
        let n = pair.0;
        let v = pair.1;
        &&& keeps_id_style(m0, m1)
        &&& m1.attributes@ == m0.attributes@.insert(n, v)
        &&& if n == "opts"@ {
            string_views(m1.options@) == trimmed_nonempty(crate::text::split_spec(v, ',')) && m1.roles == m0.roles
                && m1.role == m0.role
        } else if n == "role"@ {
            &&& string_views(m1.roles@) == words_spec(v)
            &&& crate::text::opt_view(m1.role) == if words_spec(v).len() > 0 {
                Some(crate::text::join_spec(words_spec(v), seq![' ']))
            } else {
                crate::text::opt_view(m0.role)
            }
            &&& m1.options == m0.options
        } else {
            keeps_lists(m0, m1)
        }
    } else if e[0] == '#' {
        if e.len() > 1 {
            &&& crate::text::opt_view(m1.id) == Some(e.drop_first())
            &&& m1.attributes@ == m0.attributes@.insert(key, e).insert("id"@, e.drop_first())
            &&& m1.style == m0.style && m1.title == m0.title
            &&& keeps_lists(m0, m1)
        } else {
            m1 == m0
        }
    } else if m0.style is None && style_id_shorthand_spec(e) is Some {
        let pair = style_id_shorthand_spec(e)->0;
        let st = pair.0;
        let id = pair.1;
        &&& crate::text::opt_view(m1.style) == Some(st)
        &&& crate::text::opt_view(m1.id) == Some(id)
        &&& m1.title == m0.title
        &&& m1.attributes@ == insert_if_absent_spec(m0.attributes@.insert(key, e), "style"@, st).insert("id"@, id)
        &&& keeps_lists(m0, m1)
    } else if e[0] == '.' {
        let nr = trimmed_nonempty(crate::text::split_spec(e.drop_first(), '.'));
        if nr.len() > 0 {
            let roles = dedup_spec(string_views(m0.roles@) + nr);
            &&& keeps_id_style(m0, m1)
            &&& string_views(m1.roles@) == roles
            &&& crate::text::opt_view(m1.role) == Some(crate::text::join_spec(roles, seq![' ']))
            &&& m1.attributes@ == m0.attributes@.insert(key, e).insert(
                "role"@,
                crate::text::join_spec(roles, seq![' ']),
            )
            &&& m1.options == m0.options
        } else {
            m1 == m0
        }
    } else if e[0] == '%' {
        let no = trimmed_nonempty(crate::text::split_spec(e.drop_first(), '%'));
        if no.len() > 0 {
            &&& keeps_id_style(m0, m1)
            &&& string_views(m1.options@) == add_unique_all(string_views(m0.options@), no)
            &&& m1.attributes@ == option_attrs(m0.attributes@.insert(key, e), no)
            &&& m1.roles == m0.roles && m1.role == m0.role
        } else {
            m1 == m0
        }
    } else {
        let a = m0.attributes@.insert(key, e);
        &&& m1.id == m0.id && m1.title == m0.title
        &&& keeps_lists(m0, m1)
        &&& if m0.style is None {
            crate::text::opt_view(m1.style) == Some(e) && m1.attributes@ == insert_if_absent_spec(a, "style"@, e)
        } else if crate::text::opt_view(m0.style) == Some("source"@) && !a.contains_key("language"@) {
            m1.style == m0.style && m1.attributes@ == a.insert("language"@, e)
        } else {
            m1.style == m0.style && m1.attributes@ == a
        }
    }
}

/// The character vectors as strings.
fn to_strings(v: &Vec<Vec<char>>) -> (r: Vec<String>)
    ensures
        string_views(r@) == crate::text::views(v@),
{
    let mut out: Vec<String> = Vec::new();
    let mut k: usize = 0;
    while k < v.len()
        invariant
            k <= v@.len(),
            out@.len() == k,
            forall|j: int| 0 <= j < k ==> (#[trigger] out@[j])@ == v@[j]@,
        decreases v.len() - k,
    {
        out.push(to_string(&v[k]));
        k += 1;
    }
    assert(string_views(out@) =~= crate::text::views(v@));
    out
}

/// The trimmed, non-empty pieces.
fn trimmed_nonempty_parts(parts: &Vec<Vec<char>>) -> (r: Vec<Vec<char>>)
    ensures
        crate::text::views(r@) == trimmed_nonempty(crate::text::views(parts@)),
{
    let mut out: Vec<Vec<char>> = Vec::new();
    let mut k: usize = 0;
    while k < parts.len()
        invariant
            k <= parts@.len(),
            crate::text::views(out@) == trimmed_nonempty(crate::text::views(parts@.subrange(0, k as int))),
        decreases parts.len() - k,
    {
        let ghost o = out@;
        assert(crate::text::views(parts@.subrange(0, k + 1)).drop_last() =~= crate::text::views(
            parts@.subrange(0, k as int),
        ));
        let t = trim(&parts[k]);
        if t.len() > 0 {
            out.push(t);
            assert(crate::text::views(out@) =~= crate::text::views(o).push(t@));
        }
        k += 1;
    }
    assert(parts@.subrange(0, parts@.len() as int) =~= parts@);
    out
}

/// The values as strings, without repeats, each at its first place.
fn dedup_to_strings(xs: &Vec<Vec<char>>) -> (r: Vec<String>)
    ensures
        string_views(r@) == dedup_spec(crate::text::views(xs@)),
{
    let mut out: Vec<String> = Vec::new();
    let mut k: usize = 0;
    while k < xs.len()
        invariant
            k <= xs@.len(),
            string_views(out@) == dedup_spec(crate::text::views(xs@.subrange(0, k as int))),
        decreases xs.len() - k,
    {
        let ghost o = string_views(out@);
        assert(crate::text::views(xs@.subrange(0, k + 1)).drop_last() =~= crate::text::views(
            xs@.subrange(0, k as int),
        ));
        if !contains_string(&out, &xs[k]) {
            out.push(to_string(&xs[k]));
            assert(string_views(out@) =~= o.push(xs@[k as int]@));
        } else {
            proof {
                let j = choose|j: int| 0 <= j < out@.len() && (#[trigger] out@[j])@ == xs@[k as int]@;
                assert(o[j] == xs@[k as int]@);
            }
        }
        k += 1;
    }
    assert(xs@.subrange(0, xs@.len() as int) =~= xs@);
    out
}

/// Applies one entry of a block attribute list, positioned at `slot`.
fn apply_attribute_entry(metadata: &mut BlockMetadata, entry: &Vec<char>, slot: usize)
    ensures
        entry_applied(*old(metadata), entry@, slot as nat, *final(metadata)),
{
    proof {
        reveal_strlit("#");
        reveal_strlit(".");
        reveal_strlit("%");
        reveal_strlit("opts");
        reveal_strlit("role");
    }
    let ghost m0 = *metadata;
    if entry.len() == 0 {
        return;
    }
    match parse_named_attribute(entry) {
        Some((name, value)) => {
            assert(named_attribute_spec(entry@)->0 == (name@, value@));
            metadata.attributes.insert_chars(&name, to_string(&value));
            if eq_str(&name, "opts") {
                let parts = split_char(&value, ',');
                let kept = trimmed_nonempty_parts(&parts);
                metadata.options = to_strings(&kept);
                assert(string_views(metadata.options@) == trimmed_nonempty(crate::text::split_spec(value@, ',')));
            } else if eq_str(&name, "role") {
                let words = split_whitespace(&value);
                metadata.roles = to_strings(&words);
                assert(string_views(metadata.roles@) == words_spec(value@));
                if metadata.roles.len() > 0 {
                    metadata.role = Some(join_space(&metadata.roles));
                }
            }
            assert(keeps_id_style(m0, *metadata));
            assert(metadata.attributes@ == m0.attributes@.insert(name@, value@));
            return;
        },
        None => {},
    }
    match strip_prefix_str(entry, "#") {
        Some(id) => {
            assert("#"@ =~= seq!['#']);
            assert(entry@.subrange(0, 1) =~= seq!['#']);
            assert(entry@[0] == entry@.subrange(0, 1)[0]);
            assert(id@ =~= entry@.drop_first());
            if id.len() > 0 {
                metadata.id = Some(to_string(&id));
                metadata.attributes.insert_chars(&slot_name(slot), to_string(entry));
                metadata.attributes.insert("id", to_string(&id));
            }
            return;
        },
        None => {
            proof {
                if entry@[0] == '#' {
                    assert(entry@.subrange(0, 1) =~= "#"@);
                }
            }
        },
    }
    if metadata.style.is_none() {
        match parse_style_id_shorthand(entry) {
            Some((style, id)) => {
                metadata.attributes.insert_chars(&slot_name(slot), to_string(entry));
                metadata.style = Some(to_string(&style));
                let sk = to_chars("style");
                metadata.attributes.insert_if_absent_chars(&sk, to_string(&style));
                metadata.id = Some(to_string(&id));
                metadata.attributes.insert("id", to_string(&id));
                return;
            },
            None => {},
        }
    }
    match strip_prefix_str(entry, ".") {
        Some(role_entry) => {
            assert("."@ =~= seq!['.']);
            assert(entry@.subrange(0, 1) =~= seq!['.']);
            assert(entry@[0] == entry@.subrange(0, 1)[0]);
            assert(role_entry@ =~= entry@.drop_first());
            let parts = split_char(&role_entry, '.');
            let new_roles = trimmed_nonempty_parts(&parts);
            if new_roles.len() > 0 {
                metadata.attributes.insert_chars(&slot_name(slot), to_string(entry));
                let mut combined: Vec<Vec<char>> = Vec::new();
                let n0 = metadata.roles.len();
                let mut k: usize = 0;
                while k < metadata.roles.len()
                    invariant
                        k <= metadata.roles@.len(),
                        n0 == metadata.roles@.len(),
                        combined@.len() == k,
                        forall|j: int| 0 <= j < k ==> (#[trigger] combined@[j])@ == metadata.roles@[j]@,
                    decreases metadata.roles.len() - k,
                {
                    combined.push(string_chars(&metadata.roles[k]));
                    k += 1;
                }
                let mut k: usize = 0;
                while k < new_roles.len()
                    invariant
                        k <= new_roles@.len(),
                        combined@.len() == n0 + k,
                        n0 == metadata.roles@.len(),
                        forall|j: int| 0 <= j < n0 ==> (#[trigger] combined@[j])@ == metadata.roles@[j]@,
                        forall|j: int| 0 <= j < k ==> (#[trigger] combined@[n0 + j])@ == new_roles@[j]@,
                    decreases new_roles.len() - k,
                {
                    combined.push(crate::text::copy(&new_roles[k]));
                    k += 1;
                }
                assert(crate::text::views(combined@) =~= string_views(metadata.roles@) + crate::text::views(
                    new_roles@,
                )) by {
                    assert forall|j: int| n0 <= j < combined@.len() implies combined@[j]@ == new_roles@[j - n0]@ by {
                        assert(combined@[n0 + (j - n0)] == combined@[j]);
                    }
                }
                metadata.roles = dedup_to_strings(&combined);
                metadata.role = Some(join_space(&metadata.roles));
                let joined = join_space(&metadata.roles);
                metadata.attributes.insert("role", joined);
            }
            return;
        },
        None => {
            proof {
                if entry@[0] == '.' {
                    assert(entry@.subrange(0, 1) =~= "."@);
                }
            }
        },
    }
    match strip_prefix_str(entry, "%") {
        Some(option_entry) => {
            assert("%"@ =~= seq!['%']);
            assert(entry@.subrange(0, 1) =~= seq!['%']);
            assert(entry@[0] == entry@.subrange(0, 1)[0]);
            assert(option_entry@ =~= entry@.drop_first());
            let parts = split_char(&option_entry, '%');
            let options = trimmed_nonempty_parts(&parts);
            if options.len() > 0 {
                metadata.attributes.insert_chars(&slot_name(slot), to_string(entry));
                let ghost o0 = string_views(metadata.options@);
                let ghost a0 = metadata.attributes@;
                let mut k: usize = 0;
                while k < options.len()
                    invariant
                        k <= options@.len(),
                        string_views(metadata.options@) == add_unique_all(o0, crate::text::views(
                            options@.subrange(0, k as int),
                        )),
                        metadata.attributes@ == option_attrs(a0, crate::text::views(options@.subrange(0, k as int))),
                        metadata.id == m0.id && metadata.style == m0.style && metadata.title == m0.title,
                        metadata.roles == m0.roles && metadata.role == m0.role,
                    decreases options.len() - k,
                {
                    assert(crate::text::views(options@.subrange(0, k + 1)).drop_last() =~= crate::text::views(
                        options@.subrange(0, k as int),
                    ));
                    add_option(metadata, &options[k]);
                    k += 1;
                }
                assert(options@.subrange(0, options@.len() as int) =~= options@);
            }
            return;
        },
        None => {
            proof {
                if entry@[0] == '%' {
                    assert(entry@.subrange(0, 1) =~= "%"@);
                }
            }
        },
    }
    metadata.attributes.insert_chars(&slot_name(slot), to_string(entry));
    if metadata.style.is_none() {
        metadata.style = Some(to_string(entry));
        let sk = to_chars("style");
        metadata.attributes.insert_if_absent_chars(&sk, to_string(entry));
    } else if opt_is(&metadata.style, "source") && !metadata.attributes.contains_key("language") {
        metadata.attributes.insert("language", to_string(entry));
    }
}

/// The positional slot of the entry at `k` of a list whose first slot is `base`
/// (staying at the largest `usize`).
pub open spec fn slot_at(base: nat, k: int) -> nat {
    if base + k <= usize::MAX {
        (base + k) as nat
    } else {
        usize::MAX as nat
    }
}

/// The metadata after the entries of a list, one after another: `ms[k]` is the
/// metadata before entry `k`, which sits at slot `slot_at(base, k)`.
pub open spec fn entries_chain(ms: Seq<BlockMetadata>, entries: Seq<Seq<char>>, base: nat) -> bool {
    &&& ms.len() == entries.len() + 1
    &&& forall|k: int| 0 <= k < entries.len() ==> entry_applied(#[trigger] ms[k], entries[k], slot_at(base, k), ms[k + 1])
}

/// `m1` is `m0` after the entries of one attribute list: each entry applied in
/// turn at the next positional slot after those `m0` already uses, then source
/// listings normalised.
pub open spec fn list_applied(m0: BlockMetadata, entries: Seq<Seq<char>>, m1: BlockMetadata) -> bool {
    exists|ms: Seq<BlockMetadata>, base: nat|
        #[trigger] entries_chain(ms, entries, base) && is_next_slot(m0.attributes@, base) && ms[0]
            == m0 && source_normalized(ms.last(), m1)
}

/// Applies the entries of a block attribute list to `metadata`, each at the next
/// positional slot after those already used, then normalises source listings.
pub fn apply_attribute_list_to_metadata(metadata: &mut BlockMetadata, entries: &Vec<Vec<char>>)
    ensures
        list_applied(*old(metadata), crate::text::views(entries@), *final(metadata)),
{
    let base_slot = next_attribute_slot(metadata);
    let ghost mut ms: Seq<BlockMetadata> = seq![*metadata];
    let mut index: usize = 0;
    while index < entries.len()
        invariant
            index <= entries@.len(),
            is_next_slot(old(metadata).attributes@, base_slot as nat),
            entries_chain(ms, crate::text::views(entries@.subrange(0, index as int)), base_slot as nat),
            ms[0] == *old(metadata),
            ms.last() == *metadata,
        decreases entries.len() - index,
    {
        let slot = if base_slot <= usize::MAX - index {
            base_slot + index
        } else {
            usize::MAX
        };
        let ghost ms0 = ms;
        apply_attribute_entry(metadata, &entries[index], slot);
        proof {
            ms = ms.push(*metadata);
            let es = crate::text::views(entries@.subrange(0, index + 1));
            assert(es.drop_last() =~= crate::text::views(entries@.subrange(0, index as int)));
            assert forall|k: int| 0 <= k < es.len() implies entry_applied(
                #[trigger] ms[k],
                es[k],
                slot_at(base_slot as nat, k),
                ms[k + 1],
            ) by {
                if k < index {
                    assert(ms[k] == ms0[k] && ms[k + 1] == ms0[k + 1]);
                    assert(es[k] == es.drop_last()[k]);
                }
            }
        }
        index += 1;
    }
    assert(entries@.subrange(0, entries@.len() as int) =~= entries@);
    normalize_source_listing_metadata(metadata);
    assert(entries_chain(ms, crate::text::views(entries@), base_slot as nat));
}

/// An option as source listings read it: `numbered` is `linenums`.
pub open spec fn linenums_alias(o: Seq<char>) -> Seq<char> {
    if o == "numbered"@ {
        "linenums"@
    } else {
        o
    }
}

/// The options of a source listing: `linenums` added when a third positional
/// attribute is set, `numbered` read as `linenums`, without repeats.
pub open spec fn source_options(options: Seq<Seq<char>>, attrs: Map<Seq<char>, Seq<char>>) -> Seq<Seq<char>> {
    let with_third = if attrs.contains_key("$3"@) && !options.contains("linenums"@) {
        options.push("linenums"@)
    } else {
        options
    };
    dedup_spec(with_third.map_values(|o: Seq<char>| linenums_alias(o)))
}

/// What normalising a source listing does: only a `source` block changes; its
/// options become `source_options`, and with `linenums` among them the
/// `numbered-option` attribute gives way to `linenums-option`.
pub open spec fn source_normalized(m0: BlockMetadata, m1: BlockMetadata) -> bool {
    if crate::text::opt_view(m0.style) != Some("source"@) {
        m1 == m0
    } else {
        let opts = source_options(string_views(m0.options@), m0.attributes@);
        &&& keeps_id_style(m0, m1)
        &&& m1.roles == m0.roles && m1.role == m0.role
        &&& string_views(m1.options@) == opts
        &&& m1.attributes@ == if opts.contains("linenums"@) {
            insert_if_absent_spec(m0.attributes@.remove("numbered-option"@), "linenums-option"@, Seq::empty())
        } else {
            m0.attributes@
        }
    }
}

/// Source listings: a third positional attribute turns on line numbers, and
/// `numbered` is read as `linenums`.
fn normalize_source_listing_metadata(metadata: &mut BlockMetadata)
    ensures
        source_normalized(*old(metadata), *final(metadata)),
{
    proof {
        reveal_strlit("source");
        reveal_strlit("$3");
        reveal_strlit("numbered");
        reveal_strlit("linenums");
    }
    if !opt_is(&metadata.style, "source") {
        return;
    }
    let ghost m0 = *metadata;
    let linenums = to_chars("linenums");
    let mut opts: Vec<Vec<char>> = Vec::new();
    let mut i: usize = 0;
    while i < metadata.options.len()
        invariant
            i <= metadata.options@.len(),
            *metadata == m0,
            opts@.len() == i,
            forall|j: int| 0 <= j < i ==> (#[trigger] opts@[j])@ == linenums_alias(metadata.options@[j]@),
            linenums@ == "linenums"@,
        decreases metadata.options.len() - i,
    {
        let o = string_chars(&metadata.options[i]);
        let option = if eq_str(&o, "numbered") {
            crate::text::copy(&linenums)
        } else {
            o
        };
        opts.push(option);
        i += 1;
    }
    assert(crate::text::views(opts@) =~= string_views(m0.options@).map_values(|o: Seq<char>| linenums_alias(o)));
    if metadata.attributes.contains_key("$3") && !contains_string(&metadata.options, &linenums) {
        opts.push(crate::text::copy(&linenums));
        assert(linenums_alias("linenums"@) == "linenums"@);
        assert(crate::text::views(opts@) =~= string_views(m0.options@).push("linenums"@).map_values(
            |o: Seq<char>| linenums_alias(o),
        ));
    } else {
        proof {
            if m0.attributes@.contains_key("$3"@) {
                let k = choose|k: int| 0 <= k < m0.options@.len() && (#[trigger] m0.options@[k])@ == linenums@;
                assert(string_views(m0.options@)[k] == "linenums"@);
            }
        }
    }
    proof {
        if m0.attributes@.contains_key("$3"@) && !string_views(m0.options@).contains("linenums"@) {
            assert forall|k: int| 0 <= k < m0.options@.len() implies (#[trigger] m0.options@[k])@ != linenums@ by {
                assert(string_views(m0.options@)[k] == m0.options@[k]@);
            }
        }
    }
    metadata.options = dedup_to_strings(&opts);
    let ghost opts_spec = source_options(string_views(m0.options@), m0.attributes@);
    assert(string_views(metadata.options@) == opts_spec);
    if contains_string(&metadata.options, &linenums) {
        proof {
            let k = choose|k: int| 0 <= k < metadata.options@.len() && (#[trigger] metadata.options@[k])@ == linenums@;
            assert(opts_spec[k] == "linenums"@);
        }
        metadata.attributes.remove("numbered-option");
        let k = to_chars("linenums-option");
        metadata.attributes.insert_if_absent_chars(&k, String::new());
    } else {
        proof {
            if opts_spec.contains("linenums"@) {
                let k = choose|k: int| 0 <= k < opts_spec.len() && opts_spec[k] == "linenums"@;
                assert(metadata.options@[k]@ == linenums@);
            }
        }
    }
}

/// What one trimmed entry after the language of a fenced code block does, at
/// positional `slot`: it is kept under `$slot`; a `name=value` entry sets the
/// attribute (and `opts` adds options); `%option` entries add options; any other
/// entry is an option itself.
pub open spec fn fenced_entry_applied(m0: BlockMetadata, e: Seq<char>, slot: nat, m1: BlockMetadata) -> bool {
    if e.len() == 0 {
        m1 == m0
    } else {
        let a = m0.attributes@.insert(slot_key(slot), e);
        let opts0 = string_views(m0.options@);
        &&& keeps_id_style(m0, m1)
        &&& m1.roles == m0.roles && m1.role == m0.role
        &&& if named_attribute_spec(e) is Some {
            let pair = named_attribute_spec(e)->0;
            let b = a.insert(pair.0, pair.1);
            if pair.0 == "opts"@ {
                let added = trimmed_nonempty(crate::text::split_spec(pair.1, ','));
                string_views(m1.options@) == add_unique_all(opts0, added) && m1.attributes@ == option_attrs(b, added)
            } else {
                m1.options == m0.options && m1.attributes@ == b
            }
        } else if e[0] == '%' {
            let added = trimmed_nonempty(crate::text::split_spec(e.drop_first(), '%'));
            string_views(m1.options@) == add_unique_all(opts0, added) && m1.attributes@ == option_attrs(a, added)
        } else {
            string_views(m1.options@) == add_unique_all(opts0, seq![e]) && m1.attributes@ == option_attrs(a, seq![e])
        }
    }
}

/// The metadata a fenced code block starts from: style `source`, the
/// `cloaked-context`, and the language from the first entry when it is not blank.
pub open spec fn fenced_started(m0: BlockMetadata, entries: Seq<Seq<char>>, m1: BlockMetadata) -> bool {
    let a = m0.attributes@.insert("style"@, "source"@).insert("cloaked-context"@, "fenced_code"@);
    &&& crate::text::opt_view(m1.style) == Some("source"@)
    &&& m1.id == m0.id && m1.title == m0.title
    &&& keeps_lists(m0, m1)
    &&& m1.attributes@ == if entries.len() > 0 && trim_spec(entries[0]).len() > 0 {
        a.insert("$1"@, trim_spec(entries[0])).insert("language"@, trim_spec(entries[0]))
    } else {
        a
    }
}

/// The metadata after the entries that follow the language, one after another:
/// `ms[k - 1]` is the metadata before entry `k`, which sits at slot `k + 1`.
pub open spec fn fenced_chain(ms: Seq<BlockMetadata>, entries: Seq<Seq<char>>) -> bool {
    &&& ms.len() == if entries.len() == 0 {
        1
    } else {
        entries.len()
    }
    &&& forall|k: int|
        1 <= k < entries.len() ==> fenced_entry_applied(
            #[trigger] ms[k - 1],
            trim_spec(entries[k]),
            (k + 1) as nat,
            ms[k],
        )
}

/// Adds each option of `options` in turn.
fn add_options(metadata: &mut BlockMetadata, options: &Vec<Vec<char>>)
    ensures
        string_views(final(metadata).options@) == add_unique_all(
            string_views(old(metadata).options@),
            crate::text::views(options@),
        ),
        final(metadata).attributes@ == option_attrs(old(metadata).attributes@, crate::text::views(options@)),
        keeps_id_style(*old(metadata), *final(metadata)),
        final(metadata).roles == old(metadata).roles && final(metadata).role == old(metadata).role,
{
    let ghost o0 = string_views(metadata.options@);
    let ghost a0 = metadata.attributes@;
    let mut k: usize = 0;
    while k < options.len()
        invariant
            k <= options@.len(),
            string_views(metadata.options@) == add_unique_all(o0, crate::text::views(options@.subrange(0, k as int))),
            metadata.attributes@ == option_attrs(a0, crate::text::views(options@.subrange(0, k as int))),
            o0 == string_views(old(metadata).options@),
            a0 == old(metadata).attributes@,
            keeps_id_style(*old(metadata), *metadata),
            metadata.roles == old(metadata).roles && metadata.role == old(metadata).role,
        decreases options.len() - k,
    {
        assert(crate::text::views(options@.subrange(0, k + 1)).drop_last() =~= crate::text::views(
            options@.subrange(0, k as int),
        ));
        add_option(metadata, &options[k]);
        k += 1;
    }
    assert(options@.subrange(0, options@.len() as int) =~= options@);
}

/// Applies one trimmed entry of a fenced code block at positional `slot`.
fn apply_fenced_entry(metadata: &mut BlockMetadata, entry: &Vec<char>, slot: usize)
    ensures
        fenced_entry_applied(*old(metadata), entry@, slot as nat, *final(metadata)),
{
    if entry.len() == 0 {
        return;
    }
    metadata.attributes.insert_chars(&slot_name(slot), to_string(entry));
    match parse_named_attribute(entry) {
        Some((name, value)) => {
            assert(named_attribute_spec(entry@)->0 == (name@, value@));
            metadata.attributes.insert_chars(&name, to_string(&value));
            if eq_str(&name, "opts") {
                let parts = split_char(&value, ',');
                let options = trimmed_nonempty_parts(&parts);
                add_options(metadata, &options);
            }
            return;
        },
        None => {},
    }
    match strip_prefix_str(entry, "%") {
        Some(option_entry) => {
            proof {
                reveal_strlit("%");
            }
            assert("%"@ =~= seq!['%']);
            assert(entry@.subrange(0, 1) =~= seq!['%']);
            assert(entry@[0] == entry@.subrange(0, 1)[0]);
            assert(option_entry@ =~= entry@.drop_first());
            let parts = split_char(&option_entry, '%');
            let options = trimmed_nonempty_parts(&parts);
            add_options(metadata, &options);
            return;
        },
        None => {
            proof {
                reveal_strlit("%");
                if entry@[0] == '%' {
                    assert(entry@.subrange(0, 1) =~= "%"@);
                }
            }
        },
    }
    let mut single: Vec<Vec<char>> = Vec::new();
    single.push(crate::text::copy(entry));
    assert(crate::text::views(single@) =~= seq![entry@]);
    add_options(metadata, &single);
}

/// Metadata for a fenced code block: source style, language and options.
pub fn apply_fenced_code_metadata(metadata: &mut BlockMetadata, entries: &Vec<Vec<char>>)
    ensures
        exists|ms: Seq<BlockMetadata>|
            #[trigger] fenced_chain(ms, crate::text::views(entries@)) && fenced_started(
                *old(metadata),
                crate::text::views(entries@),
                ms[0],
            ) && ms.last() == *final(metadata),
{
    proof {
        reveal_strlit("style");
        reveal_strlit("source");
    }
    metadata.style = Some(lit("source"));
    metadata.attributes.insert("style", lit("source"));
    metadata.attributes.insert("cloaked-context", lit("fenced_code"));
    if entries.len() > 0 {
        let language = trim(&entries[0]);
        if language.len() > 0 {
            metadata.attributes.insert("$1", to_string(&language));
            metadata.attributes.insert("language", to_string(&language));
        }
    }
    let ghost es = crate::text::views(entries@);
    let ghost mut ms: Seq<BlockMetadata> = seq![*metadata];
    assert(fenced_started(*old(metadata), es, ms[0]));
    let mut index: usize = 1;
    while index < entries.len()
        invariant
            1 <= index,
            entries@.len() > 0 ==> index <= entries@.len(),
            entries@.len() == 0 ==> index == 1,
            es == crate::text::views(entries@),
            ms.len() == index,
            ms.last() == *metadata,
            fenced_started(*old(metadata), es, ms[0]),
            forall|k: int|
                1 <= k < index ==> fenced_entry_applied(#[trigger] ms[k - 1], trim_spec(es[k]), (k + 1) as nat, ms[k]),
        decreases entries.len() - index,
    {
        let slot = index + 1;
        let entry = trim(&entries[index]);
        let ghost ms0 = ms;
        apply_fenced_entry(metadata, &entry, slot);
        proof {
            ms = ms.push(*metadata);
            assert forall|k: int|
                1 <= k < index + 1 implies fenced_entry_applied(
                #[trigger] ms[k - 1],
                trim_spec(es[k]),
                (k + 1) as nat,
                ms[k],
            ) by {
                if k < index {
                    assert(ms[k - 1] == ms0[k - 1] && ms[k] == ms0[k]);
                }
            }
        }
        index += 1;
    }
    assert(es.len() == entries@.len());
    assert(ms.len() == (if es.len() == 0 {
        1
    } else {
        es.len()
    }));
    assert(fenced_chain(ms, es));
}

/// Block title and attribute-list lines before a block (each must be followed by
/// a non-blank line).
/// The title line at `i` belongs to the block: it is a `.Title` line and a
/// non-blank line follows it.
pub open spec fn title_taken(lines: Seq<Seq<char>>, i: int) -> bool {
    0 <= i && i + 1 < lines.len() && block_title_spec(lines[i]) is Some && trim_spec(
        lines[i + 1],
    ).len() > 0
}

/// The attribute list line at `c` belongs to the block: a non-blank line follows it.
pub open spec fn attr_line_taken(lines: Seq<Seq<char>>, c: int) -> bool {
    0 <= c && c + 1 < lines.len() && attribute_list_inner(lines[c]) is Some && trim_spec(
        lines[c + 1],
    ).len() > 0
}

/// How many attribute list lines in a row, from `c` on, belong to the block.
pub open spec fn attr_run(lines: Seq<Seq<char>>, c: int) -> nat
    decreases lines.len() - c,
{
    if attr_line_taken(lines, c) {
        1 + attr_run(lines, c + 1)
    } else {
        0
    }
}

/// Where the attribute lists of a prelude at `i` begin: after its title line, if
/// it takes one.
pub open spec fn prelude_attr_start(lines: Seq<Seq<char>>, i: int) -> int {
    if title_taken(lines, i) {
        i + 1
    } else {
        i
    }
}

/// How many lines the prelude at `i` takes: its title line, if any, and the
/// attribute list lines after it.
pub open spec fn prelude_len(lines: Seq<Seq<char>>, i: int) -> nat {
    let a = prelude_attr_start(lines, i);
    ((a - i) + attr_run(lines, a)) as nat
}

/// Metadata with nothing set but the title a prelude's title line gives, also
/// stored as the `title` attribute.
pub open spec fn prelude_start(m: BlockMetadata, title: Option<Seq<char>>) -> bool {
    &&& m.id is None
    &&& m.style is None
    &&& m.role is None
    &&& m.options@.len() == 0
    &&& m.roles@.len() == 0
    &&& match title {
        None => m.title is None && m.attributes@ == Map::<Seq<char>, Seq<char>>::empty(),
        Some(t) => m.title matches Some(s) && s@ == t && m.attributes@ == Map::<
            Seq<char>,
            Seq<char>,
        >::empty().insert("title"@, t),
    }
}

/// The entries of the attribute list line at `c`.
pub open spec fn line_entries(lines: Seq<Seq<char>>, c: int) -> Seq<Seq<char>> {
    split_attribute_list_spec(attribute_list_inner(lines[c])->0)
}

/// `m` is the metadata of the prelude at `i`: its title applied first, then
/// each attribute list line in order.
pub open spec fn prelude_metadata(lines: Seq<Seq<char>>, i: int, m: BlockMetadata) -> bool {
    let a = prelude_attr_start(lines, i);
    let n = attr_run(lines, a);
    let title = if title_taken(lines, i) {
        block_title_spec(lines[i])
    } else {
        None
    };
    exists|mss: Seq<BlockMetadata>|
        #![trigger mss.len()]
        mss.len() == n + 1 && prelude_start(mss[0], title) && (forall|k: int|
            0 <= k < n ==> list_applied(#[trigger] mss[k], line_entries(lines, a + k), mss[k + 1]))
            && m == mss.last()
}

/// When every line from `c` up to `e` is a taken attribute list line and the
/// line at `e` is not, the run from `c` is `e - c` lines long.
proof fn lemma_attr_run(lines: Seq<Seq<char>>, c: int, e: int)
    requires
        0 <= c <= e,
        forall|j: int| c <= j < e ==> attr_line_taken(lines, j),
        !attr_line_taken(lines, e),
    ensures
        attr_run(lines, c) == e - c,
    decreases e - c,
{
    if c < e {
        lemma_attr_run(lines, c + 1, e);
    }
}

pub fn try_parse_block_prelude(lines: &[Vec<char>], index: usize) -> (r: Option<BlockPrelude>)
    requires
        index <= lines@.len(),
    ensures
        r matches Some(p) ==> p.consumed_lines > 0 && index + p.consumed_lines <= lines@.len(),
        r is Some <==> prelude_len(crate::text::views(lines@), index as int) > 0,
        r matches Some(p) ==> p.consumed_lines == prelude_len(crate::text::views(lines@), index as int),
        r matches Some(p) ==> prelude_metadata(crate::text::views(lines@), index as int, p.metadata),
{
    let ghost ls = crate::text::views(lines@);
    let mut metadata = BlockMetadata::new();
    let mut cursor = index;
    if cursor < lines.len() {
        match parse_block_title(&lines[cursor]) {
            Some(title) => {
                if cursor + 1 < lines.len() && !is_blank(&lines[cursor + 1]) {
                    metadata.title = Some(to_string(&title));
                    metadata.attributes.insert("title", to_string(&title));
                    cursor += 1;
                }
            },
            None => {},
        }
    }
    let start = cursor;
    let ghost title = if title_taken(ls, index as int) {
        block_title_spec(ls[index as int])
    } else {
        None
    };
    assert(start == prelude_attr_start(ls, index as int));
    assert(prelude_start(metadata, title));
    let ghost mut mss: Seq<BlockMetadata> = seq![metadata];
    loop
        invariant
            ls == crate::text::views(lines@),
            index <= start <= cursor <= lines@.len(),
            start == prelude_attr_start(ls, index as int),
            forall|j: int| start <= j < cursor ==> attr_line_taken(ls, j),
            mss.len() == cursor - start + 1,
            prelude_start(mss[0], title),
            forall|k: int|
                0 <= k < cursor - start ==> list_applied(
                    #[trigger] mss[k],
                    line_entries(ls, start + k),
                    mss[k + 1],
                ),
            metadata == mss.last(),
        ensures
            !attr_line_taken(ls, cursor as int),
        decreases lines.len() - cursor,
    {
        if cursor >= lines.len() {
            break;
        }
        match parse_attribute_list_line(&lines[cursor]) {
            Some(entries) => {
                if cursor + 1 < lines.len() && !is_blank(&lines[cursor + 1]) {
                    apply_attribute_list_to_metadata(&mut metadata, &entries);
                    proof {
                        mss = mss.push(metadata);
                    }
                    cursor += 1;
                } else {
                    break;
                }
            },
            None => break,
        }
    }
    proof {
        lemma_attr_run(ls, start as int, cursor as int);
    }
    let consumed = cursor - index;
    if consumed > 0 {
        Some(BlockPrelude { metadata, consumed_lines: consumed })
    } else {
        None
    }
}

/// What precedes the first `c` in `s`; all of `s` when it holds none.
pub open spec fn before_first(s: Seq<char>, c: char) -> Seq<char> {
    if crate::text::first_pos(s, c) < 0 {
        s
    } else {
        s.subrange(0, crate::text::first_pos(s, c))
    }
}

/// The anchor id of `[[id,...]]` or `[#id,...]` content: the trimmed text before
/// the first comma, when it is a valid anchor id.
pub open spec fn anchor_id_spec(inner: Seq<char>) -> Option<Seq<char>> {
    let id = trim_spec(before_first(inner, ','));
    if id.len() == 0 || !crate::inline::valid_anchor_id_spec(id) {
        None
    } else {
        Some(id)
    }
}

/// The reftext of `[[id,reftext]]` content: the trimmed text after the first comma,
/// when there is a comma and that text is not empty.
pub open spec fn double_bracket_reftext_spec(inner: Seq<char>) -> Option<Seq<char>> {
    let c = crate::text::first_pos(inner, ',');
    if c < 0 || trim_spec(inner.subrange(c + 1, inner.len() as int)).len() == 0 {
        None
    } else {
        Some(trim_spec(inner.subrange(c + 1, inner.len() as int)))
    }
}

/// The content of a `[[...]]` anchor line.
pub open spec fn double_bracket_inner(line: Seq<char>) -> Option<Seq<char>> {
    let t = trim_spec(line);
    if crate::text::starts_at(t, 0, "[["@) && t.len() >= 4 && crate::text::ends_with_spec(t, "]]"@) {
        Some(t.subrange(2, t.len() - 2))
    } else {
        None
    }
}

/// The content of a `[#...]` anchor line.
pub open spec fn hash_anchor_inner(line: Seq<char>) -> Option<Seq<char>> {
    let t = trim_spec(line);
    if crate::text::starts_at(t, 0, "[#"@) && t.len() >= 3 && crate::text::ends_with_spec(t, "]"@) {
        Some(t.subrange(2, t.len() - 1))
    } else {
        None
    }
}

/// `[[id,reftext]]` or `[#id,reftext=...]` on a line of its own.
pub fn parse_block_anchor(line: &[char]) -> (r: Option<PendingAnchor>)
    ensures
        match double_bracket_inner(line@) {
            Some(inner) => match anchor_id_spec(inner) {
                Some(id) => r matches Some(a) && a.id@ == id && opt_chars_view(a.reftext)
                    == double_bracket_reftext_spec(inner),
                None => r is None,
            },
            None => match hash_anchor_inner(line@) {
                Some(inner) => match anchor_id_spec(inner) {
                    Some(id) => r matches Some(a) && a.id@ == id,
                    None => r is None,
                },
                None => r is None,
            },
        },
{
    proof {
        reveal_strlit("[[");
        reveal_strlit("]]");
        reveal_strlit("[#");
        reveal_strlit("]");
    }
    let trimmed = trim(line);
    let ghost t = trimmed@;
    match strip_prefix_str(&trimmed, "[[") {
        Some(rest) => match strip_suffix_str(&rest, "]]") {
            Some(inner) => {
                assert(inner@ =~= t.subrange(2, t.len() - 2));
                assert(t.subrange(t.len() - 2, t.len() as int) =~= rest@.subrange(rest@.len() - 2, rest@.len() as int));
                return parse_anchor_parts(&inner);
            },
            None => {
                proof {
                    if t.len() >= 4 {
                        assert(t.subrange(t.len() - 2, t.len() as int) =~= rest@.subrange(
                            rest@.len() - 2,
                            rest@.len() as int,
                        ));
                    }
                }
            },
        },
        None => {},
    }
    assert(double_bracket_inner(line@) is None);
    match strip_prefix_str(&trimmed, "[#") {
        Some(rest) => match strip_suffix_str(&rest, "]") {
            Some(inner) => {
                assert(inner@ =~= t.subrange(2, t.len() - 1));
                assert(t.subrange(t.len() - 1, t.len() as int) =~= rest@.subrange(rest@.len() - 1, rest@.len() as int));
                return parse_hash_anchor_parts(&inner);
            },
            None => {
                proof {
                    if t.len() >= 3 {
                        assert(t.subrange(t.len() - 1, t.len() as int) =~= rest@.subrange(
                            rest@.len() - 1,
                            rest@.len() as int,
                        ));
                    }
                }
            },
        },
        None => {},
    }
    None
}

/// An optional character vector by its view.
pub open spec fn opt_chars_view(o: Option<Vec<char>>) -> Option<Seq<char>> {
    match o {
        Some(v) => Some(v@),
        None => None,
    }
}

fn parse_anchor_parts(inner: &[char]) -> (r: Option<PendingAnchor>)
    ensures
        match anchor_id_spec(inner@) {
            Some(id) => r matches Some(a) && a.id@ == id && opt_chars_view(a.reftext) == double_bracket_reftext_spec(
                inner@,
            ),
            None => r is None,
        },
{
    let (first, rest) = match find_char(inner, ',') {
        Some(i) => (cut(inner, 0, i), Some(cut(inner, i + 1, inner.len()))),
        None => (cut(inner, 0, inner.len()), None),
    };
    assert(first@ =~= before_first(inner@, ','));
    assert(rest matches Some(x) ==> x@ =~= inner@.subrange(crate::text::first_pos(inner@, ',') + 1, inner@.len() as int));
    assert(rest is None <==> crate::text::first_pos(inner@, ',') < 0);
    let id = trim(&first);
    if id.len() == 0 || !is_valid_anchor_id(&id) {
        return None;
    }
    let reftext = match rest {
        Some(r) => {
            let t = trim(&r);
            if t.len() == 0 {
                None
            } else {
                Some(t)
            }
        },
        None => None,
    };
    Some(PendingAnchor { id, reftext })
}

fn parse_hash_anchor_parts(inner: &[char]) -> (r: Option<PendingAnchor>)
    ensures
        match anchor_id_spec(inner@) {
            Some(id) => r matches Some(a) && a.id@ == id,
            None => r is None,
        },
{
    let parts = split_char(inner, ',');
    let id = trim(&parts[0]);
    if id.len() == 0 || !is_valid_anchor_id(&id) {
        return None;
    }
    let mut reftext: Option<Vec<char>> = None;
    let mut k: usize = 1;
    while k < parts.len()
        invariant
            1 <= k <= parts@.len(),
        decreases parts.len() - k,
    {
        let part = trim(&parts[k]);
        match strip_prefix_str(&part, "reftext=") {
            Some(value) => {
                let v = trim_matches_char(&trim(&value), '"');
                if v.len() > 0 {
                    reftext = Some(v);
                }
            },
            None => {},
        }
        k += 1;
    }
    Some(PendingAnchor { id, reftext })
}

/// Clears a style once the block it names has been chosen.
pub fn clear_resolved_style(metadata: &mut BlockMetadata)
    ensures
        final(metadata).style is None,
        final(metadata).attributes@ == old(metadata).attributes@.remove("style"@),
        final(metadata).id == old(metadata).id,
        final(metadata).title == old(metadata).title,
{
    metadata.style = None;
    metadata.attributes.remove("style");
}

} // verus!
