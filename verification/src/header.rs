//! Headings, the document header, attribute entries, and the author and
//! revision lines that may follow the document title.
use vstd::prelude::*;
use crate::ast::{BlockMetadata, Heading};
use crate::attrs::AttributeMap;
use crate::meta::{is_comment_line, parse_attribute_list_line, split_whitespace};
use crate::text::{
    all_equal, append, append_str, count_leading, copy, cut, eq_str, find_char, find_char_from,
    is_alphanumeric, is_whitespace, join_str, replace_char, rfind_char, starts_with_str,
    to_string, trim, trim_end, trim_start, usize_to_chars, is_blank, ends_with_str,
    trim_spec, trim_start_spec, is_ws, decimal_spec,
};

verus! {

// ---------------------------------------------------------------------------
// Headings

/// A heading at `index`: an ATX heading (one line) or a setext heading (two lines),
/// with the number of lines it takes.
pub fn parse_heading(lines: &[Vec<char>], index: usize) -> (r: Option<(Heading, usize)>)
    ensures
        r matches Some(p) ==> index + p.1 <= lines@.len() && 1 <= p.1 <= 2,
        index >= lines@.len() ==> r is None,
        r is Some <==> index < lines@.len() && (atx_heading_spec(lines@[index as int]@) is Some
            || setext_heading_spec(lines@, index as int) is Some),
        r matches Some(p) ==> match atx_heading_spec(lines@[index as int]@) {
            Some(a) => p.1 == 1 && (p.0.level, p.0.title@) == a,
            None => p.1 == 2 && setext_heading_spec(lines@, index as int) == Some((p.0.level, p.0.title@)),
        },
        r matches Some(p) ==> p.0.id is None && p.0.reftext is None,
{
    if index >= lines.len() {
        return None;
    }
    match parse_atx_heading(&lines[index]) {
        Some(h) => Some((h, 1)),
        None => parse_setext_heading(lines, index),
    }
}

fn has_alphanumeric(s: &[char]) -> (r: bool)
    ensures
        r == exists|k: int| 0 <= k < s@.len() && crate::text::char_is_alphanumeric(#[trigger] s@[k]),
{
    let mut i: usize = 0;
    while i < s.len()
        invariant
            i <= s@.len(),
            forall|k: int| 0 <= k < i ==> !crate::text::char_is_alphanumeric(#[trigger] s@[k]),
        decreases s.len() - i,
    {
        if is_alphanumeric(s[i]) {
            return true;
        }
        i += 1;
    }
    false
}

/// `== Title` (or `## Title`), up to six markers; trailing markers are dropped.
/// The level is the number of markers less one.
/// The level and title of an ATX heading line: after trimming, one to six `=` (or
/// `#`), whitespace, then the title with trailing markers and whitespace dropped,
/// holding a letter or digit. The level is the number of markers less one.
pub open spec fn atx_heading_spec(line: Seq<char>) -> Option<(u8, Seq<char>)> {
    let t = trim_spec(line);
    let m = t[0];
    let level = crate::meta::run_len(t, m);
    let rem = t.subrange(level as int, t.len() as int);
    let tt = trim_spec(rem);
    let title = crate::text::trim_end_spec(crate::inline::trim_end_matches_spec(tt, m));
    if t.len() == 0 || (m != '=' && m != '#') || level == 0 || level > 6 || rem.len() == 0 || !is_ws(
        rem[0],
    ) || title.len() == 0 || !(exists|k: int|
        0 <= k < title.len() && crate::text::char_is_alphanumeric(#[trigger] title[k])) {
        None
    } else {
        Some(((level - 1) as u8, title))
    }
}

/// Trimming the end of a sequence leaves a prefix of it.
proof fn lemma_trim_end_prefix(s: Seq<char>)
    ensures
        crate::text::trim_end_spec(s).len() <= s.len(),
        crate::text::trim_end_spec(s) == s.subrange(0, crate::text::trim_end_spec(s).len() as int),
    decreases s.len(),
{
    if s.len() > 0 && is_ws(s.last()) {
        lemma_trim_end_prefix(s.drop_last());
        assert(s.drop_last().subrange(0, crate::text::trim_end_spec(s).len() as int) =~= s.subrange(
            0,
            crate::text::trim_end_spec(s).len() as int,
        ));
    } else {
        assert(s.subrange(0, s.len() as int) =~= s);
    }
}

/// A line whose trimmed text starts with `c` starts with `c` after its leading
/// whitespace is dropped.
proof fn lemma_trim_first(line: Seq<char>)
    requires
        trim_spec(line).len() > 0,
    ensures
        trim_start_spec(line).len() > 0,
        trim_start_spec(line)[0] == trim_spec(line)[0],
{
    lemma_trim_end_prefix(trim_start_spec(line));
}

/// A run is no longer than the sequence.
proof fn lemma_run_len_le(s: Seq<char>, c: char)
    ensures
        crate::meta::run_len(s, c) <= s.len(),
    decreases s.len(),
{
    if s.len() > 0 && s[0] == c {
        lemma_run_len_le(s.drop_first(), c);
    }
}

/// An ATX heading line is no delimiter, comment, anchor, block title or
/// attribute list.
pub proof fn lemma_atx_line_is_plain(line: Seq<char>)
    requires
        atx_heading_spec(line) is Some,
    ensures
        crate::meta::delimiter_spec(line) is None,
        !crate::text::starts_at(trim_start_spec(line), 0, "//"@),
        crate::meta::double_bracket_inner(line) is None,
        crate::meta::hash_anchor_inner(line) is None,
        crate::meta::block_title_spec(line) is None,
        crate::meta::attribute_list_inner(line) is None,
{
    let t = trim_spec(line);
    let m = t[0];
    let level = crate::meta::run_len(t, m);
    lemma_trim_first(line);
    reveal_strlit("--");
    reveal_strlit("```");
    reveal_strlit("//");
    reveal_strlit("[[");
    reveal_strlit("[#");
    if trim_start_spec(line).len() >= 2 {
        assert(trim_start_spec(line).subrange(0, 2)[0] == trim_start_spec(line)[0]);
    }
    if t.len() >= 2 {
        assert(t.subrange(0, 2)[0] == t[0]);
    }
    if t.len() >= 3 {
        assert(t.subrange(0, 3)[0] == t[0]);
    }
    lemma_run_len_le(t, m);
    assert(level < t.len());
    assert(t.subrange(level as int, t.len() as int)[0] == t[level as int]);
    if line.len() > 0 && line[0] == '.' {
        assert(trim_start_spec(line) == line);
    }
}

pub fn parse_atx_heading(line: &[char]) -> (r: Option<Heading>)
    ensures
        r matches Some(h) ==> h.level <= 5 && h.title@.len() > 0 && h.id is None && h.reftext is None,
        r matches Some(h) ==> trim_spec(line@).len() > h.level + 1 && (trim_spec(line@)[0] == '='
            || trim_spec(line@)[0] == '#'),
        r is Some <==> atx_heading_spec(line@) is Some,
        r matches Some(h) ==> atx_heading_spec(line@) == Some((h.level, h.title@)),
{
    let trimmed = trim(line);
    if trimmed.len() == 0 {
        return None;
    }
    let marker = trimmed[0];
    if marker != '=' && marker != '#' {
        return None;
    }
    let level = count_leading(&trimmed, marker);
    proof {
        crate::meta::lemma_run_len(trimmed@, marker, level as int);
    }
    if level == 0 || level > 6 {
        return None;
    }
    let remainder = cut(&trimmed, level, trimmed.len());
    if remainder.len() == 0 || !is_whitespace(remainder[0]) {
        return None;
    }
    let t = trim(&remainder);
    let mut end = t.len();
    assert(t@.subrange(0, t@.len() as int) =~= t@);
    while end > 0 && t[end - 1] == marker
        invariant
            end <= t@.len(),
            crate::inline::trim_end_matches_spec(t@.subrange(0, end as int), marker)
                == crate::inline::trim_end_matches_spec(t@, marker),
        decreases end,
    {
        assert(t@.subrange(0, end as int).drop_last() =~= t@.subrange(0, end - 1));
        end -= 1;
    }
    let title = trim_end(&cut(&t, 0, end));
    if title.len() == 0 || !has_alphanumeric(&title) {
        return None;
    }
    Some(
        Heading {
            level: (level - 1) as u8,
            title: to_string(&title),
            id: None,
            reftext: None,
            metadata: BlockMetadata::new(),
        },
    )
}

/// A title line underlined with `=` (level 0) or `-` (level 1).
/// A two-line heading at `index`: a title with a letter or digit in it that is
/// not an attribute list, underlined by a run of `=` (level 0) or `-` (level 1).
pub open spec fn setext_heading_spec(lines: Seq<Vec<char>>, index: int) -> Option<(u8, Seq<char>)> {
    if index < 0 || index + 2 > lines.len() {
        None
    } else {
        let title = trim_spec(lines[index]@);
        let underline = trim_spec(lines[index + 1]@);
        if title.len() == 0 || !(exists|k: int|
            0 <= k < title.len() && crate::text::char_is_alphanumeric(#[trigger] title[k]))
            || crate::meta::attribute_list_inner(title) is Some || underline.len() == 0 || (
        underline[0] != '=' && underline[0] != '-') || !(forall|k: int|
            0 <= k < underline.len() ==> #[trigger] underline[k] == underline[0]) {
            None
        } else {
            Some(
                (
                    if underline[0] == '=' {
                        0u8
                    } else {
                        1u8
                    },
                    title,
                ),
            )
        }
    }
}

fn parse_setext_heading(lines: &[Vec<char>], index: usize) -> (r: Option<(Heading, usize)>)
    ensures
        r matches Some(p) ==> index + 2 <= lines@.len() && p.1 == 2 && p.0.level <= 1,
        r is Some <==> setext_heading_spec(lines@, index as int) is Some,
        r matches Some(p) ==> setext_heading_spec(lines@, index as int) == Some((p.0.level, p.0.title@))
            && p.0.id is None && p.0.reftext is None,
{
    if index >= lines.len() || lines.len() - index < 2 {
        return None;
    }
    let title = trim(&lines[index]);
    let underline = trim(&lines[index + 1]);
    if title.len() == 0 || !has_alphanumeric(&title) || parse_attribute_list_line(&title).is_some() {
        return None;
    }
    if underline.len() == 0 {
        return None;
    }
    let marker = underline[0];
    if (marker != '=' && marker != '-') || !all_equal(&underline, marker) {
        return None;
    }
    let level: u8 = if marker == '=' {
        0
    } else {
        1
    };
    Some(
        (
            Heading {
                level,
                title: to_string(&title),
                id: None,
                reftext: None,
                metadata: BlockMetadata::new(),
            },
            2,
        ),
    )
}

// ---------------------------------------------------------------------------
// Attribute entries

/// `i` is the first position at or after `from` that holds `c`.
pub open spec fn first_at(s: Seq<char>, c: char, from: int, i: int) -> bool {
    &&& from <= i < s.len()
    &&& s[i] == c
    &&& forall|k: int| from <= k < i ==> s[k] != c
}

/// The line is an attribute entry `:name: value` with a non-blank name.
pub open spec fn is_attribute_entry(line: Seq<char>) -> bool {
    line.len() > 0 && line[0] == ':' && exists|sep: int|
        #[trigger] first_at(line, ':', 1, sep) && trim_spec(line.subrange(1, sep)).len() > 0
}

/// The name and the value of the entry when `sep` is the colon that closes the name.
pub open spec fn entry_name(line: Seq<char>, sep: int) -> Seq<char> {
    trim_spec(line.subrange(1, sep))
}

pub open spec fn entry_value(line: Seq<char>, sep: int) -> Seq<char> {
    trim_start_spec(line.subrange(sep + 1, line.len() as int))
}

/// The value of the entry goes on on the next line: it ends with ` \`.
pub open spec fn entry_continues(line: Seq<char>, sep: int) -> bool {
    crate::text::ends_with_spec(crate::text::trim_end_spec(entry_value(line, sep)), " \\"@)
}

/// The colon that closes the name of an attribute entry.
pub open spec fn entry_sep(l: Seq<char>) -> int {
    choose|sep: int| first_at(l, ':', 1, sep)
}

/// The colon that closes the name of `:name: value`.
fn entry_separator(line: &[char]) -> (r: Option<usize>)
    ensures
        r matches Some(sep) ==> first_at(line@, ':', 1, sep as int) && line@[0] == ':',
        r is None ==> !(line@.len() > 0 && line@[0] == ':' && exists|sep: int|
            #[trigger] first_at(line@, ':', 1, sep)),
{
    if line.len() == 0 || line[0] != ':' {
        return None;
    }
    let r = find_char_from(line, 1, ':');
    match r {
        Some(sep) => Some(sep),
        None => {
            assert forall|sep: int| !#[trigger] first_at(line@, ':', 1, sep) by {
                if first_at(line@, ':', 1, sep) {
                    assert(line@[sep] == ':');
                }
            }
            None
        },
    }
}

/// `:name: value` on one line.
pub fn parse_attribute_entry(line: &[char]) -> (r: Option<(Vec<char>, Vec<char>)>)
    ensures
        r is Some <==> is_attribute_entry(line@),
        r matches Some(p) ==> forall|sep: int| #[trigger]
            first_at(line@, ':', 1, sep) ==> p.0@ == entry_name(line@, sep) && p.1@ == entry_value(
                line@,
                sep,
            ),
{
    match entry_separator(line) {
        Some(sep) => {
            let name = trim(&cut(line, 1, sep));
            if name.len() == 0 {
                assert forall|s2: int| #[trigger] first_at(line@, ':', 1, s2) implies s2 == sep by {
                    if s2 < sep {
                        assert(line@[s2] == ':');
                    }
                    if s2 > sep {
                        assert(line@[sep as int] == ':');
                    }
                }
                return None;
            }
            assert(sep < line.len());
            let value = trim_start(&cut(line, sep + 1, line.len()));
            assert forall|s2: int| #[trigger] first_at(line@, ':', 1, s2) implies s2 == sep by {
                if s2 < sep {
                    assert(line@[s2] == ':');
                }
                if s2 > sep {
                    assert(line@[sep as int] == ':');
                }
            }
            Some((name, value))
        },
        None => None,
    }
}

/// A value segment that ends with ` \` continues on the next line (if there is one);
/// a segment that then ends with ` +` asks for a hard line break.
pub fn parse_attribute_continuation_segment(segment: &[char], has_next: bool) -> (r: Option<(Vec<char>, bool)>)
    ensures
        r is Some <==> has_next && crate::text::ends_with_spec(crate::text::trim_end_spec(segment@), " \\"@),
        r matches Some(p) ==> p.0@ == crate::text::trim_end_spec(segment@).subrange(
            0,
            crate::text::trim_end_spec(segment@).len() - 2,
        ) && p.1 == crate::text::ends_with_spec(p.0@, " +"@),
{
    if !has_next {
        return None;
    }
    let trimmed = trim_end(segment);
    proof {
        reveal_strlit(" \\");
    }
    match crate::text::strip_suffix_str(&trimmed, " \\") {
        Some(continued) => {
            let hard = ends_with_str(&continued, " +");
            Some((continued, hard))
        },
        None => None,
    }
}

/// An attribute entry starting at `index`, with the lines its value continues on.
/// Returns the name, the value and the number of lines taken.
pub fn parse_attribute_entry_at(lines: &[Vec<char>], index: usize) -> (r: Option<(Vec<char>, Vec<char>, usize)>)
    ensures
        r is Some <==> index < lines@.len() && is_attribute_entry(lines@[index as int]@),
        r matches Some(p) ==> 1 <= p.2 && index + p.2 <= lines@.len(),
        r matches Some(p) ==> forall|sep: int| #[trigger]
            first_at(lines@[index as int]@, ':', 1, sep) ==> p.0@ == entry_name(
                lines@[index as int]@,
                sep,
            ),
        r matches Some(p) ==> p.2 == 1 ==> forall|sep: int| #[trigger]
            first_at(lines@[index as int]@, ':', 1, sep) ==> p.1@ == entry_value(
                lines@[index as int]@,
                sep,
            ),
        r matches Some(p) ==> forall|sep: int| #[trigger]
            first_at(lines@[index as int]@, ':', 1, sep) && !entry_continues(
                lines@[index as int]@,
                sep,
            ) ==> p.2 == 1,
{
    if index >= lines.len() {
        return None;
    }
    let (name, first_segment) = match parse_attribute_entry(&lines[index]) {
        Some(p) => p,
        None => return None,
    };
    let mut value: Vec<char> = Vec::new();
    let mut consumed: usize = 0;
    let mut segment = first_segment;
    let n = lines.len();
    loop
        invariant
            n == lines@.len(),
            index < lines@.len(),
            is_attribute_entry(lines@[index as int]@),
            index + consumed < lines@.len(),
            forall|sep: int| #[trigger]
                first_at(lines@[index as int]@, ':', 1, sep) ==> name@ == entry_name(
                    lines@[index as int]@,
                    sep,
                ),
            consumed == 0 ==> value@.len() == 0,
            consumed == 0 ==> forall|sep: int| #[trigger]
                first_at(lines@[index as int]@, ':', 1, sep) ==> segment@ == entry_value(
                    lines@[index as int]@,
                    sep,
                ),
            consumed > 0 ==> forall|sep: int| #[trigger]
                first_at(lines@[index as int]@, ':', 1, sep) ==> entry_continues(lines@[index as int]@, sep),
        decreases lines@.len() - index - consumed,
    {
        consumed += 1;
        let has_next = index + consumed < lines.len();
        match parse_attribute_continuation_segment(&segment, has_next) {
            Some((continued, hard_wrap)) => {
                append(&mut value, &continued);
                if hard_wrap {
                    value.push('\n');
                } else {
                    value.push(' ');
                }
                segment = trim_start(&lines[index + consumed]);
            },
            None => {
                append(&mut value, &segment);
                return Some((name, value, consumed));
            },
        }
    }
}

// ---------------------------------------------------------------------------
// Authors and revisions

/// One author: display name, name parts, initials and e-mail address.
pub struct ImplicitAuthor {
    pub name: Vec<char>,
    pub firstname: Vec<char>,
    pub middlename: Option<Vec<char>>,
    pub lastname: Option<Vec<char>>,
    pub authorinitials: Vec<char>,
    pub email: Option<Vec<char>>,
}

/// A revision line: `v1.0, 2024-01-01: remark`.
pub struct ImplicitRevisionLine {
    pub number: Vec<char>,
    pub date: Option<Vec<char>>,
    pub remark: Option<Vec<char>>,
}

/// The display name of an author from its parts.
pub open spec fn display_name(first: Seq<char>, middle: Option<Vec<char>>, last: Option<Vec<char>>) -> Seq<char> {
    match (middle, last) {
        (Some(m), Some(l)) => first + " "@ + m@ + " "@ + l@,
        (None, Some(l)) => first + " "@ + l@,
        _ => first,
    }
}

/// The first letter of each name part.
pub open spec fn initials(first: Seq<char>, middle: Option<Vec<char>>, last: Option<Vec<char>>) -> Seq<char> {
    seq![first[0]] + (match middle {
        Some(m) => seq![m@[0]],
        None => Seq::empty(),
    }) + (match last {
        Some(l) => seq![l@[0]],
        None => Seq::empty(),
    })
}

/// The parts of an author built from a name.
pub open spec fn well_formed_author(a: ImplicitAuthor) -> bool {
    &&& a.firstname@.len() > 0
    &&& (a.middlename matches Some(m) ==> m@.len() > 0 && a.lastname is Some)
    &&& (a.lastname matches Some(l) ==> l@.len() > 0)
    &&& a.name@ == display_name(a.firstname@, a.middlename, a.lastname)
    &&& a.authorinitials@ == initials(a.firstname@, a.middlename, a.lastname)
}

/// Builds an author from a name (underscores read as spaces): the first word is the
/// first name, a third word makes the second the middle name, and the rest is the last name.
/// The first, middle and last name that a name gives: its words (underscores
/// read as spaces); a third word makes the second the middle name, and the words
/// from the last name on are joined by spaces.
pub open spec fn author_parts(name: Seq<char>) -> (Seq<char>, Option<Seq<char>>, Option<Seq<char>>) {
    let w = crate::meta::words_spec(replace_spec(name));
    (
        w[0],
        if w.len() > 2 {
            Some(w[1])
        } else {
            None
        },
        if w.len() == 2 {
            Some(w[1])
        } else if w.len() > 2 {
            Some(crate::text::join_spec(w.subrange(2, w.len() as int), " "@))
        } else {
            None
        },
    )
}

/// An author by its name parts.
pub open spec fn author_parts_view(a: ImplicitAuthor) -> (Seq<char>, Option<Seq<char>>, Option<Seq<char>>) {
    (a.firstname@, crate::meta::opt_chars_view(a.middlename), crate::meta::opt_chars_view(a.lastname))
}

pub fn build_author(name: &[char], email: Option<Vec<char>>) -> (r: Option<ImplicitAuthor>)
    ensures
        r is None <==> crate::text::all_ws(replace_spec(name@)),
        r matches Some(a) ==> well_formed_author(a) && a.email == email,
        r matches Some(a) ==> author_parts_view(a) == author_parts(name@),
{
    let normalized = replace_char(name, '_', ' ');
    assert(normalized@ == replace_spec(name@));
    let segments = split_whitespace(&normalized);
    if segments.len() == 0 {
        return None;
    }
    let firstname = copy(&segments[0]);
    let middlename = if segments.len() > 2 {
        Some(copy(&segments[1]))
    } else {
        None
    };
    let lastname = if segments.len() == 2 {
        Some(copy(&segments[1]))
    } else if segments.len() > 2 {
        let rest = vstd::slice::slice_subrange(segments.as_slice(), 2, segments.len());
        let joined = join_str(rest, " ");
        proof {
            lemma_join_nonempty_first(crate::text::views(rest@), " "@);
            assert(crate::text::views(rest@)[0] == segments@[2]@);
            assert(crate::text::views(rest@) =~= crate::text::views(segments@).subrange(
                2,
                segments@.len() as int,
            ));
        }
        Some(joined)
    } else {
        None
    };
    let mut authorinitials: Vec<char> = Vec::new();
    authorinitials.push(firstname[0]);
    match &middlename {
        Some(m) => authorinitials.push(m[0]),
        None => {},
    }
    match &lastname {
        Some(l) => authorinitials.push(l[0]),
        None => {},
    }
    let mut display = copy(&firstname);
    match (&middlename, &lastname) {
        (Some(m), Some(l)) => {
            display.push(' ');
            append(&mut display, m);
            display.push(' ');
            append(&mut display, l);
        },
        (None, Some(l)) => {
            display.push(' ');
            append(&mut display, l);
        },
        _ => {},
    }
    proof {
        reveal_strlit(" ");
        assert(authorinitials@ =~= initials(firstname@, middlename, lastname));
        assert(display@ =~= display_name(firstname@, middlename, lastname));
    }
    Some(
        ImplicitAuthor {
            name: display,
            firstname,
            middlename,
            lastname,
            authorinitials,
            email,
        },
    )
}

/// `s` with underscores read as spaces.
pub open spec fn replace_spec(s: Seq<char>) -> Seq<char> {
    Seq::new(s.len(), |k: int| if s[k] == '_' { ' ' } else { s[k] })
}

/// A join of parts whose first part is not empty is not empty, and starts with that part's first character.
proof fn lemma_join_nonempty_first(parts: Seq<Seq<char>>, sep: Seq<char>)
    requires
        parts.len() > 0,
        parts[0].len() > 0,
    ensures
        crate::text::join_spec(parts, sep).len() > 0,
        crate::text::join_spec(parts, sep)[0] == parts[0][0],
    decreases parts.len(),
{
    if parts.len() > 1 {
        lemma_join_nonempty_first(parts.drop_last(), sep);
    }
}

/// One author entry of an author line: `Name <email>` or `Name`.
/// The name and email of an author entry: `Name <email>` when both parts are
/// there and not blank, else the whole trimmed entry as the name.
pub open spec fn author_entry_spec(entry: Seq<char>) -> (Seq<char>, Option<Seq<char>>) {
    let t = trim_spec(entry);
    let wc = t.drop_last();
    let o = crate::text::last_pos(wc, '<');
    let name = trim_spec(wc.subrange(0, o));
    let email = trim_spec(wc.subrange(o + 1, wc.len() as int));
    if t.len() > 0 && t.last() == '>' && o >= 0 && name.len() > 0 && email.len() > 0 {
        (name, Some(email))
    } else {
        (t, None)
    }
}

pub fn parse_implicit_author_entry(entry: &[char]) -> (r: Option<ImplicitAuthor>)
    ensures
        r matches Some(a) ==> well_formed_author(a),
        r is Some <==> !crate::text::all_ws(replace_spec(author_entry_spec(entry@).0)),
        r matches Some(a) ==> author_parts_view(a) == author_parts(author_entry_spec(entry@).0)
            && crate::meta::opt_chars_view(a.email) == author_entry_spec(entry@).1,
{
    let trimmed = trim(entry);
    if trimmed.len() == 0 {
        return None;
    }
    if trimmed[trimmed.len() - 1] == '>' {
        let without_close = cut(&trimmed, 0, trimmed.len() - 1);
        match rfind_char(&without_close, '<') {
            Some(open) => {
                let name = trim(&cut(&without_close, 0, open));
                let email = trim(&cut(&without_close, open + 1, without_close.len()));
                if name.len() > 0 && email.len() > 0 {
                    return build_author(&name, Some(email));
                }
            },
            None => {},
        }
    }
    build_author(&trimmed, None)
}

/// The line after the document title read as `Author One <a@b>; Author Two`.
/// An author by its name parts and email.
pub open spec fn author_view(a: ImplicitAuthor) -> ((Seq<char>, Option<Seq<char>>, Option<Seq<char>>), Option<Seq<char>>) {
    (author_parts_view(a), crate::meta::opt_chars_view(a.email))
}

/// The authors that author entries give, in order; entries with no name are skipped.
pub open spec fn entry_authors(entries: Seq<Seq<char>>) -> Seq<((Seq<char>, Option<Seq<char>>, Option<Seq<char>>), Option<Seq<char>>)>
    decreases entries.len(),
{
    if entries.len() == 0 {
        Seq::empty()
    } else {
        let prev = entry_authors(entries.drop_last());
        let e = author_entry_spec(entries.last());
        if crate::text::all_ws(replace_spec(e.0)) {
            prev
        } else {
            prev.push((author_parts(e.0), e.1))
        }
    }
}

/// The line at `index` can be an author line: it is not blank, a comment, an
/// attribute entry, a heading or a revision line.
pub open spec fn author_line_candidate(lines: Seq<Vec<char>>, index: int) -> bool {
    let line = lines[index]@;
    &&& 0 <= index < lines.len()
    &&& trim_spec(line).len() > 0
    &&& !(crate::text::starts_at(trim_start_spec(line), 0, "//"@) && crate::meta::delimiter_spec(line) is None)
    &&& !is_attribute_entry(line)
    &&& !(atx_heading_spec(line) is Some || setext_heading_spec(lines, index) is Some)
    &&& revision_line_spec(line) is None
}

#[verifier::spinoff_prover]
#[verifier::rlimit(40)]
pub fn parse_implicit_author_line(lines: &[Vec<char>], index: usize) -> (r: Option<Vec<ImplicitAuthor>>)
    ensures
        r matches Some(v) ==> v@.len() > 0 && index < lines@.len() && forall|k: int|
            0 <= k < v@.len() ==> well_formed_author(#[trigger] v@[k]),
        r is Some <==> author_line_candidate(lines@, index as int) && entry_authors(
            crate::text::split_spec(trim_spec(lines@[index as int]@), ';'),
        ).len() > 0,
        r matches Some(v) ==> v@.map_values(|a: ImplicitAuthor| author_view(a)) == entry_authors(
            crate::text::split_spec(trim_spec(lines@[index as int]@), ';'),
        ),
{
    if index >= lines.len() {
        return None;
    }
    let line = &lines[index];
    let trimmed = trim(line);
    if trimmed.len() == 0 || is_comment_line(line) || parse_attribute_entry(line).is_some()
        || parse_heading(lines, index).is_some() || parse_implicit_revision_line(line).is_some() {
        return None;
    }
    let entries = crate::text::split_char(&trimmed, ';');
    let ghost es = crate::text::views(entries@);
    let mut authors: Vec<ImplicitAuthor> = Vec::new();
    let mut i: usize = 0;
    while i < entries.len()
        invariant
            i <= entries@.len(),
            es == crate::text::views(entries@),
            forall|k: int| 0 <= k < authors@.len() ==> well_formed_author(#[trigger] authors@[k]),
            authors@.map_values(|a: ImplicitAuthor| author_view(a)) == entry_authors(es.subrange(0, i as int)),
        decreases entries.len() - i,
    {
        assert(es.subrange(0, i + 1).drop_last() =~= es.subrange(0, i as int));
        assert(es.subrange(0, i + 1).last() == entries@[i as int]@);
        let ghost before = authors@;
        match parse_implicit_author_entry(&entries[i]) {
            Some(a) => {
                authors.push(a);
                assert(authors@.map_values(|a: ImplicitAuthor| author_view(a)) =~= before.map_values(
                    |a: ImplicitAuthor| author_view(a),
                ).push(author_view(a)));
            },
            None => {},
        }
        i += 1;
    }
    assert(es.subrange(0, entries@.len() as int) =~= es);
    if authors.len() == 0 {
        return None;
    }
    Some(authors)
}

/// `v1.0`, `v1.0, date`, `v1.0: remark`, `v1.0, date: remark` (also with `V`).
/// The number must be non-empty and hold no whitespace.
/// Whether `s` holds whitespace.
pub open spec fn has_ws(s: Seq<char>) -> bool {
    exists|k: int| 0 <= k < s.len() && is_ws(#[trigger] s[k])
}

/// The number, date and remark of a revision line: after a leading `v` or `V`,
/// the remark follows the first `:`, the date the first `,` before it; empty
/// parts are left out. The number must not be empty and holds no whitespace.
pub open spec fn revision_line_spec(line: Seq<char>) -> Option<(Seq<char>, Option<Seq<char>>, Option<Seq<char>>)> {
    let t = trim_spec(line);
    let rem = t.subrange(1, t.len() as int);
    let c = crate::text::first_pos(rem, ':');
    let nd = if c >= 0 {
        crate::text::trim_end_spec(rem.subrange(0, c))
    } else {
        rem
    };
    let remark = if c >= 0 {
        crate::inline::nonempty_opt(trim_spec(rem.subrange(c + 1, rem.len() as int)))
    } else {
        None
    };
    let d = crate::text::first_pos(nd, ',');
    let number = if d >= 0 {
        trim_spec(nd.subrange(0, d))
    } else {
        trim_spec(nd)
    };
    let date = if d >= 0 {
        crate::inline::nonempty_opt(trim_spec(nd.subrange(d + 1, nd.len() as int)))
    } else {
        None
    };
    if t.len() == 0 || (t[0] != 'v' && t[0] != 'V') || number.len() == 0 || has_ws(number) {
        None
    } else {
        Some((number, date, remark))
    }
}

pub fn parse_implicit_revision_line(line: &[char]) -> (r: Option<ImplicitRevisionLine>)
    ensures
        r is Some <==> revision_line_spec(line@) is Some,
        r matches Some(rev) ==> revision_line_spec(line@) == Some(
            (rev.number@, crate::meta::opt_chars_view(rev.date), crate::meta::opt_chars_view(rev.remark)),
        ),
        r matches Some(rev) ==> rev.number@.len() > 0 && (forall|k: int|
            0 <= k < rev.number@.len() ==> !is_ws(#[trigger] rev.number@[k])) && trim_spec(line@).len()
            > 0 && (trim_spec(line@)[0] == 'v' || trim_spec(line@)[0] == 'V'),
        r matches Some(rev) ==> (rev.date matches Some(d) ==> d@.len() > 0) && (
        rev.remark matches Some(m) ==> m@.len() > 0),
{
    let trimmed = trim(line);
    if trimmed.len() == 0 || (trimmed[0] != 'v' && trimmed[0] != 'V') {
        return None;
    }
    let remainder = cut(&trimmed, 1, trimmed.len());
    let (number_and_date, remark) = match find_char(&remainder, ':') {
        Some(i) => (
            trim_end(&cut(&remainder, 0, i)),
            Some(trim(&cut(&remainder, i + 1, remainder.len()))),
        ),
        None => (remainder, None),
    };
    let (number, date) = match find_char(&number_and_date, ',') {
        Some(i) => (
            trim(&cut(&number_and_date, 0, i)),
            Some(trim(&cut(&number_and_date, i + 1, number_and_date.len()))),
        ),
        None => (trim(&number_and_date), None),
    };
    if number.len() == 0 {
        return None;
    }
    let mut k: usize = 0;
    let mut spaced = false;
    while k < number.len() && !spaced
        invariant
            k <= number@.len(),
            forall|j: int| 0 <= j < k ==> !is_ws(#[trigger] number@[j]),
            spaced ==> k < number@.len() && is_ws(number@[k as int]),
        decreases number.len() - k, if spaced { 0int } else { 1int },
    {
        if is_whitespace(number[k]) {
            spaced = true;
        } else {
            k += 1;
        }
    }
    if spaced {
        return None;
    }
    let date = match date {
        Some(d) => if d.len() == 0 {
            None
        } else {
            Some(d)
        },
        None => None,
    };
    let remark = match remark {
        Some(m) => if m.len() == 0 {
            None
        } else {
            Some(m)
        },
        None => None,
    };
    Some(ImplicitRevisionLine { number, date, remark })
}

/// `name_index`, as in `firstname_2`.
pub fn indexed_key(name: &str, index: usize) -> (r: Vec<char>)
    ensures
        r@ == name@ + "_"@ + decimal_spec(index as nat),
{
    let mut r = crate::text::to_chars(name);
    append_str(&mut r, "_");
    let d = usize_to_chars(index);
    append(&mut r, &d);
    r
}

/// Sets the author attributes (`authors`, `authorcount`, `author`, `firstname`, ...)
/// from a non-empty author list; with several authors each also gets indexed keys.
pub fn insert_author_attributes(attributes: &mut AttributeMap, authors: &Vec<ImplicitAuthor>)
    requires
        forall|k: int| 0 <= k < authors@.len() ==> well_formed_author(#[trigger] authors@[k]),
    ensures
        authors@.len() == 0 ==> final(attributes)@ == old(attributes)@,
        authors@.len() > 0 ==> final(attributes)@.contains_key("authorcount"@) && final(attributes)@["authorcount"@]
            == decimal_spec(authors@.len()),
        authors@.len() > 0 ==> final(attributes)@.contains_key("author"@) && final(attributes)@["author"@]
            == authors@[0].name@,
        authors@.len() > 0 ==> final(attributes)@.contains_key("firstname"@) && final(attributes)@["firstname"@] == authors@[0].firstname@,
        authors@.len() > 0 ==> final(attributes)@.contains_key("authors"@),
{
    if authors.len() == 0 {
        return;
    }
    let mut names: Vec<Vec<char>> = Vec::new();
    let mut i: usize = 0;
    while i < authors.len()
        invariant
            i <= authors@.len(),
        decreases authors.len() - i,
    {
        names.push(copy(&authors[i].name));
        i += 1;
    }
    proof {
        reveal_strlit("authors");
        reveal_strlit("authorcount");
        reveal_strlit("author");
        reveal_strlit("firstname");
        lemma_no_underscore("authors"@);
        lemma_no_underscore("authorcount"@);
        lemma_no_underscore("author"@);
        lemma_no_underscore("firstname"@);
    }
    attributes.insert("authors", to_string(&join_str(&names, ", ")));
    let count = crate::text::usize_to_string(authors.len());
    attributes.insert("authorcount", count);
    assert("authorcount"@.len() == 11 && "authors"@.len() == 7);
    assert(attributes@["authorcount"@] == decimal_spec(authors@.len()));
    insert_primary_author_attributes(attributes, &authors[0], authors.len() == 1, false);
    assert(attributes@.contains_key("authorcount"@));
    assert(attributes@["authorcount"@] == decimal_spec(authors@.len()));
    if authors.len() > 1 {
        let mut k: usize = 0;
        while k < authors.len()
            invariant
                k <= authors@.len(),
                authors@.len() > 1,
                attributes@.contains_key("authorcount"@) && attributes@["authorcount"@] == decimal_spec(authors@.len()),
                attributes@.contains_key("author"@) && attributes@["author"@] == authors@[0].name@,
                attributes@.contains_key("firstname"@) && attributes@["firstname"@] == authors@[0].firstname@,
                attributes@.contains_key("authors"@),
                !"authorcount"@.contains('_') && !"author"@.contains('_'),
                !"firstname"@.contains('_') && !"authors"@.contains('_'),
            decreases authors.len() - k,
        {
            let ghost before = attributes@;
            insert_indexed_author_attributes(attributes, &authors[k], k + 1);
            assert(attributes@.contains_key("authorcount"@) == before.contains_key("authorcount"@));
            assert(attributes@["authorcount"@] == before["authorcount"@]);
            assert(attributes@.contains_key("author"@) == before.contains_key("author"@));
            assert(attributes@["author"@] == before["author"@]);
            assert(attributes@.contains_key("firstname"@) == before.contains_key("firstname"@));
            assert(attributes@["firstname"@] == before["firstname"@]);
            k += 1;
        }
    }
}

/// The primary author's attributes; existing initials (or e-mail) are kept when asked.
fn insert_primary_author_attributes(
    attributes: &mut AttributeMap,
    author: &ImplicitAuthor,
    preserve_existing_initials: bool,
    preserve_existing_email: bool,
)
    ensures
        final(attributes)@.contains_key("author"@) && final(attributes)@["author"@] == author.name@,
        final(attributes)@.contains_key("firstname"@) && final(attributes)@["firstname"@] == author.firstname@,
        forall|k: Seq<char>|
            k.len() != 5 && k.len() != 6 && k.len() != 8 && k.len() != 9 && k.len() != 10 && k.len() != 14
                ==> (#[trigger] final(attributes)@.contains_key(k) == old(attributes)@.contains_key(k)) && (
            old(attributes)@.contains_key(k) ==> final(attributes)@[k] == old(attributes)@[k]),
{
    proof {
        reveal_strlit("author");
        reveal_strlit("firstname");
        reveal_strlit("middlename");
        reveal_strlit("lastname");
        reveal_strlit("authorinitials");
        reveal_strlit("email");
        assert("author"@.len() == 6 && "firstname"@.len() == 9 && "middlename"@.len() == 10);
        assert("lastname"@.len() == 8 && "authorinitials"@.len() == 14 && "email"@.len() == 5);
    }
    let author_name = to_string(&author.name);
    let first_name = to_string(&author.firstname);
    attributes.insert("author", author_name);
    attributes.insert("firstname", first_name);
    assert(attributes@["author"@] == author.name@);
    match &author.middlename {
        Some(m) => attributes.insert("middlename", to_string(m)),
        None => {},
    }
    match &author.lastname {
        Some(l) => attributes.insert("lastname", to_string(l)),
        None => {},
    }
    if !(preserve_existing_initials && attributes.contains_key("authorinitials")) {
        attributes.insert("authorinitials", to_string(&author.authorinitials));
    }
    match &author.email {
        Some(e) => {
            if !preserve_existing_email || !attributes.contains_key("email") {
                attributes.insert("email", to_string(e));
            }
        },
        None => {},
    }
}

/// The author's attributes under keys suffixed with `_index`.
/// `name_i`.
pub open spec fn ikey(name: Seq<char>, i: nat) -> Seq<char> {
    name + "_"@ + decimal_spec(i)
}

/// `m` with an author's attributes numbered `i`: name, first name, middle and last
/// name when there are any, initials, and email when there is one.
pub open spec fn with_indexed_author(m: Map<Seq<char>, Seq<char>>, a: ImplicitAuthor, i: nat) -> Map<Seq<char>, Seq<char>> {
    let m1 = m.insert(ikey("author"@, i), a.name@).insert(ikey("firstname"@, i), a.firstname@);
    let m2 = match a.middlename {
        Some(x) => m1.insert(ikey("middlename"@, i), x@),
        None => m1,
    };
    let m3 = match a.lastname {
        Some(x) => m2.insert(ikey("lastname"@, i), x@),
        None => m2,
    };
    let m4 = m3.insert(ikey("authorinitials"@, i), a.authorinitials@);
    match a.email {
        Some(x) => m4.insert(ikey("email"@, i), x@),
        None => m4,
    }
}

fn insert_indexed_author_attributes(attributes: &mut AttributeMap, author: &ImplicitAuthor, index: usize)
    ensures
        same_without_underscore(old(attributes)@, final(attributes)@),
        final(attributes)@ == with_indexed_author(old(attributes)@, *author, index as nat),
{
    let ghost old_attrs = attributes@;
    proof {
        reveal_strlit("_");
    }
    let k1 = indexed_key("author", index);
    proof {
        lemma_insert_underscore_key(old_attrs, attributes@, k1@, author.name@, "author"@.len() as int);
    }
    attributes.insert_chars(&k1, to_string(&author.name));
    let k2 = indexed_key("firstname", index);
    proof {
        lemma_insert_underscore_key(old_attrs, attributes@, k2@, author.firstname@, "firstname"@.len() as int);
    }
    attributes.insert_chars(&k2, to_string(&author.firstname));
    let k3 = indexed_key("middlename", index);
    match &author.middlename {
        Some(m) => {
            proof {
                lemma_insert_underscore_key(old_attrs, attributes@, k3@, m@, "middlename"@.len() as int);
            }
            attributes.insert_chars(&k3, to_string(m));
        },
        None => {},
    }
    let k4 = indexed_key("lastname", index);
    match &author.lastname {
        Some(l) => {
            proof {
                lemma_insert_underscore_key(old_attrs, attributes@, k4@, l@, "lastname"@.len() as int);
            }
            attributes.insert_chars(&k4, to_string(l));
        },
        None => {},
    }
    let k5 = indexed_key("authorinitials", index);
    proof {
        lemma_insert_underscore_key(old_attrs, attributes@, k5@, author.authorinitials@, "authorinitials"@.len() as int);
    }
    attributes.insert_chars(&k5, to_string(&author.authorinitials));
    let k6 = indexed_key("email", index);
    match &author.email {
        Some(e) => {
            proof {
                lemma_insert_underscore_key(old_attrs, attributes@, k6@, e@, "email"@.len() as int);
            }
            attributes.insert_chars(&k6, to_string(e));
        },
        None => {},
    }
}

/// `b` has the keys of `a` without an underscore, with the same values, and no others.
pub open spec fn same_without_underscore(a: Map<Seq<char>, Seq<char>>, b: Map<Seq<char>, Seq<char>>) -> bool {
    forall|k: Seq<char>|
        !k.contains('_') ==> (#[trigger] b.contains_key(k) == a.contains_key(k)) && (a.contains_key(k) ==> b[k]
            == a[k])
}

/// Inserting under a key that holds an underscore keeps `same_without_underscore`.
proof fn lemma_insert_underscore_key(
    a: Map<Seq<char>, Seq<char>>,
    b: Map<Seq<char>, Seq<char>>,
    key: Seq<char>,
    value: Seq<char>,
    at: int,
)
    requires
        a == b || same_without_underscore(a, b),
        0 <= at < key.len(),
        key[at] == '_',
    ensures
        same_without_underscore(a, b.insert(key, value)),
{
    lemma_has_underscore(key, at);
}

proof fn lemma_no_underscore(k: Seq<char>)
    requires
        forall|j: int| 0 <= j < k.len() ==> #[trigger] k[j] != '_',
    ensures
        !k.contains('_'),
{
}

proof fn lemma_has_underscore(k: Seq<char>, at: int)
    requires
        0 <= at < k.len(),
        k[at] == '_',
    ensures
        k.contains('_'),
{
}

/// Keys derived from an explicit `author` or `authors` entry, which are rebuilt from it.
pub open spec fn derived_author_key(key: Seq<char>, preserve_primary_initials: bool) -> bool {
    key == "authorcount"@ || key == "firstname"@ || key == "middlename"@ || key == "lastname"@
        || key == "email"@ || crate::text::starts_at(key, 0, "author_"@) || crate::text::starts_at(
        key,
        0,
        "firstname_"@,
    ) || crate::text::starts_at(key, 0, "middlename_"@) || crate::text::starts_at(key, 0, "lastname_"@)
        || crate::text::starts_at(key, 0, "authorinitials_"@) || crate::text::starts_at(key, 0, "email_"@)
        || (!preserve_primary_initials && key == "authorinitials"@)
}

fn is_derived_author_key(key: &[char], preserve_primary_initials: bool) -> (r: bool)
    ensures
        r == derived_author_key(key@, preserve_primary_initials),
{
    eq_str(key, "authorcount") || eq_str(key, "firstname") || eq_str(key, "middlename") || eq_str(
        key,
        "lastname",
    ) || eq_str(key, "email") || starts_with_str(key, "author_") || starts_with_str(key, "firstname_")
        || starts_with_str(key, "middlename_") || starts_with_str(key, "lastname_") || starts_with_str(
        key,
        "authorinitials_",
    ) || starts_with_str(key, "email_") || (!preserve_primary_initials && eq_str(key, "authorinitials"))
}

/// Removes every derived author key.
pub fn clear_derived_author_attributes(attributes: &mut AttributeMap, preserve_primary_initials: bool)
    ensures
        forall|k: Seq<char>|
            #[trigger] final(attributes)@.contains_key(k) == (old(attributes)@.contains_key(k)
                && !derived_author_key(k, preserve_primary_initials)),
        forall|k: Seq<char>| #[trigger] final(attributes)@.contains_key(k) ==> final(attributes)@[k] == old(attributes)@[k],
{
    let keys = attributes.keys();
    let ghost old_attrs = attributes@;
    let mut i: usize = 0;
    while i < keys.len()
        invariant
            i <= keys@.len(),
            forall|j: int| 0 <= j < keys@.len() ==> old_attrs.contains_key((#[trigger] keys@[j])@),
            forall|x: Seq<char>|
                old_attrs.contains_key(x) ==> exists|j: int| 0 <= j < keys@.len() && (#[trigger] keys@[j])@ == x,
            forall|k: Seq<char>|
                #[trigger] attributes@.contains_key(k) ==> old_attrs.contains_key(k) && attributes@[k]
                    == old_attrs[k],
            forall|k: Seq<char>|
                old_attrs.contains_key(k) && !derived_author_key(k, preserve_primary_initials) ==> #[trigger] attributes@.contains_key(k),
            forall|j: int|
                0 <= j < i && derived_author_key((#[trigger] keys@[j])@, preserve_primary_initials)
                    ==> !attributes@.contains_key(keys@[j]@),
        decreases keys.len() - i,
    {
        let kc = crate::text::string_chars(&keys[i]);
        if is_derived_author_key(&kc, preserve_primary_initials) {
            attributes.remove_chars(&kc);
        }
        i += 1;
    }
    assert forall|k: Seq<char>|
        #[trigger] attributes@.contains_key(k) == (old_attrs.contains_key(k) && !derived_author_key(
            k,
            preserve_primary_initials,
        )) by {
        if old_attrs.contains_key(k) && derived_author_key(k, preserve_primary_initials) {
            let j = choose|j: int| 0 <= j < keys@.len() && (#[trigger] keys@[j])@ == k;
            assert(!attributes@.contains_key(keys@[j]@));
        }
    }
}

/// The number of entries that name an author (not blank once `_` reads as a space).
pub open spec fn named_author_count(entries: Seq<Seq<char>>) -> nat
    decreases entries.len(),
{
    if entries.len() == 0 {
        0
    } else {
        named_author_count(entries.drop_last()) + if crate::text::all_ws(replace_spec(entries.last())) {
            0nat
        } else {
            1nat
        }
    }
}

/// The number of authors an explicit `source_key` entry names: the `;`-separated
/// entries of `authors`, or the one name of `author`.
pub open spec fn explicit_author_count(attributes: Map<Seq<char>, Seq<char>>, source_key: Seq<char>) -> nat {
    let v = if attributes.contains_key(source_key) {
        attributes[source_key]
    } else {
        Seq::empty()
    };
    if source_key == "authors"@ {
        named_author_count(crate::text::split_spec(v, ';'))
    } else if crate::text::all_ws(replace_spec(v)) {
        0
    } else {
        1
    }
}

/// Rebuilds the author attributes from an explicit `author` or `authors` entry
/// (`source_key`); explicit initials of a single author are kept when asked.
pub fn normalize_explicit_author_attributes(
    attributes: &mut AttributeMap,
    source_key: &str,
    preserve_primary_initials: bool,
)
    ensures
        ({
            let n = explicit_author_count(old(attributes)@, source_key@);
            &&& n == 0 ==> final(attributes)@ == old(attributes)@
            &&& n > 0 ==> final(attributes)@.contains_key("authorcount"@) && final(attributes)@["authorcount"@]
                == decimal_spec(n) && final(attributes)@.contains_key("author"@)
            &&& n == 1 && preserve_primary_initials && old(attributes)@.contains_key("authorinitials"@)
                ==> final(attributes)@.contains_key("authorinitials"@) && final(attributes)@["authorinitials"@]
                == old(attributes)@["authorinitials"@]
        }),
{
    let ghost n = explicit_author_count(attributes@, source_key@);
    proof {
        reveal_strlit("authorcount");
        reveal_strlit("authorinitials");
        reveal_strlit("author");
        assert("authorcount"@ != "authorinitials"@ && "author"@ != "authorinitials"@) by {
            assert("authorcount"@.len() != "authorinitials"@.len());
            assert("author"@.len() != "authorinitials"@.len());
        }
    }
    let explicit_primary_initials: Option<String> = if preserve_primary_initials {
        match attributes.get("authorinitials") {
            Some(v) => Some(v.clone()),
            None => None,
        }
    } else {
        None
    };
    let source_value: Vec<char> = match attributes.get(source_key) {
        Some(v) => crate::text::string_chars(v),
        None => Vec::new(),
    };
    let is_authors = crate::text::eq_str(&crate::text::to_chars(source_key), "authors");
    let mut authors: Vec<ImplicitAuthor> = Vec::new();
    if is_authors {
        let entries = crate::text::split_char(&source_value, ';');
        let mut i: usize = 0;
        while i < entries.len()
            invariant
                i <= entries@.len(),
                forall|k: int| 0 <= k < authors@.len() ==> well_formed_author(#[trigger] authors@[k]),
                authors@.len() == named_author_count(crate::text::views(entries@.subrange(0, i as int))),
            decreases entries.len() - i,
        {
            assert(crate::text::views(entries@.subrange(0, i + 1)).drop_last() =~= crate::text::views(
                entries@.subrange(0, i as int),
            ));
            match build_author(&entries[i], None) {
                Some(a) => authors.push(a),
                None => {},
            }
            i += 1;
        }
        assert(entries@.subrange(0, entries@.len() as int) =~= entries@);
    } else {
        let email: Option<Vec<char>> = match attributes.get("email") {
            Some(e) => Some(crate::text::string_chars(e)),
            None => None,
        };
        match build_author(&source_value, email) {
            Some(a) => authors.push(a),
            None => {},
        }
    }
    assert(authors@.len() == n);
    if authors.len() == 0 {
        return;
    }
    if is_authors {
        let mut i: usize = 0;
        while i < authors.len()
            invariant
                i <= authors@.len(),
                authors@.len() == n,
                forall|k: int| 0 <= k < authors@.len() ==> well_formed_author(#[trigger] authors@[k]),
            decreases authors.len() - i,
        {
            let key = indexed_key("email", if i < usize::MAX { i + 1 } else { i });
            match attributes.get_chars(&key) {
                Some(e) => {
                    let email = crate::text::string_chars(e);
                    let mut a = authors.remove(i);
                    a.email = Some(email);
                    authors.insert(i, a);
                },
                None => {},
            }
            i += 1;
        }
    }
    clear_derived_author_attributes(attributes, preserve_primary_initials && authors.len() == 1);
    insert_author_attributes(attributes, &authors);
    if authors.len() == 1 {
        match explicit_primary_initials {
            Some(v) => attributes.insert("authorinitials", v),
            None => {},
        }
    }
}

// ---------------------------------------------------------------------------
// The document header

/// A `//` comment line that is not a comment-block delimiter.
pub open spec fn comment_line_spec(line: Seq<char>) -> bool {
    crate::text::starts_at(trim_start_spec(line), 0, "//"@) && crate::meta::delimiter_spec(line) is None
}

/// The first line at or after `i` that is not a comment line (or `i` itself when
/// it is past the end).
pub open spec fn comments_end(lines: Seq<Vec<char>>, i: int) -> int
    decreases lines.len() - i,
{
    if i < 0 || i >= lines.len() || !comment_line_spec(lines[i]@) {
        i
    } else {
        comments_end(lines, i + 1)
    }
}

pub fn skip_header_comments(lines: &[Vec<char>], index: usize) -> (r: usize)
    ensures
        index <= lines@.len() ==> index <= r <= lines@.len(),
        index > lines@.len() ==> r == index,
        r == comments_end(lines@, index as int),
{
    let mut i = index;
    while i < lines.len() && is_comment_line(&lines[i])
        invariant
            index <= i,
            index <= lines@.len() ==> i <= lines@.len(),
            index > lines@.len() ==> i == index,
            comments_end(lines@, index as int) == comments_end(lines@, i as int),
        decreases lines.len() - i,
    {
        i += 1;
    }
    i
}

/// The heading at `i`, its level and title: an ATX heading, else a setext one.
pub open spec fn heading_spec(lines: Seq<Vec<char>>, i: int) -> Option<(u8, Seq<char>)> {
    if i < 0 || i >= lines.len() {
        None
    } else {
        match atx_heading_spec(lines[i]@) {
            Some(a) => Some(a),
            None => setext_heading_spec(lines, i),
        }
    }
}

/// The document title: a level-0 heading after the leading comment lines.
pub open spec fn document_title_spec(lines: Seq<Vec<char>>) -> Option<Seq<char>> {
    match heading_spec(lines, comments_end(lines, 0)) {
        Some(h) => if h.0 == 0 {
            Some(h.1)
        } else {
            None
        },
        None => None,
    }
}

/// Reading the attribute entries of a header from line `i` with the attributes
/// `attrs` so far: where the body starts, the attributes, and whether an entry set
/// `author` or `authors`. A blank line ends the header (and is skipped), comment
/// lines are skipped, one-line entries are stored, and any other line starts the
/// body. Nothing is said (`None`) once an entry goes on on the next line.
pub open spec fn header_entries(lines: Seq<Vec<char>>, i: int, attrs: Map<Seq<char>, Seq<char>>, saw_author: bool) -> Option<
    (int, Map<Seq<char>, Seq<char>>, bool),
>
    decreases lines.len() - i,
{
    if i < 0 || i >= lines.len() {
        Some((i, attrs, saw_author))
    } else if trim_spec(lines[i]@).len() == 0 {
        Some((i + 1, attrs, saw_author))
    } else if comment_line_spec(lines[i]@) {
        header_entries(lines, i + 1, attrs, saw_author)
    } else if is_attribute_entry(lines[i]@) {
        let l = lines[i]@;
        let sep = entry_sep(l);
        if entry_continues(l, sep) {
            None
        } else {
            let name = entry_name(l, sep);
            header_entries(
                lines,
                i + 1,
                attrs.insert(name, entry_value(l, sep)),
                saw_author || name == "author"@ || name == "authors"@,
            )
        }
    } else {
        Some((i, attrs, saw_author))
    }
}

/// The first line after a document title (an ATX title takes one line, a setext
/// title two) and the comment lines that follow it.
pub open spec fn title_end(lines: Seq<Vec<char>>) -> int {
    let ce = comments_end(lines, 0);
    comments_end(lines, ce + if atx_heading_spec(lines[ce]@) is Some {
        1int
    } else {
        2int
    })
}

/// The document header: an optional level-0 title, the author and revision lines
/// under it, and the attribute entries up to the first blank line. Returns the title,
/// the attributes and the index of the first line of the body.
pub fn parse_document_header(lines: &[Vec<char>]) -> (r: (Option<Heading>, AttributeMap, usize))
    ensures
        r.2 <= lines@.len(),
        r.0 matches Some(h) ==> h.level == 0,
        lines@.len() == 0 ==> r.0 is None && r.2 == 0,
        r.0 is Some <==> document_title_spec(lines@) is Some,
        r.0 matches Some(h) ==> document_title_spec(lines@) == Some(h.title@),
        r.0 matches Some(h) ==> h.id is None && h.reftext is None,
        r.0 is None && lines@.len() > 0 && !comment_line_spec(lines@[0]@) && trim_spec(lines@[0]@).len() > 0
            && !is_attribute_entry(lines@[0]@) ==> r.2 == 0 && r.1@ == Map::<Seq<char>, Seq<char>>::empty(),
        r.0 is None ==> match header_entries(lines@, comments_end(lines@, 0), Map::empty(), false) {
            Some((end, attrs, false)) => r.2 == end && r.1@ == attrs,
            _ => true,
        },
        ({
            let first = title_end(lines@);
            r.0 is Some && !(author_line_candidate(lines@, first) && entry_authors(
                crate::text::split_spec(trim_spec(lines@[first]@), ';'),
            ).len() > 0) ==> match header_entries(lines@, first, Map::empty(), false) {
                Some((end, attrs, false)) => r.2 == end && r.1@ == attrs,
                _ => true,
            }
        }),
{
    let total = lines.len();
    assert(total == lines@.len());
    let mut attributes = AttributeMap::new();
    let mut saw_explicit_author = false;
    let mut saw_explicit_authors = false;
    let mut saw_explicit_authorinitials = false;
    let mut index = skip_header_comments(lines, 0);
    let title = match parse_heading(lines, index) {
        Some((heading, consumed)) => {
            if heading.level == 0 {
                index += consumed;
                Some(heading)
            } else {
                None
            }
        },
        None => None,
    };
    if title.is_some() {
        index = skip_header_comments(lines, index);
        match parse_implicit_author_line(lines, index) {
            Some(authors) => {
                insert_author_attributes(&mut attributes, &authors);
                index += 1;
                index = skip_header_comments(lines, index);
                if index < lines.len() {
                    match parse_implicit_revision_line(&lines[index]) {
                        Some(rev) => {
                            attributes.insert("revnumber", to_string(&rev.number));
                            match rev.date {
                                Some(d) => attributes.insert("revdate", to_string(&d)),
                                None => {},
                            }
                            match rev.remark {
                                Some(m) => attributes.insert("revremark", to_string(&m)),
                                None => {},
                            }
                            index += 1;
                        },
                        None => {},
                    }
                }
            },
            None => {},
        }
    }
    let n = lines.len();
    let ghost bare = title is None && lines@.len() > 0 && !comment_line_spec(lines@[0]@) && trim_spec(
        lines@[0]@,
    ).len() > 0 && !is_attribute_entry(lines@[0]@);
    proof {
        if bare {
            assert(comments_end(lines@, 0) == 0);
        }
    }
    let ghost target = header_entries(lines@, index as int, attributes@, false);
    proof {
        if title is None {
            assert(index == comments_end(lines@, 0));
            assert(attributes@ == Map::<Seq<char>, Seq<char>>::empty());
        }
    }
    while index < n
        invariant_except_break
            target is Some ==> header_entries(
                lines@,
                index as int,
                attributes@,
                saw_explicit_author || saw_explicit_authors,
            ) == target,
        invariant
            n == lines@.len(),
            index <= lines@.len(),
            bare == (title is None && lines@.len() > 0 && !comment_line_spec(lines@[0]@) && trim_spec(
                lines@[0]@,
            ).len() > 0 && !is_attribute_entry(lines@[0]@)),
            bare ==> index == 0 && attributes@ == Map::<Seq<char>, Seq<char>>::empty() && !saw_explicit_author
                && !saw_explicit_authors,
        ensures
            match target {
                Some((end, attrs, saw)) => index == end && attributes@ == attrs && saw == (saw_explicit_author
                    || saw_explicit_authors),
                None => true,
            },
            bare ==> index == 0 && attributes@ == Map::<Seq<char>, Seq<char>>::empty() && !saw_explicit_author
                && !saw_explicit_authors,
            index <= lines@.len(),
        decreases n - index,
    {
        let line = &lines[index];
        if is_blank(line) {
            index += 1;
            break;
        }
        if is_comment_line(line) {
            index += 1;
            continue;
        }
        match parse_attribute_entry_at(lines, index) {
            Some((name, value, consumed)) => {
                proof {
                    let l = lines@[index as int]@;
                    let sep = entry_sep(l);
                    assert(first_at(l, ':', 1, sep));
                }
                if eq_str(&name, "author") {
                    saw_explicit_author = true;
                } else if eq_str(&name, "authors") {
                    saw_explicit_authors = true;
                } else if eq_str(&name, "authorinitials") {
                    saw_explicit_authorinitials = true;
                }
                attributes.insert_chars(&name, to_string(&value));
                index += consumed;
            },
            None => break,
        }
    }
    if saw_explicit_authors {
        normalize_explicit_author_attributes(&mut attributes, "authors", saw_explicit_authorinitials);
    } else if saw_explicit_author {
        normalize_explicit_author_attributes(&mut attributes, "author", saw_explicit_authorinitials);
    }
    (title, attributes, index)
}

} // verus!
