//! HTML output for a prepared document.
use vstd::prelude::*;
use crate::attrs::AttributeMap;
use crate::prepare::{
    AdmonitionBlock, CalloutListBlock, CompoundBlock, DescriptionListBlock, DescriptionListItemBlock,
    DocumentBlock, DocumentSection, Footnote, ImageBlock, ListBlock, ListItemBlock, ListingBlock,
    ParagraphBlock, PassthroughBlock, PreparedBlock, PreparedInline, QuoteBlock, TableBlock, TableCell,
    TableRow, prepare_document, IconInline, ImageInline,
};
use crate::text::{
    append, append_str, chars_eq, copy, cut, eq_ignore_ascii_case, eq_str, find_char, find_char_from,
    find_from, is_blank, join_str, split_char, starts_with_str, string_chars, to_ascii_lowercase, to_chars,
    to_string, trim, trim_end, usize_to_chars, contains_char,
};

verus! {

// ---------------------------------------------------------------------------
// Escaping

/// The HTML escape of one character.
pub open spec fn escape_char(c: char) -> Seq<char> {
    if c == '&' {
        "&amp;"@
    } else if c == '<' {
        "&lt;"@
    } else if c == '>' {
        "&gt;"@
    } else if c == '"' {
        "&quot;"@
    } else if c == '\'' {
        "&#39;"@
    } else {
        seq![c]
    }
}

/// The HTML escape of a text: each character escaped in turn.
pub open spec fn escape_spec(s: Seq<char>) -> Seq<char>
    decreases s.len(),
{
    if s.len() == 0 {
        Seq::empty()
    } else {
        escape_spec(s.drop_last()) + escape_char(s.last())
    }
}

/// Escaped text holds no raw `<`, `>`, `"` or `'`: each became an entity.
pub proof fn law_escaped_text_has_no_markup_characters(s: Seq<char>)
    ensures
        forall|i: int|
            0 <= i < escape_spec(s).len() ==> escape_spec(s)[i] != '<' && escape_spec(s)[i] != '>'
                && escape_spec(s)[i] != '"' && escape_spec(s)[i] != '\'',
    decreases s.len(),
{
    if s.len() > 0 {
        law_escaped_text_has_no_markup_characters(s.drop_last());
        let prefix = escape_spec(s.drop_last());
        let tail = escape_char(s.last());
        reveal_strlit("&amp;");
        reveal_strlit("&lt;");
        reveal_strlit("&gt;");
        reveal_strlit("&quot;");
        reveal_strlit("&#39;");
        assert forall|i: int| 0 <= i < tail.len() implies tail[i] != '<' && tail[i] != '>' && tail[i] != '"'
            && tail[i] != '\'' by {}
        assert forall|i: int| 0 <= i < escape_spec(s).len() implies escape_spec(s)[i] != '<' && escape_spec(
            s,
        )[i] != '>' && escape_spec(s)[i] != '"' && escape_spec(s)[i] != '\'' by {
            if i < prefix.len() {
                assert(escape_spec(s)[i] == prefix[i]);
            } else {
                assert(escape_spec(s)[i] == tail[i - prefix.len()]);
            }
        }
    }
}

/// Text without `&`, `<`, `>`, `"` or `'` is its own escape.
pub proof fn law_plain_text_escapes_to_itself(s: Seq<char>)
    requires
        forall|i: int|
            0 <= i < s.len() ==> s[i] != '&' && s[i] != '<' && s[i] != '>' && s[i] != '"' && s[i] != '\'',
    ensures
        escape_spec(s) == s,
    decreases s.len(),
{
    if s.len() > 0 {
        law_plain_text_escapes_to_itself(s.drop_last());
        assert(escape_spec(s) =~= s.drop_last() + seq![s.last()]);
        assert(s.drop_last() + seq![s.last()] =~= s);
    }
}

/// The text an HTML-escaped text stands for: the five entities that escaping writes
/// are read back as their characters.
pub open spec fn unescape_spec(t: Seq<char>) -> Seq<char>
    decreases t.len(),
{
    if t.len() == 0 {
        t
    } else if t.len() >= 5 && t.subrange(0, 5) == "&amp;"@ {
        seq!['&'] + unescape_spec(t.subrange(5, t.len() as int))
    } else if t.len() >= 4 && t.subrange(0, 4) == "&lt;"@ {
        seq!['<'] + unescape_spec(t.subrange(4, t.len() as int))
    } else if t.len() >= 4 && t.subrange(0, 4) == "&gt;"@ {
        seq!['>'] + unescape_spec(t.subrange(4, t.len() as int))
    } else if t.len() >= 6 && t.subrange(0, 6) == "&quot;"@ {
        seq!['"'] + unescape_spec(t.subrange(6, t.len() as int))
    } else if t.len() >= 5 && t.subrange(0, 5) == "&#39;"@ {
        seq!['\''] + unescape_spec(t.subrange(5, t.len() as int))
    } else {
        seq![t[0]] + unescape_spec(t.drop_first())
    }
}

proof fn lemma_escape_cons(c: char, s: Seq<char>)
    ensures
        escape_spec(seq![c] + s) == escape_char(c) + escape_spec(s),
    decreases s.len(),
{
    if s.len() == 0 {
        assert((seq![c] + s).drop_last() =~= Seq::<char>::empty());
        assert(seq![c] + s =~= seq![c]);
        assert(escape_spec(seq![c]) == escape_spec(Seq::<char>::empty()) + escape_char(c));
        assert(escape_spec(Seq::<char>::empty()) + escape_char(c) =~= escape_char(c));
        assert(escape_char(c) + escape_spec(s) =~= escape_char(c));
    } else {
        lemma_escape_cons(c, s.drop_last());
        assert((seq![c] + s).drop_last() =~= seq![c] + s.drop_last());
        assert((seq![c] + s).last() == s.last());
        assert(escape_char(c) + escape_spec(s.drop_last()) + escape_char(s.last()) =~= escape_char(c)
            + escape_spec(s));
    }
}

proof fn lemma_unescape_char(c: char, rest: Seq<char>)
    ensures
        unescape_spec(escape_char(c) + rest) == seq![c] + unescape_spec(rest),
{
    reveal_strlit("&amp;");
    reveal_strlit("&lt;");
    reveal_strlit("&gt;");
    reveal_strlit("&quot;");
    reveal_strlit("&#39;");
    let t = escape_char(c) + rest;
    let e = escape_char(c);
    assert(t.subrange(e.len() as int, t.len() as int) =~= rest);
    assert(t.subrange(0, e.len() as int) =~= e);
    if c == '&' || c == '<' || c == '>' || c == '"' || c == '\'' {
        assert(t[0] == '&');
        assert(t[1] == e[1]);
        if c != '&' && t.len() >= 5 {
            assert(t.subrange(0, 5)[1] == e[1]);
        }
        if c == '>' {
            assert(t.subrange(0, 4)[1] == 'g');
        }
        if c == '"' {
            assert(t.subrange(0, 4)[1] == 'q');
        }
        if c == '\'' && t.len() >= 4 {
            assert(t.subrange(0, 4)[1] == '#');
        }
        if c == '\'' && t.len() >= 6 {
            assert(t.subrange(0, 6)[1] == '#');
        }
    } else {
        assert(t[0] == c);
        assert(t.drop_first() =~= rest);
        if t.len() >= 4 {
            assert(t.subrange(0, 4)[0] == c);
        }
        if t.len() >= 5 {
            assert(t.subrange(0, 5)[0] == c);
        }
        if t.len() >= 6 {
            assert(t.subrange(0, 6)[0] == c);
        }
    }
}

/// Escaping loses nothing: reading the entities of an escaped text back gives the
/// text.
pub proof fn law_escape_reads_back(s: Seq<char>)
    ensures
        unescape_spec(escape_spec(s)) == s,
    decreases s.len(),
{
    if s.len() > 0 {
        let c = s[0];
        let rest = s.drop_first();
        assert(s =~= seq![c] + rest);
        lemma_escape_cons(c, rest);
        lemma_unescape_char(c, escape_spec(rest));
        law_escape_reads_back(rest);
    }
}

/// Appends the HTML escape of `input` (`&`, `<`, `>`, `"` and `'` become entities).
pub fn push_escaped(out: &mut Vec<char>, input: &[char])
    ensures
        final(out)@ == old(out)@ + escape_spec(input@),
{
    let mut i: usize = 0;
    while i < input.len()
        invariant
            i <= input@.len(),
            out@ == old(out)@ + escape_spec(input@.subrange(0, i as int)),
        decreases input.len() - i,
    {
        let ghost before = out@;
        let ch = input[i];
        if ch == '&' {
            append_str(out, "&amp;");
        } else if ch == '<' {
            append_str(out, "&lt;");
        } else if ch == '>' {
            append_str(out, "&gt;");
        } else if ch == '"' {
            append_str(out, "&quot;");
        } else if ch == '\'' {
            append_str(out, "&#39;");
        } else {
            out.push(ch);
        }
        assert(out@ =~= before + escape_char(ch));
        assert(input@.subrange(0, i + 1).drop_last() =~= input@.subrange(0, i as int));
        i += 1;
    }
    assert(input@.subrange(0, input@.len() as int) =~= input@);
}

/// The HTML escape of a text (see `escape_spec`).
pub fn escape_html(input: &str) -> (r: String)
    ensures
        r@ == escape_spec(input@),
{
    let mut out: Vec<char> = Vec::new();
    push_escaped(&mut out, &to_chars(input));
    assert(out@ =~= escape_spec(input@));
    to_string(&out)
}

fn push_escaped_string(out: &mut Vec<char>, s: &String)
    ensures
        final(out)@ == old(out)@ + escape_spec(s@),
{
    push_escaped(out, &string_chars(s));
}

fn push(out: &mut Vec<char>, s: &str)
    ensures
        final(out)@ == old(out)@ + s@,
{
    append_str(out, s);
}

fn push_string(out: &mut Vec<char>, s: &String)
    ensures
        final(out)@ == old(out)@ + s@,
{
    append(out, &string_chars(s));
}

fn push_u32(out: &mut Vec<char>, n: u32)
    ensures
        final(out)@ == old(out)@ + crate::text::decimal_spec(n as nat),
{
    append(out, &usize_to_chars(n as usize));
}

fn push_usize(out: &mut Vec<char>, n: usize)
    ensures
        final(out)@ == old(out)@ + crate::text::decimal_spec(n as nat),
{
    append(out, &usize_to_chars(n));
}

/// `b` is `a` with more text after it.
pub open spec fn appended(a: Seq<char>, b: Seq<char>) -> bool {
    a.len() <= b.len() && forall|k: int| 0 <= k < a.len() ==> #[trigger] b[k] == a[k]
}

/// `b` holds `open` at position `at`.
pub open spec fn opens_at(b: Seq<char>, at: int, open: Seq<char>) -> bool {
    0 <= at && at + open.len() <= b.len() && forall|j: int| 0 <= j < open.len() ==> b[at + j] == #[trigger] open[j]
}

/// `b` is `a` followed by a piece of HTML that starts with `open` and ends with `close`.
pub open spec fn framed(a: Seq<char>, b: Seq<char>, open: Seq<char>, close: Seq<char>) -> bool {
    &&& appended(a, b)
    &&& b.len() >= a.len() + open.len() + close.len()
    &&& opens_at(b, a.len() as int, open)
    &&& crate::text::ends_with_spec(b, close)
}

/// Appending is transitive.
proof fn lemma_appended_trans(a: Seq<char>, b: Seq<char>, c: Seq<char>)
    requires
        appended(a, b),
        appended(b, c),
    ensures
        appended(a, c),
{
    assert forall|k: int| 0 <= k < a.len() implies #[trigger] c[k] == a[k] by {
        assert(c[k] == b[k]);
    }
}

/// Text followed by more text was appended to.
proof fn lemma_appended_add(a: Seq<char>, t: Seq<char>)
    ensures
        appended(a, a + t),
{
    assert forall|k: int| 0 <= k < a.len() implies #[trigger] (a + t)[k] == a[k] by {}
}

/// `open` written after `a`, more text appended, then `close`: a frame.
proof fn lemma_frame(a: Seq<char>, mid: Seq<char>, fin: Seq<char>, open: Seq<char>, close: Seq<char>)
    requires
        appended(a + open, mid),
        fin == mid + close,
    ensures
        framed(a, fin, open, close),
{
    let opened = a + open;
    assert forall|k: int| 0 <= k < a.len() implies #[trigger] fin[k] == a[k] by {
        assert(fin[k] == mid[k]);
        assert(mid[k] == opened[k]);
    }
    assert forall|j: int| 0 <= j < open.len() implies fin[a.len() + j] == #[trigger] open[j] by {
        assert(fin[a.len() + j] == mid[a.len() + j]);
        assert(mid[a.len() + j] == opened[a.len() + j]);
    }
    assert(fin.subrange(fin.len() - close.len(), fin.len() as int) =~= close);
}

/// ` id="..."` for an optional id.
pub open spec fn id_attr_html(id: Option<String>) -> Seq<char> {
    match id {
        Some(x) => " id=\""@ + escape_spec(x@) + "\""@,
        None => Seq::empty(),
    }
}

/// `<div class="title">...</div>` for an optional title.
pub open spec fn title_div_html(title: Option<Seq<char>>) -> Seq<char> {
    match title {
        Some(t) => "<div class=\"title\">"@ + escape_spec(t) + "</div>\n"@,
        None => Seq::empty(),
    }
}

/// ` id="..."` for a block with an id.
fn push_id_attr(out: &mut Vec<char>, id: &Option<String>)
    ensures
        final(out)@ == old(out)@ + id_attr_html(*id),
{
    match id {
        Some(id) => {
            push(out, " id=\"");
            push_escaped_string(out, id);
            push(out, "\"");
        },
        None => {},
    }
    assert(out@ =~= old(out)@ + id_attr_html(*id));
}

/// `<div class="title">...</div>` for a title.
fn push_title_div(out: &mut Vec<char>, title: &Option<Vec<char>>)
    ensures
        final(out)@ == old(out)@ + title_div_html(crate::meta::opt_chars_view(*title)),
{
    match title {
        Some(t) => {
            push(out, "<div class=\"title\">");
            push_escaped(out, t);
            push(out, "</div>\n");
        },
        None => {},
    }
    assert(out@ =~= old(out)@ + title_div_html(crate::meta::opt_chars_view(*title)));
}

// ---------------------------------------------------------------------------
// Counters

/// A counter's state: a number, or a letter sequence (`a`..`z`, `aa`, ...).
#[derive(Debug, Clone, Copy, PartialEq, Eq, Structural)]
pub enum CounterState {
    Numeric(u32),
    Alpha { index: u32, uppercase: bool },
}

/// The named counters of one rendering.
pub struct Counters {
    pub entries: Vec<(Vec<char>, CounterState)>,
}

/// The letters of a positive index in bijective base 26 (`1` is `a`, `27` is `aa`).
pub open spec fn alphabetic_spec(index: nat, uppercase: bool) -> Seq<char>
    decreases index,
{
    if index == 0 {
        Seq::empty()
    } else {
        let base: nat = if uppercase {
            65
        } else {
            97
        };
        alphabetic_spec(((index - 1) / 26) as nat, uppercase) + seq![
            ((base + ((index - 1) % 26) as nat) as u32) as char,
        ]
    }
}

/// The letters of an index (see `alphabetic_spec`).
pub fn index_to_alphabetic(index: u32, uppercase: bool) -> (r: Vec<char>)
    ensures
        r@ == alphabetic_spec(index as nat, uppercase),
{
    let mut rev: Vec<char> = Vec::new();
    let mut n = index;
    let ghost mut done: Seq<char> = Seq::empty();
    while n > 0
        invariant
            alphabetic_spec(index as nat, uppercase) == alphabetic_spec(n as nat, uppercase) + done,
            rev@ == done.reverse(),
        decreases n,
    {
        let m = n - 1;
        let digit = m % 26;
        let c = if uppercase {
            crate::text::char_from_ascii(65 + digit)
        } else {
            crate::text::char_from_ascii(97 + digit)
        };
        proof {
            let base: nat = if uppercase {
                65
            } else {
                97
            };
            assert(c == ((base + ((n as nat - 1) % 26) as nat) as u32) as char);
            done = seq![c] + done;
        }
        rev.push(c);
        n = m / 26;
        assert(rev@ =~= done.reverse());
    }
    let mut out: Vec<char> = Vec::new();
    let mut i = rev.len();
    while i > 0
        invariant
            i <= rev@.len(),
            out@ == rev@.subrange(i as int, rev@.len() as int).reverse(),
        decreases i,
    {
        i -= 1;
        out.push(rev[i]);
        assert(out@ =~= rev@.subrange(i as int, rev@.len() as int).reverse());
    }
    assert(rev@.subrange(0, rev@.len() as int) =~= rev@);
    assert(done.reverse().reverse() =~= done);
    out
}

/// The bijective base-26 digit of a letter (`a` and `A` are 1), or 0 for another character.
pub open spec fn letter_digit(c: char) -> int {
    if 'A' <= c <= 'Z' {
        c as int - 64
    } else if 'a' <= c <= 'z' {
        c as int - 96
    } else {
        0
    }
}

/// Whether `c` is an ASCII letter.
pub open spec fn is_ascii_letter(c: char) -> bool {
    ('A' <= c <= 'Z') || ('a' <= c <= 'z')
}

/// The value of a letter sequence in bijective base 26 (`a` is 1, `z` 26, `aa` 27).
pub open spec fn letters_value(s: Seq<char>) -> int
    decreases s.len(),
{
    if s.len() == 0 {
        0
    } else {
        letters_value(s.drop_last()) * 26 + letter_digit(s.last())
    }
}

proof fn lemma_letters_value_grows(s: Seq<char>, i: int)
    requires
        0 <= i <= s.len(),
        forall|k: int| 0 <= k < s.len() ==> is_ascii_letter(#[trigger] s[k]),
    ensures
        0 <= letters_value(s.subrange(0, i)) <= letters_value(s),
    decreases s.len() - i,
{
    if i < s.len() {
        lemma_letters_value_grows(s, i + 1);
        let p = s.subrange(0, i + 1);
        assert(p.drop_last() =~= s.subrange(0, i));
        assert(is_ascii_letter(s[i]));
    } else {
        assert(s.subrange(0, i) =~= s);
    }
    lemma_letters_value_nonneg(s.subrange(0, i));
}

proof fn lemma_letters_value_nonneg(s: Seq<char>)
    ensures
        letters_value(s) >= 0,
    decreases s.len(),
{
    if s.len() > 0 {
        lemma_letters_value_nonneg(s.drop_last());
    }
}

/// Letters read back as the index they were written for: the letters of `index`
/// are ASCII letters whose bijective base-26 value is `index`.
pub proof fn law_letters_read_back(index: nat, uppercase: bool)
    ensures
        forall|k: int|
            0 <= k < alphabetic_spec(index, uppercase).len() ==> is_ascii_letter(
                #[trigger] alphabetic_spec(index, uppercase)[k],
            ),
        letters_value(alphabetic_spec(index, uppercase)) == index,
    decreases index,
{
    if index > 0 {
        let q: nat = ((index - 1) / 26) as nat;
        let d: nat = ((index - 1) % 26) as nat;
        law_letters_read_back(q, uppercase);
        let base: nat = if uppercase {
            65
        } else {
            97
        };
        let c = ((base + d) as u32) as char;
        let prefix = alphabetic_spec(q, uppercase);
        let s = alphabetic_spec(index, uppercase);
        assert(s == prefix + seq![c]);
        assert(c as int == base + d);
        assert(is_ascii_letter(c));
        assert(letter_digit(c) == d + 1);
        assert(s.drop_last() =~= prefix);
        assert(s.last() == c);
        assert(q * 26 + d + 1 == index);
        assert forall|k: int| 0 <= k < s.len() implies is_ascii_letter(#[trigger] s[k]) by {
            if k < prefix.len() {
                assert(s[k] == prefix[k]);
            }
        }
    }
}

/// The index of a letter sequence; `None` for other characters or on overflow.
pub fn alphabetic_to_index(seed: &[char]) -> (r: Option<u32>)
    ensures
        r is Some <==> (forall|k: int| 0 <= k < seed@.len() ==> is_ascii_letter(#[trigger] seed@[k]))
            && letters_value(seed@) <= u32::MAX,
        r matches Some(v) ==> v == letters_value(seed@),
{
    let mut value: u32 = 0;
    let mut i: usize = 0;
    while i < seed.len()
        invariant
            i <= seed@.len(),
            forall|k: int| 0 <= k < i ==> is_ascii_letter(#[trigger] seed@[k]),
            value == letters_value(seed@.subrange(0, i as int)),
        decreases seed.len() - i,
    {
        let ch = seed[i];
        assert(seed@.subrange(0, i + 1).drop_last() =~= seed@.subrange(0, i as int));
        let digit: u32 = if 'A' <= ch && ch <= 'Z' {
            (ch as u32) - 64
        } else if 'a' <= ch && ch <= 'z' {
            (ch as u32) - 96
        } else {
            return None;
        };
        if value > (u32::MAX - digit) / 26 {
            proof {
                if forall|k: int| 0 <= k < seed@.len() ==> is_ascii_letter(#[trigger] seed@[k]) {
                    lemma_letters_value_grows(seed@, i + 1);
                }
            }
            return None;
        }
        value = value * 26 + digit;
        i += 1;
    }
    assert(seed@.subrange(0, i as int) =~= seed@);
    Some(value)
}

fn all_ascii_upper(s: &[char]) -> (r: bool)
    ensures
        r == forall|k: int| 0 <= k < s@.len() ==> 'A' <= #[trigger] s@[k] <= 'Z',
{
    let mut i: usize = 0;
    while i < s.len()
        invariant
            i <= s@.len(),
            forall|k: int| 0 <= k < i ==> 'A' <= #[trigger] s@[k] <= 'Z',
        decreases s.len() - i,
    {
        if !('A' <= s[i] && s[i] <= 'Z') {
            return false;
        }
        i += 1;
    }
    true
}

fn all_ascii_lower(s: &[char]) -> (r: bool)
    ensures
        r == forall|k: int| 0 <= k < s@.len() ==> 'a' <= #[trigger] s@[k] <= 'z',
{
    let mut i: usize = 0;
    while i < s.len()
        invariant
            i <= s@.len(),
            forall|k: int| 0 <= k < i ==> 'a' <= #[trigger] s@[k] <= 'z',
        decreases s.len() - i,
    {
        if !('a' <= s[i] && s[i] <= 'z') {
            return false;
        }
        i += 1;
    }
    true
}

/// Whether every character of `s` is an upper-case ASCII letter.
pub open spec fn all_upper(s: Seq<char>) -> bool {
    forall|k: int| 0 <= k < s.len() ==> 'A' <= #[trigger] s[k] <= 'Z'
}

/// Whether every character of `s` is a lower-case ASCII letter.
pub open spec fn all_lower(s: Seq<char>) -> bool {
    forall|k: int| 0 <= k < s.len() ==> 'a' <= #[trigger] s[k] <= 'z'
}

/// The counter a seed starts: a positive `u32` number, or letters all of one case
/// whose index fits a `u32`; `None` for anything else.
pub open spec fn counter_seed_spec(seed: Seq<char>) -> Option<CounterState> {
    if crate::text::parses_unsigned(seed) && crate::text::digits_value(crate::text::unsigned_digits(seed))
        <= u32::MAX {
        let v = crate::text::digits_value(crate::text::unsigned_digits(seed));
        if v > 0 {
            Some(CounterState::Numeric(v as u32))
        } else {
            None
        }
    } else if !(all_upper(seed) || all_lower(seed)) {
        None
    } else if letters_value(seed) <= u32::MAX {
        Some(CounterState::Alpha { index: letters_value(seed) as u32, uppercase: all_upper(seed) })
    } else {
        None
    }
}

/// A counter seed: a positive number, or letters all of one case.
pub fn parse_counter_seed(seed: &[char]) -> (r: Option<CounterState>)
    ensures
        r == counter_seed_spec(seed@),
{
    match crate::blocks::parse_u32(seed) {
        Some(v) => {
            if v > 0 {
                return Some(CounterState::Numeric(v));
            }
            return None;
        },
        None => {},
    }
    let uppercase = all_ascii_upper(seed);
    let lowercase = all_ascii_lower(seed);
    if !(uppercase || lowercase) {
        return None;
    }
    assert forall|k: int| 0 <= k < seed@.len() implies is_ascii_letter(#[trigger] seed@[k]) by {
        if uppercase {
            assert('A' <= seed@[k] <= 'Z');
        } else {
            assert('a' <= seed@[k] <= 'z');
        }
    }
    match alphabetic_to_index(seed) {
        Some(index) => Some(CounterState::Alpha { index, uppercase }),
        None => None,
    }
}

/// How a counter shows: its number, or its letters.
pub open spec fn counter_display_spec(c: CounterState) -> Seq<char> {
    match c {
        CounterState::Numeric(v) => crate::text::decimal_spec(v as nat),
        CounterState::Alpha { index, uppercase } => alphabetic_spec(index as nat, uppercase),
    }
}

/// The counter one step on, staying at the largest `u32`.
pub open spec fn counter_increment_spec(c: CounterState) -> CounterState {
    match c {
        CounterState::Numeric(v) => CounterState::Numeric(if v < u32::MAX { (v + 1) as u32 } else { v }),
        CounterState::Alpha { index, uppercase } => CounterState::Alpha {
            index: if index < u32::MAX { (index + 1) as u32 } else { index },
            uppercase,
        },
    }
}

/// How a counter shows.
pub fn counter_display(c: CounterState) -> (r: Vec<char>)
    ensures
        r@ == counter_display_spec(c),
{
    match c {
        CounterState::Numeric(v) => usize_to_chars(v as usize),
        CounterState::Alpha { index, uppercase } => index_to_alphabetic(index, uppercase),
    }
}

/// The counter one step on (staying at the largest `u32`).
pub fn counter_increment(c: CounterState) -> (r: CounterState)
    ensures
        r == counter_increment_spec(c),
{
    match c {
        CounterState::Numeric(v) => CounterState::Numeric(if v < u32::MAX {
            v + 1
        } else {
            v
        }),
        CounterState::Alpha { index, uppercase } => CounterState::Alpha {
            index: if index < u32::MAX {
                index + 1
            } else {
                index
            },
            uppercase,
        },
    }
}

impl Counters {
    pub fn new() -> (r: Self)
        ensures
            r.entries@.len() == 0,
    {
        Counters { entries: Vec::new() }
    }

    fn find(&self, name: &[char]) -> (r: Option<usize>)
        ensures
            r matches Some(i) ==> i < self.entries@.len() && self.entries@[i as int].0@ == name@ && forall|k: int|
                0 <= k < i ==> self.entries@[k].0@ != name@,
            r is None ==> forall|k: int| 0 <= k < self.entries@.len() ==> self.entries@[k].0@ != name@,
    {
        let mut i: usize = 0;
        while i < self.entries.len()
            invariant
                i <= self.entries@.len(),
                forall|k: int| 0 <= k < i ==> self.entries@[k].0@ != name@,
            decreases self.entries.len() - i,
        {
            if chars_eq(&self.entries[i].0, name) {
                return Some(i);
            }
            i += 1;
        }
        None
    }

    /// Whether `e` holds a counter named `name`.
    pub open spec fn has_counter(e: Seq<(Vec<char>, CounterState)>, name: Seq<char>) -> bool {
        exists|i: int| 0 <= i < e.len() && #[trigger] e[i].0@ == name
    }

    /// The position of the first counter named `name` in `e`.
    pub open spec fn counter_slot(e: Seq<(Vec<char>, CounterState)>, name: Seq<char>) -> int {
        choose|i: int| 0 <= i < e.len() && #[trigger] e[i].0@ == name && forall|k: int| 0 <= k < i ==> e[k].0@ != name
    }

    /// The state a new counter starts in: its seed's, or 1.
    pub open spec fn start_state(seed: Option<Seq<char>>) -> CounterState {
        match seed {
            Some(s) => match counter_seed_spec(s) {
                Some(c) => c,
                None => CounterState::Numeric(1),
            },
            None => CounterState::Numeric(1),
        }
    }

    /// The counter's current value, then steps it on. A new counter starts at its
    /// seed, or at 1.
    pub fn next_value(&mut self, name: &[char], seed: Option<&[char]>) -> (r: Vec<char>)
        ensures
            ({
                let e = old(self).entries@;
                let f = final(self).entries@;
                let i = Self::counter_slot(e, name@);
                Self::has_counter(e, name@) ==> r@ == counter_display_spec(e[i].1) && f.len() == e.len() && f[i].0@
                    == name@ && f[i].1 == counter_increment_spec(e[i].1) && forall|k: int|
                    0 <= k < e.len() && k != i ==> #[trigger] f[k] == e[k]
            }),
            ({
                let e = old(self).entries@;
                let f = final(self).entries@;
                let start = Self::start_state(
                    match seed {
                        Some(s) => Some(s@),
                        None => None,
                    },
                );
                !Self::has_counter(e, name@) ==> r@ == counter_display_spec(start) && f.len() == e.len() + 1
                    && f.subrange(0, e.len() as int) == e && f[e.len() as int].0@ == name@ && f[e.len() as int].1
                    == counter_increment_spec(start)
            }),
    {
        match self.find(name) {
            Some(i) => {
                proof {
                    let e = self.entries@;
                    let j = Self::counter_slot(e, name@);
                    assert(Self::has_counter(e, name@));
                    assert(0 <= j < e.len() && e[j].0@ == name@ && forall|k: int| 0 <= k < j ==> e[k].0@ != name@);
                    if j < i {
                        assert(e[j].0@ != name@);
                    }
                    if i < j {
                        assert(e[i as int].0@ != name@);
                    }
                }
                let state = self.entries[i].1;
                let current = counter_display(state);
                let key = copy(&self.entries[i].0);
                self.entries.set(i, (key, counter_increment(state)));
                current
            },
            None => {
                let start = match seed {
                    Some(s) => match parse_counter_seed(s) {
                        Some(c) => c,
                        None => CounterState::Numeric(1),
                    },
                    None => CounterState::Numeric(1),
                };
                let current = counter_display(start);
                self.entries.push((copy(name), counter_increment(start)));
                current
            },
        }
    }
}

/// Replaces each `{counter:name}` or `{counter:name:seed}` with the counter's next value.
pub fn expand_counter_macros(input: &[char], counters: &mut Counters) -> (r: Vec<char>)
    ensures
        (forall|k: int| 0 <= k < input@.len() ==> !crate::text::starts_at(input@, k, "{counter:"@)) ==> r@
            == input@ && final(counters).entries@ == old(counters).entries@,
{
    let opener = to_chars("{counter:");
    proof {
        reveal_strlit("{counter:");
    }
    let mut output: Vec<char> = Vec::new();
    let mut cursor: usize = 0;
    while cursor <= input.len()
        invariant
            opener@ == "{counter:"@,
            opener@.len() == 9,
            (forall|k: int| 0 <= k < input@.len() ==> !crate::text::starts_at(input@, k, "{counter:"@)) ==> cursor
                == 0 && output@.len() == 0 && counters.entries@ == old(counters).entries@,
        decreases input.len() + 1 - cursor,
    {
        let start = match find_from(input, cursor, &opener) {
            Some(s) => s,
            None => break,
        };
        append(&mut output, &cut(input, cursor, start));
        let macro_start = start + 9;
        let end = match find_char_from(input, macro_start, '}') {
            Some(e) => e,
            None => {
                append(&mut output, &cut(input, start, input.len()));
                return output;
            },
        };
        let body = cut(input, macro_start, end);
        let (name, seed) = match find_char(&body, ':') {
            Some(c) => (trim(&cut(&body, 0, c)), Some(trim(&cut(&body, c + 1, body.len())))),
            None => (trim(&body), None),
        };
        if name.len() == 0 {
            append(&mut output, &cut(input, start, end + 1));
            cursor = end + 1;
            continue;
        }
        let seed: Option<Vec<char>> = match seed {
            Some(s) => if s.len() == 0 {
                None
            } else {
                Some(s)
            },
            None => None,
        };
        let value = match &seed {
            Some(s) => counters.next_value(&name, Some(s.as_slice())),
            None => counters.next_value(&name, None),
        };
        append(&mut output, &value);
        cursor = end + 1;
    }
    if cursor <= input.len() {
        append(&mut output, &cut(input, cursor, input.len()));
    }
    assert(input@.subrange(0, input@.len() as int) =~= input@);
    output
}

// ---------------------------------------------------------------------------
// Captions

/// The kinds of block that can get a numbered caption.
#[derive(Debug, Clone, Copy, PartialEq, Eq, Structural)]
pub enum CaptionKind {
    Example,
    Listing,
    Table,
    Image,
}

pub fn caption_attribute_name(kind: CaptionKind) -> (r: &'static str)
    ensures
        kind == CaptionKind::Example ==> r@ == "example-caption"@,
        kind == CaptionKind::Listing ==> r@ == "listing-caption"@,
        kind == CaptionKind::Table ==> r@ == "table-caption"@,
        kind == CaptionKind::Image ==> r@ == "figure-caption"@,
{
    match kind {
        CaptionKind::Example => "example-caption",
        CaptionKind::Listing => "listing-caption",
        CaptionKind::Table => "table-caption",
        CaptionKind::Image => "figure-caption",
    }
}

pub fn counter_attribute_name(kind: CaptionKind) -> (r: &'static str)
    ensures
        kind == CaptionKind::Example ==> r@ == "example-number"@,
        kind == CaptionKind::Listing ==> r@ == "listing-number"@,
        kind == CaptionKind::Table ==> r@ == "table-number"@,
        kind == CaptionKind::Image ==> r@ == "figure-number"@,
{
    match kind {
        CaptionKind::Example => "example-number",
        CaptionKind::Listing => "listing-number",
        CaptionKind::Table => "table-number",
        CaptionKind::Image => "figure-number",
    }
}

/// The caption label: the document's `*-caption` attribute when set, else
/// `Example`, `Table` or `Figure`; listings have none by default.
/// The name of the attribute that sets a kind's caption label.
pub open spec fn caption_attribute_spec(kind: CaptionKind) -> Seq<char> {
    match kind {
        CaptionKind::Example => "example-caption"@,
        CaptionKind::Listing => "listing-caption"@,
        CaptionKind::Table => "table-caption"@,
        CaptionKind::Image => "figure-caption"@,
    }
}

/// A kind's caption label: its attribute, when set and not empty, trimmed at
/// its end; else `Example`, `Table` or `Figure`, and none for listings.
pub open spec fn caption_label_spec(kind: CaptionKind, attrs: Map<Seq<char>, Seq<char>>) -> Option<Seq<char>> {
    let key = caption_attribute_spec(kind);
    if attrs.contains_key(key) && attrs[key].len() > 0 {
        Some(crate::text::trim_end_spec(attrs[key]))
    } else {
        match kind {
            CaptionKind::Example => Some("Example"@),
            CaptionKind::Table => Some("Table"@),
            CaptionKind::Image => Some("Figure"@),
            CaptionKind::Listing => None,
        }
    }
}

pub fn caption_label(kind: CaptionKind, document_attributes: &AttributeMap) -> (r: Option<Vec<char>>)
    ensures
        kind == CaptionKind::Listing && !document_attributes@.contains_key("listing-caption"@) ==> r is None,
        crate::meta::opt_chars_view(r) == caption_label_spec(kind, document_attributes@),
{
    match document_attributes.get(caption_attribute_name(kind)) {
        Some(c) => {
            let cs = string_chars(c);
            if cs.len() > 0 {
                return Some(trim_end(&cs));
            }
        },
        None => {},
    }
    match kind {
        CaptionKind::Example => Some(to_chars("Example")),
        CaptionKind::Table => Some(to_chars("Table")),
        CaptionKind::Image => Some(to_chars("Figure")),
        CaptionKind::Listing => None,
    }
}

/// A block title with counters expanded.
pub fn expanded_block_title(title: &Option<String>, counters: &mut Counters) -> (r: Option<Vec<char>>)
    ensures
        r is Some <==> title is Some,
{
    match title {
        Some(t) => Some(expand_counter_macros(&string_chars(t), counters)),
        None => None,
    }
}

/// A block title with its caption: the block's `caption` attribute, else
/// `Label N. ` numbered by the kind's counter.
pub fn captioned_block_title(
    title: &Option<String>,
    block_attributes: &AttributeMap,
    document_attributes: &AttributeMap,
    counters: &mut Counters,
    kind: CaptionKind,
) -> (r: Option<Vec<char>>)
    ensures
        r is Some <==> title is Some,
{
    let title = match title {
        Some(t) => expand_counter_macros(&string_chars(t), counters),
        None => return None,
    };
    match block_attributes.get("caption") {
        Some(c) => {
            let cs = string_chars(c);
            if cs.len() > 0 {
                let mut out = expand_counter_macros(&cs, counters);
                append(&mut out, &title);
                return Some(out);
            }
        },
        None => {},
    }
    let label = match caption_label(kind, document_attributes) {
        Some(l) => l,
        None => return Some(title),
    };
    let counter_name = to_chars(counter_attribute_name(kind));
    let number = match document_attributes.get(counter_attribute_name(kind)) {
        Some(seed) => {
            let sc = string_chars(seed);
            counters.next_value(&counter_name, Some(sc.as_slice()))
        },
        None => counters.next_value(&counter_name, None),
    };
    let mut out = label;
    out.push(' ');
    append(&mut out, &number);
    append_str(&mut out, ". ");
    append(&mut out, &title);
    Some(out)
}

// ---------------------------------------------------------------------------
// Highlighting

/// The HTML that syntect's default syntax set and the named default theme give for
/// each line of a source block in `language`; `None` when syntect has no syntax for
/// it or fails on a line.
pub uninterp spec fn syntect_highlighted(language: Seq<char>, lines: Seq<Seq<char>>, theme: Seq<char>) -> Option<
    Seq<Seq<char>>,
>;

/// Highlights lines with syntect: the default syntax set (with newlines), the
/// default theme of the given name, the syntax found by token for `language`,
/// and `styled_line_to_highlighted_html` without background for each line. The
/// result is the named function `syntect_highlighted` of the arguments.
#[verifier::external_body]
fn syntect_highlight(language: &String, lines: &Vec<String>, theme: &String) -> (r: Option<Vec<String>>)
    ensures
        r is None <==> syntect_highlighted(language@, lines.deep_view(), theme@) is None,
        r matches Some(v) ==> syntect_highlighted(language@, lines.deep_view(), theme@) == Some(v.deep_view()),
{
    let syntax_set = syntect::parsing::SyntaxSet::load_defaults_newlines();
    let themes = syntect::highlighting::ThemeSet::load_defaults();
    let syntax = syntax_set.find_syntax_by_token(language)?;
    let mut highlighter = syntect::easy::HighlightLines::new(syntax, themes.themes.get(theme.as_str())?);
    let mut out = Vec::new();
    for line in lines {
        let ranges = highlighter.highlight_line(line, &syntax_set).ok()?;
        out.push(syntect::html::styled_line_to_highlighted_html(&ranges, syntect::html::IncludeBackground::No).ok()?);
    }
    Some(out)
}

/// Whether the document asks for syntect (`:source-highlighter: syntect`).
pub fn uses_syntect(document_attributes: &AttributeMap) -> (r: bool)
    ensures
        r == uses_syntect_spec(document_attributes@),
{
    match document_attributes.get("source-highlighter") {
        Some(v) => eq_str(&to_ascii_lowercase(&trim(&string_chars(v))), "syntect"),
        None => false,
    }
}

/// Highlighted lines when the document asks for syntect and the language is not `text`.
pub fn syntect_highlight_lines(language: &[char], lines: &Vec<Vec<char>>, document_attributes: &AttributeMap) -> (r:
    Option<Vec<String>>)
    ensures
        !uses_syntect_spec(document_attributes@) ==> r is None,
        ({
            let asks = uses_syntect_spec(document_attributes@) && !crate::text::eq_ignore_case_spec(
                language@,
                "text"@,
            );
            let h = syntect_highlighted(language@, crate::text::views(lines@), "InspiredGitHub"@);
            &&& !asks ==> r is None
            &&& asks ==> (r is None <==> h is None)
            &&& asks ==> (r matches Some(v) ==> h == Some(v.deep_view()))
        }),
{
    if !uses_syntect(document_attributes) || eq_ignore_ascii_case(language, "text") {
        return None;
    }
    let mut strings: Vec<String> = Vec::new();
    let mut i: usize = 0;
    while i < lines.len()
        invariant
            i <= lines@.len(),
            strings@.len() == i,
            forall|k: int| 0 <= k < i ==> (#[trigger] strings@[k])@ == lines@[k]@,
        decreases lines.len() - i,
    {
        strings.push(to_string(&lines[i]));
        i += 1;
    }
    assert(strings.deep_view() =~= crate::text::views(lines@));
    syntect_highlight(&to_string(language), &strings, &crate::text::lit("InspiredGitHub"))
}

/// The document asks for syntect.
pub open spec fn uses_syntect_spec(attributes: Map<Seq<char>, Seq<char>>) -> bool {
    attributes.contains_key("source-highlighter"@) && crate::text::lower_seq(crate::text::trim_spec(
        attributes["source-highlighter"@],
    )) == "syntect"@
}

// ---------------------------------------------------------------------------
// Content lines

/// The index of the first line of `ls` that is not blank (`ls.len()` when all are).
pub open spec fn first_nonblank(ls: Seq<Seq<char>>) -> int
    decreases ls.len(),
{
    if ls.len() == 0 {
        0
    } else if first_nonblank(ls.drop_last()) < ls.len() - 1 {
        first_nonblank(ls.drop_last())
    } else if !crate::text::all_ws(ls.last()) {
        ls.len() - 1
    } else {
        ls.len() as int
    }
}

/// One past the last line of `ls` that is not blank (0 when all are).
pub open spec fn nonblank_end(ls: Seq<Seq<char>>) -> int
    decreases ls.len(),
{
    if ls.len() == 0 {
        0
    } else if crate::text::all_ws(ls.last()) {
        nonblank_end(ls.drop_last())
    } else {
        ls.len() as int
    }
}

/// The lines of delimited content: split at newlines, without the leading and
/// trailing blank lines (none for empty content).
pub open spec fn content_lines_spec(content: Seq<char>) -> (int, Seq<Seq<char>>) {
    if content.len() == 0 {
        (0, Seq::empty())
    } else {
        let ls = crate::text::split_spec(content, '\n');
        let start = first_nonblank(ls);
        let end = if nonblank_end(ls) < start {
            start
        } else {
            nonblank_end(ls)
        };
        (start, ls.subrange(start, end))
    }
}

proof fn lemma_first_nonblank(ls: Seq<Seq<char>>)
    ensures
        0 <= first_nonblank(ls) <= ls.len(),
        forall|k: int| 0 <= k < first_nonblank(ls) ==> crate::text::all_ws(#[trigger] ls[k]),
        first_nonblank(ls) < ls.len() ==> !crate::text::all_ws(ls[first_nonblank(ls)]),
    decreases ls.len(),
{
    if ls.len() > 0 {
        lemma_first_nonblank(ls.drop_last());
        assert forall|k: int| 0 <= k < ls.len() - 1 implies ls[k] == ls.drop_last()[k] by {}
    }
}

proof fn lemma_nonblank_end(ls: Seq<Seq<char>>)
    ensures
        0 <= nonblank_end(ls) <= ls.len(),
        forall|k: int| nonblank_end(ls) <= k < ls.len() ==> crate::text::all_ws(#[trigger] ls[k]),
        nonblank_end(ls) > 0 ==> !crate::text::all_ws(ls[nonblank_end(ls) - 1]),
    decreases ls.len(),
{
    if ls.len() > 0 {
        lemma_nonblank_end(ls.drop_last());
        assert forall|k: int| 0 <= k < ls.len() - 1 implies ls[k] == ls.drop_last()[k] by {}
    }
}

/// The lines of delimited content without leading and trailing blank lines, and
/// the index of the first line kept. Empty content has no lines.
pub fn trimmed_delimited_content_lines(content: &[char]) -> (r: (usize, Vec<Vec<char>>))
    ensures
        content@.len() == 0 ==> r.1@.len() == 0,
        (r.0 as int, crate::text::views(r.1@)) == content_lines_spec(content@),
{
    if content.len() == 0 {
        return (0, Vec::new());
    }
    let lines = split_char(content, '\n');
    let ghost ls = crate::text::views(lines@);
    proof {
        lemma_first_nonblank(ls);
        lemma_nonblank_end(ls);
    }
    let n = lines.len();
    let mut start: usize = 0;
    while start < n && is_blank(&lines[start])
        invariant
            n == lines@.len(),
            ls == crate::text::views(lines@),
            start <= n,
            forall|k: int| 0 <= k < start ==> crate::text::all_ws(#[trigger] ls[k]),
        decreases n - start,
    {
        start += 1;
    }
    proof {
        let f = first_nonblank(ls);
        if f < start {
            assert(crate::text::all_ws(ls[f]));
        }
        if start < f {
            assert(!crate::text::all_ws(ls[start as int]));
        }
    }
    let mut end = n;
    while end > start && is_blank(&lines[end - 1])
        invariant
            n == lines@.len(),
            ls == crate::text::views(lines@),
            start <= end <= n,
            forall|k: int| end <= k < n ==> crate::text::all_ws(#[trigger] ls[k]),
        decreases end,
    {
        end -= 1;
    }
    proof {
        let e = nonblank_end(ls);
        if e > start && e < end {
            assert(!crate::text::all_ws(ls[e - 1]));
            assert(crate::text::all_ws(ls[end - 1]) || end == start);
        }
        if end > start && e < end {
            assert(!crate::text::all_ws(ls[end - 1]));
        }
        if e > end && end > start {
            assert(crate::text::all_ws(ls[e - 1]));
        }
    }
    let mut out: Vec<Vec<char>> = Vec::new();
    let mut i = start;
    while i < end
        invariant
            start <= i <= end <= n,
            n == lines@.len(),
            out@.len() == i - start,
            forall|k: int| 0 <= k < out@.len() ==> (#[trigger] out@[k])@ == lines@[start + k]@,
        decreases end - i,
    {
        out.push(copy(&lines[i]));
        i += 1;
    }
    assert(crate::text::views(out@) =~= ls.subrange(start as int, end as int));
    (start, out)
}

fn joined_lines(content: &String) -> (r: Vec<char>)
    ensures
        r@ == crate::text::join_spec(content_lines_spec(content@).1, "\n"@),
{
    let (_, lines) = trimmed_delimited_content_lines(&string_chars(content));
    join_str(&lines, "\n")
}

/// The stem notation of a passthrough block: `asciimath` or `latexmath` as given;
/// `stem` follows the document's `stem` attribute (`asciimath` unless `latexmath`).
pub fn stem_style(style: &Option<String>, document_attributes: &AttributeMap) -> (r: Option<&'static str>)
    ensures
        match style {
            None => r is None,
            Some(s) => if s@ == "asciimath"@ || s@ == "latexmath"@ {
                r matches Some(t) && t@ == s@
            } else if s@ == "stem"@ {
                r matches Some(t) && t@ == (if document_attributes@.contains_key("stem"@)
                    && document_attributes@["stem"@] == "latexmath"@ {
                    "latexmath"@
                } else {
                    "asciimath"@
                })
            } else {
                r is None
            },
        },
{
    match style {
        Some(s) => {
            let sc = string_chars(s);
            if eq_str(&sc, "asciimath") {
                Some("asciimath")
            } else if eq_str(&sc, "latexmath") {
                Some("latexmath")
            } else if eq_str(&sc, "stem") {
                match document_attributes.get("stem") {
                    Some(v) => if eq_str(&string_chars(v), "latexmath") {
                        Some("latexmath")
                    } else {
                        Some("asciimath")
                    },
                    None => Some("asciimath"),
                }
            } else {
                None
            }
        },
        None => None,
    }
}

/// The equation wrapped in `\[ \]` (latexmath) or `\$ \$` (asciimath) unless it already is.
pub fn stem_equation(content: &String, stem_style: &str) -> (r: Vec<char>)
    ensures
        stem_style@ == "latexmath"@ ==> crate::text::starts_at(r@, 0, "\\["@) && crate::text::ends_with_spec(r@, "\\]"@),
        stem_style@ != "latexmath"@ ==> crate::text::starts_at(r@, 0, "\\$"@) && crate::text::ends_with_spec(r@, "\\$"@),
{
    let equation = joined_lines(content);
    let latex = eq_str(&to_chars(stem_style), "latexmath");
    let (open, close) = if latex {
        ("\\[", "\\]")
    } else {
        ("\\$", "\\$")
    };
    if starts_with_str(&equation, open) && crate::text::ends_with_str(&equation, close) {
        equation
    } else {
        let mut out = to_chars(open);
        append(&mut out, &equation);
        append_str(&mut out, close);
        assert(out@.subrange(0, open@.len() as int) =~= open@);
        assert(out@.subrange(out@.len() - close@.len(), out@.len() as int) =~= close@);
        out
    }
}

/// The number of the last callout on a line (`i` counts from the first content line).
fn callout_for_line(callouts: &Vec<(usize, u32)>, line: usize) -> (r: Option<u32>)
    ensures
        r matches Some(n) ==> exists|i: int|
            0 <= i < callouts@.len() && #[trigger] callouts@[i] == (line, n) && forall|j: int|
                i < j < callouts@.len() ==> callouts@[j].0 != line,
        r is None ==> forall|j: int| 0 <= j < callouts@.len() ==> callouts@[j].0 != line,
{
    let mut i = callouts.len();
    while i > 0
        invariant
            i <= callouts@.len(),
            forall|j: int| i <= j < callouts@.len() ==> callouts@[j].0 != line,
        decreases i,
    {
        i -= 1;
        if callouts[i].0 == line {
            return Some(callouts[i].1);
        }
    }
    None
}

/// Listing lines escaped (or highlighted) with their callout markers.
pub fn render_listing_lines(
    listing: &ListingBlock,
    lines: &Vec<Vec<char>>,
    line_offset: usize,
    lang: &Option<Vec<char>>,
    is_source: bool,
    document_attributes: &AttributeMap,
) -> (r: Vec<Vec<char>>)
    ensures
        r@.len() == lines@.len(),
{
    let highlighted = if is_source {
        match lang {
            Some(l) => syntect_highlight_lines(l, lines, document_attributes),
            None => None,
        }
    } else {
        None
    };
    let mut out: Vec<Vec<char>> = Vec::new();
    let mut i: usize = 0;
    while i < lines.len()
        invariant
            i <= lines@.len(),
            out@.len() == i,
        decreases lines.len() - i,
    {
        let mut rendered: Vec<char> = Vec::new();
        let from_highlight = match &highlighted {
            Some(h) => if i < h.len() {
                Some(string_chars(&h[i]))
            } else {
                None
            },
            None => None,
        };
        match from_highlight {
            Some(h) => append(&mut rendered, &h),
            None => push_escaped(&mut rendered, &lines[i]),
        }
        let key = if i <= usize::MAX - line_offset {
            i + line_offset
        } else {
            usize::MAX
        };
        match callout_for_line(&listing.callout_lines, key) {
            Some(n) => {
                push(&mut rendered, "<i class=\"conum\" data-value=\"");
                push_u32(&mut rendered, n);
                push(&mut rendered, "\"></i><b>");
                push_u32(&mut rendered, n);
                push(&mut rendered, "</b>");
            },
            None => {},
        }
        out.push(rendered);
        i += 1;
    }
    out
}

fn push_code_open(out: &mut Vec<char>, lang: &[char])
    ensures
        final(out)@ == old(out)@ + "<code class=\"language-"@ + lang@ + "\" data-lang=\""@ + lang@ + "\">"@,
{
    push(out, "<code class=\"language-");
    append(out, lang);
    push(out, "\" data-lang=\"");
    append(out, lang);
    push(out, "\">");
}

fn render_listing(html: &mut Vec<char>, listing: &ListingBlock, attrs: &AttributeMap, counters: &mut Counters)
    ensures
        framed(old(html)@, final(html)@, "<div class=\"listingblock\""@, "</div>\n</div>\n"@),
{
    let ghost start = html@;
    push(html, "<div class=\"listingblock\"");
    let ghost opened = html@;
    push_id_attr(html, &listing.id);
    push(html, ">\n");
    let title = captioned_block_title(&listing.title, &listing.attributes, attrs, counters, CaptionKind::Listing);
    push_title_div(html, &title);
    let lang: Option<Vec<char>> = match listing.attributes.get("language") {
        Some(l) => Some(string_chars(l)),
        None => None,
    };
    let is_source = crate::meta::opt_is(&listing.style, "source") && match &lang {
        Some(l) => l.len() > 0,
        None => false,
    };
    let (offset, lines) = trimmed_delimited_content_lines(&string_chars(&listing.content));
    let rendered_lines = render_listing_lines(listing, &lines, offset, &lang, is_source, attrs);
    let rendered = join_str(&rendered_lines, "\n");
    push(html, "<div class=\"content\">\n");
    match listing.line_number {
        Some(start) => {
            let numbered = split_char(&rendered, '\n');
            push(html, "<table class=\"linenotable\">\n<tbody>\n");
            let mut k: usize = 0;
            while k < numbered.len()
                invariant
                    appended(old(html)@, html@),
                    opens_at(html@, old(html)@.len() as int, "<div class=\"listingblock\""@),
                    html@.len() >= old(html)@.len() + "<div class=\"listingblock\""@.len(),
                    k <= numbered@.len(),
                decreases numbered.len() - k,
            {
                let off = k as u32;
                let number = if start <= u32::MAX - off {
                    start + off
                } else {
                    u32::MAX
                };
                push(html, "<tr>\n<td class=\"linenos\"><pre>");
                push_u32(html, number);
                push(html, "</pre></td>\n<td class=\"code\">");
                match &lang {
                    Some(l) => if is_source {
                        push(html, "<pre>");
                        push_code_open(html, l);
                        append(html, &numbered[k]);
                        push(html, "</code></pre>");
                    } else {
                        push(html, "<pre>");
                        append(html, &numbered[k]);
                        push(html, "</pre>");
                    },
                    None => {
                        push(html, "<pre>");
                        append(html, &numbered[k]);
                        push(html, "</pre>");
                    },
                }
                push(html, "</td>\n</tr>\n");
                k += 1;
            }
            push(html, "</tbody>\n</table>\n");
        },
        None => {
            match &lang {
                Some(l) => if is_source {
                    push(html, "<pre class=\"highlight\">");
                    push_code_open(html, l);
                    append(html, &rendered);
                    push(html, "</code></pre>\n");
                } else {
                    push(html, "<pre>");
                    append(html, &rendered);
                    push(html, "</pre>\n");
                },
                None => {
                    push(html, "<pre>");
                    append(html, &rendered);
                    push(html, "</pre>\n");
                },
            }
        },
    }
    let ghost mid = html@;
    push(html, "</div>\n</div>\n");
    proof {
        lemma_frame(start, mid, html@, "<div class=\"listingblock\""@, "</div>\n</div>\n"@);
    }
}

fn render_passthrough(html: &mut Vec<char>, p: &PassthroughBlock, attrs: &AttributeMap, counters: &mut Counters)
    ensures
        appended(old(html)@, final(html)@),
        crate::text::ends_with_spec(final(html)@, seq!['\n']),
{
    match stem_style(&p.style, attrs) {
        Some(style) => {
            push(html, "<div");
            push_id_attr(html, &p.id);
            push(html, " class=\"stemblock");
            match &p.role {
                Some(role) => {
                    html.push(' ');
                    push_escaped_string(html, role);
                },
                None => {},
            }
            push(html, "\">\n");
            let title = expanded_block_title(&p.title, counters);
            push_title_div(html, &title);
            push(html, "<div class=\"content\">\n");
            append(html, &stem_equation(&p.content, style));
            push(html, "\n</div>");
            push(html, "\n</div>");
            html.push('\n');
        },
        None => {
            append(html, &joined_lines(&p.content));
            html.push('\n');
        },
    }
    assert(html@.subrange(html@.len() - 1, html@.len() as int) =~= seq!['\n']);
}

/// The table row of one callout: its number, as a badge and in bold, and its text.
pub open spec fn callout_item_html(item: crate::prepare::CalloutItemBlock) -> Seq<char> {
    let n = crate::text::decimal_spec(item.number as nat);
    "<tr>\n<td><i class=\"conum\" data-value=\""@ + n + "\"></i><b>"@ + n + "</b></td>\n<td>"@
        + inlines_html(item.inlines@) + "</td>\n</tr>\n"@
}

/// The rows of callouts, in order.
pub open spec fn callout_items_html(items: Seq<crate::prepare::CalloutItemBlock>) -> Seq<char>
    decreases items.len(),
{
    if items.len() == 0 {
        Seq::empty()
    } else {
        callout_items_html(items.drop_last()) + callout_item_html(items.last())
    }
}

fn render_callout_list(html: &mut Vec<char>, colist: &CalloutListBlock)
    ensures
        framed(old(html)@, final(html)@, "<div class=\"colist arabic\">\n<table>\n<tbody>\n"@, "</tbody>\n</table>\n</div>\n"@),
        final(html)@ == old(html)@ + "<div class=\"colist arabic\">\n<table>\n<tbody>\n"@ + callout_items_html(
            colist.items@,
        ) + "</tbody>\n</table>\n</div>\n"@,
{
    let ghost start = html@;
    push(html, "<div class=\"colist arabic\">\n<table>\n<tbody>\n");
    let ghost opened = html@;
    let mut i: usize = 0;
    while i < colist.items.len()
        invariant
            appended(old(html)@, html@),
            opens_at(html@, old(html)@.len() as int, "<div class=\"colist arabic\">\n<table>\n<tbody>\n"@),
            html@.len() >= old(html)@.len() + "<div class=\"colist arabic\">\n<table>\n<tbody>\n"@.len(),
            i <= colist.items@.len(),
            html@ == opened + callout_items_html(colist.items@.subrange(0, i as int)),
        decreases colist.items.len() - i,
    {
        let ghost before = html@;
        let n = colist.items[i].number;
        push(html, "<tr>\n<td><i class=\"conum\" data-value=\"");
        push_u32(html, n);
        push(html, "\"></i><b>");
        push_u32(html, n);
        push(html, "</b></td>\n<td>");
        render_inlines(html, &colist.items[i].inlines);
        push(html, "</td>\n</tr>\n");
        assert(colist.items@.subrange(0, i + 1).drop_last() =~= colist.items@.subrange(0, i as int));
        assert(html@ =~= before + callout_item_html(colist.items@[i as int]));
        i += 1;
    }
    assert(colist.items@.subrange(0, colist.items@.len() as int) =~= colist.items@);
    let ghost mid = html@;
    push(html, "</tbody>\n</table>\n</div>\n");
    proof {
        lemma_frame(start, mid, html@, "<div class=\"colist arabic\">\n<table>\n<tbody>\n"@, "</tbody>\n</table>\n</div>\n"@);
    }
}

fn render_literal(html: &mut Vec<char>, literal: &ListingBlock, counters: &mut Counters)
    ensures
        framed(old(html)@, final(html)@, "<div class=\"literalblock\""@, "</pre>\n</div>\n</div>\n"@),
{
    let ghost start = html@;
    push(html, "<div class=\"literalblock\"");
    let ghost opened = html@;
    push_id_attr(html, &literal.id);
    push(html, ">\n");
    let title = expanded_block_title(&literal.title, counters);
    push_title_div(html, &title);
    push(html, "<div class=\"content\">\n<pre>");
    push_escaped(html, &joined_lines(&literal.content));
    let ghost mid = html@;
    push(html, "</pre>\n</div>\n</div>\n");
    proof {
        lemma_frame(start, mid, html@, "<div class=\"literalblock\""@, "</pre>\n</div>\n</div>\n"@);
    }
}

// ---------------------------------------------------------------------------
// Admonitions and images

/// The default label of an admonition variant: the known ones capitalised, others as given.
pub open spec fn default_admonition_label(variant: Seq<char>) -> Seq<char> {
    if variant == "note"@ {
        "Note"@
    } else if variant == "tip"@ {
        "Tip"@
    } else if variant == "important"@ {
        "Important"@
    } else if variant == "caution"@ {
        "Caution"@
    } else if variant == "warning"@ {
        "Warning"@
    } else {
        variant
    }
}

/// The admonition label: the block's non-empty `caption`, else the document's non-empty
/// `<variant>-caption`, else the default label.
pub open spec fn admonition_label_spec(
    variant: Seq<char>,
    block_attributes: Map<Seq<char>, Seq<char>>,
    document_attributes: Map<Seq<char>, Seq<char>>,
) -> Seq<char> {
    let key = variant + "-caption"@;
    if block_attributes.contains_key("caption"@) && block_attributes["caption"@].len() > 0 {
        block_attributes["caption"@]
    } else if document_attributes.contains_key(key) && document_attributes[key].len() > 0 {
        document_attributes[key]
    } else {
        default_admonition_label(variant)
    }
}

/// The admonition label: the block's `caption`, else the document's
/// `<variant>-caption`, else the capitalised variant name.
fn admonition_label(variant: &String, block_attributes: &AttributeMap, document_attributes: &AttributeMap) -> (r:
    Vec<char>)
    ensures
        r@ == admonition_label_spec(variant@, block_attributes@, document_attributes@),
{
    match block_attributes.get("caption") {
        Some(c) => {
            let cs = string_chars(c);
            if cs.len() > 0 {
                return cs;
            }
        },
        None => {},
    }
    let v = string_chars(variant);
    let mut key = copy(&v);
    append_str(&mut key, "-caption");
    match document_attributes.get_chars(&key) {
        Some(c) => {
            let cs = string_chars(c);
            if cs.len() > 0 {
                return cs;
            }
        },
        None => {},
    }
    if eq_str(&v, "note") {
        to_chars("Note")
    } else if eq_str(&v, "tip") {
        to_chars("Tip")
    } else if eq_str(&v, "important") {
        to_chars("Important")
    } else if eq_str(&v, "caution") {
        to_chars("Caution")
    } else if eq_str(&v, "warning") {
        to_chars("Warning")
    } else {
        v
    }
}

/// A block attribute, else the document attribute of that name.
pub open spec fn named_attribute_spec(
    block_attributes: Map<Seq<char>, Seq<char>>,
    document_attributes: Map<Seq<char>, Seq<char>>,
    name: Seq<char>,
) -> Option<Seq<char>> {
    if block_attributes.contains_key(name) {
        Some(block_attributes[name])
    } else if document_attributes.contains_key(name) {
        Some(document_attributes[name])
    } else {
        None
    }
}

/// A block attribute, else the document attribute of that name.
pub fn named_attribute(block_attributes: &AttributeMap, document_attributes: &AttributeMap, name: &str) -> (r: Option<
    Vec<char>,
>)
    ensures
        block_attributes@.contains_key(name@) ==> (r matches Some(v) && v@ == block_attributes@[name@]),
        !block_attributes@.contains_key(name@) && document_attributes@.contains_key(name@) ==> (r matches Some(v)
            && v@ == document_attributes@[name@]),
        !block_attributes@.contains_key(name@) && !document_attributes@.contains_key(name@) ==> r is None,
        r matches Some(v) ==> named_attribute_spec(block_attributes@, document_attributes@, name@) == Some(v@),
        r is None <==> named_attribute_spec(block_attributes@, document_attributes@, name@) is None,
{
    match block_attributes.get(name) {
        Some(v) => Some(string_chars(v)),
        None => match document_attributes.get(name) {
            Some(v) => Some(string_chars(v)),
            None => None,
        },
    }
}

/// The Font Awesome class of an admonition variant.
pub open spec fn font_icon_class_spec(variant: Seq<char>) -> Seq<char> {
    if variant == "tip"@ {
        "icon-tip"@
    } else if variant == "important"@ {
        "icon-important"@
    } else if variant == "caution"@ {
        "icon-caution"@
    } else if variant == "warning"@ {
        "icon-warning"@
    } else {
        "icon-note"@
    }
}

/// The Font Awesome class of an admonition icon when `icons` is `font`.
fn admonition_font_icon_class(variant: &String, block_attributes: &AttributeMap, document_attributes: &AttributeMap) -> (r:
    Option<&'static str>)
    ensures
        r is Some <==> named_attribute_spec(block_attributes@, document_attributes@, "icons"@) == Some("font"@),
        r matches Some(c) ==> c@ == font_icon_class_spec(variant@),
{
    let icons = match named_attribute(block_attributes, document_attributes, "icons") {
        Some(i) => i,
        None => return None,
    };
    if !eq_str(&icons, "font") {
        return None;
    }
    let v = string_chars(variant);
    if eq_str(&v, "tip") {
        Some("icon-tip")
    } else if eq_str(&v, "important") {
        Some("icon-important")
    } else if eq_str(&v, "caution") {
        Some("icon-caution")
    } else if eq_str(&v, "warning") {
        Some("icon-warning")
    } else {
        Some("icon-note")
    }
}

/// Whether `c` separates the parts of a path.
pub open spec fn is_path_separator(c: char) -> bool {
    c == '/' || c == '\\'
}

/// Whether the file part of a path (after its last separator) holds a `.`.
pub open spec fn file_part_has_dot(s: Seq<char>) -> bool {
    exists|k: int|
        0 <= k < s.len() && #[trigger] s[k] == '.' && forall|j: int| k < j < s.len() ==> !is_path_separator(s[j])
}

/// Whether an icon name's file part has an extension.
fn icon_name_has_extension(icon_name: &[char]) -> (r: bool)
    ensures
        r == file_part_has_dot(icon_name@),
{
    let mut start: usize = 0;
    let mut i: usize = 0;
    while i < icon_name.len()
        invariant
            start <= i <= icon_name@.len(),
            start == 0 || is_path_separator(icon_name@[start - 1]),
            forall|j: int| start <= j < i ==> !is_path_separator(#[trigger] icon_name@[j]),
        decreases icon_name.len() - i,
    {
        if icon_name[i] == '/' || icon_name[i] == '\\' {
            start = i + 1;
        }
        i += 1;
    }
    let part = cut(icon_name, start, icon_name.len());
    let r = contains_char(&part, '.');
    proof {
        let s = icon_name@;
        if r {
            let k = choose|k: int| 0 <= k < part@.len() && part@[k] == '.';
            assert(s[start + k] == '.');
            assert(forall|j: int| start + k < j < s.len() ==> !is_path_separator(s[j]));
        }
        if file_part_has_dot(s) {
            let k = choose|k: int|
                0 <= k < s.len() && #[trigger] s[k] == '.' && forall|j: int| k < j < s.len() ==> !is_path_separator(s[j]);
            if k < start {
                assert(is_path_separator(s[start - 1]));
                assert(start - 1 != k);
            }
            assert(part@[k - start] == '.');
        }
    }
    r
}

/// A named attribute when it is present and non-empty, else `default`.
pub open spec fn nonempty_or(v: Option<Seq<char>>, default: Seq<char>) -> Seq<char> {
    match v {
        Some(x) => if x.len() > 0 {
            x
        } else {
            default
        },
        None => default,
    }
}

/// The image path of an admonition icon: `iconsdir` (by default `./images/icons`),
/// a `/` unless it ends in a separator, the icon name (by default the variant) and,
/// when the name's file part has no `.`, a `.` and the `icontype` (by default `png`
/// when `icons` is empty or `image`, else the value of `icons`).
pub open spec fn icon_target_spec(
    variant: Seq<char>,
    b: Map<Seq<char>, Seq<char>>,
    d: Map<Seq<char>, Seq<char>>,
    icons: Seq<char>,
) -> Seq<char> {
    let name = nonempty_or(named_attribute_spec(b, d, "icon"@), variant);
    let dir = nonempty_or(named_attribute_spec(b, d, "iconsdir"@), "./images/icons"@);
    let base = if dir.len() > 0 && is_path_separator(dir.last()) {
        dir + name
    } else {
        dir + seq!['/'] + name
    };
    let default_ext = if icons.len() == 0 || icons == "image"@ {
        "png"@
    } else {
        icons
    };
    if file_part_has_dot(name) {
        base
    } else {
        base + seq!['.'] + nonempty_or(named_attribute_spec(b, d, "icontype"@), default_ext)
    }
}

/// The image of an admonition icon when `icons` is set but not `font`:
/// `iconsdir/name.ext`, with `./images/icons` and `png` by default.
fn admonition_icon_target(variant: &String, block_attributes: &AttributeMap, document_attributes: &AttributeMap) -> (r:
    Option<Vec<char>>)
    ensures
        ({
            let icons = named_attribute_spec(block_attributes@, document_attributes@, "icons"@);
            match icons {
                None => r is None,
                Some(i) => if i == "font"@ {
                    r is None
                } else {
                    r matches Some(t) && t@ == icon_target_spec(variant@, block_attributes@, document_attributes@, i)
                },
            }
        }),
{
    proof {
        reveal_strlit("./images/icons");
        reveal_strlit("png");
    }
    let icons = match named_attribute(block_attributes, document_attributes, "icons") {
        Some(i) => i,
        None => return None,
    };
    if eq_str(&icons, "font") {
        return None;
    }
    let icon_name = match named_attribute(block_attributes, document_attributes, "icon") {
        Some(i) => if i.len() > 0 {
            i
        } else {
            string_chars(variant)
        },
        None => string_chars(variant),
    };
    let iconsdir = match named_attribute(block_attributes, document_attributes, "iconsdir") {
        Some(d) => if d.len() > 0 {
            d
        } else {
            to_chars("./images/icons")
        },
        None => to_chars("./images/icons"),
    };
    let needs_separator = !(iconsdir.len() > 0 && (iconsdir[iconsdir.len() - 1] == '/' || iconsdir[iconsdir.len() - 1]
        == '\\'));
    let mut out = copy(&iconsdir);
    if needs_separator {
        out.push('/');
    }
    append(&mut out, &icon_name);
    if icon_name_has_extension(&icon_name) {
        return Some(out);
    }
    let extension = match named_attribute(block_attributes, document_attributes, "icontype") {
        Some(t) => if t.len() > 0 {
            t
        } else if icons.len() == 0 || eq_str(&icons, "image") {
            to_chars("png")
        } else {
            icons
        },
        None => if icons.len() == 0 || eq_str(&icons, "image") {
            to_chars("png")
        } else {
            icons
        },
    };
    out.push('.');
    append(&mut out, &extension);
    assert(out@ =~= icon_target_spec(variant@, block_attributes@, document_attributes@, icons@));
    Some(out)
}

/// The image source: absolute targets as they are, others under `imagesdir`.
pub fn resolve_image_src(target: &String, document_attributes: &AttributeMap) -> (r: Vec<char>)
    ensures
        !document_attributes@.contains_key("imagesdir"@) ==> r@ == target@,
{
    let t = string_chars(target);
    if starts_with_str(&t, "http://") || starts_with_str(&t, "https://") || starts_with_str(&t, "data:")
        || starts_with_str(&t, "/") {
        return t;
    }
    match document_attributes.get("imagesdir") {
        Some(d) => {
            let dc = string_chars(d);
            if dc.len() == 0 {
                return t;
            }
            let mut end = dc.len();
            while end > 0 && dc[end - 1] == '/'
                invariant
                    end <= dc@.len(),
                decreases end,
            {
                end -= 1;
            }
            let mut out = cut(&dc, 0, end);
            out.push('/');
            append(&mut out, &t);
            out
        },
        None => t,
    }
}

fn render_admonition(html: &mut Vec<char>, a: &AdmonitionBlock, attrs: &AttributeMap, sections: &Vec<DocumentSection>, counters: &mut Counters)
    ensures
        framed(old(html)@, final(html)@, "<div class=\"admonitionblock "@, "</td>\n</tr>\n</table>\n</div>\n"@),
    decreases a, 0int,
{
    let ghost start = html@;
    let label = admonition_label(&a.variant, &a.attributes, attrs);
    push(html, "<div class=\"admonitionblock ");
    let ghost opened = html@;
    push_escaped_string(html, &a.variant);
    push(html, "\"");
    push_id_attr(html, &a.id);
    push(html, ">\n<table>\n<tr>\n<td class=\"icon\">\n");
    match admonition_font_icon_class(&a.variant, &a.attributes, attrs) {
        Some(class) => {
            push(html, "<i class=\"fa ");
            push_escaped(html, &to_chars(class));
            push(html, "\" title=\"");
            push_escaped(html, &label);
            push(html, "\"></i>\n");
        },
        None => match admonition_icon_target(&a.variant, &a.attributes, attrs) {
            Some(target) => {
                push(html, "<img src=\"");
                push_escaped(html, &target);
                push(html, "\" alt=\"");
                push_escaped(html, &label);
                push(html, "\">\n");
            },
            None => {
                push(html, "<div class=\"title\">");
                push_escaped(html, &label);
                push(html, "</div>\n");
            },
        },
    }
    push(html, "</td>\n<td class=\"content\">\n");
    let title = expanded_block_title(&a.title, counters);
    push_title_div(html, &title);
    render_blocks(html, &a.blocks, attrs, sections, counters);
    let ghost mid = html@;
    push(html, "</td>\n</tr>\n</table>\n</div>\n");
    proof {
        lemma_frame(start, mid, html@, "<div class=\"admonitionblock "@, "</td>\n</tr>\n</table>\n</div>\n"@);
    }
}

/// The classes an image block adds: its float, `text-` and its alignment, its role.
pub open spec fn image_classes_html(image: ImageBlock) -> Seq<char> {
    (match image.float {
        Some(f) => seq![' '] + f@,
        None => Seq::empty(),
    }) + (match image.align {
        Some(a) => " text-"@ + a@,
        None => Seq::empty(),
    }) + match image.role {
        Some(r) => seq![' '] + r@,
        None => Seq::empty(),
    }
}

/// How an image block's `div` opens: its classes, then the closing quote.
pub open spec fn image_div_open(image: ImageBlock) -> Seq<char> {
    "<div class=\"imageblock"@ + image_classes_html(image) + "\""@
}

/// An image block's classes name its alignment as `text-` and the alignment, and
/// its float, in that order after the float.
pub proof fn law_image_classes_name_alignment_and_float(image: ImageBlock)
    ensures
        image.align matches Some(a) ==> crate::text::starts_at(
            image_classes_html(image),
            match image.float {
                Some(f) => f@.len() as int + 1,
                None => 0int,
            },
            " text-"@ + a@,
        ),
        image.float matches Some(f) ==> crate::text::starts_at(image_classes_html(image), 0, seq![' '] + f@),
        image.align is None && image.float is None && image.role is None ==> image_classes_html(image).len() == 0,
{
    let fp: Seq<char> = match image.float {
        Some(f) => seq![' '] + f@,
        None => Seq::empty(),
    };
    let ap: Seq<char> = match image.align {
        Some(a) => " text-"@ + a@,
        None => Seq::empty(),
    };
    let rp: Seq<char> = match image.role {
        Some(r) => seq![' '] + r@,
        None => Seq::empty(),
    };
    let c = image_classes_html(image);
    assert(c == fp + ap + rp);
    assert(c.subrange(0, fp.len() as int) =~= fp);
    assert(c.subrange(fp.len() as int, (fp.len() + ap.len()) as int) =~= ap);
}

/// The `img` tag of an image block.
pub open spec fn img_tag_html(src: Seq<char>, image: ImageBlock) -> Seq<char> {
    "<img src=\""@ + escape_spec(src) + "\" alt=\""@ + escape_spec(image.alt@) + "\""@ + opt_attr_html(
        " width=\""@,
        image.width,
    ) + opt_attr_html(" height=\""@, image.height) + ">"@
}

fn push_image_classes(html: &mut Vec<char>, image: &ImageBlock)
    ensures
        final(html)@ == old(html)@ + image_classes_html(*image),
{
    match &image.float {
        Some(f) => {
            html.push(' ');
            push_string(html, f);
        },
        None => {},
    }
    match &image.align {
        Some(a) => {
            push(html, " text-");
            push_string(html, a);
        },
        None => {},
    }
    match &image.role {
        Some(r) => {
            html.push(' ');
            push_string(html, r);
        },
        None => {},
    }
    assert(html@ =~= old(html)@ + image_classes_html(*image));
}

fn push_img_tag(html: &mut Vec<char>, src: &Vec<char>, image: &ImageBlock)
    ensures
        final(html)@ == old(html)@ + img_tag_html(src@, *image),
{
    push(html, "<img src=\"");
    push_escaped(html, src);
    push(html, "\" alt=\"");
    push_escaped_string(html, &image.alt);
    push(html, "\"");
    push_opt_attr(html, " width=\"", &image.width);
    push_opt_attr(html, " height=\"", &image.height);
    push(html, ">");
    assert(html@ =~= old(html)@ + img_tag_html(src@, *image));
}

fn render_image_block(html: &mut Vec<char>, image: &ImageBlock, attrs: &AttributeMap, counters: &mut Counters)
    ensures
        framed(old(html)@, final(html)@, "<div class=\"imageblock"@, "</div>\n"@),
        opens_at(final(html)@, old(html)@.len() as int, image_div_open(*image)),
{
    let ghost start = html@;
    push(html, "<div class=\"imageblock");
    let ghost opened = html@;
    push_image_classes(html, image);
    push(html, "\"");
    let ghost head = html@;
    proof {
        reveal_strlit("\"");
        assert(head =~= start + image_div_open(*image));
    }
    push_id_attr(html, &image.id);
    push(html, ">\n<div class=\"content\">\n");
    let src = resolve_image_src(&image.target, attrs);
    let link: Option<Vec<char>> = match &image.link {
        Some(l) => {
            let lc = string_chars(l);
            if eq_str(&lc, "self") {
                Some(copy(&src))
            } else {
                Some(lc)
            }
        },
        None => None,
    };
    match &link {
        Some(href) => {
            push(html, "<a class=\"image\" href=\"");
            push_escaped(html, href);
            push(html, "\">");
        },
        None => {},
    }
    push_img_tag(html, &src, image);
    if link.is_some() {
        push(html, "</a>");
    }
    push(html, "\n</div>\n");
    let title = captioned_block_title(&image.title, &image.attributes, attrs, counters, CaptionKind::Image);
    push_title_div(html, &title);
    let ghost mid = html@;
    push(html, "</div>\n");
    proof {
        lemma_frame(start, mid, html@, "<div class=\"imageblock"@, "</div>\n"@);
        assert forall|j: int| 0 <= j < image_div_open(*image).len() implies html@[start.len() + j]
            == #[trigger] image_div_open(*image)[j] by {
            assert(html@[start.len() + j] == head[start.len() + j]);
        }
    }
}

// ---------------------------------------------------------------------------
// Blocks

/// What rendering block `b` appends to `a`, giving `f`: the block's own frame
/// (its opening and closing markup), the exact callout list and paragraph
/// HTML, and for a table of contents nothing without sections.
pub open spec fn block_output(
    b: PreparedBlock,
    a: Seq<char>,
    f: Seq<char>,
    attrs: Map<Seq<char>, Seq<char>>,
    sections: Seq<DocumentSection>,
) -> bool {
    match b {
        PreparedBlock::Preamble(_) => framed(
            a,
            f,
            "<div id=\"preamble\">\n<div class=\"sectionbody\">\n"@,
            "</div>\n</div>\n"@,
        ),
        PreparedBlock::Paragraph(p) => exists|t: Option<Seq<char>>|
            (p.title is None ==> t is None) && f == a + #[trigger] paragraph_html(p, t),
        PreparedBlock::Admonition(_) => framed(a, f, "<div class=\"admonitionblock "@, "</td>\n</tr>\n</table>\n</div>\n"@),
        PreparedBlock::UnorderedList(_) => framed(a, f, "<div class=\"ulist\""@, "</ul>\n</div>\n"@),
        PreparedBlock::OrderedList(_) => framed(a, f, "<div class=\"olist arabic\""@, "</ol>\n</div>\n"@),
        PreparedBlock::DescriptionList(_) => framed(a, f, "<div class=\"dlist\""@, "</dl>\n</div>\n"@),
        PreparedBlock::Table(_) => framed(
            a,
            f,
            "<table class=\"tableblock frame-all grid-all stretch\""@,
            "</tbody>\n</table>\n"@,
        ),
        PreparedBlock::Listing(_) => framed(a, f, "<div class=\"listingblock\""@, "</div>\n</div>\n"@),
        PreparedBlock::Literal(_) => framed(a, f, "<div class=\"literalblock\""@, "</pre>\n</div>\n</div>\n"@),
        PreparedBlock::CalloutList(c) => f == a + "<div class=\"colist arabic\">\n<table>\n<tbody>\n"@
            + callout_items_html(c.items@) + "</tbody>\n</table>\n</div>\n"@,
        PreparedBlock::Example(_) => framed(a, f, "<div class=\""@ + "exampleblock"@, "</div>\n</div>\n"@),
        PreparedBlock::Sidebar(_) => framed(a, f, "<div class=\"sidebarblock\""@, "</div>\n</div>\n"@),
        PreparedBlock::Open(_) => framed(a, f, "<div class=\""@ + "openblock"@, "</div>\n</div>\n"@),
        PreparedBlock::Quote(q) => framed(
            a,
            f,
            if q.is_verse {
                "<div class=\"verseblock\""@
            } else {
                "<div class=\"quoteblock\""@
            },
            "</div>\n"@,
        ),
        PreparedBlock::Passthrough(_) => appended(a, f) && crate::text::ends_with_spec(f, seq!['\n']),
        PreparedBlock::Image(img) => framed(a, f, "<div class=\"imageblock"@, "</div>\n"@) && opens_at(
            f,
            a.len() as int,
            image_div_open(img),
        ),
        PreparedBlock::Section(x) => framed(a, f, section_head_html(x.level, x.id@, x.title@), "</div>\n</div>\n"@),
        PreparedBlock::Toc(_) => if sections.len() == 0 {
            f == a
        } else {
            framed(a, f, toc_head_html(attrs), "</div>\n"@)
        },
    }
}

/// `st` steps through the rendering of `bs`: block `k` takes `st[k]` to `st[k + 1]`.
pub open spec fn blocks_chain(
    bs: Seq<PreparedBlock>,
    st: Seq<Seq<char>>,
    attrs: Map<Seq<char>, Seq<char>>,
    sections: Seq<DocumentSection>,
) -> bool {
    st.len() == bs.len() + 1 && forall|k: int|
        0 <= k < bs.len() ==> #[trigger] block_output(bs[k], st[k], st[k + 1], attrs, sections)
}

/// A list of list items: each item a `<li>` holding its blocks, in order.
pub open spec fn items_chain(n: nat, st: Seq<Seq<char>>) -> bool {
    st.len() == n + 1 && forall|k: int| 0 <= k < n ==> framed(#[trigger] st[k], st[k + 1], "<li>\n"@, "</li>\n"@)
}

fn render_blocks(html: &mut Vec<char>, blocks: &Vec<PreparedBlock>, attrs: &AttributeMap, sections: &Vec<DocumentSection>, counters: &mut Counters)
    ensures
        appended(old(html)@, final(html)@),
        exists|st: Seq<Seq<char>>|
            #[trigger] blocks_chain(blocks@, st, attrs@, sections@) && st[0] == old(html)@ && st.last()
                == final(html)@,
    decreases blocks, 1int,
{
    let mut i: usize = 0;
    let ghost mut st: Seq<Seq<char>> = seq![html@];
    while i < blocks.len()
        invariant
            appended(old(html)@, html@),
            i <= blocks@.len(),
            st.len() == i + 1,
            st[0] == old(html)@,
            st[i as int] == html@,
            forall|k: int|
                0 <= k < i ==> #[trigger] block_output(blocks@[k], st[k], st[k + 1], attrs@, sections@),
        decreases blocks.len() - i,
    {
        render_block(html, &blocks[i], attrs, sections, counters);
        proof {
            st = st.push(html@);
        }
        i += 1;
    }
    assert(blocks_chain(blocks@, st, attrs@, sections@));
}

fn render_items(html: &mut Vec<char>, items: &Vec<ListItemBlock>, attrs: &AttributeMap, sections: &Vec<DocumentSection>, counters: &mut Counters)
    ensures
        appended(old(html)@, final(html)@),
        exists|st: Seq<Seq<char>>|
            #[trigger] items_chain(items@.len(), st) && st[0] == old(html)@ && st.last() == final(html)@,
    decreases items, 0int,
{
    let mut i: usize = 0;
    let ghost mut st: Seq<Seq<char>> = seq![html@];
    while i < items.len()
        invariant
            appended(old(html)@, html@),
            i <= items@.len(),
            st.len() == i + 1,
            st[0] == old(html)@,
            st[i as int] == html@,
            forall|k: int| 0 <= k < i ==> framed(#[trigger] st[k], st[k + 1], "<li>\n"@, "</li>\n"@),
        decreases items.len() - i,
    {
        let ghost start = html@;
        push(html, "<li>\n");
        render_blocks(html, &items[i].blocks, attrs, sections, counters);
        let ghost mid = html@;
        push(html, "</li>\n");
        proof {
            lemma_frame(start, mid, html@, "<li>\n"@, "</li>\n"@);
            lemma_appended_trans(old(html)@, start, html@);
            st = st.push(html@);
        }
        i += 1;
    }
    assert(items_chain(items@.len(), st));
}

fn render_list(html: &mut Vec<char>, list: &ListBlock, ordered: bool, attrs: &AttributeMap, sections: &Vec<DocumentSection>, counters: &mut Counters)
    ensures
        framed(old(html)@, final(html)@, (if ordered { "<div class=\"olist arabic\""@ } else { "<div class=\"ulist\""@ }), (if ordered { "</ol>\n</div>\n"@ } else { "</ul>\n</div>\n"@ })),
    decreases list, 0int,
{
    let ghost start = html@;
    let open: &str = if ordered {
        "<div class=\"olist arabic\""
    } else {
        "<div class=\"ulist\""
    };
    push(html, open);
    push_id_attr(html, &list.id);
    push(html, ">\n");
    let title = expanded_block_title(&list.title, counters);
    push_title_div(html, &title);
    if ordered {
        push(html, "<ol class=\"arabic\">\n");
    } else {
        push(html, "<ul>\n");
    }
    let ghost before = html@;
    render_items(html, &list.items, attrs, sections, counters);
    proof {
        lemma_appended_trans(start + open@, before, html@);
    }
    let ghost mid = html@;
    let close: &str = if ordered {
        "</ol>\n</div>\n"
    } else {
        "</ul>\n</div>\n"
    };
    push(html, close);
    proof {
        lemma_frame(start, mid, html@, open@, close@);
    }
}

/// The `<dt>` entries of description list terms, in order.
pub open spec fn terms_html(ts: Seq<crate::prepare::DescriptionListTermBlock>) -> Seq<char>
    decreases ts.len(),
{
    if ts.len() == 0 {
        Seq::empty()
    } else {
        terms_html(ts.drop_last()) + "<dt class=\"hdlist1\">"@ + inlines_html(ts.last().inlines@) + "</dt>\n"@
    }
}

/// What rendering a description list item appends to `a`, giving `f`: its
/// terms, then its description, if any, in a `<dd>`.
pub open spec fn ditem_output(item: DescriptionListItemBlock, a: Seq<char>, f: Seq<char>) -> bool {
    let m = a + terms_html(item.terms@);
    match item.description {
        Some(_) => framed(m, f, "<dd>\n"@, "</dd>\n"@),
        None => f == m,
    }
}

/// `st` steps through the rendering of description list items.
pub open spec fn ditems_chain(items: Seq<DescriptionListItemBlock>, st: Seq<Seq<char>>) -> bool {
    st.len() == items.len() + 1 && forall|k: int|
        0 <= k < items.len() ==> #[trigger] ditem_output(items[k], st[k], st[k + 1])
}

/// The opening and closing tag of a table cell: `th` in a header row or for a
/// header-styled cell, else `td`.
pub open spec fn cell_tags(cell: TableCell, header: bool) -> (Seq<char>, Seq<char>) {
    if header || crate::text::opt_view(cell.style) == Some("header"@) {
        ("<th"@, "</th>\n"@)
    } else {
        ("<td"@, "</td>\n"@)
    }
}

/// `st` steps through the rendering of a row's cells, each in its tags.
pub open spec fn cells_chain(cells: Seq<TableCell>, header: bool, st: Seq<Seq<char>>) -> bool {
    st.len() == cells.len() + 1 && forall|k: int|
        0 <= k < cells.len() ==> framed(#[trigger] st[k], st[k + 1], cell_tags(cells[k], header).0, cell_tags(
            cells[k],
            header,
        ).1)
}

fn render_description_items(
    html: &mut Vec<char>,
    items: &Vec<DescriptionListItemBlock>,
    attrs: &AttributeMap,
    sections: &Vec<DocumentSection>, counters: &mut Counters,
)
    ensures
        appended(old(html)@, final(html)@),
        exists|st: Seq<Seq<char>>|
            #[trigger] ditems_chain(items@, st) && st[0] == old(html)@ && st.last() == final(html)@,
    decreases items, 0int,
{
    let mut i: usize = 0;
    let ghost mut st: Seq<Seq<char>> = seq![html@];
    while i < items.len()
        invariant
            appended(old(html)@, html@),
            i <= items@.len(),
            st.len() == i + 1,
            st[0] == old(html)@,
            st[i as int] == html@,
            forall|k: int| 0 <= k < i ==> #[trigger] ditem_output(items@[k], st[k], st[k + 1]),
        decreases items.len() - i,
    {
        let item = &items[i];
        let ghost item_start = html@;
        let mut k: usize = 0;
        while k < item.terms.len()
            invariant
                appended(old(html)@, html@),
                k <= item.terms@.len(),
                appended(old(html)@, item_start),
                html@ == item_start + terms_html(item.terms@.subrange(0, k as int)),
            decreases item.terms.len() - k,
        {
            let ghost before = html@;
            push(html, "<dt class=\"hdlist1\">");
            render_inlines(html, &item.terms[k].inlines);
            push(html, "</dt>\n");
            proof {
                let t = item.terms@.subrange(0, k + 1);
                assert(t.drop_last() =~= item.terms@.subrange(0, k as int));
                assert(t.last() == item.terms@[k as int]);
                assert(html@ =~= item_start + terms_html(t));
                lemma_appended_add(item_start, terms_html(t));
                lemma_appended_trans(old(html)@, item_start, html@);
            }
            k += 1;
        }
        assert(item.terms@.subrange(0, item.terms@.len() as int) =~= item.terms@);
        match &item.description {
            Some(d) => {
                proof {
                    assert(decreases_to!(items => items@[i as int]));
                    assert(decreases_to!(items@[i as int] => items@[i as int].description));
                    assert(decreases_to!(items@[i as int].description => d));
                }
                let ghost dstart = html@;
                push(html, "<dd>\n");
                render_blocks(html, &d.blocks, attrs, sections, counters);
                let ghost dmid = html@;
                push(html, "</dd>\n");
                proof {
                    lemma_frame(dstart, dmid, html@, "<dd>\n"@, "</dd>\n"@);
                    lemma_appended_trans(old(html)@, dstart, html@);
                }
            },
            None => {},
        }
        proof {
            st = st.push(html@);
        }
        i += 1;
    }
    assert(ditems_chain(items@, st));
}

fn render_description_list(html: &mut Vec<char>, list: &DescriptionListBlock, attrs: &AttributeMap, sections: &Vec<DocumentSection>, counters: &mut Counters)
    ensures
        framed(old(html)@, final(html)@, "<div class=\"dlist\""@, "</dl>\n</div>\n"@),
    decreases list, 0int,
{
    let ghost start = html@;
    push(html, "<div class=\"dlist\"");
    let ghost opened = html@;
    push_id_attr(html, &list.id);
    push(html, ">\n");
    let title = expanded_block_title(&list.title, counters);
    push_title_div(html, &title);
    push(html, "<dl>\n");
    render_description_items(html, &list.items, attrs, sections, counters);
    let ghost mid = html@;
    push(html, "</dl>\n</div>\n");
    proof {
        lemma_frame(start, mid, html@, "<div class=\"dlist\""@, "</dl>\n</div>\n"@);
    }
}

fn render_table_cell(html: &mut Vec<char>, cell: &TableCell, header: bool, attrs: &AttributeMap, sections: &Vec<DocumentSection>, counters: &mut Counters)
    ensures
        framed(old(html)@, final(html)@, (if header || crate::text::opt_view(cell.style) == Some("header"@) { "<th"@ } else { "<td"@ }), (if header || crate::text::opt_view(cell.style) == Some("header"@) { "</th>\n"@ } else { "</td>\n"@ })),
    decreases cell, 0int,
{
    let th = header || crate::meta::opt_is(&cell.style, "header");
    let ghost start = html@;
    let open: &str = if th {
        "<th"
    } else {
        "<td"
    };
    push(html, open);
    push(html, " class=\"tableblock halign-left valign-top\"");
    if cell.colspan > 1 {
        push(html, " colspan=\"");
        push_usize(html, cell.colspan);
        push(html, "\"");
    }
    if cell.rowspan > 1 {
        push(html, " rowspan=\"");
        push_usize(html, cell.rowspan);
        push(html, "\"");
    }
    html.push('>');
    let mut done = false;
    if cell.blocks.len() == 1 {
        match &cell.blocks[0] {
            PreparedBlock::Paragraph(p) => {
                if th {
                    render_inlines(html, &p.inlines);
                } else {
                    push(html, "<p class=\"tableblock\">");
                    render_inlines(html, &p.inlines);
                    push(html, "</p>");
                }
                done = true;
            },
            _ => {},
        }
    }
    if !done {
        let ghost before = html@;
        render_blocks(html, &cell.blocks, attrs, sections, counters);
        proof {
            lemma_appended_trans(start + open@, before, html@);
        }
    }
    let ghost mid = html@;
    let close: &str = if th {
        "</th>\n"
    } else {
        "</td>\n"
    };
    push(html, close);
    proof {
        lemma_frame(start, mid, html@, open@, close@);
    }
}

fn render_table_row(html: &mut Vec<char>, row: &TableRow, header: bool, attrs: &AttributeMap, sections: &Vec<DocumentSection>, counters: &mut Counters)
    ensures
        appended(old(html)@, final(html)@),
        exists|st: Seq<Seq<char>>|
            #[trigger] cells_chain(row.cells@, header, st) && st[0] == old(html)@ && st.last() == final(html)@,
    decreases row, 0int,
{
    let mut i: usize = 0;
    let ghost mut st: Seq<Seq<char>> = seq![html@];
    while i < row.cells.len()
        invariant
            appended(old(html)@, html@),
            i <= row.cells@.len(),
            st.len() == i + 1,
            st[0] == old(html)@,
            st[i as int] == html@,
            forall|k: int|
                0 <= k < i ==> framed(#[trigger] st[k], st[k + 1], cell_tags(row.cells@[k], header).0, cell_tags(
                    row.cells@[k],
                    header,
                ).1),
        decreases row.cells.len() - i,
    {
        render_table_cell(html, &row.cells[i], header, attrs, sections, counters);
        proof {
            st = st.push(html@);
        }
        i += 1;
    }
    assert(cells_chain(row.cells@, header, st));
}

fn render_table(html: &mut Vec<char>, table: &TableBlock, attrs: &AttributeMap, sections: &Vec<DocumentSection>, counters: &mut Counters)
    ensures
        framed(old(html)@, final(html)@, "<table class=\"tableblock frame-all grid-all stretch\""@, "</tbody>\n</table>\n"@),
    decreases table, 0int,
{
    let ghost start = html@;
    push(html, "<table class=\"tableblock frame-all grid-all stretch\"");
    let ghost opened = html@;
    push_id_attr(html, &table.id);
    push(html, ">\n");
    let title = captioned_block_title(&table.title, &table.attributes, attrs, counters, CaptionKind::Table);
    match &title {
        Some(t) => {
            push(html, "<caption class=\"title\">");
            push_escaped(html, t);
            push(html, "</caption>\n");
        },
        None => {},
    }
    match &table.header {
        Some(h) => {
            push(html, "<thead>\n<tr>\n");
            render_table_row(html, h, true, attrs, sections, counters);
            push(html, "</tr>\n</thead>\n");
        },
        None => {},
    }
    push(html, "<tbody>\n");
    let mut i: usize = 0;
    while i < table.rows.len()
        invariant
            appended(old(html)@, html@),
            opens_at(html@, old(html)@.len() as int, "<table class=\"tableblock frame-all grid-all stretch\""@),
            html@.len() >= old(html)@.len() + "<table class=\"tableblock frame-all grid-all stretch\""@.len(),
            i <= table.rows@.len(),
        decreases table.rows.len() - i,
    {
        push(html, "<tr>\n");
        render_table_row(html, &table.rows[i], false, attrs, sections, counters);
        push(html, "</tr>\n");
        i += 1;
    }
    let ghost mid = html@;
    push(html, "</tbody>\n</table>\n");
    proof {
        lemma_frame(start, mid, html@, "<table class=\"tableblock frame-all grid-all stretch\""@, "</tbody>\n</table>\n"@);
    }
}

fn render_compound(
    html: &mut Vec<char>,
    class_name: &str,
    block: &CompoundBlock,
    attrs: &AttributeMap,
    sections: &Vec<DocumentSection>, counters: &mut Counters,
    caption: bool,
)
    ensures
        framed(old(html)@, final(html)@, "<div class=\""@ + class_name@, "</div>\n</div>\n"@),
    decreases block, 0int,
{
    let ghost start = html@;
    push(html, "<div class=\"");
    push(html, class_name);
    assert(html@ =~= start + ("<div class=\""@ + class_name@));
    push(html, "\"");
    push_id_attr(html, &block.id);
    push(html, ">\n");
    let title = if caption {
        captioned_block_title(&block.title, &block.attributes, attrs, counters, CaptionKind::Example)
    } else {
        expanded_block_title(&block.title, counters)
    };
    push_title_div(html, &title);
    push(html, "<div class=\"content\">\n");
    let ghost before = html@;
    render_blocks(html, &block.blocks, attrs, sections, counters);
    proof {
        lemma_appended_trans(start + ("<div class=\""@ + class_name@), before, html@);
    }
    let ghost mid = html@;
    push(html, "</div>\n</div>\n");
    proof {
        lemma_frame(start, mid, html@, "<div class=\""@ + class_name@, "</div>\n</div>\n"@);
    }
}

fn render_sidebar(html: &mut Vec<char>, block: &CompoundBlock, attrs: &AttributeMap, sections: &Vec<DocumentSection>, counters: &mut Counters)
    ensures
        framed(old(html)@, final(html)@, "<div class=\"sidebarblock\""@, "</div>\n</div>\n"@),
    decreases block, 0int,
{
    let ghost start = html@;
    push(html, "<div class=\"sidebarblock\"");
    let ghost opened = html@;
    push_id_attr(html, &block.id);
    push(html, ">\n<div class=\"content\">\n");
    let title = expanded_block_title(&block.title, counters);
    push_title_div(html, &title);
    render_blocks(html, &block.blocks, attrs, sections, counters);
    let ghost mid = html@;
    push(html, "</div>\n</div>\n");
    proof {
        lemma_frame(start, mid, html@, "<div class=\"sidebarblock\""@, "</div>\n</div>\n"@);
    }
}

fn render_quote(html: &mut Vec<char>, block: &QuoteBlock, attrs: &AttributeMap, sections: &Vec<DocumentSection>, counters: &mut Counters)
    ensures
        framed(old(html)@, final(html)@, (if block.is_verse { "<div class=\"verseblock\""@ } else { "<div class=\"quoteblock\""@ }), "</div>\n"@),
    decreases block, 0int,
{
    let ghost start = html@;
    let open: &str = if block.is_verse {
        "<div class=\"verseblock\""
    } else {
        "<div class=\"quoteblock\""
    };
    push(html, open);
    push_id_attr(html, &block.id);
    push(html, ">\n");
    let title = expanded_block_title(&block.title, counters);
    push_title_div(html, &title);
    if block.is_verse {
        push(html, "<pre class=\"content\">");
        push_escaped(html, &joined_lines(&block.content));
        push(html, "</pre>\n");
    } else {
        push(html, "<blockquote>\n");
        let ghost before = html@;
        render_blocks(html, &block.blocks, attrs, sections, counters);
        proof {
            lemma_appended_trans(start + open@, before, html@);
        }
        push(html, "</blockquote>\n");
    }
    if block.attribution.is_some() || block.citetitle.is_some() {
        push(html, "<div class=\"attribution\">\n");
        push(html, "&#8212; ");
        match &block.attribution {
            Some(a) => push_escaped_string(html, a),
            None => {},
        }
        match &block.citetitle {
            Some(c) => {
                push(html, "<br>\n<cite>");
                push_escaped_string(html, c);
                push(html, "</cite>\n");
            },
            None => {},
        }
        push(html, "</div>\n");
    }
    let ghost mid = html@;
    push(html, "</div>\n");
    proof {
        lemma_frame(start, mid, html@, open@, "</div>\n"@);
    }
}

/// The HTML of a paragraph whose title, after counter expansion, is `title`.
pub open spec fn paragraph_html(p: ParagraphBlock, title: Option<Seq<char>>) -> Seq<char> {
    "<div class=\"paragraph\""@ + id_attr_html(p.id) + ">\n"@ + title_div_html(title) + "<p>"@ + inlines_html(
        p.inlines@,
    ) + "</p>\n</div>\n"@
}

fn render_paragraph(html: &mut Vec<char>, p: &ParagraphBlock, counters: &mut Counters)
    ensures
        exists|t: Option<Seq<char>>|
            (p.title is None ==> t is None) && final(html)@ == old(html)@ + #[trigger] paragraph_html(*p, t),
{
    push(html, "<div class=\"paragraph\"");
    push_id_attr(html, &p.id);
    push(html, ">\n");
    let title = expanded_block_title(&p.title, counters);
    push_title_div(html, &title);
    push(html, "<p>");
    render_inlines(html, &p.inlines);
    push(html, "</p>\n</div>\n");
    assert(html@ =~= old(html)@ + paragraph_html(*p, crate::meta::opt_chars_view(title)));
}

/// The opening of a section: its division with the level and id, then its heading.
pub open spec fn section_head_html(level: u8, id: Seq<char>, title: Seq<char>) -> Seq<char> {
    let h = crate::text::decimal_spec(level as nat + 1);
    "<div class=\"sect"@ + crate::text::decimal_spec(level as nat) + "\" id=\""@ + escape_spec(id) + "\">\n<h"@ + h + ">"@
        + escape_spec(title) + "</h"@ + h + ">\n<div class=\"sectionbody\">\n"@
}

fn render_section(html: &mut Vec<char>, s: &crate::prepare::SectionBlock, attrs: &AttributeMap, sections: &Vec<DocumentSection>, counters: &mut Counters)
    ensures
        framed(old(html)@, final(html)@, section_head_html(s.level, s.id@, s.title@), "</div>\n</div>\n"@),
    decreases s, 0int,
{
    let ghost start = html@;
    push(html, "<div class=\"sect");
    push_usize(html, s.level as usize);
    push(html, "\" id=\"");
    push_escaped_string(html, &s.id);
    push(html, "\">\n<h");
    push_usize(html, s.level as usize + 1);
    push(html, ">");
    push_escaped_string(html, &s.title);
    push(html, "</h");
    push_usize(html, s.level as usize + 1);
    push(html, ">\n<div class=\"sectionbody\">\n");
    assert(html@ =~= start + section_head_html(s.level, s.id@, s.title@));
    render_blocks(html, &s.blocks, attrs, sections, counters);
    let ghost mid = html@;
    push(html, "</div>\n</div>\n");
    proof {
        lemma_frame(start, mid, html@, section_head_html(s.level, s.id@, s.title@), "</div>\n</div>\n"@);
    }
}

fn render_block(html: &mut Vec<char>, block: &PreparedBlock, attrs: &AttributeMap, sections: &Vec<DocumentSection>, counters: &mut Counters)
    ensures
        appended(old(html)@, final(html)@),
        block_output(*block, old(html)@, final(html)@, attrs@, sections@),
    decreases block, 2int,
{
    match block {
        PreparedBlock::Preamble(p) => {
            let ghost start = html@;
            push(html, "<div id=\"preamble\">\n<div class=\"sectionbody\">\n");
            let ghost before = html@;
            render_blocks(html, &p.blocks, attrs, sections, counters);
            let ghost mid = html@;
            push(html, "</div>\n</div>\n");
            proof {
                lemma_appended_add(start, before.subrange(start.len() as int, before.len() as int));
                assert(before =~= start + before.subrange(start.len() as int, before.len() as int));
                lemma_appended_trans(start, before, mid);
                lemma_appended_add(mid, "</div>\n</div>\n"@);
                lemma_appended_trans(start, mid, html@);
                lemma_frame(start, mid, html@, "<div id=\"preamble\">\n<div class=\"sectionbody\">\n"@, "</div>\n</div>\n"@);
            }
            assert(start == old(html)@);
            assert(appended(old(html)@, html@));
        },
        PreparedBlock::Paragraph(p) => render_paragraph(html, p, counters),
        PreparedBlock::Admonition(a) => render_admonition(html, a, attrs, sections, counters),
        PreparedBlock::UnorderedList(l) => render_list(html, l, false, attrs, sections, counters),
        PreparedBlock::OrderedList(l) => render_list(html, l, true, attrs, sections, counters),
        PreparedBlock::DescriptionList(l) => render_description_list(html, l, attrs, sections, counters),
        PreparedBlock::Table(t) => render_table(html, t, attrs, sections, counters),
        PreparedBlock::Listing(l) => render_listing(html, l, attrs, counters),
        PreparedBlock::Literal(l) => render_literal(html, l, counters),
        PreparedBlock::CalloutList(c) => render_callout_list(html, c),
        PreparedBlock::Example(b) => render_compound(html, "exampleblock", b, attrs, sections, counters, true),
        PreparedBlock::Sidebar(b) => render_sidebar(html, b, attrs, sections, counters),
        PreparedBlock::Open(b) => render_compound(html, "openblock", b, attrs, sections, counters, false),
        PreparedBlock::Quote(q) => render_quote(html, q, attrs, sections, counters),
        PreparedBlock::Passthrough(p) => render_passthrough(html, p, attrs, counters),
        PreparedBlock::Image(img) => render_image_block(html, img, attrs, counters),
        PreparedBlock::Section(s) => render_section(html, s, attrs, sections, counters),
        PreparedBlock::Toc(_) => render_toc(html, sections, attrs),
    }
}

// ---------------------------------------------------------------------------
// Inlines

/// The HTML tag of a span variant.
pub open spec fn span_tag_spec(variant: Seq<char>) -> Seq<char> {
    if variant == "strong"@ {
        "strong"@
    } else if variant == "emphasis"@ {
        "em"@
    } else if variant == "monospace"@ {
        "code"@
    } else if variant == "subscript"@ {
        "sub"@
    } else if variant == "superscript"@ {
        "sup"@
    } else {
        "span"@
    }
}

/// Each span variant renders with its own HTML element: strong as `<strong>`,
/// emphasis as `<em>`, monospace as `<code>`, subscript as `<sub>` and superscript
/// as `<sup>`, around the HTML of the span's inlines.
pub proof fn law_span_variants_render_as_their_elements(
    v: crate::ast::InlineVariant,
    sp: crate::prepare::SpanInline,
)
    requires
        sp.variant@ == crate::prepare::inline_variant_name_spec(v),
    ensures
        v == crate::ast::InlineVariant::Strong ==> inline_html(PreparedInline::Span(sp)) == "<strong>"@
            + inlines_html(sp.inlines@) + "</strong>"@,
        v == crate::ast::InlineVariant::Emphasis ==> inline_html(PreparedInline::Span(sp)) == "<em>"@
            + inlines_html(sp.inlines@) + "</em>"@,
        v == crate::ast::InlineVariant::Monospace ==> inline_html(PreparedInline::Span(sp)) == "<code>"@
            + inlines_html(sp.inlines@) + "</code>"@,
        v == crate::ast::InlineVariant::Subscript ==> inline_html(PreparedInline::Span(sp)) == "<sub>"@
            + inlines_html(sp.inlines@) + "</sub>"@,
        v == crate::ast::InlineVariant::Superscript ==> inline_html(PreparedInline::Span(sp)) == "<sup>"@
            + inlines_html(sp.inlines@) + "</sup>"@,
{
    reveal_strlit("strong");
    reveal_strlit("emphasis");
    reveal_strlit("monospace");
    reveal_strlit("subscript");
    reveal_strlit("superscript");
    reveal_strlit("em");
    reveal_strlit("code");
    reveal_strlit("sub");
    reveal_strlit("sup");
    reveal_strlit("span");
    reveal_strlit("<strong>");
    reveal_strlit("</strong>");
    reveal_strlit("<em>");
    reveal_strlit("</em>");
    reveal_strlit("<code>");
    reveal_strlit("</code>");
    reveal_strlit("<sub>");
    reveal_strlit("</sub>");
    reveal_strlit("<sup>");
    reveal_strlit("</sup>");
    reveal_strlit("</");
    let inner = inlines_html(sp.inlines@);
    let tag = span_tag_spec(sp.variant@);
    assert(inline_html(PreparedInline::Span(sp)) == seq!['<'] + tag + seq!['>'] + inner + "</"@ + tag + seq!['>']);
    if v == crate::ast::InlineVariant::Strong {
        assert(tag == "strong"@);
        assert(seq!['<'] + tag + seq!['>'] =~= "<strong>"@);
        assert("</"@ + tag + seq!['>'] =~= "</strong>"@);
    } else if v == crate::ast::InlineVariant::Emphasis {
        assert(sp.variant@ != "strong"@) by { assert(sp.variant@[0] != "strong"@[0]); }
        assert(tag == "em"@);
        assert(seq!['<'] + tag + seq!['>'] =~= "<em>"@);
        assert("</"@ + tag + seq!['>'] =~= "</em>"@);
    } else if v == crate::ast::InlineVariant::Monospace {
        assert(sp.variant@ != "strong"@) by { assert(sp.variant@[0] != "strong"@[0]); }
        assert(sp.variant@ != "emphasis"@) by { assert(sp.variant@[0] != "emphasis"@[0]); }
        assert(tag == "code"@);
        assert(seq!['<'] + tag + seq!['>'] =~= "<code>"@);
        assert("</"@ + tag + seq!['>'] =~= "</code>"@);
    } else if v == crate::ast::InlineVariant::Subscript {
        assert(sp.variant@ != "strong"@) by { assert(sp.variant@[1] != "strong"@[1]); }
        assert(sp.variant@ != "emphasis"@) by { assert(sp.variant@[0] != "emphasis"@[0]); }
        assert(sp.variant@ != "monospace"@) by { assert(sp.variant@[0] != "monospace"@[0]); }
        assert(tag == "sub"@);
        assert(seq!['<'] + tag + seq!['>'] =~= "<sub>"@);
        assert("</"@ + tag + seq!['>'] =~= "</sub>"@);
    } else {
        assert(sp.variant@ != "strong"@) by { assert(sp.variant@[1] != "strong"@[1]); }
        assert(sp.variant@ != "emphasis"@) by { assert(sp.variant@[0] != "emphasis"@[0]); }
        assert(sp.variant@ != "monospace"@) by { assert(sp.variant@[0] != "monospace"@[0]); }
        assert(sp.variant@ != "subscript"@) by { assert(sp.variant@[2] != "subscript"@[2]); }
        assert(tag == "sup"@);
        assert(seq!['<'] + tag + seq!['>'] =~= "<sup>"@);
        assert("</"@ + tag + seq!['>'] =~= "</sup>"@);
    }
}

/// The HTML tag of a span variant.
fn span_tag(variant: &String) -> (r: &'static str)
    ensures
        r@ == span_tag_spec(variant@),
{
    let v = string_chars(variant);
    if eq_str(&v, "strong") {
        "strong"
    } else if eq_str(&v, "emphasis") {
        "em"
    } else if eq_str(&v, "monospace") {
        "code"
    } else if eq_str(&v, "subscript") {
        "sub"
    } else if eq_str(&v, "superscript") {
        "sup"
    } else {
        "span"
    }
}

/// `opening`, the escaped value and a closing quote for an optional attribute;
/// nothing when it is absent.
pub open spec fn opt_attr_html(opening: Seq<char>, v: Option<String>) -> Seq<char> {
    match v {
        Some(x) => opening + escape_spec(x@) + "\""@,
        None => Seq::empty(),
    }
}

/// The HTML of a sequence of inlines: each inline's HTML in turn.
pub open spec fn inlines_html(s: Seq<PreparedInline>) -> Seq<char>
    decreases s, 0int,
{
    if s.len() == 0 {
        Seq::empty()
    } else {
        inlines_html(s.subrange(0, s.len() - 1)) + inline_html(s[s.len() - 1])
    }
}

/// The attributes of a link after its `href`: the `bare` class and the target window
/// (with `rel="noopener"` for `_blank`).
pub open spec fn link_attrs_html(bare: bool, window: Option<String>) -> Seq<char> {
    (if bare {
        " class=\"bare\""@
    } else {
        Seq::empty()
    }) + match window {
        Some(w) => " target=\""@ + escape_spec(w@) + "\""@ + if w@ == "_blank"@ {
            " rel=\"noopener\""@
        } else {
            Seq::empty()
        },
        None => Seq::empty(),
    }
}

/// The HTML of a Font Awesome icon.
pub open spec fn icon_html(icon: IconInline) -> Seq<char> {
    "<span class=\"icon\"><i class=\"fa fa-"@ + escape_spec(icon.name@) + (match icon.size {
        Some(z) => " fa-"@ + escape_spec(z@),
        None => Seq::empty(),
    }) + (match icon.role {
        Some(r) => seq![' '] + escape_spec(r@),
        None => Seq::empty(),
    }) + "\""@ + opt_attr_html(" title=\""@, icon.title) + "></i></span>"@
}

/// The HTML of an inline image.
pub open spec fn inline_image_html(img: ImageInline) -> Seq<char> {
    "<span class=\"image\"><img src=\""@ + escape_spec(img.target@) + "\" alt=\""@ + escape_spec(img.alt@) + "\""@
        + opt_attr_html(" width=\""@, img.width) + opt_attr_html(" height=\""@, img.height) + "></span>"@
}

/// The HTML of a footnote reference numbered `n` (0 when it has no number).
pub open spec fn footnote_ref_html(index: Option<u32>) -> Seq<char> {
    let n = crate::text::decimal_spec(
        match index {
            Some(k) => k as nat,
            None => 0,
        },
    );
    "<sup class=\"footnote\" id=\"_footnoteref_"@ + n + "\"><a href=\"#_footnotedef_"@ + n + "\">"@ + n
        + "</a></sup>"@
}

/// The HTML of one inline: text escaped, spans as their tag, links and cross
/// references as anchors, passthrough content as it is, icons, images and
/// footnote references.
pub open spec fn inline_html(i: PreparedInline) -> Seq<char>
    decreases i, 1int,
{
    match i {
        PreparedInline::Text(t) => escape_spec(t.value@),
        PreparedInline::Span(sp) => {
            let tag = span_tag_spec(sp.variant@);
            seq!['<'] + tag + seq!['>'] + inlines_html(sp.inlines@) + "</"@ + tag + seq!['>']
        },
        PreparedInline::Link(l) => "<a href=\""@ + escape_spec(l.target@) + "\""@ + link_attrs_html(l.bare, l.window)
            + seq!['>'] + inlines_html(l.inlines@) + "</a>"@,
        PreparedInline::Xref(x) => "<a href=\""@ + escape_spec(x.href@) + "\">"@ + inlines_html(x.inlines@)
            + "</a>"@,
        PreparedInline::Anchor(a) => "<a id=\""@ + escape_spec(a.id@) + "\"></a>"@ + inlines_html(a.inlines@),
        PreparedInline::Passthrough(p) => p.value@,
        PreparedInline::Icon(icon) => icon_html(icon),
        PreparedInline::Image(img) => inline_image_html(img),
        PreparedInline::Footnote(f) => footnote_ref_html(f.index),
    }
}

/// Appends the HTML of `inlines`.
pub fn render_inlines(html: &mut Vec<char>, inlines: &Vec<PreparedInline>)
    ensures
        final(html)@ == old(html)@ + inlines_html(inlines@),
    decreases inlines,
{
    let mut i: usize = 0;
    while i < inlines.len()
        invariant
            i <= inlines@.len(),
            html@ == old(html)@ + inlines_html(inlines@.subrange(0, i as int)),
        decreases inlines.len() - i,
    {
        let ghost before = html@;
        proof {
            let t = inlines@.subrange(0, i + 1);
            assert(t.subrange(0, t.len() - 1) =~= inlines@.subrange(0, i as int));
            assert(t[t.len() - 1] == inlines@[i as int]);
        }
        render_inline(html, &inlines[i]);
        assert(html@ =~= old(html)@ + inlines_html(inlines@.subrange(0, i + 1)));
        i += 1;
    }
    assert(inlines@.subrange(0, inlines@.len() as int) =~= inlines@);
}

#[verifier::spinoff_prover]
#[verifier::rlimit(40)]
fn render_inline(html: &mut Vec<char>, inline: &PreparedInline)
    ensures
        final(html)@ == old(html)@ + inline_html(*inline),
    decreases inline,
{
    let ghost start = html@;
    match inline {
        PreparedInline::Text(t) => push_escaped_string(html, &t.value),
        PreparedInline::Span(s) => {
            let tag = span_tag(&s.variant);
            html.push('<');
            push(html, tag);
            html.push('>');
            render_inlines(html, &s.inlines);
            push(html, "</");
            push(html, tag);
            html.push('>');
            assert(html@ =~= start + inline_html(*inline));
        },
        PreparedInline::Link(l) => {
            push(html, "<a href=\"");
            push_escaped_string(html, &l.target);
            push(html, "\"");
            push_link_attrs(html, l.bare, &l.window);
            html.push('>');
            render_inlines(html, &l.inlines);
            push(html, "</a>");
            assert(html@ =~= start + inline_html(*inline));
        },
        PreparedInline::Xref(x) => {
            push(html, "<a href=\"");
            push_escaped_string(html, &x.href);
            push(html, "\">");
            render_inlines(html, &x.inlines);
            push(html, "</a>");
            assert(html@ =~= start + inline_html(*inline));
        },
        PreparedInline::Anchor(a) => {
            push(html, "<a id=\"");
            push_escaped_string(html, &a.id);
            push(html, "\"></a>");
            render_inlines(html, &a.inlines);
            assert(html@ =~= start + inline_html(*inline));
        },
        PreparedInline::Passthrough(p) => push_string(html, &p.value),
        PreparedInline::Icon(icon) => render_icon(html, icon),
        PreparedInline::Image(img) => render_inline_image(html, img),
        PreparedInline::Footnote(f) => render_footnote_ref(html, f.index),
    }
}

fn push_opt_attr(html: &mut Vec<char>, opening: &str, v: &Option<String>)
    ensures
        final(html)@ == old(html)@ + opt_attr_html(opening@, *v),
{
    match v {
        Some(x) => {
            push(html, opening);
            push_escaped_string(html, x);
            push(html, "\"");
        },
        None => {},
    }
}

fn push_link_attrs(html: &mut Vec<char>, bare: bool, window: &Option<String>)
    ensures
        final(html)@ == old(html)@ + link_attrs_html(bare, *window),
{
    let ghost start = html@;
    if bare {
        push(html, " class=\"bare\"");
    }
    let ghost mid = html@;
    match window {
        Some(w) => {
            push(html, " target=\"");
            push_escaped_string(html, w);
            push(html, "\"");
            if eq_str(&string_chars(w), "_blank") {
                push(html, " rel=\"noopener\"");
            }
        },
        None => {},
    }
    assert(html@ =~= start + link_attrs_html(bare, *window));
}

fn render_icon(html: &mut Vec<char>, icon: &IconInline)
    ensures
        final(html)@ == old(html)@ + icon_html(*icon),
{
    let ghost start = html@;
    push(html, "<span class=\"icon\"><i class=\"fa fa-");
    push_escaped_string(html, &icon.name);
    match &icon.size {
        Some(size) => {
            push(html, " fa-");
            push_escaped_string(html, size);
        },
        None => {},
    }
    match &icon.role {
        Some(role) => {
            html.push(' ');
            push_escaped_string(html, role);
        },
        None => {},
    }
    push(html, "\"");
    push_opt_attr(html, " title=\"", &icon.title);
    push(html, "></i></span>");
    assert(html@ =~= start + icon_html(*icon));
}

fn render_inline_image(html: &mut Vec<char>, img: &ImageInline)
    ensures
        final(html)@ == old(html)@ + inline_image_html(*img),
{
    let ghost start = html@;
    push(html, "<span class=\"image\"><img src=\"");
    push_escaped_string(html, &img.target);
    push(html, "\" alt=\"");
    push_escaped_string(html, &img.alt);
    push(html, "\"");
    push_opt_attr(html, " width=\"", &img.width);
    push_opt_attr(html, " height=\"", &img.height);
    push(html, "></span>");
    assert(html@ =~= start + inline_image_html(*img));
}

fn render_footnote_ref(html: &mut Vec<char>, index: Option<u32>)
    ensures
        final(html)@ == old(html)@ + footnote_ref_html(index),
{
    let ghost start = html@;
    let n: u32 = match index {
        Some(n) => n,
        None => 0,
    };
    push(html, "<sup class=\"footnote\" id=\"_footnoteref_");
    push_u32(html, n);
    push(html, "\"><a href=\"#_footnotedef_");
    push_u32(html, n);
    push(html, "\">");
    push_u32(html, n);
    push(html, "</a></sup>");
    assert(html@ =~= start + footnote_ref_html(index));
}

/// The definition of one footnote: its number (0 when it has none), linking back
/// to its reference, and its text.
pub open spec fn footnote_html(f: Footnote) -> Seq<char> {
    let n = crate::text::decimal_spec(
        match f.index {
            Some(i) => i as nat,
            None => 0nat,
        },
    );
    "<div class=\"footnote\" id=\"_footnotedef_"@ + n + "\"><a href=\"#_footnoteref_"@ + n + "\">"@ + n
        + "</a>. "@ + inlines_html(f.inlines@) + "</div>\n"@
}

/// The definitions of footnotes, in order.
pub open spec fn footnotes_html(fs: Seq<Footnote>) -> Seq<char>
    decreases fs.len(),
{
    if fs.len() == 0 {
        Seq::empty()
    } else {
        footnotes_html(fs.drop_last()) + footnote_html(fs.last())
    }
}

fn render_footnotes(html: &mut Vec<char>, footnotes: &Vec<Footnote>)
    ensures
        footnotes@.len() == 0 ==> final(html)@ == old(html)@,
        footnotes@.len() > 0 ==> crate::text::ends_with_spec(final(html)@, "</div>\n"@),
        footnotes@.len() > 0 ==> final(html)@ == old(html)@ + "<div id=\"footnotes\">\n<hr>\n"@ + footnotes_html(
            footnotes@,
        ) + "</div>\n"@,
{
    if footnotes.len() == 0 {
        return;
    }
    push(html, "<div id=\"footnotes\">\n<hr>\n");
    let ghost opened = html@;
    let mut i: usize = 0;
    while i < footnotes.len()
        invariant
            i <= footnotes@.len(),
            html@ == opened + footnotes_html(footnotes@.subrange(0, i as int)),
        decreases footnotes.len() - i,
    {
        let ghost before = html@;
        let index: u32 = match footnotes[i].index {
            Some(n) => n,
            None => 0,
        };
        push(html, "<div class=\"footnote\" id=\"_footnotedef_");
        push_u32(html, index);
        push(html, "\"><a href=\"#_footnoteref_");
        push_u32(html, index);
        push(html, "\">");
        push_u32(html, index);
        push(html, "</a>. ");
        render_inlines(html, &footnotes[i].inlines);
        push(html, "</div>\n");
        assert(footnotes@.subrange(0, i + 1).drop_last() =~= footnotes@.subrange(0, i as int));
        assert(html@ =~= before + footnote_html(footnotes@[i as int]));
        i += 1;
    }
    assert(footnotes@.subrange(0, footnotes@.len() as int) =~= footnotes@);
    push(html, "</div>\n");
    proof {
        reveal_strlit("</div>\n");
        assert(html@.subrange(html@.len() - 7, html@.len() as int) =~= "</div>\n"@);
    }
}

// ---------------------------------------------------------------------------
// Table of contents and the document

/// The table-of-contents list of `sections` at `level`: nothing past `max`.
pub open spec fn toc_list_html(sections: Seq<DocumentSection>, level: u8, max: u8) -> Seq<char>
    decreases sections, 2int,
{
    if level > max || sections.len() == 0 {
        Seq::empty()
    } else {
        "<ul class=\"sectlevel"@ + crate::text::decimal_spec(level as nat) + "\">\n"@ + toc_items_html(
            sections,
            level,
            max,
        ) + "</ul>\n"@
    }
}

/// The entries of `sections` in a table of contents, in order.
pub open spec fn toc_items_html(sections: Seq<DocumentSection>, level: u8, max: u8) -> Seq<char>
    decreases sections, 1int,
{
    if sections.len() == 0 {
        Seq::empty()
    } else {
        toc_items_html(sections.subrange(0, sections.len() - 1), level, max) + toc_item_html(
            sections[sections.len() - 1],
            level,
            max,
        )
    }
}

/// One entry of a table of contents: a link to the section, and its subsections
/// one level deeper while the level is below `max`.
pub open spec fn toc_item_html(section: DocumentSection, level: u8, max: u8) -> Seq<char>
    decreases section, 0int,
{
    "<li><a href=\"#"@ + escape_spec(section.id@) + "\">"@ + escape_spec(section.title@) + "</a>"@ + (if section.sections@.len()
        > 0 && level < max {
        seq!['\n'] + toc_list_html(section.sections@, (level + 1) as u8, max)
    } else {
        Seq::empty()
    }) + "</li>\n"@
}

fn render_toc_sections(html: &mut Vec<char>, sections: &Vec<DocumentSection>, level: u8, max_level: u8)
    ensures
        appended(old(html)@, final(html)@),
        final(html)@ == old(html)@ + toc_list_html(sections@, level, max_level),
    decreases sections,
{
    if level > max_level || sections.len() == 0 {
        return;
    }
    push(html, "<ul class=\"sectlevel");
    push_usize(html, level as usize);
    push(html, "\">\n");
    let ghost opened = html@;
    let mut i: usize = 0;
    while i < sections.len()
        invariant
            appended(old(html)@, html@),
            i <= sections@.len(),
            level <= max_level,
            html@ == opened + toc_items_html(sections@.subrange(0, i as int), level, max_level),
        decreases sections.len() - i,
    {
        let ghost before = html@;
        proof {
            let t = sections@.subrange(0, i + 1);
            assert(t.subrange(0, t.len() - 1) =~= sections@.subrange(0, i as int));
            assert(t[t.len() - 1] == sections@[i as int]);
        }
        let section = &sections[i];
        push(html, "<li><a href=\"#");
        push_escaped_string(html, &section.id);
        push(html, "\">");
        push_escaped_string(html, &section.title);
        push(html, "</a>");
        if section.sections.len() > 0 && level < max_level {
            html.push('\n');
            render_toc_sections(html, &section.sections, level + 1, max_level);
        }
        push(html, "</li>\n");
        assert(html@ =~= before + toc_item_html(sections@[i as int], level, max_level));
        proof {
            lemma_appended_add(before, toc_item_html(sections@[i as int], level, max_level));
            lemma_appended_trans(old(html)@, before, html@);
        }
        i += 1;
    }
    assert(sections@.subrange(0, sections@.len() as int) =~= sections@);
    push(html, "</ul>\n");
}

/// The table of contents: `toctitle` (else `Table of Contents`) and the sections
/// down to `toclevels` (else 2).
/// The title of a table of contents: `toctitle` when set and not empty.
pub open spec fn toc_title_spec(attrs: Map<Seq<char>, Seq<char>>) -> Seq<char> {
    if attrs.contains_key("toctitle"@) && attrs["toctitle"@].len() > 0 {
        attrs["toctitle"@]
    } else {
        "Table of Contents"@
    }
}

/// The opening of a table of contents, with its title.
pub open spec fn toc_head_html(attrs: Map<Seq<char>, Seq<char>>) -> Seq<char> {
    "<div id=\"toc\" class=\"toc\">\n<div id=\"toctitle\">"@ + escape_spec(toc_title_spec(attrs)) + "</div>\n"@
}

fn render_toc(html: &mut Vec<char>, sections: &Vec<DocumentSection>, attrs: &AttributeMap)
    ensures
        sections@.len() == 0 ==> final(html)@ == old(html)@,
        sections@.len() > 0 ==> framed(old(html)@, final(html)@, toc_head_html(attrs@), "</div>\n"@),
{
    if sections.len() == 0 {
        return;
    }
    let title = match attrs.get("toctitle") {
        Some(t) => {
            let tc = string_chars(t);
            if tc.len() > 0 {
                tc
            } else {
                to_chars("Table of Contents")
            }
        },
        None => to_chars("Table of Contents"),
    };
    let max_level: u8 = match attrs.get("toclevels") {
        Some(v) => match crate::text::parse_usize(&string_chars(v)) {
            Some(n) => if n <= 255 {
                n as u8
            } else {
                2
            },
            None => 2,
        },
        None => 2,
    };
    let ghost start = html@;
    push(html, "<div id=\"toc\" class=\"toc\">\n<div id=\"toctitle\">");
    push_escaped(html, &title);
    push(html, "</div>\n");
    assert(html@ =~= start + toc_head_html(attrs@));
    render_toc_sections(html, sections, 1, max_level);
    let ghost mid = html@;
    push(html, "</div>\n");
    proof {
        lemma_frame(start, mid, html@, toc_head_html(attrs@), "</div>\n"@);
    }
}

/// The opening of a page: the header division and, for a non-empty title, its
/// escaped `h1`.
pub open spec fn page_header_spec(title: Seq<char>) -> Seq<char> {
    "<div id=\"header\">\n"@ + if title.len() > 0 {
        "<h1>"@ + escape_spec(title) + "</h1>\n"@
    } else {
        Seq::empty()
    }
}

/// Whether the table of contents is placed in the header: `toc` is set, and not to `macro`.
pub open spec fn toc_in_header(attributes: Map<Seq<char>, Seq<char>>) -> bool {
    attributes.contains_key("toc"@) && attributes["toc"@] != "macro"@
}

/// What closes the header and opens the content.
pub open spec fn content_opener() -> Seq<char> {
    "</div>\n<div id=\"content\">\n"@
}

/// The page of a document without blocks, footnotes or a table of contents in the header.
pub open spec fn bare_page_spec(title: Seq<char>) -> Seq<char> {
    page_header_spec(title) + content_opener() + "</div>\n"@
}

/// The footnotes part of a page: nothing without footnotes.
pub open spec fn footnotes_part(fs: Seq<Footnote>) -> Seq<char> {
    if fs.len() == 0 {
        Seq::empty()
    } else {
        "<div id=\"footnotes\">\n<hr>\n"@ + footnotes_html(fs) + "</div>\n"@
    }
}

/// `page` is the HTML page of `d`: its header, the table of contents when the
/// header holds one, each block in turn, and the footnotes.
pub open spec fn page_spec(d: DocumentBlock, page: Seq<char>) -> bool {
    exists|toc: Seq<char>, st: Seq<Seq<char>>|
        #![trigger blocks_chain(d.blocks@, st, d.attributes@, d.sections@), header_toc(d, toc)]
        blocks_chain(d.blocks@, st, d.attributes@, d.sections@) && st[0] == Seq::<char>::empty() && header_toc(
            d,
            toc,
        ) && page == page_header_spec(d.title@) + toc + content_opener() + st.last() + "</div>\n"@
            + footnotes_part(d.footnotes@)
}

/// `toc` is the table of contents the header of `d` holds: the outline framed by
/// its heading when `toc` asks for it in the header and there are sections, else
/// nothing.
pub open spec fn header_toc(d: DocumentBlock, toc: Seq<char>) -> bool {
    &&& toc_in_header(d.attributes@) && d.sections@.len() > 0 ==> framed(
        Seq::empty(),
        toc,
        toc_head_html(d.attributes@),
        "</div>\n"@,
    )
    &&& !(toc_in_header(d.attributes@) && d.sections@.len() > 0) ==> toc.len() == 0
}

/// Renders a parsed document as HTML: prepares it, then renders the prepared document.
pub fn render_html(document: &crate::ast::Document) -> (r: String)
    ensures
        ({
            let title = match document.title {
                Some(h) => h.title@,
                None => Seq::empty(),
            };
            &&& crate::text::starts_at(r@, 0, page_header_spec(title))
            &&& !toc_in_header(document.attributes@) ==> crate::text::starts_at(
                r@,
                0,
                page_header_spec(title) + content_opener(),
            )
            &&& crate::text::ends_with_spec(r@, "</div>\n"@)
            &&& document.blocks@.len() == 0 ==> r@ == bare_page_spec(title)
            &&& exists|d: DocumentBlock|
                #[trigger] page_spec(d, r@) && d.title@ == title && d.attributes@ == document.attributes@
                    && d.sections@.len() == crate::prepare::section_count(d.blocks@) && (document.blocks@.len() == 0
                    ==> d.blocks@.len() == 0)
        }),
{
    let d = prepare_document(document);
    let r = render_prepared_html(&d);
    assert(page_spec(d, r@));
    r
}

/// Renders a prepared document: the header (title and, unless `toc` is `macro`,
/// the table of contents), the content, and the footnotes.
pub fn render_prepared_html(document: &DocumentBlock) -> (r: String)
    ensures
        crate::text::starts_at(r@, 0, page_header_spec(document.title@)),
        !toc_in_header(document.attributes@) || document.sections@.len() == 0 ==> crate::text::starts_at(
            r@,
            0,
            page_header_spec(document.title@) + content_opener(),
        ),
        crate::text::ends_with_spec(r@, "</div>\n"@),
        document.blocks@.len() == 0 && document.footnotes@.len() == 0 && (!toc_in_header(document.attributes@)
            || document.sections@.len() == 0) ==> r@ == bare_page_spec(document.title@),
        toc_in_header(document.attributes@) && document.sections@.len() > 0 ==> opens_at(
            r@,
            page_header_spec(document.title@).len() as int,
            toc_head_html(document.attributes@),
        ),
        page_spec(*document, r@),
{
    proof {
        reveal_strlit("<div id=\"header\">\n");
        reveal_strlit("</div>\n<div id=\"content\">\n");
        reveal_strlit("</div>\n");
        reveal_strlit("<div id=\"footnotes\">\n<hr>\n");
    }
    let mut html: Vec<char> = Vec::new();
    let mut counters = Counters::new();
    push(&mut html, "<div id=\"header\">\n");
    let title = string_chars(&document.title);
    if title.len() > 0 {
        push(&mut html, "<h1>");
        push_escaped(&mut html, &title);
        push(&mut html, "</h1>\n");
    }
    assert(html@ =~= page_header_spec(document.title@));
    let ghost header = html@;
    let mut toc: Vec<char> = Vec::new();
    match document.attributes.get("toc") {
        Some(v) => {
            if !eq_str(&string_chars(v), "macro") {
                render_toc(&mut toc, &document.sections, &document.attributes);
            }
        },
        None => {},
    }
    append(&mut html, &toc);
    push(&mut html, "</div>\n<div id=\"content\">\n");
    let ghost opened = html@;
    let mut body: Vec<char> = Vec::new();
    render_blocks(&mut body, &document.blocks, &document.attributes, &document.sections, &mut counters);
    let ghost st = choose|st: Seq<Seq<char>>|
        #[trigger] blocks_chain(document.blocks@, st, document.attributes@, document.sections@) && st[0]
            == Seq::<char>::empty() && st.last() == body@;
    proof {
        if document.blocks@.len() == 0 {
            assert(st.len() == 1);
            assert(body@.len() == 0);
        }
    }
    append(&mut html, &body);
    push(&mut html, "</div>\n");
    let ghost closed = html@;
    let mut foot: Vec<char> = Vec::new();
    render_footnotes(&mut foot, &document.footnotes);
    append(&mut html, &foot);
    proof {
        let h = html@;
        assert(h.subrange(0, header.len() as int) =~= header);
        if toc@.len() == 0 {
            assert(h.subrange(0, opened.len() as int) =~= header + content_opener());
        }
        if foot@.len() == 0 {
            assert(h =~= closed);
            assert(h.subrange(h.len() - 7, h.len() as int) =~= "</div>\n"@);
        } else {
            assert(h.subrange(h.len() - 7, h.len() as int) =~= foot@.subrange(foot@.len() - 7, foot@.len() as int));
        }
        if toc@.len() > 0 {
            let head = toc_head_html(document.attributes@);
            assert forall|j: int| 0 <= j < head.len() implies h[header.len() + j] == #[trigger] head[j] by {
                assert(h[header.len() + j] == toc@[j]);
            }
        }
        if document.blocks@.len() == 0 && document.footnotes@.len() == 0 && (!toc_in_header(document.attributes@)
            || document.sections@.len() == 0) {
            assert(toc@.len() == 0);
            assert(body@.len() == 0);
            assert(h =~= bare_page_spec(document.title@));
        }
        assert(h =~= page_header_spec(document.title@) + toc@ + content_opener() + st.last() + "</div>\n"@
            + footnotes_part(document.footnotes@));
        assert(header_toc(*document, toc@));
        assert(blocks_chain(document.blocks@, st, document.attributes@, document.sections@));
    }
    to_string(&html)
}

} // verus!
