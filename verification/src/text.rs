//! Character-sequence utilities: the library works on `Vec<char>` internally
//! and converts to `String` only where values leave it.
use vstd::prelude::*;
use vstd::slice::slice_to_vec;
use vstd::slice::slice_subrange;

verus! {

/// Appends one character to a `String` (std `String::push`).
#[verifier::external_body]
pub fn push_char(s: &mut String, c: char)
    ensures
        final(s)@ == old(s)@.push(c),
{
    s.push(c);
}

/// Whether `c` is alphabetic or numeric in the Unicode sense (std `char::is_alphanumeric`).
pub uninterp spec fn char_is_alphanumeric(c: char) -> bool;

/// Calls std `char::is_alphanumeric`. Its result is named by `char_is_alphanumeric`;
/// on ASCII characters it is true exactly for letters and digits, as the std
/// documentation states (alphabetic or numeric).
#[verifier::external_body]
pub fn is_alphanumeric(c: char) -> (r: bool)
    ensures
        r == char_is_alphanumeric(c),
        (c as u32) < 128 ==> (r <==> is_ascii_alnum_spec(c)),
{
    c.is_alphanumeric()
}

pub open spec fn is_ascii_digit_spec(c: char) -> bool {
    '0' <= c && c <= '9'
}

pub open spec fn is_ascii_upper_spec(c: char) -> bool {
    'A' <= c && c <= 'Z'
}

pub open spec fn is_ascii_lower_spec(c: char) -> bool {
    'a' <= c && c <= 'z'
}

pub open spec fn is_ascii_alnum_spec(c: char) -> bool {
    is_ascii_digit_spec(c) || is_ascii_upper_spec(c) || is_ascii_lower_spec(c)
}

/// Unicode White_Space, the set std's `char::is_whitespace` and `str::trim` use.
pub open spec fn is_ws(c: char) -> bool {
    let u = c as u32;
    (9 <= u && u <= 13) || u == 32 || u == 0x85 || u == 0xA0 || u == 0x1680 || (0x2000 <= u
        && u <= 0x200A) || u == 0x2028 || u == 0x2029 || u == 0x202F || u == 0x205F || u
        == 0x3000
}

pub fn is_whitespace(c: char) -> (r: bool)
    ensures
        r == is_ws(c),
{
    let u = c as u32;
    (9 <= u && u <= 13) || u == 32 || u == 0x85 || u == 0xA0 || u == 0x1680 || (0x2000 <= u && u
        <= 0x200A) || u == 0x2028 || u == 0x2029 || u == 0x202F || u == 0x205F || u == 0x3000
}

pub fn is_ascii_digit(c: char) -> (r: bool)
    ensures
        r == is_ascii_digit_spec(c),
{
    '0' <= c && c <= '9'
}

pub fn is_ascii_alnum(c: char) -> (r: bool)
    ensures
        r == is_ascii_alnum_spec(c),
{
    ('0' <= c && c <= '9') || ('A' <= c && c <= 'Z') || ('a' <= c && c <= 'z')
}

pub open spec fn lower_spec(c: char) -> char {
    if is_ascii_upper_spec(c) {
        ((c as u32) + 32) as char
    } else {
        c
    }
}

/// ASCII lower-casing of one character (std `char::to_ascii_lowercase`).
pub fn to_ascii_lower(c: char) -> (r: char)
    ensures
        r == lower_spec(c),
{
    if 'A' <= c && c <= 'Z' {
        let u = (c as u32) + 32;
        assert(65 + 32 <= u <= 90 + 32);
        char_from_ascii(u)
    } else {
        c
    }
}

/// The character with an ASCII code point.
pub fn char_from_ascii(u: u32) -> (r: char)
    requires
        u < 128,
    ensures
        r == u as char,
        r as u32 == u,
{
    let b = u as u8;
    b as char
}

pub open spec fn lower_seq(s: Seq<char>) -> Seq<char> {
    s.map_values(|c: char| lower_spec(c))
}

pub fn to_ascii_lowercase(s: &[char]) -> (r: Vec<char>)
    ensures
        r@ == lower_seq(s@),
{
    let mut r: Vec<char> = Vec::new();
    let mut i: usize = 0;
    while i < s.len()
        invariant
            i <= s.len(),
            r@ == lower_seq(s@.subrange(0, i as int)),
        decreases s.len() - i,
    {
        let c = to_ascii_lower(s[i]);
        r.push(c);
        i += 1;
        assert(lower_seq(s@.subrange(0, i as int)) =~= lower_seq(s@.subrange(0, i - 1)).push(
            lower_spec(s@[i - 1]),
        ));
    }
    assert(s@.subrange(0, s@.len() as int) =~= s@);
    r
}

/// ASCII case-insensitive equality of two sequences.
pub open spec fn eq_ignore_case_spec(a: Seq<char>, b: Seq<char>) -> bool {
    lower_seq(a) == lower_seq(b)
}

pub fn eq_ignore_ascii_case(a: &[char], b: &str) -> (r: bool)
    ensures
        r == eq_ignore_case_spec(a@, b@),
{
    let la = to_ascii_lowercase(a);
    let bc = to_chars(b);
    let lb = to_ascii_lowercase(&bc);
    chars_eq(&la, &lb)
}

/// The characters of a string slice, in order.
pub fn to_chars(s: &str) -> (r: Vec<char>)
    ensures
        r@ == s@,
{
    broadcast use vstd::string::group_string_axioms;

    let mut r: Vec<char> = Vec::new();
    for c in it: s.chars()
        invariant
            r@ == it.seq().take(it.index() as int),
    {
        r.push(c);
    }
    assert(r@ == s@);
    r
}

/// The characters of a `String`, in order.
pub fn string_chars(s: &String) -> (r: Vec<char>)
    ensures
        r@ == s@,
{
    to_chars(s.as_str())
}

/// A `String` holding exactly the given characters.
pub fn to_string(cs: &[char]) -> (r: String)
    ensures
        r@ == cs@,
{
    let mut r = String::new();
    let mut i: usize = 0;
    while i < cs.len()
        invariant
            i <= cs.len(),
            r@ == cs@.subrange(0, i as int),
        decreases cs.len() - i,
    {
        push_char(&mut r, cs[i]);
        i += 1;
        assert(r@ =~= cs@.subrange(0, i as int));
    }
    assert(cs@.subrange(0, cs@.len() as int) =~= cs@);
    r
}

/// A copy of a string literal as a `String`.
pub fn lit(s: &str) -> (r: String)
    ensures
        r@ == s@,
{
    let cs = to_chars(s);
    to_string(&cs)
}

/// Appends the characters of `t` to `s`.
pub fn append(s: &mut Vec<char>, t: &[char])
    ensures
        final(s)@ == old(s)@ + t@,
{
    let mut i: usize = 0;
    while i < t.len()
        invariant
            i <= t.len(),
            s@ == old(s)@ + t@.subrange(0, i as int),
        decreases t.len() - i,
    {
        s.push(t[i]);
        i += 1;
        assert(s@ =~= old(s)@ + t@.subrange(0, i as int));
    }
    assert(t@.subrange(0, t@.len() as int) =~= t@);
}

/// Appends the characters of a literal to `s`.
pub fn append_str(s: &mut Vec<char>, t: &str)
    ensures
        final(s)@ == old(s)@ + t@,
{
    let tc = to_chars(t);
    append(s, &tc);
}

/// A copy of `s[a..b]`.
pub fn cut(s: &[char], a: usize, b: usize) -> (r: Vec<char>)
    requires
        a <= b <= s.len(),
    ensures
        r@ == s@.subrange(a as int, b as int),
{
    let t = slice_subrange(s, a, b);
    slice_to_vec(t)
}

pub fn chars_eq(a: &[char], b: &[char]) -> (r: bool)
    ensures
        r == (a@ == b@),
{
    if a.len() != b.len() {
        return false;
    }
    let mut i: usize = 0;
    while i < a.len()
        invariant
            a.len() == b.len(),
            i <= a.len(),
            forall|k: int| 0 <= k < i ==> a@[k] == b@[k],
        decreases a.len() - i,
    {
        if a[i] != b[i] {
            return false;
        }
        i += 1;
    }
    assert(a@ =~= b@);
    true
}

/// Whether `a` equals the literal `b`.
pub fn eq_str(a: &[char], b: &str) -> (r: bool)
    ensures
        r == (a@ == b@),
{
    let bc = to_chars(b);
    chars_eq(a, &bc)
}

pub open spec fn starts_at(s: Seq<char>, start: int, p: Seq<char>) -> bool {
    0 <= start && start + p.len() <= s.len() && s.subrange(start, start + p.len()) == p
}

/// Whether `p` occurs in `s` at position `start`.
pub fn starts_with_at(s: &[char], start: usize, p: &[char]) -> (r: bool)
    ensures
        r == starts_at(s@, start as int, p@),
{
    if start > s.len() || p.len() > s.len() - start {
        return false;
    }
    let mut i: usize = 0;
    while i < p.len()
        invariant
            start + p.len() <= s.len(),
            i <= p.len(),
            forall|k: int| 0 <= k < i ==> s@[start + k] == p@[k],
        decreases p.len() - i,
    {
        if s[start + i] != p[i] {
            assert(s@.subrange(start as int, start + p.len())[i as int] != p@[i as int]);
            return false;
        }
        i += 1;
    }
    assert(s@.subrange(start as int, start + p.len()) =~= p@);
    true
}

/// Whether the literal `p` occurs in `s` at position `start`.
pub fn starts_with_str_at(s: &[char], start: usize, p: &str) -> (r: bool)
    ensures
        r == starts_at(s@, start as int, p@),
{
    let pc = to_chars(p);
    starts_with_at(s, start, &pc)
}

pub fn starts_with_str(s: &[char], p: &str) -> (r: bool)
    ensures
        r == starts_at(s@, 0, p@),
{
    starts_with_str_at(s, 0, p)
}

pub open spec fn ends_with_spec(s: Seq<char>, p: Seq<char>) -> bool {
    p.len() <= s.len() && s.subrange(s.len() - p.len(), s.len() as int) == p
}

pub fn ends_with_str(s: &[char], p: &str) -> (r: bool)
    ensures
        r == ends_with_spec(s@, p@),
{
    let pc = to_chars(p);
    if pc.len() > s.len() {
        return false;
    }
    starts_with_at(s, s.len() - pc.len(), &pc)
}

/// `s` with the literal prefix `p` removed, when `s` starts with `p`.
pub fn strip_prefix_str(s: &[char], p: &str) -> (r: Option<Vec<char>>)
    ensures
        r is Some <==> starts_at(s@, 0, p@),
        r matches Some(v) ==> v@ == s@.subrange(p@.len() as int, s@.len() as int),
{
    if starts_with_str_at(s, 0, p) {
        let n = to_chars(p).len();
        Some(cut(s, n, s.len()))
    } else {
        None
    }
}

/// `s` with the literal suffix `p` removed, when `s` ends with `p`.
pub fn strip_suffix_str(s: &[char], p: &str) -> (r: Option<Vec<char>>)
    ensures
        r is Some <==> ends_with_spec(s@, p@),
        r matches Some(v) ==> v@ == s@.subrange(0, s@.len() - p@.len()),
{
    if ends_with_str(s, p) {
        let n = to_chars(p).len();
        Some(cut(s, 0, s.len() - n))
    } else {
        None
    }
}

/// The position of the first `c` at or after `from` in `s`, or -1 when there is none.
pub open spec fn next_pos(s: Seq<char>, from: int, c: char) -> int
    decreases s.len() - from,
{
    if from < 0 || from >= s.len() {
        -1
    } else if s[from] == c {
        from
    } else {
        next_pos(s, from + 1, c)
    }
}

/// `next_pos` from what a search from `from` found: the first `c` at `i`, or none.
pub proof fn lemma_next_pos(s: Seq<char>, from: int, c: char, i: int)
    requires
        0 <= from,
        forall|k: int| from <= k < i && k < s.len() ==> s[k] != c,
        (from <= i < s.len() && s[i] == c) || i >= s.len(),
    ensures
        next_pos(s, from, c) == if i < s.len() {
            i
        } else {
            -1
        },
    decreases s.len() - from,
{
    if from < s.len() && s[from] != c {
        lemma_next_pos(s, from + 1, c, i);
    }
}

/// Index of the first occurrence of `c` at or after `from`.
pub fn find_char_from(s: &[char], from: usize, c: char) -> (r: Option<usize>)
    ensures
        r matches Some(i) ==> from <= i < s.len() && s@[i as int] == c && forall|k: int|
            from <= k < i ==> s@[k] != c,
        r is None ==> forall|k: int| from <= k < s.len() ==> s@[k] != c,
        r matches Some(i) ==> i == next_pos(s@, from as int, c),
        r is None <==> next_pos(s@, from as int, c) < 0,
{
    let mut i = from;
    while i < s.len()
        invariant
            from <= i,
            forall|k: int| from <= k < i ==> s@[k] != c,
        decreases s.len() - i,
    {
        if s[i] == c {
            proof {
                lemma_next_pos(s@, from as int, c, i as int);
            }
            return Some(i);
        }
        i += 1;
    }
    proof {
        lemma_next_pos(s@, from as int, c, s@.len() as int);
    }
    None
}

/// Position of the first `c` in `s`, or -1 when `s` holds none.
pub open spec fn first_pos(s: Seq<char>, c: char) -> int
    decreases s.len(),
{
    if s.len() == 0 {
        -1
    } else if first_pos(s.drop_last(), c) >= 0 {
        first_pos(s.drop_last(), c)
    } else if s.last() == c {
        s.len() - 1
    } else {
        -1
    }
}

/// `first_pos` is the position of a `c` with none before it, or -1 when there is none.
pub proof fn lemma_first_pos(s: Seq<char>, c: char)
    ensures
        -1 <= first_pos(s, c) < s.len(),
        first_pos(s, c) >= 0 ==> s[first_pos(s, c)] == c,
        forall|k: int| 0 <= k < s.len() && (first_pos(s, c) < 0 || k < first_pos(s, c)) ==> s[k] != c,
    decreases s.len(),
{
    if s.len() > 0 {
        lemma_first_pos(s.drop_last(), c);
        assert forall|k: int| 0 <= k < s.len() - 1 implies s[k] == s.drop_last()[k] by {}
    }
}

/// The position found by a scan for the first `c` is `first_pos`.
pub proof fn lemma_first_pos_is(s: Seq<char>, c: char, i: int)
    requires
        -1 <= i < s.len(),
        i >= 0 ==> s[i] == c,
        forall|k: int| 0 <= k < s.len() && (i < 0 || k < i) ==> s[k] != c,
    ensures
        first_pos(s, c) == i,
{
    lemma_first_pos(s, c);
    let f = first_pos(s, c);
    if f >= 0 && (i < 0 || f < i) {
        assert(s[f] != c);
    }
    if i >= 0 && (f < 0 || i < f) {
        assert(s[i] != c);
    }
}

pub fn find_char(s: &[char], c: char) -> (r: Option<usize>)
    ensures
        r matches Some(i) ==> i < s.len() && s@[i as int] == c && forall|k: int| 0 <= k < i ==> s@[k]
            != c,
        r is None ==> !s@.contains(c),
        r matches Some(i) ==> i == first_pos(s@, c),
        r is None <==> first_pos(s@, c) == -1,
{
    let r = find_char_from(s, 0, c);
    if r.is_none() {
        assert forall|k: int| 0 <= k < s@.len() implies s@[k] != c by {}
    }
    proof {
        match r {
            Some(i) => lemma_first_pos_is(s@, c, i as int),
            None => lemma_first_pos_is(s@, c, -1),
        }
    }
    r
}

pub fn contains_char(s: &[char], c: char) -> (r: bool)
    ensures
        r == s@.contains(c),
{
    let r = find_char(s, c);
    match r {
        Some(i) => {
            assert(s@[i as int] == c);
            true
        },
        None => false,
    }
}

/// An optional string by its view.
pub open spec fn opt_view(o: Option<String>) -> Option<Seq<char>> {
    match o {
        Some(x) => Some(x@),
        None => None,
    }
}

/// Position of the last `c` in `s`, or -1 when `s` holds none.
pub open spec fn last_pos(s: Seq<char>, c: char) -> int
    decreases s.len(),
{
    if s.len() == 0 {
        -1
    } else if s.last() == c {
        s.len() - 1
    } else {
        last_pos(s.drop_last(), c)
    }
}

/// What follows the last `c` in `s`; all of `s` when it holds none.
pub open spec fn after_last(s: Seq<char>, c: char) -> Seq<char> {
    s.subrange(last_pos(s, c) + 1, s.len() as int)
}

/// What precedes the last `c` in `s`; all of `s` when it holds none.
pub open spec fn before_last(s: Seq<char>, c: char) -> Seq<char> {
    if last_pos(s, c) < 0 {
        s
    } else {
        s.subrange(0, last_pos(s, c))
    }
}

/// `last_pos` is the position of a `c` with none after it, or -1 when there is none.
pub proof fn lemma_last_pos(s: Seq<char>, c: char)
    ensures
        -1 <= last_pos(s, c) < s.len(),
        last_pos(s, c) >= 0 ==> s[last_pos(s, c)] == c,
        forall|k: int| last_pos(s, c) < k < s.len() ==> s[k] != c,
    decreases s.len(),
{
    if s.len() > 0 && s.last() != c {
        lemma_last_pos(s.drop_last(), c);
        assert forall|k: int| last_pos(s, c) < k < s.len() implies s[k] != c by {
            if k < s.len() - 1 {
                assert(s[k] == s.drop_last()[k]);
            }
        }
    }
}

/// Index of the last occurrence of `c`.
pub fn rfind_char(s: &[char], c: char) -> (r: Option<usize>)
    ensures
        r matches Some(i) ==> i < s.len() && s@[i as int] == c && forall|k: int| i < k < s.len()
            ==> s@[k] != c,
        r is None ==> forall|k: int| 0 <= k < s.len() ==> s@[k] != c,
        r matches Some(i) ==> i == last_pos(s@, c),
        r is None <==> last_pos(s@, c) == -1,
{
    proof {
        lemma_last_pos(s@, c);
    }
    let mut i = s.len();
    while i > 0
        invariant
            i <= s.len(),
            forall|k: int| i <= k < s.len() ==> s@[k] != c,
            -1 <= last_pos(s@, c) < i,
            forall|k: int| last_pos(s@, c) < k < s.len() ==> s@[k] != c,
            last_pos(s@, c) >= 0 ==> s@[last_pos(s@, c)] == c,
        decreases i,
    {
        if s[i - 1] == c {
            return Some(i - 1);
        }
        i -= 1;
    }
    None
}

/// Index of the first occurrence of the non-empty pattern `p` at or after `from`.
pub fn find_from(s: &[char], from: usize, p: &[char]) -> (r: Option<usize>)
    ensures
        r matches Some(i) ==> from <= i && starts_at(s@, i as int, p@) && forall|k: int|
            from <= k < i ==> !starts_at(s@, k, p@),
        r is None ==> forall|k: int| from <= k ==> !starts_at(s@, k, p@),
{
    let mut i = from;
    while i < s.len()
        invariant
            from <= i,
            forall|k: int| from <= k < i ==> !starts_at(s@, k, p@),
        decreases s.len() - i,
    {
        if starts_with_at(s, i, p) {
            return Some(i);
        }
        i += 1;
    }
    if i == s.len() && p.len() == 0 {
        assert(s@.subrange(i as int, i as int) =~= p@);
        return Some(i);
    }
    None
}

pub fn find_str(s: &[char], p: &str) -> (r: Option<usize>)
    ensures
        r matches Some(i) ==> starts_at(s@, i as int, p@) && forall|k: int| 0 <= k < i ==> !starts_at(
            s@,
            k,
            p@,
        ),
        r is None ==> forall|k: int| 0 <= k ==> !starts_at(s@, k, p@),
{
    let pc = to_chars(p);
    find_from(s, 0, &pc)
}

pub fn contains_str(s: &[char], p: &str) -> (r: bool)
    ensures
        r == exists|k: int| starts_at(s@, k, p@),
{
    match find_str(s, p) {
        Some(i) => true,
        None => false,
    }
}

// ---------------------------------------------------------------------------
// Trimming
pub open spec fn trim_start_spec(s: Seq<char>) -> Seq<char>
    decreases s.len(),
{
    if s.len() > 0 && is_ws(s[0]) {
        trim_start_spec(s.drop_first())
    } else {
        s
    }
}

pub open spec fn trim_end_spec(s: Seq<char>) -> Seq<char>
    decreases s.len(),
{
    if s.len() > 0 && is_ws(s.last()) {
        trim_end_spec(s.drop_last())
    } else {
        s
    }
}

pub open spec fn trim_spec(s: Seq<char>) -> Seq<char> {
    trim_end_spec(trim_start_spec(s))
}

/// The first index at or after which `s` has no leading whitespace.
pub fn trim_start_index(s: &[char]) -> (i: usize)
    ensures
        i <= s.len(),
        trim_start_spec(s@) == s@.subrange(i as int, s@.len() as int),
        forall|k: int| 0 <= k < i ==> is_ws(s@[k]),
        i < s.len() ==> !is_ws(s@[i as int]),
{
    let mut i: usize = 0;
    assert(s@.subrange(0, s@.len() as int) =~= s@);
    while i < s.len() && is_whitespace(s[i])
        invariant
            i <= s.len(),
            trim_start_spec(s@) == trim_start_spec(s@.subrange(i as int, s@.len() as int)),
            forall|k: int| 0 <= k < i ==> is_ws(s@[k]),
        decreases s.len() - i,
    {
        assert(s@.subrange(i as int, s@.len() as int).drop_first() =~= s@.subrange(
            i + 1,
            s@.len() as int,
        ));
        i += 1;
    }
    i
}

/// The end index before which `s[from..]` has no trailing whitespace.
pub fn trim_end_index(s: &[char], from: usize) -> (j: usize)
    requires
        from <= s.len(),
    ensures
        from <= j <= s.len(),
        trim_end_spec(s@.subrange(from as int, s@.len() as int)) == s@.subrange(
            from as int,
            j as int,
        ),
        forall|k: int| j <= k < s.len() ==> is_ws(s@[k]),
        j > from ==> !is_ws(s@[j - 1]),
{
    let mut j: usize = s.len();
    while j > from && is_whitespace(s[j - 1])
        invariant
            from <= j <= s.len(),
            trim_end_spec(s@.subrange(from as int, s@.len() as int)) == trim_end_spec(
                s@.subrange(from as int, j as int),
            ),
            forall|k: int| j <= k < s.len() ==> is_ws(s@[k]),
        decreases j,
    {
        assert(s@.subrange(from as int, j as int).drop_last() =~= s@.subrange(
            from as int,
            j - 1,
        ));
        j -= 1;
    }
    j
}

pub fn trim(s: &[char]) -> (r: Vec<char>)
    ensures
        r@ == trim_spec(s@),
{
    let i = trim_start_index(s);
    let j = trim_end_index(s, i);
    cut(s, i, j)
}

pub fn trim_start(s: &[char]) -> (r: Vec<char>)
    ensures
        r@ == trim_start_spec(s@),
{
    let i = trim_start_index(s);
    cut(s, i, s.len())
}

pub fn trim_end(s: &[char]) -> (r: Vec<char>)
    ensures
        r@ == trim_end_spec(s@),
{
    let j = trim_end_index(s, 0);
    assert(s@.subrange(0, s@.len() as int) =~= s@);
    cut(s, 0, j)
}

/// Whether `s` holds only whitespace (`s.trim().is_empty()`).
pub fn is_blank(s: &[char]) -> (r: bool)
    ensures
        r == (trim_spec(s@).len() == 0),
        r == (forall|k: int| 0 <= k < s@.len() ==> is_ws(s@[k])),
{
    let i = trim_start_index(s);
    let j = trim_end_index(s, i);
    if i == s.len() {
        assert(trim_end_spec(s@.subrange(i as int, s@.len() as int)).len() == 0);
        true
    } else {
        assert(j > i) by {
            if j == i {
                assert(is_ws(s@[i as int]));
            }
        }
        false
    }
}

pub open spec fn all_ws(s: Seq<char>) -> bool {
    forall|k: int| 0 <= k < s.len() ==> is_ws(s[k])
}

/// Whether every character of `s` equals `c` (true of the empty sequence).
pub fn all_equal(s: &[char], c: char) -> (r: bool)
    ensures
        r == (forall|k: int| 0 <= k < s@.len() ==> s@[k] == c),
{
    let mut i: usize = 0;
    while i < s.len()
        invariant
            i <= s.len(),
            forall|k: int| 0 <= k < i ==> s@[k] == c,
        decreases s.len() - i,
    {
        if s[i] != c {
            return false;
        }
        i += 1;
    }
    true
}

/// Number of leading characters equal to `c`.
pub fn count_leading(s: &[char], c: char) -> (n: usize)
    ensures
        n <= s.len(),
        forall|k: int| 0 <= k < n ==> s@[k] == c,
        n < s.len() ==> s@[n as int] != c,
{
    let mut n: usize = 0;
    while n < s.len() && s[n] == c
        invariant
            n <= s.len(),
            forall|k: int| 0 <= k < n ==> s@[k] == c,
        decreases s.len() - n,
    {
        n += 1;
    }
    n
}

// ---------------------------------------------------------------------------
// Splitting and joining
/// `parts` joined with the separator `sep` between consecutive parts.
pub open spec fn join_spec(parts: Seq<Seq<char>>, sep: Seq<char>) -> Seq<char>
    decreases parts.len(),
{
    if parts.len() == 0 {
        Seq::empty()
    } else if parts.len() == 1 {
        parts[0]
    } else {
        join_spec(parts.drop_last(), sep) + sep + parts.last()
    }
}

pub open spec fn views(v: Seq<Vec<char>>) -> Seq<Seq<char>> {
    v.map_values(|x: Vec<char>| x@)
}

pub fn join(parts: &[Vec<char>], sep: &[char]) -> (r: Vec<char>)
    ensures
        r@ == join_spec(views(parts@), sep@),
{
    let mut r: Vec<char> = Vec::new();
    let mut i: usize = 0;
    while i < parts.len()
        invariant
            i <= parts.len(),
            r@ == join_spec(views(parts@.subrange(0, i as int)), sep@),
        decreases parts.len() - i,
    {
        let ghost prev = r@;
        if i > 0 {
            append(&mut r, sep);
        }
        append(&mut r, &parts[i]);
        i += 1;
        assert(views(parts@.subrange(0, i as int)).drop_last() =~= views(
            parts@.subrange(0, i - 1),
        ));
        assert(views(parts@.subrange(0, i as int)).last() == parts@[i - 1]@);
        if i == 1 {
            assert(views(parts@.subrange(0, i as int)).len() == 1);
            assert(r@ =~= parts@[0]@);
        }
    }
    assert(parts@.subrange(0, parts@.len() as int) =~= parts@);
    r
}

pub fn join_str(parts: &[Vec<char>], sep: &str) -> (r: Vec<char>)
    ensures
        r@ == join_spec(views(parts@), sep@),
{
    let s = to_chars(sep);
    join(parts, &s)
}

/// The pieces of `s` between occurrences of `c`: what precedes the first `c`, then
/// the pieces of what follows it.
pub open spec fn split_spec(s: Seq<char>, c: char) -> Seq<Seq<char>>
    decreases s.len(),
{
    let p = first_pos(s, c);
    if p < 0 || p >= s.len() {
        seq![s]
    } else {
        seq![s.subrange(0, p)] + split_spec(s.subrange(p + 1, s.len() as int), c)
    }
}

/// Splits `s` at every occurrence of `c` (std `str::split` with a char pattern).
/// The pieces hold no `c`, and joined with `c` they give back `s`.
pub fn split_char(s: &[char], c: char) -> (r: Vec<Vec<char>>)
    ensures
        views(r@) == split_spec(s@, c),
        r@.len() >= 1,
        join_spec(views(r@), seq![c]) == s@,
        forall|k: int| 0 <= k < r@.len() ==> !(#[trigger] r@[k])@.contains(c),
        r@[0]@ == (if first_pos(s@, c) < 0 {
            s@
        } else {
            s@.subrange(0, first_pos(s@, c))
        }),
        r@.len() == 1 <==> first_pos(s@, c) < 0,
{
    let mut r: Vec<Vec<char>> = Vec::new();
    let mut start: usize = 0;
    let mut i: usize = 0;
    let ghost sep = seq![c];
    assert(s@.subrange(0, s@.len() as int) =~= s@);
    assert(views(r@) + split_spec(s@, c) =~= split_spec(s@, c));
    while i < s.len()
        invariant
            start <= i <= s.len(),
            sep == seq![c],
            forall|k: int| start <= k < i ==> s@[k] != c,
            forall|k: int| 0 <= k < r@.len() ==> !(#[trigger] r@[k])@.contains(c),
            r@.len() == 0 ==> start == 0,
            r@.len() > 0 ==> join_spec(views(r@), sep) + sep == s@.subrange(0, start as int),
            r@.len() > 0 ==> first_pos(s@, c) >= 0 && r@[0]@ == s@.subrange(0, first_pos(s@, c)),
            views(r@) + split_spec(s@.subrange(start as int, s@.len() as int), c) == split_spec(s@, c),
        decreases s.len() - i,
    {
        if s[i] == c {
            assert(s@[i as int] == c);
            proof {
                if r@.len() == 0 {
                    lemma_first_pos_is(s@, c, i as int);
                }
                let rest = s@.subrange(start as int, s@.len() as int);
                lemma_first_pos_is(rest, c, i - start);
                assert(rest.subrange(0, i - start) =~= s@.subrange(start as int, i as int));
                assert(rest.subrange(i - start + 1, rest.len() as int) =~= s@.subrange(i + 1, s@.len() as int));
            }
            let piece = cut(s, start, i);
            let ghost old_r = r@;
            r.push(piece);
            assert(views(r@).drop_last() =~= views(old_r));
            assert(join_spec(views(r@), sep) =~= s@.subrange(0, i as int));
            assert(s@.subrange(0, i + 1) =~= s@.subrange(0, i as int).push(c));
            assert(s@.subrange(0, i as int).push(c) =~= s@.subrange(0, i as int) + sep);
            assert(views(r@) =~= views(old_r).push(piece@));
            assert(views(r@) + split_spec(s@.subrange(i + 1, s@.len() as int), c) =~= views(old_r) + split_spec(
                s@.subrange(start as int, s@.len() as int),
                c,
            ));
            start = i + 1;
        }
        i += 1;
    }
    let piece = cut(s, start, s.len());
    let ghost old_r = r@;
    proof {
        if old_r.len() == 0 {
            lemma_first_pos_is(s@, c, -1);
            assert(s@.subrange(0, s@.len() as int) =~= s@);
        }
        let rest = s@.subrange(start as int, s@.len() as int);
        lemma_first_pos_is(rest, c, -1);
    }
    r.push(piece);
    assert(views(r@) =~= views(old_r).push(piece@));
    assert(views(r@).drop_last() =~= views(old_r));
    assert(join_spec(views(r@), sep) =~= s@);
    r
}

/// `str::lines`: split at `'\n'`, drop one trailing `'\r'` from each line, and
/// drop the final empty piece that a trailing newline leaves. The empty input has no lines.
pub open spec fn strip_cr(s: Seq<char>) -> Seq<char> {
    if s.len() > 0 && s.last() == '\r' {
        s.drop_last()
    } else {
        s
    }
}

pub open spec fn lines_spec(s: Seq<char>) -> Seq<Seq<char>> {
    if s.len() == 0 {
        Seq::empty()
    } else {
        let pieces = split_spec(s, '\n');
        let kept = if s.last() == '\n' {
            pieces.drop_last()
        } else {
            pieces
        };
        kept.map_values(|p: Seq<char>| strip_cr(p))
    }
}

pub fn lines(s: &[char]) -> (r: Vec<Vec<char>>)
    ensures
        s@.len() == 0 ==> r@.len() == 0,
        views(r@) == lines_spec(s@),
{
    if s.len() == 0 {
        return Vec::new();
    }
    let pieces = split_char(s, '\n');
    let mut r: Vec<Vec<char>> = Vec::new();
    let mut n = pieces.len();
    if s[s.len() - 1] == '\n' && n > 0 {
        n -= 1;
    }
    let mut i: usize = 0;
    let ghost kept = if s@.last() == '\n' {
        views(pieces@).drop_last()
    } else {
        views(pieces@)
    };
    assert(kept.len() == n);
    while i < n
        invariant
            n <= pieces.len(),
            i <= n,
            kept.len() == n,
            forall|k: int| 0 <= k < n ==> kept[k] == (#[trigger] pieces@[k])@,
            r@.len() == i,
            forall|k: int| 0 <= k < i ==> (#[trigger] r@[k])@ == strip_cr(pieces@[k]@),
        decreases n - i,
    {
        let p = &pieces[i];
        if p.len() > 0 && p[p.len() - 1] == '\r' {
            r.push(cut(p, 0, p.len() - 1));
        } else {
            r.push(cut(p, 0, p.len()));
        }
        i += 1;
    }
    assert(views(r@) =~= lines_spec(s@));
    r
}

// ---------------------------------------------------------------------------
// Numbers
pub open spec fn digits_value(s: Seq<char>) -> nat
    decreases s.len(),
{
    if s.len() == 0 {
        0
    } else {
        digits_value(s.drop_last()) * 10 + ((s.last() as u32) - 48) as nat
    }
}

pub open spec fn all_digits(s: Seq<char>) -> bool {
    forall|k: int| 0 <= k < s.len() ==> is_ascii_digit_spec(s[k])
}

/// The digits of `s` after an optional leading `'+'`, as std's unsigned `parse` reads them.
pub open spec fn unsigned_digits(s: Seq<char>) -> Seq<char> {
    if s.len() > 0 && s[0] == '+' {
        s.drop_first()
    } else {
        s
    }
}

/// What std's `usize::from_str` accepts: an optional `+`, then one or more ASCII digits.
pub open spec fn parses_unsigned(s: Seq<char>) -> bool {
    unsigned_digits(s).len() > 0 && all_digits(unsigned_digits(s))
}

/// Parses a decimal unsigned integer as std `str::parse::<usize>` does, failing on overflow.
pub fn parse_usize(s: &[char]) -> (r: Option<usize>)
    ensures
        r is Some <==> (parses_unsigned(s@) && digits_value(unsigned_digits(s@)) <= usize::MAX),
        r matches Some(v) ==> v as nat == digits_value(unsigned_digits(s@)),
{
    let start: usize = if s.len() > 0 && s[0] == '+' {
        1
    } else {
        0
    };
    let ghost d = unsigned_digits(s@);
    assert(d =~= s@.subrange(start as int, s@.len() as int));
    if start >= s.len() {
        return None;
    }
    let mut v: usize = 0;
    let mut i = start;
    while i < s.len()
        invariant
            start <= i <= s.len(),
            d == s@.subrange(start as int, s@.len() as int),
            d == unsigned_digits(s@),
            all_digits(s@.subrange(start as int, i as int)),
            v as nat == digits_value(s@.subrange(start as int, i as int)),
        decreases s.len() - i,
    {
        let c = s[i];
        let ghost pre = s@.subrange(start as int, i as int);
        let ghost nxt = s@.subrange(start as int, i + 1);
        assert(nxt.drop_last() =~= pre);
        if !is_ascii_digit(c) {
            assert(d[i - start] == c);
            assert(!is_ascii_digit_spec(d[i - start]));
            assert(!all_digits(d));
            return None;
        }
        let dv = (c as u32 - 48) as usize;
        if v > (usize::MAX - dv) / 10 {
            proof {
                if all_digits(d) {
                    lemma_digits_value_prefix_bound(d, (i + 1 - start) as nat);
                    assert(d.subrange(0, (i + 1 - start) as int) =~= nxt);
                }
                assert(v * 10 + dv > usize::MAX) by (nonlinear_arith)
                    requires
                        v > (usize::MAX - dv) / 10,
                        dv <= 9,
                ;
            }
            return None;
        }
        assert(v * 10 + dv <= usize::MAX) by (nonlinear_arith)
            requires
                v <= (usize::MAX - dv) / 10,
                dv <= 9,
        ;
        v = v * 10 + dv;
        i += 1;
        assert(all_digits(s@.subrange(start as int, i as int)));
    }
    assert(d =~= s@.subrange(start as int, i as int));
    Some(v)
}

/// A number written in decimal reads back as the same number: its digits are
/// what std's unsigned `parse` accepts, and their value is the number.
pub proof fn law_decimal_reads_back(n: nat)
    ensures
        parses_unsigned(decimal_spec(n)),
        digits_value(unsigned_digits(decimal_spec(n))) == n,
    decreases n,
{
    lemma_decimal_digits(n);
    let d = decimal_spec(n);
    assert(d.len() > 0);
    assert(is_ascii_digit_spec(d[0]));
    assert(unsigned_digits(d) == d);
}

proof fn lemma_digit_char(k: nat)
    requires
        k < 10,
    ensures
        is_ascii_digit_spec(((k + 48) as u32) as char),
        ((((k + 48) as u32) as char) as u32) - 48 == k,
{
    assert(((k + 48) as u32) as char as u32 == (k + 48) as u32);
}

proof fn lemma_decimal_digits(n: nat)
    ensures
        decimal_spec(n).len() > 0,
        all_digits(decimal_spec(n)),
        digits_value(decimal_spec(n)) == n,
    decreases n,
{
    if n < 10 {
        lemma_digit_char(n);
        let d = decimal_spec(n);
        assert(d.drop_last().len() == 0);
        assert(digits_value(d.drop_last()) == 0);
    } else {
        lemma_decimal_digits(n / 10);
        lemma_digit_char(n % 10);
        let prefix = decimal_spec(n / 10);
        let d = decimal_spec(n);
        assert(d == prefix + seq![(((n % 10) + 48) as u32) as char]);
        assert(d.drop_last() =~= prefix);
        assert(all_digits(d)) by {
            assert forall|k: int| 0 <= k < d.len() implies is_ascii_digit_spec(d[k]) by {
                if k < prefix.len() {
                    assert(d[k] == prefix[k]);
                }
            }
        }
        assert(digits_value(d) == digits_value(prefix) * 10 + (n % 10));
        assert((n / 10) * 10 + n % 10 == n) by (nonlinear_arith);
    }
}

/// A prefix of a digit string is worth no more than the whole string.
pub proof fn lemma_digits_value_prefix_bound(d: Seq<char>, n: nat)
    requires
        n <= d.len(),
        all_digits(d),
    ensures
        digits_value(d.subrange(0, n as int)) <= digits_value(d),
    decreases d.len(),
{
    if n < d.len() {
        lemma_digits_value_prefix_bound(d.drop_last(), n);
        assert(d.drop_last().subrange(0, n as int) =~= d.subrange(0, n as int));
        assert(is_ascii_digit_spec(d.last()));
    } else {
        assert(d.subrange(0, n as int) =~= d);
    }
}

/// Decimal digits of `n` (what `n.to_string()` gives).
pub open spec fn decimal_spec(n: nat) -> Seq<char>
    decreases n,
{
    if n < 10 {
        seq![((n + 48) as u32) as char]
    } else {
        decimal_spec(n / 10) + seq![(((n % 10) + 48) as u32) as char]
    }
}

pub fn usize_to_chars(n: usize) -> (r: Vec<char>)
    ensures
        r@ == decimal_spec(n as nat),
    decreases n,
{
    if n < 10 {
        let c = char_from_ascii((n as u32) + 48);
        let mut r: Vec<char> = Vec::new();
        r.push(c);
        assert(r@ =~= decimal_spec(n as nat));
        r
    } else {
        let mut r = usize_to_chars(n / 10);
        let c = char_from_ascii(((n % 10) as u32) + 48);
        r.push(c);
        assert(r@ =~= decimal_spec(n as nat));
        r
    }
}

pub fn usize_to_string(n: usize) -> (r: String)
    ensures
        r@ == decimal_spec(n as nat),
{
    let cs = usize_to_chars(n);
    to_string(&cs)
}

/// Replaces every `from` with `to`.
pub fn replace_char(s: &[char], from: char, to: char) -> (r: Vec<char>)
    ensures
        r@.len() == s@.len(),
        forall|k: int|
            0 <= k < s@.len() ==> #[trigger] r@[k] == (if s@[k] == from {
                to
            } else {
                s@[k]
            }),
{
    let mut r: Vec<char> = Vec::new();
    let mut i: usize = 0;
    while i < s.len()
        invariant
            i <= s.len(),
            r@.len() == i,
            forall|k: int|
                0 <= k < i ==> #[trigger] r@[k] == (if s@[k] == from {
                    to
                } else {
                    s@[k]
                }),
        decreases s.len() - i,
    {
        if s[i] == from {
            r.push(to);
        } else {
            r.push(s[i]);
        }
        i += 1;
    }
    r
}

/// Clones a vector of characters.
pub fn copy(s: &[char]) -> (r: Vec<char>)
    ensures
        r@ == s@,
{
    slice_to_vec(s)
}

/// Clones a string.
pub fn copy_string(s: &String) -> (r: String)
    ensures
        r@ == s@,
{
    s.clone()
}

/// Clones an optional string.
pub fn copy_opt(s: &Option<String>) -> (r: Option<String>)
    ensures
        r is Some <==> s is Some,
        r matches Some(v) ==> v@ == s->0@,
        r == *s,
{
    match s {
        Some(v) => Some(v.clone()),
        None => None,
    }
}

/// Clones a vector of strings.
pub fn copy_strings(v: &Vec<String>) -> (r: Vec<String>)
    ensures
        r@.len() == v@.len(),
        forall|k: int| 0 <= k < v@.len() ==> (#[trigger] r@[k])@ == v@[k]@,
{
    let mut r: Vec<String> = Vec::new();
    let mut i: usize = 0;
    while i < v.len()
        invariant
            i <= v.len(),
            r@.len() == i,
            forall|k: int| 0 <= k < i ==> (#[trigger] r@[k])@ == v@[k]@,
        decreases v.len() - i,
    {
        r.push(v[i].clone());
        i += 1;
    }
    r
}

} // verus!
