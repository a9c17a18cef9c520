//! Input normalisation: line endings, trailing blanks, blank outer lines.
use vstd::prelude::*;
use crate::text::{
    cut, is_blank, is_ws, join_spec, join_str, split_char, to_chars, to_string, trim_spec, views,
    ends_with_spec,
};

verus! {

/// `"\r\n"` and lone `'\r'` become `'\n'`.
pub open spec fn unify_newlines(s: Seq<char>) -> Seq<char>
    decreases s.len(),
{
    if s.len() == 0 {
        s
    } else if s[0] == '\r' && s.len() > 1 && s[1] == '\n' {
        seq!['\n'] + unify_newlines(s.subrange(2, s.len() as int))
    } else if s[0] == '\r' {
        seq!['\n'] + unify_newlines(s.drop_first())
    } else {
        seq![s[0]] + unify_newlines(s.drop_first())
    }
}

pub open spec fn is_space_or_tab(c: char) -> bool {
    c == ' ' || c == '\t'
}

/// Removes the spaces and tabs that end each line; `pending` holds blanks seen since
/// the last other character of the current line.
pub open spec fn strip_line_ends(s: Seq<char>, pending: Seq<char>) -> Seq<char>
    decreases s.len(),
{
    if s.len() == 0 {
        Seq::empty()
    } else if is_space_or_tab(s[0]) {
        strip_line_ends(s.drop_first(), pending.push(s[0]))
    } else if s[0] == '\n' {
        seq!['\n'] + strip_line_ends(s.drop_first(), Seq::empty())
    } else {
        pending + seq![s[0]] + strip_line_ends(s.drop_first(), Seq::empty())
    }
}

pub open spec fn normalize_spec(s: Seq<char>, strip: bool) -> Seq<char> {
    if strip {
        strip_line_ends(unify_newlines(s), Seq::empty())
    } else {
        unify_newlines(s)
    }
}

/// Normalises AsciiDoc source: unified line endings and no trailing blanks on any line.
pub fn normalize_asciidoc(input: &str) -> (r: String)
    ensures
        r@ == normalize_spec(input@, true),
{
    let cs = to_chars(input);
    let n = normalize_chars(&cs, true);
    to_string(&n)
}

/// Normalises included text; trailing blanks are kept unless it is AsciiDoc.
pub fn normalize_include_text(input: &str, is_asciidoc: bool) -> (r: String)
    ensures
        r@ == normalize_spec(input@, is_asciidoc),
{
    let cs = to_chars(input);
    let n = normalize_chars(&cs, is_asciidoc);
    to_string(&n)
}

pub fn normalize_chars(s: &[char], strip: bool) -> (r: Vec<char>)
    ensures
        r@ == normalize_spec(s@, strip),
{
    let u = unify_line_endings(s);
    if strip {
        strip_trailing_blanks(&u)
    } else {
        u
    }
}

fn unify_line_endings(s: &[char]) -> (r: Vec<char>)
    ensures
        r@ == unify_newlines(s@),
{
    let mut out: Vec<char> = Vec::new();
    let mut i: usize = 0;
    assert(s@.subrange(0, s@.len() as int) =~= s@);
    while i < s.len()
        invariant
            i <= s.len(),
            out@ + unify_newlines(s@.subrange(i as int, s@.len() as int)) == unify_newlines(s@),
        decreases s.len() - i,
    {
        let ghost rest = s@.subrange(i as int, s@.len() as int);
        if s[i] == '\r' && i + 1 < s.len() && s[i + 1] == '\n' {
            out.push('\n');
            assert(rest.subrange(2, rest.len() as int) =~= s@.subrange(i + 2, s@.len() as int));
            i += 2;
        } else if s[i] == '\r' {
            out.push('\n');
            assert(rest.drop_first() =~= s@.subrange(i + 1, s@.len() as int));
            i += 1;
        } else {
            out.push(s[i]);
            assert(rest.drop_first() =~= s@.subrange(i + 1, s@.len() as int));
            i += 1;
        }
        assert(out@ + unify_newlines(s@.subrange(i as int, s@.len() as int)) =~= unify_newlines(s@));
    }
    assert(out@ + unify_newlines(s@.subrange(i as int, s@.len() as int)) =~= out@);
    out
}

fn strip_trailing_blanks(s: &[char]) -> (r: Vec<char>)
    ensures
        r@ == strip_line_ends(s@, Seq::empty()),
{
    let mut out: Vec<char> = Vec::new();
    let mut pending: Vec<char> = Vec::new();
    let mut i: usize = 0;
    assert(s@.subrange(0, s@.len() as int) =~= s@);
    while i < s.len()
        invariant
            i <= s.len(),
            out@ + strip_line_ends(s@.subrange(i as int, s@.len() as int), pending@)
                == strip_line_ends(s@, Seq::empty()),
        decreases s.len() - i,
    {
        let ghost rest = s@.subrange(i as int, s@.len() as int);
        assert(rest.drop_first() =~= s@.subrange(i + 1, s@.len() as int));
        let c = s[i];
        if c == ' ' || c == '\t' {
            pending.push(c);
        } else if c == '\n' {
            pending = Vec::new();
            out.push('\n');
        } else {
            let mut k: usize = 0;
            let ghost out0 = out@;
            while k < pending.len()
                invariant
                    k <= pending.len(),
                    out@ == out0 + pending@.subrange(0, k as int),
                decreases pending.len() - k,
            {
                out.push(pending[k]);
                k += 1;
                assert(out@ =~= out0 + pending@.subrange(0, k as int));
            }
            assert(pending@.subrange(0, pending@.len() as int) =~= pending@);
            pending = Vec::new();
            out.push(c);
        }
        i += 1;
        assert(out@ + strip_line_ends(s@.subrange(i as int, s@.len() as int), pending@)
            =~= strip_line_ends(s@, Seq::empty()));
    }
    assert(out@ + strip_line_ends(s@.subrange(i as int, s@.len() as int), pending@) =~= out@);
    out
}

/// Normalised text holds no carriage return, whether or not line ends are stripped.
pub proof fn law_normalized_text_has_no_carriage_return(s: Seq<char>, strip: bool)
    ensures
        !normalize_spec(s, strip).contains('\r'),
{
    lemma_unify_no_cr(s);
    if strip {
        lemma_strip_keeps_no_cr(unify_newlines(s), Seq::empty());
    }
}

proof fn lemma_unify_no_cr(s: Seq<char>)
    ensures
        !unify_newlines(s).contains('\r'),
    decreases s.len(),
{
    if s.len() > 0 {
        let rest = if s[0] == '\r' && s.len() > 1 && s[1] == '\n' {
            s.subrange(2, s.len() as int)
        } else {
            s.drop_first()
        };
        lemma_unify_no_cr(rest);
        let head: Seq<char> = if s[0] == '\r' {
            seq!['\n']
        } else {
            seq![s[0]]
        };
        assert(unify_newlines(s) == head + unify_newlines(rest));
        assert forall|i: int| 0 <= i < unify_newlines(s).len() implies unify_newlines(s)[i] != '\r' by {
            if i >= 1 {
                assert(unify_newlines(s)[i] == unify_newlines(rest)[i - 1]);
            }
        }
    }
}

proof fn lemma_strip_keeps_no_cr(s: Seq<char>, pending: Seq<char>)
    requires
        !s.contains('\r'),
        forall|i: int| 0 <= i < pending.len() ==> is_space_or_tab(#[trigger] pending[i]),
    ensures
        !strip_line_ends(s, pending).contains('\r'),
    decreases s.len(),
{
    if s.len() > 0 {
        assert(s[0] != '\r');
        assert forall|i: int| 0 <= i < s.drop_first().len() implies s.drop_first()[i] != '\r' by {
            assert(s.drop_first()[i] == s[i + 1]);
        }
        if is_space_or_tab(s[0]) {
            let p2 = pending.push(s[0]);
            assert forall|i: int| 0 <= i < p2.len() implies is_space_or_tab(#[trigger] p2[i]) by {
                if i < pending.len() {
                    assert(p2[i] == pending[i]);
                }
            }
            lemma_strip_keeps_no_cr(s.drop_first(), p2);
        } else {
            lemma_strip_keeps_no_cr(s.drop_first(), Seq::empty());
            let head: Seq<char> = if s[0] == '\n' {
                seq!['\n']
            } else {
                pending + seq![s[0]]
            };
            let tail = strip_line_ends(s.drop_first(), Seq::empty());
            assert(strip_line_ends(s, pending) == head + tail);
            assert forall|i: int| 0 <= i < head.len() implies head[i] != '\r' by {
                if s[0] != '\n' && i < pending.len() {
                    assert(head[i] == pending[i]);
                    assert(is_space_or_tab(pending[i]));
                }
            }
            assert forall|i: int| 0 <= i < (head + tail).len() implies (head + tail)[i] != '\r' by {
                if i >= head.len() {
                    assert((head + tail)[i] == tail[i - head.len()]);
                }
            }
        }
    }
}

/// Normalising is idempotent: normalised text normalises to itself.
pub proof fn law_normalize_is_idempotent(s: Seq<char>, strip: bool)
    ensures
        normalize_spec(normalize_spec(s, strip), strip) == normalize_spec(s, strip),
{
    let u = unify_newlines(s);
    lemma_unify_no_cr(s);
    lemma_unify_without_cr(u);
    if strip {
        let t = strip_line_ends(u, Seq::empty());
        lemma_strip_keeps_no_cr(u, Seq::empty());
        lemma_unify_without_cr(t);
        lemma_stripped_is_clean(u, Seq::empty());
        lemma_clean_strips_to_itself(t);
    }
}

proof fn lemma_unify_without_cr(s: Seq<char>)
    requires
        !s.contains('\r'),
    ensures
        unify_newlines(s) == s,
    decreases s.len(),
{
    if s.len() > 0 {
        assert(s[0] != '\r');
        assert(!s.drop_first().contains('\r')) by {
            assert forall|i: int| 0 <= i < s.drop_first().len() implies s.drop_first()[i] != '\r' by {
                assert(s.drop_first()[i] == s[i + 1]);
            }
        }
        lemma_unify_without_cr(s.drop_first());
        assert(seq![s[0]] + s.drop_first() =~= s);
    }
}

/// No line of `t` ends in a space or tab.
pub open spec fn clean_line_ends(t: Seq<char>) -> bool
    decreases t.len(), 1int,
{
    if t.len() == 0 {
        true
    } else if is_space_or_tab(t[0]) {
        blanks_then_text(t.drop_first())
    } else {
        clean_line_ends(t.drop_first())
    }
}

/// `t` goes on with spaces and tabs up to a character that is neither a blank nor a
/// line end, and is clean after it.
pub open spec fn blanks_then_text(t: Seq<char>) -> bool
    decreases t.len(), 0int,
{
    if t.len() == 0 {
        false
    } else if is_space_or_tab(t[0]) {
        blanks_then_text(t.drop_first())
    } else {
        t[0] != '\n' && clean_line_ends(t.drop_first())
    }
}

proof fn lemma_clean_strips_to_itself(t: Seq<char>)
    requires
        clean_line_ends(t),
    ensures
        strip_line_ends(t, Seq::empty()) == t,
    decreases t.len(), 1int,
{
    if t.len() > 0 {
        if is_space_or_tab(t[0]) {
            lemma_blanks_strip_to_themselves(t.drop_first(), seq![t[0]]);
            assert(Seq::<char>::empty().push(t[0]) =~= seq![t[0]]);
            assert(seq![t[0]] + t.drop_first() =~= t);
        } else {
            lemma_clean_strips_to_itself(t.drop_first());
            assert(Seq::<char>::empty() + seq![t[0]] + t.drop_first() =~= t);
            assert(seq![t[0]] + t.drop_first() =~= t);
        }
    }
}

proof fn lemma_blanks_strip_to_themselves(t: Seq<char>, p: Seq<char>)
    requires
        blanks_then_text(t),
    ensures
        strip_line_ends(t, p) == p + t,
    decreases t.len(), 0int,
{
    if is_space_or_tab(t[0]) {
        lemma_blanks_strip_to_themselves(t.drop_first(), p.push(t[0]));
        assert(p.push(t[0]) + t.drop_first() =~= p + t);
    } else {
        lemma_clean_strips_to_itself(t.drop_first());
        assert(p + seq![t[0]] + t.drop_first() =~= p + t);
    }
}

proof fn lemma_stripped_is_clean(s: Seq<char>, p: Seq<char>)
    requires
        forall|i: int| 0 <= i < p.len() ==> is_space_or_tab(#[trigger] p[i]),
    ensures
        clean_line_ends(strip_line_ends(s, p)),
    decreases s.len(),
{
    if s.len() > 0 {
        if is_space_or_tab(s[0]) {
            let p2 = p.push(s[0]);
            assert forall|i: int| 0 <= i < p2.len() implies is_space_or_tab(#[trigger] p2[i]) by {
                if i < p.len() {
                    assert(p2[i] == p[i]);
                }
            }
            lemma_stripped_is_clean(s.drop_first(), p2);
        } else if s[0] == '\n' {
            lemma_stripped_is_clean(s.drop_first(), Seq::empty());
            let y = strip_line_ends(s.drop_first(), Seq::empty());
            assert((seq!['\n'] + y).drop_first() =~= y);
        } else {
            lemma_stripped_is_clean(s.drop_first(), Seq::empty());
            let y = strip_line_ends(s.drop_first(), Seq::empty());
            lemma_blanks_before_text_clean(p, s[0], y);
        }
    }
}

proof fn lemma_blanks_before_text_clean(p: Seq<char>, c: char, y: Seq<char>)
    requires
        forall|i: int| 0 <= i < p.len() ==> is_space_or_tab(#[trigger] p[i]),
        !is_space_or_tab(c),
        c != '\n',
        clean_line_ends(y),
    ensures
        clean_line_ends(p + seq![c] + y),
        blanks_then_text(p + seq![c] + y),
    decreases p.len(),
{
    let t = p + seq![c] + y;
    if p.len() == 0 {
        assert(t[0] == c);
        assert(t.drop_first() =~= y);
    } else {
        let q = p.drop_first();
        assert forall|i: int| 0 <= i < q.len() implies is_space_or_tab(#[trigger] q[i]) by {
            assert(q[i] == p[i + 1]);
        }
        lemma_blanks_before_text_clean(q, c, y);
        assert(t[0] == p[0]);
        assert(t.drop_first() =~= q + seq![c] + y);
    }
}

pub open spec fn blank_line(s: Seq<char>) -> bool {
    trim_spec(s).len() == 0
}

/// `parts` are the `'\n'`-separated pieces of `s`.
pub open spec fn is_line_split(parts: Seq<Seq<char>>, s: Seq<char>) -> bool {
    &&& parts.len() >= 1
    &&& join_spec(parts, seq!['\n']) == s
    &&& forall|k: int| 0 <= k < parts.len() ==> !(#[trigger] parts[k]).contains('\n')
}

/// `r` is `s` without the blank lines at its start and end.
pub open spec fn trimmed_outer_lines(s: Seq<char>, r: Seq<char>) -> bool {
    if s.len() == 0 {
        r.len() == 0
    } else {
        exists|parts: Seq<Seq<char>>, a: int, b: int|
            #![trigger is_line_split(parts, s), parts.subrange(a, b)]
            is_line_split(parts, s) && 0 <= a <= b <= parts.len() && r == join_spec(
                parts.subrange(a, b),
                seq!['\n'],
            ) && (forall|k: int| 0 <= k < a ==> blank_line(#[trigger] parts[k])) && (forall|k: int|
                b <= k < parts.len() ==> blank_line(#[trigger] parts[k])) && (a < b ==> !blank_line(
                parts[a],
            ) && !blank_line(parts[b - 1]))
    }
}

/// Trimmed text is already trimmed: removing the outer blank lines of a result of
/// `trim_outer_blank_lines` gives it back unchanged.
pub proof fn law_trimmed_text_trims_to_itself(s: Seq<char>, r: Seq<char>)
    requires
        trimmed_outer_lines(s, r),
    ensures
        trimmed_outer_lines(r, r),
{
    if s.len() > 0 && r.len() > 0 {
        let (parts, a, b) = choose|parts: Seq<Seq<char>>, a: int, b: int|
            #![trigger is_line_split(parts, s), parts.subrange(a, b)]
            is_line_split(parts, s) && 0 <= a <= b <= parts.len() && r == join_spec(
                parts.subrange(a, b),
                seq!['\n'],
            ) && (forall|k: int| 0 <= k < a ==> blank_line(#[trigger] parts[k])) && (forall|k: int|
                b <= k < parts.len() ==> blank_line(#[trigger] parts[k])) && (a < b ==> !blank_line(
                parts[a],
            ) && !blank_line(parts[b - 1]));
        let q = parts.subrange(a, b);
        if a == b {
            assert(q.len() == 0);
            assert(r.len() == 0);
        } else {
            assert forall|k: int| 0 <= k < q.len() implies !(#[trigger] q[k]).contains('\n') by {
                assert(q[k] == parts[a + k]);
            }
            assert(is_line_split(q, r));
            assert(q.subrange(0, q.len() as int) =~= q);
            assert(q[0] == parts[a]);
            assert(q[q.len() - 1] == parts[b - 1]);
            assert(is_line_split(q, r) && 0 <= 0 <= q.len() <= q.len() && r == join_spec(
                q.subrange(0, q.len() as int),
                seq!['\n'],
            ) && (forall|k: int| 0 <= k < 0 ==> blank_line(#[trigger] q[k])) && (forall|k: int|
                q.len() <= k < q.len() ==> blank_line(#[trigger] q[k])) && (0 < q.len() ==> !blank_line(
                q[0],
            ) && !blank_line(q[q.len() - 1])));
        }
    }
}

/// `content` with its leading and trailing blank lines removed.
pub fn trim_outer_blank_lines(content: &str) -> (r: String)
    ensures
        trimmed_outer_lines(content@, r@),
{
    let cs = to_chars(content);
    let r = trim_outer_blank_line_chars(&cs);
    to_string(&r)
}

pub fn trim_outer_blank_line_chars(cs: &[char]) -> (r: Vec<char>)
    ensures
        trimmed_outer_lines(cs@, r@),
{
    if cs.len() == 0 {
        return Vec::new();
    }
    let lines = split_char(cs, '\n');
    let n = lines.len();
    let mut start: usize = 0;
    while start < n && is_blank(&lines[start])
        invariant
            n == lines@.len(),
            start <= n,
            forall|k: int| 0 <= k < start ==> blank_line(#[trigger] lines@[k]@),
        decreases n - start,
    {
        start += 1;
    }
    let mut end: usize = n;
    while end > start && is_blank(&lines[end - 1])
        invariant
            n == lines@.len(),
            start <= end <= n,
            forall|k: int| end <= k < n ==> blank_line(#[trigger] lines@[k]@),
        decreases end,
    {
        end -= 1;
    }
    let kept = vstd::slice::slice_subrange(lines.as_slice(), start, end);
    let r = join_str(kept, "\n");
    proof {
        reveal_strlit("\n");
        let parts = views(lines@);
        assert(views(kept@) =~= parts.subrange(start as int, end as int));
        assert(is_line_split(parts, cs@)) by {
            assert forall|k: int| 0 <= k < parts.len() implies !(#[trigger] parts[k]).contains('\n') by {
                assert(parts[k] == lines@[k]@);
            }
        }
        assert forall|k: int| 0 <= k < start implies blank_line(#[trigger] parts[k]) by {
            assert(parts[k] == lines@[k]@);
        }
        assert forall|k: int| end <= k < parts.len() implies blank_line(#[trigger] parts[k]) by {
            assert(parts[k] == lines@[k]@);
        }
        if start < end {
            assert(parts[start as int] == lines@[start as int]@);
            assert(parts[end - 1] == lines@[end - 1]@);
        }
        assert("\n"@ =~= seq!['\n']);
    }
    r
}

/// File extensions that mark AsciiDoc sources.
pub open spec fn asciidoc_ext(e: Seq<char>) -> bool {
    e == "adoc"@ || e == "asciidoc"@ || e == "asc"@ || e == "ad"@ || e == "txt"@
}

/// `s` with every trailing `c` removed.
pub open spec fn strip_trailing(s: Seq<char>, c: char) -> Seq<char>
    decreases s.len(),
{
    if s.len() > 0 && s.last() == c {
        strip_trailing(s.drop_last(), c)
    } else {
        s
    }
}

/// The file name of a `/`-separated path: its last component, trailing separators
/// ignored.
pub open spec fn file_name_spec(path: Seq<char>) -> Seq<char> {
    crate::text::after_last(strip_trailing(path, '/'), '/')
}

/// Whether the file name in `path` has an AsciiDoc extension (compared ASCII
/// case-insensitively). The file name is the last component of the path, trailing
/// separators ignored; the extension is what follows its last `.`, when that `.` is
/// not its first character.
pub fn has_asciidoc_extension(path: &str) -> (r: bool)
    ensures
        ({
            let name = file_name_spec(path@);
            let dot = crate::text::last_pos(name, '.');
            r == (dot > 0 && asciidoc_ext(crate::text::lower_seq(name.subrange(dot + 1, name.len() as int))))
        }),
{
    let cs = to_chars(path);
    let mut end: usize = cs.len();
    assert(cs@.subrange(0, end as int) =~= cs@);
    while end > 0 && cs[end - 1] == '/'
        invariant
            end <= cs@.len(),
            strip_trailing(cs@, '/') == strip_trailing(cs@.subrange(0, end as int), '/'),
        decreases end,
    {
        assert(cs@.subrange(0, end - 1) =~= cs@.subrange(0, end as int).drop_last());
        end -= 1;
    }
    let trimmed = cut(&cs, 0, end);
    assert(trimmed@ == strip_trailing(cs@, '/'));
    let name = match crate::text::rfind_char(&trimmed, '/') {
        Some(i) => cut(&trimmed, i + 1, trimmed.len()),
        None => cut(&trimmed, 0, trimmed.len()),
    };
    let dot = match crate::text::rfind_char(&name, '.') {
        Some(i) => i,
        None => return false,
    };
    if dot == 0 {
        return false;
    }
    let ext = crate::text::to_ascii_lowercase(&cut(&name, dot + 1, name.len()));
    crate::text::eq_str(&ext, "adoc") || crate::text::eq_str(&ext, "asciidoc") || crate::text::eq_str(
        &ext,
        "asc",
    ) || crate::text::eq_str(&ext, "ad") || crate::text::eq_str(&ext, "txt")
}

} // verus!
