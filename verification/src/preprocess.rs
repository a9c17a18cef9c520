//! The line-level decisions of include expansion: which lines are include
//! directives, which lines open verbatim blocks (where includes are not
//! expanded), and how an included text's headings shift by `leveloffset`.
//! Reading the included files is left to the caller.
use vstd::prelude::*;
use crate::text::{
    append, append_str, count_leading, cut, eq_str, find_char, lines, parse_usize, split_char,
    strip_prefix_str, to_chars, to_string, trim, copy,
};

verus! {

/// Four of `-`, `=`, `*`, `+`, `_`, `.` or `/`: a line that opens a delimited block.
pub open spec fn verbatim_delimiter(t: Seq<char>) -> bool {
    t == "----"@ || t == "===="@ || t == "****"@ || t == "++++"@ || t == "____"@ || t == "...."@ || t
        == "////"@
}

/// The delimiter of the verbatim block a line opens, if it opens one.
pub fn opening_block_delimiter(line: &[char]) -> (r: Option<&'static str>)
    ensures
        r matches Some(d) ==> crate::text::trim_spec(line@) == d@,
        r is Some <==> verbatim_delimiter(crate::text::trim_spec(line@)),
{
    let t = trim(line);
    if eq_str(&t, "----") {
        Some("----")
    } else if eq_str(&t, "====") {
        Some("====")
    } else if eq_str(&t, "****") {
        Some("****")
    } else if eq_str(&t, "++++") {
        Some("++++")
    } else if eq_str(&t, "____") {
        Some("____")
    } else if eq_str(&t, "....") {
        Some("....")
    } else if eq_str(&t, "////") {
        Some("////")
    } else {
        None
    }
}

/// The attributes of an include directive that change the included text.
#[derive(Debug, Clone, Copy, PartialEq, Eq, Structural)]
pub struct IncludeAttrs {
    pub leveloffset: Option<i32>,
}

/// The value of unsigned decimal text, when it is one that fits a `usize`.
pub open spec fn unsigned_spec(s: Seq<char>) -> Option<int> {
    if crate::text::parses_unsigned(s) && crate::text::digits_value(crate::text::unsigned_digits(s)) <= usize::MAX {
        Some(crate::text::digits_value(crate::text::unsigned_digits(s)) as int)
    } else {
        None
    }
}

/// `s` read as an `i32`: an optional `-` (not followed by `+`) or `+`, then digits.
pub open spec fn i32_spec(s: Seq<char>) -> Option<int> {
    if s.len() > 0 && s[0] == '-' {
        let rest = s.drop_first();
        if rest.len() > 0 && rest[0] == '+' {
            None
        } else {
            match unsigned_spec(rest) {
                Some(v) => if v <= 2147483648 {
                    Some(-v)
                } else {
                    None
                },
                None => None,
            }
        }
    } else {
        match unsigned_spec(s) {
            Some(v) => if v <= 2147483647 {
                Some(v)
            } else {
                None
            },
            None => None,
        }
    }
}

/// `s` parsed as an `i32` (std `str::parse::<i32>`: an optional sign, then digits).
pub fn parse_i32(s: &[char]) -> (r: Option<i32>)
    ensures
        s@.len() > 0 && s@[0] != '-' ==> (r matches Some(v) ==> v >= 0),
        r is Some <==> i32_spec(s@) is Some,
        r matches Some(v) ==> i32_spec(s@) == Some(v as int),
{
    if s.len() > 0 && s[0] == '-' {
        let rest = cut(s, 1, s.len());
        if rest.len() > 0 && rest[0] == '+' {
            return None;
        }
        match parse_usize(&rest) {
            Some(v) => {
                if v <= 2147483647 {
                    Some(-(v as i32))
                } else if v == 2147483648 {
                    Some(i32::MIN)
                } else {
                    None
                }
            },
            None => None,
        }
    } else {
        match parse_usize(s) {
            Some(v) => if v <= 2147483647 {
                Some(v as i32)
            } else {
                None
            },
            None => None,
        }
    }
}

/// A `leveloffset` value: `+n`, `-n` (negated, staying at the least `i32`) or `n`.
pub open spec fn leveloffset_value(val: Seq<char>) -> Option<int> {
    if val.len() > 0 && val[0] == '+' {
        i32_spec(val.drop_first())
    } else if val.len() > 0 && val[0] == '-' {
        match i32_spec(val.drop_first()) {
            Some(v) => if v == i32::MIN {
                Some(v)
            } else {
                Some(-v)
            },
            None => None,
        }
    } else {
        i32_spec(val)
    }
}

/// The `leveloffset` the parts of an attribute list give: that of the last part
/// (trimmed) that starts with `leveloffset=`, or none.
pub open spec fn leveloffset_of(parts: Seq<Seq<char>>) -> Option<int>
    decreases parts.len(),
{
    if parts.len() == 0 {
        None
    } else {
        let part = crate::text::trim_spec(parts.last());
        if crate::text::starts_at(part, 0, "leveloffset="@) {
            leveloffset_value(crate::text::trim_spec(part.subrange(12, part.len() as int)))
        } else {
            leveloffset_of(parts.drop_last())
        }
    }
}

/// An optional `i32` as an optional integer.
pub open spec fn opt_int(o: Option<i32>) -> Option<int> {
    match o {
        Some(v) => Some(v as int),
        None => None,
    }
}

/// The `leveloffset` of an include attribute list: `+n`, `-n` or `n`; the last one wins.
pub fn parse_include_attrs(s: &[char]) -> (r: IncludeAttrs)
    ensures
        opt_int(r.leveloffset) == leveloffset_of(crate::text::split_spec(s@, ',')),
{
    proof {
        reveal_strlit("leveloffset=");
    }
    let mut leveloffset: Option<i32> = None;
    let parts = split_char(s, ',');
    let mut i: usize = 0;
    while i < parts.len()
        invariant
            i <= parts@.len(),
            opt_int(leveloffset) == leveloffset_of(crate::text::views(parts@.subrange(0, i as int))),
            "leveloffset="@.len() == 12,
        decreases parts.len() - i,
    {
        assert(crate::text::views(parts@.subrange(0, i + 1)).drop_last() =~= crate::text::views(
            parts@.subrange(0, i as int),
        ));
        assert(crate::text::views(parts@.subrange(0, i + 1)).last() == parts@[i as int]@);
        let part = trim(&parts[i]);
        match strip_prefix_str(&part, "leveloffset=") {
            Some(val) => {
                let val = trim(&val);
                if val.len() > 0 && val[0] == '+' {
                    leveloffset = parse_i32(&cut(&val, 1, val.len()));
                } else if val.len() > 0 && val[0] == '-' {
                    leveloffset = match parse_i32(&cut(&val, 1, val.len())) {
                        Some(v) => if v == i32::MIN {
                            Some(v)
                        } else {
                            Some(-v)
                        },
                        None => None,
                    };
                } else {
                    leveloffset = parse_i32(&val);
                }
            },
            None => {},
        }
        i += 1;
    }
    assert(parts@.subrange(0, parts@.len() as int) =~= parts@);
    IncludeAttrs { leveloffset }
}

/// `include::path[attrs]`: the (trimmed, non-empty) path and the attributes.
/// The path and attribute text of an `include::path[attrs]` line: the trimmed
/// text between `include::` and the first `[`, not empty, and what follows that
/// `[` up to the `]` that ends the line.
pub open spec fn include_spec(line: Seq<char>) -> Option<(Seq<char>, Seq<char>)> {
    let rest = line.subrange(9, line.len() as int);
    let b = crate::text::first_pos(rest, '[');
    let path = crate::text::trim_spec(rest.subrange(0, b));
    let after = rest.subrange(b + 1, rest.len() as int);
    if !crate::text::starts_at(line, 0, "include::"@) || b < 0 || path.len() == 0 || after.len() == 0
        || after.last() != ']' {
        None
    } else {
        Some((path, after.drop_last()))
    }
}

pub fn parse_include_line(line: &[char]) -> (r: Option<(String, IncludeAttrs)>)
    ensures
        r matches Some(p) ==> p.0@.len() > 0 && crate::text::starts_at(line@, 0, "include::"@),
        r is Some <==> include_spec(line@) is Some,
        r matches Some(p) ==> p.0@ == (include_spec(line@)->0).0 && opt_int(p.1.leveloffset) == leveloffset_of(
            crate::text::split_spec((include_spec(line@)->0).1, ','),
        ),
{
    proof {
        reveal_strlit("include::");
    }
    let rest = match strip_prefix_str(line, "include::") {
        Some(r) => r,
        None => return None,
    };
    let bracket = match find_char(&rest, '[') {
        Some(b) => b,
        None => return None,
    };
    let path = trim(&cut(&rest, 0, bracket));
    if path.len() == 0 {
        return None;
    }
    let after = cut(&rest, bracket + 1, rest.len());
    if after.len() == 0 || after[after.len() - 1] != ']' {
        return None;
    }
    let attr_str = cut(&after, 0, after.len() - 1);
    Some((to_string(&path), parse_include_attrs(&attr_str)))
}

/// The heading level after an offset: at least 1.
pub open spec fn shifted_level(level: int, offset: int) -> int {
    if level + offset < 1 {
        1
    } else if level + offset > usize::MAX {
        usize::MAX as int
    } else {
        level + offset
    }
}

/// A heading line (`=`s then a space or the end) with its level shifted by `offset`
/// (never below one `=`); other lines unchanged.
pub fn adjust_heading_level(line: &[char], offset: i32) -> (r: Vec<char>)
    ensures
        ({
            let level = count_equals(line@);
            let after = line@.subrange(level, line@.len() as int);
            if level == 0 || (after.len() > 0 && after[0] != ' ') {
                r@ == line@
            } else {
                r@ == Seq::new(shifted_level(level, offset as int) as nat, |k: int| '=') + after
            }
        }),
        r@ == adjusted_line(line@, offset as int),
{
    let level = count_leading(line, '=');
    proof {
        lemma_count_equals(line@, level as int);
    }
    if level == 0 {
        return copy(line);
    }
    let after = cut(line, level, line.len());
    if after.len() > 0 && after[0] != ' ' {
        return copy(line);
    }
    let sum: i128 = (level as i128) + (offset as i128);
    let new_level: usize = if sum < 1 {
        1
    } else if sum > usize::MAX as i128 {
        usize::MAX
    } else {
        sum as usize
    };
    assert(new_level == shifted_level(level as int, offset as int));
    let mut out: Vec<char> = Vec::new();
    let mut k: usize = 0;
    while k < new_level
        invariant
            k <= new_level,
            out@ == Seq::new(k as nat, |j: int| '='),
        decreases new_level - k,
    {
        out.push('=');
        k += 1;
        assert(out@ =~= Seq::new(k as nat, |j: int| '='));
    }
    append(&mut out, &after);
    assert(after@ == line@.subrange(count_equals(line@), line@.len() as int));
    out
}

/// The number of leading `=` characters.
pub open spec fn count_equals(s: Seq<char>) -> int
    decreases s.len(),
{
    if s.len() > 0 && s[0] == '=' {
        1 + count_equals(s.drop_first())
    } else {
        0
    }
}

proof fn lemma_count_equals(s: Seq<char>, n: int)
    requires
        0 <= n <= s.len(),
        forall|k: int| 0 <= k < n ==> s[k] == '=',
        n < s.len() ==> s[n] != '=',
    ensures
        count_equals(s) == n,
    decreases s.len(),
{
    if n > 0 {
        lemma_count_equals(s.drop_first(), n - 1);
    }
}

/// A line with its heading level shifted (see `adjust_heading_level`).
pub open spec fn adjusted_line(line: Seq<char>, offset: int) -> Seq<char> {
    let level = count_equals(line);
    let after = line.subrange(level, line.len() as int);
    if level == 0 || (after.len() > 0 && after[0] != ' ') {
        line
    } else {
        Seq::new(shifted_level(level, offset) as nat, |k: int| '=') + after
    }
}

/// Each line shifted and followed by a newline.
pub open spec fn shifted_lines(ls: Seq<Seq<char>>, offset: int) -> Seq<char>
    decreases ls.len(),
{
    if ls.len() == 0 {
        Seq::empty()
    } else {
        shifted_lines(ls.drop_last(), offset) + adjusted_line(ls.last(), offset) + seq!['\n']
    }
}

/// Each line of `content` with its heading level shifted, each ending in a newline.
pub fn apply_leveloffset(content: &[char], offset: i32) -> (r: Vec<char>)
    ensures
        r@ == shifted_lines(crate::text::lines_spec(content@), offset as int),
{
    let ls = lines(content);
    let mut out: Vec<char> = Vec::new();
    let mut i: usize = 0;
    while i < ls.len()
        invariant
            i <= ls@.len(),
            out@ == shifted_lines(crate::text::views(ls@.subrange(0, i as int)), offset as int),
        decreases ls.len() - i,
    {
        assert(crate::text::views(ls@.subrange(0, i + 1)).drop_last() =~= crate::text::views(
            ls@.subrange(0, i as int),
        ));
        let adjusted = adjust_heading_level(&ls[i], offset);
        append(&mut out, &adjusted);
        out.push('\n');
        i += 1;
    }
    assert(ls@.subrange(0, ls@.len() as int) =~= ls@);
    out
}

/// What to do with one line of the text being expanded.
#[derive(Debug, PartialEq, Eq)]
pub enum LineAction {
    /// Copy the line, then a newline.
    Emit,
    /// Replace the line with the expanded content of the file at the path.
    Include(String, IncludeAttrs),
}

/// The expansion state: the delimiter of the verbatim block being copied, if any.
#[derive(Debug, Clone, Copy, PartialEq, Eq)]
pub struct ExpansionState {
    pub open_delimiter: Option<&'static str>,
}

impl ExpansionState {
    pub fn new() -> (r: Self)
        ensures
            r.open_delimiter is None,
    {
        ExpansionState { open_delimiter: None }
    }

    /// Decides what to do with `line` and moves to the next state. Inside a verbatim
    /// block every line is copied until the block's delimiter; a line that opens
    /// one is copied; an include directive outside one is expanded.
    pub fn step(&mut self, line: &[char]) -> (r: LineAction)
        ensures
            old(self).open_delimiter is Some ==> r == LineAction::Emit,
            r is Include ==> old(self).open_delimiter is None && final(self).open_delimiter is None,
            ({
                let t = crate::text::trim_spec(line@);
                match old(self).open_delimiter {
                    Some(d) => final(self).open_delimiter == (if t == d@ {
                        None
                    } else {
                        Some(d)
                    }),
                    None => if verbatim_delimiter(t) {
                        r == LineAction::Emit && (final(self).open_delimiter matches Some(d) && d@ == t)
                    } else {
                        final(self).open_delimiter is None && match include_spec(line@) {
                            Some(inc) => r matches LineAction::Include(path, attrs) && path@ == inc.0
                                && opt_int(attrs.leveloffset) == leveloffset_of(
                                crate::text::split_spec(inc.1, ','),
                            ),
                            None => r == LineAction::Emit,
                        }
                    },
                }
            }),
    {
        match self.open_delimiter {
            Some(d) => {
                if eq_str(&trim(line), d) {
                    self.open_delimiter = None;
                }
                return LineAction::Emit;
            },
            None => {},
        }
        match opening_block_delimiter(line) {
            Some(d) => {
                self.open_delimiter = Some(d);
                return LineAction::Emit;
            },
            None => {},
        }
        match parse_include_line(line) {
            Some((path, attrs)) => LineAction::Include(path, attrs),
            None => LineAction::Emit,
        }
    }
}

/// How deep includes nest before an included text is kept as it is.
pub const MAX_INCLUDE_DEPTH: u32 = 64;

/// Whether a text at include depth `depth` still has its includes expanded.
pub fn expansion_allowed(depth: u32) -> (r: bool)
    ensures
        r == (depth <= MAX_INCLUDE_DEPTH),
{
    depth <= MAX_INCLUDE_DEPTH
}

/// The files being expanded, outermost first: an include of one of them would
/// never end, so it is skipped.
pub struct IncludeStack {
    pub active: Vec<String>,
}

/// The paths of the files being expanded.
pub open spec fn active_paths(s: IncludeStack) -> Seq<Seq<char>> {
    s.active@.map_values(|p: String| p@)
}

impl IncludeStack {
    pub fn new() -> (r: Self)
        ensures
            active_paths(r).len() == 0,
    {
        IncludeStack { active: Vec::new() }
    }

    /// Whether `path` is being expanded, so that including it again is skipped.
    pub fn is_active(&self, path: &str) -> (r: bool)
        ensures
            r == active_paths(*self).contains(path@),
    {
        let target = to_chars(path);
        let mut i: usize = 0;
        while i < self.active.len()
            invariant
                i <= self.active@.len(),
                target@ == path@,
                forall|k: int| 0 <= k < i ==> (#[trigger] self.active@[k])@ != path@,
            decreases self.active.len() - i,
        {
            let cs = crate::text::string_chars(&self.active[i]);
            if crate::text::chars_eq(&cs, &target) {
                proof {
                    assert(active_paths(*self)[i as int] == path@);
                }
                return true;
            }
            i += 1;
        }
        proof {
            if active_paths(*self).contains(path@) {
                let k = choose|k: int| 0 <= k < active_paths(*self).len() && active_paths(*self)[k] == path@;
                assert(self.active@[k]@ == path@);
            }
        }
        false
    }

    /// Starts expanding `path`.
    pub fn enter(&mut self, path: String)
        ensures
            active_paths(*final(self)) == active_paths(*old(self)).push(path@),
    {
        self.active.push(path);
        assert(active_paths(*self) =~= active_paths(*old(self)).push(path@));
    }

    /// Ends the innermost expansion.
    pub fn leave(&mut self)
        ensures
            active_paths(*final(self)) == (if active_paths(*old(self)).len() > 0 {
                active_paths(*old(self)).drop_last()
            } else {
                active_paths(*old(self))
            }),
    {
        if self.active.len() > 0 {
            self.active.pop();
            assert(active_paths(*self) =~= active_paths(*old(self)).drop_last());
        }
    }
}

/// `s` ending with a newline: unchanged when it already does, else with one added.
pub open spec fn newline_ended(s: Seq<char>) -> Seq<char> {
    if s.len() > 0 && s.last() == '\n' {
        s
    } else {
        s.push('\n')
    }
}

/// Appends expanded include content: its headings shifted when the include asks,
/// and a newline unless it already ends with one.
pub fn append_included(out: &mut Vec<char>, expanded: &[char], attrs: IncludeAttrs)
    ensures
        final(out)@.len() > 0 && final(out)@.last() == '\n',
        final(out)@ == newline_ended(
            old(out)@ + match attrs.leveloffset {
                Some(o) => shifted_lines(crate::text::lines_spec(expanded@), o as int),
                None => expanded@,
            },
        ),
{
    let content = match attrs.leveloffset {
        Some(offset) => apply_leveloffset(expanded, offset),
        None => copy(expanded),
    };
    append(out, &content);
    if out.len() == 0 || out[out.len() - 1] != '\n' {
        out.push('\n');
    }
}

} // verus!
