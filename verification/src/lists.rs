//! Ordered, unordered and description lists, with nested lists and
//! `+` continuation blocks.
use vstd::prelude::*;
use crate::ast::{
    Block, BlockMetadata, DescriptionList, DescriptionListItem, DescriptionListTerm, ListItem,
    OrderedList, Paragraph, UnorderedList,
};
use crate::blocks::parse_delimited_block;
use crate::inline::parse_inline_chars;
use crate::meta::{parse_list_marker, try_parse_block_prelude, ListKind};
use crate::parser::{append_to_last_paragraph, make_block_from_paragraph, make_paragraph_like_block};
use crate::text::{
    append, contains_str, copy, cut, eq_str, find_str, is_blank, is_whitespace, to_string,
    trim, trim_start,
};

verus! {

/// The number of blank lines in a row from `i` on.
pub open spec fn blank_run(lines: Seq<Vec<char>>, i: int) -> nat
    decreases lines.len() - i,
{
    if 0 <= i < lines.len() && crate::text::trim_spec(lines[i]@).len() == 0 {
        1 + blank_run(lines, i + 1)
    } else {
        0
    }
}

/// A run of `r` blank lines from `i`, ended by the end or a non-blank line, is the blank run.
proof fn lemma_blank_run(lines: Seq<Vec<char>>, i: int, r: int)
    requires
        0 <= i,
        0 <= r,
        i + r <= lines.len(),
        forall|k: int| i <= k < i + r ==> crate::text::trim_spec(#[trigger] lines[k]@).len() == 0,
        i + r < lines.len() ==> crate::text::trim_spec(lines[i + r]@).len() > 0,
    ensures
        blank_run(lines, i) == r,
    decreases r,
{
    if r > 0 {
        lemma_blank_run(lines, i + 1, r - 1);
    }
}

/// The number of blank lines at the start of `lines[index..]`.
pub fn count_blank_lines(lines: &[Vec<char>], index: usize) -> (r: usize)
    ensures
        index <= lines@.len() ==> r == blank_run(lines@, index as int),
        index <= lines@.len() ==> index + r <= lines@.len(),
        index > lines@.len() ==> r == 0,
        forall|k: int| index <= k < index + r ==> crate::text::trim_spec(#[trigger] lines@[k]@).len() == 0,
        index + r < lines@.len() ==> crate::text::trim_spec(lines@[index + r]@).len() > 0,
{
    let n = lines.len();
    let mut r: usize = 0;
    if index > n {
        return 0;
    }
    while index + r < n && is_blank(&lines[index + r])
        invariant
            n == lines@.len(),
            index <= n,
            index + r <= n,
            forall|k: int| index <= k < index + r ==> crate::text::trim_spec(#[trigger] lines@[k]@).len() == 0,
        decreases n - index - r,
    {
        r += 1;
    }
    proof {
        lemma_blank_run(lines@, index as int, r as int);
    }
    r
}

/// An unordered list whose first item is at `index`, with the number of lines it takes.
pub fn parse_unordered_list(lines: &[Vec<char>], index: usize, fuel: usize) -> (r: Option<(UnorderedList, usize)>)
    ensures
        r matches Some(p) ==> 1 <= p.1 && index + p.1 <= lines@.len() && p.0.items@.len() > 0,
        r is Some ==> marker_at(lines@, index as int, ListKind::Unordered, 1),
        marker_at(lines@, index as int, ListKind::Unordered, 1) && fuel >= lines@.len() - index ==> r is Some,
    decreases fuel, 7usize,
{
    match parse_list(lines, index, ListKind::Unordered, 1, fuel) {
        Some((items, consumed)) => Some(
            (UnorderedList { items, reftext: None, metadata: BlockMetadata::new() }, consumed),
        ),
        None => None,
    }
}

/// An ordered list whose first item is at `index`, with the number of lines it takes.
pub fn parse_ordered_list(lines: &[Vec<char>], index: usize, fuel: usize) -> (r: Option<(OrderedList, usize)>)
    ensures
        r matches Some(p) ==> 1 <= p.1 && index + p.1 <= lines@.len() && p.0.items@.len() > 0,
        r is Some ==> marker_at(lines@, index as int, ListKind::Ordered, 1),
        marker_at(lines@, index as int, ListKind::Ordered, 1) && fuel >= lines@.len() - index ==> r is Some,
    decreases fuel, 7usize,
{
    match parse_list(lines, index, ListKind::Ordered, 1, fuel) {
        Some((items, consumed)) => Some(
            (OrderedList { items, reftext: None, metadata: BlockMetadata::new() }, consumed),
        ),
        None => None,
    }
}

/// The line at `index` opens a list item of the given kind and level.
pub open spec fn marker_at(lines: Seq<Vec<char>>, index: int, kind: ListKind, level: nat) -> bool {
    &&& 0 <= index < lines.len()
    &&& crate::meta::list_marker_spec(lines[index]@) matches Some(m) && m.0 == kind && m.1 == level
}

/// Whether the line at `index` is a list marker of the given kind and level.
fn marker_matches(lines: &[Vec<char>], index: usize, kind: ListKind, level: usize) -> (r: bool)
    ensures
        r ==> index < lines@.len(),
        r == marker_at(lines@, index as int, kind, level as nat),
{
    if index >= lines.len() {
        return false;
    }
    match parse_list_marker(&lines[index]) {
        Some(m) => m.kind == kind && m.level == level,
        None => false,
    }
}

/// The items of a list of the given kind and level starting at `index`; blank
/// lines between items are taken when the next item continues the list.
pub fn parse_list(lines: &[Vec<char>], index: usize, kind: ListKind, level: usize, fuel: usize) -> (r:
    Option<(Vec<ListItem>, usize)>)
    ensures
        r matches Some(p) ==> 1 <= p.1 && index + p.1 <= lines@.len() && p.0@.len() > 0,
        r is Some ==> marker_at(lines@, index as int, kind, level as nat),
        marker_at(lines@, index as int, kind, level as nat) && fuel >= lines@.len() - index ==> r is Some,
    decreases fuel, 6usize,
{
    if !marker_matches(lines, index, kind, level) {
        return None;
    }
    let n = lines.len();
    let mut items: Vec<ListItem> = Vec::new();
    let mut consumed: usize = 0;
    while index + consumed < n
        invariant
            n == lines@.len(),
            index < n,
            index + consumed <= n,
            items@.len() > 0 ==> consumed >= 1,
            items@.len() == 0 ==> consumed == 0,
            marker_at(lines@, index as int, kind, level as nat),
        ensures
            items@.len() > 0,
        decreases n - index - consumed,
    {
        if !marker_matches(lines, index + consumed, kind, level) {
            break;
        }
        let (item, item_consumed) = match parse_list_item(lines, index + consumed, kind, level, fuel) {
            Some(p) => p,
            None => return None,
        };
        items.push(item);
        consumed += item_consumed;
        let blank = count_blank_lines(lines, index + consumed);
        if blank == 0 {
            continue;
        }
        let next_index = index + consumed + blank;
        if next_index >= n {
            break;
        }
        if !marker_matches(lines, next_index, kind, level) {
            break;
        }
        consumed += blank;
    }
    if items.len() == 0 {
        return None;
    }
    Some((items, consumed))
}

/// One list item: its first paragraph, the lines that continue it, `+` continuation
/// blocks and nested lists of a deeper level.
pub fn parse_list_item(lines: &[Vec<char>], index: usize, kind: ListKind, level: usize, fuel: usize) -> (r:
    Option<(ListItem, usize)>)
    ensures
        r matches Some(p) ==> 1 <= p.1 && index + p.1 <= lines@.len() && p.0.blocks@.len() > 0,
        r is Some ==> marker_at(lines@, index as int, kind, level as nat),
        marker_at(lines@, index as int, kind, level as nat) && fuel >= lines@.len() - index ==> r is Some,
    decreases fuel, 5usize,
{
    if index >= lines.len() {
        return None;
    }
    let marker = match parse_list_marker(&lines[index]) {
        Some(m) => m,
        None => return None,
    };
    if marker.kind != kind || marker.level != level {
        return None;
    }
    let n = lines.len();
    let mut first: Vec<Vec<char>> = Vec::new();
    first.push(marker.content);
    let mut blocks: Vec<Block> = Vec::new();
    blocks.push(make_paragraph_like_block(first));
    let mut consumed: usize = 1;
    while index + consumed < n
        invariant
            n == lines@.len(),
            index < n,
            1 <= consumed,
            index + consumed <= n,
            blocks@.len() > 0,
            marker_at(lines@, index as int, kind, level as nat),
        decreases n - index - consumed,
    {
        let line = &lines[index + consumed];
        let trimmed = trim(line);
        if trimmed.len() == 0 {
            break;
        }
        if eq_str(&trimmed, "+") {
            match parse_list_item_continuation_block(lines, index + consumed + 1, level, fuel) {
                Some((block, cont)) => {
                    blocks.push(block);
                    consumed += 1 + cont;
                    continue;
                },
                None => {},
            }
            consumed += 1;
            break;
        }
        match parse_list_marker(line) {
            Some(next) => {
                if next.level > level {
                    match parse_list_block(lines, index + consumed, next.kind, next.level, fuel) {
                        Some((block, nested)) => {
                            blocks.push(block);
                            consumed += nested;
                            continue;
                        },
                        None => return None,
                    }
                }
                break;
            },
            None => {},
        }
        append_to_last_paragraph(&mut blocks, trim_start(line));
        consumed += 1;
    }
    Some((ListItem { blocks }, consumed))
}

/// The block attached to a list item by a `+` line: a nested list, a delimited
/// block (with its prelude) or a paragraph.
pub fn parse_list_item_continuation_block(
    lines: &[Vec<char>],
    index: usize,
    parent_level: usize,
    fuel: usize,
) -> (r: Option<(Block, usize)>)
    ensures
        r matches Some(p) ==> 1 <= p.1 && index + p.1 <= lines@.len(),
        r is Some ==> index + blank_run(lines@, index as int) < lines@.len(),
        ({
            let start = index + blank_run(lines@, index as int);
            start < lines@.len() && (crate::meta::list_marker_spec(lines@[start]@) matches Some(m) && m.1
                > parent_level && fuel > lines@.len() - start) ==> r is Some
        }),
        ({
            let start = index + blank_run(lines@, index as int);
            let c = start + crate::meta::prelude_len(crate::text::views(lines@), start);
            start < lines@.len() && crate::meta::list_marker_spec(lines@[start]@) is None && fuel > 0 && c
                < lines@.len() && crate::text::trim_spec(lines@[c]@).len() > 0 && crate::text::trim_spec(
                lines@[c]@,
            ) != "+"@ && crate::meta::list_marker_spec(lines@[c]@) is None ==> r is Some
        }),
    decreases fuel, 4usize,
{
    let n = lines.len();
    if index >= n {
        return None;
    }
    let blank = count_blank_lines(lines, index);
    let start = index + blank;
    if start >= n {
        return None;
    }
    match parse_list_marker(&lines[start]) {
        Some(marker) => {
            if marker.level > parent_level {
                match parse_list_block(lines, start, marker.kind, marker.level, fuel) {
                    Some((block, consumed)) => return Some((block, blank + consumed)),
                    None => return None,
                }
            }
            return None;
        },
        None => {},
    }
    let prelude = try_parse_block_prelude(lines, start);
    let prelude_lines: usize = match &prelude {
        Some(p) => p.consumed_lines,
        None => 0,
    };
    let continuation_start = start + prelude_lines;
    if fuel == 0 {
        return None;
    }
    match &prelude {
        Some(p) => {
            match parse_delimited_block(lines, continuation_start, Some(p), fuel - 1) {
                Some((block, consumed)) => return Some((block, blank + prelude_lines + consumed)),
                None => {},
            }
        },
        None => {
            match parse_delimited_block(lines, start, None, fuel - 1) {
                Some((block, consumed)) => return Some((block, blank + consumed)),
                None => {},
            }
        },
    }
    let mut paragraph_lines: Vec<Vec<char>> = Vec::new();
    let mut consumed = blank + prelude_lines;
    let mut cursor = continuation_start;
    while cursor < n
        invariant
            n == lines@.len(),
            continuation_start <= cursor <= n,
            index + consumed == cursor,
            index <= continuation_start,
            paragraph_lines@.len() == cursor - continuation_start,
        ensures
            paragraph_lines@.len() == cursor - continuation_start,
            index + consumed == cursor,
            cursor <= n,
            (continuation_start < n && crate::text::trim_spec(lines@[continuation_start as int]@).len() > 0
                && crate::text::trim_spec(lines@[continuation_start as int]@) != "+"@
                && crate::meta::list_marker_spec(lines@[continuation_start as int]@) is None)
                ==> paragraph_lines@.len() > 0,
        decreases n - cursor,
    {
        let line = &lines[cursor];
        let trimmed = trim(line);
        if trimmed.len() == 0 || eq_str(&trimmed, "+") {
            break;
        }
        if parse_list_marker(line).is_some() {
            break;
        }
        paragraph_lines.push(trim_start(line));
        cursor += 1;
        consumed += 1;
    }
    if paragraph_lines.len() == 0 {
        return None;
    }
    let metadata = match prelude {
        Some(p) => p.metadata,
        None => BlockMetadata::new(),
    };
    Some((make_block_from_paragraph(paragraph_lines, None, None, metadata), consumed))
}

/// A nested list as a block.
pub fn parse_list_block(lines: &[Vec<char>], index: usize, kind: ListKind, level: usize, fuel: usize) -> (r:
    Option<(Block, usize)>)
    ensures
        r matches Some(p) ==> 1 <= p.1 && index + p.1 <= lines@.len(),
        r is Some ==> marker_at(lines@, index as int, kind, level as nat),
        marker_at(lines@, index as int, kind, level as nat) && fuel > lines@.len() - index ==> r is Some,
        r matches Some(p) ==> match kind {
            ListKind::Unordered => p.0 is UnorderedList,
            ListKind::Ordered => p.0 is OrderedList,
        },
    decreases fuel, 3usize,
{
    if fuel == 0 {
        return None;
    }
    let (items, consumed) = match parse_list(lines, index, kind, level, fuel - 1) {
        Some(p) => p,
        None => return None,
    };
    let block = match kind {
        ListKind::Unordered => Block::UnorderedList(
            UnorderedList { items, reftext: None, metadata: BlockMetadata::new() },
        ),
        ListKind::Ordered => Block::OrderedList(
            OrderedList { items, reftext: None, metadata: BlockMetadata::new() },
        ),
    };
    Some((block, consumed))
}

/// The first `::` of `line` stands at `pos`, and a space, a tab or the end of
/// the line follows it.
pub open spec fn term_marker_at(line: Seq<char>, pos: int) -> bool {
    &&& crate::text::starts_at(line, pos, "::"@)
    &&& forall|k: int| 0 <= k < pos ==> !crate::text::starts_at(line, k, "::"@)
    &&& (pos + 2 == line.len() || line[pos + 2] == ' ' || line[pos + 2] == '\t')
}

/// The position of a `term::` marker in a line: `::` followed by whitespace or the end.
fn find_term_marker(line: &[char]) -> (r: Option<(usize, usize)>)
    ensures
        r matches Some(p) ==> p.0 + 2 == p.1 && p.1 <= line@.len(),
        r matches Some(p) ==> term_marker_at(line@, p.0 as int),
        r is None ==> forall|pos: int| !term_marker_at(line@, pos),
{
    let len = line.len();
    proof {
        reveal_strlit("::");
    }
    match find_str(line, "::") {
        Some(pos) => {
            let after = pos + 2;
            if after == len || line[after] == ' ' || line[after] == '\t' {
                Some((pos, after))
            } else {
                assert forall|q: int| !term_marker_at(line@, q) by {
                    if term_marker_at(line@, q) {
                        if q < pos {
                            assert(!crate::text::starts_at(line@, q, "::"@));
                        } else if pos < q {
                            assert(!crate::text::starts_at(line@, pos as int, "::"@));
                        }
                    }
                }
                None
            }
        },
        None => None,
    }
}

/// The line at `index` opens a description list: it is not blank and holds a
/// `term::` marker.
pub open spec fn opens_description_list(lines: Seq<Vec<char>>, index: int) -> bool {
    0 <= index < lines.len() && crate::text::trim_spec(lines[index]@).len() > 0 && exists|pos: int|
        term_marker_at(lines[index]@, pos)
}

/// The line holds a `term::` marker and is not blank.
pub open spec fn dl_term_line(l: Seq<char>) -> bool {
    crate::text::trim_spec(l).len() > 0 && exists|pos: int| term_marker_at(l, pos)
}

/// Where the `term::` marker of a term line stands.
pub open spec fn dl_pos(l: Seq<char>) -> int {
    choose|pos: int| term_marker_at(l, pos)
}

/// The term of a term line: the trimmed text before its marker.
pub open spec fn dl_term_text(l: Seq<char>) -> Seq<char> {
    crate::text::trim_spec(l.subrange(0, dl_pos(l)))
}

/// The trimmed text after the marker of a term line: the start of its description.
pub open spec fn dl_rest(l: Seq<char>) -> Seq<char> {
    crate::text::trim_spec(l.subrange(dl_pos(l) + 2, l.len() as int))
}

/// A line that goes on with a description: not blank, and holding no `::`.
pub open spec fn dl_continuation(l: Seq<char>) -> bool {
    crate::text::trim_spec(l).len() > 0 && !exists|k: int| crate::text::starts_at(l, k, "::"@)
}

/// `term` is the term of the term line `l`.
pub open spec fn dl_term_of(l: Seq<char>, term: DescriptionListTerm) -> bool {
    dl_term_line(l) && term.text@ == dl_term_text(l)
}

/// Lines `a..b` hold the item `it`: its terms on the term lines from `a` on (up to
/// the first one whose description starts on the same line, or the last term line
/// in a row), then the lines that go on with its description. It has a description
/// exactly when one of these holds text.
pub open spec fn dl_item(ls: Seq<Vec<char>>, a: int, b: int, it: DescriptionListItem) -> bool {
    let t = it.terms@.len() as int;
    &&& 1 <= t && 0 <= a && a + t <= b <= ls.len()
    &&& forall|m: int| 0 <= m < t ==> #[trigger] dl_term_of(ls[a + m]@, it.terms@[m])
    &&& forall|m: int| 0 <= m < t - 1 ==> dl_rest(#[trigger] ls[a + m]@).len() == 0
    &&& dl_rest(ls[a + t - 1]@).len() == 0 ==> a + t >= ls.len() || !dl_term_line(ls[a + t]@)
    &&& forall|j: int| a + t <= j < b ==> dl_continuation(#[trigger] ls[j]@)
    &&& b < ls.len() ==> !dl_continuation(ls[b]@)
    &&& (it.description is None <==> dl_rest(ls[a + t - 1]@).len() == 0 && b == a + t)
}

/// The items of a description list read from `index`, with `bounds` marking where
/// each starts and the list ends; the list stops at the end of the lines or at a line
/// that is not a term line.
pub open spec fn dl_items(ls: Seq<Vec<char>>, index: int, items: Seq<DescriptionListItem>, bounds: Seq<int>) -> bool {
    &&& bounds.len() == items.len() + 1
    &&& bounds[0] == index
    &&& forall|k: int| 0 <= k < items.len() ==> dl_item(ls, bounds[k], bounds[k + 1], #[trigger] items[k])
    &&& bounds.last() >= ls.len() || !dl_term_line(ls[bounds.last()]@)
}

proof fn lemma_term_marker_unique(l: Seq<char>, p: int, q: int)
    requires
        term_marker_at(l, p),
        term_marker_at(l, q),
    ensures
        p == q,
{
    if p < q {
        assert(crate::text::starts_at(l, p, "::"@));
    } else if q < p {
        assert(crate::text::starts_at(l, q, "::"@));
    }
}

/// A description list (`term:: description`) starting at `index`.
pub fn parse_description_list(lines: &[Vec<char>], index: usize) -> (r: Option<(DescriptionList, usize)>)
    ensures
        r matches Some(p) ==> 1 <= p.1 && index + p.1 <= lines@.len() && p.0.items@.len() > 0,
        r is Some <==> opens_description_list(lines@, index as int),
        r matches Some(p) ==> forall|k: int| 0 <= k < p.0.items@.len() ==> (#[trigger] p.0.items@[k]).terms@.len() > 0,
        r matches Some(p) ==> exists|pos: int|
            term_marker_at(lines@[index as int]@, pos) && p.0.items@[0].terms@[0].text@ == crate::text::trim_spec(
                #[trigger] lines@[index as int]@.subrange(0, pos),
            ),
        r matches Some(p) ==> exists|bounds: Seq<int>|
            #[trigger] dl_items(lines@, index as int, p.0.items@, bounds) && bounds.last() == index + p.1,
{
    let n = lines.len();
    if index >= n {
        return None;
    }
    let start_index = index;
    let mut index = index;
    let mut items: Vec<DescriptionListItem> = Vec::new();
    let ghost first_ok = opens_description_list(lines@, start_index as int);
    let ghost mut bounds: Seq<int> = seq![start_index as int];
    while index < n
        invariant
            n == lines@.len(),
            start_index <= index <= n,
            start_index < n,
            first_ok == opens_description_list(lines@, start_index as int),
            items@.len() > 0 <==> index > start_index,
            forall|k: int| 0 <= k < items@.len() ==> (#[trigger] items@[k]).terms@.len() > 0,
            items@.len() > 0 ==> crate::text::trim_spec(lines@[start_index as int]@).len() > 0,
            items@.len() > 0 ==> exists|pos: int|
                term_marker_at(lines@[start_index as int]@, pos) && items@[0].terms@[0].text@
                    == crate::text::trim_spec(#[trigger] lines@[start_index as int]@.subrange(0, pos)),
            bounds.len() == items@.len() + 1,
            bounds[0] == start_index,
            bounds.last() == index,
            forall|k: int| 0 <= k < items@.len() ==> dl_item(lines@, bounds[k], bounds[k + 1], #[trigger] items@[k]),
        ensures
            first_ok ==> items@.len() > 0,
            bounds.len() == items@.len() + 1,
            bounds[0] == start_index,
            bounds.last() == index,
            index <= n,
            forall|k: int| 0 <= k < items@.len() ==> dl_item(lines@, bounds[k], bounds[k + 1], #[trigger] items@[k]),
            index >= n || !dl_term_line(lines@[index as int]@),
        decreases n - index,
    {
        if is_blank(&lines[index]) {
            break;
        }
        let ghost iter_start = index;
        let mut terms: Vec<DescriptionListTerm> = Vec::new();
        let mut current_desc: Vec<char> = Vec::new();
        let mut term_consumed: usize = 0;
        let ghost mut first_pos: int = 0;
        let ghost mut stop_rest = false;
        let ghost mut stop_line = false;
        while index + term_consumed < n
            invariant_except_break
                !stop_rest && !stop_line,
            invariant
                n == lines@.len(),
                start_index <= index < n,
                index == iter_start,
                index + term_consumed <= n,
                terms@.len() == term_consumed,
                terms@.len() > 0 ==> crate::text::trim_spec(lines@[index as int]@).len() > 0,
                terms@.len() > 0 ==> term_marker_at(lines@[index as int]@, first_pos) && terms@[0].text@
                    == crate::text::trim_spec(lines@[index as int]@.subrange(0, first_pos)),
                forall|m: int| 0 <= m < term_consumed ==> #[trigger] dl_term_of(lines@[index + m]@, terms@[m]),
                forall|m: int| 0 <= m < term_consumed - 1 ==> dl_rest(#[trigger] lines@[index + m]@).len() == 0,
                !stop_rest ==> (term_consumed > 0 ==> dl_rest(lines@[index + term_consumed - 1]@).len() == 0)
                    && current_desc@.len() == 0,
                stop_rest ==> term_consumed > 0 && current_desc@ == dl_rest(lines@[index + term_consumed - 1]@)
                    && current_desc@.len() > 0,
                stop_line ==> index + term_consumed < n && !dl_term_line(lines@[index + term_consumed]@),
                !(stop_rest && stop_line),
            ensures
                index + term_consumed >= n || stop_rest || stop_line,
            decreases n - index - term_consumed,
        {
            let t_line = &lines[index + term_consumed];
            if is_blank(t_line) {
                proof {
                    stop_line = true;
                }
                break;
            } else {
                match find_term_marker(t_line) {
                    Some((pos, after)) => {
                        let remainder = trim(&cut(t_line, after, t_line.len()));
                        let term_text = trim(&cut(t_line, 0, pos));
                        let ghost l = lines@[index + term_consumed]@;
                        proof {
                            if term_consumed == 0 {
                                first_pos = pos as int;
                            }
                            assert(term_marker_at(l, pos as int));
                            lemma_term_marker_unique(l, pos as int, dl_pos(l));
                            assert(dl_term_line(l));
                            assert(remainder@ == dl_rest(l));
                        }
                        let ghost before = terms@;
                        let text = to_string(&term_text);
                        assert(text@ == dl_term_text(l));
                        terms.push(DescriptionListTerm { text, inlines: parse_inline_chars(&term_text) });
                        proof {
                            assert forall|m: int| 0 <= m < term_consumed + 1 implies #[trigger] dl_term_of(
                                lines@[index + m]@,
                                terms@[m],
                            ) by {
                                if m < term_consumed {
                                    assert(terms@[m] == before[m]);
                                    assert(dl_term_of(lines@[index + m]@, before[m]));
                                }
                            }
                        }
                        term_consumed += 1;
                        proof {
                            assert forall|m: int| 0 <= m < term_consumed - 1 implies dl_rest(
                                #[trigger] lines@[index + m]@,
                            ).len() == 0 by {
                                if m == term_consumed - 2 {
                                    assert(dl_rest(lines@[index + term_consumed - 2]@).len() == 0);
                                }
                            }
                        }
                        if remainder.len() > 0 {
                            append(&mut current_desc, &remainder);
                            proof {
                                stop_rest = true;
                            }
                            break;
                        }
                    },
                    None => {
                        proof {
                            stop_line = true;
                        }
                        break;
                    },
                }
            }
        }
        if terms.len() == 0 {
            break;
        }
        let ghost t = term_consumed as int;
        let ghost rest_empty = dl_rest(lines@[index + term_consumed - 1]@).len() == 0;
        index += term_consumed;
        while index < n && !is_blank(&lines[index]) && !contains_str(&lines[index], "::")
            invariant
                n == lines@.len(),
                start_index <= index <= n,
                index > iter_start,
                iter_start >= start_index,
                start_index < n,
                iter_start < n,
                iter_start + t <= index,
                t == terms@.len(),
                rest_empty == (dl_rest(lines@[iter_start + t - 1]@).len() == 0),
                items@.len() > 0 <==> iter_start > start_index,
                forall|k: int| 0 <= k < items@.len() ==> (#[trigger] items@[k]).terms@.len() > 0,
                items@.len() > 0 ==> crate::text::trim_spec(lines@[start_index as int]@).len() > 0,
                crate::text::trim_spec(lines@[iter_start as int]@).len() > 0,
                items@.len() > 0 ==> exists|pos: int|
                    term_marker_at(lines@[start_index as int]@, pos) && items@[0].terms@[0].text@
                        == crate::text::trim_spec(#[trigger] lines@[start_index as int]@.subrange(0, pos)),
                terms@.len() > 0,
                term_marker_at(lines@[iter_start as int]@, first_pos),
                terms@[0].text@ == crate::text::trim_spec(lines@[iter_start as int]@.subrange(0, first_pos)),
                forall|j: int| iter_start + t <= j < index ==> dl_continuation(#[trigger] lines@[j]@),
                current_desc@.len() == 0 <==> rest_empty && index == iter_start + t,
                bounds.len() == items@.len() + 1,
                bounds[0] == start_index,
                bounds.last() == iter_start,
                forall|k: int| 0 <= k < items@.len() ==> dl_item(lines@, bounds[k], bounds[k + 1], #[trigger] items@[k]),
            decreases n - index,
        {
            if current_desc.len() > 0 {
                current_desc.push('\n');
            }
            let t_chars = trim(&lines[index]);
            append(&mut current_desc, &t_chars);
            proof {
                reveal_strlit("::");
            }
            index += 1;
        }
        proof {
            reveal_strlit("::");
            if index < n {
                assert(!dl_continuation(lines@[index as int]@));
            }
        }
        let description = if current_desc.len() == 0 {
            None
        } else {
            let desc_lines = crate::text::lines(&current_desc);
            let mut blocks: Vec<Block> = Vec::new();
            blocks.push(
                Block::Paragraph(
                    Paragraph {
                        lines: crate::parser::strings_of(&desc_lines),
                        inlines: parse_inline_chars(&current_desc),
                        id: None,
                        reftext: None,
                        metadata: BlockMetadata::new(),
                    },
                ),
            );
            Some(ListItem { blocks })
        };
        let item = DescriptionListItem { terms, description };
        proof {
            assert(dl_item(lines@, iter_start as int, index as int, item));
            bounds = bounds.push(index as int);
        }
        items.push(item);
    }
    if items.len() == 0 {
        return None;
    }
    proof {
        assert(dl_items(lines@, start_index as int, items@, bounds));
    }
    Some((DescriptionList { items, reftext: None, metadata: BlockMetadata::new() }, index - start_index))
}

} // verus!
