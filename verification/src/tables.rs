//! Tables: pipe-separated (`|===`), comma-separated (`,===`) and
//! delimiter-separated (`:===`) rows, cell specifiers and row assembly.
use vstd::prelude::*;
use crate::ast::{Block, BlockMetadata, TableBlock, TableCell, TableRow};
use crate::attrs::AttributeMap;
use crate::meta::{contains_string, BlockPrelude};
use crate::parser::parse_blocks_from_lines;
use crate::text::{
    all_equal, append, append_str, chars_eq, cut, eq_str, find_char, is_blank, join_str, lines,
    parse_usize, split_char, string_chars, strip_prefix_str, to_ascii_lowercase, to_string, trim,
    trim_start, copy,
};

verus! {

/// A cell as written in the table source, before its content is parsed.
pub struct ParsedTableCell {
    pub content: Vec<char>,
    pub colspan: usize,
    pub rowspan: usize,
    pub style: Option<String>,
}

/// How the rows of a table are written.
#[derive(Debug, Clone, Copy, PartialEq, Eq, Structural)]
pub enum TableFormat {
    Psv,
    Csv,
    Dsv,
}

/// The records that the csv reader finds in `content`: no header row, the given
/// field delimiter, rows of varying length allowed; `None` when the reader fails.
pub uninterp spec fn csv_records(content: Seq<char>, separator: char) -> Option<Seq<Seq<Seq<char>>>>;

/// Reads `content` with the `csv` crate: `csv::ReaderBuilder` with no headers, the
/// separator (as a byte) as delimiter and flexible rows, collecting each record's fields.
/// The result is the named function `csv_records` of the content and the separator.
#[verifier::external_body]
fn read_csv_records(content: &String, separator: char) -> (r: Option<Vec<Vec<String>>>)
    ensures
        r is None <==> csv_records(content@, separator) is None,
        r matches Some(v) ==> csv_records(content@, separator) == Some(v.deep_view()),
{
    let mut reader = csv::ReaderBuilder::new().has_headers(false).delimiter(separator as u8).flexible(
        true,
    ).from_reader(content.as_bytes());
    let mut rows = Vec::new();
    for record in reader.records() {
        let record = record.ok()?;
        rows.push(record.iter().map(|value| value.to_owned()).collect());
    }
    Some(rows)
}

/// Each record field becomes a plain cell (span 1, no style).
pub fn rows_from_records(records: &Vec<Vec<String>>) -> (r: Vec<Vec<ParsedTableCell>>)
    ensures
        r@.len() == records@.len(),
        forall|i: int|
            0 <= i < r@.len() ==> (#[trigger] r@[i])@.len() == records@[i]@.len() && forall|j: int|
                0 <= j < r@[i]@.len() ==> (#[trigger] r@[i]@[j]).content@ == records@[i]@[j]@
                    && r@[i]@[j].colspan == 1 && r@[i]@[j].rowspan == 1 && r@[i]@[j].style is None,
{
    let mut rows: Vec<Vec<ParsedTableCell>> = Vec::new();
    let mut i: usize = 0;
    while i < records.len()
        invariant
            i <= records@.len(),
            rows@.len() == i,
            forall|a: int|
                0 <= a < i ==> (#[trigger] rows@[a])@.len() == records@[a]@.len() && forall|j: int|
                    0 <= j < rows@[a]@.len() ==> (#[trigger] rows@[a]@[j]).content@ == records@[a]@[j]@
                        && rows@[a]@[j].colspan == 1 && rows@[a]@[j].rowspan == 1 && rows@[a]@[j].style is None,
        decreases records.len() - i,
    {
        let record = &records[i];
        let mut row: Vec<ParsedTableCell> = Vec::new();
        let mut j: usize = 0;
        while j < record.len()
            invariant
                j <= record@.len(),
                row@.len() == j,
                forall|b: int|
                    0 <= b < j ==> (#[trigger] row@[b]).content@ == record@[b]@ && row@[b].colspan == 1
                        && row@[b].rowspan == 1 && row@[b].style is None,
            decreases record.len() - j,
        {
            row.push(ParsedTableCell { content: string_chars(&record[j]), colspan: 1, rowspan: 1, style: None });
            j += 1;
        }
        rows.push(row);
        i += 1;
    }
    rows
}

/// `|===` (or `,===`, `:===`, `!===`, with three or more `=`): the trimmed
/// delimiter and its first character.
pub fn parse_table_delimiter(line: &[char]) -> (r: Option<(Vec<char>, char)>)
    ensures
        r matches Some(p) ==> p.0@ == crate::text::trim_spec(line@) && p.0@.len() >= 4 && p.0@[0] == p.1 && (
        p.1 == '|' || p.1 == ',' || p.1 == ':' || p.1 == '!') && forall|k: int| 1 <= k < p.0@.len() ==> p.0@[k] == '=',
        r is None ==> !(crate::text::trim_spec(line@).len() >= 4 && (crate::text::trim_spec(line@)[0] == '|'
            || crate::text::trim_spec(line@)[0] == ',' || crate::text::trim_spec(line@)[0] == ':'
            || crate::text::trim_spec(line@)[0] == '!') && forall|k: int|
            1 <= k < crate::text::trim_spec(line@).len() ==> crate::text::trim_spec(line@)[k] == '='),
{
    let trimmed = trim(line);
    if trimmed.len() == 0 {
        return None;
    }
    let marker = trimmed[0];
    if marker != '|' && marker != ',' && marker != ':' && marker != '!' {
        return None;
    }
    let rest = cut(&trimmed, 1, trimmed.len());
    if rest.len() >= 3 && all_equal(&rest, '=') {
        assert forall|k: int| 1 <= k < trimmed@.len() implies trimmed@[k] == '=' by {
            assert(rest@[k - 1] == trimmed@[k]);
        }
        Some((trimmed, marker))
    } else {
        if rest.len() >= 3 {
            let ghost k = choose|k: int| 0 <= k < rest@.len() && rest@[k] != '=';
            assert(trimmed@[k + 1] == rest@[k]);
        }
        None
    }
}

/// `s` read as a `usize`, when it is one.
pub open spec fn usize_spec(s: Seq<char>) -> Option<nat> {
    if crate::text::parses_unsigned(s) && crate::text::digits_value(crate::text::unsigned_digits(s)) <= usize::MAX {
        Some(crate::text::digits_value(crate::text::unsigned_digits(s)))
    } else {
        None
    }
}

/// The spans of a `N+`, `.N+` or `N.M+` specifier without its `+`.
pub open spec fn span_spec(body: Seq<char>) -> Option<(nat, nat)> {
    if body.len() > 0 && body[0] == '.' {
        match usize_spec(body.drop_first()) {
            Some(r) => Some((1nat, r)),
            None => None,
        }
    } else if crate::text::first_pos(body, '.') >= 0 {
        let d = crate::text::first_pos(body, '.');
        match (usize_spec(body.subrange(0, d)), usize_spec(body.subrange(d + 1, body.len() as int))) {
            (Some(c), Some(r)) => Some((c, r)),
            _ => None,
        }
    } else {
        match usize_spec(body) {
            Some(c) => Some((c, 1nat)),
            None => None,
        }
    }
}

/// A cell specifier read as (colspan, rowspan, style): empty; `a` or `h`, which
/// give the style; or spans followed by `+`.
pub open spec fn cell_spec_spec(spec: Seq<char>) -> Option<(nat, nat, Option<Seq<char>>)> {
    if spec.len() == 0 {
        Some((1nat, 1nat, None))
    } else if spec == "a"@ {
        Some((1nat, 1nat, Some("asciidoc"@)))
    } else if spec == "h"@ {
        Some((1nat, 1nat, Some("header"@)))
    } else if spec.last() != '+' {
        None
    } else {
        match span_spec(spec.drop_last()) {
            Some(p) => Some((p.0, p.1, None)),
            None => None,
        }
    }
}

/// A parsed cell specifier by its view.
pub open spec fn cell_spec_view(p: (usize, usize, Option<String>)) -> (nat, nat, Option<Seq<char>>) {
    (p.0 as nat, p.1 as nat, crate::text::opt_view(p.2))
}

/// A cell specifier: empty, `a` (AsciiDoc content), `h` (header), `N+` (column
/// span), `.N+` (row span) or `N.M+` (both). Returns (colspan, rowspan, style).
pub fn parse_table_cell_spec(spec: &[char]) -> (r: Option<(usize, usize, Option<String>)>)
    ensures
        r is Some <==> cell_spec_spec(spec@) is Some,
        r matches Some(p) ==> cell_spec_spec(spec@) == Some(cell_spec_view(p)),
        spec@.len() == 0 ==> r == Some((1usize, 1usize, None::<String>)),
        spec@ == "a"@ ==> (r matches Some(p) && p.0 == 1 && p.1 == 1 && (p.2 matches Some(s) && s@ == "asciidoc"@)),
        spec@ == "h"@ ==> (r matches Some(p) && p.0 == 1 && p.1 == 1 && (p.2 matches Some(s) && s@ == "header"@)),
        r matches Some(p) ==> spec@.len() == 0 || spec@ == "a"@ || spec@ == "h"@ || spec@.last() == '+',
{
    proof {
        reveal_strlit("a");
        reveal_strlit("h");
        assert("a"@ != "h"@) by {
            assert("a"@[0] != "h"@[0]);
        }
    }
    if spec.len() == 0 {
        return Some((1, 1, None));
    }
    if eq_str(spec, "a") {
        return Some((1, 1, Some(crate::text::lit("asciidoc"))));
    }
    if eq_str(spec, "h") {
        return Some((1, 1, Some(crate::text::lit("header"))));
    }
    if spec[spec.len() - 1] != '+' {
        return None;
    }
    let body = cut(spec, 0, spec.len() - 1);
    if spec[0] == '.' {
        let rowspan = match parse_usize(&cut(&body, 1, body.len())) {
            Some(v) => v,
            None => return None,
        };
        return Some((1, rowspan, None));
    }
    match find_char(&body, '.') {
        Some(dot) => {
            let colspan = match parse_usize(&cut(&body, 0, dot)) {
                Some(v) => v,
                None => return None,
            };
            let rowspan = match parse_usize(&cut(&body, dot + 1, body.len())) {
                Some(v) => v,
                None => return None,
            };
            Some((colspan, rowspan, None))
        },
        None => {
            let colspan = match parse_usize(&body) {
                Some(v) => v,
                None => return None,
            };
            Some((colspan, 1, None))
        },
    }
}

/// A cell specifier before the first separator of a line, with the text after it.
pub fn parse_leading_table_cell_spec(line: &[char], separator: char) -> (r: Option<
    (usize, usize, Option<String>, Vec<char>),
>)
    ensures
        ({
            let at = crate::text::first_pos(line@, separator);
            let sp = crate::text::trim_spec(line@.subrange(0, at));
            &&& r is Some <==> at >= 0 && cell_spec_spec(sp) is Some
            &&& r matches Some(p) ==> cell_spec_spec(sp) == Some(cell_spec_view((p.0, p.1, p.2))) && p.3@
                == line@.subrange(at + 1, line@.len() as int)
        }),
{
    let at = match find_char(line, separator) {
        Some(i) => i,
        None => return None,
    };
    let spec = trim(&cut(line, 0, at));
    let rest = cut(line, at + 1, line.len());
    match parse_table_cell_spec(&spec) {
        Some((c, r, s)) => Some((c, r, s, rest)),
        None => None,
    }
}

/// Whether a line starts a new cell: a (possibly empty) cell specifier, then the separator.
pub fn starts_table_cell_line(line: &[char], separator: char) -> (r: bool)
    ensures
        ({
            let t = crate::text::trim_start_spec(line@);
            let at = crate::text::first_pos(t, separator);
            r == (at >= 0 && cell_spec_spec(crate::text::trim_spec(t.subrange(0, at))) is Some)
        }),
{
    let t = trim_start(line);
    parse_leading_table_cell_spec(&t, separator).is_some()
}

/// The first non-blank line at or after `index`.
pub fn next_nonempty_table_line(lines: &[Vec<char>], index: usize) -> (r: Option<usize>)
    ensures
        r matches Some(i) ==> index <= i < lines@.len() && crate::text::trim_spec(lines@[i as int]@).len() > 0,
        r matches Some(i) ==> forall|k: int| index <= k < i ==> crate::text::trim_spec(#[trigger] lines@[k]@).len() == 0,
        r is None ==> forall|k: int| index <= k < lines@.len() ==> crate::text::trim_spec(#[trigger] lines@[k]@).len() == 0,
{
    let n = lines.len();
    let mut i = index;
    while i < n
        invariant
            n == lines@.len(),
            index <= i,
            forall|k: int| index <= k < i ==> crate::text::trim_spec(#[trigger] lines@[k]@).len() == 0,
        decreases n - i,
    {
        if !is_blank(&lines[i]) {
            return Some(i);
        }
        i += 1;
    }
    None
}

/// The pieces of `s[i..]` split at `sep`, where `\` before `sep` reads as the
/// separator itself: `cur` is the open piece; each piece is trimmed.
pub open spec fn row_split_from(s: Seq<char>, i: int, sep: char, cur: Seq<char>) -> Seq<Seq<char>>
    decreases s.len() - i,
{
    if i < 0 || i >= s.len() {
        seq![crate::text::trim_spec(cur)]
    } else if s[i] == '\\' && i + 1 < s.len() && s[i + 1] == sep {
        row_split_from(s, i + 2, sep, cur.push(sep))
    } else if s[i] == sep {
        seq![crate::text::trim_spec(cur)] + row_split_from(s, i + 1, sep, Seq::empty())
    } else {
        row_split_from(s, i + 1, sep, cur.push(s[i]))
    }
}

/// Splits a row line at the separator, reading `\` before a separator as an
/// escape; each piece is trimmed.
pub fn split_table_row_cells_after_marker(line: &[char], separator: char) -> (r: Vec<Vec<char>>)
    ensures
        r@.len() >= 1,
        crate::text::views(r@) == row_split_from(line@, 0, separator, Seq::empty()),
{
    let mut cells: Vec<Vec<char>> = Vec::new();
    let mut current: Vec<char> = Vec::new();
    let mut i: usize = 0;
    while i < line.len()
        invariant
            i <= line@.len(),
            row_split_from(line@, 0, separator, Seq::empty()) == crate::text::views(cells@) + row_split_from(
                line@,
                i as int,
                separator,
                current@,
            ),
        decreases line.len() - i,
    {
        let ch = line[i];
        if ch == '\\' && i + 1 < line.len() && line[i + 1] == separator {
            current.push(separator);
            i += 2;
            continue;
        }
        if ch == separator {
            let ghost c0 = cells@;
            let piece = trim(&current);
            cells.push(piece);
            assert(crate::text::views(cells@) == crate::text::views(c0) + seq![piece@]);
            current = Vec::new();
            i += 1;
            continue;
        }
        current.push(ch);
        i += 1;
    }
    let ghost c0 = cells@;
    let piece = trim(&current);
    cells.push(piece);
    assert(crate::text::views(cells@) == crate::text::views(c0) + seq![piece@]);
    cells
}

/// A parsed cell by its view: content, column span, row span and style.
pub open spec fn parsed_cell_view(c: ParsedTableCell) -> (Seq<char>, nat, nat, Option<Seq<char>>) {
    (c.content@, c.colspan as nat, c.rowspan as nat, crate::text::opt_view(c.style))
}

/// Parsed cells by their views.
pub open spec fn parsed_cells_view(cs: Seq<ParsedTableCell>) -> Seq<(Seq<char>, nat, nat, Option<Seq<char>>)> {
    cs.map_values(|c: ParsedTableCell| parsed_cell_view(c))
}

/// The cells that `segs[i..]` reads as: where a segment is a non-empty cell
/// specifier and another segment follows, that one is the cell's content;
/// otherwise the segment is a plain cell. Contents are trimmed.
pub open spec fn segment_cells(segs: Seq<Seq<char>>, i: int) -> Seq<(Seq<char>, nat, nat, Option<Seq<char>>)>
    decreases segs.len() - i,
{
    if i < 0 || i >= segs.len() {
        Seq::empty()
    } else {
        let sp = crate::text::trim_spec(segs[i]);
        if i + 1 < segs.len() && sp.len() > 0 && cell_spec_spec(sp) is Some {
            let c = cell_spec_spec(sp)->0;
            seq![(crate::text::trim_spec(segs[i + 1]), c.0, c.1, c.2)] + segment_cells(segs, i + 2)
        } else {
            seq![(crate::text::trim_spec(segs[i]), 1nat, 1nat, None::<Seq<char>>)] + segment_cells(segs, i + 1)
        }
    }
}

/// The cells of a row line that starts with a cell: its first segment (after
/// leading whitespace) is a cell specifier for the second, and the rest read as
/// `segment_cells`.
pub open spec fn line_cells(line: Seq<char>, sep: char) -> Option<Seq<(Seq<char>, nat, nat, Option<Seq<char>>)>> {
    let segs = row_split_from(crate::text::trim_start_spec(line), 0, sep, Seq::empty());
    if segs.len() < 2 || cell_spec_spec(crate::text::trim_spec(segs[0])) is None {
        None
    } else {
        let c = cell_spec_spec(crate::text::trim_spec(segs[0]))->0;
        Some(seq![(crate::text::trim_spec(segs[1]), c.0, c.1, c.2)] + segment_cells(segs, 2))
    }
}

/// A plain cell holding the trimmed text.
fn plain_cell(text: &[char]) -> (r: ParsedTableCell)
    ensures
        r.colspan == 1 && r.rowspan == 1 && r.style is None,
        r.content@ == crate::text::trim_spec(text@),
{
    ParsedTableCell { content: trim(text), colspan: 1, rowspan: 1, style: None }
}

/// Reads `segments[index..]` as cells, each either `spec, content` or plain
/// `content`, preferring a cell specifier where the rest still reads. Cells found
/// are appended to `cells`; on `false` it is left as it was.
pub fn parse_table_cells_from_segments(segments: &Vec<Vec<char>>, index: usize, cells: &mut Vec<ParsedTableCell>) -> (r:
    bool)
    ensures
        !r ==> final(cells)@ == old(cells)@,
        r ==> final(cells)@.len() >= old(cells)@.len(),
        r,
        parsed_cells_view(final(cells)@) == parsed_cells_view(old(cells)@) + segment_cells(
            crate::text::views(segments@),
            index as int,
        ),
    decreases segments@.len() - index,
{
    let ghost segs = crate::text::views(segments@);
    if index >= segments.len() {
        assert(parsed_cells_view(cells@) == parsed_cells_view(cells@) + segment_cells(segs, index as int));
        return true;
    }
    if index + 1 < segments.len() {
        let spec = trim(&segments[index]);
        if spec.len() > 0 {
            match parse_table_cell_spec(&spec) {
                Some((colspan, rowspan, style)) => {
                    let ghost before = cells@;
                    cells.push(
                        ParsedTableCell { content: trim(&segments[index + 1]), colspan, rowspan, style },
                    );
                    assert(parsed_cells_view(cells@) == parsed_cells_view(before).push(
                        parsed_cell_view(cells@.last()),
                    ));
                    if parse_table_cells_from_segments(segments, index + 2, cells) {
                        return true;
                    }
                    cells.pop();
                    assert(cells@ =~= before);
                },
                None => {},
            }
        }
    }
    let ghost before = cells@;
    cells.push(plain_cell(&segments[index]));
    assert(parsed_cells_view(cells@) == parsed_cells_view(before).push(parsed_cell_view(cells@.last())));
    if parse_table_cells_from_segments(segments, index + 1, cells) {
        return true;
    }
    cells.pop();
    assert(cells@ =~= before);
    false
}

/// The cells on a row line that starts with a cell (a specifier, then the separator).
pub fn parse_table_cells_from_line(line: &[char], separator: char) -> (r: Option<Vec<ParsedTableCell>>)
    ensures
        r matches Some(v) ==> v@.len() >= 1,
        r is Some <==> line_cells(line@, separator) is Some,
        r matches Some(v) ==> parsed_cells_view(v@) == line_cells(line@, separator)->0,
{
    let trimmed = trim_start(line);
    let segments = split_table_row_cells_after_marker(&trimmed, separator);
    if segments.len() < 2 {
        return None;
    }
    let (colspan, rowspan, style) = match parse_table_cell_spec(&trim(&segments[0])) {
        Some(p) => p,
        None => return None,
    };
    let mut cells: Vec<ParsedTableCell> = Vec::new();
    cells.push(ParsedTableCell { content: trim(&segments[1]), colspan, rowspan, style });
    assert(parsed_cells_view(cells@) == seq![parsed_cell_view(cells@[0])]);
    if parse_table_cells_from_segments(&segments, 2, &mut cells) {
        Some(cells)
    } else {
        None
    }
}

/// The sum of the column spans of `cells`, each counted as at least one.
pub open spec fn spans_sum(cells: Seq<ParsedTableCell>) -> nat
    decreases cells.len(),
{
    if cells.len() == 0 {
        0
    } else {
        spans_sum(cells.drop_last()) + if cells.last().colspan > 1 {
            cells.last().colspan as nat
        } else {
            1nat
        }
    }
}

/// The width of a group of cells, staying at the largest `usize`.
pub open spec fn width_of(cells: Seq<ParsedTableCell>) -> nat {
    if spans_sum(cells) <= usize::MAX {
        spans_sum(cells)
    } else {
        usize::MAX as nat
    }
}

/// The width of a group of cells: each counts its column span, at least one.
pub fn group_width(group: &Vec<ParsedTableCell>) -> (r: usize)
    ensures
        r == (if spans_sum(group@) <= usize::MAX {
            spans_sum(group@)
        } else {
            usize::MAX as nat
        }),
        r == width_of(group@),
{
    let mut w: usize = 0;
    let mut i: usize = 0;
    while i < group.len()
        invariant
            i <= group@.len(),
            w == (if spans_sum(group@.subrange(0, i as int)) <= usize::MAX {
                spans_sum(group@.subrange(0, i as int))
            } else {
                usize::MAX as nat
            }),
        decreases group.len() - i,
    {
        assert(group@.subrange(0, i + 1).drop_last() =~= group@.subrange(0, i as int));
        let c = if group[i].colspan > 1 {
            group[i].colspan
        } else {
            1
        };
        w = if w > usize::MAX - c {
            usize::MAX
        } else {
            w + c
        };
        i += 1;
    }
    assert(group@.subrange(0, group@.len() as int) =~= group@);
    w
}

/// With a known column count, a group that fills a row exactly becomes a row group.
pub fn maybe_finish_table_row_group(
    row_groups: &mut Vec<Vec<ParsedTableCell>>,
    current_group: &mut Vec<ParsedTableCell>,
    expected_columns: Option<usize>,
)
    ensures
        final(row_groups)@.len() >= old(row_groups)@.len(),
        final(current_group)@.len() == 0 || final(current_group)@ == old(current_group)@,
        ({
            let fills = expected_columns matches Some(c) && c > 0 && old(current_group)@.len() > 0
                && width_of(old(current_group)@) == c;
            &&& fills ==> final(row_groups)@ == old(row_groups)@.push(*old(current_group))
                && final(current_group)@.len() == 0
            &&& !fills ==> final(row_groups)@ == old(row_groups)@ && final(current_group)@ == old(
                current_group,
            )@
        }),
{
    let column_count = match expected_columns {
        Some(c) => c,
        None => return,
    };
    if column_count == 0 || current_group.len() == 0 {
        return;
    }
    if group_width(current_group) == column_count {
        let mut done: Vec<ParsedTableCell> = Vec::new();
        std::mem::swap(&mut done, current_group);
        row_groups.push(done);
    }
}

/// Moves the cell being read, if any, to the current group.
fn close_cell(current_cell: &mut Option<ParsedTableCell>, current_group: &mut Vec<ParsedTableCell>)
    ensures
        *final(current_cell) is None,
        final(current_group)@ == match *old(current_cell) {
            Some(c) => old(current_group)@.push(c),
            None => old(current_group)@,
        },
{
    match current_cell.take() {
        Some(cell) => current_group.push(cell),
        None => {},
    }
}

/// Moves the current group, if it has cells, to the row groups.
fn close_group(row_groups: &mut Vec<Vec<ParsedTableCell>>, current_group: &mut Vec<ParsedTableCell>)
    ensures
        final(current_group)@.len() == 0,
        final(row_groups)@ == if old(current_group)@.len() > 0 {
            old(row_groups)@.push(*old(current_group))
        } else {
            old(row_groups)@
        },
{
    if current_group.len() > 0 {
        let mut done: Vec<ParsedTableCell> = Vec::new();
        std::mem::swap(&mut done, current_group);
        row_groups.push(done);
    }
}

/// The rows of a pipe-separated table whose opening delimiter is at `index`, up
/// to its closing delimiter. Returns the row groups and the lines taken.
/// A closing line found from `i` stands at or after `i`.
proof fn lemma_closing_after(lines: Seq<Vec<char>>, i: int, d: Seq<char>)
    requires
        closing_line(lines, i, d) >= 0,
    ensures
        closing_line(lines, i, d) >= i,
        closing_line(lines, i, d) < lines.len(),
    decreases lines.len() - i,
{
    if 0 <= i < lines.len() && crate::text::trim_spec(lines[i]@) != d {
        lemma_closing_after(lines, i + 1, d);
    }
}

/// A line of a pipe-separated table that starts a cell, and whose cells read.
pub open spec fn cell_line_ok(line: Seq<char>, sep: char) -> bool {
    let t = crate::text::trim_start_spec(crate::text::trim_spec(line));
    let at = crate::text::first_pos(t, sep);
    at >= 0 && cell_spec_spec(crate::text::trim_spec(t.subrange(0, at))) is Some && line_cells(line, sep) is Some
}

/// A pipe-separated table at `index` that reads: a closing delimiter follows,
/// and every line before it is blank or a row line whose cells read.
pub open spec fn psv_table_ok(lines: Seq<Vec<char>>, index: int, delimiter: Seq<char>, sep: char) -> bool {
    let c = closing_line(lines, index + 1, delimiter);
    c >= 0 && forall|k: int|
        index < k < c ==> crate::text::trim_spec(#[trigger] lines[k]@).len() == 0 || cell_line_ok(lines[k]@, sep)
}

pub fn parse_psv_table_rows(
    lines: &[Vec<char>],
    index: usize,
    delimiter: &[char],
    separator: char,
    expected_columns: Option<usize>,
) -> (r: Option<(Vec<Vec<ParsedTableCell>>, usize)>)
    requires
        index < lines@.len(),
    ensures
        r matches Some(p) ==> 2 <= p.1 && index + p.1 <= lines@.len(),
        r matches Some(p) ==> index + p.1 - 1 == closing_line(lines@, index + 1, delimiter@),
        psv_table_ok(lines@, index as int, delimiter@, separator) ==> r is Some,
{
    let ghost ok = psv_table_ok(lines@, index as int, delimiter@, separator);
    let ghost c = closing_line(lines@, index + 1, delimiter@);
    proof {
        if ok {
            lemma_closing_after(lines@, index + 1, delimiter@);
        }
    }
    let n = lines.len();
    let mut row_groups: Vec<Vec<ParsedTableCell>> = Vec::new();
    let mut current_group: Vec<ParsedTableCell> = Vec::new();
    let mut current_cell: Option<ParsedTableCell> = None;
    let mut consumed: usize = 1;
    let mut closed = false;
    while index + consumed < n
        invariant_except_break
            !closed,
        invariant
            n == lines@.len(),
            index < n,
            1 <= consumed,
            index + consumed <= n,
            closed ==> 2 <= consumed,
            !closed ==> closing_line(lines@, index + 1, delimiter@) == closing_line(
                lines@,
                index + consumed,
                delimiter@,
            ),
            closed ==> index + consumed - 1 == closing_line(lines@, index + 1, delimiter@),
            ok == psv_table_ok(lines@, index as int, delimiter@, separator),
            c == closing_line(lines@, index + 1, delimiter@),
            ok ==> index < c < n,
            ok && !closed ==> index + consumed <= c,
        ensures
            ok ==> closed,
            closed ==> 2 <= consumed && index + consumed <= n && index + consumed - 1 == closing_line(
                lines@,
                index + 1,
                delimiter@,
            ),
        decreases n - index - consumed,
    {
        let line = &lines[index + consumed];
        let trimmed = trim(line);
        proof {
            if ok {
                lemma_closing_after(lines@, (index + consumed) as int, delimiter@);
            }
        }
        if chars_eq(&trimmed, delimiter) {
            close_cell(&mut current_cell, &mut current_group);
            close_group(&mut row_groups, &mut current_group);
            consumed += 1;
            closed = true;
            break;
        }
        proof {
            if ok {
                let k = (index + consumed) as int;
                assert(crate::text::trim_spec(lines@[k]@) != delimiter@);
                lemma_closing_after(lines@, k + 1, delimiter@);
                assert(k < c);
                assert(crate::text::trim_spec(lines@[k]@).len() == 0 || cell_line_ok(lines@[k]@, separator));
            }
        }
        if trimmed.len() == 0 {
            let next = next_nonempty_table_line(lines, index + consumed + 1);
            let starts_cell = match next {
                Some(i) => starts_table_cell_line(&lines[i], separator),
                None => false,
            };
            if starts_cell {
                close_cell(&mut current_cell, &mut current_group);
                close_group(&mut row_groups, &mut current_group);
            } else {
                match &mut current_cell {
                    Some(cell) => {
                        if cell.content.len() > 0 {
                            cell.content.push('\n');
                        }
                        cell.content.push('\n');
                    },
                    None => {},
                }
            }
            consumed += 1;
            continue;
        }
        if starts_table_cell_line(&trimmed, separator) {
            let had_cells_in_group = current_group.len() > 0;
            match current_cell.take() {
                Some(cell) => {
                    current_group.push(cell);
                    maybe_finish_table_row_group(&mut row_groups, &mut current_group, expected_columns);
                    if expected_columns.is_none() && had_cells_in_group && current_group.len() > 0 {
                        close_group(&mut row_groups, &mut current_group);
                    }
                },
                None => {},
            }
            let cells = match parse_table_cells_from_line(line, separator) {
                Some(c) => c,
                None => return None,
            };
            let mut cells = cells;
            let last = cells.pop().unwrap();
            let mut k: usize = 0;
            while k < cells.len()
                invariant
                    k <= cells@.len(),
                decreases cells.len() - k,
            {
                let cell = ParsedTableCell {
                    content: copy(&cells[k].content),
                    colspan: cells[k].colspan,
                    rowspan: cells[k].rowspan,
                    style: crate::text::copy_opt(&cells[k].style),
                };
                current_group.push(cell);
                maybe_finish_table_row_group(&mut row_groups, &mut current_group, expected_columns);
                k += 1;
            }
            current_cell = Some(last);
        } else {
            match &mut current_cell {
                Some(cell) => {
                    if cell.content.len() > 0 {
                        cell.content.push('\n');
                    }
                    append(&mut cell.content, line);
                },
                None => return None,
            }
        }
        consumed += 1;
    }
    if closed {
        Some((row_groups, consumed))
    } else {
        None
    }
}

/// The first line at or after `from` that, trimmed, is the delimiter; -1 when
/// there is none.
pub open spec fn closing_line(lines: Seq<Vec<char>>, from: int, delimiter: Seq<char>) -> int
    decreases lines.len() - from,
{
    if from < 0 || from >= lines.len() {
        -1
    } else if crate::text::trim_spec(lines[from]@) == delimiter {
        from
    } else {
        closing_line(lines, from + 1, delimiter)
    }
}

/// The text of a separated-value table: its lines between the delimiters,
/// joined by newlines.
pub open spec fn separated_content(lines: Seq<Vec<char>>, index: int, closing: int) -> Seq<char> {
    crate::text::join_spec(crate::text::views(lines.subrange(index + 1, closing)), "\n"@)
}

/// The rows of a comma- or delimiter-separated table, read with the csv reader
/// from the lines between the delimiters joined by newlines.
pub fn parse_separated_value_table_rows(
    lines: &[Vec<char>],
    index: usize,
    delimiter: &[char],
    separator: char,
) -> (r: Option<(Vec<Vec<ParsedTableCell>>, usize)>)
    requires
        index < lines@.len(),
    ensures
        r matches Some(p) ==> 2 <= p.1 && index + p.1 <= lines@.len(),
        ({
            let closing = closing_line(lines@, index + 1, delimiter@);
            &&& r is Some <==> closing >= 0 && csv_records(
                separated_content(lines@, index as int, closing),
                separator,
            ) is Some
            &&& r matches Some(p) ==> p.1 == closing - index + 1 && ({
                let recs = csv_records(separated_content(lines@, index as int, closing), separator)->0;
                &&& p.0@.len() == recs.len()
                &&& forall|i: int|
                    0 <= i < recs.len() ==> (#[trigger] p.0@[i])@.len() == recs[i].len() && forall|j: int|
                        0 <= j < recs[i].len() ==> (#[trigger] p.0@[i]@[j]).content@ == recs[i][j]
                            && p.0@[i]@[j].colspan == 1 && p.0@[i]@[j].rowspan == 1 && p.0@[i]@[j].style is None
            })
        }),
{
    let n = lines.len();
    let mut closing = index + 1;
    while closing < n && !chars_eq(&trim(&lines[closing]), delimiter)
        invariant
            n == lines@.len(),
            index < closing <= n,
            closing_line(lines@, index + 1, delimiter@) == closing_line(lines@, closing as int, delimiter@),
        decreases n - closing,
    {
        closing += 1;
    }
    if closing >= n {
        return None;
    }
    let consumed = closing - index + 1;
    let inner = vstd::slice::slice_subrange(lines, index + 1, closing);
    let content = to_string(&join_str(inner, "\n"));
    match read_csv_records(&content, separator) {
        Some(records) => Some((rows_from_records(&records), consumed)),
        None => None,
    }
}

/// The `format` attribute of a table's metadata, trimmed and lower-cased.
pub open spec fn format_attribute(metadata: Option<&BlockMetadata>) -> Option<Seq<char>> {
    match metadata {
        Some(m) => if m.attributes@.contains_key("format"@) {
            Some(crate::text::lower_seq(crate::text::trim_spec(m.attributes@["format"@])))
        } else {
            None
        },
        None => None,
    }
}

/// The format a table is read in, given its `format` attribute (trimmed and
/// lower-cased) and the first character of its delimiter.
pub open spec fn table_format_spec(format: Option<Seq<char>>, delimiter_char: char) -> TableFormat {
    if format == Some("csv"@) {
        TableFormat::Csv
    } else if format == Some("dsv"@) {
        TableFormat::Dsv
    } else if delimiter_char == ',' {
        TableFormat::Csv
    } else if delimiter_char == ':' {
        TableFormat::Dsv
    } else {
        TableFormat::Psv
    }
}

/// A `format` attribute of `csv` or `dsv` decides how a table is read, whatever its
/// delimiter; without one, the delimiter decides: `,===` reads comma-separated
/// values, `:===` delimiter-separated values, and any other prefix-separated values.
pub proof fn law_format_attribute_decides_the_table_format(format: Option<Seq<char>>, delimiter_char: char)
    ensures
        format == Some("csv"@) ==> table_format_spec(format, delimiter_char) == TableFormat::Csv,
        format == Some("dsv"@) ==> table_format_spec(format, delimiter_char) == TableFormat::Dsv,
        format != Some("csv"@) && format != Some("dsv"@) ==> (table_format_spec(format, delimiter_char)
            == TableFormat::Csv <==> delimiter_char == ','),
        format != Some("csv"@) && format != Some("dsv"@) ==> (table_format_spec(format, delimiter_char)
            == TableFormat::Dsv <==> delimiter_char == ':'),
{
    reveal_strlit("csv");
    reveal_strlit("dsv");
    assert("csv"@ != "dsv"@) by {
        assert("csv"@[0] != "dsv"@[0]);
    }
}

/// The table format from a `format` attribute (`csv`, `dsv`), else from the delimiter.
pub fn table_format(metadata: Option<&BlockMetadata>, delimiter_char: char) -> (r: TableFormat)
    ensures
        metadata is None ==> r == (if delimiter_char == ',' {
            TableFormat::Csv
        } else if delimiter_char == ':' {
            TableFormat::Dsv
        } else {
            TableFormat::Psv
        }),
        r == table_format_spec(format_attribute(metadata), delimiter_char),
{
    match metadata {
        Some(m) => match m.attributes.get("format") {
            Some(f) => {
                let lower = to_ascii_lowercase(&trim(&string_chars(f)));
                if eq_str(&lower, "csv") {
                    return TableFormat::Csv;
                }
                if eq_str(&lower, "dsv") {
                    return TableFormat::Dsv;
                }
            },
            None => {},
        },
        None => {},
    }
    if delimiter_char == ',' {
        TableFormat::Csv
    } else if delimiter_char == ':' {
        TableFormat::Dsv
    } else {
        TableFormat::Psv
    }
}

/// `\t` means a tab; any other value must be a single character.
pub fn parse_table_separator_attribute(value: &[char]) -> (r: Option<char>)
    ensures
        value@ == "\\t"@ ==> r == Some('\t'),
        value@ != "\\t"@ ==> (r is Some <==> value@.len() == 1),
        value@ != "\\t"@ && value@.len() == 1 ==> r == Some(value@[0]),
{
    if eq_str(value, "\\t") {
        return Some('\t');
    }
    if value.len() == 1 {
        Some(value[0])
    } else {
        None
    }
}

/// The cell separator: a `separator` attribute, else the format's own.
pub fn table_separator(metadata: Option<&BlockMetadata>, format: TableFormat, delimiter_char: char) -> (r: char)
    ensures
        (metadata is None || !metadata->0.attributes@.contains_key("separator"@)) ==> r == (match format {
            TableFormat::Csv => ',',
            TableFormat::Dsv => ':',
            TableFormat::Psv => if delimiter_char == '!' {
                '!'
            } else {
                '|'
            },
        }),
{
    match metadata {
        Some(m) => match m.attributes.get("separator") {
            Some(s) => {
                let sc = string_chars(s);
                match parse_table_separator_attribute(&sc) {
                    Some(c) => return c,
                    None => {},
                }
            },
            None => {},
        },
        None => {},
    }
    match format {
        TableFormat::Csv => ',',
        TableFormat::Dsv => ':',
        TableFormat::Psv => if delimiter_char == '!' {
            '!'
        } else {
            '|'
        },
    }
}

/// Whether the table asks for a header row: a `header` option, `header` in the
/// `options` attribute, or a `header-option` attribute.
/// The table asks for a header row: `header` among its options, among the
/// comma-separated entries of its `options` attribute, or a `header-option`
/// attribute.
pub open spec fn header_option_spec(metadata: BlockMetadata) -> bool {
    let attrs = metadata.attributes@;
    ||| exists|k: int| 0 <= k < metadata.options@.len() && (#[trigger] metadata.options@[k])@ == "header"@
    ||| (attrs.contains_key("options"@) && exists|k: int|
        0 <= k < crate::text::split_spec(attrs["options"@], ',').len() && crate::text::trim_spec(
            #[trigger] crate::text::split_spec(attrs["options"@], ',')[k],
        ) == "header"@)
    ||| attrs.contains_key("header-option"@)
}

pub fn table_has_header_option(metadata: &BlockMetadata) -> (r: bool)
    ensures
        metadata.attributes@.contains_key("header-option"@) ==> r,
        r == header_option_spec(*metadata),
{
    let header = crate::text::to_chars("header");
    if contains_string(&metadata.options, &header) {
        return true;
    }
    match metadata.attributes.get("options") {
        Some(opts) => {
            let parts = split_char(&string_chars(opts), ',');
            let ghost ps = crate::text::split_spec(metadata.attributes@["options"@], ',');
            let mut i: usize = 0;
            while i < parts.len()
                invariant
                    i <= parts@.len(),
                    crate::text::views(parts@) == ps,
                    ps == crate::text::split_spec(metadata.attributes@["options"@], ','),
                    metadata.attributes@.contains_key("options"@),
                    forall|k: int| 0 <= k < i ==> crate::text::trim_spec(#[trigger] ps[k]) != "header"@,
                decreases parts.len() - i,
            {
                assert(ps[i as int] == parts@[i as int]@);
                if eq_str(&trim(&parts[i]), "header") {
                    assert(crate::text::trim_spec(ps[i as int]) == "header"@);
                    return true;
                }
                i += 1;
            }
        },
        None => {},
    }
    metadata.attributes.contains_key("header-option")
}

/// The column count from the `cols` attribute: the number of comma-separated
/// parts, when one of them is not blank.
/// The column count a `cols` attribute gives: the number of its comma-separated
/// parts, when one of them is not blank.
pub open spec fn column_count_spec(attrs: Map<Seq<char>, Seq<char>>) -> Option<nat> {
    let parts = crate::text::split_spec(attrs["cols"@], ',');
    if attrs.contains_key("cols"@) && exists|k: int|
        0 <= k < parts.len() && crate::text::trim_spec(#[trigger] parts[k]).len() > 0 {
        Some(parts.len())
    } else {
        None
    }
}

pub fn table_column_count(metadata: &BlockMetadata) -> (r: Option<usize>)
    ensures
        !metadata.attributes@.contains_key("cols"@) ==> r is None,
        r matches Some(c) ==> c >= 1,
        r is Some <==> column_count_spec(metadata.attributes@) is Some,
        r matches Some(c) ==> column_count_spec(metadata.attributes@) == Some(c as nat),
{
    let cols = match metadata.attributes.get("cols") {
        Some(c) => string_chars(c),
        None => return None,
    };
    let parts = split_char(&cols, ',');
    let ghost ps = crate::text::split_spec(metadata.attributes@["cols"@], ',');
    let mut i: usize = 0;
    while i < parts.len()
        invariant
            i <= parts@.len(),
            metadata.attributes@.contains_key("cols"@),
            parts@.len() >= 1,
            crate::text::views(parts@) == ps,
            ps == crate::text::split_spec(metadata.attributes@["cols"@], ','),
            forall|k: int| 0 <= k < i ==> crate::text::trim_spec(#[trigger] ps[k]).len() == 0,
        decreases parts.len() - i,
    {
        assert(ps[i as int] == parts@[i as int]@);
        if trim(&parts[i]).len() > 0 {
            assert(crate::text::trim_spec(ps[i as int]).len() > 0);
            assert(parts@.len() == ps.len());
            return Some(parts.len());
        }
        i += 1;
    }
    None
}

/// A table block whose opening delimiter is at `index`, with the lines it takes.
/// A table delimiter line: trimmed, `|`, `,`, `:` or `!` and then three or more `=`.
pub open spec fn table_delimiter_line(line: Seq<char>) -> bool {
    let t = crate::text::trim_spec(line);
    t.len() >= 4 && (t[0] == '|' || t[0] == ',' || t[0] == ':' || t[0] == '!') && forall|k: int|
        1 <= k < t.len() ==> t[k] == '='
}

pub fn parse_table(lines: &[Vec<char>], index: usize, pending_prelude: Option<&BlockPrelude>, fuel: usize) -> (r:
    Option<(TableBlock, usize)>)
    ensures
        r matches Some(p) ==> 2 <= p.1 && index + p.1 <= lines@.len(),
        r is Some ==> index < lines@.len() && table_delimiter_line(lines@[index as int]@),
        r matches Some(p) ==> index + p.1 - 1 == closing_line(
            lines@,
            index + 1,
            crate::text::trim_spec(lines@[index as int]@),
        ),
        r matches Some(p) ==> (p.0.header is Some ==> (pending_prelude matches Some(pp) && header_option_spec(
            pp.metadata,
        ))),
        ({
            let t = crate::text::trim_spec(lines@[index as int]@);
            let c = closing_line(lines@, index + 1, t);
            pending_prelude is None && fuel > 0 && index < lines@.len() && table_delimiter_line(
                lines@[index as int]@,
            ) && t[0] == ',' && c >= 0 && (csv_records(separated_content(lines@, index as int, c), ',') matches Some(
                recs,
            ) && recs.len() > 0) ==> r is Some
        }),
    decreases fuel, 9usize,
{
    if index >= lines.len() {
        return None;
    }
    let (delimiter, delimiter_char) = match parse_table_delimiter(&lines[index]) {
        Some(p) => p,
        None => return None,
    };
    let metadata: Option<&BlockMetadata> = match pending_prelude {
        Some(p) => Some(&p.metadata),
        None => None,
    };
    let header_enabled = match metadata {
        Some(m) => table_has_header_option(m),
        None => false,
    };
    let expected_columns = match metadata {
        Some(m) => table_column_count(m),
        None => None,
    };
    let format = table_format(metadata, delimiter_char);
    let separator = table_separator(metadata, format, delimiter_char);
    let (row_groups, consumed) = match format {
        TableFormat::Psv => match parse_psv_table_rows(lines, index, &delimiter, separator, expected_columns) {
            Some(p) => p,
            None => return None,
        },
        _ => match parse_separated_value_table_rows(lines, index, &delimiter, separator) {
            Some(p) => p,
            None => return None,
        },
    };
    if row_groups.len() == 0 {
        return None;
    }
    if fuel == 0 {
        return None;
    }
    let rows = match expected_columns {
        Some(c) => assemble_table_rows_with_known_columns(&row_groups, c, fuel - 1),
        None => assemble_table_rows_without_known_columns(&row_groups, fuel - 1),
    };
    let mut rows = match rows {
        Some(r) => r,
        None => return None,
    };
    let header = if header_enabled && rows.len() > 0 {
        Some(rows.remove(0))
    } else {
        None
    };
    Some((TableBlock { header, rows, reftext: None, metadata: BlockMetadata::new() }, consumed))
}

/// The cells of a group built into a row.
fn build_row(group: &Vec<ParsedTableCell>, fuel: usize) -> (r: TableRow)
    ensures
        r.cells@.len() == group@.len(),
    decreases fuel, 6usize,
{
    let mut cells: Vec<TableCell> = Vec::new();
    let mut i: usize = 0;
    while i < group.len()
        invariant
            i <= group@.len(),
            cells@.len() == i,
        decreases group.len() - i,
    {
        cells.push(build_table_cell(&group[i], fuel));
        i += 1;
    }
    TableRow { cells }
}

/// Rows for a known column count. A single group is cut into rows by width;
/// several groups are checked against the row and column spans.
/// No cell of the groups spans more than one column or row.
pub open spec fn no_spans(groups: Seq<Vec<ParsedTableCell>>) -> bool {
    forall|g: int, k: int|
        0 <= g < groups.len() && 0 <= k < groups[g]@.len() ==> (#[trigger] groups[g]@[k]).colspan <= 1
            && groups[g]@[k].rowspan <= 1
}

/// Every group has at most `columns` cells.
pub open spec fn groups_fit(groups: Seq<Vec<ParsedTableCell>>, columns: nat) -> bool {
    forall|g: int| 0 <= g < groups.len() ==> (#[trigger] groups[g])@.len() <= columns
}

pub fn assemble_table_rows_with_known_columns(row_groups: &Vec<Vec<ParsedTableCell>>, column_count: usize, fuel: usize) -> (r:
    Option<Vec<TableRow>>)
    ensures
        column_count == 0 ==> r is None,
        column_count > 0 && row_groups@.len() <= 1 ==> r is Some,
        column_count > 0 && no_spans(row_groups@) && groups_fit(row_groups@, column_count as nat) ==> r is Some,
        row_groups@.len() > 1 ==> (r matches Some(rows) ==> rows@.len() == row_groups@.len()),
    decreases fuel, 8usize,
{
    if column_count == 0 {
        return None;
    }
    if row_groups.len() > 1 {
        return assemble_explicit_table_rows_with_known_columns(row_groups, column_count, fuel);
    }
    let mut rows: Vec<TableRow> = Vec::new();
    let mut current_row: Vec<TableCell> = Vec::new();
    let mut current_width: usize = 0;
    let mut g: usize = 0;
    while g < row_groups.len()
        invariant
            g <= row_groups@.len(),
        decreases row_groups.len() - g,
    {
        let group = &row_groups[g];
        let mut i: usize = 0;
        while i < group.len()
            invariant
                i <= group@.len(),
            decreases group.len() - i,
        {
            let c = if group[i].colspan > 1 {
                group[i].colspan
            } else {
                1
            };
            current_width = if current_width > usize::MAX - c {
                usize::MAX
            } else {
                current_width + c
            };
            current_row.push(build_table_cell(&group[i], fuel));
            if current_width == column_count {
                let mut done: Vec<TableCell> = Vec::new();
                std::mem::swap(&mut done, &mut current_row);
                rows.push(TableRow { cells: done });
                current_width = 0;
            }
            i += 1;
        }
        g += 1;
    }
    if current_row.len() > 0 {
        rows.push(TableRow { cells: current_row });
    }
    Some(rows)
}

/// One row per group, rejecting groups whose cells overflow the columns or run
/// into a cell spanning down from an earlier row.
pub fn assemble_explicit_table_rows_with_known_columns(
    row_groups: &Vec<Vec<ParsedTableCell>>,
    column_count: usize,
    fuel: usize,
) -> (r: Option<Vec<TableRow>>)
    ensures
        r matches Some(rows) ==> rows@.len() == row_groups@.len(),
        no_spans(row_groups@) && groups_fit(row_groups@, column_count as nat) ==> r is Some,
    decreases fuel, 7usize,
{
    let ghost fits = no_spans(row_groups@) && groups_fit(row_groups@, column_count as nat);
    let mut rows: Vec<TableRow> = Vec::new();
    let mut active: Vec<usize> = Vec::new();
    let mut z: usize = 0;
    while z < column_count
        invariant
            z <= column_count,
            active@.len() == z,
            forall|y: int| 0 <= y < z ==> active@[y] == 0,
        decreases column_count - z,
    {
        active.push(0);
        z += 1;
    }
    let mut g: usize = 0;
    while g < row_groups.len()
        invariant
            g <= row_groups@.len(),
            active@.len() == column_count,
            rows@.len() == g,
            fits == (no_spans(row_groups@) && groups_fit(row_groups@, column_count as nat)),
            fits ==> forall|y: int| 0 <= y < column_count ==> active@[y] == 0,
        decreases row_groups.len() - g,
    {
        let group = &row_groups[g];
        let mut next: Vec<usize> = Vec::new();
        let mut z: usize = 0;
        while z < column_count
            invariant
                z <= column_count,
                active@.len() == column_count,
                next@.len() == z,
                fits ==> forall|y: int| 0 <= y < column_count ==> active@[y] == 0,
                fits ==> forall|y: int| 0 <= y < z ==> next@[y] == 0,
            decreases column_count - z,
        {
            next.push(if active[z] > 0 {
                active[z] - 1
            } else {
                0
            });
            z += 1;
        }
        let mut col: usize = 0;
        let mut i: usize = 0;
        while i < group.len()
            invariant
                i <= group@.len(),
                active@.len() == column_count,
                next@.len() == column_count,
                col <= column_count,
                group == row_groups@[g as int],
                g < row_groups@.len(),
                fits == (no_spans(row_groups@) && groups_fit(row_groups@, column_count as nat)),
                fits ==> forall|y: int| 0 <= y < column_count ==> active@[y] == 0,
                fits ==> forall|y: int| 0 <= y < column_count ==> next@[y] == 0,
                fits ==> col == i,
            decreases group.len() - i,
        {
            proof {
                if fits {
                    assert(row_groups@[g as int]@.len() <= column_count);
                    assert(group@[i as int].colspan <= 1 && group@[i as int].rowspan <= 1);
                    assert(i < column_count);
                }
            }
            while col < column_count && active[col] > 0
                invariant
                    col <= column_count,
                    active@.len() == column_count,
                    fits ==> forall|y: int| 0 <= y < column_count ==> active@[y] == 0,
                    fits ==> col == i && i < column_count,
                    fits == (no_spans(row_groups@) && groups_fit(row_groups@, column_count as nat)),
                decreases column_count - col,
            {
                col += 1;
            }
            if col >= column_count {
                return None;
            }
            let colspan = if group[i].colspan > 1 {
                group[i].colspan
            } else {
                1
            };
            let rowspan = if group[i].rowspan > 1 {
                group[i].rowspan
            } else {
                1
            };
            if colspan > column_count - col {
                return None;
            }
            let mut k = col;
            while k < col + colspan
                invariant
                    col <= k <= col + colspan <= column_count,
                    active@.len() == column_count,
                    fits ==> forall|y: int| 0 <= y < column_count ==> active@[y] == 0,
                    fits ==> col == i && colspan == 1,
                    fits == (no_spans(row_groups@) && groups_fit(row_groups@, column_count as nat)),
                decreases col + colspan - k,
            {
                if active[k] > 0 {
                    return None;
                }
                k += 1;
            }
            if rowspan > 1 {
                let extra = rowspan - 1;
                let mut k = col;
                while k < col + colspan
                    invariant
                        col <= k <= col + colspan <= column_count,
                        next@.len() == column_count,
                    decreases col + colspan - k,
                {
                    if next[k] < extra {
                        next.set(k, extra);
                    }
                    k += 1;
                }
            }
            col += colspan;
            i += 1;
        }
        rows.push(build_row(group, fuel));
        active = next;
        g += 1;
    }
    Some(rows)
}

/// Rows without a known column count: one row per group, unless a cell spans,
/// in which case the widest group sets the column count.
pub fn assemble_table_rows_without_known_columns(row_groups: &Vec<Vec<ParsedTableCell>>, fuel: usize) -> (r: Option<
    Vec<TableRow>,
>)
    ensures
        row_groups@.len() == 0 ==> r is None,
        row_groups@.len() > 0 && no_spans(row_groups@) ==> (r matches Some(rows) && rows@.len() == row_groups@.len()),
    decreases fuel, 8usize,
{
    if row_groups.len() == 0 {
        return None;
    }
    let mut spans = false;
    let mut widest: usize = 0;
    let mut g: usize = 0;
    while g < row_groups.len()
        invariant
            g <= row_groups@.len(),
            no_spans(row_groups@) ==> !spans,
        decreases row_groups.len() - g,
    {
        let group = &row_groups[g];
        let mut i: usize = 0;
        while i < group.len()
            invariant
                i <= group@.len(),
                group == row_groups@[g as int],
                g < row_groups@.len(),
                no_spans(row_groups@) ==> !spans,
            decreases group.len() - i,
        {
            proof {
                if no_spans(row_groups@) {
                    assert(group@[i as int].colspan <= 1 && group@[i as int].rowspan <= 1);
                }
            }
            if group[i].colspan > 1 || group[i].rowspan > 1 {
                spans = true;
            }
            i += 1;
        }
        let w = group_width(group);
        if w > widest {
            widest = w;
        }
        g += 1;
    }
    if spans {
        return assemble_explicit_table_rows_with_known_columns(row_groups, widest, fuel);
    }
    let mut rows: Vec<TableRow> = Vec::new();
    let mut g: usize = 0;
    while g < row_groups.len()
        invariant
            g <= row_groups@.len(),
            rows@.len() == g,
        decreases row_groups.len() - g,
    {
        rows.push(build_row(&row_groups[g], fuel));
        g += 1;
    }
    Some(rows)
}

/// A cell line as cell content keeps it: empty when it holds only `+`.
pub open spec fn cell_line_spec(l: Seq<char>) -> Seq<char> {
    if crate::text::trim_spec(l) == "+"@ {
        Seq::empty()
    } else {
        l
    }
}

/// A line holding only `+` becomes empty.
pub fn normalize_table_cell_content(content: &[char]) -> (r: Vec<char>)
    ensures
        r@ == crate::text::join_spec(
            crate::text::lines_spec(content@).map_values(|l: Seq<char>| cell_line_spec(l)),
            "\n"@,
        ),
{
    let ls = lines(content);
    let mut out: Vec<Vec<char>> = Vec::new();
    let mut i: usize = 0;
    while i < ls.len()
        invariant
            i <= ls@.len(),
            out@.len() == i,
            forall|k: int| 0 <= k < i ==> (#[trigger] out@[k])@ == cell_line_spec(ls@[k]@),
        decreases ls.len() - i,
    {
        if eq_str(&trim(&ls[i]), "+") {
            out.push(Vec::new());
        } else {
            out.push(copy(&ls[i]));
        }
        i += 1;
    }
    assert(crate::text::views(out@) =~= crate::text::lines_spec(content@).map_values(
        |l: Seq<char>| cell_line_spec(l),
    ));
    join_str(&out, "\n")
}

/// A table cell: its content parsed as blocks; a cell holding one paragraph also
/// keeps that paragraph's inlines.
pub fn build_table_cell(cell: &ParsedTableCell, fuel: usize) -> (r: TableCell)
    ensures
        r.colspan == (if cell.colspan > 1 {
            cell.colspan
        } else {
            1
        }),
        r.rowspan == (if cell.rowspan > 1 {
            cell.rowspan
        } else {
            1
        }),
    decreases fuel, 5usize,
{
    let normalized = normalize_table_cell_content(&cell.content);
    let ls = lines(&normalized);
    let blocks = if ls.len() == 0 || fuel == 0 {
        Vec::new()
    } else {
        let mut title = None;
        let mut scratch = AttributeMap::new();
        parse_blocks_from_lines(&ls, &mut title, false, &mut scratch, false, fuel - 1)
    };
    let inlines = if blocks.len() == 1 {
        match &blocks[0] {
            Block::Paragraph(p) => {
                let mut cs: Vec<Vec<char>> = Vec::new();
                let mut k: usize = 0;
                while k < p.lines.len()
                    invariant
                        k <= p.lines@.len(),
                    decreases p.lines.len() - k,
                {
                    cs.push(string_chars(&p.lines[k]));
                    k += 1;
                }
                crate::inline::parse_inline_chars(&join_str(&cs, "\n"))
            },
            _ => Vec::new(),
        }
    } else {
        Vec::new()
    };
    TableCell {
        content: blocks_plain_text(&blocks),
        inlines,
        blocks,
        colspan: if cell.colspan > 1 {
            cell.colspan
        } else {
            1
        },
        rowspan: if cell.rowspan > 1 {
            cell.rowspan
        } else {
            1
        },
        style: crate::text::copy_opt(&cell.style),
    }
}

/// The non-empty plain texts of `bs`, in order.
pub open spec fn nonempty_block_texts(bs: Seq<Block>) -> Seq<Seq<char>>
    decreases bs, 1int,
{
    if bs.len() == 0 {
        Seq::empty()
    } else {
        let t = nonempty_block_texts(bs.subrange(0, bs.len() - 1));
        let x = block_text(bs[bs.len() - 1]);
        if x.len() > 0 {
            t.push(x)
        } else {
            t
        }
    }
}

/// The plain text of blocks: each block's non-empty text, joined by newlines.
pub open spec fn blocks_text(bs: Seq<Block>) -> Seq<char>
    decreases bs, 2int,
{
    crate::text::join_spec(nonempty_block_texts(bs), "\n"@)
}

/// The plain texts of the items of a list.
pub open spec fn item_texts(items: Seq<crate::ast::ListItem>) -> Seq<Seq<char>>
    decreases items, 1int,
{
    if items.len() == 0 {
        Seq::empty()
    } else {
        item_texts(items.subrange(0, items.len() - 1)).push(blocks_text(items[items.len() - 1].blocks@))
    }
}

/// The terms of a description list item, each followed by a newline.
pub open spec fn terms_text(terms: Seq<crate::ast::DescriptionListTerm>) -> Seq<char>
    decreases terms.len(),
{
    if terms.len() == 0 {
        Seq::empty()
    } else {
        terms_text(terms.drop_last()) + terms.last().text@ + seq!['\n']
    }
}

/// The plain texts of description list items: the terms, then the description.
pub open spec fn description_texts(items: Seq<crate::ast::DescriptionListItem>) -> Seq<Seq<char>>
    decreases items, 1int,
{
    if items.len() == 0 {
        Seq::empty()
    } else {
        let item = items[items.len() - 1];
        description_texts(items.subrange(0, items.len() - 1)).push(
            terms_text(item.terms@) + match item.description {
                Some(d) => blocks_text(d.blocks@),
                None => Seq::empty(),
            },
        )
    }
}

/// The contents of the cells of `rows`, row by row.
pub open spec fn cell_contents(rows: Seq<TableRow>) -> Seq<Seq<char>>
    decreases rows.len(),
{
    if rows.len() == 0 {
        Seq::empty()
    } else {
        cell_contents(rows.drop_last()) + rows.last().cells@.map_values(|c: TableCell| c.content@)
    }
}

/// The plain text of one block: a paragraph's text, the texts of nested blocks and
/// list items, the cell contents of a table, the lines of a listing, a quote's
/// content, a passthrough's content, an image's alt text, a heading's title.
pub open spec fn block_text(b: Block) -> Seq<char>
    decreases b, 3int,
{
    match b {
        Block::Paragraph(p) => crate::ast::inlines_text(p.inlines@),
        Block::Admonition(a) => blocks_text(a.blocks@),
        Block::UnorderedList(l) => crate::text::join_spec(item_texts(l.items@), "\n"@),
        Block::OrderedList(l) => crate::text::join_spec(item_texts(l.items@), "\n"@),
        Block::Table(t) => crate::text::join_spec(cell_contents(t.rows@), "\n"@),
        Block::Listing(l) => crate::text::join_spec(l.lines@.map_values(|x: String| x@), "\n"@),
        Block::Literal(l) => crate::text::join_spec(l.lines@.map_values(|x: String| x@), "\n"@),
        Block::Example(c) => blocks_text(c.blocks@),
        Block::Sidebar(c) => blocks_text(c.blocks@),
        Block::Open(c) => blocks_text(c.blocks@),
        Block::Quote(q) => match q.content {
            Some(c) => c@,
            None => blocks_text(q.blocks@),
        },
        Block::Passthrough(p) => p.content@,
        Block::Image(img) => img.alt@,
        Block::Heading(h) => h.title@,
        Block::Toc => Seq::empty(),
        Block::CalloutList(_) => Seq::empty(),
        Block::DescriptionList(list) => crate::text::join_spec(description_texts(list.items@), "\n"@),
    }
}

/// The plain text of blocks: each block's non-empty text, joined by newlines.
pub fn blocks_plain_text(blocks: &Vec<Block>) -> (r: String)
    ensures
        r@ == blocks_text(blocks@),
    decreases blocks,
{
    let mut parts: Vec<Vec<char>> = Vec::new();
    let mut i: usize = 0;
    while i < blocks.len()
        invariant
            i <= blocks@.len(),
            crate::text::views(parts@) == nonempty_block_texts(blocks@.subrange(0, i as int)),
        decreases blocks.len() - i,
    {
        let ghost p0 = parts@;
        let t = string_chars(&block_plain_text(&blocks[i]));
        proof {
            let b = blocks@.subrange(0, i + 1);
            assert(b.subrange(0, b.len() - 1) =~= blocks@.subrange(0, i as int));
            assert(b[b.len() - 1] == blocks@[i as int]);
        }
        if t.len() > 0 {
            parts.push(t);
            assert(crate::text::views(parts@) =~= crate::text::views(p0).push(t@));
        }
        i += 1;
    }
    assert(blocks@.subrange(0, blocks@.len() as int) =~= blocks@);
    to_string(&join_str(&parts, "\n"))
}

/// The plain text of the items of a list.
fn items_plain_text(items: &Vec<crate::ast::ListItem>) -> (r: String)
    ensures
        r@ == crate::text::join_spec(item_texts(items@), "\n"@),
    decreases items,
{
    let mut parts: Vec<Vec<char>> = Vec::new();
    let mut i: usize = 0;
    while i < items.len()
        invariant
            i <= items@.len(),
            crate::text::views(parts@) == item_texts(items@.subrange(0, i as int)),
        decreases items.len() - i,
    {
        let ghost p0 = parts@;
        let t = string_chars(&blocks_plain_text(&items[i].blocks));
        proof {
            let b = items@.subrange(0, i + 1);
            assert(b.subrange(0, b.len() - 1) =~= items@.subrange(0, i as int));
            assert(b[b.len() - 1] == items@[i as int]);
        }
        parts.push(t);
        assert(crate::text::views(parts@) =~= crate::text::views(p0).push(t@));
        i += 1;
    }
    assert(items@.subrange(0, items@.len() as int) =~= items@);
    to_string(&join_str(&parts, "\n"))
}

/// Each description list item's terms, one per line, then its description.
fn description_items_plain_text(items: &Vec<crate::ast::DescriptionListItem>) -> (r: String)
    ensures
        r@ == crate::text::join_spec(description_texts(items@), "\n"@),
    decreases items,
{
    let mut parts: Vec<Vec<char>> = Vec::new();
    let mut i: usize = 0;
    while i < items.len()
        invariant
            i <= items@.len(),
            crate::text::views(parts@) == description_texts(items@.subrange(0, i as int)),
        decreases items.len() - i,
    {
        let item = &items[i];
        let mut text: Vec<char> = Vec::new();
        let mut k: usize = 0;
        while k < item.terms.len()
            invariant
                k <= item.terms@.len(),
                text@ == terms_text(item.terms@.subrange(0, k as int)),
            decreases item.terms.len() - k,
        {
            assert(item.terms@.subrange(0, k + 1).drop_last() =~= item.terms@.subrange(0, k as int));
            append(&mut text, &string_chars(&item.terms[k].text));
            text.push('\n');
            k += 1;
        }
        assert(item.terms@.subrange(0, item.terms@.len() as int) =~= item.terms@);
        match &item.description {
            Some(d) => {
                proof {
                    assert(decreases_to!(items => items@[i as int]));
                    assert(decreases_to!(items@[i as int] => items@[i as int].description));
                    assert(decreases_to!(items@[i as int].description => d));
                }
                append(&mut text, &string_chars(&blocks_plain_text(&d.blocks)))
            },
            None => {},
        }
        let ghost p0 = parts@;
        proof {
            let b = items@.subrange(0, i + 1);
            assert(b.subrange(0, b.len() - 1) =~= items@.subrange(0, i as int));
            assert(b[b.len() - 1] == items@[i as int]);
        }
        let ghost tv = text@;
        parts.push(text);
        assert(crate::text::views(parts@) =~= crate::text::views(p0).push(tv));
        i += 1;
    }
    assert(items@.subrange(0, items@.len() as int) =~= items@);
    to_string(&join_str(&parts, "\n"))
}

/// The plain text of one block.
pub fn block_plain_text(block: &Block) -> (r: String)
    ensures
        r@ == block_text(*block),
    decreases block,
{
    match block {
        Block::Paragraph(p) => p.plain_text(),
        Block::Admonition(a) => blocks_plain_text(&a.blocks),
        Block::UnorderedList(l) => items_plain_text(&l.items),
        Block::OrderedList(l) => items_plain_text(&l.items),
        Block::Table(t) => {
            let mut parts: Vec<Vec<char>> = Vec::new();
            let mut i: usize = 0;
            while i < t.rows.len()
                invariant
                    i <= t.rows@.len(),
                    crate::text::views(parts@) == cell_contents(t.rows@.subrange(0, i as int)),
                decreases t.rows.len() - i,
            {
                let row = &t.rows[i];
                let ghost p0 = crate::text::views(parts@);
                let mut j: usize = 0;
                while j < row.cells.len()
                    invariant
                        j <= row.cells@.len(),
                        crate::text::views(parts@) == p0 + row.cells@.subrange(0, j as int).map_values(
                            |c: TableCell| c.content@,
                        ),
                    decreases row.cells.len() - j,
                {
                    let ghost q0 = crate::text::views(parts@);
                    parts.push(string_chars(&row.cells[j].content));
                    assert(crate::text::views(parts@) =~= q0.push(row.cells@[j as int].content@));
                    assert(row.cells@.subrange(0, j + 1).map_values(|c: TableCell| c.content@) =~= row.cells@.subrange(
                        0,
                        j as int,
                    ).map_values(|c: TableCell| c.content@).push(row.cells@[j as int].content@));
                    j += 1;
                }
                assert(row.cells@.subrange(0, row.cells@.len() as int) =~= row.cells@);
                assert(t.rows@.subrange(0, i + 1).drop_last() =~= t.rows@.subrange(0, i as int));
                i += 1;
            }
            assert(t.rows@.subrange(0, t.rows@.len() as int) =~= t.rows@);
            to_string(&join_str(&parts, "\n"))
        },
        Block::Listing(l) => join_strings(&l.lines),
        Block::Literal(l) => join_strings(&l.lines),
        Block::Example(b) => blocks_plain_text(&b.blocks),
        Block::Sidebar(b) => blocks_plain_text(&b.blocks),
        Block::Open(b) => blocks_plain_text(&b.blocks),
        Block::Quote(q) => match &q.content {
            Some(c) => to_string(&string_chars(c)),
            None => blocks_plain_text(&q.blocks),
        },
        Block::Passthrough(p) => to_string(&string_chars(&p.content)),
        Block::Image(img) => to_string(&string_chars(&img.alt)),
        Block::Heading(h) => to_string(&string_chars(&h.title)),
        Block::Toc => String::new(),
        Block::CalloutList(_) => String::new(),
        Block::DescriptionList(list) => description_items_plain_text(&list.items),
    }
}

/// Strings joined by newlines.
pub fn join_strings(v: &Vec<String>) -> (r: String)
    ensures
        r@ == crate::text::join_spec(v@.map_values(|s: String| s@), "\n"@),
{
    let mut parts: Vec<Vec<char>> = Vec::new();
    let mut i: usize = 0;
    while i < v.len()
        invariant
            i <= v@.len(),
            parts@.len() == i,
            forall|k: int| 0 <= k < i ==> (#[trigger] parts@[k])@ == v@[k]@,
        decreases v.len() - i,
    {
        parts.push(string_chars(&v[i]));
        i += 1;
    }
    assert(crate::text::views(parts@) =~= v@.map_values(|s: String| s@));
    to_string(&join_str(&parts, "\n"))
}

} // verus!
