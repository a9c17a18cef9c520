use asciidoctor_rs::header::build_author;
use asciidoctor_rs::normalize::normalize_asciidoc;
use asciidoctor_rs::prepare::{next_section_id, slugify, PreparedBlock};
use asciidoctor_rs::preprocess::{
    adjust_heading_level, apply_leveloffset, parse_include_line, ExpansionState, LineAction,
};
use asciidoctor_rs::render::{escape_html, expand_counter_macros, index_to_alphabetic, Counters};
use asciidoctor_rs::tables::parse_table_cell_spec;
use asciidoctor_rs::text::{parse_usize, usize_to_chars};
use asciidoctor_rs::{parse_document, prepare_document, Block};

fn chars(s: &str) -> Vec<char> {
    s.chars().collect()
}

fn text(v: &[char]) -> String {
    v.iter().collect()
}

#[test]
fn decimal_numbers_read_back() {
    for n in [0usize, 7, 10, 123, 4096, 1_000_000] {
        assert_eq!(parse_usize(&usize_to_chars(n)), Some(n));
    }
    assert_eq!(text(&usize_to_chars(305)), "305");
    assert_eq!(parse_usize(&chars("+12")), Some(12));
    assert_eq!(parse_usize(&chars("1a")), None);
    assert_eq!(parse_usize(&chars("")), None);
}

#[test]
fn escapes_markup_characters() {
    assert_eq!(escape_html("<a href='x'>&\"</a>"), "&lt;a href=&#39;x&#39;&gt;&amp;&quot;&lt;/a&gt;");
    let escaped = escape_html("<<\"'>>");
    assert!(!escaped.contains('<') && !escaped.contains('>') && !escaped.contains('"') && !escaped.contains('\''));
}

#[test]
fn plain_text_escapes_to_itself() {
    assert_eq!(escape_html("just words, 42 of them."), "just words, 42 of them.");
}

#[test]
fn slugs_lowercase_and_collapse_separators() {
    assert_eq!(text(&slugify(&chars("Hello, World!"))), "_hello_world");
    assert_eq!(text(&slugify(&chars("  Two  Spaces  "))), "__two_spaces");
    assert_eq!(text(&slugify(&chars("!!!"))), "");
    assert!(!text(&slugify(&chars("Trailing ?"))).ends_with('_'));
}

#[test]
fn section_ids_count_up_within_a_level() {
    let mut ids: Vec<u32> = Vec::new();
    assert_eq!(text(&next_section_id(&mut ids, 1, &chars("Intro"))), "_intro");
    assert_eq!(text(&next_section_id(&mut ids, 1, &chars("Intro"))), "_intro-2");
    assert_eq!(text(&next_section_id(&mut ids, 2, &chars("Child"))), "_child");
    assert_eq!(text(&next_section_id(&mut ids, 1, &chars("Intro"))), "_intro-3");
    assert_eq!(text(&next_section_id(&mut ids, 2, &chars("Child"))), "_child");
    assert_eq!(ids, vec![0, 3, 1]);
}

#[test]
fn normalized_text_has_no_carriage_returns() {
    let normalized = normalize_asciidoc("a  \rb\t\r\nc\r");
    assert_eq!(normalized, "a\nb\nc\n");
    assert!(!normalized.contains('\r'));
}

#[test]
fn footnotes_are_numbered_in_order() {
    let document = parse_document("First.footnote:[one] Second.footnote:[two]\n\nThird.footnote:[three]");
    let prepared = prepare_document(&document);
    let numbers: Vec<Option<u32>> = prepared.footnotes.iter().map(|f| f.index).collect();
    assert_eq!(numbers, vec![Some(1), Some(2), Some(3)]);
    assert_eq!(prepared.footnotes[1].text.as_deref(), Some("two"));
}

#[test]
fn reads_comma_separated_tables_with_the_csv_reader() {
    let document = parse_document(",===\nname,\"quoted, value\"\nx,y\n,===");
    let Block::Table(table) = &document.blocks[0] else {
        panic!("expected a table");
    };
    assert_eq!(table.rows.len(), 2);
    assert_eq!(table.rows[0].cells[0].content, "name");
    assert_eq!(table.rows[0].cells[1].content, "quoted, value");
    assert_eq!(table.rows[1].cells[1].content, "y");
}

#[test]
fn reads_cell_specifiers() {
    assert_eq!(parse_table_cell_spec(&chars("")), Some((1, 1, None)));
    assert_eq!(parse_table_cell_spec(&chars("2.3+")), Some((2, 3, None)));
    assert_eq!(parse_table_cell_spec(&chars(".2+")), Some((1, 2, None)));
    assert_eq!(parse_table_cell_spec(&chars("3+")), Some((3, 1, None)));
    assert_eq!(parse_table_cell_spec(&chars("a")), Some((1, 1, Some("asciidoc".to_owned()))));
    assert_eq!(parse_table_cell_spec(&chars("x")), None);
}

#[test]
fn builds_author_names_and_initials() {
    let author = build_author(&chars("Doc_Ada Writer"), None).unwrap();
    assert_eq!(text(&author.name), "Doc Ada Writer");
    assert_eq!(text(&author.firstname), "Doc");
    assert_eq!(author.middlename.as_deref().map(text), Some("Ada".to_owned()));
    assert_eq!(author.lastname.as_deref().map(text), Some("Writer".to_owned()));
    assert_eq!(text(&author.authorinitials), "DAW");
    assert!(build_author(&chars(" _ "), None).is_none());
}

#[test]
fn counters_count_up_from_their_seed() {
    let mut counters = Counters::new();
    assert_eq!(text(&expand_counter_macros(&chars("{counter:n} {counter:n}"), &mut counters)), "1 2");
    assert_eq!(text(&expand_counter_macros(&chars("{counter:s:5} {counter:s}"), &mut counters)), "5 6");
    assert_eq!(text(&expand_counter_macros(&chars("{counter:a:y} {counter:a} {counter:a}"), &mut counters)), "y z aa");
    assert_eq!(text(&index_to_alphabetic(28, true)), "AB");
}

#[test]
fn include_lines_inside_verbatim_blocks_are_copied() {
    let mut state = ExpansionState::new();
    assert_eq!(state.step(&chars("----")), LineAction::Emit);
    assert_eq!(state.step(&chars("include::child.adoc[]")), LineAction::Emit);
    assert_eq!(state.step(&chars("----")), LineAction::Emit);
    match state.step(&chars("include::child.adoc[leveloffset=+1]")) {
        LineAction::Include(path, attrs) => {
            assert_eq!(path, "child.adoc");
            assert_eq!(attrs.leveloffset, Some(1));
        }
        LineAction::Emit => panic!("expected an include"),
    }
}

#[test]
fn shifts_heading_levels_and_clamps_at_one() {
    assert_eq!(text(&adjust_heading_level(&chars("== Section"), 1)), "=== Section");
    assert_eq!(text(&adjust_heading_level(&chars("=== Section"), -1)), "== Section");
    assert_eq!(text(&adjust_heading_level(&chars("== Section"), -5)), "= Section");
    assert_eq!(text(&adjust_heading_level(&chars("==not a heading"), 2)), "==not a heading");
    assert_eq!(text(&apply_leveloffset(&chars("== A\n\ntext"), 1)), "=== A\n\ntext\n");
    let (path, attrs) = parse_include_line(&chars("include::x.adoc[leveloffset=-2]")).unwrap();
    assert_eq!(path, "x.adoc");
    assert_eq!(attrs.leveloffset, Some(-2));
}

#[test]
fn empty_input_gives_an_empty_document() {
    let document = parse_document("");
    assert!(document.title.is_none());
    assert!(document.blocks.is_empty());
    assert!(document.attributes.is_empty());
    let prepared = prepare_document(&document);
    assert!(prepared.no_header && !prepared.has_header);
    assert!(prepared.blocks.iter().all(|b| !matches!(b, PreparedBlock::Section(_))));
}
