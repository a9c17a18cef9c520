use asciidoctor_rs::lists::parse_description_list;
use asciidoctor_rs::normalize::{normalize_asciidoc, trim_outer_blank_lines};
use asciidoctor_rs::parser::parse_blocks_from_lines;
use asciidoctor_rs::prepare::next_section_id;
use asciidoctor_rs::AttributeMap;
use asciidoctor_rs::preprocess::{expansion_allowed, IncludeStack};
use asciidoctor_rs::render::{alphabetic_to_index, escape_html, index_to_alphabetic};
use asciidoctor_rs::{parse_document, parse_spanned_inlines, Block, Inline};

fn chars(s: &str) -> Vec<char> {
    s.chars().collect()
}

#[test]
fn letters_read_back_as_their_index() {
    for n in [1u32, 26, 27, 52, 702, 703, 18278] {
        assert_eq!(alphabetic_to_index(&index_to_alphabetic(n, false)), Some(n));
        assert_eq!(alphabetic_to_index(&index_to_alphabetic(n, true)), Some(n));
    }
    let letters: String = index_to_alphabetic(28, false).into_iter().collect();
    assert_eq!(letters, "ab");
}

#[test]
fn normalizing_twice_changes_nothing() {
    let input = "a \t\r\nb\rc  \n\n d\t";
    let once = normalize_asciidoc(input);
    assert_eq!(once, "a\nb\nc\n\n d");
    assert_eq!(normalize_asciidoc(&once), once);
}

#[test]
fn trimming_outer_blank_lines_twice_changes_nothing() {
    let once = trim_outer_blank_lines("\n  \nfirst\n\nlast\n \n");
    assert_eq!(once, "first\n\nlast");
    assert_eq!(trim_outer_blank_lines(&once), once);
}

#[test]
fn escaped_text_reads_back() {
    let escaped = escape_html("a<b & 'c' \"d\">");
    assert_eq!(escaped, "a&lt;b &amp; &#39;c&#39; &quot;d&quot;&gt;");
    let back = escaped
        .replace("&lt;", "<")
        .replace("&gt;", ">")
        .replace("&quot;", "\"")
        .replace("&#39;", "'")
        .replace("&amp;", "&");
    assert_eq!(back, "a<b & 'c' \"d\">");
}

#[test]
fn new_levels_start_from_zero() {
    let mut ids: Vec<u32> = Vec::new();
    let id: String = next_section_id(&mut ids, 2, &chars("Deep")).into_iter().collect();
    assert_eq!(id, "_deep");
    assert_eq!(ids, vec![0, 0, 1]);
}

#[test]
fn spans_tile_the_input() {
    let input = "plain *strong* and `mono` end";
    let spans = parse_spanned_inlines(input);
    assert!(!spans.is_empty());
    assert_eq!(spans[0].start, 0);
    assert_eq!(spans[spans.len() - 1].end, input.chars().count());
    for pair in spans.windows(2) {
        assert_eq!(pair[0].end, pair[1].start);
    }
    assert!(parse_spanned_inlines("").is_empty());
}

#[test]
fn include_depth_and_cycles_are_bounded() {
    assert!(expansion_allowed(0));
    assert!(expansion_allowed(64));
    assert!(!expansion_allowed(65));
    let mut active = IncludeStack::new();
    assert!(!active.is_active("/docs/a.adoc"));
    active.enter(String::from("/docs/a.adoc"));
    active.enter(String::from("/docs/b.adoc"));
    assert!(active.is_active("/docs/a.adoc"));
    assert!(active.is_active("/docs/b.adoc"));
    active.leave();
    assert!(!active.is_active("/docs/b.adoc"));
    assert!(active.is_active("/docs/a.adoc"));
}

#[test]
fn plain_lines_become_paragraphs() {
    let doc = parse_document("alpha\r\n// note\r\nbeta  \n\n\ngamma\n");
    assert!(doc.title.is_none());
    assert_eq!(doc.blocks.len(), 2);
    match &doc.blocks[0] {
        Block::Paragraph(p) => {
            assert_eq!(p.lines, vec![String::from("alpha"), String::from("beta")]);
            assert_eq!(p.inlines, vec![Inline::Text(String::from("alpha\nbeta"))]);
            assert!(p.id.is_none());
        }
        _ => panic!("expected a paragraph"),
    }
    match &doc.blocks[1] {
        Block::Paragraph(p) => assert_eq!(p.lines, vec![String::from("gamma")]),
        _ => panic!("expected a paragraph"),
    }
}

fn line_vec(ls: &[&str]) -> Vec<Vec<char>> {
    ls.iter().map(|l| chars(l)).collect()
}

#[test]
fn only_a_leading_level_zero_heading_becomes_the_title() {
    let lines = line_vec(&["= First Title", "", "= Second Title"]);
    let mut title = None;
    let mut attrs = AttributeMap::new();
    let blocks = parse_blocks_from_lines(&lines, &mut title, true, &mut attrs, false, 64);
    assert_eq!(title.map(|h| h.title), Some(String::from("First Title")));
    assert_eq!(blocks.len(), 1);
    match &blocks[0] {
        Block::Heading(h) => {
            assert_eq!(h.level, 0);
            assert_eq!(h.title, "Second Title");
        }
        _ => panic!("expected a heading"),
    }
}

#[test]
fn attribute_entries_are_stored_with_their_values() {
    let lines = line_vec(&[":body-attr: value"]);
    let mut title = None;
    let mut attrs = AttributeMap::new();
    let blocks = parse_blocks_from_lines(&lines, &mut title, true, &mut attrs, true, 64);
    assert!(blocks.is_empty());
    assert!(title.is_none());
    assert_eq!(attrs.get("body-attr").map(|v| v.as_str()), Some("value"));
}

#[test]
fn header_entries_without_a_title_become_attributes() {
    let doc = parse_document(":toc: left\n// a note\n:foo: bar\n\nalpha\nbeta\n");
    assert!(doc.title.is_none());
    assert_eq!(doc.attributes.get("toc").map(|v| v.as_str()), Some("left"));
    assert_eq!(doc.attributes.get("foo").map(|v| v.as_str()), Some("bar"));
    assert_eq!(doc.blocks.len(), 1);
    match &doc.blocks[0] {
        Block::Paragraph(p) => assert_eq!(p.lines, vec![String::from("alpha"), String::from("beta")]),
        _ => panic!("expected a paragraph"),
    }
}

#[test]
fn description_lists_keep_terms_and_descriptions() {
    let lines = line_vec(&["first:: one", "second::", "third:: three", "more text", "", "after"]);
    let (list, consumed) = parse_description_list(&lines, 0).unwrap();
    assert_eq!(consumed, 4);
    assert_eq!(list.items.len(), 2);
    assert_eq!(list.items[0].terms.len(), 1);
    assert_eq!(list.items[0].terms[0].text, "first");
    assert!(list.items[0].description.is_some());
    assert_eq!(list.items[1].terms.len(), 2);
    assert_eq!(list.items[1].terms[0].text, "second");
    assert_eq!(list.items[1].terms[1].text, "third");
    assert!(list.items[1].description.is_some());
}

#[test]
fn header_entries_under_a_title_become_attributes() {
    let doc = parse_document("= My Title\n:foo: bar\n\nalpha\n\n== Part\n\nbeta\n");
    assert_eq!(doc.title.as_ref().map(|h| h.title.as_str()), Some("My Title"));
    assert_eq!(doc.attributes.get("foo").map(|v| v.as_str()), Some("bar"));
    assert_eq!(doc.blocks.len(), 3);
    assert!(matches!(&doc.blocks[0], Block::Paragraph(_)));
    match &doc.blocks[1] {
        Block::Heading(h) => {
            assert_eq!(h.level, 1);
            assert_eq!(h.title, "Part");
        }
        _ => panic!("expected a heading"),
    }
    assert!(matches!(&doc.blocks[2], Block::Paragraph(_)));
}
