use asciidoctor_rs::ast::BlockMetadata;
use asciidoctor_rs::blocks::{make_listing_from_lines, parse_block_image, parse_callout_list};
use asciidoctor_rs::lists::parse_description_list;
use asciidoctor_rs::meta::{parse_block_title, parse_list_marker, split_attribute_list, ListKind};
use asciidoctor_rs::preprocess::parse_include_line;
use asciidoctor_rs::{parse_inlines, Block, Inline, InlineVariant};

fn chars(s: &str) -> Vec<char> {
    s.chars().collect()
}

fn text(v: &[char]) -> String {
    v.iter().collect()
}

fn lines(list: &[&str]) -> Vec<Vec<char>> {
    list.iter().map(|l| chars(l)).collect()
}

#[test]
fn unmatched_marker_stays_text() {
    let r = parse_inlines("a * b");
    assert_eq!(r.len(), 1);
    assert!(matches!(&r[0], Inline::Text(t) if t == "a * b"));
}

#[test]
fn strong_span_holds_its_text() {
    let r = parse_inlines("*bold*");
    assert_eq!(r.len(), 1);
    match &r[0] {
        Inline::Span(s) => {
            assert_eq!(s.variant, InlineVariant::Strong);
            assert_eq!(s.inlines.len(), 1);
            assert!(matches!(&s.inlines[0], Inline::Text(t) if t == "bold"));
        },
        _ => panic!("expected a span"),
    }
}

#[test]
fn list_markers_and_levels() {
    let m = parse_list_marker(&chars("  ** item")).unwrap();
    assert_eq!(m.kind, ListKind::Unordered);
    assert_eq!(m.level, 2);
    assert_eq!(text(&m.content), "item");
    let m = parse_list_marker(&chars("12. twelve")).unwrap();
    assert_eq!(m.kind, ListKind::Ordered);
    assert_eq!(m.level, 1);
    assert_eq!(text(&m.content), "twelve");
    assert!(parse_list_marker(&chars("*bold*")).is_none());
    assert!(parse_list_marker(&chars("12.5")).is_none());
}

#[test]
fn block_titles() {
    assert_eq!(text(&parse_block_title(&chars(".A title  ")).unwrap()), "A title");
    assert!(parse_block_title(&chars(". item")).is_none());
    assert!(parse_block_title(&chars("....")).is_none());
}

#[test]
fn attribute_list_keeps_quoted_commas() {
    let parts = split_attribute_list(&chars("a, \"b,c\" ,d"));
    let parts: Vec<String> = parts.iter().map(|p| text(p)).collect();
    assert_eq!(parts, vec!["a", "\"b,c\"", "d"]);
}

#[test]
fn listing_callouts_are_stripped_and_numbered() {
    let l = make_listing_from_lines(&lines(&["a <1>", "b", "c <.>", "d <!--.-->"]), None, BlockMetadata::new());
    assert_eq!(l.lines, vec!["a", "b", "c", "d"]);
    assert_eq!(l.callouts, vec![(0usize, 1u32), (2, 1), (3, 2)]);
}

#[test]
fn callout_list_numbers() {
    let (block, consumed) = parse_callout_list(&lines(&["<1> one", "<.> two", "text"]), 0).unwrap();
    assert_eq!(consumed, 2);
    match block {
        Block::CalloutList(cl) => {
            assert_eq!(cl.items.len(), 2);
            assert_eq!(cl.items[0].number, 1);
            assert_eq!(cl.items[1].number, 1);
        },
        _ => panic!("expected a callout list"),
    }
    assert!(parse_callout_list(&lines(&["not a callout"]), 0).is_none());
}

#[test]
fn block_image_attributes() {
    let img = parse_block_image(&chars("image::dir/my-pic.png[,300,200,role=thumb]")).unwrap();
    assert_eq!(img.target, "dir/my-pic.png");
    assert_eq!(img.alt, "my pic");
    assert_eq!(img.width.as_deref(), Some("300"));
    assert_eq!(img.height.as_deref(), Some("200"));
    assert_eq!(img.metadata.attributes.get("role").map(|s| s.as_str()), Some("thumb"));
    assert!(parse_block_image(&chars("image::[x]")).is_none());
}

#[test]
fn description_list_first_term() {
    let (list, consumed) = parse_description_list(&lines(&["CPU:: the brain", "RAM:: memory", ""]), 0).unwrap();
    assert_eq!(consumed, 2);
    assert_eq!(list.items.len(), 2);
    assert_eq!(list.items[0].terms[0].text, "CPU");
    assert!(parse_description_list(&lines(&["no marker here"]), 0).is_none());
}

#[test]
fn include_line_parts() {
    let (path, attrs) = parse_include_line(&chars("include::part.adoc[leveloffset=+1]")).unwrap();
    assert_eq!(path, "part.adoc");
    assert_eq!(attrs.leveloffset, Some(1));
    assert!(parse_include_line(&chars("include::part.adoc")).is_none());
}

#[test]
fn atx_heading_trailing_markers() {
    let h = asciidoctor_rs::header::parse_atx_heading(&chars("== Title ==")).unwrap();
    assert_eq!(h.level, 1);
    assert_eq!(h.title, "Title");
    assert!(asciidoctor_rs::header::parse_atx_heading(&chars("==Title")).is_none());
    assert!(asciidoctor_rs::header::parse_atx_heading(&chars("======= Deep")).is_none());
}

#[test]
fn revision_line_parts() {
    let r = asciidoctor_rs::header::parse_implicit_revision_line(&chars("v1.2, 2024-01-01: Draft")).unwrap();
    assert_eq!(text(&r.number), "1.2");
    assert_eq!(r.date.as_deref().map(text), Some("2024-01-01".to_string()));
    assert_eq!(r.remark.as_deref().map(text), Some("Draft".to_string()));
    assert!(asciidoctor_rs::header::parse_implicit_revision_line(&chars("v1 2")).is_none());
}

#[test]
fn author_entry_with_email() {
    let a = asciidoctor_rs::header::parse_implicit_author_entry(&chars("Jane Q Doe <jane@example.org>")).unwrap();
    assert_eq!(text(&a.firstname), "Jane");
    assert_eq!(a.middlename.as_deref().map(text), Some("Q".to_string()));
    assert_eq!(a.lastname.as_deref().map(text), Some("Doe".to_string()));
    assert_eq!(a.email.as_deref().map(text), Some("jane@example.org".to_string()));
}
