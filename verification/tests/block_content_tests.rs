use asciidoctor_rs::ast::BlockMetadata;
use asciidoctor_rs::blocks::{masquerade_open_block, parse_delimited_block};
use asciidoctor_rs::parser::make_block_from_paragraph;
use asciidoctor_rs::Block;

fn line_vec(ls: &[&str]) -> Vec<Vec<char>> {
    ls.iter().map(|l| l.chars().collect()).collect()
}

fn styled(style: &str) -> BlockMetadata {
    let mut m = BlockMetadata::new();
    m.style = Some(String::from(style));
    m.attributes.insert("style", String::from(style));
    m
}

#[test]
fn indented_paragraphs_become_literal_blocks_with_their_lines() {
    let b = make_block_from_paragraph(
        line_vec(&[" indented line one", " indented line two"]),
        None,
        None,
        BlockMetadata::new(),
    );
    match b {
        Block::Literal(l) => {
            assert_eq!(l.lines, vec![String::from(" indented line one"), String::from(" indented line two")]);
            assert!(l.callouts.is_empty());
            assert!(l.reftext.is_none());
        }
        _ => panic!("expected a literal block"),
    }
}

#[test]
fn paragraphs_keep_their_id_and_lines() {
    let b = make_block_from_paragraph(line_vec(&["one", "two"]), Some(String::from("p1")), None, BlockMetadata::new());
    match b {
        Block::Paragraph(p) => {
            assert_eq!(p.lines, vec![String::from("one"), String::from("two")]);
            assert_eq!(p.id.as_deref(), Some("p1"));
        }
        _ => panic!("expected a paragraph"),
    }
}

#[test]
fn open_blocks_take_the_block_type_of_their_style() {
    let inner = line_vec(&["x = 1", "y = 2"]);
    match masquerade_open_block(styled("stem"), &inner, 8) {
        Block::Passthrough(p) => {
            assert_eq!(p.content, "x = 1\ny = 2");
            assert_eq!(p.metadata.style.as_deref(), Some("stem"));
        }
        _ => panic!("expected a passthrough"),
    }
    match masquerade_open_block(styled("pass"), &inner, 8) {
        Block::Passthrough(p) => {
            assert_eq!(p.content, "x = 1\ny = 2");
            assert!(p.metadata.style.is_none());
            assert!(p.metadata.attributes.get("style").is_none());
        }
        _ => panic!("expected a passthrough"),
    }
    match masquerade_open_block(styled("sidebar"), &inner, 8) {
        Block::Sidebar(c) => assert!(c.metadata.style.is_none()),
        _ => panic!("expected a sidebar"),
    }
    match masquerade_open_block(styled("source"), &inner, 8) {
        Block::Listing(l) => assert_eq!(l.metadata.style.as_deref(), Some("source")),
        _ => panic!("expected a listing"),
    }
    match masquerade_open_block(styled("mystery"), &inner, 8) {
        Block::Open(c) => assert_eq!(c.metadata.style.as_deref(), Some("mystery")),
        _ => panic!("expected an open block"),
    }
}

#[test]
fn delimited_blocks_hold_the_lines_between_their_delimiters() {
    let lines = line_vec(&["++++", "<b>raw</b>", "more", "++++", "after"]);
    let (block, consumed) = parse_delimited_block(&lines, 0, None, 8).unwrap();
    assert_eq!(consumed, 4);
    match block {
        Block::Passthrough(p) => assert_eq!(p.content, "<b>raw</b>\nmore"),
        _ => panic!("expected a passthrough"),
    }
    let lines = line_vec(&["....", " kept as is", "...."]);
    match parse_delimited_block(&lines, 0, None, 8).unwrap().0 {
        Block::Literal(l) => assert_eq!(l.lines, vec![String::from(" kept as is")]),
        _ => panic!("expected a literal block"),
    }
}
