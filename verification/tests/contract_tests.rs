use asciidoctor_rs::ast::BlockMetadata;
use asciidoctor_rs::inline::auto_generate_alt;
use asciidoctor_rs::meta::{
    apply_attribute_list_to_metadata, apply_fenced_code_metadata, parse_block_anchor, parse_named_attribute,
    unquote_attribute_value,
};
use asciidoctor_rs::normalize::has_asciidoc_extension;
use asciidoctor_rs::parser::make_paragraph_like_block;
use asciidoctor_rs::prepare::RefTable;
use asciidoctor_rs::preprocess::{parse_i32, parse_include_attrs};
use asciidoctor_rs::render::{alphabetic_to_index, parse_counter_seed, render_inlines, CounterState};
use asciidoctor_rs::tables::{parse_leading_table_cell_spec, normalize_table_cell_content};
use asciidoctor_rs::text::{lines, split_char};
use asciidoctor_rs::{
    parse_document, render_html, AdmonitionVariant, AttributeMap, Block, PreparedInline, SpanInline, TextInline,
};

fn chars(s: &str) -> Vec<char> {
    s.chars().collect()
}

fn text(v: &[char]) -> String {
    v.iter().collect()
}

fn entries(list: &[&str]) -> Vec<Vec<char>> {
    list.iter().map(|e| chars(e)).collect()
}

fn attr(m: &AttributeMap, key: &str) -> Option<String> {
    m.get(key).cloned()
}

#[test]
fn a_document_without_blocks_renders_the_bare_page() {
    assert_eq!(
        render_html(&parse_document("")),
        "<div id=\"header\">\n</div>\n<div id=\"content\">\n</div>\n"
    );
    assert_eq!(
        render_html(&parse_document("= Fish & Chips")),
        "<div id=\"header\">\n<h1>Fish &amp; Chips</h1>\n</div>\n<div id=\"content\">\n</div>\n"
    );
}

#[test]
fn rendered_pages_open_with_the_header_and_close_the_content() {
    let html = render_html(&parse_document("= T\n\nSome text."));
    assert!(html.starts_with("<div id=\"header\">\n<h1>T</h1>\n</div>\n<div id=\"content\">\n"));
    assert!(html.ends_with("</div>\n"));
}

#[test]
fn renders_inline_spans_and_text() {
    let inlines = vec![
        PreparedInline::Text(TextInline { value: "a<b ".to_owned() }),
        PreparedInline::Span(SpanInline {
            variant: "strong".to_owned(),
            form: "constrained".to_owned(),
            inlines: vec![PreparedInline::Text(TextInline { value: "bold".to_owned() })],
        }),
    ];
    let mut html = chars("x");
    render_inlines(&mut html, &inlines);
    assert_eq!(text(&html), "xa&lt;b <strong>bold</strong>");
}

#[test]
fn attribute_lists_set_style_id_roles_and_options() {
    let mut m = BlockMetadata::new();
    apply_attribute_list_to_metadata(&mut m, &entries(&["source", "ruby", "#code", ".a.b", "%linenums", "title=\"T\""]));
    assert_eq!(m.style.as_deref(), Some("source"));
    assert_eq!(attr(&m.attributes, "language"), Some("ruby".to_owned()));
    assert_eq!(m.id.as_deref(), Some("code"));
    assert_eq!(m.roles, vec!["a".to_owned(), "b".to_owned()]);
    assert_eq!(m.role.as_deref(), Some("a b"));
    assert_eq!(m.options, vec!["linenums".to_owned()]);
    assert_eq!(attr(&m.attributes, "linenums-option"), Some(String::new()));
    assert_eq!(attr(&m.attributes, "title"), Some("T".to_owned()));
    assert_eq!(attr(&m.attributes, "$1"), Some("source".to_owned()));
    assert_eq!(attr(&m.attributes, "$2"), Some("ruby".to_owned()));
}

#[test]
fn role_entries_remove_repeated_roles() {
    let mut m = BlockMetadata::new();
    apply_attribute_list_to_metadata(&mut m, &entries(&["role=a a", ".b.a"]));
    assert_eq!(m.roles, vec!["a".to_owned(), "b".to_owned()]);
    assert_eq!(attr(&m.attributes, "role"), Some("a b".to_owned()));
}

#[test]
fn source_listings_read_numbered_as_linenums() {
    let mut m = BlockMetadata::new();
    apply_attribute_list_to_metadata(&mut m, &entries(&["source", "java", "%numbered"]));
    assert_eq!(m.options, vec!["linenums".to_owned()]);
    assert_eq!(attr(&m.attributes, "numbered-option"), None);
    assert_eq!(attr(&m.attributes, "linenums-option"), Some(String::new()));
}

#[test]
fn fenced_code_takes_language_and_options() {
    let mut m = BlockMetadata::new();
    apply_fenced_code_metadata(&mut m, &entries(&[" rust ", "linenums", "%a%b"]));
    assert_eq!(m.style.as_deref(), Some("source"));
    assert_eq!(attr(&m.attributes, "language"), Some("rust".to_owned()));
    assert_eq!(attr(&m.attributes, "cloaked-context"), Some("fenced_code".to_owned()));
    assert_eq!(m.options, vec!["linenums".to_owned(), "a".to_owned(), "b".to_owned()]);
    assert_eq!(attr(&m.attributes, "$2"), Some("linenums".to_owned()));
}

#[test]
fn named_attributes_split_at_the_first_equals_sign() {
    let (name, value) = parse_named_attribute(&chars(" a = 'x=y' ")).unwrap();
    assert_eq!(text(&name), "a");
    assert_eq!(text(&value), "x=y");
    assert!(parse_named_attribute(&chars("=v")).is_none());
    assert_eq!(text(&unquote_attribute_value(&chars("\"q\""))), "q");
    assert_eq!(text(&unquote_attribute_value(&chars("\"q'"))), "\"q'");
}

#[test]
fn reads_block_anchor_lines() {
    let a = parse_block_anchor(&chars("  [[intro, The Intro]] ")).unwrap();
    assert_eq!(text(&a.id), "intro");
    assert_eq!(a.reftext.as_deref().map(text), Some("The Intro".to_owned()));
    let b = parse_block_anchor(&chars("[#top,reftext=\"Top\"]")).unwrap();
    assert_eq!(text(&b.id), "top");
    assert!(parse_block_anchor(&chars("[[bad id]]")).is_none());
    assert!(parse_block_anchor(&chars("[[x]")).is_none());
}

#[test]
fn admonition_prefixes_make_admonitions() {
    match make_paragraph_like_block(entries(&["TIP: use it", "twice"])) {
        Block::Admonition(a) => {
            assert_eq!(a.variant, AdmonitionVariant::Tip);
            match &a.blocks[0] {
                Block::Paragraph(p) => assert_eq!(p.lines, vec!["use it".to_owned(), "twice".to_owned()]),
                _ => panic!("expected a paragraph"),
            }
        }
        _ => panic!("expected an admonition"),
    }
    assert!(matches!(make_paragraph_like_block(entries(&["TIP:no space"])), Block::Paragraph(_)));
    assert!(matches!(make_paragraph_like_block(entries(&[" indented"])), Block::Literal(_)));
}

#[test]
fn recognises_asciidoc_file_names() {
    assert!(has_asciidoc_extension("docs.v1/Guide.ADOC"));
    assert!(has_asciidoc_extension("notes.txt"));
    assert!(!has_asciidoc_extension(".adoc"));
    assert!(!has_asciidoc_extension("dir.adoc/README"));
    assert!(has_asciidoc_extension("doc.adoc/"));
    assert!(has_asciidoc_extension("out/doc.asciidoc//"));
    assert!(!has_asciidoc_extension("/"));
}

#[test]
fn image_alt_text_comes_from_the_file_name() {
    assert_eq!(text(&auto_generate_alt(&chars("images/my-cool_image.v2.png"))), "my cool image.v2");
    assert_eq!(text(&auto_generate_alt(&chars("c:\\pics\\logo.svg"))), "logo");
}

#[test]
fn counter_seeds_read_numbers_and_letters() {
    assert_eq!(alphabetic_to_index(&chars("aa")), Some(27));
    assert_eq!(alphabetic_to_index(&chars("a1")), None);
    assert_eq!(parse_counter_seed(&chars("7")), Some(CounterState::Numeric(7)));
    assert_eq!(parse_counter_seed(&chars("0")), None);
    assert_eq!(parse_counter_seed(&chars("C")), Some(CounterState::Alpha { index: 3, uppercase: true }));
    assert_eq!(parse_counter_seed(&chars("aB")), None);
}

#[test]
fn the_first_reference_target_for_a_key_stays() {
    let mut refs = RefTable::new();
    refs.add(&chars("intro"), &"first".to_owned(), &Some("One".to_owned()));
    refs.add(&chars("intro"), &"second".to_owned(), &None);
    let (id, title) = refs.lookup(&chars(" intro ")).unwrap();
    assert_eq!(id, "first");
    assert_eq!(title.as_deref(), Some("One"));
    assert!(refs.lookup(&chars("intro.adoc")).is_none());
    assert!(refs.lookup(&chars("other")).is_none());
}

#[test]
fn include_attributes_take_the_last_leveloffset() {
    assert_eq!(parse_include_attrs(&chars("leveloffset=+1, leveloffset=-2")).leveloffset, Some(-2));
    assert_eq!(parse_include_attrs(&chars("lines=1..3")).leveloffset, None);
    assert_eq!(parse_include_attrs(&chars("leveloffset=+1,leveloffset=x")).leveloffset, None);
    assert_eq!(parse_i32(&chars("-2147483648")), Some(i32::MIN));
    assert_eq!(parse_i32(&chars("+5")), Some(5));
    assert_eq!(parse_i32(&chars("-+5")), None);
}

#[test]
fn splits_lines_and_pieces() {
    let l = lines(&chars("a\r\nb\n\nc\n"));
    assert_eq!(l.iter().map(|x| text(x)).collect::<Vec<_>>(), vec!["a", "b", "", "c"]);
    let p = split_char(&chars(",x,"), ',');
    assert_eq!(p.iter().map(|x| text(x)).collect::<Vec<_>>(), vec!["", "x", ""]);
}

#[test]
fn table_cells_read_specifiers_and_continuations() {
    let (c, r, style, rest) = parse_leading_table_cell_spec(&chars("2.3+| cell"), '|').unwrap();
    assert_eq!((c, r, style), (2, 3, None));
    assert_eq!(text(&rest), " cell");
    assert!(parse_leading_table_cell_spec(&chars("x| cell"), '|').is_none());
    assert_eq!(text(&normalize_table_cell_content(&chars("a\n +\nb"))), "a\n\nb");
}

#[test]
fn attribute_maps_from_pairs_keep_the_last_value() {
    let m = AttributeMap::from_pairs(vec![
        ("k".to_owned(), "1".to_owned()),
        ("j".to_owned(), "2".to_owned()),
        ("k".to_owned(), "3".to_owned()),
    ]);
    assert_eq!(attr(&m, "k"), Some("3".to_owned()));
    assert_eq!(attr(&m, "j"), Some("2".to_owned()));
}

#[test]
fn plain_text_parses_to_one_text_inline() {
    let inlines = asciidoctor_rs::parse_inlines("Some plain words, nothing more.");
    assert_eq!(inlines.len(), 1);
    match &inlines[0] {
        asciidoctor_rs::Inline::Text(t) => assert_eq!(t, "Some plain words, nothing more."),
        _ => panic!("expected text"),
    }
    assert!(asciidoctor_rs::parse_inlines("").is_empty());
    assert!(asciidoctor_rs::parse_inlines("a *b* c").len() > 1);
}
