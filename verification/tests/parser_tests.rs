use asciidoctor_rs::attrs::AttributeMap;
use asciidoctor_rs::ast::{
    AdmonitionBlock, AdmonitionVariant, Block, BlockMetadata, CompoundBlock, Heading, Inline,
    InlineForm, InlineSpan, InlineVariant, ListItem, Listing, OpenBlockContext,
    OrderedList, Paragraph, UnorderedList,
};
use asciidoctor_rs::parser::parse_document;

#[test]
fn parses_blank_line_separated_paragraphs() {
    let document = parse_document("first line\nsecond line\n\nthird line");

    assert_eq!(
        document.blocks,
        vec![
            Block::Paragraph(Paragraph {
                inlines: vec![Inline::Text("first line\nsecond line".into())],
                lines: vec!["first line".into(), "second line".into()],
                id: None,
                reftext: None,
                metadata: BlockMetadata::default(),
            }),
            Block::Paragraph(Paragraph {
                inlines: vec![Inline::Text("third line".into())],
                lines: vec!["third line".into()],
                id: None,
                reftext: None,
                metadata: BlockMetadata::default(),
            }),
        ]
    );
    assert_eq!(document.title, None);
}

#[test]
fn parses_atx_document_title_and_section_headings() {
    let document = parse_document("= Document Title\n\n== Section One\n\ncontent");

    assert_eq!(
        document.title,
        Some(Heading {
            level: 0,
            title: "Document Title".into(),
            id: None,
            reftext: None,
            metadata: BlockMetadata::default(),
        })
    );
    assert_eq!(
        document.blocks,
        vec![
            Block::Heading(Heading {
                level: 1,
                title: "Section One".into(),
                id: None,
                reftext: None,
                metadata: BlockMetadata::default(),
            }),
            Block::Paragraph(Paragraph {
                inlines: vec![Inline::Text("content".into())],
                lines: vec!["content".into()],
                id: None,
                reftext: None,
                metadata: BlockMetadata::default(),
            }),
        ]
    );
}

#[test]
fn parses_markdown_style_symmetric_atx_heading_markers() {
    let document = parse_document("## Section One ##");

    assert_eq!(
        document.blocks,
        vec![Block::Heading(Heading {
            level: 1,
            title: "Section One".into(),
            id: None,
            reftext: None,
            metadata: BlockMetadata::default(),
        })]
    );
}

#[test]
fn parses_setext_document_title_and_section_heading() {
    let document = parse_document("Document Title\n==============\n\nSection A\n---------");

    assert_eq!(
        document.title,
        Some(Heading {
            level: 0,
            title: "Document Title".into(),
            id: None,
            reftext: None,
            metadata: BlockMetadata::default(),
        })
    );
    assert_eq!(
        document.blocks,
        vec![Block::Heading(Heading {
            level: 1,
            title: "Section A".into(),
            id: None,
            reftext: None,
            metadata: BlockMetadata::default(),
        })]
    );
}

#[test]
fn parses_document_header_attributes_after_title() {
    let document =
        parse_document("= Document Title\n:toc: left\n:source-highlighter: rouge\n\ncontent");

    assert_eq!(
        document.title,
        Some(Heading {
            level: 0,
            title: "Document Title".into(),
            id: None,
            reftext: None,
            metadata: BlockMetadata::default(),
        })
    );
    assert_eq!(
        document.attributes,
        AttributeMap::from_pairs(vec![
            ("source-highlighter".to_owned(), "rouge".to_owned()),
            ("toc".to_owned(), "left".to_owned()),
        ])
    );
    assert_eq!(
        document.blocks,
        vec![Block::Paragraph(Paragraph {
            inlines: vec![Inline::Text("content".into())],
            lines: vec!["content".into()],
            id: None,
            reftext: None,
            metadata: BlockMetadata::default(),
        })]
    );
}

#[test]
fn parses_multiline_document_header_attribute_with_soft_wraps() {
    let document = parse_document(
        "= Document Title\n:description: If you have a very long line of text \\\nthat you need to substitute regularly in a document, \\\n  you may find it easier to split the value neatly.\n\ncontent",
    );

    assert_eq!(
        document.attributes.get("description").map(String::as_str),
        Some(
            "If you have a very long line of text that you need to substitute regularly in a document, you may find it easier to split the value neatly."
        )
    );
}

#[test]
fn parses_multiline_document_header_attribute_with_hard_wraps() {
    let document = parse_document(
        "= Document Title\n:haiku: Write your docs in text, + \\\n  AsciiDoc makes it easy, + \\\n  Now get back to work!\n\ncontent",
    );

    assert_eq!(
        document.attributes.get("haiku").map(String::as_str),
        Some("Write your docs in text, +\nAsciiDoc makes it easy, +\nNow get back to work!")
    );
}

#[test]
fn parses_author_attribute_in_document_header() {
    let document = parse_document("= Document Title\n:author: Jane Doe\n\ncontent");

    assert_eq!(
        document.attributes,
        AttributeMap::from_pairs(vec![
            ("author".to_owned(), "Jane Doe".to_owned()),
            ("authorcount".to_owned(), "1".to_owned()),
            ("authorinitials".to_owned(), "JD".to_owned()),
            ("authors".to_owned(), "Jane Doe".to_owned()),
            ("firstname".to_owned(), "Jane".to_owned()),
            ("lastname".to_owned(), "Doe".to_owned()),
        ])
    );
}

#[test]
fn parses_email_attribute_in_document_header() {
    let document = parse_document("= Document Title\n:email: jane@example.com\n\ncontent");

    assert_eq!(
        document.attributes,
        AttributeMap::from_pairs(vec![("email".to_owned(), "jane@example.com".to_owned())])
    );
}

#[test]
fn preserves_explicit_authorinitials_for_single_author_attribute() {
    let document = parse_document(
        "= Document Title\n:authorinitials: DOC\n:author: Doc Writer\n\ncontent",
    );

    assert_eq!(
        document.attributes,
        AttributeMap::from_pairs(vec![
            ("author".to_owned(), "Doc Writer".to_owned()),
            ("authorcount".to_owned(), "1".to_owned()),
            ("authorinitials".to_owned(), "DOC".to_owned()),
            ("authors".to_owned(), "Doc Writer".to_owned()),
            ("firstname".to_owned(), "Doc".to_owned()),
            ("lastname".to_owned(), "Writer".to_owned()),
        ])
    );
}

#[test]
fn parses_authors_attribute_into_indexed_name_parts() {
    let document =
        parse_document("= Document Title\n:authors: Doc Writer; Other Author\n\ncontent");

    assert_eq!(
        document.attributes,
        AttributeMap::from_pairs(vec![
            ("author".to_owned(), "Doc Writer".to_owned()),
            ("author_1".to_owned(), "Doc Writer".to_owned()),
            ("author_2".to_owned(), "Other Author".to_owned()),
            ("authorcount".to_owned(), "2".to_owned()),
            ("authorinitials".to_owned(), "DW".to_owned()),
            ("authorinitials_1".to_owned(), "DW".to_owned()),
            ("authorinitials_2".to_owned(), "OA".to_owned()),
            ("authors".to_owned(), "Doc Writer, Other Author".to_owned()),
            ("firstname".to_owned(), "Doc".to_owned()),
            ("firstname_1".to_owned(), "Doc".to_owned()),
            ("firstname_2".to_owned(), "Other".to_owned()),
            ("lastname".to_owned(), "Writer".to_owned()),
            ("lastname_1".to_owned(), "Writer".to_owned()),
            ("lastname_2".to_owned(), "Author".to_owned()),
        ])
    );
}

#[test]
fn parses_middle_name_parts_for_author_attribute() {
    let document = parse_document("= Document Title\n:author: Doc Middle Writer\n\ncontent");

    assert_eq!(
        document.attributes,
        AttributeMap::from_pairs(vec![
            ("author".to_owned(), "Doc Middle Writer".to_owned()),
            ("authorcount".to_owned(), "1".to_owned()),
            ("authorinitials".to_owned(), "DMW".to_owned()),
            ("authors".to_owned(), "Doc Middle Writer".to_owned()),
            ("firstname".to_owned(), "Doc".to_owned()),
            ("lastname".to_owned(), "Writer".to_owned()),
            ("middlename".to_owned(), "Middle".to_owned()),
        ])
    );
}

#[test]
fn parses_revision_attributes_in_document_header() {
    let document = parse_document(
        "= Document Title\n:revnumber: 1.2\n:revdate: 2026-03-31\n:revremark: Draft\n\ncontent",
    );

    assert_eq!(
        document.attributes,
        AttributeMap::from_pairs(vec![
            ("revdate".to_owned(), "2026-03-31".to_owned()),
            ("revnumber".to_owned(), "1.2".to_owned()),
            ("revremark".to_owned(), "Draft".to_owned())
        ])
    );
}

#[test]
fn parses_implicit_author_line_in_document_header() {
    let document = parse_document("= Document Title\nJane Doe\n\ncontent");

    assert_eq!(
        document.attributes,
        AttributeMap::from_pairs(vec![
            ("author".to_owned(), "Jane Doe".to_owned()),
            ("authorcount".to_owned(), "1".to_owned()),
            ("authorinitials".to_owned(), "JD".to_owned()),
            ("authors".to_owned(), "Jane Doe".to_owned()),
            ("firstname".to_owned(), "Jane".to_owned()),
            ("lastname".to_owned(), "Doe".to_owned()),
        ])
    );
}

#[test]
fn parses_implicit_author_email_line_in_document_header() {
    let document =
        parse_document("= Document Title\nStuart Rackham <founder@asciidoc.org>\n\ncontent");

    assert_eq!(
        document.attributes,
        AttributeMap::from_pairs(vec![
            ("author".to_owned(), "Stuart Rackham".to_owned()),
            ("authorcount".to_owned(), "1".to_owned()),
            ("authorinitials".to_owned(), "SR".to_owned()),
            ("authors".to_owned(), "Stuart Rackham".to_owned()),
            ("email".to_owned(), "founder@asciidoc.org".to_owned()),
            ("firstname".to_owned(), "Stuart".to_owned()),
            ("lastname".to_owned(), "Rackham".to_owned()),
        ])
    );
}

#[test]
fn parses_implicit_revision_line_in_document_header() {
    let document = parse_document(
        "= Document Title\nStuart Rackham <founder@asciidoc.org>\nv8.6.8, 2012-07-12: See changelog.\n\ncontent",
    );

    assert_eq!(
        document.attributes,
        AttributeMap::from_pairs(vec![
            ("author".to_owned(), "Stuart Rackham".to_owned()),
            ("authorcount".to_owned(), "1".to_owned()),
            ("authorinitials".to_owned(), "SR".to_owned()),
            ("authors".to_owned(), "Stuart Rackham".to_owned()),
            ("email".to_owned(), "founder@asciidoc.org".to_owned()),
            ("firstname".to_owned(), "Stuart".to_owned()),
            ("lastname".to_owned(), "Rackham".to_owned()),
            ("revdate".to_owned(), "2012-07-12".to_owned()),
            ("revnumber".to_owned(), "8.6.8".to_owned()),
            ("revremark".to_owned(), "See changelog.".to_owned()),
        ])
    );
}

#[test]
fn parses_implicit_revision_line_without_date() {
    let document = parse_document("= Document Title\nAuthor Name\nv1.0.0,:remark\n\ncontent");

    assert_eq!(
        document.attributes,
        AttributeMap::from_pairs(vec![
            ("author".to_owned(), "Author Name".to_owned()),
            ("authorcount".to_owned(), "1".to_owned()),
            ("authorinitials".to_owned(), "AN".to_owned()),
            ("authors".to_owned(), "Author Name".to_owned()),
            ("firstname".to_owned(), "Author".to_owned()),
            ("lastname".to_owned(), "Name".to_owned()),
            ("revnumber".to_owned(), "1.0.0".to_owned()),
            ("revremark".to_owned(), "remark".to_owned()),
        ])
    );
}

#[test]
fn parses_implicit_revision_line_without_date_or_remark() {
    let document = parse_document("= Document Title\nAndrew Stanton\nv1.0.0\n\ncontent");

    assert_eq!(
        document.attributes,
        AttributeMap::from_pairs(vec![
            ("author".to_owned(), "Andrew Stanton".to_owned()),
            ("authorcount".to_owned(), "1".to_owned()),
            ("authorinitials".to_owned(), "AS".to_owned()),
            ("authors".to_owned(), "Andrew Stanton".to_owned()),
            ("firstname".to_owned(), "Andrew".to_owned()),
            ("lastname".to_owned(), "Stanton".to_owned()),
            ("revnumber".to_owned(), "1.0.0".to_owned()),
        ])
    );
}

#[test]
fn ignores_implicit_revision_line_without_author_line() {
    let document = parse_document("= Document Title\nv1.0.0\n\ncontent");

    assert!(document.attributes.is_empty());
    assert_eq!(
        document.blocks,
        vec![
            Block::Paragraph(Paragraph {
                inlines: vec![Inline::Text("v1.0.0".into())],
                lines: vec!["v1.0.0".into()],
                id: None,
                reftext: None,
                metadata: BlockMetadata::default(),
            }),
            Block::Paragraph(Paragraph {
                inlines: vec![Inline::Text("content".into())],
                lines: vec!["content".into()],
                id: None,
                reftext: None,
                metadata: BlockMetadata::default(),
            }),
        ]
    );
}

#[test]
fn parses_implicit_metadata_before_explicit_attributes() {
    let document = parse_document(
        "= Document Title\n// author comment\nStuart Rackham <founder@asciidoc.org>\n// revision comment\nv1.0, 2001-01-01\n:toc: left\n\ncontent",
    );

    assert_eq!(
        document.attributes,
        AttributeMap::from_pairs(vec![
            ("author".to_owned(), "Stuart Rackham".to_owned()),
            ("authorcount".to_owned(), "1".to_owned()),
            ("authorinitials".to_owned(), "SR".to_owned()),
            ("authors".to_owned(), "Stuart Rackham".to_owned()),
            ("email".to_owned(), "founder@asciidoc.org".to_owned()),
            ("firstname".to_owned(), "Stuart".to_owned()),
            ("lastname".to_owned(), "Rackham".to_owned()),
            ("revdate".to_owned(), "2001-01-01".to_owned()),
            ("revnumber".to_owned(), "1.0".to_owned()),
            ("toc".to_owned(), "left".to_owned()),
        ])
    );
}

#[test]
fn parses_multiple_implicit_authors_without_trailing_semicolon() {
    let document = parse_document(
        "= Document Title\nDoc Writer <thedoctor@asciidoc.org>; Junior Writer <junior@asciidoctor.org>\n\ncontent",
    );

    assert_eq!(
        document.attributes,
        AttributeMap::from_pairs(vec![
            ("author".to_owned(), "Doc Writer".to_owned()),
            ("author_1".to_owned(), "Doc Writer".to_owned()),
            ("author_2".to_owned(), "Junior Writer".to_owned()),
            ("authorcount".to_owned(), "2".to_owned()),
            ("authorinitials".to_owned(), "DW".to_owned()),
            ("authorinitials_1".to_owned(), "DW".to_owned()),
            ("authorinitials_2".to_owned(), "JW".to_owned()),
            ("authors".to_owned(), "Doc Writer, Junior Writer".to_owned()),
            ("email".to_owned(), "thedoctor@asciidoc.org".to_owned()),
            ("email_1".to_owned(), "thedoctor@asciidoc.org".to_owned()),
            ("email_2".to_owned(), "junior@asciidoctor.org".to_owned()),
            ("firstname".to_owned(), "Doc".to_owned()),
            ("firstname_1".to_owned(), "Doc".to_owned()),
            ("firstname_2".to_owned(), "Junior".to_owned()),
            ("lastname".to_owned(), "Writer".to_owned()),
            ("lastname_1".to_owned(), "Writer".to_owned()),
            ("lastname_2".to_owned(), "Writer".to_owned()),
        ])
    );
}

#[test]
fn ignores_leading_header_comments_before_document_title() {
    let document =
        parse_document("// comment one\n// comment two\n= Document Title\n\ncontent");

    assert_eq!(
        document.title,
        Some(Heading {
            level: 0,
            title: "Document Title".into(),
            id: None,
            reftext: None,
            metadata: BlockMetadata::default(),
        })
    );
    assert_eq!(
        document.blocks,
        vec![Block::Paragraph(Paragraph {
            inlines: vec![Inline::Text("content".into())],
            lines: vec!["content".into()],
            id: None,
            reftext: None,
            metadata: BlockMetadata::default(),
        })]
    );
}

#[test]
fn ignores_header_comments_between_title_and_attributes() {
    let document =
        parse_document("= Document Title\n// comment\n:toc: left\n// another\n\ncontent");

    assert_eq!(
        document.attributes,
        AttributeMap::from_pairs(vec![("toc".to_owned(), "left".to_owned())])
    );
    assert_eq!(
        document.blocks,
        vec![Block::Paragraph(Paragraph {
            inlines: vec![Inline::Text("content".into())],
            lines: vec!["content".into()],
            id: None,
            reftext: None,
            metadata: BlockMetadata::default(),
        })]
    );
}

#[test]
fn ignores_leading_header_comments_without_title() {
    let document = parse_document("// comment one\n// comment two\nbody");

    assert_eq!(document.title, None);
    assert!(document.attributes.is_empty());
    assert_eq!(
        document.blocks,
        vec![Block::Paragraph(Paragraph {
            inlines: vec![Inline::Text("body".into())],
            lines: vec!["body".into()],
            id: None,
            reftext: None,
            metadata: BlockMetadata::default(),
        })]
    );
}

#[test]
fn stops_parsing_header_attributes_at_first_non_attribute_line() {
    let document = parse_document("= Document Title\n:toc: left\nintro text\n:ignored: value");

    assert_eq!(
        document.attributes,
        AttributeMap::from_pairs(vec![("toc".to_owned(), "left".to_owned())])
    );
    assert_eq!(
        document.blocks,
        vec![Block::Paragraph(Paragraph {
            inlines: vec![Inline::Text("intro text\n:ignored: value".into())],
            lines: vec!["intro text".into(), ":ignored: value".into()],
            id: None,
            reftext: None,
            metadata: BlockMetadata::default(),
        })]
    );
}

#[test]
fn stops_parsing_header_attributes_after_blank_line() {
    let document = parse_document("= Document Title\n:toc: left\n\n:body-attr: value");

    assert_eq!(
        document.attributes,
        AttributeMap::from_pairs(vec![
            ("body-attr".to_owned(), "value".to_owned()),
            ("toc".to_owned(), "left".to_owned())
        ])
    );
    assert!(document.blocks.is_empty());
}

#[test]
fn parses_top_level_attributes_without_document_title() {
    let document = parse_document(":icons:\n:iconsdir: /site/icons\n\nTIP: Ship it carefully.");

    assert_eq!(
        document.attributes,
        AttributeMap::from_pairs(vec![
            ("icons".to_owned(), String::new()),
            ("iconsdir".to_owned(), "/site/icons".to_owned()),
        ])
    );
    assert_eq!(document.title, None);
    assert_eq!(document.blocks.len(), 1);
}

#[test]
fn parses_body_attributes_before_later_blocks_without_rendering_them() {
    let document = parse_document(
        "= Demo\n\nIntro paragraph.\n\n:icons:\n:iconsdir: /site/icons\n\n[TIP,icon=hint,icontype=svg,caption=\"Custom Tip\"]\nShip it carefully.",
    );

    assert_eq!(
        document.attributes.get("icons").map(String::as_str),
        Some("")
    );
    assert_eq!(
        document.attributes.get("iconsdir").map(String::as_str),
        Some("/site/icons")
    );
    assert_eq!(document.blocks.len(), 2);
}

#[test]
fn parses_multiline_body_attribute_before_later_blocks() {
    let document = parse_document(
        "= Demo\n\nIntro paragraph.\n\n:description: first segment \\\n  second segment\n\nTail paragraph.",
    );

    assert_eq!(
        document.attributes.get("description").map(String::as_str),
        Some("first segment second segment")
    );
    assert_eq!(document.blocks.len(), 2);
}

#[test]
fn does_not_treat_mixed_markers_as_heading() {
    let document = parse_document("=#= My Title");

    assert_eq!(document.title, None);
    assert_eq!(
        document.blocks,
        vec![Block::Paragraph(Paragraph {
            inlines: vec![Inline::Text("=#= My Title".into())],
            lines: vec!["=#= My Title".into()],
            id: None,
            reftext: None,
            metadata: BlockMetadata::default(),
        })]
    );
}

#[test]
fn parses_inline_markup_inside_paragraphs() {
    let document = parse_document("before *strong* and _emphasis_ after");
    let Block::Paragraph(paragraph) = &document.blocks[0] else {
        panic!("expected paragraph");
    };

    assert_eq!(paragraph.inlines.len(), 5);
    let Inline::Span(strong) = &paragraph.inlines[1] else {
        panic!("expected strong span");
    };
    assert_eq!(strong.variant, InlineVariant::Strong);
    assert_eq!(strong.form, InlineForm::Constrained);

    let Inline::Span(emphasis) = &paragraph.inlines[3] else {
        panic!("expected emphasis span");
    };
    assert_eq!(emphasis.variant, InlineVariant::Emphasis);
    assert_eq!(emphasis.form, InlineForm::Constrained);
}

#[test]
fn keeps_escaped_markup_literal_inside_paragraphs() {
    let document = parse_document(r"\*not strong* and \_not emphasis_");
    let Block::Paragraph(paragraph) = &document.blocks[0] else {
        panic!("expected paragraph");
    };

    assert_eq!(
        paragraph.inlines,
        vec![Inline::Text("*not strong* and _not emphasis_".into())]
    );
}

#[test]
fn parses_block_anchor_before_section_heading() {
    let document = parse_document("[[install,Installation]]\n== First Section");

    assert_eq!(
        document.blocks,
        vec![Block::Heading(Heading {
            level: 1,
            title: "First Section".into(),
            id: Some("install".into()),
            reftext: Some("Installation".into()),
            metadata: BlockMetadata::default()
        })]
    );
}

#[test]
fn parses_hash_anchor_before_paragraph() {
    let document = parse_document("[#intro,reftext=Introduction]\nHello");

    assert_eq!(
        document.blocks,
        vec![Block::Paragraph(Paragraph {
            inlines: vec![Inline::Text("Hello".into())],
            lines: vec!["Hello".into()],
            id: Some("intro".into()),
            reftext: Some("Introduction".into()),
            metadata: BlockMetadata::default()
        })]
    );
}

#[test]
fn parses_ordered_lists() {
    let document = parse_document(". first item\n. second item");

    assert_eq!(
        document.blocks,
        vec![Block::OrderedList(OrderedList {
            items: vec![
                ListItem {
                    blocks: vec![Block::Paragraph(Paragraph {
                        inlines: vec![Inline::Text("first item".into())],
                        lines: vec!["first item".into()],
                        id: None,
                        reftext: None,
                        metadata: BlockMetadata::default(),
                    })],
                },
                ListItem {
                    blocks: vec![Block::Paragraph(Paragraph {
                        inlines: vec![Inline::Text("second item".into())],
                        lines: vec!["second item".into()],
                        id: None,
                        reftext: None,
                        metadata: BlockMetadata::default(),
                    })],
                },
            ],
            reftext: None,
            metadata: BlockMetadata::default(),
        })]
    );
}

#[test]
fn parses_numeric_ordered_lists() {
    let document = parse_document("1. first item\n2. second item");

    assert_eq!(
        document.blocks,
        vec![Block::OrderedList(OrderedList {
            items: vec![
                ListItem {
                    blocks: vec![Block::Paragraph(Paragraph {
                        inlines: vec![Inline::Text("first item".into())],
                        lines: vec!["first item".into()],
                        id: None,
                        reftext: None,
                        metadata: BlockMetadata::default(),
                    })],
                },
                ListItem {
                    blocks: vec![Block::Paragraph(Paragraph {
                        inlines: vec![Inline::Text("second item".into())],
                        lines: vec!["second item".into()],
                        id: None,
                        reftext: None,
                        metadata: BlockMetadata::default(),
                    })],
                },
            ],
            reftext: None,
            metadata: BlockMetadata::default(),
        })]
    );
}

#[test]
fn parses_document_title_without_sections() {
    let document = parse_document("= My Title\n\nA paragraph.");

    assert_eq!(
        document.title,
        Some(Heading {
            level: 0,
            title: "My Title".into(),
            id: None,
            reftext: None,
            metadata: BlockMetadata::default(),
        })
    );
    assert_eq!(
        document.blocks,
        vec![Block::Paragraph(Paragraph {
            inlines: vec![Inline::Text("A paragraph.".into())],
            lines: vec!["A paragraph.".into()],
            id: None,
            reftext: None,
            metadata: BlockMetadata::default(),
        })]
    );
}

#[test]
fn does_not_treat_second_level_zero_heading_as_title() {
    let document = parse_document("= First Title\n\n= Second Title");

    assert_eq!(
        document.title,
        Some(Heading {
            level: 0,
            title: "First Title".into(),
            id: None,
            reftext: None,
            metadata: BlockMetadata::default(),
        })
    );
    assert_eq!(
        document.blocks,
        vec![Block::Heading(Heading {
            level: 0,
            title: "Second Title".into(),
            id: None,
            reftext: None,
            metadata: BlockMetadata::default(),
        })]
    );
}

#[test]
fn parses_unordered_lists() {
    let document = parse_document("* first item\n- second item");

    assert_eq!(
        document.blocks,
        vec![Block::UnorderedList(UnorderedList {
            items: vec![
                ListItem {
                    blocks: vec![Block::Paragraph(Paragraph {
                        inlines: vec![Inline::Text("first item".into())],
                        lines: vec!["first item".into()],
                        id: None,
                        reftext: None,
                        metadata: BlockMetadata::default(),
                    })],
                },
                ListItem {
                    blocks: vec![Block::Paragraph(Paragraph {
                        inlines: vec![Inline::Text("second item".into())],
                        lines: vec!["second item".into()],
                        id: None,
                        reftext: None,
                        metadata: BlockMetadata::default(),
                    })],
                },
            ],
            reftext: None,
            metadata: BlockMetadata::default(),
        })]
    );
}

#[test]
fn parses_nested_lists() {
    let document = parse_document("* parent\n** child\n* sibling");

    assert_eq!(
        document.blocks,
        vec![Block::UnorderedList(UnorderedList {
            items: vec![
                ListItem {
                    blocks: vec![
                        Block::Paragraph(Paragraph {
                            inlines: vec![Inline::Text("parent".into())],
                            lines: vec!["parent".into()],
                            id: None,
                            reftext: None,
                            metadata: BlockMetadata::default(),
                        }),
                        Block::UnorderedList(UnorderedList {
                            items: vec![ListItem {
                                blocks: vec![Block::Paragraph(Paragraph {
                                    inlines: vec![Inline::Text("child".into())],
                                    lines: vec!["child".into()],
                                    id: None,
                                    reftext: None,
                                    metadata: BlockMetadata::default(),
                                })],
                            }],
                            reftext: None,
                            metadata: BlockMetadata::default(),
                        }),
                    ],
                },
                ListItem {
                    blocks: vec![Block::Paragraph(Paragraph {
                        inlines: vec![Inline::Text("sibling".into())],
                        lines: vec!["sibling".into()],
                        id: None,
                        reftext: None,
                        metadata: BlockMetadata::default(),
                    })],
                },
            ],
            reftext: None,
            metadata: BlockMetadata::default(),
        })]
    );
}

#[test]
fn parses_list_continuation_paragraphs() {
    let document = parse_document("1. first item\n+\ncontinued paragraph\n2. second item");

    assert_eq!(
        document.blocks,
        vec![Block::OrderedList(OrderedList {
            items: vec![
                ListItem {
                    blocks: vec![
                        Block::Paragraph(Paragraph {
                            inlines: vec![Inline::Text("first item".into())],
                            lines: vec!["first item".into()],
                            id: None,
                            reftext: None,
                            metadata: BlockMetadata::default(),
                        }),
                        Block::Paragraph(Paragraph {
                            inlines: vec![Inline::Text("continued paragraph".into())],
                            lines: vec!["continued paragraph".into()],
                            id: None,
                            reftext: None,
                            metadata: BlockMetadata::default(),
                        }),
                    ],
                },
                ListItem {
                    blocks: vec![Block::Paragraph(Paragraph {
                        inlines: vec![Inline::Text("second item".into())],
                        lines: vec!["second item".into()],
                        id: None,
                        reftext: None,
                        metadata: BlockMetadata::default(),
                    })],
                },
            ],
            reftext: None,
            metadata: BlockMetadata::default(),
        })]
    );
}

#[test]
fn parses_delimited_listing_blocks() {
    let document = parse_document("----\ndef main\n  puts 'hello'\nend\n----");

    assert_eq!(
        document.blocks,
        vec![Block::Listing(Listing {
            lines: vec!["def main".into(), "  puts 'hello'".into(), "end".into()],
            callouts: vec![],
            reftext: None,
            metadata: BlockMetadata::default(),
        })]
    );
}

#[test]
fn parses_delimited_listing_blocks_with_longer_delimiters() {
    let document = parse_document("------\ndef main\n  puts 'hello'\nend\n------");

    let [Block::Listing(listing)] = document.blocks.as_slice() else {
        panic!("expected listing");
    };
    assert_eq!(listing.lines, vec!["def main", "  puts 'hello'", "end"]);
}

#[test]
fn parses_fenced_code_blocks_as_source_listings() {
    let document = parse_document("```rust,linenums\nfn main() {}\n```");

    let [Block::Listing(listing)] = document.blocks.as_slice() else {
        panic!("expected listing");
    };
    assert_eq!(listing.lines, vec!["fn main() {}"]);
    assert_eq!(listing.metadata.style.as_deref(), Some("source"));
    assert_eq!(
        listing
            .metadata
            .attributes
            .get("language")
            .map(String::as_str),
        Some("rust")
    );
    assert!(
        listing
            .metadata
            .options
            .iter()
            .any(|option| option == "linenums")
    );
    assert_eq!(
        listing
            .metadata
            .attributes
            .get("cloaked-context")
            .map(String::as_str),
        Some("fenced_code")
    );
}

#[test]
fn does_not_recognize_fenced_code_blocks_with_more_than_three_backticks() {
    let document = parse_document("````rust\nfn main() {}\n````");

    let [Block::Paragraph(paragraph)] = document.blocks.as_slice() else {
        panic!("expected paragraph");
    };
    assert_eq!(paragraph.plain_text(), "````rust\nfn main() {}\n````");
}

#[test]
fn parses_tables_with_header_option() {
    let document = parse_document(
        ".Agents\n[%header,cols=\"30%,\"]\n|===\n|Name|Email\n|Peter|peter@example.com\n|Adam|adam@example.com\n|===",
    );

    let [Block::Table(table)] = document.blocks.as_slice() else {
        panic!("expected table");
    };
    assert_eq!(table.metadata.title.as_deref(), Some("Agents"));
    assert_eq!(table.metadata.options, vec!["header"]);
    assert_eq!(table.header.as_ref().map(|row| row.cells.len()), Some(2));
    assert_eq!(
        table
            .header
            .as_ref()
            .map(|row| row.cells[0].content.as_str()),
        Some("Name")
    );
    assert_eq!(table.rows.len(), 2);
    assert_eq!(table.rows[0].cells[1].content, "peter@example.com");
}

#[test]
fn parses_tables_with_bang_delimiters() {
    let document = parse_document("!===\n!Name!Email\n!Peter!peter@example.com\n!===");

    let [Block::Table(table)] = document.blocks.as_slice() else {
        panic!("expected table");
    };
    assert_eq!(table.rows.len(), 2);
    assert_eq!(table.rows[0].cells[0].content, "Name");
    assert_eq!(table.rows[1].cells[1].content, "peter@example.com");
}

#[test]
fn parses_tables_with_custom_ascii_doc_separator() {
    let document = parse_document(
        "[cols=\"1,1\",separator=!]\n|===\n!Pipe output to vim\na!\n----\nasciidoctor -o - -s test.adoc | view -\n----\n|===",
    );

    let [Block::Table(table)] = document.blocks.as_slice() else {
        panic!("expected table");
    };
    assert_eq!(table.rows.len(), 1);
    assert_eq!(table.rows[0].cells[0].content, "Pipe output to vim");
    assert_eq!(table.rows[0].cells[1].style.as_deref(), Some("asciidoc"));
    let Block::Listing(listing) = &table.rows[0].cells[1].blocks[0] else {
        panic!("expected listing in AsciiDoc cell");
    };
    assert_eq!(listing.lines[0], "asciidoctor -o - -s test.adoc | view -");
}

#[test]
fn parses_csv_tables_with_shorthand_delimiter() {
    let document =
        parse_document(",===\nArtist,Track,Genre\nBaauer,Harlem Shake,Hip Hop\n,===");

    let [Block::Table(table)] = document.blocks.as_slice() else {
        panic!("expected table");
    };
    assert_eq!(table.rows.len(), 2);
    assert_eq!(table.rows[0].cells.len(), 3);
    assert_eq!(table.rows[1].cells[1].content, "Harlem Shake");
}

#[test]
fn parses_dsv_tables_with_shorthand_delimiter() {
    let document = parse_document(":===\nArtist:Track:Genre\nRobyn:Indestructible:Dance\n:===");

    let [Block::Table(table)] = document.blocks.as_slice() else {
        panic!("expected table");
    };
    assert_eq!(table.rows.len(), 2);
    assert_eq!(table.rows[0].cells.len(), 3);
    assert_eq!(table.rows[1].cells[2].content, "Dance");
}

#[test]
fn parses_tables_with_cells_stacked_across_lines() {
    let document = parse_document(
        ".Agents\n[%header,cols=\"30%,70%\"]\n|===\n|Name\n|Email\n|Peter\n|peter@example.com\n|Adam\n|adam@example.com\n|===",
    );

    let [Block::Table(table)] = document.blocks.as_slice() else {
        panic!("expected table");
    };
    assert_eq!(table.header.as_ref().map(|row| row.cells.len()), Some(2));
    assert_eq!(
        table
            .header
            .as_ref()
            .map(|row| row.cells[0].content.as_str()),
        Some("Name")
    );
    assert_eq!(
        table
            .header
            .as_ref()
            .map(|row| row.cells[1].content.as_str()),
        Some("Email")
    );
    assert_eq!(table.rows.len(), 2);
    assert_eq!(table.rows[0].cells[0].content, "Peter");
    assert_eq!(table.rows[0].cells[1].content, "peter@example.com");
}

#[test]
fn parses_tables_with_stacked_cells_without_cols_when_rows_are_separated() {
    let document = parse_document(
        ".Agents\n[%header]\n|===\n|Name\n|Email\n\n|Peter\n|peter@example.com\n\n|Adam\n|adam@example.com\n|===",
    );

    let [Block::Table(table)] = document.blocks.as_slice() else {
        panic!("expected table");
    };
    assert_eq!(table.header.as_ref().map(|row| row.cells.len()), Some(2));
    assert_eq!(table.rows.len(), 2);
    assert_eq!(table.rows[0].cells[0].content, "Peter");
    assert_eq!(table.rows[0].cells[1].content, "peter@example.com");
    assert_eq!(table.rows[1].cells[0].content, "Adam");
    assert_eq!(table.rows[1].cells[1].content, "adam@example.com");
}

#[test]
fn parses_block_content_inside_table_cells() {
    let document = parse_document(
        ".Services\n[%header,cols=\"1,3\"]\n|===\n|Name\n|Details\n|API\n|First paragraph.\n\n* fast\n* typed\n|===",
    );

    let [Block::Table(table)] = document.blocks.as_slice() else {
        panic!("expected table");
    };
    let detail_cell = &table.rows[0].cells[1];
    assert_eq!(detail_cell.blocks.len(), 2);
    let Block::Paragraph(paragraph) = &detail_cell.blocks[0] else {
        panic!("expected paragraph in table cell");
    };
    assert_eq!(paragraph.plain_text(), "First paragraph.");
    let Block::UnorderedList(list) = &detail_cell.blocks[1] else {
        panic!("expected unordered list in table cell");
    };
    assert_eq!(list.items.len(), 2);
}

#[test]
fn parses_table_cell_specs_for_rowspan_and_asciidoc_style() {
    let document = parse_document(
        "[%header,cols=\"1,2\"]\n|===\nh|Area\n|Description\n\n.2+|Shared\na|First paragraph.\n+\nSecond paragraph.\n\n|Another description\n|===",
    );

    let [Block::Table(table)] = document.blocks.as_slice() else {
        panic!("expected table");
    };
    assert_eq!(
        table
            .header
            .as_ref()
            .map(|row| row.cells[0].style.as_deref()),
        Some(Some("header"))
    );
    assert_eq!(table.rows[0].cells[0].rowspan, 2);
    assert_eq!(table.rows[0].cells[0].content, "Shared");
    assert_eq!(table.rows[0].cells[1].style.as_deref(), Some("asciidoc"));
    assert_eq!(table.rows[0].cells[1].blocks.len(), 2);
    assert_eq!(table.rows[1].cells.len(), 1);
}

#[test]
fn parses_table_cell_specs_on_later_cells_in_same_line() {
    let document = parse_document(
        "[%header,cols=\"1,2\"]\n|===\n|Name|h|Email\n|API|a|First paragraph.\n+\nSecond paragraph.\n|===",
    );

    let [Block::Table(table)] = document.blocks.as_slice() else {
        panic!("expected table");
    };
    assert_eq!(table.header.as_ref().map(|row| row.cells.len()), Some(2));
    assert_eq!(
        table
            .header
            .as_ref()
            .map(|row| row.cells[1].style.as_deref()),
        Some(Some("header"))
    );
    assert_eq!(table.rows[0].cells[1].style.as_deref(), Some("asciidoc"));
    assert_eq!(table.rows[0].cells[1].blocks.len(), 2);
}

#[test]
fn parses_multiline_asciidoc_cell_after_later_cell_spec_on_new_row() {
    let document = parse_document(
        "[%header,cols=\"1,2\"]\n|===\nh|Area\n|Description\n\n|North|Plain cell\n|South|a|AsciiDoc cell with a list:\n\n* first\n* second\n|===",
    );

    let [Block::Table(table)] = document.blocks.as_slice() else {
        panic!("expected table");
    };
    assert_eq!(table.header.as_ref().map(|row| row.cells.len()), Some(2));
    assert_eq!(table.rows.len(), 2);
    assert_eq!(table.rows[0].cells[0].content, "North");
    assert_eq!(table.rows[0].cells[1].content, "Plain cell");
    assert_eq!(table.rows[1].cells[0].content, "South");
    assert_eq!(table.rows[1].cells[1].style.as_deref(), Some("asciidoc"));
    assert_eq!(table.rows[1].cells[1].blocks.len(), 2);
    let Block::Paragraph(paragraph) = &table.rows[1].cells[1].blocks[0] else {
        panic!("expected paragraph");
    };
    assert_eq!(paragraph.plain_text(), "AsciiDoc cell with a list:");
    let Block::UnorderedList(list) = &table.rows[1].cells[1].blocks[1] else {
        panic!("expected unordered list");
    };
    assert_eq!(list.items.len(), 2);
}

#[test]
fn parses_nested_tables_with_alternate_delimiters() {
    let document = parse_document(
        "[cols=\"1,2a\"]\n|===\n|Normal cell\n|Cell with nested table\n[cols=\"2,1\"]\n!===\n!Nested table cell 1 !Nested table cell 2\n!===\n|===",
    );

    let [Block::Table(table)] = document.blocks.as_slice() else {
        panic!("expected table");
    };
    let nested_table = table.rows[0].cells[1]
        .blocks
        .iter()
        .find_map(|block| match block {
            Block::Table(table) => Some(table),
            _ => None,
        })
        .expect("expected nested table");
    assert_eq!(nested_table.rows.len(), 1);
    assert_eq!(nested_table.rows[0].cells[0].content, "Nested table cell 1");
    assert_eq!(nested_table.rows[0].cells[1].content, "Nested table cell 2");
}

#[test]
fn infers_table_grid_for_spans_without_cols() {
    let document =
        parse_document("|===\n|Name|Description\n\n.2+|Shared\n|First\n\n|Second\n|===");

    let [Block::Table(table)] = document.blocks.as_slice() else {
        panic!("expected table");
    };
    assert_eq!(table.rows.len(), 3);
    assert_eq!(table.rows[1].cells[0].rowspan, 2);
    assert_eq!(table.rows[1].cells[1].content, "First");
    assert_eq!(table.rows[2].cells.len(), 1);
    assert_eq!(table.rows[2].cells[0].content, "Second");
}

#[test]
fn applies_anchor_to_tables() {
    let document = parse_document(
        "[[deploy-table,Deployment Table]]\n|===\n|Name|Email\n|Peter|peter@example.com\n|===",
    );

    let [Block::Table(table)] = document.blocks.as_slice() else {
        panic!("expected table");
    };
    assert_eq!(table.metadata.id.as_deref(), Some("deploy-table"));
    assert_eq!(table.reftext.as_deref(), Some("Deployment Table"));
}

#[test]
fn applies_anchor_to_delimited_listing_blocks() {
    let document = parse_document("[[code-sample]]\n----\nputs 'hello'\n----");

    let [Block::Listing(listing)] = document.blocks.as_slice() else {
        panic!("expected listing");
    };
    assert_eq!(listing.metadata.id.as_deref(), Some("code-sample"));
    assert_eq!(listing.reftext, None);
}

#[test]
fn parses_delimited_sidebar_blocks() {
    let document = parse_document("****\n* one\n* two\n****");

    assert_eq!(
        document.blocks,
        vec![Block::Sidebar(CompoundBlock {
            blocks: vec![Block::UnorderedList(UnorderedList {
                items: vec![
                    ListItem {
                        blocks: vec![Block::Paragraph(Paragraph {
                            inlines: vec![Inline::Text("one".into())],
                            lines: vec!["one".into()],
                            id: None,
                            reftext: None,
                            metadata: BlockMetadata::default(),
                        })],
                    },
                    ListItem {
                        blocks: vec![Block::Paragraph(Paragraph {
                            inlines: vec![Inline::Text("two".into())],
                            lines: vec!["two".into()],
                            id: None,
                            reftext: None,
                            metadata: BlockMetadata::default(),
                        })],
                    },
                ],
                reftext: None,
                metadata: BlockMetadata::default(),
            })],
            reftext: None,
            context: None,
            metadata: BlockMetadata::default(),
        })]
    );
}

#[test]
fn applies_anchor_to_delimited_sidebar_blocks() {
    let document = parse_document("[[callouts]]\n****\ninside\n****");

    let [Block::Sidebar(sidebar)] = document.blocks.as_slice() else {
        panic!("expected sidebar");
    };
    assert_eq!(sidebar.metadata.id.as_deref(), Some("callouts"));
    assert_eq!(sidebar.reftext, None);
}

#[test]
fn parses_delimited_example_blocks() {
    let document = parse_document("====\nA paragraph.\n====");

    assert_eq!(
        document.blocks,
        vec![Block::Example(CompoundBlock {
            blocks: vec![Block::Paragraph(Paragraph {
                inlines: vec![Inline::Text("A paragraph.".into())],
                lines: vec!["A paragraph.".into()],
                id: None,
                reftext: None,
                metadata: BlockMetadata::default(),
            })],
            reftext: None,
            context: None,
            metadata: BlockMetadata::default(),
        })]
    );
}

#[test]
fn parses_nested_example_blocks_with_longer_child_delimiters() {
    let document = parse_document("====\n======\ninside\n======\n====");

    let [Block::Example(example)] = document.blocks.as_slice() else {
        panic!("expected example");
    };
    let [Block::Example(inner)] = example.blocks.as_slice() else {
        panic!("expected nested example");
    };
    let [Block::Paragraph(paragraph)] = inner.blocks.as_slice() else {
        panic!("expected nested paragraph");
    };
    assert_eq!(paragraph.plain_text(), "inside");
}

#[test]
fn parses_nested_example_blocks_with_shorter_child_delimiters() {
    let document = parse_document("======\n====\ninside\n====\n======");

    let [Block::Example(example)] = document.blocks.as_slice() else {
        panic!("expected example");
    };
    let [Block::Example(inner)] = example.blocks.as_slice() else {
        panic!("expected nested example");
    };
    let [Block::Paragraph(paragraph)] = inner.blocks.as_slice() else {
        panic!("expected nested paragraph");
    };
    assert_eq!(paragraph.plain_text(), "inside");
}

#[test]
fn does_not_close_delimited_block_with_mismatched_delimiter_length() {
    let document = parse_document("====\ninside\n======");

    let [Block::Paragraph(paragraph)] = document.blocks.as_slice() else {
        panic!("expected paragraph");
    };
    assert_eq!(paragraph.lines, vec!["====", "inside", "======"]);
}

#[test]
fn ignores_comment_blocks_with_longer_delimiters() {
    let document = parse_document("//////\nignore me\n//////\n\nvisible");

    let [Block::Paragraph(paragraph)] = document.blocks.as_slice() else {
        panic!("expected paragraph");
    };
    assert_eq!(paragraph.plain_text(), "visible");
}

#[test]
fn applies_anchor_to_delimited_example_blocks() {
    let document = parse_document("[[walkthrough]]\n====\nA paragraph.\n====");

    let [Block::Example(example)] = document.blocks.as_slice() else {
        panic!("expected example");
    };
    assert_eq!(example.metadata.id.as_deref(), Some("walkthrough"));
    assert_eq!(example.reftext, None);
}

#[test]
fn parses_delimited_listing_block_title_and_attributes() {
    let document = parse_document(".Exhibit A\n[source,rust]\n----\nfn main() {}\n----");

    let [Block::Listing(listing)] = document.blocks.as_slice() else {
        panic!("expected listing");
    };
    assert_eq!(listing.metadata.title.as_deref(), Some("Exhibit A"));
    assert_eq!(listing.metadata.style.as_deref(), Some("source"));
    assert_eq!(
        listing.metadata.attributes.get("$1").map(String::as_str),
        Some("source")
    );
    assert_eq!(
        listing.metadata.attributes.get("$2").map(String::as_str),
        Some("rust")
    );
    assert_eq!(
        listing
            .metadata
            .attributes
            .get("language")
            .map(String::as_str),
        Some("rust")
    );
}

#[test]
fn parses_delimited_listing_block_title_with_stacked_attribute_lists() {
    let document =
        parse_document(".Exhibit A\n[source]\n[rust,linenums]\n----\nfn main() {}\n----");

    let [Block::Listing(listing)] = document.blocks.as_slice() else {
        panic!("expected listing");
    };
    assert_eq!(listing.metadata.title.as_deref(), Some("Exhibit A"));
    assert_eq!(listing.metadata.style.as_deref(), Some("source"));
    assert_eq!(
        listing.metadata.attributes.get("$1").map(String::as_str),
        Some("source")
    );
    assert_eq!(
        listing.metadata.attributes.get("$2").map(String::as_str),
        Some("rust")
    );
    assert_eq!(
        listing.metadata.attributes.get("$3").map(String::as_str),
        Some("linenums")
    );
    assert_eq!(
        listing
            .metadata
            .attributes
            .get("language")
            .map(String::as_str),
        Some("rust")
    );
    assert!(
        listing
            .metadata
            .options
            .iter()
            .any(|option| option == "linenums")
    );
}

#[test]
fn parses_delimited_sidebar_block_attributes() {
    let document = parse_document("[foo=bar,%open,.callout]\n****\ninside\n****");

    let [Block::Sidebar(sidebar)] = document.blocks.as_slice() else {
        panic!("expected sidebar");
    };
    assert_eq!(
        sidebar.metadata.attributes.get("foo").map(String::as_str),
        Some("bar")
    );
    assert_eq!(
        sidebar
            .metadata
            .attributes
            .get("open-option")
            .map(String::as_str),
        Some("")
    );
    assert_eq!(sidebar.metadata.role.as_deref(), Some("callout"));
    assert_eq!(sidebar.metadata.options, vec!["open"]);
    assert_eq!(sidebar.metadata.roles, vec!["callout"]);
}

#[test]
fn parses_non_delimited_block_with_stacked_attribute_lists() {
    let document = parse_document(".Exhibit A\n[source]\n[rust]\nfn main() {}");

    let [Block::Listing(listing)] = document.blocks.as_slice() else {
        panic!("expected listing");
    };
    assert_eq!(listing.metadata.title.as_deref(), Some("Exhibit A"));
    assert_eq!(listing.metadata.style.as_deref(), Some("source"));
    assert_eq!(
        listing.metadata.attributes.get("$1").map(String::as_str),
        Some("source")
    );
    assert_eq!(
        listing.metadata.attributes.get("$2").map(String::as_str),
        Some("rust")
    );
    assert_eq!(
        listing
            .metadata
            .attributes
            .get("language")
            .map(String::as_str),
        Some("rust")
    );
}

#[test]
fn applies_anchor_to_unordered_lists() {
    let document = parse_document("[[steps]]\n* one");

    let [Block::UnorderedList(list)] = document.blocks.as_slice() else {
        panic!("expected unordered list");
    };
    assert_eq!(list.metadata.id.as_deref(), Some("steps"));
    assert_eq!(list.reftext, None);
}

#[test]
fn applies_anchor_to_ordered_lists() {
    let document = parse_document("[[recipe]]\n. one");

    let [Block::OrderedList(list)] = document.blocks.as_slice() else {
        panic!("expected ordered list");
    };
    assert_eq!(list.metadata.id.as_deref(), Some("recipe"));
    assert_eq!(list.reftext, None);
}

#[test]
fn preserves_anchor_reftext_for_unordered_lists() {
    let document = parse_document("[[steps,Setup Steps]]\n* one");

    let [Block::UnorderedList(list)] = document.blocks.as_slice() else {
        panic!("expected unordered list");
    };
    assert_eq!(list.metadata.id.as_deref(), Some("steps"));
    assert_eq!(list.reftext.as_deref(), Some("Setup Steps"));
}

#[test]
fn preserves_anchor_reftext_for_delimited_blocks() {
    let document = parse_document(
        "[[code-sample,Code Sample]]\n----\nputs 'hello'\n----\n\n[[aside,Important Aside]]\n****\ninside\n****",
    );

    let [Block::Listing(listing), Block::Sidebar(sidebar)] = document.blocks.as_slice() else {
        panic!("expected listing and sidebar");
    };
    assert_eq!(listing.reftext.as_deref(), Some("Code Sample"));
    assert_eq!(sidebar.reftext.as_deref(), Some("Important Aside"));
}

#[test]
fn parses_admonition_paragraphs() {
    let document = parse_document("NOTE: This is _important_.");

    assert_eq!(
        document.blocks,
        vec![Block::Admonition(AdmonitionBlock {
            variant: AdmonitionVariant::Note,
            blocks: vec![Block::Paragraph(Paragraph {
                inlines: vec![
                    Inline::Text("This is ".into()),
                    Inline::Span(InlineSpan {
                        variant: InlineVariant::Emphasis,
                        form: InlineForm::Constrained,
                        inlines: vec![Inline::Text("important".into())],
                    }),
                    Inline::Text(".".into()),
                ],
                lines: vec!["This is _important_.".into()],
                id: None,
                reftext: None,
                metadata: BlockMetadata::default(),
            })],
            id: None,
            reftext: None,
            metadata: BlockMetadata::default(),
        })]
    );
}

#[test]
fn parses_styled_admonition_paragraphs() {
    let document = parse_document("[NOTE]\nRemember the milk.");

    let [Block::Admonition(admonition)] = document.blocks.as_slice() else {
        panic!("expected admonition");
    };
    assert_eq!(admonition.variant, AdmonitionVariant::Note);
    assert_eq!(admonition.id, None);
    assert_eq!(admonition.reftext, None);
    assert_eq!(admonition.metadata.style.as_deref(), Some("NOTE"));
    let [Block::Paragraph(paragraph)] = admonition.blocks.as_slice() else {
        panic!("expected paragraph");
    };
    assert_eq!(paragraph.plain_text(), "Remember the milk.");
}

#[test]
fn parses_styled_delimited_admonition_blocks() {
    let document = parse_document("[TIP]\n====\nRemember the milk.\n====");

    let [Block::Admonition(admonition)] = document.blocks.as_slice() else {
        panic!("expected admonition");
    };
    assert_eq!(admonition.variant, AdmonitionVariant::Tip);
    assert_eq!(admonition.id, None);
    assert_eq!(admonition.reftext, None);
    assert_eq!(admonition.metadata.style.as_deref(), Some("TIP"));
    let [Block::Paragraph(paragraph)] = admonition.blocks.as_slice() else {
        panic!("expected paragraph");
    };
    assert_eq!(paragraph.plain_text(), "Remember the milk.");
}

#[test]
fn applies_anchor_to_admonition_paragraphs() {
    let document = parse_document("[[install-note,Install Note]]\nNOTE: Read this first.");

    let [Block::Admonition(admonition)] = document.blocks.as_slice() else {
        panic!("expected admonition");
    };
    assert_eq!(admonition.id.as_deref(), Some("install-note"));
    assert_eq!(admonition.reftext.as_deref(), Some("Install Note"));
}

#[test]
fn applies_anchor_to_styled_delimited_admonitions() {
    let document =
        parse_document("[[ship-tip,Shipping Tip]]\n[TIP]\n====\nShip it carefully.\n====");

    let [Block::Admonition(admonition)] = document.blocks.as_slice() else {
        panic!("expected admonition");
    };
    assert_eq!(admonition.id.as_deref(), Some("ship-tip"));
    assert_eq!(admonition.reftext.as_deref(), Some("Shipping Tip"));
    assert_eq!(admonition.variant, AdmonitionVariant::Tip);
}

#[test]
fn parses_block_image_with_alt_text() {
    let document = parse_document("image::tiger.png[Tiger]");

    let [Block::Image(image)] = document.blocks.as_slice() else {
        panic!("expected image block, got: {:?}", document.blocks);
    };
    assert_eq!(image.target, "tiger.png");
    assert_eq!(image.alt, "Tiger");
    assert_eq!(image.width, None);
    assert_eq!(image.height, None);
}

#[test]
fn parses_block_image_with_dimensions() {
    let document = parse_document("image::images/tiger.png[Tiger, 200, 300]");

    let [Block::Image(image)] = document.blocks.as_slice() else {
        panic!("expected image block");
    };
    assert_eq!(image.target, "images/tiger.png");
    assert_eq!(image.alt, "Tiger");
    assert_eq!(image.width.as_deref(), Some("200"));
    assert_eq!(image.height.as_deref(), Some("300"));
}

#[test]
fn parses_block_image_with_auto_generated_alt() {
    let document = parse_document("image::images/lions-and-tigers.png[]");

    let [Block::Image(image)] = document.blocks.as_slice() else {
        panic!("expected image block");
    };
    assert_eq!(image.target, "images/lions-and-tigers.png");
    assert_eq!(image.alt, "lions and tigers");
}

#[test]
fn parses_block_image_with_named_attributes() {
    let document = parse_document("image::tiger.png[Tiger, link='http://example.com']");

    let [Block::Image(image)] = document.blocks.as_slice() else {
        panic!("expected image block");
    };
    assert_eq!(image.target, "tiger.png");
    assert_eq!(image.alt, "Tiger");
    assert_eq!(
        image.metadata.attributes.get("link").map(String::as_str),
        Some("http://example.com")
    );
}

#[test]
fn applies_prelude_to_block_image() {
    let document = parse_document(".The AsciiDoc Tiger\nimage::tiger.png[Tiger]");

    let [Block::Image(image)] = document.blocks.as_slice() else {
        panic!("expected image block");
    };
    assert_eq!(image.metadata.title.as_deref(), Some("The AsciiDoc Tiger"));
    assert_eq!(image.target, "tiger.png");
}

#[test]
fn parses_block_image_with_subdirectory_path() {
    let document = parse_document("image::assets/mupdate-update-flow/initial-inventory.png[]");

    let [Block::Image(image)] = document.blocks.as_slice() else {
        panic!("expected image block");
    };
    assert_eq!(
        image.target,
        "assets/mupdate-update-flow/initial-inventory.png"
    );
    assert_eq!(image.alt, "initial inventory");
}

#[test]
fn parses_quote_block() {
    let document =
        parse_document("[quote, Abraham Lincoln, Gettysburg Address]\n____\nFour score.\n____");

    let [Block::Quote(quote)] = document.blocks.as_slice() else {
        panic!("expected quote block");
    };
    assert!(!quote.is_verse);
    assert_eq!(quote.attribution.as_deref(), Some("Abraham Lincoln"));
    assert_eq!(quote.citetitle.as_deref(), Some("Gettysburg Address"));
    assert_eq!(quote.blocks.len(), 1);
}

#[test]
fn parses_quote_block_with_combined_style_id_and_positional_attributes() {
    let document = parse_document(
        "[quote#roads, Dr. Emmett Brown, Back to the Future]\n____\nRoads? Where we're going, we don't need roads.\n____",
    );

    let [Block::Quote(quote)] = document.blocks.as_slice() else {
        panic!("expected quote block");
    };
    assert_eq!(quote.metadata.style, None);
    assert_eq!(quote.metadata.id.as_deref(), Some("roads"));
    assert_eq!(quote.attribution.as_deref(), Some("Dr. Emmett Brown"));
    assert_eq!(quote.citetitle.as_deref(), Some("Back to the Future"));
}

#[test]
fn parses_quote_block_without_attribution() {
    let document = parse_document("____\nSome quoted text.\n____");

    let [Block::Quote(quote)] = document.blocks.as_slice() else {
        panic!("expected quote block");
    };
    assert!(!quote.is_verse);
    assert!(quote.attribution.is_none());
    assert!(quote.citetitle.is_none());
    assert_eq!(quote.blocks.len(), 1);
}

#[test]
fn parses_verse_block() {
    let document = parse_document(
        "[verse, Carl Sandburg, Fog]\n____\nThe fog comes\non little cat feet.\n____",
    );

    let [Block::Quote(quote)] = document.blocks.as_slice() else {
        panic!("expected verse block");
    };
    assert!(quote.is_verse);
    assert_eq!(quote.attribution.as_deref(), Some("Carl Sandburg"));
    assert_eq!(quote.citetitle.as_deref(), Some("Fog"));
    assert_eq!(
        quote.content.as_deref(),
        Some("The fog comes\non little cat feet.")
    );
}

#[test]
fn parses_delimited_literal_block() {
    let document = parse_document("....\n  indented preformatted text\n....");

    let [Block::Literal(literal)] = document.blocks.as_slice() else {
        panic!("expected literal block");
    };
    assert_eq!(literal.lines, vec!["  indented preformatted text"]);
}

#[test]
fn normalizes_trailing_spaces_before_parsing_blocks() {
    let document = parse_document("line one  \r\nline two\t\r\n");

    let [Block::Paragraph(paragraph)] = document.blocks.as_slice() else {
        panic!("expected paragraph");
    };
    assert_eq!(paragraph.lines, vec!["line one", "line two"]);
}

#[test]
fn parses_literal_styled_paragraph() {
    let document = parse_document("[literal]\nThis becomes preformatted.");

    let [Block::Literal(literal)] = document.blocks.as_slice() else {
        panic!("expected literal block");
    };
    assert_eq!(literal.lines, vec!["This becomes preformatted."]);
    assert_eq!(literal.metadata.style, None);
}

#[test]
fn parses_listing_styled_paragraph() {
    let document = parse_document("[listing]\nputs 'hello' <1>");

    let [Block::Listing(listing)] = document.blocks.as_slice() else {
        panic!("expected listing block");
    };
    assert_eq!(listing.lines, vec!["puts 'hello'"]);
    assert_eq!(listing.callouts, vec![(0, 1)]);
    assert_eq!(listing.metadata.style, None);
}

#[test]
fn parses_source_styled_paragraph() {
    let document = parse_document("[source,rust]\nfn main() {}");

    let [Block::Listing(listing)] = document.blocks.as_slice() else {
        panic!("expected listing block");
    };
    assert_eq!(listing.lines, vec!["fn main() {}"]);
    assert_eq!(listing.metadata.style.as_deref(), Some("source"));
    assert_eq!(
        listing
            .metadata
            .attributes
            .get("language")
            .map(String::as_str),
        Some("rust")
    );
}

#[test]
fn parses_source_blocks_with_positional_linenums_option() {
    let document = parse_document("[source,rust,linenums]\n----\nfn main() {}\n----");

    let [Block::Listing(listing)] = document.blocks.as_slice() else {
        panic!("expected listing block");
    };
    assert_eq!(listing.metadata.style.as_deref(), Some("source"));
    assert_eq!(
        listing
            .metadata
            .attributes
            .get("language")
            .map(String::as_str),
        Some("rust")
    );
    assert!(
        listing
            .metadata
            .options
            .iter()
            .any(|option| option == "linenums")
    );
    assert_eq!(
        listing
            .metadata
            .attributes
            .get("linenums-option")
            .map(String::as_str),
        Some("")
    );
}

#[test]
fn parses_quote_styled_paragraph() {
    let document = parse_document("[quote, Abraham Lincoln, Gettysburg Address]\nFour score.");

    let [Block::Quote(quote)] = document.blocks.as_slice() else {
        panic!("expected quote block");
    };
    assert_eq!(quote.attribution.as_deref(), Some("Abraham Lincoln"));
    assert_eq!(quote.citetitle.as_deref(), Some("Gettysburg Address"));
    assert!(!quote.is_verse);
    let [Block::Paragraph(paragraph)] = quote.blocks.as_slice() else {
        panic!("expected paragraph child");
    };
    assert_eq!(paragraph.plain_text(), "Four score.");
}

#[test]
fn parses_quote_styled_paragraph_with_combined_style_and_id() {
    let document = parse_document("[quote#roads]\nRoads? Where we're going, we don't need roads.");

    let [Block::Quote(quote)] = document.blocks.as_slice() else {
        panic!("expected quote block");
    };
    assert_eq!(quote.metadata.style, None);
    assert_eq!(quote.metadata.id.as_deref(), Some("roads"));
    assert!(quote.attribution.is_none());
    assert!(quote.citetitle.is_none());
    let [Block::Paragraph(paragraph)] = quote.blocks.as_slice() else {
        panic!("expected paragraph child");
    };
    assert_eq!(paragraph.plain_text(), "Roads? Where we're going, we don't need roads.");
}

#[test]
fn parses_sidebar_styled_paragraph() {
    let document = parse_document("[sidebar]\nA short aside.");

    let [Block::Sidebar(sidebar)] = document.blocks.as_slice() else {
        panic!("expected sidebar block");
    };
    assert_eq!(sidebar.metadata.style, None);
    let [Block::Paragraph(paragraph)] = sidebar.blocks.as_slice() else {
        panic!("expected paragraph child");
    };
    assert_eq!(paragraph.plain_text(), "A short aside.");
}

#[test]
fn parses_example_styled_paragraph() {
    let document = parse_document("[example]\nA short example.");

    let [Block::Example(example)] = document.blocks.as_slice() else {
        panic!("expected example block");
    };
    assert_eq!(example.metadata.style, None);
    let [Block::Paragraph(paragraph)] = example.blocks.as_slice() else {
        panic!("expected paragraph child");
    };
    assert_eq!(paragraph.plain_text(), "A short example.");
}

#[test]
fn parses_verse_styled_paragraph() {
    let document = parse_document("[verse, Carl Sandburg, Fog]\nThe fog comes\non little cat feet.");

    let [Block::Quote(quote)] = document.blocks.as_slice() else {
        panic!("expected verse block");
    };
    assert!(quote.is_verse);
    assert_eq!(quote.metadata.style, None);
    assert_eq!(
        quote.content.as_deref(),
        Some("The fog comes\non little cat feet.")
    );
    assert_eq!(quote.attribution.as_deref(), Some("Carl Sandburg"));
    assert_eq!(quote.citetitle.as_deref(), Some("Fog"));
}

#[test]
fn parses_abstract_styled_paragraph_as_open_block() {
    let document = parse_document("[abstract]\nAn abstract for the article.");

    let [Block::Open(open)] = document.blocks.as_slice() else {
        panic!("expected open block");
    };
    assert_eq!(open.metadata.style, None);
    assert_eq!(open.context, Some(OpenBlockContext::Abstract));
    let [Block::Paragraph(paragraph)] = open.blocks.as_slice() else {
        panic!("expected paragraph child");
    };
    assert_eq!(paragraph.plain_text(), "An abstract for the article.");
}

#[test]
fn parses_partintro_styled_paragraph_as_open_block() {
    let document = parse_document("[partintro]\nRead this first.");

    let [Block::Open(open)] = document.blocks.as_slice() else {
        panic!("expected open block");
    };
    assert_eq!(open.metadata.style, None);
    assert_eq!(open.context, Some(OpenBlockContext::PartIntro));
    let [Block::Paragraph(paragraph)] = open.blocks.as_slice() else {
        panic!("expected paragraph child");
    };
    assert_eq!(paragraph.plain_text(), "Read this first.");
}

#[test]
fn parses_comment_styled_paragraph_as_comment_open_block() {
    let document = parse_document("[comment]\nThis should stay hidden.");

    let [Block::Open(open)] = document.blocks.as_slice() else {
        panic!("expected open block");
    };
    assert_eq!(open.metadata.style, None);
    assert_eq!(open.context, Some(OpenBlockContext::Comment));
    let [Block::Paragraph(paragraph)] = open.blocks.as_slice() else {
        panic!("expected paragraph child");
    };
    assert_eq!(paragraph.plain_text(), "This should stay hidden.");
}

#[test]
fn parses_normal_styled_indented_paragraph_as_paragraph() {
    let document = parse_document("[normal]\n indented but not literal");

    let [Block::Paragraph(paragraph)] = document.blocks.as_slice() else {
        panic!("expected paragraph");
    };
    assert_eq!(paragraph.metadata.style, None);
    assert_eq!(paragraph.plain_text(), " indented but not literal");
}

#[test]
fn parses_pass_styled_paragraph() {
    let document = parse_document("[pass]\n<span>ok</span>");

    let [Block::Passthrough(passthrough)] = document.blocks.as_slice() else {
        panic!("expected passthrough block");
    };
    assert_eq!(passthrough.content, "<span>ok</span>");
    assert_eq!(passthrough.metadata.style, None);
}

#[test]
fn parses_stem_delimited_passthrough_block() {
    let document = parse_document("[stem]\n++++\nsqrt(4) = 2\n++++");

    let [Block::Passthrough(passthrough)] = document.blocks.as_slice() else {
        panic!("expected passthrough block");
    };
    assert_eq!(passthrough.content, "sqrt(4) = 2");
    assert_eq!(passthrough.metadata.style.as_deref(), Some("stem"));
}

#[test]
fn parses_indented_paragraph_as_literal() {
    let document = parse_document(" indented line one\n indented line two");

    let [Block::Literal(literal)] = document.blocks.as_slice() else {
        panic!("expected literal block");
    };
    assert_eq!(
        literal.lines,
        vec![" indented line one", " indented line two"]
    );
}

#[test]
fn parses_bare_open_block() {
    let document = parse_document("--\nparagraph one\n\nparagraph two\n--");

    let [Block::Open(open)] = document.blocks.as_slice() else {
        panic!("expected open block");
    };
    assert_eq!(open.blocks.len(), 2);
}

#[test]
fn parses_styled_open_block_as_sidebar() {
    let document = parse_document("[sidebar]\n--\ninside\n--");

    let [Block::Sidebar(_)] = document.blocks.as_slice() else {
        panic!("expected sidebar");
    };
}

#[test]
fn parses_styled_open_block_as_admonition() {
    let document = parse_document("[NOTE]\n--\nRemember this.\n--");

    let [Block::Admonition(admonition)] = document.blocks.as_slice() else {
        panic!("expected admonition");
    };
    assert_eq!(admonition.variant, AdmonitionVariant::Note);
    assert_eq!(admonition.blocks.len(), 1);
}

#[test]
fn parses_source_styled_open_block_as_listing() {
    let document = parse_document("[source,rust]\n--\nfn main() {} <1>\n--");

    let [Block::Listing(listing)] = document.blocks.as_slice() else {
        panic!("expected listing");
    };
    assert_eq!(listing.metadata.style.as_deref(), Some("source"));
    assert_eq!(
        listing
            .metadata
            .attributes
            .get("language")
            .map(String::as_str),
        Some("rust")
    );
    assert_eq!(listing.lines, vec!["fn main() {}"]);
    assert_eq!(listing.callouts, vec![(0, 1)]);
}

#[test]
fn parses_listing_styled_open_block_as_listing() {
    let document = parse_document("[listing]\n--\nputs 'hello' <1>\n--");

    let [Block::Listing(listing)] = document.blocks.as_slice() else {
        panic!("expected listing");
    };
    assert_eq!(listing.metadata.style, None);
    assert_eq!(listing.lines, vec!["puts 'hello'"]);
    assert_eq!(listing.callouts, vec![(0, 1)]);
}

#[test]
fn parses_literal_styled_open_block_as_literal() {
    let document = parse_document("[literal]\n--\n  preserved text\n--");

    let [Block::Literal(literal)] = document.blocks.as_slice() else {
        panic!("expected literal");
    };
    assert_eq!(literal.metadata.style, None);
    assert_eq!(literal.lines, vec!["  preserved text"]);
    assert!(literal.callouts.is_empty());
}

#[test]
fn parses_abstract_styled_open_block_as_open() {
    let document = parse_document("[abstract]\n--\nAbstract.\n--");

    let [Block::Open(open)] = document.blocks.as_slice() else {
        panic!("expected open block");
    };
    assert_eq!(open.metadata.style, None);
    assert_eq!(open.context, Some(OpenBlockContext::Abstract));
    assert_eq!(open.blocks.len(), 1);
}

#[test]
fn parses_partintro_styled_open_block_as_open() {
    let document = parse_document("[partintro]\n--\nIntro.\n--");

    let [Block::Open(open)] = document.blocks.as_slice() else {
        panic!("expected open block");
    };
    assert_eq!(open.metadata.style, None);
    assert_eq!(open.context, Some(OpenBlockContext::PartIntro));
    assert_eq!(open.blocks.len(), 1);
}

#[test]
fn parses_comment_styled_open_block_as_open() {
    let document = parse_document("[comment]\n--\nHidden.\n--");

    let [Block::Open(open)] = document.blocks.as_slice() else {
        panic!("expected open block");
    };
    assert_eq!(open.metadata.style, None);
    assert_eq!(open.context, Some(OpenBlockContext::Comment));
    assert_eq!(open.blocks.len(), 1);
}

#[test]
fn parses_pass_styled_open_block_as_passthrough() {
    let document = parse_document("[pass]\n--\n<span>ok</span>\n--");

    let [Block::Passthrough(passthrough)] = document.blocks.as_slice() else {
        panic!("expected passthrough block");
    };
    assert_eq!(passthrough.content, "<span>ok</span>");
    assert_eq!(passthrough.metadata.style, None);
}

#[test]
fn parses_stem_styled_open_block_as_passthrough() {
    let document = parse_document("[stem]\n--\nsqrt(4) = 2\n--");

    let [Block::Passthrough(passthrough)] = document.blocks.as_slice() else {
        panic!("expected passthrough block");
    };
    assert_eq!(passthrough.content, "sqrt(4) = 2");
    assert_eq!(passthrough.metadata.style.as_deref(), Some("stem"));
}

#[test]
fn parses_latexmath_styled_open_block_as_passthrough() {
    let document = parse_document("[latexmath]\n--\n\\alpha + \\beta\n--");

    let [Block::Passthrough(passthrough)] = document.blocks.as_slice() else {
        panic!("expected passthrough block");
    };
    assert_eq!(passthrough.content, "\\alpha + \\beta");
    assert_eq!(passthrough.metadata.style.as_deref(), Some("latexmath"));
}

#[test]
fn parses_asciimath_styled_open_block_as_passthrough() {
    let document = parse_document("[asciimath]\n--\nsqrt(4) = 2\n--");

    let [Block::Passthrough(passthrough)] = document.blocks.as_slice() else {
        panic!("expected passthrough block");
    };
    assert_eq!(passthrough.content, "sqrt(4) = 2");
    assert_eq!(passthrough.metadata.style.as_deref(), Some("asciimath"));
}

#[test]
fn parses_listing_styled_literal_block_as_listing() {
    let document = parse_document("[listing]\n....\nputs 'hello' <1>\n....");

    let [Block::Listing(listing)] = document.blocks.as_slice() else {
        panic!("expected listing");
    };
    assert_eq!(listing.metadata.style, None);
    assert_eq!(listing.lines, vec!["puts 'hello'"]);
    assert_eq!(listing.callouts, vec![(0, 1)]);
}

#[test]
fn parses_source_styled_literal_block_as_listing() {
    let document = parse_document("[source,rust]\n....\nfn main() {} <1>\n....");

    let [Block::Listing(listing)] = document.blocks.as_slice() else {
        panic!("expected listing");
    };
    assert_eq!(listing.metadata.style.as_deref(), Some("source"));
    assert_eq!(listing.lines, vec!["fn main() {}"]);
    assert_eq!(listing.callouts, vec![(0, 1)]);
    assert_eq!(
        listing
            .metadata
            .attributes
            .get("language")
            .map(String::as_str),
        Some("rust")
    );
}

#[test]
fn parses_literal_styled_listing_block_as_literal() {
    let document = parse_document("[literal]\n----\nputs 'hello' <1>\n----");

    let [Block::Literal(literal)] = document.blocks.as_slice() else {
        panic!("expected literal");
    };
    assert_eq!(literal.metadata.style, None);
    assert_eq!(literal.lines, vec!["puts 'hello' <1>"]);
    assert!(literal.callouts.is_empty());
}

#[test]
fn leaves_unknown_styled_open_block_as_open() {
    let document = parse_document("[custom]\n--\ninside\n--");

    let [Block::Open(open)] = document.blocks.as_slice() else {
        panic!("expected open block");
    };
    assert_eq!(open.metadata.style.as_deref(), Some("custom"));
    assert_eq!(open.blocks.len(), 1);
}
