use asciidoctor_rs::attrs::AttributeMap;
use asciidoctor_rs::ast::{
    Block, BlockMetadata, CompoundBlock as AstCompoundBlock, Document, Heading, Inline,
    InlineFootnote, InlineForm, InlineLink, InlineSpan, InlineVariant, InlineXref, ListItem,
    Listing, Paragraph, UnorderedList,
};
use asciidoctor_rs::parser::parse_document;
use asciidoctor_rs::prepare::{
    ContentModel, PreparedBlock, PreparedInline, TextInline, prepare_document,
};

#[test]
fn prepares_nested_sections_for_react_facing_output() {
    let document = Document {
        attributes: Default::default(),
        title: Some(Heading {
            level: 0,
            title: "Document Title".into(),
            id: None,
            reftext: None,
            metadata: BlockMetadata::default(),
        }),
        blocks: vec![
            Block::Paragraph(Paragraph {
                inlines: vec![Inline::Text("Preamble paragraph.".into())],
                lines: vec!["Preamble paragraph.".into()],
                id: None,
                reftext: None,
                metadata: BlockMetadata::default(),
            }),
            Block::Heading(Heading {
                level: 1,
                title: "Section A".into(),
                id: None,
                reftext: None,
                metadata: BlockMetadata::default(),
            }),
            Block::Paragraph(Paragraph {
                inlines: vec![Inline::Text("Section body.".into())],
                lines: vec!["Section body.".into()],
                id: None,
                reftext: None,
                metadata: BlockMetadata::default(),
            }),
            Block::Heading(Heading {
                level: 2,
                title: "Section A Child".into(),
                id: None,
                reftext: None,
                metadata: BlockMetadata::default(),
            }),
            Block::Paragraph(Paragraph {
                inlines: vec![Inline::Text("Nested body.".into())],
                lines: vec!["Nested body.".into()],
                id: None,
                reftext: None,
                metadata: BlockMetadata::default(),
            }),
            Block::Heading(Heading {
                level: 1,
                title: "Section B".into(),
                id: None,
                reftext: None,
                metadata: BlockMetadata::default(),
            }),
        ],
    };

    let prepared = prepare_document(&document);

    assert_eq!(prepared.node_type, "document");
    assert_eq!(prepared.title, "Document Title");
    assert_eq!(prepared.content_model, Some(ContentModel::Compound));
    assert!(prepared.attributes.is_empty());
    assert!(prepared.footnotes.is_empty());
    assert!(prepared.authors.is_empty());
    assert_eq!(prepared.sections.len(), 2);

    let PreparedBlock::Preamble(preamble) = &prepared.blocks[0] else {
        panic!("expected preamble block");
    };

    assert_eq!(preamble.blocks.len(), 1);

    let PreparedBlock::Section(section_a) = &prepared.blocks[1] else {
        panic!("expected section block");
    };

    assert_eq!(section_a.title, "Section A");
    assert_eq!(section_a.level, 1);
    assert_eq!(section_a.num, "");
    assert!(!section_a.numbered);
    assert_eq!(section_a.id, "_section_a");

    let PreparedBlock::Section(section_a_child) = &section_a.blocks[1] else {
        panic!("expected nested section block");
    };

    assert_eq!(section_a_child.title, "Section A Child");
    assert_eq!(section_a_child.level, 2);
    assert_eq!(section_a_child.num, "");
    assert!(!section_a_child.numbered);

    let PreparedBlock::Section(section_b) = &prepared.blocks[2] else {
        panic!("expected second top-level section block");
    };

    assert_eq!(section_b.num, "");
    assert!(!section_b.numbered);
}

#[test]
fn carries_document_attributes_into_prepared_output() {
    let document = Document {
        attributes: AttributeMap::from_pairs(vec![("toc".to_owned(), "left".to_owned())]),
        title: Some(Heading {
            level: 0,
            title: "Document Title".into(),
            id: None,
            reftext: None,
            metadata: BlockMetadata::default(),
        }),
        blocks: Vec::new(),
    };

    let prepared = prepare_document(&document);

    assert_eq!(
        prepared.attributes.get("toc").map(String::as_str),
        Some("left")
    );
}

#[test]
fn carries_author_attribute_into_prepared_authors() {
    let document = Document {
        attributes: AttributeMap::from_pairs(vec![("author".to_owned(), "Jane Doe".to_owned())]),
        title: Some(Heading {
            level: 0,
            title: "Document Title".into(),
            id: None,
            reftext: None,
            metadata: BlockMetadata::default(),
        }),
        blocks: Vec::new(),
    };

    let prepared = prepare_document(&document);

    assert_eq!(
        prepared.authors,
        vec![asciidoctor_rs::prepare::Author {
            name: Some("Jane Doe".into()),
            email: None,
        }]
    );
}

#[test]
fn carries_revision_attributes_into_prepared_revision() {
    let document = Document {
        attributes: AttributeMap::from_pairs(vec![
            ("revnumber".to_owned(), "1.2".to_owned()),
            ("revdate".to_owned(), "2026-03-31".to_owned()),
            ("revremark".to_owned(), "Draft".to_owned()),
        ]),
        title: Some(Heading {
            level: 0,
            title: "Document Title".into(),
            id: None,
            reftext: None,
            metadata: BlockMetadata::default(),
        }),
        blocks: Vec::new(),
    };

    let prepared = prepare_document(&document);

    assert_eq!(
        prepared.revision,
        Some(asciidoctor_rs::prepare::Revision {
            number: Some("1.2".into()),
            date: Some("2026-03-31".into()),
            remark: Some("Draft".into()),
        })
    );
}

#[test]
fn carries_implicit_header_metadata_into_prepared_output() {
    let document = parse_document(
        "= Document Title\nStuart Rackham <founder@asciidoc.org>\nv8.6.8, 2012-07-12: See changelog.\n\ncontent",
    );

    let prepared = prepare_document(&document);

    assert_eq!(
        prepared.authors,
        vec![asciidoctor_rs::prepare::Author {
            name: Some("Stuart Rackham".into()),
            email: Some("founder@asciidoc.org".into()),
        }]
    );
    assert_eq!(
        prepared.revision,
        Some(asciidoctor_rs::prepare::Revision {
            number: Some("8.6.8".into()),
            date: Some("2012-07-12".into()),
            remark: Some("See changelog.".into()),
        })
    );
    assert_eq!(
        prepared.attributes.get("author").map(String::as_str),
        Some("Stuart Rackham")
    );
    assert_eq!(
        prepared.attributes.get("email").map(String::as_str),
        Some("founder@asciidoc.org")
    );
}

#[test]
fn carries_multiple_implicit_authors_into_prepared_authors() {
    let document = parse_document(
        "= Document Title\nDoc Writer <thedoctor@asciidoc.org>; Junior Writer <junior@asciidoctor.org>\n\ncontent",
    );

    let prepared = prepare_document(&document);

    assert_eq!(
        prepared.authors,
        vec![
            asciidoctor_rs::prepare::Author {
                name: Some("Doc Writer".into()),
                email: Some("thedoctor@asciidoc.org".into()),
            },
            asciidoctor_rs::prepare::Author {
                name: Some("Junior Writer".into()),
                email: Some("junior@asciidoctor.org".into()),
            },
        ]
    );
}

#[test]
fn carries_explicit_authors_attribute_into_prepared_authors() {
    let document =
        parse_document("= Document Title\n:authors: Doc Writer; Other Author\n\ncontent");

    let prepared = prepare_document(&document);

    assert_eq!(
        prepared.authors,
        vec![
            asciidoctor_rs::prepare::Author {
                name: Some("Doc Writer".into()),
                email: None,
            },
            asciidoctor_rs::prepare::Author {
                name: Some("Other Author".into()),
                email: None,
            },
        ]
    );
    assert_eq!(
        prepared
            .attributes
            .get("authorinitials")
            .map(String::as_str),
        Some("DW")
    );
    assert_eq!(
        prepared
            .attributes
            .get("authorinitials_2")
            .map(String::as_str),
        Some("OA")
    );
}

#[test]
fn carries_email_attribute_into_prepared_authors() {
    let document = Document {
        attributes: AttributeMap::from_pairs(vec![("email".to_owned(), "jane@example.com".to_owned())]),
        title: Some(Heading {
            level: 0,
            title: "Document Title".into(),
            id: None,
            reftext: None,
            metadata: BlockMetadata::default(),
        }),
        blocks: Vec::new(),
    };

    let prepared = prepare_document(&document);

    assert_eq!(
        prepared.authors,
        vec![asciidoctor_rs::prepare::Author {
            name: None,
            email: Some("jane@example.com".into()),
        }]
    );
}

#[test]
fn merges_author_and_email_attributes_into_single_author() {
    let document = Document {
        attributes: AttributeMap::from_pairs(vec![
            ("author".to_owned(), "Jane Doe".to_owned()),
            ("email".to_owned(), "jane@example.com".to_owned()),
        ]),
        title: Some(Heading {
            level: 0,
            title: "Document Title".into(),
            id: None,
            reftext: None,
            metadata: BlockMetadata::default(),
        }),
        blocks: Vec::new(),
    };

    let prepared = prepare_document(&document);

    assert_eq!(
        prepared.authors,
        vec![asciidoctor_rs::prepare::Author {
            name: Some("Jane Doe".into()),
            email: Some("jane@example.com".into()),
        }]
    );
}

#[test]
fn prepares_paragraph_content_as_simple_blocks() {
    let document = Document {
        attributes: Default::default(),
        title: None,
        blocks: vec![Block::Paragraph(Paragraph {
            inlines: vec![Inline::Text("first line\nsecond line".into())],
            lines: vec!["first line".into(), "second line".into()],
            id: None,
            reftext: None,
            metadata: BlockMetadata::default(),
        })],
    };

    let prepared = prepare_document(&document);

    let PreparedBlock::Preamble(preamble) = &prepared.blocks[0] else {
        panic!("expected preamble");
    };

    let PreparedBlock::Paragraph(paragraph) = &preamble.blocks[0] else {
        panic!("expected paragraph in preamble");
    };

    assert_eq!(paragraph.content, "first line\nsecond line");
    assert_eq!(paragraph.inlines.len(), 1);
    assert_eq!(paragraph.content_model, Some(ContentModel::Simple));
}

#[test]
fn prepares_inline_spans_for_wasm_facing_output() {
    let document = Document {
        attributes: Default::default(),
        title: None,
        blocks: vec![Block::Paragraph(Paragraph {
            lines: vec!["before *strong* after".into()],
            inlines: vec![
                Inline::Text("before ".into()),
                Inline::Span(InlineSpan {
                    variant: InlineVariant::Strong,
                    form: InlineForm::Constrained,
                    inlines: vec![Inline::Text("strong".into())],
                }),
                Inline::Text(" after".into()),
            ],
            id: None,
            reftext: None,
            metadata: BlockMetadata::default(),
        })],
    };

    let prepared = prepare_document(&document);
    let PreparedBlock::Preamble(preamble) = &prepared.blocks[0] else {
        panic!("expected preamble");
    };
    let PreparedBlock::Paragraph(paragraph) = &preamble.blocks[0] else {
        panic!("expected paragraph");
    };

    assert_eq!(paragraph.inlines.len(), 3);
}

#[test]
fn prepares_links_for_wasm_facing_output() {
    let document = Document {
        attributes: Default::default(),
        title: None,
        blocks: vec![Block::Paragraph(Paragraph {
            lines: vec!["See https://example.org[example]".into()],
            inlines: vec![
                Inline::Text("See ".into()),
                Inline::Link(InlineLink {
                    target: "https://example.org".into(),
                    text: vec![Inline::Text("example".into())],
                    bare: false,
                    window: None,
                }),
            ],
            id: None,
            reftext: None,
            metadata: BlockMetadata::default(),
        })],
    };

    let prepared = prepare_document(&document);
    let PreparedBlock::Preamble(preamble) = &prepared.blocks[0] else {
        panic!("expected preamble");
    };
    let PreparedBlock::Paragraph(paragraph) = &preamble.blocks[0] else {
        panic!("expected paragraph");
    };

    assert_eq!(paragraph.inlines.len(), 2);
    let PreparedInline::Link(link) = &paragraph.inlines[1] else {
        panic!("expected link inline");
    };
    assert_eq!(link.target, "https://example.org");
    assert_eq!(link.window, None);
}

#[test]
fn prepares_xrefs_for_wasm_facing_output() {
    let document = Document {
        attributes: Default::default(),
        title: None,
        blocks: vec![Block::Paragraph(Paragraph {
            lines: vec!["See <<install,Installation>>".into()],
            inlines: vec![
                Inline::Text("See ".into()),
                Inline::Xref(InlineXref {
                    target: "install".into(),
                    text: vec![Inline::Text("Installation".into())],
                    shorthand: true,
                    explicit_text: true,
                }),
            ],
            id: None,
            reftext: None,
            metadata: BlockMetadata::default(),
        })],
    };

    let prepared = prepare_document(&document);
    let PreparedBlock::Preamble(preamble) = &prepared.blocks[0] else {
        panic!("expected preamble");
    };
    let PreparedBlock::Paragraph(paragraph) = &preamble.blocks[0] else {
        panic!("expected paragraph");
    };

    let PreparedInline::Xref(xref) = &paragraph.inlines[1] else {
        panic!("expected xref inline");
    };
    assert_eq!(xref.target, "install");
    assert_eq!(xref.href, "#install");
    assert!(xref.shorthand);
}

#[test]
fn resolves_xrefs_to_prepared_section_ids_and_titles() {
    let document = Document {
        attributes: Default::default(),
        title: Some(Heading {
            level: 0,
            title: "Sample Document".into(),
            id: None,
            reftext: None,
            metadata: BlockMetadata::default(),
        }),
        blocks: vec![
            Block::Paragraph(Paragraph {
                lines: vec!["See <<First Section>>.".into()],
                inlines: vec![
                    Inline::Text("See ".into()),
                    Inline::Xref(InlineXref {
                        target: "First Section".into(),
                        text: vec![Inline::Text("First Section".into())],
                        shorthand: true,
                        explicit_text: false,
                    }),
                    Inline::Text(".".into()),
                ],
                id: None,
                reftext: None,
                metadata: BlockMetadata::default(),
            }),
            Block::Heading(Heading {
                level: 1,
                title: "First Section".into(),
                id: None,
                reftext: None,
                metadata: BlockMetadata::default(),
            }),
        ],
    };

    let prepared = prepare_document(&document);
    let PreparedBlock::Preamble(preamble) = &prepared.blocks[0] else {
        panic!("expected preamble");
    };
    let PreparedBlock::Paragraph(paragraph) = &preamble.blocks[0] else {
        panic!("expected paragraph");
    };
    let PreparedInline::Xref(xref) = &paragraph.inlines[1] else {
        panic!("expected xref");
    };

    assert_eq!(xref.href, "#_first_section");
    assert_eq!(
        xref.inlines,
        vec![PreparedInline::Text(TextInline {
            value: "First Section".into(),
        })]
    );
}

#[test]
fn uses_explicit_section_anchor_for_id_and_xref_resolution() {
    let document = Document {
        attributes: Default::default(),
        title: None,
        blocks: vec![
            Block::Paragraph(Paragraph {
                lines: vec!["See <<install>>.".into()],
                inlines: vec![
                    Inline::Text("See ".into()),
                    Inline::Xref(InlineXref {
                        target: "install".into(),
                        text: vec![Inline::Text("install".into())],
                        shorthand: true,
                        explicit_text: false,
                    }),
                    Inline::Text(".".into()),
                ],
                id: None,
                reftext: None,
                metadata: BlockMetadata::default(),
            }),
            Block::Heading(Heading {
                level: 1,
                title: "First Section".into(),
                id: Some("install".into()),
                reftext: Some("Installation".into()),
                metadata: BlockMetadata::default(),
            }),
        ],
    };

    let prepared = prepare_document(&document);
    let PreparedBlock::Preamble(preamble) = &prepared.blocks[0] else {
        panic!("expected preamble");
    };
    let PreparedBlock::Paragraph(paragraph) = &preamble.blocks[0] else {
        panic!("expected paragraph");
    };
    let PreparedInline::Xref(xref) = &paragraph.inlines[1] else {
        panic!("expected xref");
    };
    let PreparedBlock::Section(section) = &prepared.blocks[1] else {
        panic!("expected section");
    };

    assert_eq!(section.id, "install");
    assert_eq!(xref.href, "#install");
    assert_eq!(
        xref.inlines,
        vec![PreparedInline::Text(TextInline {
            value: "Installation".into(),
        })]
    );
}

#[test]
fn resolves_xrefs_to_inline_anchor_targets() {
    let document = Document {
        attributes: Default::default(),
        title: None,
        blocks: vec![Block::Paragraph(Paragraph {
            lines: vec!["See <<bookmark-a>> and [[bookmark-a,Marked Spot]]look here".into()],
            inlines: vec![
                Inline::Text("See ".into()),
                Inline::Xref(InlineXref {
                    target: "bookmark-a".into(),
                    text: vec![Inline::Text("bookmark-a".into())],
                    shorthand: true,
                    explicit_text: false,
                }),
                Inline::Text(" and ".into()),
                Inline::Anchor(asciidoctor_rs::ast::InlineAnchor {
                    id: "bookmark-a".into(),
                    reftext: Some("Marked Spot".into()),
                    inlines: Vec::new(),
                }),
                Inline::Text("look here".into()),
            ],
            id: None,
            reftext: None,
            metadata: BlockMetadata::default(),
        })],
    };

    let prepared = prepare_document(&document);
    let PreparedBlock::Preamble(preamble) = &prepared.blocks[0] else {
        panic!("expected preamble");
    };
    let PreparedBlock::Paragraph(paragraph) = &preamble.blocks[0] else {
        panic!("expected paragraph");
    };
    let PreparedInline::Xref(xref) = &paragraph.inlines[1] else {
        panic!("expected xref");
    };

    assert_eq!(xref.href, "#bookmark-a");
    assert_eq!(
        xref.inlines,
        vec![PreparedInline::Text(TextInline {
            value: "Marked Spot".into(),
        })]
    );
}

#[test]
fn preserves_phrase_anchor_text_and_uses_it_for_xrefs() {
    let document = Document {
        attributes: Default::default(),
        title: None,
        blocks: vec![Block::Paragraph(Paragraph {
            lines: vec!["See <<bookmark-b>> and [#bookmark-b]#visible text#".into()],
            inlines: vec![
                Inline::Text("See ".into()),
                Inline::Xref(InlineXref {
                    target: "bookmark-b".into(),
                    text: vec![Inline::Text("bookmark-b".into())],
                    shorthand: true,
                    explicit_text: false,
                }),
                Inline::Text(" and ".into()),
                Inline::Anchor(asciidoctor_rs::ast::InlineAnchor {
                    id: "bookmark-b".into(),
                    reftext: None,
                    inlines: vec![Inline::Text("visible text".into())],
                }),
            ],
            id: None,
            reftext: None,
            metadata: BlockMetadata::default(),
        })],
    };

    let prepared = prepare_document(&document);
    let PreparedBlock::Preamble(preamble) = &prepared.blocks[0] else {
        panic!("expected preamble");
    };
    let PreparedBlock::Paragraph(paragraph) = &preamble.blocks[0] else {
        panic!("expected paragraph");
    };
    let PreparedInline::Xref(xref) = &paragraph.inlines[1] else {
        panic!("expected xref");
    };
    let PreparedInline::Anchor(anchor) = &paragraph.inlines[3] else {
        panic!("expected anchor");
    };

    assert_eq!(xref.href, "#bookmark-b");
    assert_eq!(
        xref.inlines,
        vec![PreparedInline::Text(TextInline {
            value: "visible text".into(),
        })]
    );
    assert_eq!(
        anchor.inlines,
        vec![PreparedInline::Text(TextInline {
            value: "visible text".into(),
        })]
    );
}

#[test]
fn sets_has_header_true_when_title_present() {
    let document = Document {
        attributes: Default::default(),
        title: Some(Heading {
            level: 0,
            title: "My Title".into(),
            id: None,
            reftext: None,
            metadata: BlockMetadata::default(),
        }),
        blocks: vec![],
    };

    let prepared = prepare_document(&document);

    assert_eq!(prepared.title, "My Title");
    assert!(prepared.has_header);
    assert!(!prepared.no_header);
}

#[test]
fn sets_no_header_true_when_no_title() {
    let document = Document {
        attributes: Default::default(),
        title: None,
        blocks: vec![],
    };

    let prepared = prepare_document(&document);

    assert_eq!(prepared.title, "");
    assert!(!prepared.has_header);
    assert!(prepared.no_header);
}

#[test]
fn does_not_create_preamble_when_no_content_precedes_first_section() {
    let document = Document {
        attributes: Default::default(),
        title: Some(Heading {
            level: 0,
            title: "Doc".into(),
            id: None,
            reftext: None,
            metadata: BlockMetadata::default(),
        }),
        blocks: vec![
            Block::Heading(Heading {
                level: 1,
                title: "First Section".into(),
                id: None,
                reftext: None,
                metadata: BlockMetadata::default(),
            }),
            Block::Paragraph(Paragraph {
                inlines: vec![Inline::Text("Section body.".into())],
                lines: vec!["Section body.".into()],
                id: None,
                reftext: None,
                metadata: BlockMetadata::default(),
            }),
        ],
    };

    let prepared = prepare_document(&document);

    assert_eq!(prepared.blocks.len(), 1);
    let PreparedBlock::Section(section) = &prepared.blocks[0] else {
        panic!("expected section, not preamble");
    };
    assert_eq!(section.title, "First Section");
}

#[test]
fn wraps_multiple_blocks_before_first_section_in_preamble() {
    let document = Document {
        attributes: Default::default(),
        title: Some(Heading {
            level: 0,
            title: "Doc".into(),
            id: None,
            reftext: None,
            metadata: BlockMetadata::default(),
        }),
        blocks: vec![
            Block::Paragraph(Paragraph {
                inlines: vec![Inline::Text("First preamble paragraph.".into())],
                lines: vec!["First preamble paragraph.".into()],
                id: None,
                reftext: None,
                metadata: BlockMetadata::default(),
            }),
            Block::Paragraph(Paragraph {
                inlines: vec![Inline::Text("Second preamble paragraph.".into())],
                lines: vec!["Second preamble paragraph.".into()],
                id: None,
                reftext: None,
                metadata: BlockMetadata::default(),
            }),
            Block::Heading(Heading {
                level: 1,
                title: "Section One".into(),
                id: None,
                reftext: None,
                metadata: BlockMetadata::default(),
            }),
        ],
    };

    let prepared = prepare_document(&document);

    let PreparedBlock::Preamble(preamble) = &prepared.blocks[0] else {
        panic!("expected preamble as first block");
    };
    assert_eq!(preamble.blocks.len(), 2);
    let PreparedBlock::Paragraph(p1) = &preamble.blocks[0] else {
        panic!("expected paragraph");
    };
    assert_eq!(p1.content, "First preamble paragraph.");
    let PreparedBlock::Paragraph(p2) = &preamble.blocks[1] else {
        panic!("expected paragraph");
    };
    assert_eq!(p2.content, "Second preamble paragraph.");
}

#[test]
fn prepares_unordered_lists() {
    let document = Document {
        attributes: Default::default(),
        title: None,
        blocks: vec![Block::UnorderedList(UnorderedList {
            items: vec![ListItem {
                blocks: vec![Block::Paragraph(Paragraph {
                    inlines: vec![Inline::Text("first item".into())],
                    lines: vec!["first item".into()],
                    id: None,
                    reftext: None,
                    metadata: BlockMetadata::default(),
                })],
            }],
            reftext: None,
            metadata: BlockMetadata::default(),
        })],
    };

    let prepared = prepare_document(&document);
    let PreparedBlock::Preamble(preamble) = &prepared.blocks[0] else {
        panic!("expected preamble");
    };
    let PreparedBlock::UnorderedList(list) = &preamble.blocks[0] else {
        panic!("expected unordered list");
    };

    assert_eq!(list.name, "ulist");
    assert_eq!(list.items.len(), 1);
}

#[test]
fn resolves_xrefs_to_anchored_lists() {
    let document = parse_document("[[steps]]\n* one\n\nSee <<steps>>.");
    let prepared = prepare_document(&document);

    let PreparedBlock::Preamble(preamble) = &prepared.blocks[0] else {
        panic!("expected preamble");
    };
    let PreparedBlock::Paragraph(paragraph) = &preamble.blocks[1] else {
        panic!("expected paragraph");
    };
    let PreparedInline::Xref(xref) = &paragraph.inlines[1] else {
        panic!("expected xref");
    };
    assert_eq!(xref.href, "#steps");
}

#[test]
fn resolves_xrefs_to_list_anchor_reftext() {
    let document = parse_document("[[steps,Setup Steps]]\n* one\n\nSee <<steps>>.");
    let prepared = prepare_document(&document);

    let PreparedBlock::Preamble(preamble) = &prepared.blocks[0] else {
        panic!("expected preamble");
    };
    let PreparedBlock::UnorderedList(list) = &preamble.blocks[0] else {
        panic!("expected list");
    };
    assert_eq!(list.reftext.as_deref(), Some("Setup Steps"));

    let PreparedBlock::Paragraph(paragraph) = &preamble.blocks[1] else {
        panic!("expected paragraph");
    };
    let PreparedInline::Xref(xref) = &paragraph.inlines[1] else {
        panic!("expected xref");
    };
    assert_eq!(xref.href, "#steps");
    assert_eq!(
        xref.inlines,
        vec![PreparedInline::Text(TextInline {
            value: "Setup Steps".into(),
        })]
    );
}

#[test]
fn prepares_anchored_delimited_blocks() {
    let document = parse_document(
        "[[code-sample]]\n----\nputs 'hello'\n----\n\n[[aside]]\n****\ninside sidebar\n****\n\n[[walkthrough]]\n====\ninside example\n====",
    );
    let prepared = prepare_document(&document);

    let PreparedBlock::Preamble(preamble) = &prepared.blocks[0] else {
        panic!("expected preamble");
    };
    let PreparedBlock::Listing(listing) = &preamble.blocks[0] else {
        panic!("expected listing");
    };
    assert_eq!(listing.id.as_deref(), Some("code-sample"));
    assert_eq!(listing.reftext, None);

    let PreparedBlock::Sidebar(sidebar) = &preamble.blocks[1] else {
        panic!("expected sidebar");
    };
    assert_eq!(sidebar.id.as_deref(), Some("aside"));
    assert_eq!(sidebar.reftext, None);

    let PreparedBlock::Example(example) = &preamble.blocks[2] else {
        panic!("expected example");
    };
    assert_eq!(example.id.as_deref(), Some("walkthrough"));
    assert_eq!(example.reftext, None);
}

#[test]
fn resolves_xrefs_to_delimited_block_anchor_reftext() {
    let document = parse_document(
        "[[code-sample,Code Sample]]\n----\nputs 'hello'\n----\n\nSee <<code-sample>>.",
    );
    let prepared = prepare_document(&document);

    let PreparedBlock::Preamble(preamble) = &prepared.blocks[0] else {
        panic!("expected preamble");
    };
    let PreparedBlock::Listing(listing) = &preamble.blocks[0] else {
        panic!("expected listing");
    };
    assert_eq!(listing.reftext.as_deref(), Some("Code Sample"));

    let PreparedBlock::Paragraph(paragraph) = &preamble.blocks[1] else {
        panic!("expected paragraph");
    };
    let PreparedInline::Xref(xref) = &paragraph.inlines[1] else {
        panic!("expected xref");
    };
    assert_eq!(xref.href, "#code-sample");
    assert_eq!(
        xref.inlines,
        vec![PreparedInline::Text(TextInline {
            value: "Code Sample".into(),
        })]
    );
}

#[test]
fn prepares_listing_and_compound_delimited_blocks() {
    let document = Document {
        attributes: Default::default(),
        title: None,
        blocks: vec![
            Block::Listing(Listing {
                lines: vec!["puts 'hello'".into()],
                callouts: vec![],
                reftext: None,
                metadata: Default::default(),
            }),
            Block::Sidebar(AstCompoundBlock {
                blocks: vec![Block::Paragraph(Paragraph {
                    inlines: vec![Inline::Text("inside sidebar".into())],
                    lines: vec!["inside sidebar".into()],
                    id: None,
                    reftext: None,
                    metadata: BlockMetadata::default(),
                })],
                reftext: None,
                metadata: Default::default(), context: None,
}),
            Block::Example(AstCompoundBlock {
                blocks: vec![Block::Paragraph(Paragraph {
                    inlines: vec![Inline::Text("inside example".into())],
                    lines: vec!["inside example".into()],
                    id: None,
                    reftext: None,
                    metadata: BlockMetadata::default(),
                })],
                reftext: None,
                metadata: Default::default(), context: None,
}),
        ],
    };

    let prepared = prepare_document(&document);
    let PreparedBlock::Preamble(preamble) = &prepared.blocks[0] else {
        panic!("expected preamble");
    };

    let PreparedBlock::Listing(listing) = &preamble.blocks[0] else {
        panic!("expected listing");
    };
    assert_eq!(listing.content, "puts 'hello'");

    let PreparedBlock::Sidebar(sidebar) = &preamble.blocks[1] else {
        panic!("expected sidebar");
    };
    assert_eq!(sidebar.blocks.len(), 1);

    let PreparedBlock::Example(example) = &preamble.blocks[2] else {
        panic!("expected example");
    };
    assert_eq!(example.blocks.len(), 1);
}

#[test]
fn prepares_tables() {
    let document = parse_document(
        ".Agents\n[%header,cols=\"30%,\"]\n|===\n|Name|Email\n|Peter|peter@example.com\n|Adam|adam@example.com\n|===",
    );
    let prepared = prepare_document(&document);
    let PreparedBlock::Preamble(preamble) = &prepared.blocks[0] else {
        panic!("expected preamble");
    };
    let PreparedBlock::Table(table) = &preamble.blocks[0] else {
        panic!("expected table");
    };

    assert_eq!(table.title.as_deref(), Some("Agents"));
    assert_eq!(table.header.as_ref().map(|row| row.cells.len()), Some(2));
    assert_eq!(
        table
            .header
            .as_ref()
            .map(|row| row.cells[0].content.as_str()),
        Some("Name")
    );
    assert_eq!(table.rows.len(), 2);
    assert_eq!(table.rows[1].cells[0].content, "Adam");
}

#[test]
fn prepares_tables_with_stacked_cells() {
    let document = parse_document(
        ".Agents\n[%header,cols=\"30%,70%\"]\n|===\n|Name\n|Email\n|Peter\n|peter@example.com\n|Adam\n|adam@example.com\n|===",
    );
    let prepared = prepare_document(&document);
    let PreparedBlock::Preamble(preamble) = &prepared.blocks[0] else {
        panic!("expected preamble");
    };
    let PreparedBlock::Table(table) = &preamble.blocks[0] else {
        panic!("expected table");
    };

    assert_eq!(table.header.as_ref().map(|row| row.cells.len()), Some(2));
    assert_eq!(table.rows.len(), 2);
    assert_eq!(table.rows[0].cells[0].content, "Peter");
    assert_eq!(table.rows[0].cells[1].content, "peter@example.com");
}

#[test]
fn prepares_tables_with_stacked_cells_without_cols() {
    let document = parse_document(
        ".Agents\n[%header]\n|===\n|Name\n|Email\n\n|Peter\n|peter@example.com\n\n|Adam\n|adam@example.com\n|===",
    );
    let prepared = prepare_document(&document);
    let PreparedBlock::Preamble(preamble) = &prepared.blocks[0] else {
        panic!("expected preamble");
    };
    let PreparedBlock::Table(table) = &preamble.blocks[0] else {
        panic!("expected table");
    };

    assert_eq!(table.header.as_ref().map(|row| row.cells.len()), Some(2));
    assert_eq!(table.rows.len(), 2);
    assert_eq!(table.rows[1].cells[0].content, "Adam");
    assert_eq!(table.rows[1].cells[1].content, "adam@example.com");
}

#[test]
fn prepares_block_content_inside_table_cells() {
    let document = parse_document(
        ".Services\n[%header,cols=\"1,3\"]\n|===\n|Name\n|Details\n|API\n|First paragraph.\n\n* fast\n* typed\n|===",
    );
    let prepared = prepare_document(&document);
    let PreparedBlock::Preamble(preamble) = &prepared.blocks[0] else {
        panic!("expected preamble");
    };
    let PreparedBlock::Table(table) = &preamble.blocks[0] else {
        panic!("expected table");
    };
    let detail_cell = &table.rows[0].cells[1];

    assert_eq!(detail_cell.blocks.len(), 2);
    let PreparedBlock::Paragraph(paragraph) = &detail_cell.blocks[0] else {
        panic!("expected paragraph block");
    };
    assert_eq!(paragraph.content, "First paragraph.");
    let PreparedBlock::UnorderedList(list) = &detail_cell.blocks[1] else {
        panic!("expected list block");
    };
    assert_eq!(list.items.len(), 2);
}

#[test]
fn prepares_table_cell_specs_for_rowspan_and_asciidoc_style() {
    let document = parse_document(
        "[%header,cols=\"1,2\"]\n|===\nh|Area\n|Description\n\n.2+|Shared\na|First paragraph.\n+\nSecond paragraph.\n\n|Another description\n|===",
    );
    let prepared = prepare_document(&document);
    let PreparedBlock::Preamble(preamble) = &prepared.blocks[0] else {
        panic!("expected preamble");
    };
    let PreparedBlock::Table(table) = &preamble.blocks[0] else {
        panic!("expected table");
    };

    assert_eq!(
        table
            .header
            .as_ref()
            .and_then(|row| row.cells[0].style.as_deref()),
        Some("header")
    );
    assert_eq!(table.rows[0].cells[0].rowspan, 2);
    assert_eq!(table.rows[0].cells[1].style.as_deref(), Some("asciidoc"));
    assert_eq!(table.rows[0].cells[1].blocks.len(), 2);
}

#[test]
fn prepares_delimited_block_metadata() {
    let document = parse_document(".Exhibit A\n[source,rust]\n----\nfn main() {}\n----");
    let prepared = prepare_document(&document);
    let PreparedBlock::Preamble(preamble) = &prepared.blocks[0] else {
        panic!("expected preamble");
    };
    let PreparedBlock::Listing(listing) = &preamble.blocks[0] else {
        panic!("expected listing");
    };

    assert_eq!(listing.title.as_deref(), Some("Exhibit A"));
    assert_eq!(listing.style.as_deref(), Some("source"));
    assert_eq!(
        listing.attributes.get("language").map(String::as_str),
        Some("rust")
    );
    assert_eq!(
        listing.attributes.get("title").map(String::as_str),
        Some("Exhibit A")
    );
}

#[test]
fn trims_outer_blank_lines_in_prepared_delimited_content() {
    let document = parse_document(
        "----\n\ncode\n\n----\n\n....\n\nliteral\n\n....\n\n[verse]\n____\n\nline\n\n____\n\n++++\n\n<span>ok</span>\n\n++++",
    );
    let prepared = prepare_document(&document);
    let PreparedBlock::Preamble(preamble) = &prepared.blocks[0] else {
        panic!("expected preamble");
    };

    let PreparedBlock::Listing(listing) = &preamble.blocks[0] else {
        panic!("expected listing");
    };
    assert_eq!(listing.content, "code");

    let PreparedBlock::Literal(literal) = &preamble.blocks[1] else {
        panic!("expected literal");
    };
    assert_eq!(literal.content, "literal");

    let PreparedBlock::Quote(verse) = &preamble.blocks[2] else {
        panic!("expected verse");
    };
    assert!(verse.is_verse);
    assert_eq!(verse.content, "line");

    let PreparedBlock::Passthrough(passthrough) = &preamble.blocks[3] else {
        panic!("expected passthrough");
    };
    assert_eq!(passthrough.content, "<span>ok</span>");
}

#[test]
fn prepares_admonition_paragraphs() {
    let document = parse_document("NOTE: This is just a note.");
    let prepared = prepare_document(&document);
    let PreparedBlock::Preamble(preamble) = &prepared.blocks[0] else {
        panic!("expected preamble");
    };
    let PreparedBlock::Admonition(admonition) = &preamble.blocks[0] else {
        panic!("expected admonition");
    };

    assert_eq!(admonition.variant, "note");
    let PreparedBlock::Paragraph(paragraph) = &admonition.blocks[0] else {
        panic!("expected paragraph");
    };
    assert_eq!(paragraph.content, "This is just a note.");
}

#[test]
fn prepares_styled_block_admonitions() {
    let document = parse_document("[TIP]\n====\nRemember the milk.\n====");
    let prepared = prepare_document(&document);
    let PreparedBlock::Preamble(preamble) = &prepared.blocks[0] else {
        panic!("expected preamble");
    };
    let PreparedBlock::Admonition(admonition) = &preamble.blocks[0] else {
        panic!("expected admonition");
    };

    assert_eq!(admonition.variant, "tip");
    assert_eq!(admonition.style.as_deref(), Some("TIP"));
    let PreparedBlock::Paragraph(paragraph) = &admonition.blocks[0] else {
        panic!("expected paragraph");
    };
    assert_eq!(paragraph.content, "Remember the milk.");
}

#[test]
fn prepares_anchored_admonitions_with_reftext() {
    let document = parse_document("[[install-note,Install Note]]\nNOTE: Read this first.");
    let prepared = prepare_document(&document);

    let PreparedBlock::Preamble(preamble) = &prepared.blocks[0] else {
        panic!("expected preamble");
    };
    let PreparedBlock::Admonition(admonition) = &preamble.blocks[0] else {
        panic!("expected admonition");
    };
    assert_eq!(admonition.id.as_deref(), Some("install-note"));
    assert_eq!(admonition.reftext.as_deref(), Some("Install Note"));
}

#[test]
fn resolves_xrefs_to_admonition_anchor_reftext() {
    let document = parse_document(
        "[[install-note,Install Note]]\nNOTE: Read this first.\n\nSee <<install-note>>.",
    );
    let prepared = prepare_document(&document);

    let PreparedBlock::Preamble(preamble) = &prepared.blocks[0] else {
        panic!("expected preamble");
    };
    let PreparedBlock::Paragraph(paragraph) = &preamble.blocks[1] else {
        panic!("expected paragraph");
    };
    let PreparedInline::Xref(xref) = &paragraph.inlines[1] else {
        panic!("expected xref");
    };
    assert_eq!(xref.href, "#install-note");
    assert_eq!(
        xref.inlines,
        vec![PreparedInline::Text(TextInline {
            value: "Install Note".into(),
        })]
    );
}

#[test]
fn collects_and_numbers_footnotes() {
    let document = Document {
        attributes: Default::default(),
        title: None,
        blocks: vec![Block::Paragraph(Paragraph {
            lines: vec!["A notefootnote:[Read *this* first.] here.".into()],
            inlines: vec![
                Inline::Text("A note".into()),
                Inline::Footnote(InlineFootnote {
                    inlines: vec![
                        Inline::Text("Read ".into()),
                        Inline::Span(InlineSpan {
                            variant: InlineVariant::Strong,
                            form: InlineForm::Constrained,
                            inlines: vec![Inline::Text("this".into())],
                        }),
                        Inline::Text(" first.".into()),
                    ],
                }),
                Inline::Text(" here.".into()),
            ],
            id: None,
            reftext: None,
            metadata: BlockMetadata::default(),
        })],
    };

    let prepared = prepare_document(&document);

    assert_eq!(prepared.footnotes.len(), 1);
    assert_eq!(prepared.footnotes[0].index, Some(1));
    assert_eq!(
        prepared.footnotes[0].text.as_deref(),
        Some("Read this first.")
    );

    let PreparedBlock::Preamble(preamble) = &prepared.blocks[0] else {
        panic!("expected preamble");
    };
    let PreparedBlock::Paragraph(paragraph) = &preamble.blocks[0] else {
        panic!("expected paragraph");
    };
    let PreparedInline::Footnote(footnote) = &paragraph.inlines[1] else {
        panic!("expected footnote");
    };
    assert_eq!(footnote.index, Some(1));
    assert_eq!(paragraph.content, "A note[1] here.");
}
