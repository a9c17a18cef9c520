use asciidoctor_rs::attrs::AttributeMap;
use asciidoctor_rs::ast::{
    Block, BlockMetadata, CompoundBlock, Document, Heading, Inline, InlineAnchor,
    InlineFootnote, InlineForm, InlineLink, InlineSpan, InlineVariant, InlineXref, ListItem,
    Listing, OrderedList, Paragraph, UnorderedList,
};
use asciidoctor_rs::prepare::prepare_document;
use asciidoctor_rs::render::render_html;

#[test]
fn renders_document_title_sections_and_paragraphs() {
    let document = Document {
        attributes: Default::default(),
        title: Some(Heading {
            level: 0,
            title: "Document Title".into(),
            id: None,
            reftext: None,
            metadata: BlockMetadata::default(),
        }),
        blocks: vec![
            Block::Heading(Heading {
                level: 1,
                title: "Section One".into(),
                id: None,
                reftext: None,
                metadata: BlockMetadata::default(),
            }),
            Block::Paragraph(Paragraph {
                inlines: vec![Inline::Text("first line\nsecond line".into())],
                lines: vec!["first line".into(), "second line".into()],
                id: None,
                reftext: None,
                metadata: BlockMetadata::default(),
            }),
        ],
    };

    let html = render_html(&document);

    assert_eq!(
        html,
        "<div id=\"header\">\n<h1>Document Title</h1>\n</div>\n<div id=\"content\">\n<div class=\"sect1\" id=\"_section_one\">\n<h2>Section One</h2>\n<div class=\"sectionbody\">\n<div class=\"paragraph\">\n<p>first line\nsecond line</p>\n</div>\n</div>\n</div>\n</div>\n"
    );
}

#[test]
fn escapes_html_in_text_nodes() {
    let document = Document {
        attributes: Default::default(),
        title: Some(Heading {
            level: 0,
            title: "Fish & Chips".into(),
            id: None,
            reftext: None,
            metadata: BlockMetadata::default(),
        }),
        blocks: vec![Block::Paragraph(Paragraph {
            inlines: vec![Inline::Text("<tag> \"quoted\" and 'apostrophe'".into())],
            lines: vec!["<tag> \"quoted\" and 'apostrophe'".into()],
            id: None,
            reftext: None,
            metadata: BlockMetadata::default(),
        })],
    };

    let html = render_html(&document);

    assert!(html.contains("<h1>Fish &amp; Chips</h1>"));
    assert!(html.contains("<p>&lt;tag&gt; &quot;quoted&quot; and &#39;apostrophe&#39;</p>"));
}

#[test]
fn rendering_prepared_document_keeps_nested_sections() {
    let document = Document {
        attributes: Default::default(),
        title: Some(Heading {
            level: 0,
            title: "Doc".into(),
            id: None,
            reftext: None,
            metadata: BlockMetadata::default(),
        }),
        blocks: vec![
            Block::Heading(Heading {
                level: 1,
                title: "Section A".into(),
                id: None,
                reftext: None,
                metadata: BlockMetadata::default(),
            }),
            Block::Heading(Heading {
                level: 2,
                title: "Section B".into(),
                id: None,
                reftext: None,
                metadata: BlockMetadata::default(),
            }),
        ],
    };

    let prepared = prepare_document(&document);
    let html = asciidoctor_rs::render::render_prepared_html(&prepared);

    assert!(html.contains("<div class=\"sect1\" id=\"_section_a\">"));
    assert!(html.contains("<div class=\"sect2\" id=\"_section_b\">"));
    assert!(html.contains("<h3>Section B</h3>"));
}

#[test]
fn renders_strong_and_emphasis_inline_markup() {
    let document = Document {
        attributes: Default::default(),
        title: None,
        blocks: vec![Block::Paragraph(Paragraph {
            lines: vec!["before *strong* and _emphasis_ after".into()],
            inlines: vec![
                Inline::Text("before ".into()),
                Inline::Span(InlineSpan {
                    variant: InlineVariant::Strong,
                    form: InlineForm::Constrained,
                    inlines: vec![Inline::Text("strong".into())],
                }),
                Inline::Text(" and ".into()),
                Inline::Span(InlineSpan {
                    variant: InlineVariant::Emphasis,
                    form: InlineForm::Constrained,
                    inlines: vec![Inline::Text("emphasis".into())],
                }),
                Inline::Text(" after".into()),
            ],
            id: None,
            reftext: None,
            metadata: BlockMetadata::default(),
        })],
    };

    let html = render_html(&document);

    assert!(html.contains("<p>before <strong>strong</strong> and <em>emphasis</em> after</p>"));
}

#[test]
fn renders_monospace_inline_markup() {
    let document = Document {
        attributes: Default::default(),
        title: None,
        blocks: vec![Block::Paragraph(Paragraph {
            lines: vec!["Run `cargo test` now".into()],
            inlines: vec![
                Inline::Text("Run ".into()),
                Inline::Span(InlineSpan {
                    variant: InlineVariant::Monospace,
                    form: InlineForm::Constrained,
                    inlines: vec![Inline::Text("cargo test".into())],
                }),
                Inline::Text(" now".into()),
            ],
            id: None,
            reftext: None,
            metadata: BlockMetadata::default(),
        })],
    };

    let html = render_html(&document);
    assert!(html.contains("<p>Run <code>cargo test</code> now</p>"));
}

#[test]
fn renders_escaped_markup_as_literal_text() {
    let document = Document {
        attributes: Default::default(),
        title: None,
        blocks: vec![Block::Paragraph(Paragraph {
            lines: vec![r"\*not strong* and \_not emphasis_".into()],
            inlines: vec![Inline::Text("*not strong* and _not emphasis_".into())],
            id: None,
            reftext: None,
            metadata: BlockMetadata::default(),
        })],
    };

    let html = render_html(&document);

    assert!(html.contains("<p>*not strong* and _not emphasis_</p>"));
}

#[test]
fn renders_links() {
    let document = Document {
        attributes: Default::default(),
        title: None,
        blocks: vec![Block::Paragraph(Paragraph {
            lines: vec!["See https://example.org[example] and http://foo.com".into()],
            inlines: vec![
                Inline::Text("See ".into()),
                Inline::Link(InlineLink {
                    target: "https://example.org".into(),
                    text: vec![Inline::Text("example".into())],
                    bare: false,
                    window: None,
                }),
                Inline::Text(" and ".into()),
                Inline::Link(InlineLink {
                    target: "http://foo.com".into(),
                    text: vec![Inline::Text("http://foo.com".into())],
                    bare: true,
                    window: None,
                }),
            ],
            id: None,
            reftext: None,
            metadata: BlockMetadata::default(),
        })],
    };

    let html = render_html(&document);

    assert!(html.contains("<a href=\"https://example.org\">example</a>"));
    assert!(html.contains("<a href=\"http://foo.com\" class=\"bare\">http://foo.com</a>"));
}

#[test]
fn renders_links_with_window_targets() {
    let document = Document {
        attributes: Default::default(),
        title: None,
        blocks: vec![Block::Paragraph(Paragraph {
            lines: vec!["See https://example.org[example^]".into()],
            inlines: vec![Inline::Link(InlineLink {
                target: "https://example.org".into(),
                text: vec![Inline::Text("example".into())],
                bare: false,
                window: Some("_blank".into()),
            })],
            id: None,
            reftext: None,
            metadata: BlockMetadata::default(),
        })],
    };

    let html = render_html(&document);
    assert!(html.contains(
        "<a href=\"https://example.org\" target=\"_blank\" rel=\"noopener\">example</a>"
    ));
}

#[test]
fn renders_xrefs() {
    let document = Document {
        attributes: Default::default(),
        title: None,
        blocks: vec![Block::Paragraph(Paragraph {
            lines: vec!["See <<install,Installation>>".into()],
            inlines: vec![
                Inline::Text("See ".into()),
                Inline::Xref(InlineXref {
                    target: "install".into(),
                    text: vec![Inline::Text("Installation".into())],
                    shorthand: true,
                    explicit_text: true,
                }),
            ],
            id: None,
            reftext: None,
            metadata: BlockMetadata::default(),
        })],
    };

    let html = render_html(&document);
    assert!(html.contains("<a href=\"#install\">Installation</a>"));
}

#[test]
fn renders_xrefs_with_resolved_section_ids() {
    let document = Document {
        attributes: Default::default(),
        title: Some(Heading {
            level: 0,
            title: "Sample Document".into(),
            id: None,
            reftext: None,
            metadata: BlockMetadata::default(),
        }),
        blocks: vec![
            Block::Paragraph(Paragraph {
                lines: vec!["See <<First Section>>.".into()],
                inlines: vec![
                    Inline::Text("See ".into()),
                    Inline::Xref(InlineXref {
                        target: "First Section".into(),
                        text: vec![Inline::Text("First Section".into())],
                        shorthand: true,
                        explicit_text: false,
                    }),
                    Inline::Text(".".into()),
                ],
                id: None,
                reftext: None,
                metadata: BlockMetadata::default(),
            }),
            Block::Heading(Heading {
                level: 1,
                title: "First Section".into(),
                id: None,
                reftext: None,
                metadata: BlockMetadata::default(),
            }),
        ],
    };

    let html = render_html(&document);
    assert!(html.contains("<a href=\"#_first_section\">First Section</a>"));
}

#[test]
fn renders_paragraph_anchor_ids() {
    let document = Document {
        attributes: Default::default(),
        title: None,
        blocks: vec![Block::Paragraph(Paragraph {
            lines: vec!["Hello".into()],
            inlines: vec![Inline::Text("Hello".into())],
            id: Some("intro".into()),
            reftext: Some("Introduction".into()),
            metadata: BlockMetadata::default(),
        })],
    };

    let html = render_html(&document);
    assert!(html.contains("<div class=\"paragraph\" id=\"intro\">"));
}

#[test]
fn renders_inline_anchor_points() {
    let document = Document {
        attributes: Default::default(),
        title: None,
        blocks: vec![Block::Paragraph(Paragraph {
            lines: vec!["[[bookmark-a]]look here".into()],
            inlines: vec![
                Inline::Anchor(InlineAnchor {
                    id: "bookmark-a".into(),
                    reftext: None,
                    inlines: Vec::new(),
                }),
                Inline::Text("look here".into()),
            ],
            id: None,
            reftext: None,
            metadata: BlockMetadata::default(),
        })],
    };

    let html = render_html(&document);
    assert!(html.contains("<a id=\"bookmark-a\"></a>look here"));
}

#[test]
fn renders_phrase_applied_inline_anchor_text() {
    let document = Document {
        attributes: Default::default(),
        title: None,
        blocks: vec![Block::Paragraph(Paragraph {
            lines: vec!["[#bookmark-b]#visible text#".into()],
            inlines: vec![Inline::Anchor(InlineAnchor {
                id: "bookmark-b".into(),
                reftext: None,
                inlines: vec![Inline::Text("visible text".into())],
            })],
            id: None,
            reftext: None,
            metadata: BlockMetadata::default(),
        })],
    };

    let html = render_html(&document);
    assert!(html.contains("<a id=\"bookmark-b\"></a>visible text"));
}

#[test]
fn renders_empty_header_div_when_no_title() {
    let document = Document {
        attributes: Default::default(),
        title: None,
        blocks: vec![Block::Paragraph(Paragraph {
            lines: vec!["hello".into()],
            inlines: vec![Inline::Text("hello".into())],
            id: None,
            reftext: None,
            metadata: BlockMetadata::default(),
        })],
    };

    let html = render_html(&document);

    assert!(html.contains("<div id=\"header\">\n</div>"));
    assert!(!html.contains("<h1>"));
}

#[test]
fn renders_preamble_with_correct_html_structure() {
    let document = Document {
        attributes: Default::default(),
        title: Some(Heading {
            level: 0,
            title: "My Doc".into(),
            id: None,
            reftext: None,
            metadata: BlockMetadata::default(),
        }),
        blocks: vec![
            Block::Paragraph(Paragraph {
                lines: vec!["Intro paragraph.".into()],
                inlines: vec![Inline::Text("Intro paragraph.".into())],
                id: None,
                reftext: None,
                metadata: BlockMetadata::default(),
            }),
            Block::Heading(Heading {
                level: 1,
                title: "Section One".into(),
                id: None,
                reftext: None,
                metadata: BlockMetadata::default(),
            }),
        ],
    };

    let html = render_html(&document);

    assert!(html.contains("<div id=\"preamble\">"));
    assert!(html.contains("<div class=\"sectionbody\">"));
    assert!(html.contains("<p>Intro paragraph.</p>"));
    // preamble closes before the section starts
    let preamble_end = html.find("</div>\n</div>").unwrap();
    let section_start = html.find("<div class=\"sect1\"").unwrap();
    assert!(preamble_end < section_start);
}

#[test]
fn renders_ordered_lists() {
    let document = Document {
        attributes: Default::default(),
        title: None,
        blocks: vec![Block::OrderedList(OrderedList {
            items: vec![
                ListItem {
                    blocks: vec![Block::Paragraph(Paragraph {
                        lines: vec!["first item".into()],
                        inlines: vec![Inline::Text("first item".into())],
                        id: None,
                        reftext: None,
                        metadata: BlockMetadata::default(),
                    })],
                },
                ListItem {
                    blocks: vec![Block::Paragraph(Paragraph {
                        lines: vec!["second item".into()],
                        inlines: vec![Inline::Text("second item".into())],
                        id: None,
                        reftext: None,
                        metadata: BlockMetadata::default(),
                    })],
                },
            ],
            reftext: None,
            metadata: BlockMetadata::default(),
        })],
    };

    let html = render_html(&document);
    assert!(html.contains("<div class=\"olist arabic\">"));
    assert!(html.contains("<ol class=\"arabic\">"));
    assert!(html.contains("<li>"));
    assert!(html.contains("<p>first item</p>"));
    assert!(html.contains("<p>second item</p>"));
}

#[test]
fn renders_description_lists() {
    let html = render_html(&asciidoctor_rs::parser::parse_document(
        "Term:: Definition\nSecond::\nThird::\nMore definition",
    ));
    println!("HTML: {}", html);

    assert!(html.contains("<div class=\"dlist\">"));
    assert!(html.contains("<dt class=\"hdlist1\">Term</dt>"));
    assert!(html.contains("<p>Definition</p>"));
    assert!(html.contains("<dt class=\"hdlist1\">Second</dt>"));
    assert!(html.contains("<dt class=\"hdlist1\">Third</dt>"));
    assert!(html.contains("<p>More definition</p>"));
}

#[test]
fn renders_unordered_lists() {
    let document = Document {
        attributes: Default::default(),
        title: None,
        blocks: vec![Block::UnorderedList(UnorderedList {
            items: vec![ListItem {
                blocks: vec![Block::Paragraph(Paragraph {
                    lines: vec!["first item".into()],
                    inlines: vec![Inline::Text("first item".into())],
                    id: None,
                    reftext: None,
                    metadata: BlockMetadata::default(),
                })],
            }],
            reftext: None,
            metadata: BlockMetadata::default(),
        })],
    };

    let html = render_html(&document);
    assert!(html.contains("<div class=\"ulist\">"));
    assert!(html.contains("<ul>"));
    assert!(html.contains("<li>"));
    assert!(html.contains("<p>first item</p>"));
}

#[test]
fn renders_nested_lists_and_item_continuations() {
    let document = Document {
        attributes: Default::default(),
        title: None,
        blocks: vec![Block::OrderedList(OrderedList {
            items: vec![
                ListItem {
                    blocks: vec![
                        Block::Paragraph(Paragraph {
                            lines: vec!["first item".into()],
                            inlines: vec![Inline::Text("first item".into())],
                            id: None,
                            reftext: None,
                            metadata: BlockMetadata::default(),
                        }),
                        Block::UnorderedList(UnorderedList {
                            items: vec![ListItem {
                                blocks: vec![Block::Paragraph(Paragraph {
                                    lines: vec!["nested item".into()],
                                    inlines: vec![Inline::Text("nested item".into())],
                                    id: None,
                                    reftext: None,
                                    metadata: BlockMetadata::default(),
                                })],
                            }],
                            reftext: None,
                            metadata: BlockMetadata::default(),
                        }),
                        Block::Paragraph(Paragraph {
                            lines: vec!["continued paragraph".into()],
                            inlines: vec![Inline::Text("continued paragraph".into())],
                            id: None,
                            reftext: None,
                            metadata: BlockMetadata::default(),
                        }),
                    ],
                },
                ListItem {
                    blocks: vec![Block::Paragraph(Paragraph {
                        lines: vec!["second item".into()],
                        inlines: vec![Inline::Text("second item".into())],
                        id: None,
                        reftext: None,
                        metadata: BlockMetadata::default(),
                    })],
                },
            ],
            reftext: None,
            metadata: BlockMetadata::default(),
        })],
    };

    let html = render_html(&document);

    assert!(html.contains("<div class=\"olist arabic\">"));
    assert!(html.contains("<div class=\"ulist\">"));
    assert!(html.contains("<p>nested item</p>"));
    assert!(html.contains("<p>continued paragraph</p>"));
    assert!(html.contains("<p>second item</p>"));
}

#[test]
fn renders_delimited_blocks() {
    let document = Document {
        attributes: Default::default(),
        title: None,
        blocks: vec![
            Block::Listing(Listing {
                lines: vec!["puts 'hello'".into()],
                callouts: vec![],
                reftext: None,
                metadata: BlockMetadata::default(),
            }),
            Block::Sidebar(CompoundBlock {
                blocks: vec![Block::Paragraph(Paragraph {
                    lines: vec!["inside sidebar".into()],
                    inlines: vec![Inline::Text("inside sidebar".into())],
                    id: None,
                    reftext: None,
                    metadata: BlockMetadata::default(),
                })],
                reftext: None,
                metadata: BlockMetadata::default(), context: None,
}),
            Block::Example(CompoundBlock {
                blocks: vec![Block::Paragraph(Paragraph {
                    lines: vec!["inside example".into()],
                    inlines: vec![Inline::Text("inside example".into())],
                    id: None,
                    reftext: None,
                    metadata: BlockMetadata::default(),
                })],
                reftext: None,
                metadata: BlockMetadata::default(), context: None,
}),
        ],
    };

    let html = render_html(&document);

    assert!(html.contains("<div class=\"listingblock\">"));
    assert!(html.contains("<pre>puts &#39;hello&#39;</pre>"));
    assert!(html.contains("<div class=\"sidebarblock\">"));
    assert!(html.contains("<p>inside sidebar</p>"));
    assert!(html.contains("<div class=\"exampleblock\">"));
    assert!(html.contains("<p>inside example</p>"));
}

#[test]
fn renders_default_captioned_titles_for_examples_tables_and_images() {
    let html = render_html(&asciidoctor_rs::parser::parse_document(
        "= Demo\n\n.First Example\n====\ncontent\n====\n\n.Second Example\n====\nmore\n====\n\n.Agents\n|===\n|Name\n|Ada\n|===\n\n.The Tiger\nimage::images/tiger.png[Tiger]",
    ));

    assert!(html.contains("<div class=\"title\">Example 1. First Example</div>"));
    assert!(html.contains("<div class=\"title\">Example 2. Second Example</div>"));
    assert!(html.contains("<caption class=\"title\">Table 1. Agents</caption>"));
    assert!(html.contains("<div class=\"title\">Figure 1. The Tiger</div>"));
}

#[test]
fn renders_listing_captions_when_enabled_and_respects_counter_start() {
    let html = render_html(&asciidoctor_rs::parser::parse_document(
        "= Demo\n:listing-caption: Listing\n:listing-number: 3\n\n.First\n[source,rust]\n----\nfn main() {}\n----\n\n.Second\n----\nputs 'hi'\n----",
    ));

    assert!(html.contains("<div class=\"title\">Listing 3. First</div>"));
    assert!(html.contains("<div class=\"title\">Listing 4. Second</div>"));
}

#[test]
fn block_caption_overrides_generated_captioned_title() {
    let html = render_html(&asciidoctor_rs::parser::parse_document(
        "= Demo\n\n.Block Title\n[caption=\"Example A: \"]\n====\nBlock content\n====",
    ));

    assert!(html.contains("<div class=\"title\">Example A: Block Title</div>"));
    assert!(!html.contains("Example 1. Block Title"));
}

#[test]
fn block_caption_override_expands_custom_counters() {
    let html = render_html(&asciidoctor_rs::parser::parse_document(
        "= Demo\n\n.First\n[caption=\"Example {counter:my-example-number:A}: \"]\n====\nOne\n====\n\n.Second\n[caption=\"Example {counter:my-example-number}: \"]\n====\nTwo\n====",
    ));

    assert!(html.contains("<div class=\"title\">Example A: First</div>"));
    assert!(html.contains("<div class=\"title\">Example B: Second</div>"));
}

#[test]
fn plain_block_titles_expand_custom_counters() {
    let html = render_html(&asciidoctor_rs::parser::parse_document(
        "= Demo\n\n.Step {counter:task-number:1}\nterm:: first\n\n.Step {counter:task-number}\nnext:: second",
    ));

    assert!(html.contains("<div class=\"title\">Step 1</div>"));
    assert!(html.contains("<div class=\"title\">Step 2</div>"));
}

#[test]
fn renders_fenced_code_blocks_with_language_class() {
    let html = render_html(&asciidoctor_rs::parser::parse_document("```rust\nfn main() {}\n```"));

    assert!(html.contains("<div class=\"listingblock\">"));
    assert!(html.contains("class=\"language-rust\""));
    assert!(html.contains("data-lang=\"rust\""));
    assert!(html.contains("fn main() {}"));
}

#[test]
fn renders_numbered_listings_with_linenotable_markup() {
    let html = render_html(&asciidoctor_rs::parser::parse_document(
        "[source,rust,start=7,%linenums]\n----\nfn main() {}\nprintln!(\"done\");\n----",
    ));

    assert!(html.contains("<table class=\"linenotable\">"));
    assert!(html.contains("<tbody>"));
    assert!(html.contains("<td class=\"linenos\"><pre>7</pre></td>"));
    assert!(html.contains("<td class=\"linenos\"><pre>8</pre></td>"));
    assert!(html.contains("<td class=\"code\"><pre><code class=\"language-rust\" data-lang=\"rust\">fn main() {}</code></pre></td>"));
}

#[test]
fn renders_syntect_highlighted_source_blocks() {
    let html = render_html(&asciidoctor_rs::parser::parse_document(
        "= Demo\n:source-highlighter: syntect\n\n[source,rust]\n----\nfn main() {}\n----",
    ));

    assert!(html.contains(
        "<pre class=\"highlight\"><code class=\"language-rust\" data-lang=\"rust\">"
    ));
    assert!(html.contains("<span style="));
    assert!(html.contains("fn "));
}

#[test]
fn does_not_highlight_for_synctect_typo() {
    let html = render_html(&asciidoctor_rs::parser::parse_document(
        "= Demo\n:source-highlighter: synctect\n\n[source,rust]\n----\nfn main() {}\n----",
    ));

    assert!(!html.contains("<span style="));
}

#[test]
fn renders_delimited_block_titles() {
    let document = Document {
        attributes: Default::default(),
        title: None,
        blocks: vec![Block::Listing(Listing {
            lines: vec!["puts 'hello'".into()],
            callouts: vec![],
            reftext: None,
            metadata: BlockMetadata {
                title: Some("Exhibit A".into()),
                ..Default::default()
            },
        })],
    };

    let html = render_html(&document);

    assert!(html.contains("<div class=\"title\">Exhibit A</div>"));
}

#[test]
fn renders_tables() {
    let html = render_html(&asciidoctor_rs::parser::parse_document(
        ".Agents\n[%header,cols=\"30%,\"]\n|===\n|Name|Email\n|Peter|peter@example.com\n|Adam|adam@example.com\n|===",
    ));

    assert!(html.contains("<table class=\"tableblock frame-all grid-all stretch\">"));
    assert!(html.contains("<caption class=\"title\">Table 1. Agents</caption>"));
    assert!(html.contains("<thead>"));
    assert!(html.contains("<th class=\"tableblock halign-left valign-top\">Name</th>"));
    assert!(html.contains(
        "<td class=\"tableblock halign-left valign-top\"><p class=\"tableblock\">Peter</p></td>"
    ));
}

#[test]
fn renders_tables_with_stacked_cells() {
    let html = render_html(&asciidoctor_rs::parser::parse_document(
        ".Agents\n[%header,cols=\"30%,70%\"]\n|===\n|Name\n|Email\n|Peter\n|peter@example.com\n|Adam\n|adam@example.com\n|===",
    ));

    assert!(html.contains("<th class=\"tableblock halign-left valign-top\">Name</th>"));
    assert!(html.contains("<th class=\"tableblock halign-left valign-top\">Email</th>"));
    assert!(html.contains(
        "<td class=\"tableblock halign-left valign-top\"><p class=\"tableblock\">Peter</p></td>"
    ));
    assert!(html.contains("<td class=\"tableblock halign-left valign-top\"><p class=\"tableblock\">peter@example.com</p></td>"));
}

#[test]
fn renders_tables_with_stacked_cells_without_cols() {
    let html = render_html(&asciidoctor_rs::parser::parse_document(
        ".Agents\n[%header]\n|===\n|Name\n|Email\n\n|Peter\n|peter@example.com\n\n|Adam\n|adam@example.com\n|===",
    ));

    assert!(html.contains("<th class=\"tableblock halign-left valign-top\">Name</th>"));
    assert!(html.contains("<th class=\"tableblock halign-left valign-top\">Email</th>"));
    assert!(html.contains(
        "<td class=\"tableblock halign-left valign-top\"><p class=\"tableblock\">Adam</p></td>"
    ));
    assert!(html.contains("<td class=\"tableblock halign-left valign-top\"><p class=\"tableblock\">adam@example.com</p></td>"));
}

#[test]
fn renders_block_content_inside_table_cells() {
    let html = render_html(&asciidoctor_rs::parser::parse_document(
        ".Services\n[%header,cols=\"1,3\"]\n|===\n|Name\n|Details\n|API\n|First paragraph.\n\n* fast\n* typed\n|===",
    ));

    assert!(
        html.contains(
            "<td class=\"tableblock halign-left valign-top\"><div class=\"paragraph\">"
        )
    );
    assert!(html.contains("<p>First paragraph.</p>"));
    assert!(html.contains("<div class=\"ulist\">"));
    assert!(html.contains("<p>fast</p>"));
    assert!(html.contains("<p>typed</p>"));
}

#[test]
fn renders_table_cell_specs_for_rowspan_and_asciidoc_style() {
    let html = render_html(&asciidoctor_rs::parser::parse_document(
        "[%header,cols=\"1,2\"]\n|===\nh|Area\n|Description\n\n.2+|Shared\na|First paragraph.\n+\nSecond paragraph.\n\n|Another description\n|===",
    ));

    assert!(html.contains("<th class=\"tableblock halign-left valign-top\">Area</th>"));
    assert!(html.contains("<td class=\"tableblock halign-left valign-top\" rowspan=\"2\"><p class=\"tableblock\">Shared</p></td>"));
    assert!(html.contains("<p>First paragraph.</p>"));
    assert!(html.contains("<p>Second paragraph.</p>"));
}

#[test]
fn renders_admonition_paragraphs() {
    let document = Document {
        attributes: Default::default(),
        title: None,
        blocks: vec![Block::Admonition(asciidoctor_rs::ast::AdmonitionBlock {
            variant: asciidoctor_rs::ast::AdmonitionVariant::Note,
            blocks: vec![Block::Paragraph(Paragraph {
                lines: vec!["This is just a note.".into()],
                inlines: vec![Inline::Text("This is just a note.".into())],
                id: None,
                reftext: None,
                metadata: BlockMetadata::default(),
            })],
            id: None,
            reftext: None,
            metadata: BlockMetadata::default(),
        })],
    };

    let html = render_html(&document);

    assert!(html.contains("<div class=\"admonitionblock note\">"));
    assert!(html.contains("<td class=\"icon\">"));
    assert!(html.contains("<div class=\"title\">Note</div>"));
    assert!(html.contains("<td class=\"content\">"));
    assert!(html.contains("<p>This is just a note.</p>"));
}

#[test]
fn uses_document_caption_for_admonition_label() {
    let document = Document {
        attributes: AttributeMap::from_pairs(vec![("tip-caption".to_string(), "Pro Tip".to_string())]),
        title: None,
        blocks: vec![Block::Admonition(asciidoctor_rs::ast::AdmonitionBlock {
            id: None,
            reftext: None,
            variant: asciidoctor_rs::ast::AdmonitionVariant::Tip,
            blocks: vec![Block::Paragraph(Paragraph {
                lines: vec!["Ship it carefully.".into()],
                inlines: vec![Inline::Text("Ship it carefully.".into())],
                id: None,
                reftext: None,
                metadata: BlockMetadata::default(),
            })],
            metadata: BlockMetadata::default(),
        })],
    };

    let html = render_html(&document);

    assert!(html.contains("<div class=\"title\">Pro Tip</div>"));
    assert!(!html.contains("<td class=\"icon\">\n<div class=\"title\">Tip</div>"));
}

#[test]
fn block_caption_overrides_document_caption_for_admonition_label() {
    let document = Document {
        attributes: AttributeMap::from_pairs(vec![("tip-caption".to_string(), "Pro Tip".to_string())]),
        title: None,
        blocks: vec![Block::Admonition(asciidoctor_rs::ast::AdmonitionBlock {
            id: None,
            reftext: None,
            variant: asciidoctor_rs::ast::AdmonitionVariant::Tip,
            blocks: vec![Block::Paragraph(Paragraph {
                lines: vec!["Ship it carefully.".into()],
                inlines: vec![Inline::Text("Ship it carefully.".into())],
                id: None,
                reftext: None,
                metadata: BlockMetadata::default(),
            })],
            metadata: BlockMetadata {
                attributes: AttributeMap::from_pairs(vec![("caption".to_string(), "Custom Tip".to_string())]),
                ..BlockMetadata::default()
            },
        })],
    };

    let html = render_html(&document);

    assert!(html.contains("<div class=\"title\">Custom Tip</div>"));
    assert!(!html.contains("<td class=\"icon\">\n<div class=\"title\">Pro Tip</div>"));
}

#[test]
fn renders_image_admonition_icons_from_document_attributes() {
    let document = Document {
        attributes: AttributeMap::from_pairs(vec![
            ("icons".to_string(), String::new()),
            ("iconsdir".to_string(), "assets/icons".to_string()),
        ]),
        title: None,
        blocks: vec![Block::Admonition(asciidoctor_rs::ast::AdmonitionBlock {
            id: None,
            reftext: None,
            variant: asciidoctor_rs::ast::AdmonitionVariant::Tip,
            blocks: vec![Block::Paragraph(Paragraph {
                lines: vec!["Ship it carefully.".into()],
                inlines: vec![Inline::Text("Ship it carefully.".into())],
                id: None,
                reftext: None,
                metadata: BlockMetadata::default(),
            })],
            metadata: BlockMetadata::default(),
        })],
    };

    let html = render_html(&document);

    assert!(html.contains("<img src=\"assets/icons/tip.png\" alt=\"Tip\">"));
    assert!(!html.contains("<div class=\"title\">Tip</div>"));
}

#[test]
fn renders_font_admonition_icons_from_document_attributes() {
    let document = Document {
        attributes: AttributeMap::from_pairs(vec![("icons".to_string(), "font".to_string())]),
        title: None,
        blocks: vec![Block::Admonition(asciidoctor_rs::ast::AdmonitionBlock {
            id: None,
            reftext: None,
            variant: asciidoctor_rs::ast::AdmonitionVariant::Tip,
            blocks: vec![Block::Paragraph(Paragraph {
                lines: vec!["Ship it carefully.".into()],
                inlines: vec![Inline::Text("Ship it carefully.".into())],
                id: None,
                reftext: None,
                metadata: BlockMetadata::default(),
            })],
            metadata: BlockMetadata::default(),
        })],
    };

    let html = render_html(&document);

    assert!(html.contains("<i class=\"fa icon-tip\" title=\"Tip\"></i>"));
    assert!(!html.contains("<div class=\"title\">Tip</div>"));
    assert!(!html.contains("<img"));
}

#[test]
fn uses_caption_as_font_admonition_icon_title() {
    let document = Document {
        attributes: AttributeMap::from_pairs(vec![("icons".to_string(), "font".to_string())]),
        title: None,
        blocks: vec![Block::Admonition(asciidoctor_rs::ast::AdmonitionBlock {
            id: None,
            reftext: None,
            variant: asciidoctor_rs::ast::AdmonitionVariant::Tip,
            blocks: vec![Block::Paragraph(Paragraph {
                lines: vec!["Ship it carefully.".into()],
                inlines: vec![Inline::Text("Ship it carefully.".into())],
                id: None,
                reftext: None,
                metadata: BlockMetadata::default(),
            })],
            metadata: BlockMetadata {
                attributes: AttributeMap::from_pairs(vec![("caption".to_string(), "Custom Tip".to_string())]),
                ..Default::default()
            },
        })],
    };

    let html = render_html(&document);

    assert!(html.contains("<i class=\"fa icon-tip\" title=\"Custom Tip\"></i>"));
    assert!(!html.contains("<div class=\"title\">Custom Tip</div>"));
}

#[test]
fn block_icon_attributes_override_default_admonition_icon() {
    let document = Document {
        attributes: AttributeMap::from_pairs(vec![("icons".to_string(), String::new())]),
        title: None,
        blocks: vec![Block::Admonition(asciidoctor_rs::ast::AdmonitionBlock {
            id: None,
            reftext: None,
            variant: asciidoctor_rs::ast::AdmonitionVariant::Tip,
            blocks: vec![Block::Paragraph(Paragraph {
                lines: vec!["Ship it carefully.".into()],
                inlines: vec![Inline::Text("Ship it carefully.".into())],
                id: None,
                reftext: None,
                metadata: BlockMetadata::default(),
            })],
            metadata: BlockMetadata {
                attributes: AttributeMap::from_pairs(vec![
                    ("icon".to_string(), "hint".to_string()),
                    ("iconsdir".to_string(), "custom/icons".to_string()),
                    ("icontype".to_string(), "svg".to_string()),
                    ("caption".to_string(), "Custom Tip".to_string()),
                ]),
                ..BlockMetadata::default()
            },
        })],
    };

    let html = render_html(&document);

    assert!(html.contains("<img src=\"custom/icons/hint.svg\" alt=\"Custom Tip\">"));
}

#[test]
fn renders_block_passthrough_as_raw_html() {
    let html = render_html(&asciidoctor_rs::parser::parse_document(
        "++++\n<video src=\"video.mp4\" controls></video>\n++++\n",
    ));
    assert!(html.contains("<video src=\"video.mp4\" controls></video>"));
    assert!(!html.contains("&lt;video"));
}

#[test]
fn renders_stem_blocks_with_asciimath_delimiters() {
    let html = render_html(&asciidoctor_rs::parser::parse_document(
        "= Demo\n:stem:\n\n[stem]\n++++\nsqrt(4) = 2\n++++",
    ));

    assert!(html.contains("<div class=\"stemblock\">"));
    assert!(html.contains("\\$sqrt(4) = 2\\$"));
}

#[test]
fn renders_stem_blocks_with_latexmath_delimiters() {
    let html = render_html(&asciidoctor_rs::parser::parse_document(
        "= Demo\n:stem: latexmath\n\n[stem]\n++++\n\\alpha + \\beta\n++++",
    ));

    assert!(html.contains("\\[\\alpha + \\beta\\]"));
}

#[test]
fn renders_explicit_latexmath_blocks() {
    let html = render_html(&asciidoctor_rs::parser::parse_document(
        "[latexmath]\n++++\n\\alpha + \\beta\n++++",
    ));

    assert!(html.contains("<div class=\"stemblock\">"));
    assert!(html.contains("\\[\\alpha + \\beta\\]"));
}

#[test]
fn trims_outer_blank_lines_in_listing_blocks_when_rendering() {
    let html = render_html(&asciidoctor_rs::parser::parse_document(
        "----\n\nputs 'hello' <1>\n\nputs 'goodbye'\n\n----\n<1> greeting\n",
    ));

    assert!(html.contains(
        "<pre>puts &#39;hello&#39;<i class=\"conum\" data-value=\"1\"></i><b>1</b>\n\nputs &#39;goodbye&#39;</pre>"
    ));
}

#[test]
fn trims_outer_blank_lines_in_literal_blocks_when_rendering() {
    let html = render_html(&asciidoctor_rs::parser::parse_document(
        "....\n\n  first line\n\nlast line\n\n....",
    ));

    assert!(html.contains("<pre>  first line\n\nlast line</pre>"));
}

#[test]
fn renders_inline_triple_plus_passthrough_unescaped() {
    let html = render_html(&asciidoctor_rs::parser::parse_document(
        "See +++<del>this</del>+++ example.\n",
    ));
    assert!(html.contains("<del>this</del>"));
    assert!(!html.contains("&lt;del&gt;"));
}

#[test]
fn renders_inline_pass_macro_unescaped() {
    let html = render_html(&asciidoctor_rs::parser::parse_document("See pass:[<br>] here.\n"));
    assert!(html.contains("<br>"));
    assert!(!html.contains("&lt;br&gt;"));
}

#[test]
fn renders_block_image_with_alt_and_src() {
    let html = render_html(&asciidoctor_rs::parser::parse_document("image::tiger.png[Tiger]"));
    assert!(html.contains("<div class=\"imageblock\">"));
    assert!(html.contains("<img src=\"tiger.png\" alt=\"Tiger\">"));
}

#[test]
fn renders_block_image_with_dimensions() {
    let html = render_html(&asciidoctor_rs::parser::parse_document(
        "image::tiger.png[Tiger, 200, 300]",
    ));
    assert!(
        html.contains("<img src=\"tiger.png\" alt=\"Tiger\" width=\"200\" height=\"300\">")
    );
}

#[test]
fn renders_block_image_with_imagesdir() {
    let html = render_html(&asciidoctor_rs::parser::parse_document(
        ":imagesdir: images\n\nimage::tiger.png[Tiger]",
    ));
    assert!(html.contains("<img src=\"images/tiger.png\" alt=\"Tiger\">"));
}

#[test]
fn renders_block_image_uri_bypasses_imagesdir() {
    let html = render_html(&asciidoctor_rs::parser::parse_document(
        ":imagesdir: images\n\nimage::http://example.com/tiger.png[Tiger]",
    ));
    assert!(html.contains("<img src=\"http://example.com/tiger.png\" alt=\"Tiger\">"));
}

#[test]
fn renders_block_image_with_title() {
    let html = render_html(&asciidoctor_rs::parser::parse_document(
        ".The AsciiDoc Tiger\nimage::tiger.png[Tiger]",
    ));
    assert!(html.contains("<div class=\"title\">Figure 1. The AsciiDoc Tiger</div>"));
}

#[test]
fn renders_block_image_with_link() {
    let html = render_html(&asciidoctor_rs::parser::parse_document(
        "image::tiger.png[Tiger, link='http://example.com']",
    ));
    assert!(html.contains("<a class=\"image\" href=\"http://example.com\">"));
    assert!(html.contains("<img src=\"tiger.png\" alt=\"Tiger\">"));
    assert!(html.contains("</a>"));
}

#[test]
fn renders_block_image_with_auto_generated_alt() {
    let html = render_html(&asciidoctor_rs::parser::parse_document(
        "image::lions-and-tigers.png[]",
    ));
    assert!(html.contains("alt=\"lions and tigers\""));
}

#[test]
fn renders_inline_image() {
    let html = render_html(&asciidoctor_rs::parser::parse_document(
        "Click image:icon.png[Icon] to continue.",
    ));
    assert!(html.contains("<span class=\"image\"><img src=\"icon.png\" alt=\"Icon\"></span>"));
}

#[test]
fn renders_inline_image_with_dimensions() {
    let html = render_html(&asciidoctor_rs::parser::parse_document(
        "image:icon.png[Icon, 16, 16]",
    ));
    assert!(html.contains("<img src=\"icon.png\" alt=\"Icon\" width=\"16\" height=\"16\">"));
}

#[test]
fn renders_footnotes() {
    let document = Document {
        attributes: Default::default(),
        title: None,
        blocks: vec![Block::Paragraph(Paragraph {
            lines: vec!["A notefootnote:[Read this first.] here.".into()],
            inlines: vec![
                Inline::Text("A note".into()),
                Inline::Footnote(InlineFootnote {
                    inlines: vec![Inline::Text("Read this first.".into())],
                }),
                Inline::Text(" here.".into()),
            ],
            id: None,
            reftext: None,
            metadata: BlockMetadata::default(),
        })],
    };

    let html = render_html(&document);

    assert!(html.contains(
        "<sup class=\"footnote\" id=\"_footnoteref_1\"><a href=\"#_footnotedef_1\">1</a></sup>"
    ));
    assert!(html.contains("<div id=\"footnotes\">"));
    assert!(html.contains("<div class=\"footnote\" id=\"_footnotedef_1\"><a href=\"#_footnoteref_1\">1</a>. Read this first.</div>"));
}

#[test]
fn renders_toc_macro_at_placement_location() {
    let html = render_html(&asciidoctor_rs::parser::parse_document(
        "= Doc\n:toc: macro\n\ntoc::[]\n\n== Alpha\n\ntext\n\n== Beta\n\nmore",
    ));
    // TOC should appear in content, not the header
    assert!(html.contains("<div id=\"toc\" class=\"toc\">"));
    assert!(html.contains("<div id=\"toctitle\">Table of Contents</div>"));
    assert!(html.contains("<ul class=\"sectlevel1\">"));
    assert!(html.contains("<a href=\"#_alpha\">Alpha</a>"));
    // Second same-level section gets -2 suffix from ID generator
    assert!(html.contains("<a href=\"#_beta-2\">Beta</a>"));
    // Header div should NOT contain the TOC (toc: macro means explicit placement only)
    let content_start = html.find("<div id=\"content\">").unwrap();
    assert!(!html[..content_start].contains("id=\"toc\""));
}

#[test]
fn renders_toc_auto_placed_in_header() {
    let html = render_html(&asciidoctor_rs::parser::parse_document(
        "= Doc\n:toc:\n\n== First\n\ntext\n\n=== Sub\n\nmore",
    ));
    assert!(html.contains("<div id=\"toc\" class=\"toc\">"));
    assert!(html.contains("<a href=\"#_first\">First</a>"));
    // Nested sectlevel2
    assert!(html.contains("<ul class=\"sectlevel2\">"));
    assert!(html.contains("<a href=\"#_sub\">Sub</a>"));
    // TOC is in the header, before </div>\n<div id="content">
    let content_start = html.find("<div id=\"content\">").unwrap();
    assert!(html[..content_start].contains("<div id=\"toc\" class=\"toc\">"));
}

#[test]
fn renders_toc_with_custom_title_and_levels() {
    let html = render_html(&asciidoctor_rs::parser::parse_document(
        "= Doc\n:toc:\n:toctitle: Contents\n:toclevels: 1\n\n== Sec\n\n=== Nested\n\ntext",
    ));
    assert!(html.contains("<div id=\"toctitle\">Contents</div>"));
    assert!(html.contains("<ul class=\"sectlevel1\">"));
    // Level 2 should be suppressed
    assert!(!html.contains("sectlevel2"));
}

#[test]
fn renders_open_block() {
    let html = render_html(&asciidoctor_rs::parser::parse_document(
        "--\nFirst paragraph.\n\nSecond paragraph.\n--",
    ));
    assert!(html.contains("<div class=\"openblock\""));
    assert!(html.contains("<div class=\"content\">"));
    assert!(html.contains("First paragraph."));
    assert!(html.contains("Second paragraph."));
}

#[test]
fn renders_styled_open_block_as_sidebar() {
    let html = render_html(&asciidoctor_rs::parser::parse_document(
        "[sidebar]\n--\nSidebar content.\n--",
    ));
    assert!(html.contains("<div class=\"sidebarblock\""));
    assert!(!html.contains("openblock"));
}

#[test]
fn renders_delimited_literal_block() {
    let html = render_html(&asciidoctor_rs::parser::parse_document(
        "....\n  preformatted text\n  with indent\n....",
    ));
    assert!(html.contains("<div class=\"literalblock\""));
    assert!(html.contains("<pre>  preformatted text\n  with indent</pre>"));
}

#[test]
fn renders_literal_styled_paragraph() {
    let html = render_html(&asciidoctor_rs::parser::parse_document("[literal]\npreformatted."));
    assert!(html.contains("<div class=\"literalblock\""));
    assert!(html.contains("<pre>preformatted.</pre>"));
}

#[test]
fn renders_indented_paragraph_as_literal() {
    let html = render_html(&asciidoctor_rs::parser::parse_document(" indented text"));
    assert!(html.contains("<div class=\"literalblock\""));
    assert!(html.contains("<pre> indented text</pre>"));
}

#[test]
fn renders_quote_block() {
    let html = render_html(&asciidoctor_rs::parser::parse_document(
        "[quote, Abraham Lincoln, Gettysburg Address]\n____\nFour score.\n____",
    ));
    assert!(html.contains("<div class=\"quoteblock\""));
    assert!(html.contains("<blockquote>"));
    assert!(html.contains("Four score."));
    assert!(html.contains("</blockquote>"));
    assert!(html.contains("<div class=\"attribution\">"));
    assert!(html.contains("Abraham Lincoln"));
    assert!(html.contains("<cite>Gettysburg Address</cite>"));
}

#[test]
fn renders_quote_block_without_attribution() {
    let html = render_html(&asciidoctor_rs::parser::parse_document(
        "____\nSome quoted text.\n____",
    ));
    assert!(html.contains("<div class=\"quoteblock\""));
    assert!(html.contains("<blockquote>"));
    assert!(html.contains("Some quoted text."));
    assert!(!html.contains("<div class=\"attribution\">"));
}

#[test]
fn renders_verse_block() {
    let html = render_html(&asciidoctor_rs::parser::parse_document(
        "[verse, Carl Sandburg, Fog]\n____\nThe fog comes\non little cat feet.\n____",
    ));
    assert!(html.contains("<div class=\"verseblock\""));
    assert!(html.contains("<pre class=\"content\">"));
    assert!(html.contains("The fog comes\non little cat feet."));
    assert!(html.contains("<div class=\"attribution\">"));
    assert!(html.contains("Carl Sandburg"));
    assert!(html.contains("<cite>Fog</cite>"));
}

#[test]
fn trims_outer_blank_lines_in_verse_blocks_when_rendering() {
    let html = render_html(&asciidoctor_rs::parser::parse_document(
        "[verse]\n____\n\nline one\n\nline two\n\n____",
    ));

    assert!(html.contains("<pre class=\"content\">line one\n\nline two</pre>"));
}
