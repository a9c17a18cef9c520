use asciidoctor_rs::ast::{
    Inline, InlineAnchor, InlineFootnote, InlineForm, InlineLink, InlineSpan, InlineVariant,
    InlineXref,
};
use asciidoctor_rs::inline::parse_inlines;

#[test]
fn parses_plain_text_when_no_markup_is_present() {
    assert_eq!(parse_inlines("hello"), vec![Inline::Text("hello".into())]);
}

#[test]
fn parses_constrained_strong_text() {
    let inlines = parse_inlines("*strong*");
    let [Inline::Span(span)] = &inlines[..] else {
        panic!("expected strong span");
    };

    assert_eq!(span.variant, InlineVariant::Strong);
    assert_eq!(span.form, InlineForm::Constrained);
    assert_eq!(span.inlines, vec![Inline::Text("strong".into())]);
}

#[test]
fn parses_unconstrained_emphasis_inside_words() {
    let inlines = parse_inlines("before__focus__after");

    assert_eq!(inlines.len(), 3);
}

#[test]
fn parses_constrained_monospace_text() {
    let inlines = parse_inlines("`cargo test`");
    let [Inline::Span(span)] = &inlines[..] else {
        panic!("expected monospace span");
    };

    assert_eq!(span.variant, InlineVariant::Monospace);
    assert_eq!(span.form, InlineForm::Constrained);
    assert_eq!(span.inlines, vec![Inline::Text("cargo test".into())]);
}

#[test]
fn parses_unconstrained_monospace_inside_words() {
    let inlines = parse_inlines("re``link``ed");

    assert_eq!(
        inlines,
        vec![
            Inline::Text("re".into()),
            Inline::Span(InlineSpan {
                variant: InlineVariant::Monospace,
                form: InlineForm::Unconstrained,
                inlines: vec![Inline::Text("link".into())],
            }),
            Inline::Text("ed".into()),
        ]
    );
}

#[test]
fn keeps_escaped_markup_delimiters_as_literal_text() {
    assert_eq!(
        parse_inlines(r"\*not strong*"),
        vec![Inline::Text("*not strong*".into())]
    );
    assert_eq!(
        parse_inlines(r"\_not emphasis_"),
        vec![Inline::Text("_not emphasis_".into())]
    );
}

#[test]
fn does_not_parse_constrained_spans_inside_words() {
    assert_eq!(
        parse_inlines("foo*bar*baz"),
        vec![Inline::Text("foo*bar*baz".into())]
    );
    assert_eq!(
        parse_inlines("foo_bar_baz"),
        vec![Inline::Text("foo_bar_baz".into())]
    );
}

#[test]
fn does_not_parse_spans_with_whitespace_at_edges() {
    assert_eq!(
        parse_inlines("* not strong*"),
        vec![Inline::Text("* not strong*".into())]
    );
    assert_eq!(
        parse_inlines("*not strong *"),
        vec![Inline::Text("*not strong *".into())]
    );
    assert_eq!(
        parse_inlines("** not strong**"),
        vec![Inline::Text("** not strong**".into())]
    );
    assert_eq!(
        parse_inlines("__not emphasis __"),
        vec![Inline::Text("__not emphasis __".into())]
    );
}

#[test]
fn leaves_unmatched_delimiters_as_literal_text() {
    assert_eq!(parse_inlines("****"), vec![Inline::Text("****".into())]);
    assert_eq!(
        parse_inlines("**x***"),
        vec![
            Inline::Span(InlineSpan {
                variant: InlineVariant::Strong,
                form: InlineForm::Unconstrained,
                inlines: vec![Inline::Text("x".into())],
            }),
            Inline::Text("*".into()),
        ]
    );
    assert_eq!(
        parse_inlines("***x**"),
        vec![
            Inline::Text("*".into()),
            Inline::Span(InlineSpan {
                variant: InlineVariant::Strong,
                form: InlineForm::Unconstrained,
                inlines: vec![Inline::Text("x".into())],
            }),
        ]
    );
}

#[test]
fn parses_bare_urls_as_links() {
    assert_eq!(
        parse_inlines("http://google.com"),
        vec![Inline::Link(InlineLink {
            target: "http://google.com".into(),
            text: vec![Inline::Text("http://google.com".into())],
            bare: true,
            window: None,
        })]
    );
}

#[test]
fn parses_bare_urls_with_link_text() {
    assert_eq!(
        parse_inlines("http://google.com[Google]"),
        vec![Inline::Link(InlineLink {
            target: "http://google.com".into(),
            text: vec![Inline::Text("Google".into())],
            bare: false,
            window: None,
        })]
    );
}

#[test]
fn parses_link_macro_targets() {
    assert_eq!(
        parse_inlines("link:/home.html[Home]"),
        vec![Inline::Link(InlineLink {
            target: "/home.html".into(),
            text: vec![Inline::Text("Home".into())],
            bare: false,
            window: None,
        })]
    );
}

#[test]
fn does_not_include_trailing_punctuation_in_bare_urls() {
    assert_eq!(
        parse_inlines("http://foo.com,"),
        vec![
            Inline::Link(InlineLink {
                target: "http://foo.com".into(),
                text: vec![Inline::Text("http://foo.com".into())],
                bare: true,
                window: None,
            }),
            Inline::Text(",".into()),
        ]
    );
}

#[test]
fn keeps_escaped_raw_urls_literal() {
    assert_eq!(
        parse_inlines(r"\http://google.com"),
        vec![Inline::Text("http://google.com".into())]
    );
}

#[test]
fn parses_blank_window_shorthand_on_links() {
    assert_eq!(
        parse_inlines("https://example.org[Example^]"),
        vec![Inline::Link(InlineLink {
            target: "https://example.org".into(),
            text: vec![Inline::Text("Example".into())],
            bare: false,
            window: Some("_blank".into()),
        })]
    );
}

#[test]
fn parses_explicit_window_attribute_on_links() {
    assert_eq!(
        parse_inlines("link:/home.html[Home,window=_blank]"),
        vec![Inline::Link(InlineLink {
            target: "/home.html".into(),
            text: vec![Inline::Text("Home".into())],
            bare: false,
            window: Some("_blank".into()),
        })]
    );
}

#[test]
fn parses_shorthand_xrefs() {
    assert_eq!(
        parse_inlines("<<install,Installation>>"),
        vec![Inline::Xref(InlineXref {
            target: "install".into(),
            text: vec![Inline::Text("Installation".into())],
            shorthand: true,
            explicit_text: true,
        })]
    );
}

#[test]
fn parses_xref_macro() {
    assert_eq!(
        parse_inlines("xref:install[Installation]"),
        vec![Inline::Xref(InlineXref {
            target: "install".into(),
            text: vec![Inline::Text("Installation".into())],
            shorthand: false,
            explicit_text: true,
        })]
    );
}

#[test]
fn parses_footnote_macro() {
    assert_eq!(
        parse_inlines("Look herefootnote:[Read *this* first.]"),
        vec![
            Inline::Text("Look here".into()),
            Inline::Footnote(InlineFootnote {
                inlines: vec![
                    Inline::Text("Read ".into()),
                    Inline::Span(InlineSpan {
                        variant: InlineVariant::Strong,
                        form: InlineForm::Constrained,
                        inlines: vec![Inline::Text("this".into())],
                    }),
                    Inline::Text(" first.".into()),
                ],
            }),
        ]
    );
}

#[test]
fn parses_inline_anchor_brackets() {
    assert_eq!(
        parse_inlines("[[bookmark-a]]Inline"),
        vec![
            Inline::Anchor(InlineAnchor {
                id: "bookmark-a".into(),
                reftext: None,
                inlines: Vec::new(),
            }),
            Inline::Text("Inline".into()),
        ]
    );
}

#[test]
fn parses_inline_anchor_macro() {
    assert_eq!(
        parse_inlines("anchor:bookmark-c[Label]Use"),
        vec![
            Inline::Anchor(InlineAnchor {
                id: "bookmark-c".into(),
                reftext: Some("Label".into()),
                inlines: Vec::new(),
            }),
            Inline::Text("Use".into()),
        ]
    );
}

#[test]
fn parses_phrase_applied_inline_anchor() {
    assert_eq!(
        parse_inlines("[#bookmark-b]#visible text#"),
        vec![Inline::Anchor(InlineAnchor {
            id: "bookmark-b".into(),
            reftext: None,
            inlines: vec![Inline::Text("visible text".into())],
        })]
    );
}

#[test]
fn parses_triple_plus_passthrough() {
    assert_eq!(
        parse_inlines("+++<del>strike</del>+++"),
        vec![Inline::Passthrough("<del>strike</del>".into())]
    );
}

#[test]
fn parses_triple_plus_passthrough_mid_sentence() {
    assert_eq!(
        parse_inlines("See +++<br>+++ here."),
        vec![
            Inline::Text("See ".into()),
            Inline::Passthrough("<br>".into()),
            Inline::Text(" here.".into()),
        ]
    );
}

#[test]
fn parses_pass_macro() {
    assert_eq!(
        parse_inlines("pass:[<br>]"),
        vec![Inline::Passthrough("<br>".into())]
    );
}

#[test]
fn parses_pass_macro_mid_sentence() {
    assert_eq!(
        parse_inlines("before pass:[<em>raw</em>] after"),
        vec![
            Inline::Text("before ".into()),
            Inline::Passthrough("<em>raw</em>".into()),
            Inline::Text(" after".into()),
        ]
    );
}
