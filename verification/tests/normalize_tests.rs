use asciidoctor_rs::normalize::{
    has_asciidoc_extension, normalize_asciidoc, normalize_include_text, trim_outer_blank_lines,
};

#[test]
fn strips_trailing_spaces_from_asciidoc_lines() {
    let normalized = normalize_asciidoc("alpha  \r\nbeta\t\r\ngamma\n");
    assert_eq!(normalized.as_str(), "alpha\nbeta\ngamma\n");
}

#[test]
fn keeps_trailing_spaces_for_non_asciidoc_include_text() {
    let normalized = normalize_include_text("left  \r\nright\t\r\n", false);
    assert_eq!(normalized.as_str(), "left  \nright\t\n");
}

#[test]
fn recognizes_asciidoc_extensions() {
    assert!(has_asciidoc_extension("doc.adoc"));
    assert!(has_asciidoc_extension("doc.ASC"));
    assert!(has_asciidoc_extension("doc.txt"));
    assert!(!has_asciidoc_extension("data.csv"));
}

#[test]
fn trims_outer_blank_lines() {
    assert_eq!(trim_outer_blank_lines("\n\nalpha\n\nbeta\n\n"), "alpha\n\nbeta");
    assert_eq!(trim_outer_blank_lines("\n \n\t\n"), "");
}
