use draffity_services::exporter::footnotes::collect_footnotes;

#[test]
fn collects_footnotes_in_document_order() {
    let html = r#"<p>Alpha<sup data-footnote-id="a" data-footnote-content="First note">†</sup> and beta<sup data-footnote-id="b" data-footnote-content="Second note">†</sup>.</p>"#;
    let (rewritten, notes) = collect_footnotes(html, |n| format!("[^{n}]"));
    assert_eq!(notes.len(), 2);
    assert_eq!(notes[0].number, 1);
    assert_eq!(notes[0].content, "First note");
    assert_eq!(notes[1].number, 2);
    assert_eq!(notes[1].content, "Second note");
    assert!(rewritten.contains("Alpha[^1]"));
    assert!(rewritten.contains("beta[^2]"));
}

#[test]
fn preserves_unrelated_sup_tags() {
    let html = "<p>x<sup>2</sup> + y<sup>2</sup></p>";
    let (out, notes) = collect_footnotes(html, |n| format!("[^{n}]"));
    assert!(notes.is_empty());
    assert_eq!(out, html);
}

#[test]
fn decodes_html_entities_in_attribute() {
    let html = r#"<p>A<sup data-footnote-id="a" data-footnote-content="X &amp; Y &lt; Z">†</sup>.</p>"#;
    let (_rewritten, notes) = collect_footnotes(html, |n| format!("[^{n}]"));
    assert_eq!(notes[0].content, "X & Y < Z");
}

#[test]
fn handles_unterminated_sup_gracefully() {
    let html = "<p>Tail<sup data-footnote-content=\"foo\">";
    let (out, notes) = collect_footnotes(html, |n| format!("[^{n}]"));
    assert!(notes.is_empty());
    assert_eq!(out, html);
}

#[test]
fn empty_input_returns_empty_results() {
    let (out, notes) = collect_footnotes("", |n| format!("[^{n}]"));
    assert!(out.is_empty());
    assert!(notes.is_empty());
}

#[test]
fn footnote_markers_replace_the_whole_sup_element() {
    let html = r#"<p>a<sup data-footnote-id="x" data-footnote-content="n1">†</sup>b<sup data-footnote-id="y" data-footnote-content="n2">†</sup>c</p>"#;
    let (out, notes) = collect_footnotes(html, |n| format!("<{n}>"));
    assert_eq!(out, "<p>a<1>b<2>c</p>");
    assert_eq!(notes.len(), 2);
}
