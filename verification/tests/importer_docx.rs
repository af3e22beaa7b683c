use std::io::Write;

use draffity_services::error::AppError;
use draffity_services::importer::docx::{import, parse_heading_style};
use draffity_services::importer::{ImportFormat, ImportService, LocalImporter};

fn make_docx(document_xml: &str) -> Vec<u8> {
    let mut buf = Vec::new();
    {
        let cursor = std::io::Cursor::new(&mut buf);
        let mut zip = zip::ZipWriter::new(cursor);
        let options: zip::write::FileOptions<'_, ()> =
            zip::write::FileOptions::default().compression_method(zip::CompressionMethod::Deflated);
        zip.start_file("word/document.xml", options).unwrap();
        zip.write_all(document_xml.as_bytes()).unwrap();
        zip.finish().unwrap();
    }
    buf
}

const WRAPPER_OPEN: &str = r#"<?xml version="1.0" encoding="UTF-8" standalone="yes"?>
<w:document xmlns:w="http://schemas.openxmlformats.org/wordprocessingml/2006/main">
<w:body>"#;
const WRAPPER_CLOSE: &str = "</w:body></w:document>";

fn doc(body: &str) -> Vec<u8> {
    let xml = format!("{WRAPPER_OPEN}{body}{WRAPPER_CLOSE}");
    make_docx(&xml)
}

#[test]
fn extracts_heading_levels_and_nesting() {
    let docx = doc(r#"
<w:p><w:pPr><w:pStyle w:val="Heading1"/></w:pPr><w:r><w:t>Acto 1</w:t></w:r></w:p>
<w:p><w:pPr><w:pStyle w:val="Heading2"/></w:pPr><w:r><w:t>Cap 1</w:t></w:r></w:p>
<w:p><w:r><w:t>Body of cap 1.</w:t></w:r></w:p>
"#);
    let tree = import(&docx, "x").unwrap();
    assert_eq!(tree.project_title, "Acto 1");
    assert_eq!(tree.nodes.len(), 1);
    assert_eq!(tree.nodes[0].title, "Cap 1");
    assert!(tree.nodes[0].content_html.contains("Body of cap 1"));
}

#[test]
fn promotes_bold_italic_and_underline_to_inline_marks() {
    let docx = doc(r#"
<w:p><w:pPr><w:pStyle w:val="Heading1"/></w:pPr><w:r><w:t>Cap</w:t></w:r></w:p>
<w:p>
  <w:r><w:rPr><w:b/></w:rPr><w:t>bold</w:t></w:r>
  <w:r><w:t> </w:t></w:r>
  <w:r><w:rPr><w:i/></w:rPr><w:t>italic</w:t></w:r>
  <w:r><w:t> </w:t></w:r>
  <w:r><w:rPr><w:u w:val="single"/></w:rPr><w:t>under</w:t></w:r>
</w:p>
"#);
    let tree = import(&docx, "x").unwrap();
    let html = &tree.nodes[0].content_html;
    assert!(html.contains("<strong>bold</strong>"));
    assert!(html.contains("<em>italic</em>"));
    assert!(html.contains("<u>under</u>"));
}

#[test]
fn skips_blank_paragraphs() {
    let docx = doc(r#"
<w:p><w:pPr><w:pStyle w:val="Heading1"/></w:pPr><w:r><w:t>Cap</w:t></w:r></w:p>
<w:p><w:r><w:t></w:t></w:r></w:p>
<w:p><w:r><w:t>Real body.</w:t></w:r></w:p>
"#);
    let tree = import(&docx, "x").unwrap();
    let html = &tree.nodes[0].content_html;
    assert!(html.contains("Real body"));
    assert_eq!(html.matches("<p>").count(), 1);
}

#[test]
fn falls_back_to_filename_when_no_heading_paragraph_exists() {
    let docx = doc("<w:p><w:r><w:t>Just text.</w:t></w:r></w:p>");
    let tree = import(&docx, "loose").unwrap();
    assert_eq!(tree.project_title, "loose");
    assert_eq!(tree.nodes.len(), 1);
    assert!(tree.nodes[0].content_html.contains("Just text"));
}

#[test]
fn rejects_non_zip_payload() {
    let res = import(b"plain text not a zip", "x");
    assert!(matches!(res, Err(AppError::Invariant(_))));
}

#[test]
fn handles_spanish_titulo_style_name() {
    let docx = doc(
        r#"<w:p><w:pPr><w:pStyle w:val="Ttulo1"/></w:pPr><w:r><w:t>Capitulo</w:t></w:r></w:p>
<w:p><w:r><w:t>Body</w:t></w:r></w:p>"#,
    );
    let tree = import(&docx, "x").unwrap();
    assert_eq!(tree.project_title, "Capitulo");
}

#[test]
fn heading_style_names_map_to_levels() {
    assert_eq!(parse_heading_style("Heading1"), Some(1));
    assert_eq!(parse_heading_style("heading 3"), Some(3));
    assert_eq!(parse_heading_style("Título_2"), Some(2));
    assert_eq!(parse_heading_style("HEADING-06"), Some(6));
    assert_eq!(parse_heading_style("Heading+4"), Some(4));
    assert_eq!(parse_heading_style("Heading7"), None);
    assert_eq!(parse_heading_style("Heading0"), None);
    assert_eq!(parse_heading_style("Heading"), None);
    assert_eq!(parse_heading_style("Normal"), None);
    assert_eq!(parse_heading_style("Heading999"), None);
}

#[test]
fn body_before_headings_becomes_intro_and_marks_nest_in_order() {
    let docx = doc(r#"
<w:p><w:r><w:t>Lead &amp; in</w:t></w:r><w:r><w:br/></w:r></w:p>
<w:p><w:r><w:rPr><w:b/><w:i w:val="false"/><w:strike/><w:rStyle w:val="Code"/></w:rPr><w:t>x&lt;y</w:t></w:r></w:p>
<w:p><w:pPr><w:pStyle w:val="Heading2"/></w:pPr><w:r><w:t>  Sub  </w:t></w:r></w:p>
"#);
    let tree = import(&docx, "hint").unwrap();
    assert_eq!(tree.project_title, "hint");
    assert_eq!(tree.nodes.len(), 1);
    assert_eq!(tree.nodes[0].title, "Intro");
    assert_eq!(
        tree.nodes[0].content_html,
        "<p>Lead &amp; in<br/></p><p><strong><s><code>x&lt;y</code></s></strong></p>"
    );
    assert_eq!(tree.nodes[0].children.len(), 1);
    assert_eq!(tree.nodes[0].children[0].title, "Sub");
}

#[test]
fn missing_document_part_and_bad_xml_are_invalid() {
    let mut buf = Vec::new();
    {
        let mut zip = zip::ZipWriter::new(std::io::Cursor::new(&mut buf));
        let options: zip::write::FileOptions<'_, ()> = zip::write::FileOptions::default();
        zip.start_file("other.txt", options).unwrap();
        zip.write_all(b"x").unwrap();
        zip.finish().unwrap();
    }
    match import(&buf, "x") {
        Err(AppError::Invariant(m)) => assert_eq!(m, "DOCX missing word/document.xml entry"),
        other => panic!("unexpected {:?}", other.map(|t| t.project_title)),
    }
    match import(&make_docx("<w:document"), "x") {
        Err(AppError::Invariant(m)) => assert!(m.starts_with("invalid DOCX XML: ")),
        other => panic!("unexpected {:?}", other.map(|t| t.project_title)),
    }
}

#[test]
fn local_importer_dispatches_by_format() {
    let docx = doc("<w:p><w:r><w:t>Only</w:t></w:r></w:p>");
    let tree = LocalImporter.import(ImportFormat::Docx, &docx, "f").unwrap();
    assert_eq!(tree.nodes[0].title, "Intro");
    let md = LocalImporter.import(ImportFormat::Markdown, b"# T\n\nbody\n", "f").unwrap();
    assert_eq!(md.project_title, "T");
}
