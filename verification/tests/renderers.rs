use draffity_services::clock::now_ms;
use std::io::Read;
use draffity_services::domain::{
    CodexEntry, CodexKind, DocNode, DocumentStatus, DocumentType, Project, ProjectMetadata,
    ProjectStatus,
};
use draffity_services::exporter::epub;
use draffity_services::exporter::markdown;
use draffity_services::exporter::pdf;
use draffity_services::exporter::{ExportConfig, MediaBundle, SceneSeparator};
use draffity_services::ids::new_id;

fn project(title: &str) -> Project {
    let now = now_ms();
    Project {
        id: new_id(),
        title: title.into(),
        template_id: "novela-tres-actos".into(),
        status: ProjectStatus::Active,
        metadata: None,
        goal_words: None,
        deadline: None,
        created_at: now,
        updated_at: now,
    }
}

fn doc(
    id: &str,
    project_id: &str,
    parent_id: Option<&str>,
    title: &str,
    doc_type: DocumentType,
    content: Option<&str>,
    position: i64,
) -> DocNode {
    let now = now_ms();
    DocNode {
        id: id.into(),
        project_id: project_id.into(),
        parent_id: parent_id.map(|s| s.into()),
        title: title.into(),
        doc_type,
        content: content.map(|s| s.into()),
        content_json: None,
        synopsis: None,
        position,
        status: DocumentStatus::Draft,
        tags: Vec::new(),
        label_ids: Vec::new(),
        metadata: vec![],
        is_research: false,
        is_front_matter: false,
        is_back_matter: false,
        goal_words: None,
        created_at: now,
        updated_at: now,
    }
}

fn entry(kind: CodexKind, name: &str, tags: &[&str], body: Option<&str>) -> CodexEntry {
    CodexEntry {
        id: new_id(),
        project_id: "p".into(),
        kind,
        name: name.into(),
        body: body.map(|s| s.into()),
        tags: tags.iter().map(|t| t.to_string()).collect(),
        created_at: 0,
        updated_at: 0,
    }
}

#[test]
fn includes_frontmatter_and_titles() {
    let p = project("Mi novela");
    let pid = p.id.clone();
    let docs = vec![
        doc("a", &pid, None, "Acto 1", DocumentType::Folder, None, 0),
        doc(
            "b",
            &pid,
            Some("a"),
            "Capítulo 1",
            DocumentType::Chapter,
            Some("<p>Hola <strong>mundo</strong>.</p>"),
            0,
        ),
    ];
    let bytes = markdown::render(&p, &docs, &ExportConfig::default()).unwrap();
    let text = String::from_utf8(bytes).unwrap();

    assert!(text.starts_with("---\n"));
    assert!(text.contains("title: \"Mi novela\""));
    assert!(text.contains("# Mi novela"));
    assert!(text.contains("## Acto 1"));
    assert!(text.contains("### Capítulo 1"));
    assert!(text.contains("**mundo**"));
}

#[test]
fn empty_project_still_has_frontmatter() {
    let p = project("X");
    let bytes = markdown::render(&p, &[], &ExportConfig::default()).unwrap();
    let text = String::from_utf8(bytes).unwrap();
    assert!(text.starts_with("---\n"));
    assert!(text.contains("# X"));
}

#[test]
fn produces_standalone_html_with_print_css() {
    let p = project("Mi novela");
    let pid = p.id.clone();
    let docs = vec![doc(
        "a",
        &pid,
        None,
        "Capítulo 1",
        DocumentType::Chapter,
        Some("<p>Hola.</p>"),
        0,
    )];
    let bytes = pdf::render(&p, &docs, &[], &MediaBundle::new(), &ExportConfig::default()).unwrap();
    let html = String::from_utf8(bytes).unwrap();
    assert!(html.starts_with("<!DOCTYPE html>"));
    assert!(html.contains("Mi novela"));
    assert!(html.contains("Capítulo 1"));
    assert!(html.contains("page-break-before"));
    assert!(html.contains("@page"));
    assert!(html.contains("window.print()"));
}

#[test]
fn skips_toc_when_disabled() {
    let p = project("X");
    let cfg = ExportConfig { include_toc: false, include_title_page: false, ..ExportConfig::default() };
    let bytes = pdf::render(&p, &[], &[], &MediaBundle::new(), &cfg).unwrap();
    let html = String::from_utf8(bytes).unwrap();
    assert!(!html.contains("class=\"toc\""));
    assert!(!html.contains("class=\"title-page\""));
}

#[test]
fn renders_footnotes_as_notes_section() {
    let p = project("Notas");
    let pid = p.id.clone();
    let docs = vec![doc(
        "a",
        &pid,
        None,
        "Cap",
        DocumentType::Chapter,
        Some(r#"<p>Alpha<sup data-footnote-id="x" data-footnote-content="Una nota">†</sup>.</p>"#),
        0,
    )];
    let bytes = pdf::render(&p, &docs, &[], &MediaBundle::new(), &ExportConfig::default()).unwrap();
    let html = String::from_utf8(bytes).unwrap();
    assert!(html.contains("class=\"notes\""));
    assert!(html.contains("Una nota"));
}

#[test]
fn pdf_footnote_reference_is_numbered_and_escaped_in_notes() {
    let p = project("N");
    let docs = vec![doc(
        "a",
        "p",
        None,
        "Cap",
        DocumentType::Chapter,
        Some(r#"<p>A<sup data-footnote-content="x &lt; y">*</sup>B<sup data-footnote-content="z">*</sup></p>"#),
        0,
    )];
    let bytes = pdf::render(&p, &docs, &[], &MediaBundle::new(), &ExportConfig::default()).unwrap();
    let html = String::from_utf8(bytes).unwrap();
    assert!(html.contains(
        "<p>A<sup class=\"fn-ref\">1</sup>B<sup class=\"fn-ref\">2</sup></p><section class=\"notes\"><hr/><ol>\n<li>x &lt; y</li>\n<li>z</li>\n</ol></section>\n"
    ));
}

#[test]
fn pdf_title_page_prefers_trimmed_override_and_metadata_author() {
    let mut p = project("Original");
    p.metadata = Some(ProjectMetadata {
        json: "{\"author\":\"Ana & Bo\"}".into(),
        author: Some("Ana & Bo".into()),
        synopsis: None,
    });
    let cfg = ExportConfig {
        title_override: Some("  Nuevo <t>  ".into()),
        include_toc: false,
        ..ExportConfig::default()
    };
    let bytes = pdf::render(&p, &[], &[], &MediaBundle::new(), &cfg).unwrap();
    let html = String::from_utf8(bytes).unwrap();
    assert!(html.contains(
        "<section class=\"title-page\"><h1>Nuevo &lt;t&gt;</h1><p class=\"author\">Ana &amp; Bo</p></section>\n"
    ));
    assert!(html.contains("<title>Nuevo &lt;t&gt;</title>\n<meta name=\"author\" content=\"Ana &amp; Bo\">\n"));
    assert!(!html.contains("Original"));
}

#[test]
fn pdf_separator_only_between_top_level_documents_and_headings_nest() {
    let p = project("P");
    let docs = vec![
        doc("a", "p", None, "A", DocumentType::Folder, None, 0),
        doc("b", "p", Some("a"), "B", DocumentType::Chapter, None, 0),
        doc("c", "p", None, "C", DocumentType::Folder, None, 1),
    ];
    let cfg = ExportConfig {
        include_toc: true,
        include_title_page: false,
        scene_separator: SceneSeparator::Custom("~".into()),
        ..ExportConfig::default()
    };
    let bytes = pdf::render(&p, &docs, &[], &MediaBundle::new(), &cfg).unwrap();
    let html = String::from_utf8(bytes).unwrap();
    assert!(html.contains(
        "<nav class=\"toc\"><h2>Contents</h2><ol>\n<li>A</li>\n  <li>B</li>\n<li>C</li>\n</ol></nav>\n"
    ));
    assert!(html.contains(
        "<section class=\"chapter\"><h2>A</h2>\n</section>\n<section class=\"chapter\"><h3>B</h3>\n</section>\n<p class=\"scene-separator\">~</p>\n<section class=\"chapter\"><h2>C</h2>\n</section>\n"
    ));
    assert_eq!(html.matches("scene-separator\">").count(), 1);
}

#[test]
fn pdf_embeds_media_as_base64_data_uri() {
    let p = project("M");
    let docs = vec![doc(
        "a",
        "p",
        None,
        "Cap",
        DocumentType::Chapter,
        Some(r#"<p><img data-media-id="m1" alt="x"><img data-media-id="zz"></p>"#),
        0,
    )];
    let mut media = MediaBundle::new();
    media.insert("m1", "image/png", vec![1, 2, 3]);
    let bytes = pdf::render(&p, &docs, &[], &media, &ExportConfig::default()).unwrap();
    let html = String::from_utf8(bytes).unwrap();
    assert!(html.contains(
        r#"<p><img src="data:image/png;base64,AQID" data-media-id="m1" alt="x"><img data-media-id="zz"></p>"#
    ));
}

#[test]
fn pdf_codex_appendix_groups_by_kind_and_sorts_case_insensitively() {
    let p = project("C");
    let codex = vec![
        entry(CodexKind::Place, "zeta", &[], None),
        entry(CodexKind::Character, "bruno", &["hero", "x"], Some("<p>Bio</p>")),
        entry(CodexKind::Character, "Ana", &[], Some("   ")),
        entry(CodexKind::Place, "Alba", &[], None),
    ];
    let cfg = ExportConfig {
        include_codex: true,
        include_toc: false,
        include_title_page: false,
        ..ExportConfig::default()
    };
    let bytes = pdf::render(&p, &[], &codex, &MediaBundle::new(), &cfg).unwrap();
    let html = String::from_utf8(bytes).unwrap();
    let expected = "<section class=\"codex\"><h2>Codex</h2>\n<h3>Characters</h3>\n<h4>Ana</h4>\n<h4>bruno</h4>\n<p class=\"tags\"><em>hero, x</em></p>\n<p>Bio</p><h3>Places</h3>\n<h4>Alba</h4>\n<h4>zeta</h4>\n</section>\n";
    assert!(html.contains(expected));
    let none = pdf::render(&p, &[], &[], &MediaBundle::new(), &cfg).unwrap();
    assert!(!String::from_utf8(none).unwrap().contains("class=\"codex\""));
}

#[test]
fn produces_valid_zip_with_mimetype_first() {
    let p = project("Mi novela");
    let pid = p.id.clone();
    let docs = vec![doc(
        "a",
        &pid,
        None,
        "Capítulo 1",
        DocumentType::Chapter,
        Some("<p>Hola.</p>"),
        0,
    )];
    let bytes = epub::render(&p, &docs).unwrap();
    assert_eq!(&bytes[0..4], b"PK\x03\x04");
    let header = &bytes[..bytes.len().min(120)];
    assert!(header.windows(8).any(|w| w == b"mimetype"));
}

#[test]
fn empty_project_still_renders() {
    let p = project("X");
    let bytes = epub::render(&p, &[]).unwrap();
    assert_eq!(&bytes[0..4], b"PK\x03\x04");
}

fn epub_entry(bytes: &[u8], suffix: &str) -> String {
    let mut archive = zip::ZipArchive::new(std::io::Cursor::new(bytes.to_vec())).unwrap();
    let name = archive.file_names().find(|n| n.ends_with(suffix)).unwrap().to_string();
    let mut text = String::new();
    archive.by_name(&name).unwrap().read_to_string(&mut text).unwrap();
    text
}

#[test]
fn epub_package_names_the_title_and_the_author() {
    let mut p = project("Mi novela");
    p.metadata = Some(ProjectMetadata {
        json: "{}".into(),
        author: Some("Ana Pérez".into()),
        synopsis: None,
    });
    let opf = epub_entry(&epub::render(&p, &[]).unwrap(), "content.opf");
    assert!(opf.contains("<dc:title>Mi novela</dc:title>"));
    assert!(opf.contains("Ana Pérez</dc:creator>"));
    assert_eq!(opf.matches("</dc:creator>").count(), 1);
}

#[test]
fn epub_package_has_no_author_for_an_empty_one() {
    let mut p = project("Sin autor");
    p.metadata = Some(ProjectMetadata { json: "{}".into(), author: Some(String::new()), synopsis: None });
    let opf = epub_entry(&epub::render(&p, &[]).unwrap(), "content.opf");
    assert!(opf.contains("<dc:title>Sin autor</dc:title>"));
    assert!(!opf.contains("</dc:creator>"));
}
