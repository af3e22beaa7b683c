use draffity_services::clock::now_ms;
use draffity_services::domain::{DocNode, DocumentStatus, DocumentType, Project, ProjectStatus};
use draffity_services::error::AppError;
use draffity_services::exporter::docx::{export_from_pack, mm_to_twips, render};
use draffity_services::exporter::{ExportConfig, ExportFormat, ExportService, LocalExporter, MediaBundle, PageSize};
use draffity_services::ids::new_id;

fn project(title: &str) -> Project {
    let now = now_ms();
    Project {
        id: new_id(),
        title: title.into(),
        template_id: "novela-tres-actos".into(),
        status: ProjectStatus::Active,
        metadata: None,
        goal_words: None,
        deadline: None,
        created_at: now,
        updated_at: now,
    }
}

fn doc(
    id: &str,
    project_id: &str,
    parent_id: Option<&str>,
    title: &str,
    doc_type: DocumentType,
    content: Option<&str>,
    position: i64,
) -> DocNode {
    let now = now_ms();
    DocNode {
        id: id.into(),
        project_id: project_id.into(),
        parent_id: parent_id.map(|s| s.into()),
        title: title.into(),
        doc_type,
        content: content.map(|s| s.into()),
        content_json: None,
        synopsis: None,
        position,
        status: DocumentStatus::Draft,
        tags: Vec::new(),
        label_ids: Vec::new(),
        metadata: vec![],
        is_research: false,
        is_front_matter: false,
        is_back_matter: false,
        goal_words: None,
        created_at: now,
        updated_at: now,
    }
}

#[test]
fn produces_valid_zip_container() {
    let p = project("Mi novela");
    let pid = p.id.clone();
    let docs = vec![doc(
        "a",
        &pid,
        None,
        "Capítulo 1",
        DocumentType::Chapter,
        Some("<h2>Sub</h2><p>Hola <strong>mundo</strong>.</p><ul><li>Uno</li><li>Dos</li></ul>"),
        0,
    )];
    let bytes = render(&p, &docs, &[], &MediaBundle::new(), &ExportConfig::default()).unwrap();
    assert_eq!(&bytes[0..4], b"PK\x03\x04");
    let s = String::from_utf8_lossy(&bytes);
    assert!(s.contains("word/document.xml"));
}

#[test]
fn manuscript_preset_applies_courier_12pt_and_page_size() {
    let p = project("Novela");
    let cfg = ExportConfig {
        font_family: Some("monospace".into()),
        page_size: PageSize::Letter,
        ..ExportConfig::default()
    };
    let bytes = render(&p, &[], &[], &MediaBundle::new(), &cfg).unwrap();
    let s = String::from_utf8_lossy(&bytes);
    assert!(s.contains("Courier New"), "expected Courier New default font");
    assert!(s.contains("w:val=\"24\""), "expected 12pt (24 half-points) default size");
    assert!(s.contains("w:w=\"12240\""), "expected Letter page width");
}

#[test]
fn empty_project_still_produces_zip() {
    let p = project("X");
    let bytes = render(&p, &[], &[], &MediaBundle::new(), &ExportConfig::default()).unwrap();
    assert_eq!(&bytes[0..4], b"PK\x03\x04");
}

#[test]
fn toc_is_emitted_when_include_toc_is_true() {
    let p = project("Con TOC");
    let bytes = render(&p, &[], &[], &MediaBundle::new(), &ExportConfig::default()).unwrap();
    let s = String::from_utf8_lossy(&bytes);
    assert!(s.contains("TOC"), "expected TOC field in DOCX output");
}

#[test]
fn toc_is_omitted_when_include_toc_is_false() {
    let p = project("Sin TOC");
    let cfg = ExportConfig { include_toc: false, include_title_page: false, ..ExportConfig::default() };
    let bytes = render(&p, &[], &[], &MediaBundle::new(), &cfg).unwrap();
    let s = String::from_utf8_lossy(&bytes);
    assert!(!s.contains("TOC \\"), "TOC field should not appear when disabled");
}

#[test]
fn title_page_omits_when_disabled() {
    let p = project("Title-less");
    let cfg = ExportConfig { include_title_page: false, include_toc: false, ..ExportConfig::default() };
    let bytes = render(&p, &[], &[], &MediaBundle::new(), &cfg).unwrap();
    assert_eq!(&bytes[0..4], b"PK\x03\x04");
}

#[test]
fn title_override_is_used_in_title_page() {
    let p = project("Original");
    let cfg = ExportConfig { title_override: Some("  ".into()), ..ExportConfig::default() };
    render(&p, &[], &[], &MediaBundle::new(), &cfg).unwrap();
}

#[test]
fn millimetres_round_to_nearest_twip() {
    assert_eq!(mm_to_twips(0), 0);
    assert_eq!(mm_to_twips(1), 57);
    assert_eq!(mm_to_twips(25), 1417);
    assert_eq!(mm_to_twips(210), 11906);
    assert_eq!(mm_to_twips(297), 16838);
    assert_eq!(mm_to_twips(u32::MAX), i32::MAX);
    for mm in [3u32, 7, 19, 254, 1000, 123_456] {
        assert_eq!(mm_to_twips(mm), ((mm as f64) * 1440.0 / 25.4).round() as i32);
    }
}

#[test]
fn exporter_dispatches_by_format() {
    let p = project("D");
    let cfg = ExportConfig::default();
    let md = LocalExporter.export(&p, &[], &[], &MediaBundle::new(), ExportFormat::Markdown, &cfg).unwrap();
    assert!(String::from_utf8(md).unwrap().starts_with("---\n"));
    let html = LocalExporter.export(&p, &[], &[], &MediaBundle::new(), ExportFormat::Pdf, &cfg).unwrap();
    assert!(String::from_utf8(html).unwrap().starts_with("<!DOCTYPE html>"));
    let docx = LocalExporter.export(&p, &[], &[], &MediaBundle::new(), ExportFormat::Docx, &cfg).unwrap();
    assert_eq!(&docx[0..4], b"PK\x03\x04");
}

#[test]
fn table_of_contents_collects_heading_one_to_six() {
    let toc = draffity_services::exporter::docx::heading_toc();
    assert_eq!((toc.first_level, toc.last_level), (1, 6));
    let styles: Vec<(String, usize)> = (1..=6).map(|n| (format!("Heading{n}"), n)).collect();
    assert_eq!(toc.styles, styles);
    assert!(toc.hyperlink);
    assert!(toc.dirty);
}

#[test]
fn pack_outcome_becomes_the_export_outcome() {
    assert_eq!(export_from_pack(Ok(vec![1, 2, 3])), Ok(vec![1, 2, 3]));
    assert_eq!(
        export_from_pack(Err("zip full".into())),
        Err(AppError::Unexpected("docx build failed: zip full".into()))
    );
}
