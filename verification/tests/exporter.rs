use draffity_services::domain::{DocNode, DocumentStatus, DocumentType};
use draffity_services::exporter::compile::{apply_find_replace, reorder_matter, strip_research};
use draffity_services::exporter::config::{settings_key, FindReplaceRule};
use draffity_services::exporter::util::{flatten_in_order, xml_escape, yaml_quote};
use draffity_services::exporter::{ExportConfig, ExportFormat, ExportService, LocalExporter, Margins, PageSize, SceneSeparator};

fn node(
    id: &str,
    project_id: &str,
    parent_id: Option<&str>,
    title: &str,
    doc_type: DocumentType,
    content: Option<&str>,
    position: i64,
) -> DocNode {
    DocNode {
        id: id.into(),
        project_id: project_id.into(),
        parent_id: parent_id.map(|s| s.into()),
        title: title.into(),
        doc_type,
        content: content.map(|s| s.into()),
        content_json: None,
        synopsis: None,
        position,
        status: DocumentStatus::Draft,
        tags: Vec::new(),
        label_ids: Vec::new(),
        metadata: vec![],
        is_research: false,
        is_front_matter: false,
        is_back_matter: false,
        goal_words: None,
        created_at: 0,
        updated_at: 0,
    }
}

fn doc(id: &str, parent: Option<&str>, is_research: bool) -> DocNode {
    let mut d = node(id, "p", parent, id, DocumentType::Folder, None, 0);
    d.is_research = is_research;
    d
}

fn rule(pattern: &str, replacement: &str) -> FindReplaceRule {
    FindReplaceRule { pattern: pattern.into(), replacement: replacement.into() }
}

#[test]
fn find_replace_rewrites_content_only_for_matching_rules() {
    let mut docs = vec![doc("a", None, false), doc("b", None, false)];
    docs[0].content = Some("<p>[SPOILER] hidden</p>".into());
    docs[1].content = Some("<p>clean</p>".into());
    apply_find_replace(&mut docs, &[rule("[SPOILER] ", ""), rule("", "x")]);
    assert_eq!(docs[0].content.as_deref(), Some("<p>hidden</p>"));
    assert_eq!(docs[1].content.as_deref(), Some("<p>clean</p>"));
}

#[test]
fn reorder_matter_pushes_front_first_and_back_last() {
    let mut docs = vec![
        doc("body", None, false),
        doc("title", None, false),
        doc("appendix", None, false),
        doc("child", Some("body"), false),
    ];
    docs[0].position = 1;
    docs[1].position = 0;
    docs[1].is_front_matter = true;
    docs[2].position = 2;
    docs[2].is_back_matter = true;
    docs[3].position = 5;
    reorder_matter(&mut docs);
    assert!(docs[1].position < docs[0].position);
    assert!(docs[2].position > docs[0].position);
    assert_eq!(docs[3].position, 5);
}

#[test]
fn strips_research_root_and_descendants_keeps_the_rest() {
    let docs = vec![
        doc("ch1", None, false),
        doc("research", None, true),
        doc("note", Some("research"), false),
        doc("deep", Some("note"), false),
    ];
    let kept: Vec<String> = strip_research(docs).into_iter().map(|d| d.id).collect();
    assert_eq!(kept, vec!["ch1".to_string()]);
}

#[test]
fn keeps_everything_when_no_research() {
    let docs = vec![doc("a", None, false), doc("b", Some("a"), false)];
    assert_eq!(strip_research(docs).len(), 2);
}

#[test]
fn find_replace_applies_rules_in_order() {
    let mut docs = vec![doc("a", None, false)];
    docs[0].content = Some("ab ab".into());
    apply_find_replace(&mut docs, &[rule("a", "b"), rule("bb", "c")]);
    assert_eq!(docs[0].content.as_deref(), Some("c c"));
}

#[test]
fn reorder_matter_shifts_by_a_million() {
    let mut docs = vec![doc("f", None, false), doc("b", None, false)];
    docs[0].position = 3;
    docs[0].is_front_matter = true;
    docs[1].position = 4;
    docs[1].is_back_matter = true;
    reorder_matter(&mut docs);
    assert_eq!(docs[0].position, 3 - 1_000_000);
    assert_eq!(docs[1].position, 4 + 1_000_000);
}

#[test]
fn flatten_preserves_preorder_with_depth() {
    let docs = vec![
        node("root1", "p", None, "Acto 1", DocumentType::Folder, None, 0),
        node("root2", "p", None, "Acto 2", DocumentType::Folder, None, 1),
        node("child2", "p", Some("root1"), "Cap 2", DocumentType::Chapter, None, 1),
        node("child1", "p", Some("root1"), "Cap 1", DocumentType::Chapter, None, 0),
    ];
    let out = flatten_in_order(&docs);
    let titles: Vec<_> = out.iter().map(|(d, n)| (*d, n.title.as_str())).collect();
    assert_eq!(titles, vec![(0, "Acto 1"), (1, "Cap 1"), (1, "Cap 2"), (0, "Acto 2"),]);
}

#[test]
fn flatten_skips_orphans_whose_parent_is_missing() {
    let docs = vec![
        node("a", "p", None, "A", DocumentType::Folder, None, 0),
        node("o", "p", Some("ghost"), "Orphan", DocumentType::Chapter, None, 0),
    ];
    let out = flatten_in_order(&docs);
    assert_eq!(out.len(), 1);
    assert_eq!(out[0].1.title, "A");
}

#[test]
fn xml_escape_handles_special_chars() {
    assert_eq!(xml_escape("a & <b> \"c\""), "a &amp; &lt;b&gt; &quot;c&quot;");
}

#[test]
fn xml_escape_escapes_apostrophes() {
    assert_eq!(xml_escape("it's"), "it&apos;s");
}

#[test]
fn yaml_quote_escapes_quotes_and_newlines() {
    assert_eq!(yaml_quote("hi \"x\"\nline"), "\"hi \\\"x\\\"\\nline\"");
}

#[test]
fn yaml_quote_escapes_control_chars_and_drops_carriage_returns() {
    assert_eq!(yaml_quote("a\r\u{1}b\\"), "\"a\\u0001b\\\\\"");
}

#[test]
fn settings_key_is_namespaced_by_project() {
    assert_eq!(settings_key("abc-123"), "export_config:abc-123");
}

#[test]
fn default_config_matches_legacy_behaviour() {
    let cfg = ExportConfig::default();
    assert!(cfg.include_toc);
    assert!(cfg.include_title_page);
    assert!(!cfg.include_codex);
    assert!(!cfg.include_research);
    assert_eq!(cfg.page_size, PageSize::A4);
    assert_eq!(cfg.margins, Margins { top_mm: 25, right_mm: 25, bottom_mm: 25, left_mm: 25 });
    assert_eq!(cfg.scene_separator, SceneSeparator::Stars);
}

#[test]
fn scene_separator_text_forms() {
    assert_eq!(SceneSeparator::Stars.as_text(), "* * *");
    assert_eq!(SceneSeparator::Dashes.as_text(), "---");
    assert_eq!(SceneSeparator::Blank.as_text(), "");
    assert_eq!(SceneSeparator::Custom("~ ~ ~".into()).as_text(), "~ ~ ~");
}

#[test]
fn export_formats_extension_and_mime() {
    assert_eq!(ExportFormat::Pdf.extension(), "html");
    assert_eq!(ExportFormat::Markdown.mime(), "text/markdown");
    assert_eq!(ExportFormat::Epub.mime(), "application/epub+zip");
    assert_eq!(LocalExporter.supported_formats().len(), 4);
}
