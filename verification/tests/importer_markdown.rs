use draffity_services::importer::markdown::{import, LocalMarkdownImporter};
use draffity_services::importer::{ImportFormat, ImportService, LocalImporter};

#[test]
fn pulls_title_from_frontmatter_then_strips_block() {
    let md = b"---\ntitle: \"Mi novela\"\nauthor: Anon\n---\n\n# Cap 1\n\nHola.";
    let tree = import(md, "fallback").unwrap();
    assert_eq!(tree.project_title, "Mi novela");
    let first = &tree.nodes[0];
    assert!(!first.content_html.contains("author"));
}

#[test]
fn nests_h2_under_preceding_h1() {
    let md = b"# Acto 1\n\nIntro acto.\n\n## Capitulo 1\n\nCuerpo capitulo.\n";
    let tree = import(md, "x").unwrap();
    assert_eq!(tree.project_title, "Acto 1");
    assert_eq!(tree.nodes.len(), 1);
    assert_eq!(tree.nodes[0].title, "Capitulo 1");
    assert!(tree.nodes[0].content_html.contains("Cuerpo capitulo"));
}

#[test]
fn keeps_all_h1s_when_there_are_several() {
    let md = b"# Cap 1\n\nA.\n\n# Cap 2\n\nB.\n";
    let tree = import(md, "anthology").unwrap();
    assert_eq!(tree.project_title, "Cap 1");
    assert_eq!(tree.nodes.len(), 2);
    assert_eq!(tree.nodes[1].title, "Cap 2");
}

#[test]
fn renders_footnote_refs_as_tiptap_sup() {
    let md = b"# Cap\n\nHola[^a] mundo.\n\n[^a]: una nota\n";
    let tree = import(md, "x").unwrap();
    let html = &tree.nodes.first().map(|n| &n.content_html);
    let body = html.expect("at least one node");
    assert!(body.contains("data-footnote-content=\"una nota\""), "body was: {body}");
}

#[test]
fn falls_back_to_filename_when_no_title_anywhere() {
    let md = b"Just a paragraph without any heading.\n";
    let tree = import(md, "draft").unwrap();
    assert_eq!(tree.project_title, "draft");
    assert_eq!(tree.nodes.len(), 1);
    assert!(tree.nodes[0].content_html.contains("Just a paragraph"));
}

#[test]
fn returns_at_least_one_doc_for_well_formed_file() {
    let md = b"# Top\n\n## Sub\n\nbody";
    let tree = import(md, "x").unwrap();
    assert_eq!(tree.nodes.len(), 1);
    assert_eq!(tree.nodes[0].title, "Sub");
}

#[test]
fn nesting_follows_heading_levels() {
    let md = b"# A\n\n### deep\n\n## mid\n\n# B\n";
    let tree = import(md, "x").unwrap();
    assert_eq!(tree.nodes.len(), 2);
    assert_eq!(tree.nodes[0].title, "A");
    let kids: Vec<&str> = tree.nodes[0].children.iter().map(|n| n.title.as_str()).collect();
    assert_eq!(kids, vec!["deep", "mid"]);
    assert!(tree.nodes[1].children.is_empty());
}

#[test]
fn heading_needs_a_space_and_at_most_six_hashes() {
    let md = b"#nospace\n####### seven\n# Real\n";
    let tree = import(md, "x").unwrap();
    assert_eq!(tree.nodes.len(), 2);
    assert_eq!(tree.nodes[0].title, "Intro");
    assert!(tree.nodes[0].content_html.contains("#nospace"));
    assert_eq!(tree.nodes[1].title, "Real");
}

#[test]
fn markdown_importer_refuses_docx() {
    let e = LocalMarkdownImporter.import(ImportFormat::Docx, b"x", "x").unwrap_err();
    assert_eq!(e.message(), "unsupported: Markdown importer cannot read DOCX");
}

#[test]
fn import_format_from_extension_ignores_ascii_case() {
    assert_eq!(ImportFormat::from_extension("MD"), Some(ImportFormat::Markdown));
    assert_eq!(ImportFormat::from_extension("Markdown"), Some(ImportFormat::Markdown));
    assert_eq!(ImportFormat::from_extension("docx"), Some(ImportFormat::Docx));
    assert_eq!(ImportFormat::from_extension("txt"), None);
    assert_eq!(LocalImporter.supported_formats(), vec![ImportFormat::Markdown, ImportFormat::Docx]);
}
