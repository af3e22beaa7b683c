use draffity_services::domain::{CodexEntry, CodexKind, DocNode, DocumentStatus, DocumentType};
use draffity_services::validation_context::{strip_html, ValidationContextBuilder};

fn doc(id: &str, pos: i64, doc_type: DocumentType, content: Option<&str>) -> DocNode {
    DocNode {
        id: id.into(),
        project_id: "p".into(),
        parent_id: None,
        title: id.into(),
        doc_type,
        content: content.map(|c| c.to_string()),
        content_json: None,
        synopsis: None,
        position: pos,
        status: DocumentStatus::Draft,
        tags: Vec::new(),
        label_ids: Vec::new(),
        metadata: vec![],
        is_research: false,
        is_front_matter: false,
        is_back_matter: false,
        goal_words: None,
        created_at: 0,
        updated_at: 0,
    }
}

fn codex_entry(name: &str, kind: CodexKind, body: Option<&str>, tags: &[&str]) -> CodexEntry {
    CodexEntry {
        id: name.into(),
        project_id: "p".into(),
        kind,
        name: name.into(),
        body: body.map(|b| b.to_string()),
        tags: tags.iter().map(|t| t.to_string()).collect(),
        created_at: 0,
        updated_at: 0,
    }
}

#[test]
fn strips_html_and_builds_codex_block() {
    let target = doc("c2", 1, DocumentType::Chapter, Some("<p>Hola <b>mundo</b>.</p>"));
    let codex = vec![codex_entry("Aragorn", CodexKind::Character, Some("Montaraz"), &["heroe"])];
    let ctx = ValidationContextBuilder::default().build(&target, &codex, std::slice::from_ref(&target));
    assert_eq!(ctx.text, "Hola mundo.");
    assert!(ctx.codex_block.contains("- Aragorn (character): Montaraz [tags: heroe]"));
}

#[test]
fn anchor_pulls_only_preceding_chapters_and_scenes_in_order() {
    let c0 = doc("c0", 0, DocumentType::Chapter, Some("<p>uno</p>"));
    let folder = doc("f", 1, DocumentType::Folder, Some("<p>ignore</p>"));
    let target = doc("c2", 2, DocumentType::Chapter, Some("<p>actual</p>"));
    let later = doc("c3", 3, DocumentType::Chapter, Some("<p>despues</p>"));
    let docs = vec![c0, folder, target.clone(), later];
    let ctx = ValidationContextBuilder::default().build(&target, &[], &docs);
    assert_eq!(ctx.anchor_text, "uno");
}

#[test]
fn anchor_keeps_only_the_last_few_documents() {
    let builder = ValidationContextBuilder { anchor_docs: 2, ..ValidationContextBuilder::default() };
    let docs = vec![
        doc("c0", 0, DocumentType::Chapter, Some("a")),
        doc("c1", 1, DocumentType::Chapter, Some("b")),
        doc("c2", 2, DocumentType::Chapter, Some("c")),
        doc("c3", 3, DocumentType::Chapter, Some("d")),
    ];
    let ctx = builder.build(&docs[3], &[], &docs);
    assert_eq!(ctx.anchor_text, "b\n\nc");
}

#[test]
fn strip_html_collapses_whitespace() {
    assert_eq!(strip_html("<p>  a \n\t b </p><p>c</p>"), "a b c");
    assert_eq!(strip_html("<p>x</p><p>y</p>"), "xy");
    assert_eq!(strip_html(""), "");
}

#[test]
fn caps_append_an_ellipsis() {
    let builder = ValidationContextBuilder { text_cap: 3, ..ValidationContextBuilder::default() };
    let target = doc("c", 0, DocumentType::Chapter, Some("abcdef"));
    let ctx = builder.build(&target, &[], &[]);
    assert_eq!(ctx.text, "abc…");
}

#[test]
fn anchor_orders_by_position_not_by_list_order() {
    let docs = vec![
        doc("c1", 1, DocumentType::Scene, Some("second")),
        doc("c0", 0, DocumentType::Scene, Some("first")),
        doc("n", 0, DocumentType::Chapter, None),
    ];
    let target = doc("t", 5, DocumentType::Chapter, Some("x"));
    let ctx = ValidationContextBuilder::default().build(&target, &[], &docs);
    assert_eq!(ctx.anchor_text, "first\n\nsecond");
}
