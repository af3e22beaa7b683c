use draffity_services::domain::{CodexEntry, CodexKind, DocNode, DocumentStatus, DocumentType, Project, ProjectMetadata, ProjectStatus, SearchHit};
use draffity_services::memory::{assemble_context, clean_excerpt, codex_snippets, MemoryContext, MemoryRequest, DEFAULT_BUDGET};

fn entry(name: &str, kind: CodexKind, body: Option<&str>, tags: &[&str]) -> CodexEntry {
    CodexEntry {
        id: name.into(),
        project_id: "p".into(),
        kind,
        name: name.into(),
        body: body.map(|b| b.to_string()),
        tags: tags.iter().map(|t| t.to_string()).collect(),
        created_at: 0,
        updated_at: 0,
    }
}

fn hit(doc: &str, title: &str, excerpt: &str) -> SearchHit {
    SearchHit { document_id: doc.into(), project_id: "p".into(), title: title.into(), excerpt: excerpt.into() }
}

fn project_with_synopsis(s: &str) -> Project {
    Project {
        id: "p".into(),
        title: "Novela".into(),
        template_id: "x".into(),
        status: ProjectStatus::Active,
        metadata: Some(ProjectMetadata { json: String::new(), author: None, synopsis: Some(s.into()) }),
        goal_words: None,
        deadline: None,
        created_at: 0,
        updated_at: 0,
    }
}

fn request(window: &str, doc_id: Option<&str>, budget: u32) -> MemoryRequest {
    MemoryRequest { project_id: "p".into(), doc_id: doc_id.map(|d| d.into()), window_text: window.into(), token_budget: budget }
}

#[test]
fn empty_context_renders_empty_string() {
    let ctx = MemoryContext::default();
    assert!(ctx.is_empty());
    assert_eq!(ctx.render(), "");
}

#[test]
fn mentioned_codex_entry_is_included_others_are_not() {
    let entries = vec![
        entry("Aragorn", CodexKind::Character, Some("Montaraz del Norte, ojos grises."), &["héroe"]),
        entry("Mordor", CodexKind::Place, Some("Tierra oscura."), &[]),
    ];
    let (snippets, names) = codex_snippets(&entries, "Aragorn desenvainó la espada.");
    assert_eq!(snippets.len(), 1);
    assert_eq!(snippets[0], "Aragorn (character): Montaraz del Norte, ojos grises. [tags: héroe]");
    assert_eq!(names, vec!["Aragorn".to_string()]);
}

#[test]
fn episodic_excerpt_comes_from_a_different_document() {
    let entries = vec![entry("Aragorn", CodexKind::Character, None, &[])];
    let hits = vec![vec![
        hit("current", "Cap 2", "<mark>Aragorn</mark> aquí"),
        hit("other", "Cap 1", "<mark>Aragorn</mark> llegó a Bree."),
    ]];
    let ctx = assemble_context(&request("Aragorn", Some("current"), DEFAULT_BUDGET), &entries, &hits, &None, &None);
    assert_eq!(ctx.episodic_excerpts, vec!["«Cap 1» — Aragorn llegó a Bree.".to_string()]);
    assert_eq!(ctx.codex_snippets, vec!["Aragorn (character): —".to_string()]);
}

#[test]
fn synopses_are_picked_up() {
    let mut d = DocNode {
        id: "d".into(), project_id: "p".into(), parent_id: None, title: "d".into(),
        doc_type: DocumentType::Chapter, content: None, content_json: None,
        synopsis: Some("El capítulo del puente.".into()), position: 0,
        status: DocumentStatus::Draft, tags: vec![], label_ids: vec![], metadata: vec![], is_research: false,
        is_front_matter: false, is_back_matter: false, goal_words: None, created_at: 0, updated_at: 0,
    };
    let ctx = assemble_context(&request("nada", Some("d"), DEFAULT_BUDGET), &[], &vec![], &Some(d.clone()), &Some(project_with_synopsis("Una saga de anillos.")));
    assert_eq!(ctx.doc_synopsis.as_deref(), Some("El capítulo del puente."));
    assert_eq!(ctx.project_synopsis.as_deref(), Some("Una saga de anillos."));
    let r = ctx.render();
    assert!(r.starts_with("== Memoria del proyecto ==\nSinopsis del proyecto: Una saga de anillos.\n"));
    d.synopsis = Some("   ".into());
    let ctx = assemble_context(&request("nada", Some("d"), DEFAULT_BUDGET), &[], &vec![], &Some(d), &None);
    assert!(ctx.is_empty());
}

#[test]
fn tiny_budget_drops_episodic_but_keeps_codex() {
    let entries = vec![entry("Aragorn", CodexKind::Character, Some("Montaraz"), &[])];
    let hits = vec![vec![hit("other", "Cap 1", "Aragorn llegó a Bree.")]];
    let ctx = assemble_context(&request("Aragorn", None, 1), &entries, &hits, &None, &None);
    assert!(ctx.episodic_excerpts.is_empty());
    assert_eq!(ctx.codex_snippets.len(), 1);
}

#[test]
fn clean_excerpt_strips_marks_and_caps() {
    assert_eq!(clean_excerpt("  <mark>a</mark>b  "), "ab");
    let long = "x".repeat(301);
    let c = clean_excerpt(&long);
    assert_eq!(c.chars().count(), 301);
    assert!(c.ends_with('…'));
}

#[test]
fn render_lists_codex_and_passages() {
    let ctx = MemoryContext {
        project_synopsis: None,
        doc_synopsis: None,
        codex_snippets: vec!["A (note): b".into()],
        episodic_excerpts: vec!["«T» — e".into()],
    };
    assert_eq!(
        ctx.render(),
        "== Memoria del proyecto ==\n\nEntradas del codex relevantes:\n- A (note): b\n\nPasajes anteriores relevantes:\n- «T» — e\n"
    );
}
