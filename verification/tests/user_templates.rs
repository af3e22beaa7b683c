use draffity_services::domain::{
    DocNode, DocumentStatus, DocumentType, Project, ProjectStatus, TemplateKind,
};
use draffity_services::storage::search::build_match_expr;
use draffity_services::user_templates::{find_template, sort_templates_by_name, template_from_project};

fn mk_project(title: &str) -> Project {
    Project {
        id: "p".into(),
        title: title.into(),
        template_id: "x".into(),
        status: ProjectStatus::Active,
        metadata: None,
        goal_words: None,
        deadline: None,
        created_at: 0,
        updated_at: 0,
    }
}

fn mk_doc(id: &str, parent: Option<&str>, title: &str, doc_type: DocumentType, position: i64) -> DocNode {
    DocNode {
        id: id.into(),
        project_id: "p".into(),
        parent_id: parent.map(String::from),
        title: title.into(),
        doc_type,
        content: Some("<p>contenido</p>".into()),
        content_json: None,
        synopsis: Some("S".into()),
        position,
        status: DocumentStatus::Draft,
        tags: vec![],
        label_ids: vec![],
        metadata: vec![],
        is_research: false,
        is_front_matter: false,
        is_back_matter: false,
        goal_words: None,
        created_at: 0,
        updated_at: 0,
    }
}

#[test]
fn template_from_project_drops_content_but_keeps_synopsis() {
    let p = mk_project("X");
    let docs = vec![mk_doc("a", None, "Ch 1", DocumentType::Chapter, 0)];
    let t = template_from_project(&p, &docs, "Plant", None, "es");
    assert_eq!(t.structure.len(), 1);
    assert_eq!(t.structure[0].synopsis.as_deref(), Some("S"));
}

#[test]
fn template_from_project_ignores_trashed_documents() {
    let p = mk_project("X");
    let mut trashed = mk_doc("a", None, "Ch 1", DocumentType::Chapter, 0);
    trashed.status = DocumentStatus::Trashed;
    let kept = mk_doc("b", None, "Ch 2", DocumentType::Chapter, 1);
    let t = template_from_project(&p, &[trashed, kept], "Plant", None, "es");
    assert_eq!(t.structure.len(), 1);
    assert_eq!(t.structure[0].title, "Ch 2");
}

#[test]
fn template_from_project_detects_manga_kind() {
    let p = mk_project("X");
    let docs = vec![mk_doc("a", None, "Page 1", DocumentType::MangaPage, 0)];
    let t = template_from_project(&p, &docs, "Plant", None, "es");
    assert_eq!(t.kind, TemplateKind::Manga);
}

#[test]
fn template_from_project_nests_children_by_position() {
    let p = mk_project("Mi novela");
    let docs = vec![
        mk_doc("a", None, "Acto 1", DocumentType::Folder, 0),
        mk_doc("c", Some("a"), "Cap 2", DocumentType::Chapter, 1),
        mk_doc("b", Some("a"), "Cap 1", DocumentType::Chapter, 0),
    ];
    let t = template_from_project(&p, &docs, "Mi plantilla", Some("d"), "es");
    assert_eq!(t.name, "Mi plantilla");
    assert_eq!(t.description.as_deref(), Some("d"));
    assert_eq!(t.locale, "es");
    assert_eq!(t.structure.len(), 1);
    assert_eq!(t.structure[0].children.len(), 2);
    assert_eq!(t.structure[0].children[0].title, "Cap 1");
    assert_eq!(t.structure[0].children[1].title, "Cap 2");
}

#[test]
fn build_match_expr_escapes_quotes() {
    assert_eq!(build_match_expr("hola"), "\"hola\"");
    assert_eq!(build_match_expr("he said \"hi\""), "\"he said \"\"hi\"\"\"");
}

#[test]
fn templates_sort_by_name_and_are_found_by_id() {
    let p = mk_project("Mi novela");
    let docs: Vec<DocNode> = Vec::new();
    let mut a = template_from_project(&p, &docs, "Zeta", None, "es");
    a.id = "z".into();
    let mut b = template_from_project(&p, &docs, "Alfa", None, "es");
    b.id = "a1".into();
    let mut c = template_from_project(&p, &docs, "Alfa", None, "es");
    c.id = "a2".into();
    let mut d = template_from_project(&p, &docs, "Beta", None, "es");
    d.id = "b".into();
    let sorted = sort_templates_by_name(vec![a, b, c, d]);
    let ids: Vec<&str> = sorted.iter().map(|t| t.id.as_str()).collect();
    assert_eq!(ids, vec!["a1", "a2", "b", "z"]);
    let found = find_template(sorted, "b").expect("present");
    assert_eq!(found.name, "Beta");
    let again = sort_templates_by_name(Vec::new());
    assert!(find_template(again, "b").is_none());
}
