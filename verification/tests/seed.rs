use draffity_services::domain::{DocumentType, TemplateNode};
use draffity_services::importer::ImportNode;
use draffity_services::storage::seed::{import_seed_rows, template_seed_rows};
use draffity_services::storage::tags::distinct_trimmed;

fn slot(title: &str, doc_type: DocumentType, synopsis: Option<&str>, children: Vec<TemplateNode>) -> TemplateNode {
    TemplateNode { title: title.into(), doc_type, synopsis: synopsis.map(String::from), children }
}

fn node(title: &str, html: &str, children: Vec<ImportNode>) -> ImportNode {
    ImportNode { title: title.into(), content_html: html.into(), children }
}

#[test]
fn template_rows_are_depth_first_with_parents_and_positions() {
    let structure = vec![
        slot(
            " Acto I ",
            DocumentType::Folder,
            None,
            vec![
                slot("Capítulo 1", DocumentType::Chapter, Some("El <héroe> & su \"sombra\""), vec![]),
                slot("Capítulo 2", DocumentType::Chapter, Some("   "), vec![]),
            ],
        ),
        slot("Acto II", DocumentType::Folder, None, vec![]),
    ];
    let rows = template_seed_rows(None, &structure);
    assert_eq!(rows.len(), 4);
    assert_eq!(rows[0].title, "Acto I");
    assert_eq!(rows[0].parent_id, None);
    assert_eq!(rows[0].position, 0);
    assert_eq!(rows[1].title, "Capítulo 1");
    assert_eq!(rows[1].parent_id.as_deref(), Some(rows[0].id.as_str()));
    assert_eq!(rows[1].position, 0);
    assert_eq!(
        rows[1].content.as_deref(),
        Some("<p>El &lt;héroe&gt; &amp; su &quot;sombra&quot;</p>")
    );
    assert_eq!(rows[2].content, None);
    assert_eq!(rows[2].position, 1);
    assert_eq!(rows[2].parent_id.as_deref(), Some(rows[0].id.as_str()));
    assert_eq!(rows[3].title, "Acto II");
    assert_eq!(rows[3].parent_id, None);
    assert_eq!(rows[3].position, 1);
    assert_eq!(rows[3].doc_type, DocumentType::Folder);
    assert_ne!(rows[0].id, rows[3].id);
}

#[test]
fn seeding_under_an_existing_parent() {
    let structure = vec![slot("Escena", DocumentType::Scene, Some("S"), vec![])];
    let rows = template_seed_rows(Some("parent-1".into()), &structure);
    assert_eq!(rows.len(), 1);
    assert_eq!(rows[0].parent_id.as_deref(), Some("parent-1"));
    assert_eq!(rows[0].content.as_deref(), Some("<p>S</p>"));
    assert!(template_seed_rows(None, &Vec::new()).is_empty());
}

#[test]
fn imported_leaves_are_chapters_and_inner_nodes_folders() {
    let tree = vec![
        node("Parte", "<p>ignored</p>", vec![node(" Uno ", "<p>uno</p>", vec![]), node("Dos", "", vec![])]),
        node("Epílogo", "<p>fin</p>", vec![]),
    ];
    let rows = import_seed_rows(None, &tree);
    assert_eq!(rows.len(), 4);
    assert_eq!(rows[0].doc_type, DocumentType::Folder);
    assert_eq!(rows[0].content, None);
    assert_eq!(rows[1].doc_type, DocumentType::Chapter);
    assert_eq!(rows[1].title, "Uno");
    assert_eq!(rows[1].content.as_deref(), Some("<p>uno</p>"));
    assert_eq!(rows[1].parent_id.as_deref(), Some(rows[0].id.as_str()));
    assert_eq!(rows[2].content, None);
    assert_eq!(rows[2].position, 1);
    assert_eq!(rows[3].position, 1);
    assert_eq!(rows[3].parent_id, None);
    assert_eq!(rows[3].content.as_deref(), Some("<p>fin</p>"));
}

#[test]
fn tag_sets_are_trimmed_deduped_and_ordered() {
    let raw: Vec<String> = vec!["  a ", "b", "", "a", "  ", "B", "b "].into_iter().map(String::from).collect();
    assert_eq!(distinct_trimmed(&raw), vec!["a".to_string(), "b".to_string(), "B".to_string()]);
    assert!(distinct_trimmed(&[]).is_empty());
}
