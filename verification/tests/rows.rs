use draffity_services::domain::{DocumentStatus, DocumentType};
use draffity_services::storage::rows::{
    doc_type_from_name, document_from_fields, json_list_from_column, json_pairs_from_column,
    status_from_name,
};

#[test]
fn type_and_status_names_map_with_fallbacks() {
    assert_eq!(doc_type_from_name("chapter"), DocumentType::Chapter);
    assert_eq!(doc_type_from_name("scene"), DocumentType::Scene);
    assert_eq!(doc_type_from_name("folder"), DocumentType::Folder);
    assert_eq!(doc_type_from_name("manga_page"), DocumentType::MangaPage);
    assert_eq!(doc_type_from_name("poem"), DocumentType::Note);
    assert_eq!(status_from_name(Some("revised")), DocumentStatus::Revised);
    assert_eq!(status_from_name(Some("final")), DocumentStatus::Final);
    assert_eq!(status_from_name(Some("trashed")), DocumentStatus::Trashed);
    assert_eq!(status_from_name(Some("weird")), DocumentStatus::Draft);
    assert_eq!(status_from_name(None), DocumentStatus::Draft);
}

#[test]
fn json_columns_become_lists() {
    assert_eq!(json_list_from_column(Some("[\"a\",\"b c\"]")), vec!["a".to_string(), "b c".to_string()]);
    assert!(json_list_from_column(Some("[]")).is_empty());
    assert!(json_list_from_column(Some("not json")).is_empty());
    assert!(json_list_from_column(Some("[1,2]")).is_empty());
    assert!(json_list_from_column(None).is_empty());
    assert!(json_pairs_from_column(Some("[]")).is_empty());
    assert!(json_pairs_from_column(Some("{\"k\":1}")).is_empty());
    assert_eq!(json_pairs_from_column(Some("{}")), vec![]);
}

#[test]
fn a_row_makes_a_document() {
    let d = document_from_fields(
        "d1".into(),
        "p1".into(),
        Some("parent".into()),
        "Capítulo".into(),
        "chapter",
        Some("<p>x</p>".into()),
        None,
        Some("syn".into()),
        3,
        None,
        Some("[\"tag\"]"),
        Some("[\"l1\",\"l2\"]"),
        Some("{\"f2\":\"b\",\"f1\":\"a\"}"),
        true,
        false,
        false,
        Some(500),
        10,
        20,
    );
    assert_eq!(d.doc_type, DocumentType::Chapter);
    assert_eq!(d.status, DocumentStatus::Draft);
    assert_eq!(d.tags, vec!["tag".to_string()]);
    assert_eq!(d.label_ids, vec!["l1".to_string(), "l2".to_string()]);
    assert_eq!(d.metadata, vec![("f1".to_string(), "a".to_string()), ("f2".to_string(), "b".to_string())]);
    assert_eq!(d.parent_id.as_deref(), Some("parent"));
    assert_eq!(d.position, 3);
    assert!(d.is_research);
    assert_eq!(d.goal_words, Some(500));
    assert_eq!((d.created_at, d.updated_at), (10, 20));
}

#[test]
fn a_create_request_makes_a_draft() {
    let d = draffity_services::storage::rows::new_document(
        "n1".into(),
        "p1".into(),
        None,
        "  Nuevo capítulo ",
        DocumentType::Chapter,
        Some("<p>hola</p>".into()),
        4,
        77,
    );
    assert_eq!(d.title, "Nuevo capítulo");
    assert_eq!(d.status, DocumentStatus::Draft);
    assert_eq!(d.position, 4);
    assert!(d.tags.is_empty() && d.label_ids.is_empty());
    assert_eq!((d.created_at, d.updated_at), (77, 77));
}
