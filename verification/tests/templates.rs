use draffity_services::domain::{
    DocumentType, FieldType, MetadataField, Template, TemplateKind, TemplateNode, TemplateTier,
};
use draffity_services::error::AppError;
use draffity_services::templates::{
    copy_template, merged_catalogue, BuiltInTemplates, LayeredTemplatesService, TemplatesService,
};

fn tpl(id: &str, name: &str, kind: TemplateKind) -> Template {
    Template {
        schema_version: 1,
        id: id.into(),
        name: name.into(),
        description: None,
        kind,
        locale: "es".into(),
        tier: TemplateTier::Free,
        structure: vec![TemplateNode {
            title: "Acto I".into(),
            doc_type: DocumentType::Folder,
            synopsis: None,
            children: vec![TemplateNode {
                title: "Capítulo 1".into(),
                doc_type: DocumentType::Chapter,
                synopsis: Some("Inicio".into()),
                children: vec![],
            }],
        }],
        metadata_fields: vec![MetadataField {
            key: "author".into(),
            label: "Author".into(),
            field_type: FieldType::String,
            required: false,
            default: None,
        }],
    }
}

fn builtins() -> BuiltInTemplates {
    BuiltInTemplates::from_entries(vec![
        ("novela-tres-actos".into(), tpl("novela-tres-actos", "Novela en tres actos", TemplateKind::Novel)),
        ("generic".into(), tpl("generic", "Genérica", TemplateKind::Generic)),
        ("paper-imrad".into(), tpl("paper-imrad", "Artículo IMRaD", TemplateKind::Paper)),
        ("manga-shonen".into(), tpl("manga-shonen", "Manga shōnen", TemplateKind::Manga)),
    ])
    .unwrap()
}

struct UserStub {
    templates: Vec<Template>,
}

impl TemplatesService for UserStub {
    fn list(&self) -> Vec<Template> {
        self.templates.iter().map(copy_template).collect()
    }
    fn get(&self, id: &str) -> Option<Template> {
        self.templates.iter().find(|t| t.id == id).map(copy_template)
    }
}

#[test]
fn loads_all_builtin_templates() {
    let s = builtins();
    let ids: Vec<String> = s.list().into_iter().map(|t| t.id).collect();
    assert!(ids.contains(&"generic".into()));
    assert!(ids.contains(&"novela-tres-actos".into()));
    assert!(ids.contains(&"paper-imrad".into()));
    assert!(ids.contains(&"manga-shonen".into()));
}

#[test]
fn list_is_sorted_by_name() {
    let s = builtins();
    let names: Vec<String> = s.list().into_iter().map(|t| t.name).collect();
    let mut sorted = names.clone();
    sorted.sort();
    assert_eq!(names, sorted);
}

#[test]
fn get_returns_some_for_known_id() {
    let s = builtins();
    let t = s.get("novela-tres-actos").unwrap();
    assert_eq!(t.kind, TemplateKind::Novel);
    assert!(!t.structure.is_empty());
    assert_eq!(t.structure[0].children[0].synopsis.as_deref(), Some("Inicio"));
}

#[test]
fn get_returns_none_for_unknown_id() {
    let s = builtins();
    assert!(s.get("save-the-cat").is_none());
}

#[test]
fn mismatched_file_id_is_refused() {
    let err = BuiltInTemplates::from_entries(vec![
        ("generic".into(), tpl("generic", "G", TemplateKind::Generic)),
        ("paper".into(), tpl("paper-imrad", "P", TemplateKind::Paper)),
        ("x".into(), tpl("y", "Y", TemplateKind::Paper)),
    ])
    .err()
    .unwrap();
    assert_eq!(
        err,
        AppError::Invariant("template file expected id 'paper', got 'paper-imrad'".into())
    );
}

#[test]
fn a_later_file_with_the_same_id_wins() {
    let s = BuiltInTemplates::from_entries(vec![
        ("generic".into(), tpl("generic", "Vieja", TemplateKind::Generic)),
        ("generic".into(), tpl("generic", "Nueva", TemplateKind::Novel)),
    ])
    .unwrap();
    let all = s.list();
    assert_eq!(all.len(), 1);
    assert_eq!(all[0].name, "Nueva");
    assert_eq!(all[0].kind, TemplateKind::Novel);
}

#[test]
fn layered_catalogue_merges_and_prefers_user_templates() {
    let user = UserStub {
        templates: vec![
            tpl("user-1", "Bitácora", TemplateKind::Generic),
            tpl("generic", "Mi genérica", TemplateKind::Screenplay),
        ],
    };
    let layered = LayeredTemplatesService::new(builtins(), user);
    let names: Vec<String> = layered.list().into_iter().map(|t| t.name).collect();
    assert_eq!(names.len(), 6);
    let mut sorted = names.clone();
    sorted.sort();
    assert_eq!(names, sorted);
    assert_eq!(layered.get("generic").unwrap().name, "Mi genérica");
    assert_eq!(layered.get("paper-imrad").unwrap().kind, TemplateKind::Paper);
    assert!(layered.get("nope").is_none());
    assert_eq!(layered.user_loader().templates.len(), 2);
}

#[test]
fn merging_keeps_equal_names_in_order() {
    let merged = merged_catalogue(
        vec![tpl("a", "Igual", TemplateKind::Novel)],
        vec![tpl("b", "Igual", TemplateKind::Paper), tpl("c", "Antes", TemplateKind::Manga)],
    );
    let ids: Vec<&str> = merged.iter().map(|t| t.id.as_str()).collect();
    assert_eq!(ids, vec!["c", "a", "b"]);
}

#[test]
fn every_builtin_template_has_at_least_one_metadata_field() {
    let s = builtins();
    for t in s.list() {
        assert!(!t.metadata_fields.is_empty(), "template '{}' has no metadataFields", t.id);
    }
}
