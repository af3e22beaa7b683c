use draffity_services::domain::{CodexEntry, CodexKind};
use draffity_services::storage::codex::{apply_codex_update, codex_like_pattern, CodexUpdate};

fn aragorn() -> CodexEntry {
    CodexEntry {
        id: "c1".into(),
        project_id: "p".into(),
        kind: CodexKind::Character,
        name: "Aragorn".into(),
        body: Some("Ranger of the North.".into()),
        tags: vec!["protagonista".into(), "ranger".into()],
        created_at: 10,
        updated_at: 10,
    }
}

#[test]
fn update_keeps_fields_not_given() {
    let updated = apply_codex_update(
        aragorn(),
        CodexUpdate { name: Some("  Strider ".into()), ..CodexUpdate::default() },
        99,
    );
    assert_eq!(updated.name, "Strider");
    assert_eq!(updated.body.as_deref(), Some("Ranger of the North."));
    assert_eq!(updated.tags, vec!["protagonista", "ranger"]);
    assert_eq!(updated.kind, CodexKind::Character);
    assert_eq!(updated.created_at, 10);
    assert_eq!(updated.updated_at, 99);
}

#[test]
fn blank_body_clears_and_blank_name_is_ignored() {
    let updated = apply_codex_update(
        aragorn(),
        CodexUpdate {
            name: Some("   ".into()),
            body: Some("   ".into()),
            kind: Some(CodexKind::Place),
            tags: Some(vec![]),
        },
        5,
    );
    assert_eq!(updated.name, "Aragorn");
    assert_eq!(updated.body, None);
    assert_eq!(updated.kind, CodexKind::Place);
    assert!(updated.tags.is_empty());
}

#[test]
fn like_patterns_escape_wildcards() {
    assert_eq!(codex_like_pattern("   "), "%");
    assert_eq!(codex_like_pattern(" ring "), "%ring%");
    assert_eq!(codex_like_pattern("50%_off"), "%50\\%\\_off%");
}
