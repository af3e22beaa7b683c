use draffity_services::ai::Role;
use draffity_services::ai_prompts::{build_messages, parse_action, ActionInput, AiAction, RewriteMode};

#[test]
fn parses_all_actions_and_rewrite_modes() {
    assert_eq!(parse_action("continue", None, None).unwrap(), AiAction::Continue);
    assert_eq!(parse_action("expand", None, None).unwrap(), AiAction::Expand);
    assert_eq!(parse_action("describe", None, None).unwrap(), AiAction::Describe);
    assert_eq!(
        parse_action("rewrite", Some("vivid"), None).unwrap(),
        AiAction::Rewrite(RewriteMode::Vivid)
    );
    assert_eq!(
        parse_action("rewrite", None, None).unwrap(),
        AiAction::Rewrite(RewriteMode::Rephrase)
    );
}

#[test]
fn custom_rewrite_requires_instruction() {
    assert!(parse_action("rewrite", Some("custom"), None).is_err());
    assert!(parse_action("rewrite", Some("custom"), Some("  ")).is_err());
    assert_eq!(
        parse_action("rewrite", Some("custom"), Some("más oscuro")).unwrap(),
        AiAction::Rewrite(RewriteMode::Custom("más oscuro".into()))
    );
}

#[test]
fn unknown_action_and_submode_rejected() {
    assert!(parse_action("translate", None, None).is_err());
    assert!(parse_action("rewrite", Some("funkify"), None).is_err());
}

#[test]
fn continue_uses_preceding_text_as_user_message() {
    let msgs = build_messages(
        &AiAction::Continue,
        &ActionInput { selected_text: "", preceding_text: "Era una noche oscura.", memory_block: "" },
    )
    .unwrap();
    assert_eq!(msgs.len(), 2);
    assert_eq!(msgs[0].role, Role::System);
    assert!(msgs[0].content.contains("continuá la narración"));
    assert_eq!(msgs[1].role, Role::User);
    assert_eq!(msgs[1].content, "Era una noche oscura.");
}

#[test]
fn selection_actions_require_selected_text() {
    let empty = ActionInput { selected_text: "   ", preceding_text: "x", memory_block: "" };
    assert!(build_messages(&AiAction::Expand, &empty).is_err());
    assert!(build_messages(&AiAction::Describe, &empty).is_err());
    assert!(build_messages(&AiAction::Rewrite(RewriteMode::Shorter), &empty).is_err());
}

#[test]
fn memory_block_is_embedded_in_system_when_present() {
    let msgs = build_messages(
        &AiAction::Rewrite(RewriteMode::Vivid),
        &ActionInput {
            selected_text: "Caminó.",
            preceding_text: "",
            memory_block: "== Memoria del proyecto ==\nAragorn (character): montaraz.",
        },
    )
    .unwrap();
    assert!(msgs[0].content.contains("Contexto del proyecto"));
    assert!(msgs[0].content.contains("Aragorn"));
}

#[test]
fn no_memory_section_when_block_empty() {
    let msgs = build_messages(
        &AiAction::Expand,
        &ActionInput { selected_text: "Algo.", preceding_text: "", memory_block: "   " },
    )
    .unwrap();
    assert!(!msgs[0].content.contains("Contexto del proyecto"));
}

#[test]
fn refusal_messages_name_what_is_missing() {
    let e = parse_action("rewrite", Some("funkify"), None).unwrap_err();
    assert_eq!(e.message(), "invalid: sub-modo de rewrite desconocido: funkify");
    let e = build_messages(
        &AiAction::Continue,
        &ActionInput { selected_text: "x", preceding_text: " ", memory_block: "" },
    )
    .unwrap_err();
    assert_eq!(e.message(), "invalid: esta acción necesita texto previo al cursor");
}

#[test]
fn custom_instruction_is_trimmed_into_the_task() {
    let a = parse_action("rewrite", Some("custom"), Some("  más oscuro ")).unwrap();
    let msgs = build_messages(
        &a,
        &ActionInput { selected_text: " Texto. ", preceding_text: "", memory_block: "" },
    )
    .unwrap();
    assert!(msgs[0]
        .content
        .ends_with("Tarea: reescribí el fragmento siguiendo esta instrucción del usuario: más oscuro"));
    assert_eq!(msgs[1].content, "Texto.");
}
