use draffity_services::ai_validators::{
    codex_coverage, detect_repetitions, detect_style_anomalies, extract_json_array,
    findings_from_raw, plan_validation, summarize, CoverageReport, Finding, RawFinding, Severity,
    ValidationInput, ValidationStep, ValidatorKind,
};

#[test]
fn repetition_flags_overused_phrase() {
    let text = "—dijo ella con calma. —dijo ella mirando al mar. Más tarde —dijo ella otra vez.";
    let f = detect_repetitions(text);
    assert!(
        f.iter().any(|x| x.excerpt.as_deref() == Some("dijo ella")),
        "expected 'dijo ella' repetition, got {f:?}"
    );
}

#[test]
fn repetition_ignores_pure_stopword_grams() {
    let text = "de la de la de la de la de la";
    assert!(detect_repetitions(text).is_empty());
}

#[test]
fn style_flags_long_sentence_and_passive() {
    let long = "palabra ".repeat(45);
    let f = detect_style_anomalies(&long);
    assert!(f.iter().any(|x| x.title.contains("muy larga")));
    let passive = detect_style_anomalies("El puente fue construido por ingenieros.");
    assert!(passive.iter().any(|x| x.title.contains("pasiva")));
}

#[test]
fn coverage_not_sparse_when_well_described() {
    let text = "Aragorn miró a Boromir. Aragorn habló. Boromir asintió.";
    let cov = codex_coverage(text, &["Aragorn".to_string(), "Boromir".to_string()]);
    assert!(!cov.is_sparse());
}

fn finding(severity: Severity, t: &str) -> Finding {
    Finding {
        validator: "character".into(),
        severity,
        title: t.into(),
        detail: t.into(),
        excerpt: None,
        suggestion: None,
    }
}

#[test]
fn summarize_counts_by_severity() {
    let findings = vec![finding(Severity::Critical, "a"), finding(Severity::Warning, "b")];
    assert_eq!(summarize(&findings), "1 crítico · 1 advertencia");
    assert_eq!(summarize(&[]), "sin hallazgos");
}

#[test]
fn summarize_pluralizes_and_lists_info_last() {
    let findings = vec![
        finding(Severity::Info, "i"),
        finding(Severity::Warning, "w1"),
        finding(Severity::Warning, "w2"),
        finding(Severity::Critical, "c1"),
        finding(Severity::Critical, "c2"),
        finding(Severity::Info, "i2"),
    ];
    assert_eq!(summarize(&findings), "2 críticos · 2 advertencias · 2 info");
}

#[test]
fn repetition_reports_count_and_title() {
    let f = detect_repetitions("dijo ella. dijo ella. dijo ella.");
    assert_eq!(f.len(), 1);
    assert_eq!(f[0].title, "Frase repetida: «dijo ella»");
    assert_eq!(f[0].detail, "Aparece 3 veces. Considerá variar la redacción.");
    assert_eq!(f[0].validator, "repetition");
    assert_eq!(f[0].severity, Severity::Info);
}

#[test]
fn repetition_ranks_most_frequent_first() {
    let f = detect_repetitions("gato negro. gato negro. gato negro. perro azul. perro azul. perro azul. perro azul.");
    assert_eq!(f[0].excerpt.as_deref(), Some("perro azul"));
    assert_eq!(f[0].detail, "Aparece 4 veces. Considerá variar la redacción.");
}

#[test]
fn style_counts_adverbs() {
    let f = detect_style_anomalies("Rápidamente y lentamente caminó tranquilamente.");
    assert!(f.iter().any(|x| x.title == "Acumulación de adverbios (3)"));
}

#[test]
fn style_long_sentence_title_has_word_count() {
    let f = detect_style_anomalies(&"palabra ".repeat(45));
    assert_eq!(f[0].title, "Oración muy larga (45 palabras)");
}

#[test]
fn coverage_counts_recurring_capitalised_names() {
    let text = "Aragorn miró a Boromir. Aragorn habló. Boromir asintió. Legolas disparó. Legolas corrió.";
    let cov = codex_coverage(text, &["Aragorn".to_string()]);
    assert_eq!(cov, CoverageReport { candidates: 3, covered: 1 });
    assert!(cov.is_sparse());
}

#[test]
fn json_array_is_cut_from_prose() {
    assert_eq!(extract_json_array("hola [1, 2] chau").as_deref(), Some("[1, 2]"));
    assert_eq!(extract_json_array("sin json"), None);
    assert_eq!(extract_json_array("] al revés ["), None);
}

#[test]
fn raw_entries_become_findings() {
    let raws = vec![
        RawFinding { severity: Some("info".into()), ..Default::default() },
        RawFinding {
            severity: Some(" CRITICAL ".into()),
            title: Some("  ".into()),
            detail: Some(" x ".into()),
            excerpt: Some("  ".into()),
            suggestion: Some("arreglo".into()),
        },
    ];
    let f = findings_from_raw(ValidatorKind::Plot, &raws);
    assert_eq!(f.len(), 1);
    assert_eq!(f[0].validator, "plot");
    assert_eq!(f[0].severity, Severity::Critical);
    assert_eq!(f[0].title, "x");
    assert_eq!(f[0].detail, "x");
    assert_eq!(f[0].excerpt, None);
    assert_eq!(f[0].suggestion.as_deref(), Some("arreglo"));
}

#[test]
fn severity_labels() {
    assert_eq!(Severity::parse("Crítico"), Severity::Critical);
    assert_eq!(Severity::parse("info"), Severity::Info);
    assert_eq!(Severity::parse("grave"), Severity::Warning);
}

#[test]
fn validator_kind_names_round_trip() {
    for k in [
        ValidatorKind::Character,
        ValidatorKind::Voice,
        ValidatorKind::Repetition,
        ValidatorKind::Plot,
        ValidatorKind::Style,
    ] {
        assert_eq!(ValidatorKind::parse(k.as_str()).unwrap(), k);
    }
    assert!(ValidatorKind::parse("tone").is_err());
}

#[test]
fn plan_runs_local_validators_without_ai() {
    let input = ValidationInput { text: "dijo ella. dijo ella. dijo ella.".into(), ..Default::default() };
    match plan_validation(ValidatorKind::Repetition, &input, false) {
        ValidationStep::Done(f) => assert!(!f.is_empty()),
        other => panic!("unexpected {other:?}"),
    }
    match plan_validation(ValidatorKind::Character, &input, false) {
        ValidationStep::Refused(e) => assert!(e.message().contains("no están activas")),
        other => panic!("unexpected {other:?}"),
    }
    match plan_validation(ValidatorKind::Voice, &input, true) {
        ValidationStep::Ask(m) => {
            assert_eq!(m.len(), 2);
            assert!(m[0].content.contains("=== Referencia"));
            assert_eq!(m[1].content, input.text);
        }
        other => panic!("unexpected {other:?}"),
    }
}

#[test]
fn coverage_flags_sparse_codex() {
    let text = "Aragorn miró a Boromir. Aragorn habló. Boromir asintió. Legolas disparó. Legolas corrió.";
    // Codex only has Aragorn → Boromir/Legolas uncovered.
    let cov = codex_coverage(text, &["Aragorn".to_string()]);
    assert!(cov.candidates >= 3, "candidates: {}", cov.candidates);
    assert!(cov.covered >= 1);
    assert!(cov.is_sparse(), "covered {} of {}", cov.covered, cov.candidates);
}
