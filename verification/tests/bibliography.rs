use draffity_services::bibliography::{clean_value, BibliographyService, LocalBibliographyService};

#[test]
fn parses_simple_article() {
    let bib = r#"
        @article{borges1944,
          author = {Borges, Jorge Luis},
          title  = {Ficciones},
          year   = {1944},
        }
    "#;
    let s = LocalBibliographyService;
    let summary = s.parse(bib).unwrap();
    assert_eq!(summary.entries.len(), 1);
    assert_eq!(summary.skipped_entries, 0);
    let e = &summary.entries[0];
    assert_eq!(e.key, "borges1944");
    assert_eq!(e.entry_type, "article");
    assert_eq!(e.fields.get("author").unwrap(), "Borges, Jorge Luis");
    assert_eq!(e.fields.get("title").unwrap(), "Ficciones");
    assert_eq!(e.fields.get("year").unwrap(), "1944");
}

#[test]
fn parses_multiple_entries_with_different_types() {
    let bib = r#"
        @book{a, author={A}, title={X}, year={2000}}
        @inproceedings{b, author={B}, title={Y}, year={2010}, booktitle={Conf}}
    "#;
    let s = LocalBibliographyService;
    let summary = s.parse(bib).unwrap();
    assert_eq!(summary.entries.len(), 2);
    let types: Vec<&str> = summary.entries.iter().map(|e| e.entry_type.as_str()).collect();
    assert!(types.contains(&"book"));
    assert!(types.contains(&"inproceedings"));
}

#[test]
fn rejects_non_bibtex_input() {
    let s = LocalBibliographyService;
    let summary = s.parse("this is not BibTeX at all").unwrap_or_default();
    assert!(summary.entries.is_empty());
}

#[test]
fn clean_value_strips_outer_braces_and_quotes() {
    assert_eq!(clean_value("{Hello}"), "Hello");
    assert_eq!(clean_value("\"Hello\""), "Hello");
    assert_eq!(clean_value("{{Hello}}"), "Hello");
}

#[test]
fn clean_value_collapses_whitespace() {
    assert_eq!(clean_value("Hola   mundo\n  cruel"), "Hola mundo cruel");
}

#[test]
fn clean_value_unescapes_braces_and_keeps_inner_quotes_once() {
    assert_eq!(clean_value("  {\"a \\{b\\}\"}  "), "a {b}");
    assert_eq!(clean_value("{a} and {b}"), "a} and {b");
    assert_eq!(clean_value("\t\n"), "");
}

#[test]
fn fields_are_listed_in_name_order() {
    let bib = "@misc{k, zeta={1}, alpha={2}, Mid={3}}";
    let summary = LocalBibliographyService.parse(bib).unwrap();
    let names: Vec<&str> = summary.entries[0].fields.entries().iter().map(|(n, _)| n.as_str()).collect();
    assert_eq!(names, vec!["alpha", "mid", "zeta"]);
    assert_eq!(summary.entries[0].fields.len(), 3);
}
