use courses::goto_apps::{IdSet, collect_ids, expand_goto_apps, try_expand_goto_apps};
fn ids(values: &[&str]) -> IdSet {
    let mut set = IdSet::new();
    for v in values {
        set.insert((*v).to_owned());
    }
    set
}

#[test]
fn collect_ids_finds_heading_ids() {
    let mut found = IdSet::new();
    collect_ids(
        "<h2 id=\"practica-guiada\"><a href=\"#practica-guiada\">P</a></h2>\n\
         <h3 id=\"otra\">O</h3>",
        &mut found,
    );
    assert!(found.contains("practica-guiada"));
    assert!(found.contains("otra"));
    assert_eq!(found.len(), 2);
}

#[test]
fn resolves_heading_text_to_data_target() {
    let expanded = expand_goto_apps(
        "<cb-goto path=\"Práctica guiada: escalar\"></cb-goto>",
        &ids(&["practica-guiada-escalar"]),
    )
    .unwrap();
    assert_eq!(
        expanded,
        "<cb-goto path=\"Práctica guiada: escalar\" \
         data-target=\"practica-guiada-escalar\"></cb-goto>"
    );
}

#[test]
fn accepts_a_raw_anchor_path() {
    let expanded = expand_goto_apps(
        "<cb-goto path=\"#mi-ancla\"></cb-goto>",
        &ids(&["mi-ancla"]),
    )
    .unwrap();
    assert!(expanded.contains("data-target=\"mi-ancla\""));
}

#[test]
fn preserves_a_label_attribute() {
    let expanded = expand_goto_apps(
        "<cb-goto path=\"Cierre\" label=\"Seguir en la guía\"></cb-goto>",
        &ids(&["cierre"]),
    )
    .unwrap();
    assert!(expanded.contains("label=\"Seguir en la guía\""));
}

#[test]
fn unknown_target_is_an_error() {
    let err = expand_goto_apps("<cb-goto path=\"No existe\"></cb-goto>", &ids(&["otra"]))
        .unwrap_err();
    assert_eq!(
        err.message(),
        "cb-goto references an unknown heading: No existe"
    );
}

#[test]
fn missing_path_is_an_error() {
    let err = expand_goto_apps("<cb-goto></cb-goto>", &ids(&[])).unwrap_err();
    assert!(err.message().contains("missing a quoted path attribute"));
}

#[test]
fn non_empty_body_is_an_error() {
    let err = expand_goto_apps(
        "<cb-goto path=\"Cierre\">texto</cb-goto>",
        &ids(&["cierre"]),
    )
    .unwrap_err();
    assert!(err.message().contains("must be empty"));
}

#[test]
fn html_without_tags_passes_through() {
    let html = "<p>sin botones</p>";
    assert_eq!(expand_goto_apps(html, &ids(&[])).unwrap(), html);
}

#[test]
fn self_closing_tag_is_expanded() {
    let expanded = expand_goto_apps("<p><cb-goto path=\"#fin\" /></p>", &ids(&["fin"])).unwrap();
    assert_eq!(
        expanded,
        "<p><cb-goto path=\"#fin\" data-target=\"fin\"></cb-goto></p>"
    );
}

#[test]
fn attribute_without_key_is_reported_as_endless() {
    assert!(try_expand_goto_apps("<cb-goto !path=\"x\"></cb-goto>", &ids(&["x"])).is_none());
}

#[test]
fn unterminated_tag_is_an_error() {
    let err = expand_goto_apps("<cb-goto path=\"x\"", &ids(&["x"])).unwrap_err();
    assert_eq!(err.message(), "malformed cb-goto: unterminated tag");
}

#[test]
fn id_set_ignores_repeated_ids() {
    let set = ids(&["a", "b", "a"]);
    assert_eq!(set.len(), 2);
    assert!(set.contains("b"));
    assert!(!set.contains("c"));
}
