use courses::error::{Error};
use courses::slides::{Anchor};
use courses::solutions::{render_section_body};
#[test]
fn anchor_marker_stripped_block_stays_in_guide() {
    let body = "Intro.\n\n{#tabla}\n| A | B |\n| --- | --- |\n| 1 | 2 |\n\nOutro.\n";
    let result = render_section_body("Sección", body).unwrap();
    assert!(!result.html.contains("{#tabla}"));
    assert!(result.html.contains("<table>"));
}

#[test]
fn slide_ref_inserts_anchored_block() {
    let body =
        "{#tabla}\n| A | B |\n| --- | --- |\n| 1 | 2 |\n\n:::slide\n## T\n\n{{tabla}}\n:::\n";
    let result = render_section_body("Sección", body).unwrap();
    assert_eq!(result.slide_html.len(), 1);
    assert!(result.slide_html[0].html.contains("<table>"));
    assert!(!result.slide_html[0].html.contains("{{tabla}}"));
}

#[test]
fn slide_ref_works_when_slide_precedes_anchor() {
    let body = ":::slide\n{{nota}}\n:::\n\n{#nota}\n**Importante.**\n";
    let result = render_section_body("Sección", body).unwrap();
    assert!(
        result.slide_html[0]
            .html
            .contains("<strong>Importante.</strong>")
    );
}

#[test]
fn anchored_code_fence_captured_whole_including_blank_lines() {
    let body = "{#code}\n```\nline 1\n\nline 2\n```\n\n:::slide\n{{code}}\n:::\n";
    let result = render_section_body("Sección", body).unwrap();
    assert!(result.slide_html[0].html.contains("line 1"));
    assert!(result.slide_html[0].html.contains("line 2"));
    assert!(result.html.contains("line 2"));
}

#[test]
fn unknown_slide_ref_errors() {
    let body = ":::slide\n{{no-existe}}\n:::\n";
    assert!(matches!(
        render_section_body("Sección", body),
        Err(Error::UnknownSlideRef(ref n)) if n == "no-existe"
    ));
}

#[test]
fn duplicate_anchor_errors() {
    let body = "{#x}\nuno\n\n{#x}\ndos\n";
    assert!(matches!(
        render_section_body("Sección", body),
        Err(Error::DuplicateAnchor(ref n)) if n == "x"
    ));
}

#[test]
fn anchor_without_block_errors() {
    let body = "{#vacio}\n\nTexto.\n";
    assert!(matches!(
        render_section_body("Sección", body),
        Err(Error::EmptyAnchor(ref n)) if n == "vacio"
    ));
}

#[test]
fn invalid_anchor_name_is_plain_markdown() {
    let body = "{#con espacio}\nTexto.\n";
    let result = render_section_body("Sección", body).unwrap();
    assert!(result.html.contains("{#con espacio}"));
}

#[test]
fn non_ref_braces_in_slide_left_alone() {
    let body = ":::slide\n{{con espacio}}\n:::\n";
    let result = render_section_body("Sección", body).unwrap();
    assert!(result.slide_html[0].html.contains("{{con espacio}}"));
}

#[test]
fn heading_anchor_captures_subsection_until_next_heading() {
    let body = "{#ej-1}\n### Ejercicio 1\n\nEnunciado uno.\n\nMás texto.\n\n### Otra sección\n\nFuera.\n\n:::slide\n{{ej-1}}\n:::\n";
    let result = render_section_body("Sección", body).unwrap();
    let slide = &result.slide_html[0].html;
    assert!(slide.contains("Ejercicio 1"));
    assert!(slide.contains("Enunciado uno."));
    assert!(slide.contains("Más texto."));
    assert!(!slide.contains("Otra sección"));
    assert!(!slide.contains("Fuera."));
}

#[test]
fn heading_anchor_stops_at_thematic_break() {
    let body =
        "{#ej}\n### Ejercicio\n\nEnunciado.\n\n---\n\nDespués.\n\n:::slide\n{{ej}}\n:::\n";
    let result = render_section_body("Sección", body).unwrap();
    assert!(result.slide_html[0].html.contains("Enunciado."));
    assert!(!result.slide_html[0].html.contains("Después."));
}

#[test]
fn exercise_anchor_renders_hero_card_with_solution_toggle() {
    let body = "{#ej}\n### Ejercicio 1 — Cree su repositorio\n\nEnunciado.\n\n::: solucion\nRespuesta secreta.\n:::\n\n:::slide\n{{ej}}\n:::\n";
    let result = render_section_body("Sección", body).unwrap();
    let slide = &result.slide_html[0].html;
    assert!(slide.contains("class=\"cb-ejercicio\""));
    assert!(slide.contains("class=\"cb-ejercicio-kicker\">Ejercicio 1</p>"));
    assert!(slide.contains("<h3>Cree su repositorio</h3>"));
    assert!(slide.contains("Enunciado."));
    assert!(slide.contains("Ver solución"));
    assert!(slide.contains("Respuesta secreta."));
    assert!(slide.contains("hidden"));
    // guide still renders its own toggle
    assert!(result.html.contains("Respuesta secreta."));
}

#[test]
fn exercise_heading_without_dash_has_no_kicker() {
    let body = "{#ej}\n### Reto final\n\nEnunciado.\n\n::: solucion\nR.\n:::\n\n:::slide\n{{ej}}\n:::\n";
    let result = render_section_body("Sección", body).unwrap();
    let slide = &result.slide_html[0].html;
    assert!(!slide.contains("cb-ejercicio-kicker"));
    assert!(slide.contains("<h3>Reto final</h3>"));
}

#[test]
fn heading_anchor_not_followed_by_solution_stays_plain_block() {
    let body = "{#sec}\n### Sección\n\nTexto.\n\n### Otra\n\nX.\n\n:::slide\n{{sec}}\n:::\n";
    let result = render_section_body("Sección", body).unwrap();
    let slide = &result.slide_html[0].html;
    assert!(!slide.contains("cb-ejercicio"));
    assert!(slide.contains("Texto."));
}

#[test]
fn warning_between_anchor_and_solution_prevents_exercise_pairing() {
    // Warning hits `other =>`, resetting tail_anchor — no Anchor::Exercise.
    let body = "{#ej}\n### Ej\n\nX.\n\n::: warning\nW.\n:::\n::: solucion\nR.\n:::\n\n:::slide\n{{ej}}\n:::\n";
    let result = render_section_body("Sección", body).unwrap();
    assert!(!result.slide_html[0].html.contains("cb-ejercicio"));
    assert!(result.html.contains("R."));
}
