use courses::error::{Error};
use courses::solutions::{last_heading_line, render_section_body};
// ── app fence rendering ────────────────────────────────────────────────

#[test]
fn app_renders_cb_app_div_with_verbatim_inner() {
    let body = ":::app\n<cb-cpu-burst></cb-cpu-burst>\n:::\n";
    let result = render_section_body("Sección", body).unwrap();
    assert!(result.html.contains("<div class=\"cb-app\">"));
    assert!(result.html.contains("<cb-cpu-burst></cb-cpu-burst>"));
    assert!(result.uses_apps);
}

#[test]
fn body_without_app_uses_apps_is_false() {
    let result = render_section_body("Sección", "Just plain text.\n").unwrap();
    assert!(!result.uses_apps);
}

#[test]
fn body_with_cb_app_div_sets_uses_apps_true() {
    let body = ":::app\n<cb-counter key=\"x\"></cb-counter>\n:::\n";
    let result = render_section_body("Sección", body).unwrap();
    assert!(result.uses_apps);
}

// ── render_section_body tests ─────────────────────────────────────────

#[test]
fn body_without_solutions_sets_flag_false_and_has_no_solucion_class() {
    let result = render_section_body("Sección", "Just **plain** text.\n").unwrap();
    assert!(!result.uses_solutions);
    assert!(!result.html.contains("class=\"solucion\""));
}

#[test]
fn body_with_solution_sets_flag_true_and_emits_button() {
    let body = "Intro\n::: solucion\n**negrita**\n:::\nOutro\n";
    let result = render_section_body("Sección", body).unwrap();
    assert!(result.uses_solutions);
    assert!(result.html.contains("Ver solución"));
    assert!(result.html.contains("aria-expanded=\"false\""));
    assert!(result.html.contains("hidden"));
}

#[test]
fn solution_inner_markdown_is_rendered() {
    let body = "::: solucion\n**negrita**\n:::\n";
    let result = render_section_body("Sección", body).unwrap();
    assert!(result.html.contains("<strong>negrita</strong>"));
}

#[test]
fn split_errors_propagate_from_render_section_body() {
    let body = "::: solucion\nno closing fence\n";
    assert!(matches!(
        render_section_body("Sección", body),
        Err(Error::UnclosedSolution)
    ));
}

#[test]
fn render_section_body_slide_omitted_from_guide_html() {
    let body = "Before.\n:::slide\n**Bold**\n:::\nAfter.\n";
    let result = render_section_body("Sección", body).unwrap();
    assert!(!result.html.contains("<strong>Bold</strong>"));
    assert!(result.html.contains("Before."));
    assert!(result.html.contains("After."));
    assert!(result.uses_slides);
    assert_eq!(result.slide_html.len(), 1);
    assert!(result.slide_html[0].html.contains("<strong>Bold</strong>"));
}

#[test]
fn render_section_body_light_slide_sets_light_true() {
    let body = ":::slide light\n**Bold**\n:::\n";
    let result = render_section_body("Sección", body).unwrap();
    assert_eq!(result.slide_html.len(), 1);
    assert!(result.slide_html[0].light);
    assert!(result.slide_html[0].html.contains("<strong>Bold</strong>"));
}

#[test]
fn inline_slide_renders_in_both_guide_and_slides() {
    let body = "Before.\n:::inline-slide\n**Bold**\n:::\nAfter.\n";
    let result = render_section_body("Sección", body).unwrap();
    assert!(result.uses_slides);
    assert_eq!(result.slide_html.len(), 1);
    assert!(result.slide_html[0].html.contains("<strong>Bold</strong>"));
    assert!(result.html.contains("<strong>Bold</strong>"));
    assert!(result.html.contains("Before."));
    assert!(result.html.contains("After."));
}

// ── skip fence rendering ──────────────────────────────────────────────

#[test]
fn skip_inside_inline_slide_renders_in_guide_but_not_slide() {
    let body = ":::inline-slide\nVisible.\n:::skip\n```yaml\nClave: valor\n```\n:::\n:::\n";
    let result = render_section_body("Sección", body).unwrap();
    assert!(result.html.contains("Visible."));
    assert!(result.html.contains("Clave"));
    assert!(result.slide_html[0].html.contains("Visible."));
    assert!(!result.slide_html[0].html.contains("Clave"));
}

#[test]
fn skip_at_top_level_renders_in_guide_only() {
    let body = ":::skip\nSolo guía.\n:::\n:::slide\nDiapositiva.\n:::\n";
    let result = render_section_body("Sección", body).unwrap();
    assert!(result.html.contains("Solo guía."));
    assert!(!result.slide_html[0].html.contains("Solo guía."));
}

#[test]
fn skip_inside_slide_renders_nothing() {
    let body = ":::slide\nVisible.\n:::skip\nOculto.\n:::\n:::\n";
    let result = render_section_body("Sección", body).unwrap();
    assert!(result.slide_html[0].html.contains("Visible."));
    assert!(!result.slide_html[0].html.contains("Oculto."));
    assert!(!result.html.contains("Oculto."));
}

#[test]
fn solution_inside_skip_still_sets_uses_solutions() {
    let body = ":::skip\n::: solucion\nRespuesta.\n:::\n:::\n";
    let result = render_section_body("Sección", body).unwrap();
    assert!(result.uses_solutions);
    assert!(result.html.contains("Respuesta."));
}

// ── add fence rendering ───────────────────────────────────────────────

#[test]
fn add_default_renders_in_guide_and_slide() {
    let body = ":::inline-slide\nVisible.\n:::add\nExtra.\n:::\n:::\n";
    let result = render_section_body("Sección", body).unwrap();
    assert!(result.html.contains("Extra."));
    assert!(result.slide_html[0].html.contains("Extra."));
}

#[test]
fn add_visibility_slide_renders_in_slide_only() {
    let body =
        ":::inline-slide\nVisible.\n:::add visibility=slide\nSolo diapositiva.\n:::\n:::\n";
    let result = render_section_body("Sección", body).unwrap();
    assert!(!result.html.contains("Solo diapositiva."));
    assert!(result.slide_html[0].html.contains("Solo diapositiva."));
}

#[test]
fn add_visibility_guide_renders_in_guide_only() {
    let body = ":::inline-slide\nVisible.\n:::add visibility=guide\nSolo guía.\n:::\n:::\n";
    let result = render_section_body("Sección", body).unwrap();
    assert!(result.html.contains("Solo guía."));
    assert!(!result.slide_html[0].html.contains("Solo guía."));
}

#[test]
fn add_inside_skip_overrides_skip_for_slide() {
    let body = ":::inline-slide\n:::skip\nOculto.\n:::add\nRescatado.\n:::\n:::\n:::\n";
    let result = render_section_body("Sección", body).unwrap();
    assert!(result.html.contains("Oculto."));
    assert!(result.html.contains("Rescatado."));
    assert!(!result.slide_html[0].html.contains("Oculto."));
    assert!(result.slide_html[0].html.contains("Rescatado."));
}

#[test]
fn add_visibility_slide_inside_skip_renders_in_slide_only() {
    let body = ":::inline-slide\n:::skip\nOculto.\n:::add visibility=slide\nRescatado.\n:::\n:::\n:::\n";
    let result = render_section_body("Sección", body).unwrap();
    assert!(!result.html.contains("Rescatado."));
    assert!(result.slide_html[0].html.contains("Rescatado."));
}

#[test]
fn add_visibility_guide_inside_skip_stays_out_of_slide() {
    let body = ":::inline-slide\n:::skip\n:::add visibility=guide\nSolo guía.\n:::\n:::\n:::\n";
    let result = render_section_body("Sección", body).unwrap();
    assert!(result.html.contains("Solo guía."));
    assert!(!result.slide_html[0].html.contains("Solo guía."));
}

#[test]
fn add_inside_nested_skip_still_escapes_to_slide() {
    let body = ":::inline-slide\n:::skip\n:::skip\n:::add\nProfundo.\n:::\n:::\n:::\n:::\n";
    let result = render_section_body("Sección", body).unwrap();
    assert!(result.html.contains("Profundo."));
    assert!(result.slide_html[0].html.contains("Profundo."));
}

#[test]
fn add_at_top_level_visibility_slide_renders_nowhere() {
    // Top-level content only reaches slides through slide directives, so
    // a slide-only :::add outside one has no slide to land in.
    let body = ":::add visibility=slide\nX.\n:::\n:::slide\nDiapositiva.\n:::\n";
    let result = render_section_body("Sección", body).unwrap();
    assert!(!result.html.contains("X."));
    assert!(!result.slide_html[0].html.contains("X."));
}

#[test]
fn solution_inside_add_sets_uses_solutions() {
    let body = ":::add\n::: solucion\nRespuesta.\n:::\n:::\n";
    let result = render_section_body("Sección", body).unwrap();
    assert!(result.uses_solutions);
    assert!(result.html.contains("Respuesta."));
}

// ── inline-slide with-title ───────────────────────────────────────────

#[test]
fn inline_slide_with_title_prepends_nearest_heading_to_slide_only() {
    let body = "## Funciones\n\nProsa.\n:::inline-slide with-title\n- **`!Ref`**\n:::\n";
    let result = render_section_body("Sección", body).unwrap();
    assert_eq!(result.slide_html.len(), 1);
    assert!(result.slide_html[0].html.contains("Funciones"));
    // Guide keeps the heading once (from the flowing Markdown, not the copy).
    assert_eq!(result.html.matches("Funciones").count(), 1);
}

#[test]
fn inline_slide_with_title_uses_nearest_of_several_headings() {
    let body = "## Primero\nA.\n### Segundo\nB.\n:::inline-slide with-title\nX.\n:::\n";
    let result = render_section_body("Sección", body).unwrap();
    assert!(result.slide_html[0].html.contains("Segundo"));
    assert!(!result.slide_html[0].html.contains("Primero"));
}

#[test]
fn inline_slide_with_title_ignores_headings_in_code_fences() {
    let body = "## Real\n\n```\n# comentario\n```\n:::inline-slide with-title\nX.\n:::\n";
    let result = render_section_body("Sección", body).unwrap();
    assert!(result.slide_html[0].html.contains("Real"));
    assert!(!result.slide_html[0].html.contains("comentario</h1>"));
}

#[test]
fn inline_slide_with_title_falls_back_to_section_title() {
    let body = "Prosa sin encabezado.\n:::inline-slide with-title\nX.\n:::\n";
    let result = render_section_body("Mi sección", body).unwrap();
    assert!(result.slide_html[0].html.contains("Mi sección"));
    assert!(!result.html.contains("Mi sección"));
}

#[test]
fn inline_slide_without_with_title_gets_no_heading() {
    let body = "## Funciones\nProsa.\n:::inline-slide\nX.\n:::\n";
    let result = render_section_body("Sección", body).unwrap();
    assert!(!result.slide_html[0].html.contains("Funciones"));
}

#[test]
fn inline_slide_with_title_light_keeps_light_variant() {
    let body = "## T\n:::inline-slide light with-title\nX.\n:::\n";
    let result = render_section_body("Sección", body).unwrap();
    assert!(result.slide_html[0].light);
    assert!(result.slide_html[0].html.contains("<h2 id=\"t\">"));
}

#[test]
fn last_heading_line_picks_last_and_skips_fences() {
    assert_eq!(
        last_heading_line("## A\ntext\n### B\n"),
        Some("### B".to_owned())
    );
    assert_eq!(last_heading_line("```\n# in fence\n```\n"), None);
    assert_eq!(last_heading_line("#not-a-heading\ntext\n"), None);
    assert_eq!(last_heading_line("plain text\n"), None);
}

#[test]
fn title_slide_renders_section_title_only() {
    let body = "Intro.\n:::title-slide\n:::\n";
    let result = render_section_body("El origen del código", body).unwrap();
    assert!(result.uses_slides);
    assert_eq!(result.slide_html.len(), 1);
    assert!(
        result.slide_html[0]
            .html
            .contains("class=\"cb-title-slide\">El origen del código</h1>")
    );
    assert!(!result.slide_html[0].light);
}

#[test]
fn title_slide_custom_text_overrides_section_title() {
    let body = ":::title-slide Semana 1\n:::\n";
    let result = render_section_body("Introducción", body).unwrap();
    assert!(
        result.slide_html[0]
            .html
            .contains("class=\"cb-title-slide\">Semana 1</h1>")
    );
}

#[test]
fn title_slide_escapes_section_title() {
    let body = ":::title-slide\n:::\n";
    let result = render_section_body("Semana <1> & más", body).unwrap();
    assert!(
        result.slide_html[0]
            .html
            .contains("Semana &lt;1&gt; &amp; más")
    );
}

#[test]
fn render_section_body_no_slides_has_empty_slide_html() {
    let result = render_section_body("Sección", "Plain text.\n").unwrap();
    assert!(!result.uses_slides);
    assert!(result.slide_html.is_empty());
}

// ── nested rendering (guide context) ──────────────────────────────────

#[test]
fn warning_inside_solution_renders_both() {
    let body = "::: solucion\nRespuesta.\n::: warning\nCuidado.\n:::\n:::\n";
    let result = render_section_body("Sección", body).unwrap();
    assert!(result.uses_solutions);
    assert!(result.html.contains("class=\"solucion\""));
    assert!(result.html.contains("<div class=\"cb-warning\">"));
    assert!(result.html.contains("Cuidado."));
}

#[test]
fn extra_inside_warning_renders_nested_details() {
    let body = "::: warning\nAviso.\n::: extra Más\nDetalle.\n:::\n:::\n";
    let result = render_section_body("Sección", body).unwrap();
    assert!(result.html.contains("<div class=\"cb-warning\">"));
    assert!(result.html.contains("<details class=\"cb-extra\">"));
    assert!(result.html.contains("<summary>Más</summary>"));
    assert!(result.html.contains("Detalle."));
}

#[test]
fn info_inside_solution_renders_both() {
    let body = "::: solucion\nRespuesta.\n::: info\nContexto.\n:::\n:::\n";
    let result = render_section_body("Sección", body).unwrap();
    assert!(result.uses_solutions);
    assert!(result.html.contains("class=\"solucion\""));
    assert!(result.html.contains("<div class=\"cb-info\">"));
    assert!(result.html.contains("Contexto."));
}

#[test]
fn deeply_nested_solution_inside_extra_inside_warning() {
    let body = "::: warning\nA.\n::: extra T\nB.\n::: solucion\nC.\n:::\n:::\n:::\n";
    let result = render_section_body("Sección", body).unwrap();
    assert!(result.uses_solutions);
    assert!(result.html.contains("Ver solución"));
    assert!(result.html.contains("C."));
}

#[test]
fn slide_nested_in_warning_errors() {
    let body = "::: warning\n:::slide\n:::\n:::\n";
    assert!(matches!(
        render_section_body("Sección", body),
        Err(Error::NestedSlide)
    ));
}

#[test]
fn slide_nested_in_solution_errors() {
    let body = "::: solucion\n:::slide\n:::\n:::\n";
    assert!(matches!(
        render_section_body("Sección", body),
        Err(Error::NestedSlide)
    ));
}

// ── warning / extra rendering ─────────────────────────────────────────

#[test]
fn warning_renders_admonition_div_with_inner_markdown() {
    let body = "::: warning\n**Atención**: [aviso](https://example.com).\n:::\n";
    let result = render_section_body("Sección", body).unwrap();
    assert!(result.html.contains("<div class=\"cb-warning\">"));
    assert!(result.html.contains("<strong>Atención</strong>"));
    assert!(result.html.contains("target=\"_blank\""));
}

#[test]
fn info_renders_admonition_div_with_inner_markdown() {
    let body = "::: info\n**Nota**: [más información](https://example.com).\n:::\n";
    let result = render_section_body("Sección", body).unwrap();
    assert!(result.html.contains("<div class=\"cb-info\">"));
    assert!(result.html.contains("<strong>Nota</strong>"));
    assert!(result.html.contains("target=\"_blank\""));
}

#[test]
fn extra_renders_closed_details_with_summary_title() {
    let body = "::: extra ¿Qué es un remoto?\nUn remoto es…\n:::\n";
    let result = render_section_body("Sección", body).unwrap();
    assert!(result.html.contains("<details class=\"cb-extra\">"));
    assert!(
        result
            .html
            .contains("<summary>¿Qué es un remoto?</summary>")
    );
    assert!(result.html.contains("Un remoto es…"));
    assert!(!result.html.contains("<details open"));
}

#[test]
fn extra_without_title_uses_fallback() {
    let body = "::: extra\nX.\n:::\n";
    let result = render_section_body("Sección", body).unwrap();
    assert!(
        result
            .html
            .contains("<summary>Contenido adicional</summary>")
    );
}

#[test]
fn extra_title_is_html_escaped() {
    let body = "::: extra Uso de <code> & otros\nX.\n:::\n";
    let result = render_section_body("Sección", body).unwrap();
    assert!(
        result
            .html
            .contains("<summary>Uso de &lt;code&gt; &amp; otros</summary>")
    );
}

#[test]
fn admonitions_and_extra_omitted_from_slides_and_do_not_set_flags() {
    let body = "::: warning\nW.\n:::\n::: info\nI.\n:::\n::: extra T\nE.\n:::\n";
    let result = render_section_body("Sección", body).unwrap();
    assert!(!result.uses_solutions);
    assert!(!result.uses_slides);
    assert!(result.slide_html.is_empty());
}

#[test]
fn app_block_inside_slide_sets_uses_apps_via_slide_html_detection() {
    // The :::app block here lives inside a :::slide fence, so it is
    // rendered into slide_html rather than the guide html.  The
    // `slide_html.iter().any(...)` branch in render_section_body must
    // detect the `<div class="cb-app">` in the slide fragment and set
    // uses_apps = true even though the guide html contains no app div.
    let body =
        ":::slide\n## Herramienta\n:::app\n<cb-counter key=\"x\"></cb-counter>\n:::\n:::\n";
    let result = render_section_body("Sección", body).unwrap();
    assert!(
        !result.html.contains("<div class=\"cb-app\">"),
        "app div must not appear in guide html when inside a slide fence"
    );
    assert!(
        result
            .slide_html
            .iter()
            .any(|s| s.html.contains("<div class=\"cb-app\">")),
        "slide fragment must contain the cb-app div"
    );
    assert!(
        result.uses_apps,
        "uses_apps must be true when cb-app appears only in slide_html"
    );
}

#[test]
fn slide_fragments_follow_the_slide_segments_in_order() {
    let body = "# T\n\n:::slide\nuno\n:::\n\ntexto\n\n:::slide light\ndos\n:::\n";
    let r = render_section_body("T", body).unwrap();
    assert_eq!(r.slide_html.len(), 2);
    assert!(!r.slide_html[0].light);
    assert!(r.slide_html[1].light);
    assert!(r.uses_slides);
    assert!(!r.html.contains("uno"));
    let plain = render_section_body("T", "texto\n").unwrap();
    assert!(plain.slide_html.is_empty());
    assert!(!plain.uses_slides);
}
