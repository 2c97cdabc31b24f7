use courses::markdown::{Segment, match_token, render_markdown, slugify, split_tokens};
#[test]
fn paragraph_renders_as_p_element() {
    let html = render_markdown("Hello world.\n");
    assert!(html.contains("<p>Hello world.</p>"));
}

#[test]
fn heading_renders_as_h2() {
    let html = render_markdown("## Título\n");
    assert!(html.contains("<h2"));
    assert!(html.contains("Título"));
}

#[test]
fn fenced_code_block_renders_pre_code() {
    let html = render_markdown("```rust\nfn main() {}\n```\n");
    assert!(html.contains("<pre>"));
    assert!(html.contains("<code"));
}

#[test]
fn mermaid_fence_renders_pre_mermaid() {
    let html = render_markdown("```mermaid\nflowchart LR\n  A --> B\n```\n");
    assert!(html.contains("<pre class=\"mermaid\">"));
    // The arrow is HTML-escaped inside the <pre>, not rendered as a code block.
    assert!(html.contains("A --&gt; B"));
    assert!(!html.contains("<code"));
}

#[test]
fn non_mermaid_fence_still_renders_code_block() {
    let html = render_markdown("```yaml\nkey: value\n```\n");
    assert!(html.contains("<pre>"));
    assert!(html.contains("<code"));
    assert!(!html.contains("class=\"mermaid\""));
}

#[test]
fn table_renders_table_element() {
    let html = render_markdown("| A | B |\n|---|---|\n| 1 | 2 |\n");
    assert!(html.contains("<table>"));
}

#[test]
fn raw_inline_html_passes_through() {
    let html = render_markdown("<span class=\"x\">text</span>\n");
    assert!(html.contains("<span class=\"x\">text</span>"));
}

#[test]
fn empty_input_renders_empty() {
    assert_eq!(render_markdown(""), "");
}

// ── heading anchors ──────────────────────────────────────────────────

#[test]
fn heading_gets_slug_id_and_self_link() {
    let html = render_markdown("### Crear el repositorio\n");
    assert!(html.contains(
        "<h3 id=\"crear-el-repositorio\">\
         <a class=\"cb-hlink\" href=\"#crear-el-repositorio\">Crear el repositorio</a></h3>"
    ));
}

#[test]
fn heading_slug_strips_accents_and_punctuation() {
    let html = render_markdown("## Práctica guiada: crear el repositorio\n");
    assert!(html.contains("id=\"practica-guiada-crear-el-repositorio\""));
}

#[test]
fn heading_with_inline_code_keeps_markup_inside_link() {
    let html = render_markdown("### La rama `desarrollo`\n");
    assert!(html.contains("id=\"la-rama-desarrollo\""));
    assert!(html.contains("<code>desarrollo</code></a>"));
}

#[test]
fn duplicate_headings_get_numbered_slugs() {
    let html = render_markdown("## Pasos\n\ntexto\n\n## Pasos\n");
    assert!(html.contains("id=\"pasos\""));
    assert!(html.contains("id=\"pasos-2\""));
}

#[test]
fn slugify_handles_spanish_characters() {
    assert_eq!(slugify("Configuración añadida"), "configuracion-anadida");
}

#[test]
fn slugify_collapses_separator_runs() {
    assert_eq!(
        slugify("Ejercicio 1 — Cree su repositorio"),
        "ejercicio-1-cree-su-repositorio"
    );
}

#[test]
fn slugify_empty_falls_back() {
    assert_eq!(slugify("—"), "titulo");
}

// ── external links ───────────────────────────────────────────────────

#[test]
fn external_https_link_opens_in_new_tab() {
    let html = render_markdown("[AWS](https://aws.amazon.com/blogs/).\n");
    assert!(html.contains(
        "<a href=\"https://aws.amazon.com/blogs/\" \
         target=\"_blank\" rel=\"noopener noreferrer\">AWS</a>"
    ));
}

#[test]
fn external_http_link_opens_in_new_tab() {
    let html = render_markdown("[x](http://example.com)\n");
    assert!(html.contains("target=\"_blank\""));
    assert!(html.contains("rel=\"noopener noreferrer\""));
}

#[test]
fn external_link_title_is_preserved_and_escaped() {
    let html = render_markdown("[x](https://example.com \"Más <info>\")\n");
    assert!(html.contains("title=\"Más &lt;info&gt;\""));
    assert!(html.contains("target=\"_blank\""));
}

#[test]
fn relative_link_stays_in_same_tab() {
    let html = render_markdown("[Sección](/courses/aws-devops/x)\n");
    assert!(html.contains("<a href=\"/courses/aws-devops/x\">Sección</a>"));
    assert!(!html.contains("target=\"_blank\""));
}

#[test]
fn anchor_link_stays_in_same_tab() {
    let html = render_markdown("[Arriba](#top)\n");
    assert!(html.contains("<a href=\"#top\">Arriba</a>"));
    assert!(!html.contains("target=\"_blank\""));
}

#[test]
fn heading_self_link_is_not_marked_external() {
    let html = render_markdown("## Título\n");
    assert!(!html.contains("target=\"_blank\""));
}

// ── variable tokens ──────────────────────────────────────────────────

#[test]
fn token_in_prose_renders_as_var_span() {
    let html = render_markdown("Cree el repositorio {%su-nombre%}.\n");
    assert!(
        html.contains("<span class=\"cb-var\" data-var=\"su-nombre\">&lt;su-nombre&gt;</span>")
    );
}

#[test]
fn token_with_underscore_name_renders_as_var_span() {
    let html = render_markdown("{%su_nombre%}\n");
    assert!(
        html.contains("<span class=\"cb-var\" data-var=\"su_nombre\">&lt;su_nombre&gt;</span>")
    );
}

#[test]
fn token_in_inline_code_renders_as_var_span_inside_code() {
    let html = render_markdown("Use `taller-{%su-nombre%}`.\n");
    assert!(html.contains(
        "<code>taller-<span class=\"cb-var\" data-var=\"su-nombre\">\
         &lt;su-nombre&gt;</span></code>"
    ));
}

#[test]
fn inline_code_without_token_is_unchanged() {
    let html = render_markdown("La rama `desarrollo` está activa.\n");
    assert!(html.contains("<code>desarrollo</code>"));
}

#[test]
fn token_in_fenced_code_renders_as_var_span() {
    let html = render_markdown("```\nexport NAME={%su-nombre%}\n```\n");
    assert!(html.contains(
        "export NAME=<span class=\"cb-var\" data-var=\"su-nombre\">\
         &lt;su-nombre&gt;</span>"
    ));
}

#[test]
fn multiple_tokens_on_one_line_both_render() {
    let html = render_markdown("{%su-nombre%} y {%su-nombre%} otra vez.\n");
    let expected = "<span class=\"cb-var\" data-var=\"su-nombre\">&lt;su-nombre&gt;</span>";
    assert_eq!(html.matches(expected).count(), 2);
}

#[test]
fn plain_html_tag_is_not_a_token() {
    let html = render_markdown("Texto en <b>negrita</b>.\n");
    assert!(html.contains("<b>negrita</b>"));
    assert!(!html.contains("cb-var"));
}

#[test]
fn dollar_brace_is_not_a_token() {
    let html = render_markdown("Valor: `${nombre}`.\n");
    assert!(html.contains("<code>${nombre}</code>"));
    assert!(!html.contains("cb-var"));
}

#[test]
fn spaced_braces_are_not_a_token() {
    let html = render_markdown("{% bad %}\n");
    assert!(html.contains("{% bad %}"));
    assert!(!html.contains("cb-var"));
}

#[test]
fn uppercase_name_is_not_a_token() {
    let html = render_markdown("{%Upper%}\n");
    assert!(html.contains("{%Upper%}"));
    assert!(!html.contains("cb-var"));
}

#[test]
fn definition_site_literal_angle_brackets_stay_literal() {
    let html = render_markdown("donde `<su-nombre>` es el primer nombre en minúsculas.\n");
    assert!(html.contains("<code>&lt;su-nombre&gt;</code>"));
    assert!(!html.contains("cb-var"));
}

#[test]
fn mermaid_block_excludes_token_from_wrapping() {
    let html = render_markdown("```mermaid\nflowchart LR\n  A[{%su-nombre%}] --> B\n```\n");
    assert!(html.contains("{%su-nombre%}"));
    assert!(!html.contains("cb-var"));
}

#[test]
fn split_tokens_finds_bare_token() {
    assert_eq!(
        split_tokens("{%su-nombre%}"),
        vec![Segment::Var("su-nombre")]
    );
}

#[test]
fn split_tokens_keeps_surrounding_literal_text() {
    assert_eq!(
        split_tokens("hola {%x%} mundo"),
        vec![
            Segment::Literal("hola "),
            Segment::Var("x"),
            Segment::Literal(" mundo"),
        ]
    );
}

#[test]
fn split_tokens_empty_input_yields_no_segments() {
    assert_eq!(split_tokens(""), Vec::new());
}

#[test]
fn match_token_rejects_digit_led_name() {
    assert_eq!(match_token("9x%}"), None);
}

#[test]
fn match_token_rejects_missing_closer() {
    assert_eq!(match_token("su-nombre"), None);
}

#[test]
fn match_token_accepts_hyphen_and_underscore() {
    assert_eq!(
        match_token("su-nombre_2%}resto"),
        Some(("su-nombre_2", "resto"))
    );
}

#[test]
fn split_tokens_writes_back_to_its_input() {
    for text in ["hola {%x%} mundo", "", "{%a%}{%b-2%}", "a {%X%} b {% y %} {%z", "{%%}{%ok_1%}."] {
        let joined: String = split_tokens(text)
            .iter()
            .map(|s| match s {
                Segment::Literal(l) => l.to_string(),
                Segment::Var(n) => format!("{{%{n}%}}"),
            })
            .collect();
        assert_eq!(joined, text);
        for s in split_tokens(text) {
            match s {
                Segment::Literal(l) => assert!(!l.is_empty()),
                Segment::Var(n) => assert!(n.chars().next().is_some_and(|c| c.is_ascii_lowercase())),
            }
        }
    }
}

#[test]
fn slugify_lowercases_ascii_headings() {
    assert_eq!(slugify("Ab c"), "ab-c");
    assert_eq!(slugify("Paso 2: Crear la VPC"), "paso-2-crear-la-vpc");
}
