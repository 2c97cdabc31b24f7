use courses::assets::{GUIDE_CSS_PATH, PageAssets};
use courses::catalog::{LoadedCourse};
use courses::course::{Course, CourseSlug, GuideSection, Session, SessionSlug};
use courses::directives::{SlideFragment};
use courses::render::{SessionPage, escape_html, render_index_page, render_landing_page, render_not_found_page, render_session_page, render_site, render_slideshow_page, render_tree};
fn sample() -> LoadedCourse {
    LoadedCourse {
        course: Course {
            slug: CourseSlug::parse("aws-devops").unwrap(),
            title: "Taller <AWS> & DevOps".to_owned(),
            sessions: vec![Session {
                slug: SessionSlug::parse("semana-1").unwrap(),
                title: "Semana 1".to_owned(),
                sections: vec![GuideSection {
                    title: "Sección 1".to_owned(),
                    body_html: "<p>Hola</p>".to_owned(),
                }],
            }],
        },
        session_assets: vec![PageAssets::base()],
        session_slides: vec![vec![]],
    }
}

fn sample_session_page(loaded: &LoadedCourse) -> SessionPage<'_> {
    SessionPage {
        course: &loaded.course,
        session: &loaded.course.sessions[0],
        assets: &loaded.session_assets[0],
        prev: None,
        next: None,
        has_slides: false,
    }
}

// ── brand chrome ──────────────────────────────────────────────────────

#[test]
fn session_page_has_brand_chrome() {
    let loaded = sample();
    let html = render_session_page(&sample_session_page(&loaded));
    assert!(html.contains("<header class=\"cb-header\">"));
    assert!(html.contains("/static/cloudbridge.png"));
    assert!(html.contains("<div class=\"cb-strip\"></div>"));
    assert!(html.contains("<footer class=\"cb-footer\">"));
    assert!(html.contains("© Cloud Bridge SAS"));
    let header_at = html.find("cb-header").unwrap();
    let main_at = html.find("<main>").unwrap();
    let footer_at = html.find("cb-footer\">").unwrap();
    assert!(header_at < main_at);
    assert!(main_at < footer_at);
}

#[test]
fn index_and_not_found_share_the_chrome() {
    for html in [render_index_page(&[]), render_not_found_page()] {
        assert!(html.contains("cb-header"));
        assert!(html.contains("cb-footer"));
        assert!(html.contains("/static/cloudbridge.png"));
    }
}

// ── escape_html ───────────────────────────────────────────────────────

#[test]
fn escape_html_escapes_all_five() {
    assert_eq!(
        escape_html(r#"<a href="x">&'"#),
        "&lt;a href=&quot;x&quot;&gt;&amp;&#39;"
    );
}

#[test]
fn escape_html_passes_plain_text() {
    assert_eq!(escape_html("hola"), "hola");
}

#[test]
fn escape_html_handles_empty() {
    assert_eq!(escape_html(""), "");
}

// ── render_session_page ───────────────────────────────────────────────

#[test]
fn render_escapes_titles() {
    let loaded = sample();
    // Course title escaping: render_landing_page puts the course title in <h1> and <title>.
    let landing_html = render_landing_page(&loaded);
    assert!(landing_html.contains("Taller &lt;AWS&gt; &amp; DevOps"));
    assert!(!landing_html.contains("Taller <AWS>"));
    // Session title: render_session_page escapes the session title in <h1> and <title>.
    let mut loaded_unsafe = sample();
    loaded_unsafe.course.sessions[0].title = "Semana <1> & Intro".to_owned();
    let session_html = render_session_page(&sample_session_page(&loaded_unsafe));
    assert!(session_html.contains("Semana &lt;1&gt; &amp; Intro"));
    assert!(!session_html.contains("Semana <1>"));
}

#[test]
fn render_passes_body_html_verbatim() {
    let loaded = sample();
    let html = render_session_page(&sample_session_page(&loaded));
    assert!(html.contains("<p>Hola</p>"));
}

#[test]
fn render_produces_a_document() {
    let loaded = sample();
    let html = render_session_page(&sample_session_page(&loaded));
    assert!(html.starts_with("<!doctype html>"));
    assert!(html.contains("<h2>Sección 1</h2>") || html.contains("Secci"));
}

#[test]
fn assets_emit_link_stylesheet() {
    let loaded = sample();
    let html = render_session_page(&sample_session_page(&loaded));
    assert!(html.contains(&format!(
        "<link rel=\"stylesheet\" href=\"{GUIDE_CSS_PATH}\">"
    )));
}

#[test]
fn script_asset_emits_script_defer() {
    let mut assets = PageAssets::base();
    assets.push_script("/static/toggle.js");
    let loaded = sample();
    let input = SessionPage {
        course: &loaded.course,
        session: &loaded.course.sessions[0],
        assets: &assets,
        prev: None,
        next: None,
        has_slides: false,
    };
    let html = render_session_page(&input);
    assert!(html.contains("<script defer src=\"/static/toggle.js\">"));
}

#[test]
fn render_session_page_has_seccion_id() {
    let loaded = sample();
    let html = render_session_page(&sample_session_page(&loaded));
    assert!(html.contains("id=\"seccion-1\""));
}

#[test]
fn render_session_page_has_nav() {
    let loaded = sample();
    let html = render_session_page(&sample_session_page(&loaded));
    assert!(html.contains("<nav aria-label=\"Contenido\">"));
}

#[test]
fn render_session_page_footer_nav_first_session_no_prev() {
    let loaded = sample();
    let next = Session {
        slug: SessionSlug::parse("semana-2").unwrap(),
        title: "Semana 2".to_owned(),
        sections: vec![],
    };
    let input = SessionPage {
        course: &loaded.course,
        session: &loaded.course.sessions[0],
        assets: &loaded.session_assets[0],
        prev: None,
        next: Some(&next),
        has_slides: false,
    };
    let html = render_session_page(&input);
    assert!(!html.contains("cb-prev"));
    assert!(html.contains("cb-up"));
    assert!(html.contains("cb-next"));
}

#[test]
fn render_session_page_footer_nav_last_session_no_next() {
    let loaded = sample();
    let prev = Session {
        slug: SessionSlug::parse("semana-0").unwrap(),
        title: "Semana 0".to_owned(),
        sections: vec![],
    };
    let input = SessionPage {
        course: &loaded.course,
        session: &loaded.course.sessions[0],
        assets: &loaded.session_assets[0],
        prev: Some(&prev),
        next: None,
        has_slides: false,
    };
    let html = render_session_page(&input);
    assert!(!html.contains("cb-next"));
    assert!(html.contains("cb-up"));
    assert!(html.contains("cb-prev"));
}

#[test]
fn render_session_page_footer_nav_middle_session_has_both() {
    let loaded = sample();
    let prev = Session {
        slug: SessionSlug::parse("semana-0").unwrap(),
        title: "Semana 0".to_owned(),
        sections: vec![],
    };
    let next = Session {
        slug: SessionSlug::parse("semana-2").unwrap(),
        title: "Semana 2".to_owned(),
        sections: vec![],
    };
    let input = SessionPage {
        course: &loaded.course,
        session: &loaded.course.sessions[0],
        assets: &loaded.session_assets[0],
        prev: Some(&prev),
        next: Some(&next),
        has_slides: false,
    };
    let html = render_session_page(&input);
    assert!(html.contains("cb-prev"));
    assert!(html.contains("cb-up"));
    assert!(html.contains("cb-next"));
}

// ── render_tree ───────────────────────────────────────────────────────

#[test]
fn render_tree_nests_course_session_section() {
    let loaded = sample();
    let html = render_tree(std::slice::from_ref(&loaded));
    assert!(html.contains("class=\"cb-tree\""));
    assert!(html.contains("/courses/aws-devops/semana-1"));
    assert!(html.contains("/courses/aws-devops/semana-1#seccion-1"));
}

// ── render_landing_page ───────────────────────────────────────────────

#[test]
fn render_landing_page_is_lang_es() {
    let loaded = sample();
    let html = render_landing_page(&loaded);
    assert!(html.contains("lang=\"es\""));
}

#[test]
fn render_landing_page_contains_tree() {
    let loaded = sample();
    let html = render_landing_page(&loaded);
    assert!(html.contains("cb-tree"));
}

// ── render_index_page ─────────────────────────────────────────────────

fn make_loaded(slug: &str, title: &str) -> LoadedCourse {
    LoadedCourse {
        course: Course {
            slug: CourseSlug::parse(slug).unwrap(),
            title: title.to_owned(),
            sessions: vec![Session {
                slug: SessionSlug::parse("s1").unwrap(),
                title: "Session 1".to_owned(),
                sections: vec![],
            }],
        },
        session_assets: vec![PageAssets::base()],
        session_slides: vec![vec![]],
    }
}

#[test]
fn render_index_page_contains_tree() {
    let courses = vec![make_loaded("aws-devops", "AWS DevOps")];
    let html = render_index_page(&courses);
    assert!(html.contains("cb-tree"));
    assert!(html.contains("/courses/aws-devops/s1"));
}

#[test]
fn index_page_shows_each_course_title() {
    let courses = vec![
        make_loaded("aws-devops", "AWS DevOps"),
        make_loaded("kubernetes", "Kubernetes"),
    ];
    let html = render_index_page(&courses);
    assert!(html.contains("<summary>AWS DevOps</summary>"));
    assert!(html.contains("<summary>Kubernetes</summary>"));
}

#[test]
fn index_page_escapes_special_chars_in_title() {
    let courses = vec![make_loaded("x", "A & B <test>")];
    let html = render_index_page(&courses);
    assert!(html.contains("A &amp; B &lt;test&gt;"));
}

// ── render_not_found_page ─────────────────────────────────────────────

#[test]
fn not_found_page_is_lang_en() {
    let html = render_not_found_page();
    assert!(html.contains("lang=\"en\""));
}

#[test]
fn not_found_page_links_to_root() {
    let html = render_not_found_page();
    assert!(html.contains("<a href=\"/\">"));
}

// ── slides link ──────────────────────────────────────────────────────

#[test]
fn session_page_with_slides_shows_slides_link() {
    let loaded = sample();
    let input = SessionPage {
        course: &loaded.course,
        session: &loaded.course.sessions[0],
        assets: &loaded.session_assets[0],
        prev: None,
        next: None,
        has_slides: true,
    };
    let html = render_session_page(&input);
    assert!(html.contains("Ver diapositivas"));
    assert!(html.contains("/courses/aws-devops/semana-1/slides"));
}

#[test]
fn session_page_without_slides_hides_slides_link() {
    let loaded = sample();
    let html = render_session_page(&sample_session_page(&loaded));
    assert!(!html.contains("Ver diapositivas"));
}

#[test]
fn slideshow_page_wraps_each_slide_in_section_tag() {
    let loaded = sample();
    let slides = vec![
        SlideFragment {
            html: "<p>Slide one</p>\n".to_owned(),
            light: false,
        },
        SlideFragment {
            html: "<p>Slide two</p>\n".to_owned(),
            light: false,
        },
    ];
    let html = render_slideshow_page(&loaded.course, &loaded.course.sessions[0], &slides);
    assert!(html.contains("<div class=\"reveal\">"));
    assert!(html.contains("<div class=\"slides\">"));
    let count = html.matches("<section>").count();
    assert_eq!(count, 2);
    assert!(html.contains("Slide one"));
    assert!(html.contains("Slide two"));
    assert!(html.contains("reveal.min.js"));
    assert!(html.contains("Diapositivas"));
    assert!(html.contains("cb-slides-close"));
    assert!(html.contains("aria-label=\"Cerrar diapositivas\""));
    assert!(html.contains("slides.css"));
    assert!(!html.contains("reveal-theme-black"));
    // close button must appear before </body>
    assert!(html.find("cb-slides-close").unwrap() < html.find("</body>").unwrap());
}

#[test]
fn slideshow_close_button_links_to_session_guide() {
    let loaded = sample();
    let slides = vec![SlideFragment {
        html: "<p>One</p>\n".to_owned(),
        light: false,
    }];
    let html = render_slideshow_page(&loaded.course, &loaded.course.sessions[0], &slides);
    assert!(
        html.contains("<a class=\"cb-slides-close\" href=\"/courses/aws-devops/semana-1\"")
    );
}

#[test]
fn light_slide_emits_cb_light_class_dark_slide_does_not() {
    let loaded = sample();
    let slides = vec![
        SlideFragment {
            html: "<p>Dark</p>\n".to_owned(),
            light: false,
        },
        SlideFragment {
            html: "<p>Light</p>\n".to_owned(),
            light: true,
        },
    ];
    let html = render_slideshow_page(&loaded.course, &loaded.course.sessions[0], &slides);
    assert!(html.contains("<section>\n<p>Dark</p>"));
    assert!(html.contains("<section class=\"cb-light\">\n<p>Light</p>"));
}

// ── render_site ───────────────────────────────────────────────────────

#[test]
fn render_site_keys_pages_by_slug() {
    let courses = vec![make_loaded("aws-devops", "AWS DevOps")];
    let site = render_site(&courses);
    assert!(site.pages.contains_key("aws-devops"));
    assert!(site.pages.contains_key("aws-devops/s1"));
}

#[test]
fn render_site_fills_all_three_fields() {
    let courses = vec![make_loaded("my-course", "My Course")];
    let site = render_site(&courses);
    assert!(!site.index_html.is_empty());
    assert!(!site.pages.is_empty());
    assert!(!site.not_found_html.is_empty());
}

#[test]
fn render_site_keys_slideshow_page_when_slides_present() {
    let slides_html = vec![SlideFragment {
        html: "<p>One</p>\n".to_owned(),
        light: false,
    }];
    let mut courses = vec![make_loaded("aws-devops", "AWS DevOps")];
    courses[0].session_slides = vec![slides_html];
    let site = render_site(&courses);
    assert!(site.pages.contains_key("aws-devops/s1/slides"));
}

#[test]
fn render_site_skips_slideshow_page_when_no_slides() {
    let courses = vec![make_loaded("aws-devops", "AWS DevOps")];
    let site = render_site(&courses);
    assert!(!site.pages.contains_key("aws-devops/s1/slides"));
}
