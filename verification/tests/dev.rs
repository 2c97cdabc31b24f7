use courses::dev::{CSS, JS, inject_before_head_close, is_reload_trigger, text_asset, with_dev_script};
use courses::render::{PageMap, RenderedSite};
#[test]
fn every_hot_asset_maps_to_its_source_file() {
    let cases = [
        ("guide.css", CSS, "crates/server/static/guide.css"),
        ("slides.css", CSS, "crates/server/static/slides.css"),
        ("cb-widgets.css", CSS, "crates/server/static/cb-widgets.css"),
        ("apps.js", JS, "crates/server/static/apps.js"),
        ("toggle.js", JS, "crates/server/static/toggle.js"),
        ("shiki-init.js", JS, "crates/server/static/shiki-init.js"),
        (
            "mermaid-init.js",
            JS,
            "crates/server/static/mermaid-init.js",
        ),
        ("vars.js", JS, "crates/server/static/vars.js"),
    ];
    for (file, content_type, repo_path) in cases {
        let found = text_asset(file).unwrap();
        assert_eq!(found.content_type, content_type, "content type for {file}");
        assert_eq!(found.repo_path, repo_path, "repo path for {file}");
    }
}

#[test]
fn binary_assets_are_not_hot_reloadable() {
    for file in [
        "favicon.ico",
        "favicon.png",
        "montserrat.ttf",
        "cloudbridge.png",
    ] {
        assert!(text_asset(file).is_none(), "{file} must stay embedded");
    }
}

#[test]
fn vendored_bundles_are_not_hot_reloadable() {
    for file in ["reveal.min.js", "reveal.min.css", "mermaid.min.js"] {
        assert!(text_asset(file).is_none(), "{file} must stay embedded");
    }
}

#[test]
fn unknown_and_traversing_names_are_rejected() {
    for file in [
        "",
        "nope.css",
        "../Cargo.toml",
        "guide.css.bak",
        "GUIDE.CSS",
    ] {
        assert!(text_asset(file).is_none(), "{file:?} must not resolve");
    }
}

#[test]
fn content_and_asset_edits_trigger_a_reload() {
    for path in [
        "content/aws-devops/01-introduccion.md",
        "content/aws-devops/course.toml",
        "crates/server/static/guide.css",
        "crates/server/static/apps.js",
        "01.md",
    ] {
        assert!(is_reload_trigger(path), "{path} must trigger");
    }
}

#[test]
fn editor_noise_does_not_trigger_a_reload() {
    for path in [
        "content/aws-devops/.DS_Store",
        "content/aws-devops/.01-introduccion.md.swp",
        "content/aws-devops/01-introduccion.md~",
        "content/aws-devops/01-introduccion.md.swp",
        "content/aws-devops/guide.css___jb_tmp___",
        "content/aws-devops/4913",
        "content/aws-devops",
        "",
    ] {
        assert!(!is_reload_trigger(path), "{path:?} must not trigger");
    }
}


const SNIPPET: &str = "<script src=\"/x.js\"></script>";

fn doc(body: &str) -> String {
    format!(
        "<!doctype html>\n<html>\n<head>\n<title>t</title></head>\n<body>\n{body}</body>\n</html>\n"
    )
}

#[test]
fn injects_immediately_before_the_head_close() {
    let html = inject_before_head_close(&doc("x"), SNIPPET).unwrap();
    let expected = format!("{SNIPPET}</head>");
    assert!(
        html.contains(&expected),
        "snippet must abut </head>: {html}"
    );
    assert_eq!(html.matches(SNIPPET).count(), 1);
}

#[test]
fn missing_head_close_returns_none() {
    assert!(inject_before_head_close("<html><body>x</body></html>", SNIPPET).is_none());
}

#[test]
fn only_the_first_head_close_receives_the_snippet() {
    let html = inject_before_head_close("<head></head><head></head>", SNIPPET).unwrap();
    assert_eq!(html, format!("<head>{SNIPPET}</head><head></head>"));
}

#[test]
fn with_dev_script_covers_index_pages_and_not_found() {
    let mut pages = PageMap::new();
    pages.insert("a".to_owned(), doc("a"));
    pages.insert("a/b".to_owned(), doc("b"));
    let site = RenderedSite {
        index_html: doc("index"),
        pages,
        not_found_html: doc("404"),
    };

    let (site, skipped) = with_dev_script(site, SNIPPET);

    assert!(skipped.is_empty(), "nothing should be skipped: {skipped:?}");
    assert!(site.index_html.contains(SNIPPET));
    assert!(site.not_found_html.contains(SNIPPET));
    assert!(site.pages.get("a").unwrap().contains(SNIPPET));
    assert!(site.pages.get("a/b").unwrap().contains(SNIPPET));
}

#[test]
fn a_page_without_head_close_is_reported_and_left_untouched() {
    let mut pages = PageMap::new();
    pages.insert("broken".to_owned(), "<html>no head</html>".to_owned());
    let site = RenderedSite {
        index_html: doc("index"),
        pages,
        not_found_html: doc("404"),
    };

    let (site, skipped) = with_dev_script(site, SNIPPET);

    assert_eq!(skipped, vec!["broken".to_owned()]);
    assert_eq!(*site.pages.get("broken").unwrap(), "<html>no head</html>");
    assert!(site.index_html.contains(SNIPPET));
}
