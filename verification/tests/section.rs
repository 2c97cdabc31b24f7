use courses::error::{Error};
use courses::section::{check_frontmatter, parse_frontmatter, split_frontmatter, Frontmatter};
const SAMPLE: &str = "+++\ntitle = \"Intro\"\n+++\n## Hello\n\nWorld\n";

#[test]
fn split_happy_path() {
    let (fm, body) = split_frontmatter(SAMPLE).unwrap();
    assert_eq!(fm, "title = \"Intro\"");
    assert_eq!(body, "## Hello\n\nWorld\n");
}

#[test]
fn split_body_preserves_internal_content() {
    let raw = "+++\ntitle = \"T\"\n+++\nLine 1\nLine 2\n";
    let (_, body) = split_frontmatter(raw).unwrap();
    assert_eq!(body, "Line 1\nLine 2\n");
}

#[test]
fn split_missing_opening_fence_errors() {
    let err = split_frontmatter("title = \"T\"\n+++\nbody\n").unwrap_err();
    assert!(matches!(err, Error::InvalidFrontmatter(_)));
}

#[test]
fn split_missing_closing_fence_errors() {
    let err = split_frontmatter("+++\ntitle = \"T\"\nbody\n").unwrap_err();
    assert!(matches!(err, Error::InvalidFrontmatter(_)));
}

#[test]
fn split_allows_empty_body() {
    let raw = "+++\ntitle = \"T\"\n+++\n";
    let (fm, body) = split_frontmatter(raw).unwrap();
    assert_eq!(fm, "title = \"T\"");
    assert_eq!(body, "");
}

#[test]
fn split_body_without_trailing_newline() {
    let raw = "+++\ntitle = \"T\"\n+++\nbody";
    let (_, body) = split_frontmatter(raw).unwrap();
    assert_eq!(body, "body");
}

#[test]
fn rejects_closing_fence_with_trailing_text() {
    let raw = "+++\ntitle = \"T\"\n+++ trailing\nbody\n";
    assert!(matches!(
        split_frontmatter(raw),
        Err(Error::InvalidFrontmatter(_))
    ));
}

#[test]
fn parse_frontmatter_only_title_leaves_extras_empty() {
    let fm = parse_frontmatter("title = \"Section One\"\n").unwrap();
    assert_eq!(fm.title, "Section One");
    assert!(fm.scripts.is_empty());
    assert!(fm.styles.is_empty());
}

#[test]
fn parse_frontmatter_with_scripts_and_styles() {
    let raw = "title = \"T\"\nscripts = [\"/a.js\"]\nstyles = [\"/b.css\", \"/c.css\"]\n";
    let fm = parse_frontmatter(raw).unwrap();
    assert_eq!(fm.scripts, vec!["/a.js"]);
    assert_eq!(fm.styles, vec!["/b.css", "/c.css"]);
}

#[test]
fn parse_frontmatter_blank_title_errors() {
    assert!(parse_frontmatter("title = \"   \"\n").is_err());
}

#[test]
fn parse_frontmatter_bad_toml_errors() {
    assert!(parse_frontmatter("not toml [").is_err());
}

#[test]
fn closing_fence_error_names_the_rule() {
    let err = split_frontmatter("+++\ntitle = \"T\"\n+++x\n").unwrap_err();
    assert_eq!(err.message(), "invalid frontmatter: closing +++ must be alone on its line");
}

#[test]
fn split_frontmatter_may_be_empty() {
    let (fm, body) = split_frontmatter("+++\n\n+++\nbody").unwrap();
    assert_eq!(fm, "");
    assert_eq!(body, "body");
}

#[test]
fn parse_frontmatter_rejects_a_missing_title() {
    assert!(matches!(
        parse_frontmatter("scripts = [\"/a.js\"]\n"),
        Err(Error::InvalidFrontmatter(_))
    ));
}

#[test]
fn parse_frontmatter_rejects_non_string_scripts() {
    assert!(matches!(
        parse_frontmatter("title = \"T\"\nscripts = [1]\n"),
        Err(Error::InvalidFrontmatter(_))
    ));
}

#[test]
fn check_frontmatter_rejects_a_blank_title() {
    let fm = Frontmatter { title: " \t".to_owned(), scripts: vec![], styles: vec![] };
    let err = check_frontmatter(Ok(fm)).unwrap_err();
    assert_eq!(err.message(), "invalid frontmatter: title must not be empty");
}
