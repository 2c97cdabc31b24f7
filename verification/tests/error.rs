use courses::error::{Error};
#[test]
fn display_course_not_found() {
    let err = Error::CourseNotFound("aws-devops".to_owned());
    assert_eq!(err.message(), "course not found: aws-devops");
}

#[test]
fn display_invalid_slug() {
    let err = Error::InvalidSlug("Not A Slug".to_owned());
    assert_eq!(err.message(), "invalid course slug: \"Not A Slug\"");
}

#[test]
fn display_invalid_manifest() {
    let err = Error::InvalidManifest("title must not be empty".to_owned());
    assert_eq!(err.message(), "invalid manifest: title must not be empty");
}

#[test]
fn display_invalid_frontmatter() {
    let err = Error::InvalidFrontmatter("missing opening +++".to_owned());
    assert_eq!(err.message(), "invalid frontmatter: missing opening +++");
}

#[test]
fn display_missing_section() {
    let err = Error::MissingSection("01-intro.md".to_owned());
    assert_eq!(
        err.message(),
        "section file named in manifest but absent: 01-intro.md"
    );
}

#[test]
fn display_unclosed_solution() {
    let err = Error::UnclosedSolution;
    assert_eq!(err.message(), "unclosed `::: solucion` block");
}

#[test]
fn display_nested_solution() {
    let err = Error::NestedSolution;
    assert_eq!(err.message(), "nested `::: solucion` block");
}

#[test]
fn display_unclosed_slide() {
    assert_eq!(
        Error::UnclosedSlide.message(),
        "unclosed `:::slide` block"
    );
}

#[test]
fn display_nested_slide() {
    assert_eq!(Error::NestedSlide.message(), "nested `:::slide` block");
}

#[test]
fn display_unclosed_inline_slide() {
    assert_eq!(
        Error::UnclosedInlineSlide.message(),
        "unclosed `:::inline-slide` block"
    );
}

#[test]
fn display_nested_inline_slide() {
    assert_eq!(
        Error::NestedInlineSlide.message(),
        "nested `:::inline-slide` block"
    );
}

#[test]
fn display_unclosed_title_slide() {
    assert_eq!(
        Error::UnclosedTitleSlide.message(),
        "unclosed `:::title-slide` block"
    );
}

#[test]
fn display_nested_title_slide() {
    assert_eq!(
        Error::NestedTitleSlide.message(),
        "nested `:::title-slide` block"
    );
}

#[test]
fn display_title_slide_not_empty() {
    assert_eq!(
        Error::TitleSlideNotEmpty.message(),
        "`:::title-slide` block must be empty"
    );
}

#[test]
fn display_unclosed_warning() {
    assert_eq!(
        Error::UnclosedWarning.message(),
        "unclosed `::: warning` block"
    );
}

#[test]
fn display_nested_warning() {
    assert_eq!(
        Error::NestedWarning.message(),
        "nested `::: warning` block"
    );
}

#[test]
fn display_unclosed_extra() {
    assert_eq!(
        Error::UnclosedExtra.message(),
        "unclosed `::: extra` block"
    );
}

#[test]
fn display_nested_extra() {
    assert_eq!(Error::NestedExtra.message(), "nested `::: extra` block");
}

#[test]
fn display_unclosed_app() {
    assert_eq!(Error::UnclosedApp.message(), "unclosed `:::app` block");
}

#[test]
fn display_nested_app() {
    assert_eq!(Error::NestedApp.message(), "nested `:::app` block");
}

#[test]
fn display_duplicate_anchor() {
    assert_eq!(
        Error::DuplicateAnchor("tabla".to_owned()).message(),
        "duplicate anchor: tabla"
    );
}

#[test]
fn display_empty_anchor() {
    assert_eq!(
        Error::EmptyAnchor("tabla".to_owned()).message(),
        "anchor tabla is not followed by a block"
    );
}

#[test]
fn display_unknown_slide_ref() {
    assert_eq!(
        Error::UnknownSlideRef("tabla".to_owned()).message(),
        "slide references unknown anchor: tabla"
    );
}

#[test]
fn display_invalid_section_names_the_file() {
    let err = Error::InvalidSection {
        file: "01-intro.md".to_owned(),
        message: "unclosed `::: solucion` block".to_owned(),
    };
    assert_eq!(
        err.message(),
        "in section 01-intro.md: unclosed `::: solucion` block"
    );
}

#[test]
fn an_invalid_slug_is_quoted_and_escaped() {
    assert_eq!(Error::InvalidSlug("Not A Slug".to_owned()).message(), "invalid course slug: \"Not A Slug\"");
    assert_eq!(Error::InvalidSlug("a\"b".to_owned()).message(), "invalid course slug: \"a\\\"b\"");
    assert_eq!(Error::InvalidSlug("tab\there".to_owned()).message(), "invalid course slug: \"tab\\there\"");
}
