use courses::course::{CourseSlug, SessionSlug};
use courses::error::{Error};
#[test]
fn parse_accepts_simple_slug() {
    assert_eq!(
        CourseSlug::parse("aws-devops").unwrap().as_str(),
        "aws-devops"
    );
}

#[test]
fn parse_accepts_single_segment_and_digits() {
    assert!(CourseSlug::parse("a").is_ok());
    assert!(CourseSlug::parse("week-1").is_ok());
}

#[test]
fn parse_rejects_empty() {
    assert!(matches!(
        CourseSlug::parse(""),
        Err(crate::Error::InvalidSlug(_))
    ));
}

#[test]
fn parse_rejects_uppercase() {
    assert!(CourseSlug::parse("AWS").is_err());
}

#[test]
fn parse_rejects_bad_hyphens() {
    assert!(CourseSlug::parse("-a").is_err());
    assert!(CourseSlug::parse("a-").is_err());
    assert!(CourseSlug::parse("a--b").is_err());
}

#[test]
fn parse_rejects_invalid_characters() {
    assert!(CourseSlug::parse("a_b").is_err());
    assert!(CourseSlug::parse("café").is_err());
    assert!(CourseSlug::parse("a b").is_err());
}

#[test]
fn parse_accepts_multi_segment_slug() {
    assert_eq!(CourseSlug::parse("a-b-c").unwrap().as_str(), "a-b-c");
}

#[test]
fn parse_accepts_digits_only() {
    assert!(CourseSlug::parse("123").is_ok());
}

#[test]
fn session_slug_accepts_valid_slugs() {
    assert_eq!(
        SessionSlug::parse("del-codigo-a-la-imagen")
            .unwrap()
            .as_str(),
        "del-codigo-a-la-imagen"
    );
    assert!(SessionSlug::parse("a").is_ok());
    assert!(SessionSlug::parse("week-1").is_ok());
}

#[test]
fn session_slug_rejects_empty() {
    assert!(matches!(
        SessionSlug::parse(""),
        Err(crate::Error::InvalidSlug(_))
    ));
}

#[test]
fn session_slug_rejects_uppercase() {
    assert!(SessionSlug::parse("Sesion").is_err());
}

#[test]
fn session_slug_rejects_bad_hyphens() {
    assert!(SessionSlug::parse("-a").is_err());
    assert!(SessionSlug::parse("a-").is_err());
    assert!(SessionSlug::parse("a--b").is_err());
}

#[test]
fn session_slug_rejects_non_kebab_characters() {
    assert!(SessionSlug::parse("a_b").is_err());
    assert!(SessionSlug::parse("café").is_err());
    assert!(SessionSlug::parse("a b").is_err());
}
