use courses::file_apps::{expand_file_apps, try_expand_file_apps, FileAppError};

fn source(path: &str, contents: &str) -> Vec<(String, String)> {
    vec![(path.to_owned(), contents.to_owned())]
}

#[test]
fn expands_a_file_tag_with_escaped_source() {
    let expanded = expand_file_apps(
        ":::app\n<cb-file path=\"./buildspec.yml\" type=\"yaml\"></cb-file>\n:::\n",
        &source("buildspec.yml", "answer: <yes>"),
    )
    .unwrap();
    assert!(expanded.contains("path=\"./buildspec.yml\""));
    assert!(expanded.contains("type=\"yaml\""));
    assert!(expanded.contains("data-content=\"answer: &lt;yes&gt;\""));
}

#[test]
fn rejects_a_path_outside_the_repository() {
    let err = expand_file_apps("<cb-file path=\"../.env\"></cb-file>", &[]).unwrap_err();
    assert!(err.message().contains("cannot traverse directories"));
}

#[test]
fn rejects_an_unknown_source() {
    let err = expand_file_apps("<cb-file path=\"missing.yml\"></cb-file>", &[]).unwrap_err();
    assert!(err.message().contains("unknown file: missing.yml"));
}

#[test]
fn preserves_file_viewer_boolean_attributes() {
    let expanded = expand_file_apps(
        "<cb-file toggleable path=\"Dockerfile\" type=\"dockerfile\" open full-path></cb-file>",
        &source("Dockerfile", "FROM scratch"),
    )
    .unwrap();
    assert!(expanded.contains("type=\"dockerfile\" toggleable open full-path"));
}

#[test]
fn whole_tag_is_rewritten_exactly() {
    let expanded = expand_file_apps(
        "a <cb-file path=\"x/y.rs\" /> b",
        &source("x/y.rs", "fn main() {\"q\"}"),
    )
    .unwrap();
    assert_eq!(
        expanded,
        "a <cb-file path=\"x/y.rs\" type=\"text\" data-content=\"fn main() {&quot;q&quot;}\"></cb-file> b"
    );
}

#[test]
fn invalid_path_message_quotes_the_raw_path() {
    let err = expand_file_apps("<cb-file path=\" /etc/passwd\"></cb-file>", &[]).unwrap_err();
    assert_eq!(err, FileAppError::InvalidPath(" /etc/passwd".to_owned()));
    assert_eq!(
        err.message(),
        "<cb-file> path must be repository-relative and cannot traverse directories: \" /etc/passwd\""
    );
}

#[test]
fn unknown_file_carries_the_normalized_path() {
    let err = expand_file_apps("<cb-file path=\"././a/b\"></cb-file>", &[]).unwrap_err();
    assert_eq!(err, FileAppError::UnknownFile("a/b".to_owned()));
}

#[test]
fn other_malformed_tags_are_reported() {
    assert_eq!(
        expand_file_apps("<cb-file path=\"a\"", &[]).unwrap_err(),
        FileAppError::Unterminated
    );
    assert_eq!(
        expand_file_apps("<cb-file></cb-file>", &[]).unwrap_err(),
        FileAppError::MissingPath
    );
    assert_eq!(
        expand_file_apps("<cb-file path=\"a\" type=\" \"></cb-file>", &source("a", "")).unwrap_err(),
        FileAppError::EmptyType
    );
    assert_eq!(
        expand_file_apps("<cb-file path=\"a\">x</cb-file>", &source("a", "")).unwrap_err(),
        FileAppError::NotEmpty
    );
    assert_eq!(
        expand_file_apps("<cb-file path=\"a//b\"></cb-file>", &[]).unwrap_err(),
        FileAppError::InvalidPath("a//b".to_owned())
    );
}

#[test]
fn a_key_less_attribute_is_reported_as_endless() {
    assert!(try_expand_file_apps("<cb-file !x path=\"a\"></cb-file>", &source("a", "")).is_none());
}

#[test]
fn text_without_tags_passes_through() {
    assert_eq!(expand_file_apps("plain <b>text</b>", &[]).unwrap(), "plain <b>text</b>");
}
