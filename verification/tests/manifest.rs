use courses::error::{Error};
use courses::manifest::{check_manifest, parse_manifest, Manifest, SessionEntry};
const VALID_TWO_SESSION: &str = r#"
title = "My Course"

[[session]]
slug = "s1"
title = "Session One"
sections = ["01-a.md", "02-b.md"]

[[session]]
slug = "s2"
title = "Session Two"
sections = ["03-c.md"]
"#;

#[test]
fn parses_valid_two_session_manifest() {
    let m = parse_manifest(VALID_TWO_SESSION).unwrap();
    assert_eq!(m.title, "My Course");
    assert_eq!(m.sessions.len(), 2);
    assert_eq!(m.sessions[0].slug, "s1");
    assert_eq!(m.sessions[0].title, "Session One");
    assert_eq!(m.sessions[0].sections, vec!["01-a.md", "02-b.md"]);
    assert_eq!(m.sessions[1].slug, "s2");
    assert_eq!(m.sessions[1].title, "Session Two");
    assert_eq!(m.sessions[1].sections, vec!["03-c.md"]);
}

#[test]
fn rejects_empty_session_set() {
    assert!(matches!(
        parse_manifest("title = \"My Course\"\n"),
        Err(Error::InvalidManifest(_))
    ));
}

#[test]
fn rejects_session_with_empty_sections() {
    let toml = r#"
title = "My Course"

[[session]]
slug = "s1"
title = "Session One"
sections = []
"#;
    assert!(matches!(
        parse_manifest(toml),
        Err(Error::InvalidManifest(_))
    ));
}

#[test]
fn rejects_blank_course_title() {
    let toml = r#"
title = "   "

[[session]]
slug = "s1"
title = "Session One"
sections = ["01-a.md"]
"#;
    assert!(matches!(
        parse_manifest(toml),
        Err(Error::InvalidManifest(_))
    ));
}

#[test]
fn rejects_blank_session_title() {
    let toml = r#"
title = "My Course"

[[session]]
slug = "s1"
title = "   "
sections = ["01-a.md"]
"#;
    assert!(matches!(
        parse_manifest(toml),
        Err(Error::InvalidManifest(_))
    ));
}

#[test]
fn rejects_missing_title_key() {
    let toml = r#"
[[session]]
slug = "s1"
title = "Session One"
sections = ["01-a.md"]
"#;
    assert!(matches!(
        parse_manifest(toml),
        Err(Error::InvalidManifest(_))
    ));
}

#[test]
fn rejects_non_toml() {
    assert!(parse_manifest("not toml at all [").is_err());
}

#[test]
fn session_without_sections_is_named_in_the_message() {
    let toml = "title = \"C\"\n\n[[session]]\nslug = \"intro\"\ntitle = \"Intro\"\nsections = []\n";
    let err = parse_manifest(toml).unwrap_err();
    assert_eq!(err.message(), "invalid manifest: session \"intro\" has no sections");
}

#[test]
fn missing_session_list_reads_as_no_sessions() {
    let err = parse_manifest("title = \"C\"\n").unwrap_err();
    assert_eq!(err.message(), "invalid manifest: a course must have at least one session");
}

#[test]
fn session_of_the_wrong_type_is_rejected() {
    assert!(matches!(
        parse_manifest("title = \"C\"\nsession = \"s1\"\n"),
        Err(Error::InvalidManifest(_))
    ));
}

#[test]
fn session_missing_sections_key_is_rejected() {
    let toml = "title = \"C\"\n\n[[session]]\nslug = \"s1\"\ntitle = \"One\"\n";
    assert!(matches!(parse_manifest(toml), Err(Error::InvalidManifest(_))));
}

#[test]
fn check_manifest_reports_the_decoder_message() {
    let err = check_manifest(Err("bad toml".to_owned())).unwrap_err();
    assert_eq!(err.message(), "invalid manifest: bad toml");
}

#[test]
fn check_manifest_keeps_a_valid_manifest() {
    let m = Manifest {
        title: "T".to_owned(),
        sessions: vec![SessionEntry {
            slug: "s".to_owned(),
            title: "S".to_owned(),
            sections: vec!["a.md".to_owned()],
        }],
    };
    assert_eq!(check_manifest(Ok(m.clone())).unwrap(), m);
}

#[test]
fn a_session_slug_with_a_quote_is_escaped_in_the_message() {
    let raw = "title = \"C\"\n[[session]]\nslug = 'a\"b'\ntitle = \"S\"\nsections = []\n";
    let err = parse_manifest(raw).unwrap_err();
    assert_eq!(err.message(), "invalid manifest: session \"a\\\"b\" has no sections");
}
