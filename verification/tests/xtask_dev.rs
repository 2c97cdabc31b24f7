use courses::xtask::dev::{parse_env_line, parse_host_port, strip_quotes};
#[test]
fn parse_env_line_basic() {
    let (k, v) = parse_env_line("PORT=8090").unwrap();
    assert_eq!(k, "PORT");
    assert_eq!(v, "8090");
}

#[test]
fn parse_env_line_strips_double_quotes() {
    let (k, v) = parse_env_line(r#"SECRET="abc123""#).unwrap();
    assert_eq!(k, "SECRET");
    assert_eq!(v, "abc123");
}

#[test]
fn parse_env_line_strips_single_quotes() {
    let (_, v) = parse_env_line("KEY='val'").unwrap();
    assert_eq!(v, "val");
}

#[test]
fn parse_env_line_skips_comment() {
    assert!(parse_env_line("# comment").is_none());
}

#[test]
fn parse_env_line_skips_blank() {
    assert!(parse_env_line("   ").is_none());
}

#[test]
fn parse_env_line_rejects_no_equals() {
    assert!(parse_env_line("NOEQUALS").is_none());
}

#[test]
fn parses_export_prefixed_line() {
    let (k, v) = parse_env_line("export PORT=8090").unwrap();
    assert_eq!(k, "PORT");
    assert_eq!(v, "8090");
}

#[test]
fn keeps_equals_in_value() {
    let (k, v) = parse_env_line("KEY=a=b=c").unwrap();
    assert_eq!(k, "KEY");
    assert_eq!(v, "a=b=c");
}

#[test]
fn parse_host_port_ipv4() {
    assert_eq!(parse_host_port("0.0.0.0:49153"), Some(49153));
}

#[test]
fn parse_host_port_ipv6() {
    assert_eq!(parse_host_port("[::]:49153"), Some(49153));
}

#[test]
fn parse_host_port_multi_line_takes_first() {
    assert_eq!(parse_host_port("0.0.0.0:49153\n[::]:49153"), Some(49153));
}

#[test]
fn strip_quotes_double() {
    assert_eq!(strip_quotes(r#""hello""#), "hello");
}

#[test]
fn strip_quotes_single() {
    assert_eq!(strip_quotes("'hello'"), "hello");
}

#[test]
fn strip_quotes_no_quotes() {
    assert_eq!(strip_quotes("hello"), "hello");
}

#[test]
fn strip_quotes_mismatched() {
    assert_eq!(strip_quotes("\"hello'"), "\"hello'");
}

#[test]
fn a_lone_quote_stays_as_written() {
    assert_eq!(strip_quotes("\""), "\"");
    assert_eq!(strip_quotes("'"), "'");
    assert_eq!(strip_quotes(""), "");
    assert_eq!(
        parse_env_line("KEY=\""),
        Some(("KEY".to_owned(), "\"".to_owned()))
    );
    assert_eq!(
        parse_env_line("export KEY= ' "),
        Some(("KEY".to_owned(), "'".to_owned()))
    );
}

#[test]
fn empty_quotes_strip_to_nothing() {
    let (k, v) = parse_env_line("  KEY = \"\"  ").unwrap();
    assert_eq!(k, "KEY");
    assert_eq!(v, "");
}

#[test]
fn export_with_tab_is_stripped() {
    let (k, v) = parse_env_line("export\tA=1").unwrap();
    assert_eq!(k, "A");
    assert_eq!(v, "1");
}

#[test]
fn parse_host_port_rejects_what_is_not_a_port() {
    assert_eq!(parse_host_port(""), None);
    assert_eq!(parse_host_port("0.0.0.0:70000"), None);
    assert_eq!(parse_host_port("0.0.0.0:"), None);
    assert_eq!(parse_host_port("8000"), Some(8000));
    assert_eq!(parse_host_port("  [::]:+80\r\nx"), Some(80));
}
