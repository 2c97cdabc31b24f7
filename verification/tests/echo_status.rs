use courses::echo::{status_json, DEFAULT_ECHO_STATUS, EchoStatus, echo_status};
use courses::json_doc::JsonValue;
use serde_json::Value;

#[test]
fn answers_the_default_status_without_a_status_parameter() {
    assert_eq!(echo_status(None), EchoStatus::Default);
    assert_eq!(echo_status(Some("x=1")), EchoStatus::Default);
    assert_eq!(EchoStatus::Default.code(), DEFAULT_ECHO_STATUS);
}

#[test]
fn reads_the_status_the_query_string_asks_for() {
    assert_eq!(echo_status(Some("status=503")), EchoStatus::Requested(503));
    assert_eq!(
        echo_status(Some("x=1&status=404&y=2")),
        EchoStatus::Requested(404)
    );
    assert_eq!(EchoStatus::Requested(503).code(), 503);
}

#[test]
fn accepts_the_ends_of_the_status_range() {
    assert_eq!(echo_status(Some("status=200")), EchoStatus::Requested(200));
    assert_eq!(echo_status(Some("status=599")), EchoStatus::Requested(599));
}

#[test]
fn refuses_a_status_outside_the_range() {
    assert_eq!(
        echo_status(Some("status=199")),
        EchoStatus::Invalid("199".to_owned())
    );
    assert_eq!(
        echo_status(Some("status=600")),
        EchoStatus::Invalid("600".to_owned())
    );
    // Over `u16`, so it does not even parse as a number.
    assert_eq!(
        echo_status(Some("status=70000")),
        EchoStatus::Invalid("70000".to_owned())
    );
}

#[test]
fn refuses_a_status_that_is_not_a_whole_number() {
    assert_eq!(
        echo_status(Some("status=abc")),
        EchoStatus::Invalid("abc".to_owned())
    );
    assert_eq!(
        echo_status(Some("status=503.5")),
        EchoStatus::Invalid("503.5".to_owned())
    );
    assert_eq!(
        echo_status(Some("status")),
        EchoStatus::Invalid(String::new())
    );
    assert_eq!(EchoStatus::Invalid("abc".to_owned()).code(), 200);
}

#[test]
fn keeps_the_first_of_a_repeated_status() {
    assert_eq!(
        echo_status(Some("status=418&status=500")),
        EchoStatus::Requested(418)
    );
}

#[test]
fn ignores_the_space_around_a_status() {
    assert_eq!(
        echo_status(Some("status=%20503")),
        EchoStatus::Requested(503)
    );
}





fn to_serde(value: JsonValue) -> Value {
    match value {
        JsonValue::Null => Value::Null,
        JsonValue::Bool(b) => Value::Bool(b),
        JsonValue::Number(n) => Value::Number(n.parse().unwrap()),
        JsonValue::Text(s) => Value::String(s),
        JsonValue::Array(items) => Value::Array(items.into_iter().map(to_serde).collect()),
        JsonValue::Object(entries) => {
            Value::Object(entries.into_iter().map(|(k, v)| (k, to_serde(v))).collect::<serde_json::Map<String, Value>>())
        }
    }
}

fn j(text: &str) -> Value {
    serde_json::from_str(text).unwrap()
}

#[test]
fn reports_where_the_status_came_from() {
    assert_eq!(
        to_serde(status_json(&EchoStatus::Requested(503))),
        j(r#"{ "status": 503, "source": "query", "requested": "503" }"#)
    );
    let default = to_serde(status_json(&EchoStatus::Default));
    assert_eq!(default["source"], j(r#""default""#));
    assert_eq!(default["requested"], Value::Null);
}

#[test]
fn explains_a_status_it_could_not_use() {
    let invalid = to_serde(status_json(&EchoStatus::Invalid("teapot".to_owned())));
    assert_eq!(invalid["status"], Value::from(DEFAULT_ECHO_STATUS));
    assert_eq!(invalid["requested"], j(r#""teapot""#));
    assert!(invalid["error"].as_str().is_some_and(|error| error.contains("status")));
    assert_eq!(invalid["error"], j(r#""`status` must be a whole number between 200 and 599""#));
}
