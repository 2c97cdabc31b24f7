use courses::echo::{body_json, echo_answer, DEFAULT_ECHO_STATUS, body_content, public_name_match, BodyContent, MAX_ECHOED_BODY, parse_ecs_task_metadata, EchoConfig, EchoRequest, EchoServer, EcsNetwork, base64_encode, client_ip, group_headers, host_matches_name, parse_query, path_segments, percent_decode, split_forwarded_for, split_host_port};
use courses::json_doc::JsonValue;
use serde_json::Value;

fn header(name: &str, value: &str) -> (String, String) {
    (name.to_owned(), value.to_owned())
}

#[test]
fn decodes_percent_escapes_and_plus() {
    assert_eq!(percent_decode("hola+mundo"), "hola mundo");
    assert_eq!(percent_decode("a%20b"), "a b");
    assert_eq!(percent_decode("%C3%B1"), "ñ");
}

#[test]
fn keeps_a_broken_escape_as_written() {
    assert_eq!(percent_decode("100%"), "100%");
    assert_eq!(percent_decode("50%zz"), "50%zz");
}

#[test]
fn replaces_bytes_that_are_not_utf8() {
    assert_eq!(percent_decode("%FF"), "\u{fffd}");
}

#[test]
fn parses_a_query_string() {
    let parsed = parse_query("x=1&y=hola%20mundo");
    assert_eq!(parsed.get("x"), Some(&vec!["1".to_owned()]));
    assert_eq!(parsed.get("y"), Some(&vec!["hola mundo".to_owned()]));
}

#[test]
fn keeps_every_value_of_a_repeated_key() {
    let parsed = parse_query("tag=a&tag=b");
    assert_eq!(
        parsed.get("tag"),
        Some(&vec!["a".to_owned(), "b".to_owned()])
    );
}

#[test]
fn maps_a_key_without_a_value_to_an_empty_string() {
    assert_eq!(parse_query("flag"), parse_query("flag="));
}

#[test]
fn parses_an_empty_query_as_nothing() {
    assert!(parse_query("").is_empty());
    assert!(parse_query("&&").is_empty());
}

#[test]
fn splits_path_segments_and_decodes_them() {
    assert_eq!(path_segments("/echo/a%20b/"), vec!["echo", "a b"]);
    assert_eq!(path_segments("/"), Vec::<String>::new());
}

#[test]
fn groups_repeated_headers_in_arrival_order() {
    let grouped = group_headers(&[
        header("Accept", "text/html"),
        header("accept", "application/json"),
    ]);
    assert_eq!(
        grouped.get("accept"),
        Some(&vec!["text/html".to_owned(), "application/json".to_owned()])
    );
}

#[test]
fn splits_the_forwarded_for_chain() {
    assert_eq!(
        split_forwarded_for(&Some("203.0.113.7, 10.0.1.5".to_owned())),
        Some(vec!["203.0.113.7".to_owned(), "10.0.1.5".to_owned()])
    );
    assert_eq!(split_forwarded_for(&None), None);
    assert_eq!(split_forwarded_for(&Some("  ".to_owned())), None);
}

#[test]
fn matches_a_host_header_ignoring_case_and_port() {
    assert!(host_matches_name(
        "Echo.Example.Com:443",
        "echo.example.com"
    ));
    assert!(!host_matches_name("otro.example.com", "echo.example.com"));
}

#[test]
fn encodes_base64_with_padding() {
    assert_eq!(base64_encode(b""), "");
    assert_eq!(base64_encode(b"f"), "Zg==");
    assert_eq!(base64_encode(b"fo"), "Zm8=");
    assert_eq!(base64_encode(b"foo"), "Zm9v");
    assert_eq!(base64_encode(b"foobar"), "Zm9vYmFy");
}

fn sample() -> (EchoServer, EchoRequest) {
    let server = EchoServer {
        public_name: Some("echo.example.com".to_owned()),
        port: 8080,
        hostname: Some("ip-10-0-1-23".to_owned()),
        ecs: None,
    };
    let request = EchoRequest {
        method: "POST".to_owned(),
        uri: "/echo/a?x=1".to_owned(),
        path: "/echo/a".to_owned(),
        query_string: Some("x=1".to_owned()),
        http_version: "HTTP/1.1".to_owned(),
        headers: vec![
            header("Host", "echo.example.com"),
            header("X-Forwarded-For", "203.0.113.7"),
            header("X-Forwarded-Proto", "https"),
        ],
        body: b"hola".to_vec(),
        peer: Some("10.0.1.5:41234".to_owned()),
        local: Some("10.0.1.23:8080".to_owned()),
        received_at_unix_secs: 1_735_689_600,
        received_at_nanos: 0,
    };
    (server, request)
}

#[test]
fn reports_a_body_by_what_its_bytes_hold() {
    let (_, request) = sample();
    assert_eq!(body_content(&request.body), BodyContent::Text("hola".to_owned()));
    assert_eq!(body_content(b""), BodyContent::Empty);
    assert_eq!(body_content(br#"{"a": [1, 2]}"#), BodyContent::Json(r#"{"a": [1, 2]}"#.to_owned()));
    assert_eq!(body_content(&[0xff, 0x00, 0x41]), BodyContent::Base64("/wBB".to_owned()));
    assert_eq!(body_content(&vec![b'a'; MAX_ECHOED_BODY + 1]), BodyContent::Omitted);
    assert_eq!(body_content(&vec![b'a'; MAX_ECHOED_BODY]), BodyContent::Text("a".repeat(MAX_ECHOED_BODY)));
}

#[test]
fn matches_the_host_header_against_the_public_name() {
    let (server, request) = sample();
    let host = request.headers.iter().find(|(k, _)| k == "Host").map(|(_, v)| v.as_str());
    assert_eq!(public_name_match(server.public_name.as_deref(), host), Some(true));
    assert_eq!(public_name_match(Some(" Echo.Example.com "), Some("ECHO.example.com:443")), Some(true));
    assert_eq!(public_name_match(Some("echo.example.com"), Some("other.example.com")), Some(false));
    assert_eq!(public_name_match(Some("echo.example.com"), None), Some(false));
    assert_eq!(public_name_match(None, host), None);
}

// --- Status code from the query string ---

// --- Networking ---

#[test]
fn splits_an_ipv4_socket_address() {
    assert_eq!(
        split_host_port("10.0.1.5:41234"),
        ("10.0.1.5".to_owned(), Some(41234))
    );
}

#[test]
fn splits_a_bracketed_ipv6_socket_address() {
    assert_eq!(
        split_host_port("[2001:db8::1]:443"),
        ("2001:db8::1".to_owned(), Some(443))
    );
}

#[test]
fn leaves_an_address_without_a_port_whole() {
    assert_eq!(split_host_port("10.0.1.5"), ("10.0.1.5".to_owned(), None));
    assert_eq!(
        split_host_port("2001:db8::1"),
        ("2001:db8::1".to_owned(), None)
    );
}

#[test]
fn takes_the_client_ip_from_the_first_forwarded_hop() {
    let chain = ["203.0.113.7".to_owned(), "10.0.1.5".to_owned()];
    assert_eq!(
        client_ip(Some("10.0.1.5:41234"), Some(&chain)),
        Some("203.0.113.7".to_owned())
    );
}

#[test]
fn falls_back_to_the_peer_when_nothing_was_forwarded() {
    assert_eq!(
        client_ip(Some("203.0.113.7:41234"), None),
        Some("203.0.113.7".to_owned())
    );
    assert_eq!(client_ip(None, None), None);
}

/// Trimmed from the answer of `${ECS_CONTAINER_METADATA_URI_V4}/task` for a
/// Fargate task in `awsvpc` mode.
const TASK_METADATA: &str = r#"{
  "Cluster": "arn:aws:ecs:us-east-1:111122223333:cluster/taller-plataforma",
  "TaskARN": "arn:aws:ecs:us-east-1:111122223333:task/taller-plataforma/158d1c8083dd49d6b527399fd6414f5c",
  "Family": "taller-aws-maria-eco",
  "Revision": "3",
  "AvailabilityZone": "us-east-1b",
  "LaunchType": "FARGATE",
  "Containers": [
    {
      "Name": "app",
      "Networks": [
        {
          "NetworkMode": "awsvpc",
          "IPv4Addresses": ["10.0.2.100"],
          "MACAddress": "0e:9e:32:c7:48:85",
          "IPv4SubnetCIDRBlock": "10.0.2.0/24",
          "DomainNameServers": ["10.0.0.2"],
          "PrivateDNSName": "ip-10-0-2-100.ec2.internal",
          "SubnetGatewayIpv4Address": "10.0.2.1/24"
        }
      ]
    }
  ]
}"#;

#[test]
fn config_trims_the_public_name_and_drops_an_empty_hostname() {
    let config = EchoConfig { port: 8080, public_name: Some("  echo.example.com \n".to_owned()) };
    let server = config.server(Some(String::new()), None);
    assert_eq!(server.public_name.as_deref(), Some("echo.example.com"));
    assert_eq!(server.port, 8080);
    assert_eq!(server.hostname, None);
    let server = EchoConfig { port: 1, public_name: None }.server(Some("ip-10-0-0-1".to_owned()), None);
    assert_eq!(server.public_name, None);
    assert_eq!(server.hostname.as_deref(), Some("ip-10-0-0-1"));
}

#[test]
fn reads_the_ecs_task_metadata() {
    let ecs = parse_ecs_task_metadata(TASK_METADATA).unwrap();
    assert_eq!(ecs.cluster.as_deref(), Some("taller-plataforma"));
    assert_eq!(
        ecs.task_id.as_deref(),
        Some("158d1c8083dd49d6b527399fd6414f5c")
    );
    assert_eq!(ecs.family.as_deref(), Some("taller-aws-maria-eco"));
    assert_eq!(ecs.revision.as_deref(), Some("3"));
    assert_eq!(ecs.availability_zone.as_deref(), Some("us-east-1b"));
    assert_eq!(ecs.launch_type.as_deref(), Some("FARGATE"));
    assert_eq!(ecs.network_mode.as_deref(), Some("awsvpc"));
    assert_eq!(ecs.private_ipv4.as_deref(), Some("10.0.2.100"));
    assert_eq!(
        ecs.private_dns_name.as_deref(),
        Some("ip-10-0-2-100.ec2.internal")
    );
    assert_eq!(ecs.mac_address.as_deref(), Some("0e:9e:32:c7:48:85"));
    assert_eq!(ecs.subnet_cidr.as_deref(), Some("10.0.2.0/24"));
    assert_eq!(ecs.subnet_gateway.as_deref(), Some("10.0.2.1/24"));
    assert_eq!(ecs.dns_servers, vec!["10.0.0.2".to_owned()]);
}

#[test]
fn reads_a_revision_that_arrives_as_a_number() {
    let ecs = parse_ecs_task_metadata(r#"{"Revision": 12}"#).unwrap();
    assert_eq!(ecs.revision.as_deref(), Some("12"));
}

#[test]
fn keeps_every_field_empty_when_the_metadata_says_nothing() {
    assert_eq!(parse_ecs_task_metadata("{}"), Some(EcsNetwork::default()));
}

#[test]
fn refuses_metadata_that_is_not_json() {
    assert_eq!(parse_ecs_task_metadata("<html>404</html>"), None);
}

fn to_serde(value: JsonValue) -> Value {
    match value {
        JsonValue::Null => Value::Null,
        JsonValue::Bool(b) => Value::Bool(b),
        JsonValue::Number(n) => Value::Number(n.parse().unwrap()),
        JsonValue::Text(s) => Value::String(s),
        JsonValue::Array(items) => Value::Array(items.into_iter().map(to_serde).collect()),
        JsonValue::Object(entries) => {
            Value::Object(entries.into_iter().map(|(k, v)| (k, to_serde(v))).collect::<serde_json::Map<String, Value>>())
        }
    }
}

fn j(text: &str) -> Value {
    serde_json::from_str(text).unwrap()
}

#[test]
fn reports_an_empty_body() {
    assert_eq!(to_serde(body_json(b""))["encoding"], j(r#""empty""#));
}

#[test]
fn parses_a_json_body_instead_of_quoting_it() {
    let described = to_serde(body_json(br#"{"a":1}"#));
    assert_eq!(described["encoding"], j(r#""json""#));
    assert_eq!(described["content"], j(r#"{"a": 1}"#));
}

#[test]
fn reports_text_that_is_not_json_as_text() {
    let described = to_serde(body_json(b"hola"));
    assert_eq!(described["encoding"], j(r#""text""#));
    assert_eq!(described["content"], j(r#""hola""#));
    assert_eq!(described["size_bytes"], j("4"));
}

#[test]
fn reports_bytes_that_are_not_text_as_base64() {
    let described = to_serde(body_json(&[0xff, 0xfe]));
    assert_eq!(described["encoding"], j(r#""base64""#));
    assert_eq!(described["content"], j(r#""//4=""#));
}

#[test]
fn reports_an_oversized_body_by_size_only() {
    let big = vec![b'a'; MAX_ECHOED_BODY + 1];
    let described = to_serde(body_json(&big));
    assert_eq!(described["encoding"], j(r#""omitted""#));
    assert_eq!(described["content"], Value::Null);
    assert_eq!(described["size_bytes"], Value::from(MAX_ECHOED_BODY + 1));
    assert_eq!(described["note"], j(r#""body over 65536 bytes is reported by size only""#));
}

#[test]
fn describes_a_whole_request() {
    let (server, request) = sample();
    let answer = to_serde(echo_answer(&server, &request).body);

    assert_eq!(answer["received_at"], j(r#""2025-01-01T00:00:00.000Z""#));
    assert_eq!(answer["request"]["method"], j(r#""POST""#));
    assert_eq!(answer["request"]["path_segments"], j(r#"["echo", "a"]"#));
    assert_eq!(answer["request"]["query"]["x"], j(r#""1""#));
    assert_eq!(answer["request"]["host"], j(r#""echo.example.com""#));
    assert_eq!(answer["request"]["header_count"], j("3"));
    assert_eq!(answer["request"]["headers"]["x-forwarded-proto"], j(r#""https""#));
    assert_eq!(answer["network"]["forwarded_for"], j(r#"["203.0.113.7"]"#));
    assert_eq!(answer["network"]["peer"]["address"], j(r#""10.0.1.5""#));
    assert_eq!(answer["network"]["peer"]["port"], j("41234"));
    assert_eq!(answer["network"]["local"]["address"], j(r#""10.0.1.23""#));
    assert_eq!(answer["network"]["client_ip"], j(r#""203.0.113.7""#));
    assert_eq!(answer["network"]["ecs"], Value::Null);
    assert_eq!(answer["body"]["content"], j(r#""hola""#));
    assert_eq!(answer["server"]["hostname"], j(r#""ip-10-0-1-23""#));
}

#[test]
fn reports_that_the_request_arrived_under_the_configured_name() {
    let (server, request) = sample();
    assert_eq!(to_serde(echo_answer(&server, &request).body)["server"]["matched_public_name"], j("true"));
}

#[test]
fn reports_a_request_that_arrived_by_another_name() {
    let (server, mut request) = sample();
    request.headers = vec![header("Host", "taller-alb-123.elb.amazonaws.com")];
    assert_eq!(to_serde(echo_answer(&server, &request).body)["server"]["matched_public_name"], j("false"));
}

#[test]
fn leaves_the_match_unknown_when_no_name_is_configured() {
    let (mut server, request) = sample();
    server.public_name = None;
    let answer = to_serde(echo_answer(&server, &request).body);
    assert_eq!(answer["server"]["matched_public_name"], Value::Null);
    assert_eq!(answer["server"]["public_name"], Value::Null);
}

#[test]
fn omits_nothing_when_the_request_is_bare() {
    let answer = to_serde(echo_answer(&EchoServer::default(), &EchoRequest::default()).body);
    assert_eq!(answer["request"]["host"], Value::Null);
    assert_eq!(answer["request"]["query"], j("{}"));
    assert_eq!(answer["network"]["forwarded_for"], Value::Null);
    assert_eq!(answer["network"]["peer"], Value::Null);
    assert_eq!(answer["network"]["client_ip"], Value::Null);
    assert_eq!(answer["body"]["encoding"], j(r#""empty""#));
}

#[test]
fn reports_a_requested_status_in_the_answer() {
    let (server, mut request) = sample();
    request.query_string = Some("status=503".to_owned());
    let answer = echo_answer(&server, &request);
    assert_eq!(answer.status, 503);
    let body = to_serde(answer.body);
    assert_eq!(body["response"]["status"], j("503"));
    assert_eq!(body["response"]["source"], j(r#""query""#));
    assert_eq!(body["response"]["requested"], j(r#""503""#));
}

#[test]
fn reports_the_default_status_in_the_answer() {
    let (server, request) = sample();
    let answer = echo_answer(&server, &request);
    assert_eq!(answer.status, DEFAULT_ECHO_STATUS);
    let body = to_serde(answer.body);
    assert_eq!(body["response"]["source"], j(r#""default""#));
    assert_eq!(body["response"]["requested"], Value::Null);
}

#[test]
fn answers_a_broken_status_with_the_default_and_an_explanation() {
    let (server, mut request) = sample();
    request.query_string = Some("status=teapot".to_owned());
    let answer = echo_answer(&server, &request);
    assert_eq!(answer.status, DEFAULT_ECHO_STATUS);
    let body = to_serde(answer.body);
    assert_eq!(body["response"]["requested"], j(r#""teapot""#));
    assert!(body["response"]["error"].as_str().is_some_and(|error| error.contains("status")));
}

#[test]
fn reports_the_task_network_in_the_answer() {
    let (mut server, request) = sample();
    server.ecs = parse_ecs_task_metadata(TASK_METADATA);
    let answer = to_serde(echo_answer(&server, &request).body);
    assert_eq!(answer["network"]["ecs"]["availability_zone"], j(r#""us-east-1b""#));
    assert_eq!(answer["network"]["ecs"]["subnet_cidr"], j(r#""10.0.2.0/24""#));
    assert_eq!(answer["network"]["ecs"]["dns_servers"], j(r#"["10.0.0.2"]"#));
}

#[test]
fn groups_repeated_values_as_arrays_in_the_answer() {
    let (server, mut request) = sample();
    request.query_string = Some("tag=a&tag=b&x=1".to_owned());
    request.headers.push(header("Accept", "text/html"));
    request.headers.push(header("accept", "application/json"));
    let answer = to_serde(echo_answer(&server, &request).body);
    assert_eq!(answer["request"]["query"], j(r#"{"tag": ["a", "b"], "x": "1"}"#));
    assert_eq!(answer["request"]["headers"]["accept"], j(r#"["text/html", "application/json"]"#));
    assert_eq!(answer["request"]["header_count"], j("5"));
    assert_eq!(answer["request"]["query_string"], j(r#""tag=a&tag=b&x=1""#));
    assert_eq!(answer["network"]["forwarded_proto"], j(r#""https""#));
    assert_eq!(answer["network"]["forwarded_port"], Value::Null);
    assert_eq!(answer["network"]["local"], j(r#"{"address": "10.0.1.23", "port": 8080, "socket": "10.0.1.23:8080"}"#));
}

#[test]
fn plain_ascii_decodes_to_itself() {
    for raw in ["a", "hola", "x=1&y", "/echo/a"] {
        assert_eq!(percent_decode(raw), raw);
    }
}
