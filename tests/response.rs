use std::collections::BTreeMap;

use http_test_harness::body::BodyFormat;
use http_test_harness::error::{HarnessError, TransportError};
use http_test_harness::headers::Header;
use http_test_harness::response::TestResponse;
use http_test_harness::server::{PreparedRequest, RawResponse, TestServer, Transport};

/// A service called in process, answering a fixed body per path.
struct FixedService;

fn reply(status: u16, content_type: &str, body: &str) -> RawResponse {
    RawResponse {
        status,
        headers: vec![Header::new("content-type", content_type)],
        body: body.as_bytes().to_vec(),
    }
}

impl Transport for FixedService {
    fn send(&mut self, request: &PreparedRequest) -> Result<RawResponse, TransportError> {
        Ok(match request.path.as_str() {
            "/pass" | "/ok" => reply(200, "text/plain", ""),
            "/fail" => reply(503, "text/plain", ""),
            "/json" => reply(200, "application/json", r#"{"name":"Joe","age":20}"#),
            "/yaml" => reply(200, "application/yaml", "name: Joe\nage: 20\n"),
            "/form" => reply(200, "application/x-www-form-urlencoded", "name=Joe&age=20"),
            "/text" => reply(200, "text/plain", "hello!"),
            "/message" => reply(200, "application/json", r#"{"message":"it works?"}"#),
            "/odd" => reply(42, "text/plain", ""),
            "/down" => return Err(TransportError::Connection("refused".to_string())),
            _ => reply(404, "text/plain", ""),
        })
    }
}

fn fetch(path: &str) -> TestResponse {
    let mut server = TestServer::new(FixedService);
    let request = server.get(path);
    server.dispatch(request).expect("dispatch")
}

fn fetch_expecting_failure(path: &str) -> TestResponse {
    let mut server = TestServer::new(FixedService);
    let request = server.get(path).expect_failure();
    server.dispatch(request).expect("dispatch")
}

fn joe_json() -> serde_json::Value {
    serde_json::from_str(r#"{"name":"Joe","age":20}"#).unwrap()
}

fn julia_json() -> serde_json::Value {
    serde_json::from_str(r#"{"name":"Julia","age":25}"#).unwrap()
}

#[test]
fn it_should_pass_when_200() {
    fetch("/pass").assert_status_success().unwrap();
}

#[test]
#[should_panic]
fn it_should_panic_when_not_200() {
    fetch_expecting_failure("/fail").assert_status_success().unwrap();
}

#[test]
fn it_should_pass_when_not_200() {
    fetch_expecting_failure("/fail").assert_status_failure().unwrap();
}

#[test]
#[should_panic]
fn it_should_panic_when_200() {
    fetch("/pass").assert_status_failure().unwrap();
}

#[test]
fn it_should_pass_if_given_right_status_code() {
    fetch("/ok").assert_status(200).unwrap();
}

#[test]
#[should_panic]
fn it_should_panic_when_status_code_does_not_match() {
    fetch("/ok").assert_status(202).unwrap();
}

#[test]
fn it_should_pass_if_status_code_does_not_match() {
    fetch("/ok").assert_not_status(202).unwrap();
}

#[test]
#[should_panic]
fn it_should_panic_if_status_code_matches() {
    fetch("/ok").assert_not_status(200).unwrap();
}

#[test]
fn test_response_it_should_deserialize_into_json() {
    let bytes = fetch("/message").into_bytes();
    let text = String::from_utf8_lossy(&bytes);
    assert_eq!(text, r#"{"message":"it works?"}"#);
}

#[test]
fn it_should_deserialize_into_json() {
    let response = fetch("/json").json::<serde_json::Value>().unwrap();
    assert_eq!(response, joe_json());
}

#[test]
fn it_should_deserialize_into_yaml() {
    let response = fetch("/yaml").yaml::<BTreeMap<String, serde_yaml::Value>>().unwrap();
    assert_eq!(response.get("name"), Some(&serde_yaml::Value::from("Joe")));
    assert_eq!(response.get("age"), Some(&serde_yaml::Value::from(20)));
}

#[test]
fn it_should_deserialize_into_form() {
    let response = fetch("/form").form::<BTreeMap<String, String>>().unwrap();
    assert_eq!(response.get("name").map(String::as_str), Some("Joe"));
    assert_eq!(response.get("age").map(String::as_str), Some("20"));
}

#[test]
fn it_should_match_json_returned() {
    fetch("/json").assert_json(&joe_json()).unwrap();
}

#[test]
#[should_panic]
fn test_response_it_should_panic_if_response_is_different() {
    fetch("/json").assert_json(&julia_json()).unwrap();
}

#[test]
#[should_panic]
fn test_response_it_should_panic_if_response_is_form() {
    fetch("/form").assert_json(&joe_json()).unwrap();
}

#[test]
fn it_should_match_yaml_returned() {
    let expected: serde_yaml::Value = serde_yaml::from_str("name: Joe\nage: 20\n").unwrap();
    fetch("/yaml").assert_yaml(&expected).unwrap();
}

#[test]
fn yaml_assertion_fails_on_different_value() {
    let expected: serde_yaml::Value = serde_yaml::from_str("name: Julia\nage: 25\n").unwrap();
    assert!(matches!(fetch("/yaml").assert_yaml(&expected), Err(HarnessError::Assertion { .. })));
}

#[test]
fn yaml_assertion_fails_on_form_body() {
    let expected: serde_yaml::Value = serde_yaml::from_str("name: Joe\nage: 20\n").unwrap();
    assert!(fetch("/form").assert_yaml(&expected).is_err());
}

#[test]
fn it_should_match_form_returned() {
    let expected = vec![("name".to_string(), "Joe".to_string()), ("age".to_string(), "20".to_string())];
    fetch("/form").assert_form(&expected).unwrap();
}

#[test]
fn form_assertion_fails_on_different_value() {
    let expected = vec![("name".to_string(), "Julia".to_string()), ("age".to_string(), "25".to_string())];
    assert!(matches!(fetch("/form").assert_form(&expected), Err(HarnessError::Assertion { .. })));
}

#[test]
#[should_panic]
fn it_should_panic_if_response_is_json() {
    let expected = vec![("name".to_string(), "Joe".to_string()), ("age".to_string(), "20".to_string())];
    fetch("/json").assert_form(&expected).unwrap();
}

#[test]
fn it_should_deserialize_into_text() {
    let response = fetch("/text").text();
    assert_eq!(response, "hello!");
}

#[test]
fn unexpected_status_fails_fast() {
    let mut server = TestServer::new(FixedService);
    let request = server.get("/fail");
    match server.dispatch(request) {
        Err(HarnessError::UnexpectedStatus { status, request }) => {
            assert_eq!(status, 503);
            assert_eq!(request, "GET /fail");
        }
        other => panic!("expected a fail-fast error, got {other:?}"),
    }
}

#[test]
fn transport_error_is_reported() {
    let mut server = TestServer::new(FixedService);
    let request = server.get("/down");
    assert!(matches!(
        server.dispatch(request),
        Err(HarnessError::Transport(TransportError::Connection(_)))
    ));
}

#[test]
fn status_outside_three_digits_is_a_protocol_error() {
    let mut server = TestServer::new(FixedService);
    let request = server.get("/odd").expect_failure();
    assert!(matches!(
        server.dispatch(request),
        Err(HarnessError::Transport(TransportError::Protocol(_)))
    ));
}

#[test]
fn decode_error_names_format_and_request() {
    match fetch("/text").json::<serde_json::Value>() {
        Err(HarnessError::Decode { format, request, message }) => {
            assert_eq!(format, BodyFormat::Json);
            assert_eq!(request, "GET /text");
            assert!(message.ends_with("; body begins: hello!"), "{message}");
        }
        other => panic!("expected a decode error, got {other:?}"),
    }
}

#[test]
fn request_url_is_resolved_against_base() {
    let response = fetch("/text");
    assert_eq!(response.request_url(), "http://localhost/text");
    assert_eq!(response.maybe_header("Content-Type"), Some("text/plain".to_string()));
    assert!(matches!(response.header("x-missing"), Err(HarnessError::MissingHeader { .. })));
}

#[test]
fn status_messages_carry_decimal_codes() {
    match fetch_expecting_failure("/fail").assert_status_ok() {
        Err(HarnessError::Assertion { expected, received, request }) => {
            assert_eq!(expected, "200");
            assert_eq!(received, "503");
            assert_eq!(request, "GET /fail");
        }
        other => panic!("expected an assertion error, got {other:?}"),
    }
}

#[test]
fn named_status_assertions() {
    let not_found = fetch_expecting_failure("/nowhere");
    not_found.assert_status_not_found().unwrap();
    not_found.assert_status_not_ok().unwrap();
    assert!(not_found.assert_status_bad_request().is_err());
    assert!(not_found.assert_status_unauthorized().is_err());
    assert!(not_found.assert_status_forbidden().is_err());
    fetch("/ok").assert_status_ok().unwrap();
}

#[test]
fn status_range_boundaries() {
    for (code, success) in [(199u16, false), (200, true), (299, true), (300, false), (100, false), (999, false)] {
        let response = TestResponse::new("GET /".to_string(), "http://localhost/".to_string(), code, vec![], vec![]);
        assert_eq!(response.assert_status_success().is_ok(), success);
        assert_eq!(response.assert_status_failure().is_ok(), !success);
    }
}

#[test]
fn text_replaces_invalid_utf8() {
    let response = TestResponse::new("GET /".to_string(), "http://localhost/".to_string(), 200, vec![], vec![b'a', 0xff, b'b']);
    assert_eq!(response.text(), "a\u{fffd}b");
    assert!(response.assert_text("a\u{fffd}b").is_ok());
    assert!(matches!(response.assert_text("ab"), Err(HarnessError::Assertion { .. })));
}
