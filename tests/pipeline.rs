use std::collections::BTreeMap;

use http_test_harness::cookie_store::{join_pairs, path_in_scope, CookieStore, StoredCookie};
use http_test_harness::error::{HarnessError, TransportError};
use http_test_harness::headers::{header_names_match, header_values, Header};
use http_test_harness::request::{Method, TestRequest};
use http_test_harness::response::TestResponse;
use http_test_harness::server::{PreparedRequest, RawResponse, TestServer, TestServerConfig, Transport};
use http_test_harness::status::status_text;

/// A service that answers with whatever the test put in it, and records
/// the last request.
struct Scripted {
    reply: RawResponse,
    last: Option<PreparedRequest>,
}

fn copy_request(r: &PreparedRequest) -> PreparedRequest {
    PreparedRequest {
        method: r.method,
        url: r.url.clone(),
        path: r.path.clone(),
        headers: r.headers.iter().map(|h| Header::new(&h.name, &h.value)).collect(),
        body: r.body.clone(),
    }
}

impl Transport for Scripted {
    fn send(&mut self, request: &PreparedRequest) -> Result<RawResponse, TransportError> {
        self.last = Some(copy_request(request));
        Ok(RawResponse {
            status: self.reply.status,
            headers: self.reply.headers.iter().map(|h| Header::new(&h.name, &h.value)).collect(),
            body: self.reply.body.clone(),
        })
    }
}

fn scripted(headers: Vec<Header>) -> Scripted {
    Scripted { reply: RawResponse { status: 200, headers, body: vec![] }, last: None }
}

fn last_headers(t: &Scripted, name: &str) -> Vec<String> {
    header_values(&t.last.as_ref().unwrap().headers, name)
}

fn response_with(headers: Vec<Header>) -> TestResponse {
    TestResponse::new("GET /".to_string(), "http://localhost/".to_string(), 200, headers, vec![])
}

#[test]
fn json_round_trip() {
    let value: serde_json::Value = serde_json::from_str(r#"{"name":"Joe","age":20,"tags":["a","b"]}"#).unwrap();
    let request = TestRequest::new(Method::Post, "/").json(&value).unwrap();
    let response = TestResponse::new("POST /".to_string(), "u".to_string(), 200, vec![], request.body().clone());
    assert_eq!(response.json::<serde_json::Value>().unwrap(), value);
}

#[test]
fn yaml_round_trip() {
    let mut value = BTreeMap::new();
    value.insert("name".to_string(), "Joe".to_string());
    value.insert("city".to_string(), "Oslo".to_string());
    let request = TestRequest::new(Method::Post, "/").yaml(&value).unwrap();
    let response = TestResponse::new("POST /".to_string(), "u".to_string(), 200, vec![], request.body().clone());
    assert_eq!(response.yaml::<BTreeMap<String, String>>().unwrap(), value);
}

#[test]
fn form_round_trip() {
    let value = vec![("name".to_string(), "Joe Bloggs".to_string()), ("age".to_string(), "20&up".to_string())];
    let request = TestRequest::new(Method::Post, "/").form(&value).unwrap();
    let response = TestResponse::new("POST /".to_string(), "u".to_string(), 200, vec![], request.body().clone());
    assert_eq!(response.form::<Vec<(String, String)>>().unwrap(), value);
}

#[test]
fn encoder_errors_are_reported() {
    let mut bad = BTreeMap::new();
    bad.insert(vec![1u8], 1u8);
    assert!(matches!(
        TestRequest::new(Method::Post, "/").json(&bad),
        Err(HarnessError::Encode { .. })
    ));
}

#[test]
fn content_type_precedence() {
    let config = TestServerConfig { default_content_type: Some("application/default".to_string()), ..TestServerConfig::default() };
    let mut server = TestServer::new_with_config(scripted(vec![]), config);
    let plain = server.get("/");
    let explicit = server.get("/").text("x").content_type("application/explicit");
    let encoded = server.get("/").json(&1u8).unwrap();
    let prepared_plain = server.prepare(&plain).unwrap();
    assert_eq!(header_values(&prepared_plain.headers, "content-type"), vec!["application/default".to_string()]);
    let prepared_explicit = server.prepare(&explicit).unwrap();
    assert_eq!(header_values(&prepared_explicit.headers, "content-type"), vec!["application/explicit".to_string()]);
    let prepared_encoded = server.prepare(&encoded).unwrap();
    assert_eq!(header_values(&prepared_encoded.headers, "content-type"), vec!["application/json".to_string()]);
    server.dispatch(plain).unwrap();
    assert_eq!(last_headers(server.transport(), "content-type"), vec!["application/default".to_string()]);
    assert!(last_headers(server.transport(), "cookie").is_empty());
}

#[test]
fn saved_cookies_are_sent_in_insertion_order() {
    let headers = vec![
        Header::new("Set-Cookie", "a=1"),
        Header::new("x-other", "ignored"),
        Header::new("set-cookie", "b=2; Path=/"),
    ];
    let mut server = TestServer::new_with_config(scripted(headers), TestServerConfig { save_cookies: true, ..TestServerConfig::default() });
    let first = server.get("/login");
    server.dispatch(first).unwrap();
    let second = server.get("/home").clear_cookies().add_cookie(StoredCookie::new("c", "3"));
    let third = server.get("/home");
    server.dispatch(second).unwrap();
    assert_eq!(last_headers(server.transport(), "cookie"), vec!["c=3".to_string()]);
    assert_eq!(server.cookies().len(), 2);
    server.dispatch(third).unwrap();
    assert_eq!(last_headers(server.transport(), "cookie"), vec!["a=1; b=2".to_string()]);
    assert_eq!(join_pairs(server.cookies().entries()), "a=1; b=2");
}

#[test]
fn expired_cookie_removes_entry() {
    let mut store = CookieStore::new();
    store.add(StoredCookie::new("a", "1"));
    store.add(StoredCookie::new("b", "2"));
    store.merge_response_headers(&vec![Header::new("set-cookie", "a=gone; Max-Age=0")], 1_000);
    assert_eq!(join_pairs(store.entries()), "b=2");
    store.merge_response_headers(&vec![Header::new("set-cookie", "b=old; Expires=Wed, 21 Oct 2015 07:28:00 GMT")], 1_700_000_000);
    assert_eq!(store.len(), 0);
}

#[test]
fn cookie_replaced_by_name_and_path() {
    let mut store = CookieStore::new();
    store.add(StoredCookie::new("a", "1"));
    store.add(StoredCookie::with_path("a", "2", "/admin"));
    store.add(StoredCookie::new("a", "3"));
    assert_eq!(store.len(), 2);
    assert_eq!(store.request_header("/"), Some("a=3".to_string()));
    assert_eq!(store.request_header("/admin/users"), Some("a=3; a=2".to_string()));
    assert_eq!(store.request_header("/administrator"), Some("a=3".to_string()));
}

#[test]
fn empty_store_sends_no_cookie_header() {
    let store = CookieStore::new();
    assert_eq!(store.request_header("/"), None);
}

#[test]
fn path_scope_rules() {
    assert!(path_in_scope("/", "/anything"));
    assert!(path_in_scope("/a", "/a"));
    assert!(path_in_scope("/a", "/a/b"));
    assert!(!path_in_scope("/a", "/ab"));
    assert!(path_in_scope("/a/", "/a/b"));
    assert!(!path_in_scope("/a/b", "/a"));
}

#[test]
fn header_names_ignore_ascii_case() {
    assert!(header_names_match("Set-Cookie", "set-cookie"));
    assert!(!header_names_match("Set-Cookie", "set-cookies"));
    let headers = vec![Header::new("X-A", "1"), Header::new("x-b", "2"), Header::new("x-a", "3")];
    assert_eq!(header_values(&headers, "x-a"), vec!["1".to_string(), "3".to_string()]);
    let response = response_with(headers);
    assert_eq!(response.iter_headers_by_name("X-A"), vec!["1".to_string(), "3".to_string()]);
    assert_eq!(response.iter_headers().len(), 3);
    assert_eq!(response.headers().len(), 3);
}

#[test]
fn response_cookies_are_parsed() {
    let response = response_with(vec![
        Header::new("set-cookie", "a=1; Path=/x; Max-Age=60"),
        Header::new("set-cookie", "b=2"),
        Header::new("set-cookie", "a=9"),
    ]);
    let cookies = response.iter_cookies().unwrap();
    assert_eq!(cookies.len(), 3);
    assert_eq!(cookies[0].path.as_deref(), Some("/x"));
    assert_eq!(cookies[0].max_age, Some(60));
    let a = response.cookie("a").unwrap();
    assert_eq!(a.value, "1");
    assert!(response.maybe_cookie("zzz").unwrap().is_none());
    assert!(matches!(response.cookie("zzz"), Err(HarnessError::MissingCookie { .. })));
    let jar = response.cookies().unwrap();
    assert_eq!(jar.iter().count(), 2);
    assert_eq!(jar.get("a").map(|c| c.value()), Some("9"));
    assert_eq!(jar.get("b").map(|c| c.value()), Some("2"));
}

#[test]
fn invalid_set_cookie_is_an_error() {
    let response = response_with(vec![Header::new("set-cookie", "no-equals-sign")]);
    assert!(matches!(response.iter_cookies(), Err(HarnessError::InvalidCookie { .. })));
}

#[test]
fn invalid_base_url_is_an_error() {
    let config = TestServerConfig { base_url: Some("not a url".to_string()), ..TestServerConfig::default() };
    let mut server = TestServer::new_with_config(scripted(vec![]), config);
    let request = server.get("/x");
    assert!(matches!(server.dispatch(request), Err(HarnessError::InvalidUrl { .. })));
}

#[test]
fn base_url_and_query_resolve() {
    let config = TestServerConfig { base_url: Some("http://example.test:8080/api/".to_string()), ..TestServerConfig::default() };
    let server = TestServer::new_with_config(scripted(vec![]), config);
    let prepared = server.prepare(&server.get("users?id=1")).unwrap();
    assert_eq!(prepared.url, "http://example.test:8080/api/users?id=1");
    assert_eq!(prepared.path, "/api/users");
}

#[test]
fn decimal_status_text() {
    assert_eq!(status_text(0), "0");
    assert_eq!(status_text(404), "404");
    assert_eq!(status_text(65535), "65535");
}

#[test]
fn response_cookie_jar_keeps_last_per_name() {
    let response = response_with(vec![
        Header::new("set-cookie", "a=1; Path=/x"),
        Header::new("set-cookie", "a=2; Path=/y"),
        Header::new("set-cookie", "a=3; Path=/x"),
    ]);
    let jar = response.cookies().unwrap();
    assert_eq!(jar.iter().count(), 1);
    assert_eq!(jar.get("a").map(|c| c.value()), Some("3"));
    assert!(matches!(
        response_with(vec![Header::new("set-cookie", "bad")]).cookies(),
        Err(HarnessError::InvalidCookie { .. })
    ));
}

#[test]
fn missing_cookie_names_cookie_and_request() {
    let response = response_with(vec![]);
    match response.cookie("zzz") {
        Err(HarnessError::MissingCookie { name, request }) => {
            assert_eq!(name, "zzz");
            assert_eq!(request, "GET /");
        }
        other => panic!("expected a missing cookie, got {other:?}"),
    }
}
