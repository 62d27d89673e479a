use http_test_harness::cookie_store::StoredCookie;
use http_test_harness::error::TransportError;
use http_test_harness::headers::Header;
use http_test_harness::request::Method;
use http_test_harness::server::{PreparedRequest, RawResponse, TestServer, TestServerConfig, Transport};

const TEST_COOKIE_NAME: &str = "test-cookie";

/// A service called in process: `PUT /cookie` stores the body in a cookie,
/// `GET /cookie` echoes that cookie back.
struct CookieService;

fn request_cookie(request: &PreparedRequest, name: &str) -> Option<String> {
    for h in &request.headers {
        if h.name.eq_ignore_ascii_case("cookie") {
            for pair in h.value.split("; ") {
                if let Some((n, v)) = pair.split_once('=') {
                    if n == name {
                        return Some(v.to_string());
                    }
                }
            }
        }
    }
    None
}

impl Transport for CookieService {
    fn send(&mut self, request: &PreparedRequest) -> Result<RawResponse, TransportError> {
        match (request.method, request.path.as_str()) {
            (Method::Put, "/cookie") => {
                let text = String::from_utf8_lossy(&request.body).to_string();
                Ok(RawResponse {
                    status: 200,
                    headers: vec![Header::new("set-cookie", &format!("{TEST_COOKIE_NAME}={text}"))],
                    body: b"done".to_vec(),
                })
            }
            (Method::Get, "/cookie") => {
                let value = request_cookie(request, TEST_COOKIE_NAME)
                    .unwrap_or_else(|| "cookie-not-found".to_string());
                Ok(RawResponse { status: 200, headers: vec![], body: value.into_bytes() })
            }
            _ => Ok(RawResponse { status: 404, headers: vec![], body: vec![] }),
        }
    }
}

fn server_with(save_cookies: bool) -> TestServer<CookieService> {
    TestServer::new_with_config(
        CookieService,
        TestServerConfig { save_cookies, ..TestServerConfig::default() },
    )
}

#[test]
fn it_should_not_pass_cookies_created_back_up_to_server_by_default() {
    let mut server = TestServer::new(CookieService);
    let put = server.put("/cookie").text("new-cookie");
    server.dispatch(put).expect("put");
    let get = server.get("/cookie");
    let response_text = server.dispatch(get).expect("get").text();
    assert_eq!(response_text, "cookie-not-found");
}

#[test]
fn it_should_not_pass_cookies_created_back_up_to_server_when_turned_off() {
    let mut server = server_with(false);
    let put = server.put("/cookie").text("new-cookie");
    server.dispatch(put).expect("put");
    let get = server.get("/cookie");
    let response_text = server.dispatch(get).expect("get").text();
    assert_eq!(response_text, "cookie-not-found");
}

#[test]
fn it_should_pass_cookies_created_back_up_to_server_automatically() {
    let mut server = server_with(true);
    let put = server.put("/cookie").text("cookie-found!");
    server.dispatch(put).expect("put");
    let get = server.get("/cookie");
    let response_text = server.dispatch(get).expect("get").text();
    assert_eq!(response_text, "cookie-found!");
}

#[test]
fn it_should_pass_cookies_created_back_up_to_server_when_turned_on_for_request() {
    let mut server = server_with(false);
    let put = server.put("/cookie").text("cookie-found!").do_save_cookies();
    server.dispatch(put).expect("put");
    let get = server.get("/cookie");
    let response_text = server.dispatch(get).expect("get").text();
    assert_eq!(response_text, "cookie-found!");
}

#[test]
fn it_should_wipe_cookies_cleared_by_request() {
    let mut server = server_with(false);
    let put = server.put("/cookie").text("cookie-found!").do_save_cookies();
    server.dispatch(put).expect("put");
    let get = server.get("/cookie").clear_cookies();
    let response_text = server.dispatch(get).expect("get").text();
    assert_eq!(response_text, "cookie-not-found");
    // The session's store is untouched by the request that cleared its own.
    assert_eq!(server.cookies().len(), 1);
}

#[test]
fn it_should_wipe_cookies_cleared_by_test_server() {
    let mut server = server_with(false);
    let put = server.put("/cookie").text("cookie-found!").do_save_cookies();
    server.dispatch(put).expect("put");
    server.clear_cookies();
    let get = server.get("/cookie");
    let response_text = server.dispatch(get).expect("get").text();
    assert_eq!(response_text, "cookie-not-found");
}

#[test]
fn it_should_send_cookies_added_to_request() {
    let mut server = server_with(false);
    let cookie = StoredCookie::new(TEST_COOKIE_NAME, "my-custom-cookie");
    let get = server.get("/cookie").add_cookie(cookie);
    let response_text = server.dispatch(get).expect("get").text();
    assert_eq!(response_text, "my-custom-cookie");
}

#[test]
fn it_should_send_cookies_added_to_test_server() {
    let mut server = server_with(false);
    let cookie = StoredCookie::new(TEST_COOKIE_NAME, "my-custom-cookie");
    server.add_cookie(cookie);
    let get = server.get("/cookie");
    let response_text = server.dispatch(get).expect("get").text();
    assert_eq!(response_text, "my-custom-cookie");
}

#[test]
fn saved_cookie_round_trip_scenario() {
    let mut server = server_with(true);
    let put = server.put("/cookie").text("hello");
    server.dispatch(put).expect("put");
    let get = server.get("/cookie");
    assert_eq!(server.dispatch(get).expect("get").text(), "hello");
}

#[test]
fn unsaved_cookie_round_trip_scenario() {
    let mut server = server_with(false);
    let put = server.put("/cookie").text("hello");
    server.dispatch(put).expect("put");
    assert_eq!(server.cookies().len(), 0);
    let get = server.get("/cookie");
    assert_eq!(server.dispatch(get).expect("get").text(), "cookie-not-found");
}

#[test]
fn request_made_before_a_save_does_not_see_it() {
    let mut server = server_with(true);
    let early = server.get("/cookie");
    let put = server.put("/cookie").text("later");
    server.dispatch(put).expect("put");
    assert_eq!(server.dispatch(early).expect("get").text(), "cookie-not-found");
}
