use http_test_harness::error::{HarnessError, TransportError};
use http_test_harness::headers::{header_values, Header};
use http_test_harness::request::Method;
use http_test_harness::server::{PreparedRequest, RawResponse, TestServer, Transport};
use http_test_harness::wire::{
    encode_request, encode_response, parse_request, parse_response, relay_request, relay_response,
};

/// A service that echoes the method, the path and the body.
struct Echo;

impl Transport for Echo {
    fn send(&mut self, request: &PreparedRequest) -> Result<RawResponse, TransportError> {
        let mut body = format!("{} {} ", request.method.as_str(), request.path).into_bytes();
        body.extend_from_slice(&request.body);
        Ok(RawResponse {
            status: if request.path == "/missing" { 404 } else { 201 },
            headers: vec![Header::new("x-echo", "yes"), Header::new("set-cookie", "seen=1")],
            body,
        })
    }
}

/// The same service reached through the live socket's framing, without the
/// socket: the request and the response each go to bytes and back.
struct Framed<S>(S);

impl<S: Transport> Transport for Framed<S> {
    fn send(&mut self, request: &PreparedRequest) -> Result<RawResponse, TransportError> {
        let received = parse_request(&encode_request(request))?;
        let response = self.0.send(&received)?;
        parse_response(&encode_response(&response))
    }
}

#[test]
fn direct_and_framed_transports_agree() {
    let mut direct = TestServer::new(Echo);
    let mut framed = TestServer::new(Framed(Echo));
    for (method, path, body) in [(Method::Post, "/items?x=1", "payload \r\n bytes"), (Method::Get, "/", ""), (Method::Delete, "/a/b", "z")] {
        let a = direct.dispatch(direct.request(method, path).text(body)).unwrap();
        let b = framed.dispatch(framed.request(method, path).text(body)).unwrap();
        assert_eq!(a.status_code(), b.status_code());
        assert_eq!(a.as_bytes(), b.as_bytes());
        assert_eq!(a.iter_headers_by_name("x-echo"), b.iter_headers_by_name("x-echo"));
    }
    let a = direct.dispatch(direct.get("/missing").expect_failure()).unwrap();
    let b = framed.dispatch(framed.get("/missing").expect_failure()).unwrap();
    assert_eq!((a.status_code(), a.text()), (b.status_code(), b.text()));
}

#[test]
fn response_wire_form() {
    let r = RawResponse { status: 200, headers: vec![Header::new("x-a", "1")], body: b"hi".to_vec() };
    assert_eq!(encode_response(&r), b"HTTP/1.1 200 \r\nx-a: 1\r\ncontent-length: 2\r\n\r\nhi".to_vec());
}

#[test]
fn request_wire_form() {
    let p = PreparedRequest {
        method: Method::Put,
        url: "http://localhost/x".to_string(),
        path: "/x".to_string(),
        headers: vec![Header::new("cookie", "a=1")],
        body: b"{}".to_vec(),
    };
    assert_eq!(
        encode_request(&p),
        b"PUT http://localhost/x HTTP/1.1\r\ncookie: a=1\r\ncontent-length: 2\r\n\r\n{}".to_vec()
    );
}

#[test]
fn relayed_response_keeps_status_and_body() {
    let r = RawResponse { status: 503, headers: vec![Header::new("Retry-After", "5")], body: vec![0, 159, 146, 150] };
    let back = relay_response(&r).unwrap();
    assert_eq!(back.status, 503);
    assert_eq!(back.body, r.body);
    assert_eq!(header_values(&back.headers, "retry-after"), vec!["5".to_string()]);
    assert_eq!(header_values(&back.headers, "content-length"), vec!["4".to_string()]);
}

#[test]
fn relayed_request_keeps_its_parts() {
    let p = PreparedRequest {
        method: Method::Patch,
        url: "http://localhost/a/b?q=1".to_string(),
        path: "/a/b".to_string(),
        headers: vec![Header::new("content-type", "text/plain")],
        body: b"body".to_vec(),
    };
    let q = relay_request(&p).unwrap();
    assert_eq!(q.method, Method::Patch);
    assert_eq!(q.url, p.url);
    assert_eq!(q.path, "/a/b");
    assert_eq!(q.body, p.body);
}

#[test]
fn parse_response_reads_reason_phrase_and_spaces() {
    let bytes = b"HTTP/1.1 404 Not Found\r\nContent-Type:  text/plain\r\nContent-Length: 3\r\n\r\nabcEXTRA".to_vec();
    let r = parse_response(&bytes).unwrap();
    assert_eq!(r.status, 404);
    assert_eq!(r.body, b"abc".to_vec());
    assert_eq!(header_values(&r.headers, "content-type"), vec!["text/plain".to_string()]);
}

#[test]
fn parse_response_without_length_takes_the_rest() {
    let r = parse_response(&b"HTTP/1.1 200 OK\r\n\r\nall of it".to_vec()).unwrap();
    assert_eq!(r.body, b"all of it".to_vec());
}

#[test]
fn malformed_responses_are_protocol_errors() {
    for bytes in [
        &b"HTTP/1.0 200 \r\n\r\n"[..],
        b"HTTP/1.1 20x \r\n\r\n",
        b"HTTP/1.1 099 \r\n\r\n",
        b"HTTP/1.1 200 \r\nno colon\r\n\r\n",
        b"HTTP/1.1 200 \r\ncontent-length: 10\r\n\r\nshort",
        b"HTTP/1.1 200 \r\ncontent-length: x\r\n\r\n",
        b"HTTP/1.1 200 \r\nx: 1\r\n",
        b"short",
    ] {
        assert!(matches!(parse_response(&bytes.to_vec()), Err(TransportError::Protocol(_))), "{bytes:?}");
    }
}

#[test]
fn malformed_requests_are_protocol_errors() {
    for bytes in [
        &b"BREW http://localhost/ HTTP/1.1\r\n\r\n"[..],
        b"GET http://localhost/ HTTP/1.0\r\n\r\n",
        b"GET\r\n\r\n",
        b"GET not-a-url HTTP/1.1\r\n\r\n",
    ] {
        assert!(matches!(parse_request(&bytes.to_vec()), Err(TransportError::Protocol(_))), "{bytes:?}");
    }
}

/// A service that always fails.
struct Broken;

impl Transport for Broken {
    fn send(&mut self, _: &PreparedRequest) -> Result<RawResponse, TransportError> {
        Err(TransportError::Service("boom".to_string()))
    }
}

#[test]
fn framed_transport_failure_surfaces() {
    let mut server = TestServer::new(Framed(Broken));
    let request = server.get("/");
    assert!(matches!(
        server.dispatch(request),
        Err(HarnessError::Transport(TransportError::Service(_)))
    ));
}

#[test]
fn chunked_response_body_is_joined() {
    let bytes = b"HTTP/1.1 200 OK\r\nTransfer-Encoding: chunked\r\n\r\n5;ext=1\r\nhello\r\nA\r\n, world!!!\r\n0\r\nx-trailer: t\r\n\r\n".to_vec();
    let r = parse_response(&bytes).unwrap();
    assert_eq!(r.body, b"hello, world!!!".to_vec());
}

#[test]
fn malformed_chunks_are_protocol_errors() {
    for bytes in [
        &b"HTTP/1.1 200 \r\ntransfer-encoding: chunked\r\n\r\nzz\r\nab\r\n0\r\n\r\n"[..],
        b"HTTP/1.1 200 \r\ntransfer-encoding: chunked\r\n\r\n5\r\nab\r\n0\r\n\r\n",
        b"HTTP/1.1 200 \r\ntransfer-encoding: chunked\r\n\r\n2\r\nabX\r\n0\r\n\r\n",
        b"HTTP/1.1 200 \r\ntransfer-encoding: chunked\r\n\r\n2\r\nab\r\n",
    ] {
        assert!(matches!(parse_response(&bytes.to_vec()), Err(TransportError::Protocol(_))), "{bytes:?}");
    }
}

#[test]
fn content_length_takes_precedence_over_chunked() {
    let bytes = b"HTTP/1.1 200 \r\ntransfer-encoding: chunked\r\ncontent-length: 2\r\n\r\nok".to_vec();
    assert_eq!(parse_response(&bytes).unwrap().body, b"ok".to_vec());
}
