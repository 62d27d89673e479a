//! The request builder: everything one request will carry, accumulated
//! before it is dispatched once.
use vstd::prelude::*;
use vstd::string::StringSliceAdditionalSpecFns;

use crate::body::{encode_body, format_content_type, BodyFormat};
use crate::cookie_store::{upsert, CookieSpec, CookieStore, StoredCookie};
use crate::error::HarnessError;
use crate::headers::{Header, HeaderSpec};

verus! {

/// The request methods the harness issues.
#[derive(Clone, Copy, Debug, PartialEq, Eq, Structural)]
pub enum Method {
    Get,
    Post,
    Put,
    Patch,
    Delete,
}

pub open spec fn method_name(m: Method) -> Seq<char> {
    match m {
        Method::Get => "GET"@,
        Method::Post => "POST"@,
        Method::Put => "PUT"@,
        Method::Patch => "PATCH"@,
        Method::Delete => "DELETE"@,
    }
}

impl Method {
    pub fn as_str(&self) -> (r: &'static str)
        ensures
            r@ == method_name(*self),
    {
        match self {
            Method::Get => "GET",
            Method::Post => "POST",
            Method::Put => "PUT",
            Method::Patch => "PATCH",
            Method::Delete => "DELETE",
        }
    }
}

/// The mathematical value of a request under construction.
pub struct RequestModel {
    pub method: Method,
    pub path: Seq<char>,
    pub headers: Seq<HeaderSpec>,
    pub body: Seq<u8>,
    /// The content type set on the request itself.
    pub content_type: Option<Seq<char>>,
    /// The content type that the body's encoder suggests.
    pub body_type: Option<Seq<char>>,
    /// The cookies this request carries.
    pub cookies: Seq<CookieSpec>,
    /// Whether to save the response's cookies; `None` defers to the harness.
    pub save_cookies: Option<bool>,
    pub expect_failure: bool,
}

/// A request under construction. It is dispatched at most once, by the
/// harness that made it, which takes it by value.
#[derive(Clone, Debug)]
pub struct TestRequest {
    pub(crate) method: Method,
    pub(crate) path: String,
    pub(crate) headers: Vec<Header>,
    pub(crate) body: Vec<u8>,
    pub(crate) content_type: Option<String>,
    pub(crate) body_type: Option<String>,
    pub(crate) cookies: CookieStore,
    pub(crate) save_cookies: Option<bool>,
    pub(crate) expect_failure: bool,
}

pub open spec fn opt_view(o: Option<String>) -> Option<Seq<char>> {
    match o {
        Some(s) => Some(s@),
        None => None,
    }
}

impl View for TestRequest {
    type V = RequestModel;

    closed spec fn view(&self) -> RequestModel {
        RequestModel {
            method: self.method,
            path: self.path@,
            headers: crate::headers::headers_view(self.headers@),
            body: self.body@,
            content_type: opt_view(self.content_type),
            body_type: opt_view(self.body_type),
            cookies: self.cookies@,
            save_cookies: self.save_cookies,
            expect_failure: self.expect_failure,
        }
    }
}

impl TestRequest {
    pub closed spec fn wf(&self) -> bool {
        self.cookies.wf()
    }

    /// A request that starts out carrying the cookies of `cookies`.
    pub fn with_cookies(method: Method, path: &str, cookies: CookieStore) -> (r: TestRequest)
        requires
            cookies.wf(),
        ensures
            r.wf(),
            r@ == (RequestModel {
                method,
                path: path@,
                headers: Seq::empty(),
                body: Seq::empty(),
                content_type: None,
                body_type: None,
                cookies: cookies@,
                save_cookies: None,
                expect_failure: false,
            }),
    {
        let r = TestRequest {
            method,
            path: path.to_owned(),
            headers: Vec::new(),
            body: Vec::new(),
            content_type: None,
            body_type: None,
            cookies,
            save_cookies: None,
            expect_failure: false,
        };
        assert(r@.headers =~= Seq::<HeaderSpec>::empty());
        r
    }

    /// A request without cookies.
    pub fn new(method: Method, path: &str) -> (r: TestRequest)
        ensures
            r.wf(),
            r@ == (RequestModel {
                method,
                path: path@,
                headers: Seq::empty(),
                body: Seq::empty(),
                content_type: None,
                body_type: None,
                cookies: Seq::empty(),
                save_cookies: None,
                expect_failure: false,
            }),
    {
        TestRequest::with_cookies(method, path, CookieStore::new())
    }

    pub fn method(&self) -> (r: Method)
        ensures
            r == self@.method,
    {
        self.method
    }

    pub fn path(&self) -> (r: &str)
        ensures
            r@ == self@.path,
    {
        self.path.as_str()
    }

    /// Appends a header; headers of the same name may repeat.
    pub fn add_header(self, name: &str, value: &str) -> (r: TestRequest)
        requires
            self.wf(),
        ensures
            r.wf(),
            r@ == (RequestModel {
                headers: self@.headers.push(HeaderSpec { name: name@, value: value@ }),
                ..self@
            }),
    {
        let mut r = self;
        r.headers.push(Header { name: name.to_owned(), value: value.to_owned() });
        assert(r@.headers =~= self@.headers.push(HeaderSpec { name: name@, value: value@ }));
        r
    }

    /// Sets the content type, which takes precedence over any other.
    pub fn content_type(self, content_type: &str) -> (r: TestRequest)
        requires
            self.wf(),
        ensures
            r.wf(),
            r@ == (RequestModel { content_type: Some(content_type@), ..self@ }),
    {
        let mut r = self;
        r.content_type = Some(content_type.to_owned());
        r
    }

    /// Sends the text as the body, suggesting `text/plain`.
    pub fn text(self, text: &str) -> (r: TestRequest)
        requires
            self.wf(),
        ensures
            r.wf(),
            r@ == (RequestModel {
                body: text.spec_bytes(),
                body_type: Some(format_content_type(BodyFormat::Text)),
                ..self@
            }),
    {
        let mut r = self;
        r.body = vstd::slice::slice_to_vec(text.as_bytes());
        r.body_type = Some(BodyFormat::Text.content_type().to_owned());
        r
    }

    /// Sends the bytes as the body, with no suggested content type.
    pub fn bytes(self, body: Vec<u8>) -> (r: TestRequest)
        requires
            self.wf(),
        ensures
            r.wf(),
            r@ == (RequestModel { body: body@, body_type: None, ..self@ }),
    {
        let mut r = self;
        r.body = body;
        r.body_type = None;
        r
    }

    fn encoded<T: serde::Serialize>(self, format: BodyFormat, value: &T) -> (r: Result<
        TestRequest,
        HarnessError,
    >)
        requires
            self.wf(),
            format != BodyFormat::Text,
        ensures
            match r {
                Ok(q) => q.wf() && q@ == (RequestModel {
                        body: q@.body,
                        body_type: Some(format_content_type(format)),
                        ..self@
                }),
                Err(e) => e matches HarnessError::Encode { format: f, .. } && f == format,
            },
    {
        match encode_body(format, value) {
            Ok(bytes) => {
                let mut r = self;
                r.body = bytes;
                r.body_type = Some(format.content_type().to_owned());
                Ok(r)
            },
            Err(message) => Err(HarnessError::Encode { format, message }),
        }
    }

    /// Sends the value encoded as JSON, suggesting `application/json`.
    pub fn json<T: serde::Serialize>(self, value: &T) -> (r: Result<TestRequest, HarnessError>)
        requires
            self.wf(),
        ensures
            match r {
                Ok(q) => q.wf() && q@ == (RequestModel {
                        body: q@.body,
                        body_type: Some(format_content_type(BodyFormat::Json)),
                        ..self@
                }),
                Err(e) => e matches HarnessError::Encode { format: BodyFormat::Json, .. },
            },
    {
        self.encoded(BodyFormat::Json, value)
    }

    /// Sends the value encoded as YAML, suggesting `application/yaml`.
    pub fn yaml<T: serde::Serialize>(self, value: &T) -> (r: Result<TestRequest, HarnessError>)
        requires
            self.wf(),
        ensures
            match r {
                Ok(q) => q.wf() && q@ == (RequestModel {
                        body: q@.body,
                        body_type: Some(format_content_type(BodyFormat::Yaml)),
                        ..self@
                }),
                Err(e) => e matches HarnessError::Encode { format: BodyFormat::Yaml, .. },
            },
    {
        self.encoded(BodyFormat::Yaml, value)
    }

    /// Sends the value as a url-encoded form, suggesting
    /// `application/x-www-form-urlencoded`.
    pub fn form<T: serde::Serialize>(self, value: &T) -> (r: Result<TestRequest, HarnessError>)
        requires
            self.wf(),
        ensures
            match r {
                Ok(q) => q.wf() && q@ == (RequestModel {
                        body: q@.body,
                        body_type: Some(format_content_type(BodyFormat::Form)),
                        ..self@
                }),
                Err(e) => e matches HarnessError::Encode { format: BodyFormat::Form, .. },
            },
    {
        self.encoded(BodyFormat::Form, value)
    }

    /// Adds a cookie to this request only, replacing one with the same name
    /// and path.
    pub fn add_cookie(self, cookie: StoredCookie) -> (r: TestRequest)
        requires
            self.wf(),
        ensures
            r.wf(),
            r@ == (RequestModel { cookies: upsert(self@.cookies, cookie@), ..self@ }),
    {
        let mut r = self;
        r.cookies.add(cookie);
        r
    }

    /// Sends no cookies with this request, except those added after.
    pub fn clear_cookies(self) -> (r: TestRequest)
        requires
            self.wf(),
        ensures
            r.wf(),
            r@ == (RequestModel { cookies: Seq::empty(), ..self@ }),
    {
        let mut r = self;
        r.cookies.clear();
        r
    }

    /// Saves the cookies of the response into the harness's store.
    pub fn do_save_cookies(self) -> (r: TestRequest)
        requires
            self.wf(),
        ensures
            r.wf(),
            r@ == (RequestModel { save_cookies: Some(true), ..self@ }),
    {
        let mut r = self;
        r.save_cookies = Some(true);
        r
    }

    /// Leaves the harness's store untouched by the response.
    pub fn do_not_save_cookies(self) -> (r: TestRequest)
        requires
            self.wf(),
        ensures
            r.wf(),
            r@ == (RequestModel { save_cookies: Some(false), ..self@ }),
    {
        let mut r = self;
        r.save_cookies = Some(false);
        r
    }

    /// Marks a status outside the 2xx range as expected.
    pub fn expect_failure(self) -> (r: TestRequest)
        requires
            self.wf(),
        ensures
            r.wf(),
            r@ == (RequestModel { expect_failure: true, ..self@ }),
    {
        let mut r = self;
        r.expect_failure = true;
        r
    }
}

impl TestRequest {
    pub fn headers(&self) -> (r: &Vec<Header>)
        ensures
            crate::headers::headers_view(r@) == self@.headers,
    {
        &self.headers
    }

    pub fn body(&self) -> (r: &Vec<u8>)
        ensures
            r@ == self@.body,
    {
        &self.body
    }

    /// The content type set on the request itself.
    pub fn explicit_content_type(&self) -> (r: &Option<String>)
        ensures
            opt_view(*r) == self@.content_type,
    {
        &self.content_type
    }

    /// The content type that the body's encoder suggests.
    pub fn body_content_type(&self) -> (r: &Option<String>)
        ensures
            opt_view(*r) == self@.body_type,
    {
        &self.body_type
    }

    /// The cookies this request carries.
    pub fn cookies(&self) -> (r: &CookieStore)
        requires
            self.wf(),
        ensures
            r@ == self@.cookies,
            r.wf(),
    {
        &self.cookies
    }

    pub fn saves_cookies(&self) -> (r: Option<bool>)
        ensures
            r == self@.save_cookies,
    {
        self.save_cookies
    }

    pub fn expects_failure(&self) -> (r: bool)
        ensures
            r == self@.expect_failure,
    {
        self.expect_failure
    }
}

} // verus!
