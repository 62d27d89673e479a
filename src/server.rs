//! The harness: configuration, the session cookie store and a transport.
//! It makes requests, resolves what each one sends, hands it to the
//! transport and turns what comes back into a captured response.
use vstd::prelude::*;

use crate::cookie_store::{
    cookie_header_for, is_expired, keys_unique, lemma_saved_cookie_is_sent, merge_headers, pairs_text,
    path_matches, scoped, set_cookie_name, set_cookie_parse, stored_from, stored_path, touches, upsert,
    CookieSpec, CookieStore, StoredCookie,
};
use crate::error::{HarnessError, TransportError};
use crate::headers::{headers_view, names_match, Header, HeaderSpec};
use crate::request::{method_name, opt_view, Method, RequestModel, TestRequest};
use crate::response::{ResponseModel, TestResponse};
use crate::status::{is_success, is_valid_status, status_code_accepted, status_is_success};

verus! {

/// How a harness behaves by default.
#[derive(Clone, Debug)]
pub struct TestServerConfig {
    /// Save the cookies of every response into the store, unless a request
    /// says otherwise.
    pub save_cookies: bool,
    /// Fail a dispatch whose status is outside the 2xx range, unless the
    /// request expects failure.
    pub expect_success_by_default: bool,
    /// The content type of requests that set none and carry no encoded body.
    pub default_content_type: Option<String>,
    /// The URL request paths are resolved against.
    pub base_url: Option<String>,
}

impl TestServerConfig {
    /// Cookies are not saved, and a status outside 2xx fails the dispatch.
    pub fn new() -> (r: TestServerConfig)
        ensures
            !r.save_cookies,
            r.expect_success_by_default,
            r.default_content_type is None,
            r.base_url is None,
    {
        TestServerConfig {
            save_cookies: false,
            expect_success_by_default: true,
            default_content_type: None,
            base_url: None,
        }
    }
}

impl Default for TestServerConfig {
    fn default() -> (r: TestServerConfig)
        ensures
            !r.save_cookies,
            r.expect_success_by_default,
            r.default_content_type is None,
            r.base_url is None,
    {
        TestServerConfig::new()
    }
}

/// A request resolved for sending: every header it carries, its body, and
/// the URL it goes to.
#[derive(Clone, Debug)]
pub struct PreparedRequest {
    pub method: Method,
    pub url: String,
    /// The path component of `url`, which scopes cookies.
    pub path: String,
    pub headers: Vec<Header>,
    pub body: Vec<u8>,
}

/// What a transport hands back: status, headers and the whole body.
#[derive(Clone, Debug)]
pub struct RawResponse {
    pub status: u16,
    pub headers: Vec<Header>,
    pub body: Vec<u8>,
}

/// Sends a prepared request to the service and returns its response. A
/// service called in process is one transport; a client of a live socket
/// is another.
pub trait Transport {
    fn send(&mut self, request: &PreparedRequest) -> Result<RawResponse, TransportError>;
}

/// The URL that `url::Url::join` makes of `path` against `base`, or `None`
/// where either does not parse.
pub uninterp spec fn url_resolve(base: Seq<char>, path: Seq<char>) -> Option<Seq<char>>;

/// The path component of a URL, or `None` where it does not parse.
pub uninterp spec fn url_path(url: Seq<char>) -> Option<Seq<char>>;

/// Relies on `url::Url::parse` of the base, `Url::join` of the path onto
/// it, and the `Display` of the result, for the URL a request goes to.
#[verifier::external_body]
fn resolve_url(base: &str, path: &str) -> (r: Option<String>)
    ensures
        match r {
            Some(u) => url_resolve(base@, path@) == Some(u@),
            None => url_resolve(base@, path@) is None,
        },
{
    url::Url::parse(base).and_then(|b| b.join(path)).ok().map(|u| u.to_string())
}

/// Relies on `url::Url::parse` and `Url::path`, for the path that scopes
/// cookies.
#[verifier::external_body]
pub(crate) fn path_of_url(url: &str) -> (r: Option<String>)
    ensures
        match r {
            Some(p) => url_path(url@) == Some(p@),
            None => url_path(url@) is None,
        },
{
    url::Url::parse(url).ok().map(|u| u.path().to_owned())
}

/// Relies on `std::time::SystemTime::elapsed` since the Unix epoch, in
/// whole seconds, as the time against which saved cookies expire; `None`
/// when the clock is before it.
#[verifier::external_body]
fn seconds_since_epoch() -> Option<u64> {
    std::time::UNIX_EPOCH.elapsed().ok().map(|d| d.as_secs())
}

pub open spec fn default_base() -> Seq<char> {
    "http://localhost"@
}

pub open spec fn content_type_name() -> Seq<char> {
    "content-type"@
}

pub open spec fn cookie_name() -> Seq<char> {
    "cookie"@
}

/// The request's own content type, else the encoder's, else the harness's.
pub open spec fn resolved_content_type(req: RequestModel, default: Option<Seq<char>>) -> Option<
    Seq<char>,
> {
    match req.content_type {
        Some(c) => Some(c),
        None => match req.body_type {
            Some(b) => Some(b),
            None => default,
        },
    }
}

pub open spec fn optional_header(name: Seq<char>, value: Option<Seq<char>>) -> Seq<HeaderSpec> {
    match value {
        Some(v) => seq![HeaderSpec { name, value: v }],
        None => Seq::empty(),
    }
}

/// Every header a request sends to `path`: its own, in order, then its
/// content type, then its cookies in scope.
pub open spec fn sent_headers(req: RequestModel, default: Option<Seq<char>>, path: Seq<char>) -> Seq<
    HeaderSpec,
> {
    req.headers + optional_header(content_type_name(), resolved_content_type(req, default))
        + optional_header(cookie_name(), cookie_header_for(req.cookies, path))
}

/// The request's own choice on saving cookies, else the harness's.
pub open spec fn resolved_save(req: RequestModel, config_save: bool) -> bool {
    match req.save_cookies {
        Some(b) => b,
        None => config_save,
    }
}

/// A dispatch fails fast when the status is outside 2xx, failure was not
/// expected by the request, and the harness expects success by default.
pub open spec fn fails_fast(req: RequestModel, expect_success_by_default: bool, status: u16) -> bool {
    !is_success(status as int) && !req.expect_failure && expect_success_by_default
}

/// `METHOD path`, the name of a request in messages.
pub open spec fn request_label(req: RequestModel) -> Seq<char> {
    method_name(req.method) + " "@ + req.path
}

pub struct TestServer<T: Transport> {
    transport: T,
    cookies: CookieStore,
    config: TestServerConfig,
}

impl<T: Transport> TestServer<T> {
    pub open spec fn wf(&self) -> bool {
        self.cookie_store().wf()
    }

    pub closed spec fn cookie_store(&self) -> CookieStore {
        self.cookies
    }

    pub closed spec fn spec_config(&self) -> &TestServerConfig {
        &self.config
    }

    pub fn new(transport: T) -> (r: TestServer<T>)
        ensures
            r.wf(),
            r.cookie_store()@ == Seq::<CookieSpec>::empty(),
            !r.spec_config().save_cookies,
            r.spec_config().expect_success_by_default,
            r.spec_config().default_content_type is None,
            r.spec_config().base_url is None,
    {
        TestServer::new_with_config(transport, TestServerConfig::new())
    }

    pub fn new_with_config(transport: T, config: TestServerConfig) -> (r: TestServer<T>)
        ensures
            r.wf(),
            r.cookie_store()@ == Seq::<CookieSpec>::empty(),
            r.spec_config() == config,
    {
        TestServer { transport, cookies: CookieStore::new(), config }
    }

    pub fn config(&self) -> (r: &TestServerConfig)
        ensures
            r == self.spec_config(),
    {
        &self.config
    }

    /// The transport this harness sends through.
    pub fn transport(&self) -> (r: &T) {
        &self.transport
    }

    /// The session cookies.
    pub fn cookies(&self) -> (r: &CookieStore)
        ensures
            r@ == self.cookie_store()@,
    {
        &self.cookies
    }

    /// A new request for `path`, carrying the session cookies as they
    /// stand.
    pub open spec fn fresh_request(&self, method: Method, path: Seq<char>) -> RequestModel {
        RequestModel {
            method,
            path,
            headers: Seq::empty(),
            body: Seq::empty(),
            content_type: None,
            body_type: None,
            cookies: self.cookie_store()@,
            save_cookies: None,
            expect_failure: false,
        }
    }

    /// A request carrying the session cookies as they stand now.
    pub fn request(&self, method: Method, path: &str) -> (r: TestRequest)
        requires
            self.wf(),
        ensures
            r.wf(),
            r@ == self.fresh_request(method, path@),
    {
        TestRequest::with_cookies(method, path, self.cookies.duplicate())
    }

    pub fn get(&self, path: &str) -> (r: TestRequest)
        requires
            self.wf(),
        ensures
            r.wf(),
            r@ == self.fresh_request(Method::Get, path@),
    {
        self.request(Method::Get, path)
    }

    pub fn post(&self, path: &str) -> (r: TestRequest)
        requires
            self.wf(),
        ensures
            r.wf(),
            r@ == self.fresh_request(Method::Post, path@),
    {
        self.request(Method::Post, path)
    }

    pub fn put(&self, path: &str) -> (r: TestRequest)
        requires
            self.wf(),
        ensures
            r.wf(),
            r@ == self.fresh_request(Method::Put, path@),
    {
        self.request(Method::Put, path)
    }

    pub fn patch(&self, path: &str) -> (r: TestRequest)
        requires
            self.wf(),
        ensures
            r.wf(),
            r@ == self.fresh_request(Method::Patch, path@),
    {
        self.request(Method::Patch, path)
    }

    pub fn delete(&self, path: &str) -> (r: TestRequest)
        requires
            self.wf(),
        ensures
            r.wf(),
            r@ == self.fresh_request(Method::Delete, path@),
    {
        self.request(Method::Delete, path)
    }
}

impl<T: Transport> TestServer<T> {
    /// The URL that request paths are resolved against.
    pub open spec fn base(&self) -> Seq<char> {
        match self.spec_config().base_url {
            Some(b) => b@,
            None => default_base(),
        }
    }

    /// Adds a cookie to the session, replacing one with the same name and
    /// path; later requests carry it.
    pub fn add_cookie(&mut self, cookie: StoredCookie)
        requires
            old(self).wf(),
        ensures
            final(self).wf(),
            final(self).cookie_store()@ == upsert(old(self).cookie_store()@, cookie@),
            final(self).spec_config() == old(self).spec_config(),
    {
        self.cookies.add(cookie);
    }

    /// Empties the session's cookies; later requests carry none.
    pub fn clear_cookies(&mut self)
        requires
            old(self).wf(),
        ensures
            final(self).wf(),
            final(self).cookie_store()@ == Seq::<CookieSpec>::empty(),
            final(self).spec_config() == old(self).spec_config(),
    {
        self.cookies.clear();
    }

    /// Resolves what a request sends: the full URL of its path, and its own
    /// headers followed by its content type and the cookies in scope.
    pub fn prepare(&self, request: &TestRequest) -> (r: Result<PreparedRequest, HarnessError>)
        requires
            request.wf(),
        ensures
            match r {
                Ok(p) => url_resolve(self.base(), request@.path) == Some(p.url@) && url_path(p.url@)
                    == Some(p.path@)
                    && p.method == request@.method && headers_view(p.headers@) == sent_headers(
                    request@,
                    opt_view(self.spec_config().default_content_type),
                    p.path@,
                ) && p.body@ == request@.body,
                Err(e) => e is InvalidUrl && (match url_resolve(self.base(), request@.path) {
                    Some(u) => url_path(u) is None,
                    None => true,
                }),
            },
    {
        proof {
            reveal_strlit("http://localhost");
            reveal_strlit("content-type");
            reveal_strlit("cookie");
        }
        let base: &str = match &self.config.base_url {
            Some(b) => b.as_str(),
            None => "http://localhost",
        };
        let url = match resolve_url(base, request.path()) {
            Some(u) => u,
            None => {
                return Err(
                    HarnessError::InvalidUrl { base: base.to_owned(), path: request.path().to_owned() },
                );
            },
        };
        let path = match path_of_url(url.as_str()) {
            Some(p) => p,
            None => {
                return Err(
                    HarnessError::InvalidUrl { base: base.to_owned(), path: request.path().to_owned() },
                );
            },
        };
        let mut headers = crate::headers::copy_headers(request.headers());
        let ghost own = headers_view(headers@);
        let content_type: Option<&String> = match request.explicit_content_type() {
            Some(c) => Some(c),
            None => match request.body_content_type() {
                Some(b) => Some(b),
                None => match &self.config.default_content_type {
                    Some(d) => Some(d),
                    None => None,
                },
            },
        };
        match content_type {
            Some(c) => headers.push(Header::new("content-type", c.as_str())),
            None => {},
        }
        let ghost with_type = headers_view(headers@);
        assert(with_type =~= own + optional_header(
            content_type_name(),
            resolved_content_type(request@, opt_view(self.spec_config().default_content_type)),
        ));
        match request.cookies().request_header(path.as_str()) {
            Some(v) => headers.push(Header::new("cookie", v.as_str())),
            None => {},
        }
        assert(headers_view(headers@) =~= with_type + optional_header(
            cookie_name(),
            cookie_header_for(request@.cookies, path@),
        ));
        let body = vstd::slice::slice_to_vec(request.body().as_slice());
        Ok(PreparedRequest { method: request.method(), url, path, headers, body })
    }

    /// Turns what the transport returned into a response: fails fast on an
    /// unexpected status, else saves the response's cookies where that was
    /// asked for, at time `now` (seconds since the Unix epoch).
    pub fn complete(&mut self, request: &TestRequest, url: String, raw: RawResponse, now: i64) -> (r:
        Result<TestResponse, HarnessError>)
        requires
            old(self).wf(),
        ensures
            final(self).wf(),
            final(self).spec_config() == old(self).spec_config(),
            !is_valid_status(raw.status as int) ==> r is Err && (r->Err_0 matches HarnessError::Transport(
                t,
            ) && t is Protocol) && final(self).cookie_store()@ == old(self).cookie_store()@,
            is_valid_status(raw.status as int) && fails_fast(
                request@,
                old(self).spec_config().expect_success_by_default,
                raw.status,
            ) ==> r is Err && (r->Err_0 matches HarnessError::UnexpectedStatus { status: s, request: q }
                && s == raw.status && q@ == request_label(request@)) && final(self).cookie_store()@
                == old(self).cookie_store()@,
            is_valid_status(raw.status as int) && !fails_fast(
                request@,
                old(self).spec_config().expect_success_by_default,
                raw.status,
            ) ==> r is Ok && r->Ok_0@ == (ResponseModel {
                request: request_label(request@),
                url: url@,
                status: raw.status,
                headers: headers_view(raw.headers@),
                body: raw.body@,
            }) && final(self).cookie_store()@ == store_after(
                old(self).cookie_store()@,
                (
                    resolved_save(request@, old(self).spec_config().save_cookies),
                    headers_view(raw.headers@),
                    now as int,
                ),
            ),
    {
        proof {
            reveal_strlit(" ");
        }
        if !status_code_accepted(raw.status) {
            return Err(
                HarnessError::Transport(
                    TransportError::Protocol("the status code is not three digits".to_owned()),
                ),
            );
        }
        let mut label = request.method().as_str().to_owned();
        label.append(" ");
        label.append(request.path());
        if !status_is_success(raw.status) && !request.expects_failure()
            && self.config.expect_success_by_default {
            return Err(HarnessError::UnexpectedStatus { status: raw.status, request: label });
        }
        let save = match request.saves_cookies() {
            Some(b) => b,
            None => self.config.save_cookies,
        };
        if save {
            self.cookies.merge_response_headers(&raw.headers, now);
        }
        Ok(TestResponse::new(label, url, raw.status, raw.headers, raw.body))
    }

    /// Sends a request through the transport and captures the response.
    /// Nothing but a response that is returned, from a request that saves
    /// cookies, changes the session's cookies.
    pub fn dispatch(&mut self, request: TestRequest) -> (r: Result<TestResponse, HarnessError>)
        requires
            old(self).wf(),
            request.wf(),
        ensures
            final(self).wf(),
            final(self).spec_config() == old(self).spec_config(),
            (r is Err && r->Err_0 is InvalidUrl) <==> !(url_resolve(old(self).base(), request@.path) matches Some(
                u,
            ) && url_path(u) is Some),
            r matches Err(HarnessError::UnexpectedStatus { request: q, .. }) ==> q@ == request_label(
                request@,
            ),
            r is Err || !resolved_save(request@, old(self).spec_config().save_cookies)
                ==> final(self).cookie_store()@ == old(self).cookie_store()@,
            r is Ok ==> is_valid_status(r->Ok_0@.status as int),
            r is Ok ==> !fails_fast(
                request@,
                old(self).spec_config().expect_success_by_default,
                r->Ok_0@.status,
            ),
            r is Ok ==> r->Ok_0@.request == request_label(request@),
            r is Ok ==> url_resolve(old(self).base(), request@.path) == Some(r->Ok_0@.url),
            r is Ok && resolved_save(request@, old(self).spec_config().save_cookies) ==> exists|
                now: int,
            |
                final(self).cookie_store()@ == #[trigger] merge_headers(
                    old(self).cookie_store()@,
                    r->Ok_0@.headers,
                    now,
                ),
    {
        let prepared = match self.prepare(&request) {
            Ok(p) => p,
            Err(e) => return Err(e),
        };
        let raw = match self.transport.send(&prepared) {
            Ok(raw) => raw,
            Err(e) => return Err(HarnessError::Transport(e)),
        };
        let now: i64 = match seconds_since_epoch() {
            Some(s) => if s <= 9223372036854775807u64 {
                s as i64
            } else {
                0
            },
            None => 0,
        };
        let ghost before = self.cookie_store()@;
        let r = self.complete(&request, prepared.url, raw, now);
        proof {
            if r is Ok && resolved_save(request@, self.spec_config().save_cookies) {
                assert(self.cookie_store()@ == merge_headers(before, r->Ok_0@.headers, now as int));
            }
        }
        r
    }
}

/// A request that carries no cookies, because they were cleared on it or
/// because the session's store was empty when it was made, sends no
/// `Cookie` header: only its own headers and its content type.
pub proof fn lemma_cookieless_request_sends_no_cookie(
    req: RequestModel,
    default: Option<Seq<char>>,
    path: Seq<char>,
)
    requires
        req.cookies.len() == 0,
    ensures
        sent_headers(req, default, path) == req.headers + optional_header(
            content_type_name(),
            resolved_content_type(req, default),
        ),
{
    assert(scoped(req.cookies, path).len() == 0);
    assert(sent_headers(req, default, path) =~= req.headers + optional_header(
        content_type_name(),
        resolved_content_type(req, default),
    ));
}

/// After a saving request's response sets a cookie that has not expired,
/// and that no later `Set-Cookie` of the same response replaces or removes,
/// a request for a path in the cookie's scope, made from the session's
/// store, ends its headers with a `Cookie` header whose pairs include the
/// cookie's name and value.
pub proof fn lemma_saved_cookie_reaches_next_request(
    store: Seq<CookieSpec>,
    before: Seq<HeaderSpec>,
    set_cookie: HeaderSpec,
    after: Seq<HeaderSpec>,
    now: int,
    next: RequestModel,
    default: Option<Seq<char>>,
    path: Seq<char>,
)
    requires
        keys_unique(store),
        names_match(set_cookie.name, set_cookie_name()),
        set_cookie_parse(set_cookie.value) is Some,
        !is_expired(set_cookie_parse(set_cookie.value)->0, now),
        path_matches(stored_path(set_cookie_parse(set_cookie.value)->0.path), path),
        forall|j: int|
            0 <= j < after.len() ==> !touches(
                after[j],
                stored_from(set_cookie_parse(set_cookie.value)->0),
            ),
        next.cookies == merge_headers(store, before.push(set_cookie) + after, now),
    ensures
        ({
            let sent = sent_headers(next, default, path);
            &&& sent.last().name == cookie_name()
            &&& sent.last().value == pairs_text(scoped(next.cookies, path))
            &&& scoped(next.cookies, path).contains(stored_from(set_cookie_parse(set_cookie.value)->0))
        }),
{
    lemma_saved_cookie_is_sent(store, before, set_cookie, after, now, path);
}

/// The session's store after one response: merged with the response's
/// headers at its time where the request saves cookies, else unchanged.
pub open spec fn store_after(store: Seq<CookieSpec>, step: (bool, Seq<HeaderSpec>, int)) -> Seq<
    CookieSpec,
> {
    if step.0 {
        merge_headers(store, step.1, step.2)
    } else {
        store
    }
}

/// The session's store after responses taken in order, each with whether
/// its request saves cookies, its headers and its time.
pub open spec fn store_after_all(store: Seq<CookieSpec>, steps: Seq<(bool, Seq<HeaderSpec>, int)>) -> Seq<
    CookieSpec,
>
    decreases steps.len(),
{
    if steps.len() == 0 {
        store
    } else {
        store_after(store_after_all(store, steps.drop_last()), steps.last())
    }
}

/// Once the session's store is emptied, any number of requests that do not
/// save cookies leave it empty, and a request made from it then sends no
/// `Cookie` header: only its own headers and its content type.
pub proof fn lemma_cleared_store_stays_empty(
    steps: Seq<(bool, Seq<HeaderSpec>, int)>,
    next: RequestModel,
    default: Option<Seq<char>>,
    path: Seq<char>,
)
    requires
        forall|i: int| 0 <= i < steps.len() ==> !(#[trigger] steps[i]).0,
        next.cookies == store_after_all(Seq::empty(), steps),
    ensures
        next.cookies == Seq::<CookieSpec>::empty(),
        sent_headers(next, default, path) == next.headers + optional_header(
            content_type_name(),
            resolved_content_type(next, default),
        ),
    decreases steps.len(),
{
    if steps.len() > 0 {
        let shorter = steps.drop_last();
        assert forall|i: int| 0 <= i < shorter.len() implies !(#[trigger] shorter[i]).0 by {
            assert(shorter[i] == steps[i]);
        }
        assert(!steps[steps.len() - 1].0);
        lemma_cleared_store_stays_empty(
            shorter,
            RequestModel { cookies: store_after_all(Seq::empty(), shorter), ..next },
            default,
            path,
        );
    }
    lemma_cookieless_request_sends_no_cookie(next, default, path);
}

} // verus!
