//! The captured response: status, headers and body of one dispatched
//! request, read-only, with decoding and assertions over them.
use vstd::prelude::*;
use vstd::std_specs::cmp::PartialEqSpec;

use crate::body::{decode_form, decode_json, decode_yaml, lossy_text, utf8_lossy, BodyFormat};
use crate::cookie_store::{
    add_to_jar, jar_cookies, new_jar, parse_set_cookie, set_cookie_name, set_cookie_parse,
    ParsedCookie, ParsedCookieSpec,
};
use crate::error::HarnessError;
use crate::headers::{
    first_header_value, header_names_match, header_values, headers_view, names_match, values_named,
    Header, HeaderSpec,
};
use crate::status::{decimal, is_failure, is_success, status_is_failure, status_is_success, status_text};

verus! {

/// The mathematical value of a captured response.
pub struct ResponseModel {
    /// The method and path of the request, for messages.
    pub request: Seq<char>,
    /// The full URL the request was sent to.
    pub url: Seq<char>,
    pub status: u16,
    pub headers: Seq<HeaderSpec>,
    pub body: Seq<u8>,
}

/// An assertion error on `request` that names what was expected and what
/// was received.
pub open spec fn is_assertion(e: HarnessError, request: Seq<char>, expected: Seq<char>, received: Seq<
    char,
>) -> bool {
    e matches HarnessError::Assertion { request: q, expected: x, received: y } && q@ == request && x@
        == expected && y@ == received
}

/// The parsed values of every `Set-Cookie` header, in order, or `None` where
/// one of them does not parse.
pub open spec fn response_cookies(hs: Seq<HeaderSpec>) -> Option<Seq<ParsedCookieSpec>>
    decreases hs.len(),
{
    if hs.len() == 0 {
        Some(Seq::empty())
    } else {
        match response_cookies(hs.drop_last()) {
            None => None,
            Some(prev) => if names_match(hs.last().name, set_cookie_name()) {
                match set_cookie_parse(hs.last().value) {
                    Some(c) => Some(prev.push(c)),
                    None => None,
                }
            } else {
                Some(prev)
            },
        }
    }
}

/// How many bytes of the body a decode error shows.
pub const BODY_PREVIEW: usize = 64;

/// The first bytes of a body, as a decode error shows them.
pub open spec fn body_preview(body: Seq<u8>) -> Seq<u8> {
    if body.len() <= BODY_PREVIEW {
        body
    } else {
        body.subrange(0, BODY_PREVIEW as int)
    }
}

/// The message of a decode error: the decoder's, then the start of the
/// body as text.
pub open spec fn decode_message(decoder: Seq<char>, body: Seq<u8>) -> Seq<char> {
    decoder + "; body begins: "@ + utf8_lossy(body_preview(body))
}

/// One cookie per name: the last of that name.
pub open spec fn last_by_name(cs: Seq<ParsedCookieSpec>) -> Map<Seq<char>, ParsedCookieSpec>
    decreases cs.len(),
{
    if cs.len() == 0 {
        Map::empty()
    } else {
        last_by_name(cs.drop_last()).insert(cs.last().name, cs.last())
    }
}

pub open spec fn parsed_view(v: Seq<ParsedCookie>) -> Seq<ParsedCookieSpec> {
    v.map_values(|c: ParsedCookie| c@)
}

proof fn lemma_response_cookies_fail(hs: Seq<HeaderSpec>, k: int)
    requires
        0 <= k <= hs.len(),
        response_cookies(hs.subrange(0, k)) is None,
    ensures
        response_cookies(hs) is None,
    decreases hs.len() - k,
{
    if k < hs.len() {
        assert(hs.subrange(0, k + 1).drop_last() =~= hs.subrange(0, k));
        lemma_response_cookies_fail(hs, k + 1);
    } else {
        assert(hs.subrange(0, k) =~= hs);
    }
}

#[derive(Clone, Debug)]
pub struct TestResponse {
    request: String,
    full_request_url: String,
    status_code: u16,
    headers: Vec<Header>,
    body: Vec<u8>,
}

impl View for TestResponse {
    type V = ResponseModel;

    closed spec fn view(&self) -> ResponseModel {
        ResponseModel {
            request: self.request@,
            url: self.full_request_url@,
            status: self.status_code,
            headers: headers_view(self.headers@),
            body: self.body@,
        }
    }
}

impl TestResponse {
    pub fn new(
        request: String,
        full_request_url: String,
        status_code: u16,
        headers: Vec<Header>,
        body: Vec<u8>,
    ) -> (r: TestResponse)
        ensures
            r@ == (ResponseModel {
                request: request@,
                url: full_request_url@,
                status: status_code,
                headers: headers_view(headers@),
                body: body@,
            }),
    {
        TestResponse { request, full_request_url, status_code, headers, body }
    }

    /// The body as text; invalid UTF-8 becomes U+FFFD.
    pub fn text(&self) -> (r: String)
        ensures
            r@ == utf8_lossy(self@.body),
            vstd::utf8::valid_utf8(self@.body) ==> r@ == vstd::utf8::decode_utf8(self@.body),
    {
        lossy_text(self.body.as_slice())
    }

    /// The outcome of decoding the body in `format`: a decoded value as it
    /// is, or a decode error that names the format and the request and
    /// shows the decoder's message and the first bytes of the body.
    pub fn decoded<T>(&self, format: BodyFormat, outcome: Result<T, String>) -> (r: Result<
        T,
        HarnessError,
    >)
        ensures
            outcome matches Ok(v) ==> (r matches Ok(w) && w == v),
            outcome matches Err(m) ==> (r matches Err(HarnessError::Decode {
                format: f,
                request: q,
                message: x,
            }) && f == format && q@ == self@.request && x@ == decode_message(m@, self@.body)),
    {
        match outcome {
            Ok(v) => Ok(v),
            Err(m) => {
                proof {
                    reveal_strlit("; body begins: ");
                }
                let end: usize = if self.body.len() <= BODY_PREVIEW {
                    self.body.len()
                } else {
                    BODY_PREVIEW
                };
                let mut preview: Vec<u8> = Vec::new();
                let mut i: usize = 0;
                while i < end
                    invariant
                        end <= self.body@.len(),
                        end == body_preview(self@.body).len(),
                        i <= end,
                        preview@ == self.body@.subrange(0, i as int),
                    decreases end - i,
                {
                    preview.push(self.body[i]);
                    i += 1;
                    assert(preview@ =~= self.body@.subrange(0, i as int));
                }
                assert(preview@ =~= body_preview(self@.body));
                let mut message = m;
                message.append("; body begins: ");
                message.append(lossy_text(preview.as_slice()).as_str());
                Err(HarnessError::Decode { format, request: self.request.clone(), message })
            },
        }
    }

    /// The body decoded as JSON.
    pub fn json<T: serde::de::DeserializeOwned>(&self) -> (r: Result<T, HarnessError>)
        ensures
            r is Err ==> (r->Err_0 matches HarnessError::Decode { format: BodyFormat::Json, request: q, message: x }
                && q@ == self@.request && exists|m: Seq<char>| x@ == #[trigger] decode_message(m, self@.body)),
    {
        self.decoded(BodyFormat::Json, decode_json(self.body.as_slice()))
    }

    /// The body decoded as YAML.
    pub fn yaml<T: serde::de::DeserializeOwned>(&self) -> (r: Result<T, HarnessError>)
        ensures
            r is Err ==> (r->Err_0 matches HarnessError::Decode { format: BodyFormat::Yaml, request: q, message: x }
                && q@ == self@.request && exists|m: Seq<char>| x@ == #[trigger] decode_message(m, self@.body)),
    {
        self.decoded(BodyFormat::Yaml, decode_yaml(self.body.as_slice()))
    }

    /// The body decoded as a url-encoded form.
    pub fn form<T: serde::de::DeserializeOwned>(&self) -> (r: Result<T, HarnessError>)
        ensures
            r is Err ==> (r->Err_0 matches HarnessError::Decode { format: BodyFormat::Form, request: q, message: x }
                && q@ == self@.request && exists|m: Seq<char>| x@ == #[trigger] decode_message(m, self@.body)),
    {
        self.decoded(BodyFormat::Form, decode_form(self.body.as_slice()))
    }

    pub fn as_bytes(&self) -> (r: &Vec<u8>)
        ensures
            r@ == self@.body,
    {
        &self.body
    }

    pub fn into_bytes(self) -> (r: Vec<u8>)
        ensures
            r@ == self@.body,
    {
        self.body
    }

    pub fn status_code(&self) -> (r: u16)
        ensures
            r == self@.status,
    {
        self.status_code
    }

    /// The full URL the request was sent to.
    pub fn request_url(&self) -> (r: String)
        ensures
            r@ == self@.url,
    {
        self.full_request_url.clone()
    }

    /// The value of the first header with this name, if any.
    pub fn maybe_header(&self, name: &str) -> (r: Option<String>)
        ensures
            values_named(self@.headers, name@).len() == 0 ==> r is None,
            values_named(self@.headers, name@).len() > 0 ==> r is Some && r->0@ == values_named(
                self@.headers,
                name@,
            )[0],
    {
        first_header_value(&self.headers, name)
    }

    /// Every header of the response, in order.
    pub fn headers(&self) -> (r: &Vec<Header>)
        ensures
            headers_view(r@) == self@.headers,
    {
        &self.headers
    }

    /// The value of the first header with this name.
    pub fn header(&self, name: &str) -> (r: Result<String, HarnessError>)
        ensures
            values_named(self@.headers, name@).len() == 0 ==> r is Err && (r->Err_0 matches HarnessError::MissingHeader { name: n, request: q } && n@ == name@ && q@ == self@.request),
            values_named(self@.headers, name@).len() > 0 ==> r is Ok && r->Ok_0@ == values_named(
                self@.headers,
                name@,
            )[0],
    {
        match first_header_value(&self.headers, name) {
            Some(v) => Ok(v),
            None => Err(HarnessError::MissingHeader { name: name.to_owned(), request: self.request.clone() }),
        }
    }

    /// Every header of the response, in order.
    pub fn iter_headers(&self) -> (r: &Vec<Header>)
        ensures
            headers_view(r@) == self@.headers,
    {
        &self.headers
    }

    /// The values of every header with this name, in order.
    pub fn iter_headers_by_name(&self, name: &str) -> (r: Vec<String>)
        ensures
            r@.map_values(|s: String| s@) == values_named(self@.headers, name@),
    {
        header_values(&self.headers, name)
    }

    /// Every cookie the response sets, in order; an error names the first
    /// `Set-Cookie` value that does not parse.
    pub fn iter_cookies(&self) -> (r: Result<Vec<ParsedCookie>, HarnessError>)
        ensures
            match r {
                Ok(v) => response_cookies(self@.headers) == Some(parsed_view(v@)),
                Err(e) => response_cookies(self@.headers) is None && (e matches HarnessError::InvalidCookie {
                    request: q,
                    ..
                } && q@ == self@.request),
            },
    {
        proof {
            reveal_strlit("set-cookie");
            assert("set-cookie"@ =~= set_cookie_name());
        }
        let ghost hs = self@.headers;
        let mut out: Vec<ParsedCookie> = Vec::new();
        let mut i: usize = 0;
        while i < self.headers.len()
            invariant
                i <= self.headers@.len(),
                hs == headers_view(self.headers@),
                "set-cookie"@ == set_cookie_name(),
                response_cookies(hs.subrange(0, i as int)) == Some(parsed_view(out@)),
            decreases self.headers@.len() - i,
        {
            proof {
                assert(hs.subrange(0, i + 1).drop_last() =~= hs.subrange(0, i as int));
                assert(hs.subrange(0, i + 1).last() == self.headers@[i as int]@);
            }
            if header_names_match(self.headers[i].name.as_str(), "set-cookie") {
                match parse_set_cookie(self.headers[i].value.as_str()) {
                    Some(c) => {
                        let ghost prev = parsed_view(out@);
                        out.push(c);
                        assert(parsed_view(out@) =~= prev.push(c@));
                    },
                    None => {
                        proof {
                            lemma_response_cookies_fail(hs, i + 1);
                        }
                        return Err(
                            HarnessError::InvalidCookie {
                                value: self.headers[i].value.clone(),
                                request: self.request.clone(),
                            },
                        );
                    },
                }
            }
            i += 1;
        }
        assert(hs.subrange(0, hs.len() as int) =~= hs);
        Ok(out)
    }

    /// The first cookie the response sets with this name, if any.
    pub fn maybe_cookie(&self, name: &str) -> (r: Result<Option<ParsedCookie>, HarnessError>)
        ensures
            match r {
                Ok(Some(c)) => response_cookies(self@.headers) matches Some(cs) && exists|i: int|
                    0 <= i < cs.len() && cs[i] == c@ && cs[i].name == name@ && forall|j: int|
                        0 <= j < i ==> cs[j].name != name@,
                Ok(None) => response_cookies(self@.headers) matches Some(cs) && forall|j: int|
                    0 <= j < cs.len() ==> cs[j].name != name@,
                Err(e) => response_cookies(self@.headers) is None && e is InvalidCookie,
            },
    {
        let all = match self.iter_cookies() {
            Ok(v) => v,
            Err(e) => return Err(e),
        };
        let ghost cs = parsed_view(all@);
        let mut i: usize = 0;
        while i < all.len()
            invariant
                i <= all@.len(),
                cs == parsed_view(all@),
                response_cookies(self@.headers) == Some(cs),
                forall|j: int| 0 <= j < i ==> cs[j].name != name@,
            decreases all@.len() - i,
        {
            if crate::headers::same_text(all[i].name.as_str(), name) {
                assert(cs[i as int] == all@[i as int]@);
                let mut all = all;
                let c = all.swap_remove(i);
                assert(cs[i as int] == c@ && cs[i as int].name == name@);
                return Ok(Some(c));
            }
            i += 1;
        }
        Ok(None)
    }

    /// The first cookie the response sets with this name.
    pub fn cookie(&self, name: &str) -> (r: Result<ParsedCookie, HarnessError>)
        ensures
            match r {
                Ok(c) => response_cookies(self@.headers) matches Some(cs) && exists|i: int|
                    0 <= i < cs.len() && cs[i] == c@ && cs[i].name == name@ && forall|j: int|
                        0 <= j < i ==> cs[j].name != name@,
                Err(e) => response_cookies(self@.headers) is None && e is InvalidCookie || (
                response_cookies(self@.headers) matches Some(cs) && forall|j: int|
                    0 <= j < cs.len() ==> cs[j].name != name@) && (e matches HarnessError::MissingCookie {
                    name: n,
                    request: q,
                } && n@ == name@ && q@ == self@.request),
            },
    {
        match self.maybe_cookie(name) {
            Err(e) => Err(e),
            Ok(Some(c)) => Ok(c),
            Ok(None) => Err(HarnessError::MissingCookie { name: name.to_owned(), request: self.request.clone() }),
        }
    }

    /// The cookies the response sets, as a `cookie::CookieJar`: one per
    /// name, the last one set with that name.
    pub fn cookies(&self) -> (r: Result<cookie::CookieJar, HarnessError>)
        ensures
            match r {
                Ok(jar) => response_cookies(self@.headers) matches Some(cs) && jar_cookies(jar)
                    == last_by_name(cs),
                Err(e) => response_cookies(self@.headers) is None && (e matches HarnessError::InvalidCookie {
                    request: q,
                    ..
                } && q@ == self@.request),
            },
    {
        proof {
            reveal_strlit("set-cookie");
            assert("set-cookie"@ =~= set_cookie_name());
        }
        let ghost hs = self@.headers;
        let ghost mut cs: Seq<ParsedCookieSpec> = Seq::empty();
        let mut jar = new_jar();
        let mut i: usize = 0;
        while i < self.headers.len()
            invariant
                i <= self.headers@.len(),
                hs == headers_view(self.headers@),
                "set-cookie"@ == set_cookie_name(),
                response_cookies(hs.subrange(0, i as int)) == Some(cs),
                jar_cookies(jar) == last_by_name(cs),
            decreases self.headers@.len() - i,
        {
            proof {
                assert(hs.subrange(0, i + 1).drop_last() =~= hs.subrange(0, i as int));
                assert(hs.subrange(0, i + 1).last() == self.headers@[i as int]@);
            }
            if header_names_match(self.headers[i].name.as_str(), "set-cookie") {
                match parse_set_cookie(self.headers[i].value.as_str()) {
                    Some(c) => {
                        add_to_jar(&mut jar, self.headers[i].value.as_str());
                        proof {
                            assert(cs.push(c@).drop_last() =~= cs);
                            cs = cs.push(c@);
                        }
                    },
                    None => {
                        proof {
                            lemma_response_cookies_fail(hs, i + 1);
                        }
                        return Err(
                            HarnessError::InvalidCookie {
                                value: self.headers[i].value.clone(),
                                request: self.request.clone(),
                            },
                        );
                    },
                }
            }
            i += 1;
        }
        assert(hs.subrange(0, hs.len() as int) =~= hs);
        Ok(jar)
    }
}

impl TestResponse {
    fn assertion(&self, expected: String, received: String) -> (r: HarnessError)
        ensures
            is_assertion(r, self@.request, expected@, received@),
    {
        HarnessError::Assertion { request: self.request.clone(), expected, received }
    }

    /// Passes when the body, read as text, is exactly `expected`.
    pub fn assert_text(&self, expected: &str) -> (r: Result<(), HarnessError>)
        ensures
            r is Ok <==> expected@ == utf8_lossy(self@.body),
            vstd::utf8::valid_utf8(self@.body) ==> (r is Ok <==> expected@ == vstd::utf8::decode_utf8(
                self@.body,
            )),
            r is Err ==> is_assertion(r->Err_0, self@.request, expected@, utf8_lossy(self@.body)),
    {
        let text = self.text();
        if crate::headers::same_text(expected, text.as_str()) {
            Ok(())
        } else {
            Err(self.assertion(expected.to_owned(), text))
        }
    }

    /// Passes when a decoded body is equal to `expected`; a decode error is
    /// passed on.
    pub fn assert_decoded<T: PartialEq + std::fmt::Debug>(
        &self,
        decoded: Result<T, HarnessError>,
        expected: &T,
    ) -> (r: Result<(), HarnessError>)
        ensures
            decoded is Err ==> r is Err && r->Err_0 == decoded->Err_0,
            decoded is Ok && T::obeys_eq_spec() ==> (r is Ok <==> expected.eq_spec(
                &decoded->Ok_0,
            )),
            decoded is Ok && r is Err ==> r->Err_0 is Assertion,
    {
        match decoded {
            Err(e) => Err(e),
            Ok(v) => {
                if expected.eq(&v) {
                    Ok(())
                } else {
                    Err(self.assertion(debug_text(expected), debug_text(&v)))
                }
            },
        }
    }

    /// Passes when the body decodes as JSON to a value equal to `expected`.
    pub fn assert_json<T: serde::de::DeserializeOwned + PartialEq + std::fmt::Debug>(
        &self,
        expected: &T,
    ) -> (r: Result<(), HarnessError>)
        ensures
            r is Err ==> r->Err_0 is Assertion || r->Err_0 matches HarnessError::Decode {
                format: BodyFormat::Json,
                ..
            },
    {
        self.assert_decoded(self.json::<T>(), expected)
    }

    /// Passes when the body decodes as YAML to a value equal to `expected`.
    pub fn assert_yaml<T: serde::de::DeserializeOwned + PartialEq + std::fmt::Debug>(
        &self,
        expected: &T,
    ) -> (r: Result<(), HarnessError>)
        ensures
            r is Err ==> r->Err_0 is Assertion || r->Err_0 matches HarnessError::Decode {
                format: BodyFormat::Yaml,
                ..
            },
    {
        self.assert_decoded(self.yaml::<T>(), expected)
    }

    /// Passes when the body decodes as a form to a value equal to `expected`.
    pub fn assert_form<T: serde::de::DeserializeOwned + PartialEq + std::fmt::Debug>(
        &self,
        expected: &T,
    ) -> (r: Result<(), HarnessError>)
        ensures
            r is Err ==> r->Err_0 is Assertion || r->Err_0 matches HarnessError::Decode {
                format: BodyFormat::Form,
                ..
            },
    {
        self.assert_decoded(self.form::<T>(), expected)
    }

    /// Passes when the status is within the 2xx range.
    pub fn assert_status_success(&self) -> (r: Result<(), HarnessError>)
        ensures
            r is Ok <==> is_success(self@.status as int),
            r is Err ==> is_assertion(
                r->Err_0,
                self@.request,
                "a status within the 2xx range"@,
                decimal(self@.status as nat),
            ),
    {
        if status_is_success(self.status_code) {
            Ok(())
        } else {
            Err(self.assertion("a status within the 2xx range".to_owned(), status_text(self.status_code)))
        }
    }

    /// Passes when the status is outside the 2xx range.
    pub fn assert_status_failure(&self) -> (r: Result<(), HarnessError>)
        ensures
            r is Ok <==> is_failure(self@.status as int),
            r is Err ==> is_assertion(
                r->Err_0,
                self@.request,
                "a status outside the 2xx range"@,
                decimal(self@.status as nat),
            ),
    {
        if status_is_failure(self.status_code) {
            Ok(())
        } else {
            Err(self.assertion("a status outside the 2xx range".to_owned(), status_text(self.status_code)))
        }
    }

    /// Passes when the status is `expected`.
    pub fn assert_status(&self, expected: u16) -> (r: Result<(), HarnessError>)
        ensures
            r is Ok <==> self@.status == expected,
            r is Err ==> is_assertion(
                r->Err_0,
                self@.request,
                decimal(expected as nat),
                decimal(self@.status as nat),
            ),
    {
        if self.status_code == expected {
            Ok(())
        } else {
            Err(self.assertion(status_text(expected), status_text(self.status_code)))
        }
    }

    /// Passes when the status is not `unexpected`.
    pub fn assert_not_status(&self, unexpected: u16) -> (r: Result<(), HarnessError>)
        ensures
            r is Ok <==> self@.status != unexpected,
            r is Err ==> is_assertion(
                r->Err_0,
                self@.request,
                "any status but "@ + decimal(unexpected as nat),
                decimal(self@.status as nat),
            ),
    {
        if self.status_code != unexpected {
            Ok(())
        } else {
            let mut expected = "any status but ".to_owned();
            expected.append(status_text(unexpected).as_str());
            Err(self.assertion(expected, status_text(self.status_code)))
        }
    }

    /// Passes when the status is 200.
    pub fn assert_status_ok(&self) -> (r: Result<(), HarnessError>)
        ensures
            r is Ok <==> self@.status == 200,
            r is Err ==> is_assertion(
                r->Err_0,
                self@.request,
                decimal(200),
                decimal(self@.status as nat),
            ),
    {
        self.assert_status(200)
    }

    /// Passes when the status is not 200.
    pub fn assert_status_not_ok(&self) -> (r: Result<(), HarnessError>)
        ensures
            r is Ok <==> self@.status != 200,
            r is Err ==> is_assertion(
                r->Err_0,
                self@.request,
                "any status but "@ + decimal(200),
                decimal(self@.status as nat),
            ),
    {
        self.assert_not_status(200)
    }

    /// Passes when the status is 400.
    pub fn assert_status_bad_request(&self) -> (r: Result<(), HarnessError>)
        ensures
            r is Ok <==> self@.status == 400,
            r is Err ==> is_assertion(
                r->Err_0,
                self@.request,
                decimal(400),
                decimal(self@.status as nat),
            ),
    {
        self.assert_status(400)
    }

    /// Passes when the status is 401.
    pub fn assert_status_unauthorized(&self) -> (r: Result<(), HarnessError>)
        ensures
            r is Ok <==> self@.status == 401,
            r is Err ==> is_assertion(
                r->Err_0,
                self@.request,
                decimal(401),
                decimal(self@.status as nat),
            ),
    {
        self.assert_status(401)
    }

    /// Passes when the status is 403.
    pub fn assert_status_forbidden(&self) -> (r: Result<(), HarnessError>)
        ensures
            r is Ok <==> self@.status == 403,
            r is Err ==> is_assertion(
                r->Err_0,
                self@.request,
                decimal(403),
                decimal(self@.status as nat),
            ),
    {
        self.assert_status(403)
    }

    /// Passes when the status is 404.
    pub fn assert_status_not_found(&self) -> (r: Result<(), HarnessError>)
        ensures
            r is Ok <==> self@.status == 404,
            r is Err ==> is_assertion(
                r->Err_0,
                self@.request,
                decimal(404),
                decimal(self@.status as nat),
            ),
    {
        self.assert_status(404)
    }
}

/// Relies on the `Debug` formatting of `T`, for messages.
#[verifier::external_body]
fn debug_text<T: std::fmt::Debug>(value: &T) -> String {
    format!("{:?}", value)
}

} // verus!
