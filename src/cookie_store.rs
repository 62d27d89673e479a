//! The session cookie store of a harness: cookies unique by name and path,
//! kept in insertion order, merged from `Set-Cookie` response headers and
//! sent back as one `Cookie` request header.
use vstd::prelude::*;

use crate::headers::{header_names_match, headers_view, names_match, same_text, Header, HeaderSpec};

verus! {

/// What the store reads of one `Set-Cookie` header value.
#[derive(Clone, Debug)]
pub struct ParsedCookie {
    pub name: String,
    pub value: String,
    /// The `Path` attribute, if one was given.
    pub path: Option<String>,
    /// The `Max-Age` attribute in seconds (a negative one reads as zero).
    pub max_age: Option<i64>,
    /// The `Expires` attribute as seconds since the Unix epoch.
    pub expires: Option<i64>,
}

pub struct ParsedCookieSpec {
    pub name: Seq<char>,
    pub value: Seq<char>,
    pub path: Option<Seq<char>>,
    pub max_age: Option<int>,
    pub expires: Option<int>,
}

impl View for ParsedCookie {
    type V = ParsedCookieSpec;

    open spec fn view(&self) -> ParsedCookieSpec {
        ParsedCookieSpec {
            name: self.name@,
            value: self.value@,
            path: match self.path {
                Some(p) => Some(p@),
                None => None,
            },
            max_age: match self.max_age {
                Some(m) => Some(m as int),
                None => None,
            },
            expires: match self.expires {
                Some(e) => Some(e as int),
                None => None,
            },
        }
    }
}

/// What the `cookie` crate reads from a `Set-Cookie` value, or `None` where it
/// refuses the value.
pub uninterp spec fn set_cookie_parse(s: Seq<char>) -> Option<ParsedCookieSpec>;

/// Relies on `cookie::Cookie::parse` (no percent-decoding) and on the
/// accessors `name`, `value`, `path`, `max_age` and `expires_datetime` of the
/// cookie it returns.
#[verifier::external_body]
pub(crate) fn parse_set_cookie(s: &str) -> (r: Option<ParsedCookie>)
    ensures
        match r {
            Some(c) => set_cookie_parse(s@) == Some(c@),
            None => set_cookie_parse(s@) is None,
        },
{
    cookie::Cookie::parse(s).ok().map(|c| ParsedCookie {
        name: c.name().to_string(),
        value: c.value().to_string(),
        path: c.path().map(|p| p.to_string()),
        max_age: c.max_age().map(|d| d.whole_seconds()),
        expires: c.expires_datetime().map(|t| t.unix_timestamp()),
    })
}

#[verifier::external_type_specification]
#[verifier::external_body]
pub struct ExCookieJar(cookie::CookieJar);

/// The cookies a `cookie::CookieJar` holds, by name.
pub uninterp spec fn jar_cookies(jar: cookie::CookieJar) -> Map<Seq<char>, ParsedCookieSpec>;

pub open spec fn no_cookies() -> Map<Seq<char>, ParsedCookieSpec> {
    Map::empty()
}

/// Relies on `cookie::CookieJar::new`: a jar with no cookies.
#[verifier::external_body]
pub(crate) fn new_jar() -> (r: cookie::CookieJar)
    ensures
        jar_cookies(r) == no_cookies(),
{
    cookie::CookieJar::new()
}

/// The cookies of a jar after the cookie that `value` parses to is added:
/// it replaces the one of the same name.
pub open spec fn with_cookie(cookies: Map<Seq<char>, ParsedCookieSpec>, value: Seq<char>) -> Map<
    Seq<char>,
    ParsedCookieSpec,
> {
    cookies.insert(set_cookie_parse(value)->0.name, set_cookie_parse(value)->0)
}

/// Relies on `cookie::Cookie::parse` of a value that parses, and on
/// `cookie::CookieJar::add`, which replaces the cookie of the same name.
#[verifier::external_body]
pub(crate) fn add_to_jar(jar: &mut cookie::CookieJar, value: &str)
    requires
        set_cookie_parse(value@) is Some,
    ensures
        jar_cookies(*final(jar)) == with_cookie(jar_cookies(*old(jar)), value@),
{
    if let Ok(c) = cookie::Cookie::parse(value.to_owned()) {
        jar.add(c);
    }
}

/// A cookie held by a store: its name, its value and the path it is scoped to.
#[derive(Clone, Debug)]
pub struct StoredCookie {
    pub name: String,
    pub value: String,
    pub path: String,
}

pub struct CookieSpec {
    pub name: Seq<char>,
    pub value: Seq<char>,
    pub path: Seq<char>,
}

impl View for StoredCookie {
    type V = CookieSpec;

    open spec fn view(&self) -> CookieSpec {
        CookieSpec { name: self.name@, value: self.value@, path: self.path@ }
    }
}

pub open spec fn root_path() -> Seq<char> {
    seq!['/']
}

impl StoredCookie {
    /// A cookie scoped to the whole site (path `/`).
    pub fn new(name: &str, value: &str) -> (r: StoredCookie)
        ensures
            r@ == (CookieSpec { name: name@, value: value@, path: root_path() }),
    {
        proof {
            reveal_strlit("/");
            assert("/"@ =~= root_path());
        }
        StoredCookie { name: name.to_owned(), value: value.to_owned(), path: "/".to_owned() }
    }

    /// A cookie scoped to the given path.
    pub fn with_path(name: &str, value: &str, path: &str) -> (r: StoredCookie)
        ensures
            r@ == (CookieSpec { name: name@, value: value@, path: path@ }),
    {
        StoredCookie { name: name.to_owned(), value: value.to_owned(), path: path.to_owned() }
    }

    pub fn duplicate(&self) -> (r: StoredCookie)
        ensures
            r@ == self@,
    {
        StoredCookie { name: self.name.clone(), value: self.value.clone(), path: self.path.clone() }
    }
}

/// Two cookies are the same entry of a store when name and path agree.
pub open spec fn same_key(a: CookieSpec, b: CookieSpec) -> bool {
    a.name == b.name && a.path == b.path
}

/// No two entries share a name and a path.
pub open spec fn keys_unique(s: Seq<CookieSpec>) -> bool {
    forall|i: int, j: int| 0 <= i < s.len() && 0 <= j < s.len() && i != j ==> !same_key(s[i], s[j])
}

pub open spec fn has_key(s: Seq<CookieSpec>, c: CookieSpec) -> bool {
    exists|i: int| 0 <= i < s.len() && same_key(s[i], c)
}

pub open spec fn key_index(s: Seq<CookieSpec>, c: CookieSpec) -> int {
    choose|i: int| 0 <= i < s.len() && same_key(s[i], c)
}

/// Adds `c`, replacing in place the entry with the same name and path.
pub open spec fn upsert(s: Seq<CookieSpec>, c: CookieSpec) -> Seq<CookieSpec> {
    if has_key(s, c) {
        s.update(key_index(s, c), c)
    } else {
        s.push(c)
    }
}

/// Removes the entry with the name and path of `c`, if any.
pub open spec fn remove_key(s: Seq<CookieSpec>, c: CookieSpec) -> Seq<CookieSpec> {
    if has_key(s, c) {
        s.remove(key_index(s, c))
    } else {
        s
    }
}

/// The path a parsed cookie is stored under: its `Path` attribute where that
/// starts with `/`, else the root.
pub open spec fn stored_path(p: Option<Seq<char>>) -> Seq<char> {
    match p {
        Some(v) => if v.len() > 0 && v[0] == '/' {
            v
        } else {
            root_path()
        },
        None => root_path(),
    }
}

pub open spec fn stored_from(p: ParsedCookieSpec) -> CookieSpec {
    CookieSpec { name: p.name, value: p.value, path: stored_path(p.path) }
}

/// A cookie whose `Max-Age` is not positive, or, without `Max-Age`, whose
/// `Expires` is not after `now`, asks to be removed.
pub open spec fn is_expired(p: ParsedCookieSpec, now: int) -> bool {
    match p.max_age {
        Some(m) => m <= 0,
        None => match p.expires {
            Some(e) => e <= now,
            None => false,
        },
    }
}

/// The store after one parsed `Set-Cookie` value.
pub open spec fn merge_one(s: Seq<CookieSpec>, p: ParsedCookieSpec, now: int) -> Seq<CookieSpec> {
    if is_expired(p, now) {
        remove_key(s, stored_from(p))
    } else {
        upsert(s, stored_from(p))
    }
}

pub open spec fn set_cookie_name() -> Seq<char> {
    seq!['s', 'e', 't', '-', 'c', 'o', 'o', 'k', 'i', 'e']
}

/// The store after one response header: a `Set-Cookie` header that parses is
/// merged; any other header, or one that does not parse, changes nothing.
pub open spec fn merge_header(s: Seq<CookieSpec>, h: HeaderSpec, now: int) -> Seq<CookieSpec> {
    if names_match(h.name, set_cookie_name()) {
        match set_cookie_parse(h.value) {
            Some(p) => merge_one(s, p, now),
            None => s,
        }
    } else {
        s
    }
}

/// The store after every header of a response, taken in order.
pub open spec fn merge_headers(s: Seq<CookieSpec>, hs: Seq<HeaderSpec>, now: int) -> Seq<CookieSpec>
    decreases hs.len(),
{
    if hs.len() == 0 {
        s
    } else {
        merge_header(merge_headers(s, hs.drop_last(), now), hs.last(), now)
    }
}

/// A cookie scoped to `cookie_path` is sent on a request for `request_path`
/// when the paths are equal, or the cookie's path is a prefix that ends at
/// a `/` of the request path.
pub open spec fn path_matches(cookie_path: Seq<char>, request_path: Seq<char>) -> bool {
    cookie_path == request_path || (cookie_path.len() < request_path.len()
        && request_path.subrange(0, cookie_path.len() as int) == cookie_path && (
    (cookie_path.len() > 0 && cookie_path.last() == '/') || request_path[cookie_path.len() as int]
        == '/'))
}

/// The entries that a request for `path` carries, in store order.
pub open spec fn scoped(s: Seq<CookieSpec>, path: Seq<char>) -> Seq<CookieSpec>
    decreases s.len(),
{
    if s.len() == 0 {
        s
    } else if path_matches(s.last().path, path) {
        scoped(s.drop_last(), path).push(s.last())
    } else {
        scoped(s.drop_last(), path)
    }
}

/// `name=value`.
pub open spec fn pair_text(c: CookieSpec) -> Seq<char> {
    c.name + seq!['='] + c.value
}

/// The pairs of `s` joined by `; `.
pub open spec fn pairs_text(s: Seq<CookieSpec>) -> Seq<char>
    decreases s.len(),
{
    if s.len() == 0 {
        Seq::empty()
    } else if s.len() == 1 {
        pair_text(s[0])
    } else {
        pairs_text(s.drop_last()) + seq![';', ' '] + pair_text(s.last())
    }
}

/// The value of the `Cookie` header that a request for `path` carries, or
/// `None` where no entry is in scope.
pub open spec fn cookie_header_for(s: Seq<CookieSpec>, path: Seq<char>) -> Option<Seq<char>> {
    let m = scoped(s, path);
    if m.len() == 0 {
        None
    } else {
        Some(pairs_text(m))
    }
}

pub open spec fn cookies_view(v: Seq<StoredCookie>) -> Seq<CookieSpec> {
    v.map_values(|c: StoredCookie| c@)
}

/// A set of cookies, unique by name and path, in insertion order.
#[derive(Clone, Debug)]
pub struct CookieStore {
    cookies: Vec<StoredCookie>,
}

impl View for CookieStore {
    type V = Seq<CookieSpec>;

    closed spec fn view(&self) -> Seq<CookieSpec> {
        cookies_view(self.cookies@)
    }
}

impl CookieStore {
    /// No two entries share a name and a path.
    pub open spec fn wf(&self) -> bool {
        keys_unique(self@)
    }

    pub fn new() -> (r: CookieStore)
        ensures
            r.wf(),
            r@ == Seq::<CookieSpec>::empty(),
    {
        let r = CookieStore { cookies: Vec::new() };
        assert(r@ =~= Seq::<CookieSpec>::empty());
        r
    }

    pub fn len(&self) -> (r: usize)
        ensures
            r == self@.len(),
    {
        self.cookies.len()
    }

    /// The entries, in insertion order.
    pub fn entries(&self) -> (r: &Vec<StoredCookie>)
        ensures
            cookies_view(r@) == self@,
    {
        &self.cookies
    }

    pub fn duplicate(&self) -> (r: CookieStore)
        requires
            self.wf(),
        ensures
            r.wf(),
            r@ == self@,
    {
        let mut out: Vec<StoredCookie> = Vec::new();
        let mut i: usize = 0;
        while i < self.cookies.len()
            invariant
                i <= self.cookies@.len(),
                out@.len() == i,
                forall|j: int| 0 <= j < i ==> out@[j]@ == self.cookies@[j]@,
            decreases self.cookies@.len() - i,
        {
            out.push(self.cookies[i].duplicate());
            i += 1;
        }
        assert(cookies_view(out@) =~= cookies_view(self.cookies@));
        CookieStore { cookies: out }
    }

    /// The position of the entry with this name and path.
    fn find(&self, name: &str, path: &str) -> (r: Option<usize>)
        ensures
            match r {
                Some(i) => i < self@.len() && self@[i as int].name == name@ && self@[i as int].path
                    == path@,
                None => forall|j: int|
                    0 <= j < self@.len() ==> !(self@[j].name == name@ && self@[j].path == path@),
            },
    {
        let mut i: usize = 0;
        while i < self.cookies.len()
            invariant
                i <= self@.len(),
                self@.len() == self.cookies@.len(),
                forall|j: int| 0 <= j < i ==> !(self@[j].name == name@ && self@[j].path == path@),
            decreases self.cookies@.len() - i,
        {
            let c = &self.cookies[i];
            if same_text(c.name.as_str(), name) && same_text(c.path.as_str(), path) {
                return Some(i);
            }
            i += 1;
        }
        None
    }

    /// Adds a cookie, replacing the entry with the same name and path.
    pub fn add(&mut self, c: StoredCookie)
        requires
            old(self).wf(),
        ensures
            final(self).wf(),
            final(self)@ == upsert(old(self)@, c@),
    {
        let ghost s = self@;
        match self.find(c.name.as_str(), c.path.as_str()) {
            Some(i) => {
                proof {
                    assert(has_key(s, c@));
                    let k = key_index(s, c@);
                    assert(same_key(s[k], s[i as int]));
                }
                self.cookies.set(i, c);
                assert(self@ =~= s.update(i as int, c@));
                assert forall|a: int, b: int|
                    0 <= a < self@.len() && 0 <= b < self@.len() && a != b implies !same_key(
                        self@[a],
                        self@[b],
                    ) by {
                    if a != i && b != i {
                        assert(!same_key(s[a], s[b]));
                    } else if a == i {
                        assert(!same_key(s[i as int], s[b]));
                    } else {
                        assert(!same_key(s[a], s[i as int]));
                    }
                }
            },
            None => {
                self.cookies.push(c);
                assert(self@ =~= s.push(c@));
                assert forall|a: int, b: int|
                    0 <= a < self@.len() && 0 <= b < self@.len() && a != b implies !same_key(
                        self@[a],
                        self@[b],
                    ) by {
                    if a < s.len() && b < s.len() {
                        assert(!same_key(s[a], s[b]));
                    }
                }
            },
        }
    }

    /// Removes the entry with the name and path of `c`, if there is one.
    pub fn remove(&mut self, c: &StoredCookie)
        requires
            old(self).wf(),
        ensures
            final(self).wf(),
            final(self)@ == remove_key(old(self)@, c@),
    {
        let ghost s = self@;
        match self.find(c.name.as_str(), c.path.as_str()) {
            Some(i) => {
                proof {
                    assert(has_key(s, c@));
                    let k = key_index(s, c@);
                    assert(same_key(s[k], s[i as int]));
                }
                self.cookies.remove(i);
                assert(self@ =~= s.remove(i as int));
                assert forall|a: int, b: int|
                    0 <= a < self@.len() && 0 <= b < self@.len() && a != b implies !same_key(
                        self@[a],
                        self@[b],
                    ) by {
                    let a0 = if a < i { a } else { a + 1 };
                    let b0 = if b < i { b } else { b + 1 };
                    assert(!same_key(s[a0], s[b0]));
                }
            },
            None => {},
        }
    }

    /// Removes every entry.
    pub fn clear(&mut self)
        ensures
            final(self).wf(),
            final(self)@ == Seq::<CookieSpec>::empty(),
    {
        self.cookies.clear();
        assert(self@ =~= Seq::<CookieSpec>::empty());
    }
}

/// The entry that a parsed `Set-Cookie` value stands for.
pub fn stored_from_parsed(p: &ParsedCookie) -> (r: StoredCookie)
    ensures
        r@ == stored_from(p@),
{
    proof {
        reveal_strlit("/");
        assert("/"@ =~= root_path());
    }
    let path = match &p.path {
        Some(v) => {
            if v.as_str().unicode_len() > 0 && v.as_str().get_char(0) == '/' {
                v.clone()
            } else {
                "/".to_owned()
            }
        },
        None => "/".to_owned(),
    };
    StoredCookie { name: p.name.clone(), value: p.value.clone(), path }
}

/// Whether a parsed cookie asks to be removed at time `now`.
pub fn parsed_is_expired(p: &ParsedCookie, now: i64) -> (r: bool)
    ensures
        r == is_expired(p@, now as int),
{
    match p.max_age {
        Some(m) => m <= 0,
        None => match p.expires {
            Some(e) => e <= now,
            None => false,
        },
    }
}

/// Whether a cookie scoped to `cookie_path` is sent on a request for
/// `request_path`.
pub fn path_in_scope(cookie_path: &str, request_path: &str) -> (r: bool)
    ensures
        r == path_matches(cookie_path@, request_path@),
{
    let n = cookie_path.unicode_len();
    let m = request_path.unicode_len();
    if n > m {
        return false;
    }
    let mut i: usize = 0;
    while i < n
        invariant
            n == cookie_path@.len(),
            m == request_path@.len(),
            n <= m,
            i <= n,
            forall|j: int| 0 <= j < i ==> cookie_path@[j] == request_path@[j],
        decreases n - i,
    {
        if cookie_path.get_char(i) != request_path.get_char(i) {
            return false;
        }
        i += 1;
    }
    assert(request_path@.subrange(0, n as int) =~= cookie_path@);
    if n == m {
        assert(request_path@ =~= cookie_path@);
        return true;
    }
    (n > 0 && cookie_path.get_char(n - 1) == '/') || request_path.get_char(n) == '/'
}

proof fn lemma_pairs_text_push(m: Seq<CookieSpec>, c: CookieSpec)
    ensures
        pairs_text(m.push(c)) == (if m.len() == 0 {
            pair_text(c)
        } else {
            pairs_text(m) + seq![';', ' '] + pair_text(c)
        }),
{
    assert(m.push(c).drop_last() =~= m);
    if m.len() == 0 {
        assert(m.push(c)[0] == c);
    }
}

/// The pairs of `v` as the value of a `Cookie` header: `a=1; b=2`.
pub fn join_pairs(v: &Vec<StoredCookie>) -> (r: String)
    ensures
        r@ == pairs_text(cookies_view(v@)),
{
    proof {
        reveal_strlit("=");
        reveal_strlit("; ");
        assert("="@ =~= seq!['=']);
        assert("; "@ =~= seq![';', ' ']);
    }
    let mut out = String::new();
    let mut i: usize = 0;
    while i < v.len()
        invariant
            i <= v@.len(),
            "="@ == seq!['='],
            "; "@ == seq![';', ' '],
            out@ == pairs_text(cookies_view(v@.subrange(0, i as int))),
        decreases v@.len() - i,
    {
        let ghost before = cookies_view(v@.subrange(0, i as int));
        let ghost prev = out@;
        proof {
            assert(cookies_view(v@.subrange(0, i + 1)) =~= before.push(v@[i as int]@));
            lemma_pairs_text_push(before, v@[i as int]@);
        }
        if i > 0 {
            out.append("; ");
        }
        out.append(v[i].name.as_str());
        out.append("=");
        out.append(v[i].value.as_str());
        proof {
            if i == 0 {
                assert(out@ =~= pair_text(v@[i as int]@));
            } else {
                assert(out@ =~= prev + seq![';', ' '] + pair_text(v@[i as int]@));
            }
        }
        i += 1;
    }
    assert(v@.subrange(0, v@.len() as int) =~= v@);
    out
}

impl CookieStore {
    /// Merges one parsed `Set-Cookie` value: one that has expired at `now`
    /// removes the matching entry, any other replaces or adds it.
    pub fn merge_parsed(&mut self, p: &ParsedCookie, now: i64)
        requires
            old(self).wf(),
        ensures
            final(self).wf(),
            final(self)@ == merge_one(old(self)@, p@, now as int),
    {
        let c = stored_from_parsed(p);
        if parsed_is_expired(p, now) {
            self.remove(&c);
        } else {
            self.add(c);
        }
    }

    /// Merges every `Set-Cookie` header of a response, in order. Values that
    /// do not parse as a cookie are passed over.
    pub fn merge_response_headers(&mut self, hs: &Vec<Header>, now: i64)
        requires
            old(self).wf(),
        ensures
            final(self).wf(),
            final(self)@ == merge_headers(old(self)@, headers_view(hs@), now as int),
    {
        let ghost s0 = self@;
        proof {
            reveal_strlit("set-cookie");
            assert("set-cookie"@ =~= set_cookie_name());
        }
        let mut i: usize = 0;
        while i < hs.len()
            invariant
                i <= hs@.len(),
                self.wf(),
                "set-cookie"@ == set_cookie_name(),
                self@ == merge_headers(s0, headers_view(hs@.subrange(0, i as int)), now as int),
            decreases hs@.len() - i,
        {
            proof {
                assert(headers_view(hs@.subrange(0, i + 1)).drop_last() =~= headers_view(
                    hs@.subrange(0, i as int),
                ));
                assert(headers_view(hs@.subrange(0, i + 1)).last() == hs@[i as int]@);
            }
            if header_names_match(hs[i].name.as_str(), "set-cookie") {
                match parse_set_cookie(hs[i].value.as_str()) {
                    Some(p) => self.merge_parsed(&p, now),
                    None => {},
                }
            }
            i += 1;
        }
        assert(hs@.subrange(0, hs@.len() as int) =~= hs@);
    }

    /// The entries that a request for `path` carries, in store order.
    pub fn in_scope(&self, path: &str) -> (r: Vec<StoredCookie>)
        ensures
            cookies_view(r@) == scoped(self@, path@),
    {
        let mut out: Vec<StoredCookie> = Vec::new();
        let mut i: usize = 0;
        while i < self.cookies.len()
            invariant
                i <= self.cookies@.len(),
                cookies_view(out@) == scoped(cookies_view(self.cookies@.subrange(0, i as int)), path@),
            decreases self.cookies@.len() - i,
        {
            let ghost sub = cookies_view(self.cookies@.subrange(0, i + 1));
            proof {
                assert(sub.drop_last() =~= cookies_view(self.cookies@.subrange(0, i as int)));
                assert(sub.last() == self.cookies@[i as int]@);
            }
            if path_in_scope(self.cookies[i].path.as_str(), path) {
                let c = self.cookies[i].duplicate();
                out.push(c);
                assert(cookies_view(out@) =~= scoped(sub.drop_last(), path@).push(sub.last()));
            }
            i += 1;
        }
        assert(self.cookies@.subrange(0, self.cookies@.len() as int) =~= self.cookies@);
        out
    }

    /// The value of the `Cookie` header that a request for `path` carries,
    /// or `None` where no entry is in scope.
    pub fn request_header(&self, path: &str) -> (r: Option<String>)
        ensures
            match r {
                Some(v) => cookie_header_for(self@, path@) == Some(v@),
                None => cookie_header_for(self@, path@) is None,
            },
    {
        let m = self.in_scope(path);
        if m.len() == 0 {
            None
        } else {
            Some(join_pairs(&m))
        }
    }
}

proof fn lemma_upsert_unique(s: Seq<CookieSpec>, c: CookieSpec)
    requires
        keys_unique(s),
    ensures
        keys_unique(upsert(s, c)),
        upsert(s, c).contains(c),
{
    let r = upsert(s, c);
    if has_key(s, c) {
        let k = key_index(s, c);
        assert(r[k] == c);
        assert forall|a: int, b: int| 0 <= a < r.len() && 0 <= b < r.len() && a != b implies !same_key(
            r[a],
            r[b],
        ) by {
            if a != k && b != k {
                assert(!same_key(s[a], s[b]));
            } else if a == k {
                assert(!same_key(s[k], s[b]));
            } else {
                assert(!same_key(s[a], s[k]));
            }
        }
    } else {
        assert(r[s.len() as int] == c);
        assert forall|a: int, b: int| 0 <= a < r.len() && 0 <= b < r.len() && a != b implies !same_key(
            r[a],
            r[b],
        ) by {
            if a < s.len() && b < s.len() {
                assert(!same_key(s[a], s[b]));
            }
        }
    }
}

proof fn lemma_remove_unique(s: Seq<CookieSpec>, c: CookieSpec)
    requires
        keys_unique(s),
    ensures
        keys_unique(remove_key(s, c)),
{
    if has_key(s, c) {
        let k = key_index(s, c);
        let r = s.remove(k);
        assert forall|a: int, b: int| 0 <= a < r.len() && 0 <= b < r.len() && a != b implies !same_key(
            r[a],
            r[b],
        ) by {
            let a0 = if a < k { a } else { a + 1 };
            let b0 = if b < k { b } else { b + 1 };
            assert(!same_key(s[a0], s[b0]));
        }
    }
}

proof fn lemma_merge_headers_unique(s: Seq<CookieSpec>, hs: Seq<HeaderSpec>, now: int)
    requires
        keys_unique(s),
    ensures
        keys_unique(merge_headers(s, hs, now)),
    decreases hs.len(),
{
    if hs.len() > 0 {
        lemma_merge_headers_unique(s, hs.drop_last(), now);
        let m = merge_headers(s, hs.drop_last(), now);
        let h = hs.last();
        if names_match(h.name, set_cookie_name()) {
            if let Some(p) = set_cookie_parse(h.value) {
                lemma_upsert_unique(m, stored_from(p));
                lemma_remove_unique(m, stored_from(p));
            }
        }
    }
}

proof fn lemma_scoped_contains(s: Seq<CookieSpec>, path: Seq<char>, i: int)
    requires
        0 <= i < s.len(),
        path_matches(s[i].path, path),
    ensures
        scoped(s, path).contains(s[i]),
    decreases s.len(),
{
    if i == s.len() - 1 {
        assert(scoped(s, path).last() == s[i]);
    } else {
        assert(s.drop_last()[i] == s[i]);
        lemma_scoped_contains(s.drop_last(), path, i);
        let m = scoped(s.drop_last(), path);
        let j = choose|j: int| 0 <= j < m.len() && m[j] == s[i];
        if path_matches(s.last().path, path) {
            assert(scoped(s, path)[j] == s[i]);
        }
    }
}

/// A response header that replaces or removes the entry of `c`: a
/// `Set-Cookie` that parses to a cookie with the same name and path.
pub open spec fn touches(h: HeaderSpec, c: CookieSpec) -> bool {
    names_match(h.name, set_cookie_name()) && match set_cookie_parse(h.value) {
        Some(q) => same_key(stored_from(q), c),
        None => false,
    }
}

proof fn lemma_merge_header_keeps(m: Seq<CookieSpec>, h: HeaderSpec, now: int, c: CookieSpec)
    requires
        keys_unique(m),
        m.contains(c),
        !touches(h, c),
    ensures
        merge_header(m, h, now).contains(c),
{
    let i = choose|i: int| 0 <= i < m.len() && m[i] == c;
    if names_match(h.name, set_cookie_name()) {
        if let Some(q) = set_cookie_parse(h.value) {
            let d = stored_from(q);
            if has_key(m, d) {
                let k = key_index(m, d);
                assert(k != i);
                if is_expired(q, now) {
                    let r = m.remove(k);
                    if i < k {
                        assert(r[i] == c);
                    } else {
                        assert(r[i - 1] == c);
                    }
                } else {
                    assert(m.update(k, d)[i] == c);
                }
            } else if !is_expired(q, now) {
                assert(m.push(d)[i] == c);
            }
        }
    }
}

proof fn lemma_set_cookie_kept(
    s: Seq<CookieSpec>,
    before: Seq<HeaderSpec>,
    h: HeaderSpec,
    after: Seq<HeaderSpec>,
    now: int,
)
    requires
        keys_unique(s),
        names_match(h.name, set_cookie_name()),
        set_cookie_parse(h.value) is Some,
        !is_expired(set_cookie_parse(h.value)->0, now),
        forall|j: int| 0 <= j < after.len() ==> !touches(after[j], stored_from(set_cookie_parse(h.value)->0)),
    ensures
        merge_headers(s, before.push(h) + after, now).contains(stored_from(set_cookie_parse(h.value)->0)),
    decreases after.len(),
{
    let c = stored_from(set_cookie_parse(h.value)->0);
    let all = before.push(h) + after;
    if after.len() == 0 {
        assert(all =~= before.push(h));
        assert(all.drop_last() =~= before);
        lemma_merge_headers_unique(s, before, now);
        lemma_upsert_unique(merge_headers(s, before, now), c);
    } else {
        let shorter = after.drop_last();
        assert(all.drop_last() =~= before.push(h) + shorter);
        assert(all.last() == after.last());
        assert forall|j: int| 0 <= j < shorter.len() implies !touches(shorter[j], c) by {
            assert(shorter[j] == after[j]);
        }
        lemma_set_cookie_kept(s, before, h, shorter, now);
        lemma_merge_headers_unique(s, all.drop_last(), now);
        lemma_merge_header_keeps(merge_headers(s, all.drop_last(), now), after.last(), now, c);
    }
}

/// A cookie that a saving request's response sets, that has not expired,
/// and that no later `Set-Cookie` of the same response replaces or removes,
/// is carried by the next request to any path in its scope: the store's
/// `Cookie` header for that path exists and includes its name and value.
pub proof fn lemma_saved_cookie_is_sent(
    s: Seq<CookieSpec>,
    before: Seq<HeaderSpec>,
    h: HeaderSpec,
    after: Seq<HeaderSpec>,
    now: int,
    path: Seq<char>,
)
    requires
        keys_unique(s),
        names_match(h.name, set_cookie_name()),
        set_cookie_parse(h.value) is Some,
        !is_expired(set_cookie_parse(h.value)->0, now),
        path_matches(stored_path(set_cookie_parse(h.value)->0.path), path),
        forall|j: int| 0 <= j < after.len() ==> !touches(after[j], stored_from(set_cookie_parse(h.value)->0)),
    ensures
        ({
            let store = merge_headers(s, before.push(h) + after, now);
            let c = stored_from(set_cookie_parse(h.value)->0);
            &&& keys_unique(store)
            &&& scoped(store, path).contains(c)
            &&& cookie_header_for(store, path) == Some(pairs_text(scoped(store, path)))
        }),
{
    let store = merge_headers(s, before.push(h) + after, now);
    let c = stored_from(set_cookie_parse(h.value)->0);
    lemma_merge_headers_unique(s, before.push(h) + after, now);
    lemma_set_cookie_kept(s, before, h, after, now);
    let i = choose|i: int| 0 <= i < store.len() && store[i] == c;
    lemma_scoped_contains(store, path, i);
}

} // verus!
