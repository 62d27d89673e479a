//! Header lists: ordered, multi-valued, with names compared without regard
//! to ASCII case.
use vstd::prelude::*;

verus! {

/// One header line: a name and its value.
#[derive(Clone, Debug)]
pub struct Header {
    pub name: String,
    pub value: String,
}

/// The mathematical value of a header.
pub struct HeaderSpec {
    pub name: Seq<char>,
    pub value: Seq<char>,
}

impl View for Header {
    type V = HeaderSpec;

    open spec fn view(&self) -> HeaderSpec {
        HeaderSpec { name: self.name@, value: self.value@ }
    }
}

/// The view of a list of headers, in order.
pub open spec fn headers_view(hs: Seq<Header>) -> Seq<HeaderSpec> {
    hs.map_values(|h: Header| h@)
}

pub open spec fn is_ascii_upper(c: char) -> bool {
    'A' <= c && c <= 'Z'
}

/// Two characters are equal once ASCII upper case is folded to lower case.
pub open spec fn char_eq_ignore_case(a: char, b: char) -> bool {
    a == b || (is_ascii_upper(a) && a as u32 + 32 == b as u32) || (is_ascii_upper(b) && b as u32
        + 32 == a as u32)
}

/// Header names match when they have the same length and match character by
/// character without regard to ASCII case.
pub open spec fn names_match(a: Seq<char>, b: Seq<char>) -> bool {
    a.len() == b.len() && forall|i: int| 0 <= i < a.len() ==> char_eq_ignore_case(a[i], b[i])
}

/// The values of every header whose name matches `name`, in order.
pub open spec fn values_named(hs: Seq<HeaderSpec>, name: Seq<char>) -> Seq<Seq<char>>
    decreases hs.len(),
{
    if hs.len() == 0 {
        Seq::empty()
    } else {
        let rest = values_named(hs.drop_last(), name);
        if names_match(hs.last().name, name) {
            rest.push(hs.last().value)
        } else {
            rest
        }
    }
}

fn char_matches(a: char, b: char) -> (r: bool)
    ensures
        r == char_eq_ignore_case(a, b),
{
    let x = a as u32;
    let y = b as u32;
    x == y || ('A' <= a && a <= 'Z' && x + 32 == y) || ('A' <= b && b <= 'Z' && y + 32 == x)
}

/// Compares two header names without regard to ASCII case.
pub fn header_names_match(a: &str, b: &str) -> (r: bool)
    ensures
        r == names_match(a@, b@),
{
    let n = a.unicode_len();
    if n != b.unicode_len() {
        return false;
    }
    let mut i: usize = 0;
    while i < n
        invariant
            n == a@.len() == b@.len(),
            i <= n,
            forall|j: int| 0 <= j < i ==> char_eq_ignore_case(a@[j], b@[j]),
        decreases n - i,
    {
        if !char_matches(a.get_char(i), b.get_char(i)) {
            return false;
        }
        i += 1;
    }
    true
}

/// Exact comparison of two strings, character by character.
pub fn same_text(a: &str, b: &str) -> (r: bool)
    ensures
        r == (a@ == b@),
{
    let n = a.unicode_len();
    if n != b.unicode_len() {
        return false;
    }
    let mut i: usize = 0;
    while i < n
        invariant
            n == a@.len() == b@.len(),
            i <= n,
            forall|j: int| 0 <= j < i ==> a@[j] == b@[j],
        decreases n - i,
    {
        if a.get_char(i) != b.get_char(i) {
            return false;
        }
        i += 1;
    }
    assert(a@ =~= b@);
    true
}

/// The values of every header named `name`, in the order they appear.
pub fn header_values(hs: &Vec<Header>, name: &str) -> (r: Vec<String>)
    ensures
        r@.map_values(|s: String| s@) == values_named(headers_view(hs@), name@),
{
    let mut out: Vec<String> = Vec::new();
    let mut i: usize = 0;
    while i < hs.len()
        invariant
            i <= hs@.len(),
            out@.map_values(|s: String| s@) == values_named(headers_view(hs@.subrange(0, i as int)), name@),
        decreases hs@.len() - i,
    {
        proof {
            assert(headers_view(hs@.subrange(0, i + 1)).drop_last() =~= headers_view(hs@.subrange(0, i as int)));
        }
        if header_names_match(hs[i].name.as_str(), name) {
            out.push(hs[i].value.clone());
            assert(out@.map_values(|s: String| s@) =~= values_named(headers_view(hs@.subrange(0, i as int)), name@).push(hs@[i as int].value@));
        }
        i += 1;
    }
    assert(hs@.subrange(0, hs@.len() as int) =~= hs@);
    out
}

/// The value of the first header named `name`, if there is one.
pub fn first_header_value(hs: &Vec<Header>, name: &str) -> (r: Option<String>)
    ensures
        values_named(headers_view(hs@), name@).len() == 0 ==> r is None,
        values_named(headers_view(hs@), name@).len() > 0 ==> r is Some && r->0@ == values_named(headers_view(hs@), name@)[0],
{
    let all = header_values(hs, name);
    if all.len() == 0 {
        None
    } else {
        assert(all@.map_values(|s: String| s@)[0] == all@[0]@);
        Some(all[0].clone())
    }
}

impl Header {
    pub fn new(name: &str, value: &str) -> (r: Header)
        ensures
            r@ == (HeaderSpec { name: name@, value: value@ }),
    {
        Header { name: name.to_owned(), value: value.to_owned() }
    }

    pub fn duplicate(&self) -> (r: Header)
        ensures
            r@ == self@,
    {
        Header { name: self.name.clone(), value: self.value.clone() }
    }
}

/// A copy of a header list.
pub fn copy_headers(hs: &Vec<Header>) -> (r: Vec<Header>)
    ensures
        headers_view(r@) == headers_view(hs@),
{
    let mut out: Vec<Header> = Vec::new();
    let mut i: usize = 0;
    while i < hs.len()
        invariant
            i <= hs@.len(),
            out@.len() == i,
            forall|j: int| 0 <= j < i ==> out@[j]@ == hs@[j]@,
        decreases hs@.len() - i,
    {
        out.push(hs[i].duplicate());
        i += 1;
    }
    assert(headers_view(out@) =~= headers_view(hs@));
    out
}

} // verus!
