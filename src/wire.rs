//! HTTP/1.1 framing for a live socket: requests and responses as bytes,
//! with bodies framed by `Content-Length`.
use vstd::prelude::*;
use vstd::string::StringSliceAdditionalSpecFns;
use vstd::utf8::encode_utf8;

use crate::body::{lossy_text, utf8_lossy};
use crate::error::TransportError;
use crate::headers::{header_names_match, headers_view, values_named, Header, HeaderSpec};
use crate::request::{method_name, Method};
use crate::server::{path_of_url, url_path, PreparedRequest, RawResponse};
use crate::status::{decimal, decimal_text, digit_char};

verus! {

pub open spec fn crlf() -> Seq<u8> {
    seq![13u8, 10u8]
}

/// `HTTP/1.1 `
pub open spec fn version_prefix() -> Seq<u8> {
    seq![72u8, 84u8, 84u8, 80u8, 47u8, 49u8, 46u8, 49u8, 32u8]
}

/// ` HTTP/1.1`
pub open spec fn version_suffix() -> Seq<u8> {
    seq![32u8, 72u8, 84u8, 84u8, 80u8, 47u8, 49u8, 46u8, 49u8]
}

/// `name: value` and a line end.
pub open spec fn field_line(h: HeaderSpec) -> Seq<u8> {
    encode_utf8(h.name) + seq![58u8, 32u8] + encode_utf8(h.value) + crlf()
}

/// The header lines of `hs`, in order.
pub open spec fn field_block(hs: Seq<HeaderSpec>) -> Seq<u8>
    decreases hs.len(),
{
    if hs.len() == 0 {
        Seq::empty()
    } else {
        field_block(hs.drop_last()) + field_line(hs.last())
    }
}

pub open spec fn content_length_name() -> Seq<char> {
    "content-length"@
}

/// The header that frames a body of `n` bytes.
pub open spec fn length_field(n: nat) -> HeaderSpec {
    HeaderSpec { name: content_length_name(), value: decimal(n) }
}

/// The header lines, the framing header and the blank line that ends them.
pub open spec fn head_wire(hs: Seq<HeaderSpec>, body_len: nat) -> Seq<u8> {
    field_block(hs.push(length_field(body_len))) + crlf()
}

/// The three digits of a status code.
pub open spec fn status_digits(code: int) -> Seq<u8> {
    seq![(48 + code / 100) as u8, (48 + (code / 10) % 10) as u8, (48 + code % 10) as u8]
}

/// A response as it goes over the wire: status line with an empty reason,
/// the headers, a `content-length` header, a blank line, the body.
pub open spec fn response_wire(status: u16, hs: Seq<HeaderSpec>, body: Seq<u8>) -> Seq<u8> {
    version_prefix() + status_digits(status as int) + seq![32u8] + crlf() + head_wire(hs, body.len())
        + body
}

/// A request as it goes over the wire: request line with the full URL as
/// target, the headers, a `content-length` header, a blank line, the body.
pub open spec fn request_wire(method: Method, url: Seq<char>, hs: Seq<HeaderSpec>, body: Seq<u8>) -> Seq<
    u8,
> {
    encode_utf8(method_name(method)) + seq![32u8] + encode_utf8(url) + version_suffix() + crlf()
        + head_wire(hs, body.len()) + body
}

fn append_bytes(v: &mut Vec<u8>, s: &[u8])
    ensures
        final(v)@ == old(v)@ + s@,
{
    let mut i: usize = 0;
    while i < s.len()
        invariant
            i <= s@.len(),
            v@ == old(v)@ + s@.subrange(0, i as int),
        decreases s@.len() - i,
    {
        v.push(s[i]);
        i += 1;
        assert(v@ =~= old(v)@ + s@.subrange(0, i as int));
    }
    assert(s@.subrange(0, s@.len() as int) =~= s@);
}

fn append_field(v: &mut Vec<u8>, h: &Header)
    ensures
        final(v)@ == old(v)@ + field_line(h@),
{
    append_bytes(v, h.name.as_str().as_bytes());
    v.push(58u8);
    v.push(32u8);
    append_bytes(v, h.value.as_str().as_bytes());
    v.push(13u8);
    v.push(10u8);
    assert(v@ =~= old(v)@ + field_line(h@));
}

fn append_head(v: &mut Vec<u8>, hs: &Vec<Header>, body_len: usize)
    ensures
        final(v)@ == old(v)@ + head_wire(headers_view(hs@), body_len as nat),
{
    let ghost start = v@;
    let mut i: usize = 0;
    while i < hs.len()
        invariant
            i <= hs@.len(),
            v@ == start + field_block(headers_view(hs@.subrange(0, i as int))),
        decreases hs@.len() - i,
    {
        let ghost prev = headers_view(hs@.subrange(0, i as int));
        append_field(v, &hs[i]);
        proof {
            let next = headers_view(hs@.subrange(0, i + 1));
            assert(next.drop_last() =~= prev);
            assert(next.last() == hs@[i as int]@);
            assert(v@ =~= start + field_block(next));
        }
        i += 1;
    }
    assert(hs@.subrange(0, hs@.len() as int) =~= hs@);
    let ghost all = headers_view(hs@);
    proof {
        reveal_strlit("content-length");
    }
    let length = Header::new("content-length", decimal_text(body_len as u64).as_str());
    append_field(v, &length);
    v.push(13u8);
    v.push(10u8);
    proof {
        let with_length = all.push(length_field(body_len as nat));
        assert(with_length.drop_last() =~= all);
        assert(v@ =~= start + head_wire(all, body_len as nat));
    }
}

/// The bytes a live socket server writes for a response.
pub fn encode_response(r: &RawResponse) -> (out: Vec<u8>)
    requires
        100 <= r.status <= 999,
    ensures
        out@ == response_wire(r.status, headers_view(r.headers@), r.body@),
{
    let mut v: Vec<u8> = vec![72u8, 84u8, 84u8, 80u8, 47u8, 49u8, 46u8, 49u8, 32u8];
    v.push((48 + r.status / 100) as u8);
    v.push((48 + (r.status / 10) % 10) as u8);
    v.push((48 + r.status % 10) as u8);
    v.push(32u8);
    v.push(13u8);
    v.push(10u8);
    append_head(&mut v, &r.headers, r.body.len());
    append_bytes(&mut v, r.body.as_slice());
    assert(v@ =~= response_wire(r.status, headers_view(r.headers@), r.body@));
    v
}

/// The bytes a client writes on a live socket for a prepared request.
pub fn encode_request(p: &PreparedRequest) -> (out: Vec<u8>)
    ensures
        out@ == request_wire(p.method, p.url@, headers_view(p.headers@), p.body@),
{
    let mut v: Vec<u8> = Vec::new();
    append_bytes(&mut v, p.method.as_str().as_bytes());
    v.push(32u8);
    append_bytes(&mut v, p.url.as_str().as_bytes());
    append_bytes(&mut v, vec![32u8, 72u8, 84u8, 84u8, 80u8, 47u8, 49u8, 46u8, 49u8, 13u8, 10u8].as_slice());
    append_head(&mut v, &p.headers, p.body.len());
    append_bytes(&mut v, p.body.as_slice());
    assert(v@ =~= request_wire(p.method, p.url@, headers_view(p.headers@), p.body@));
    v
}

/// The bytes of a header are free of what would end or split its line: the
/// name is non-empty and holds no CR or `:`; the value holds no CR and does
/// not start with a space or a tab.
pub open spec fn valid_field(h: HeaderSpec) -> bool {
    let n = encode_utf8(h.name);
    let v = encode_utf8(h.value);
    &&& n.len() > 0
    &&& forall|i: int| 0 <= i < n.len() ==> n[i] != 13u8 && n[i] != 58u8
    &&& forall|i: int| 0 <= i < v.len() ==> v[i] != 13u8
    &&& v.len() > 0 ==> v[0] != 32u8 && v[0] != 9u8
}

pub open spec fn valid_fields(hs: Seq<HeaderSpec>) -> bool {
    forall|i: int| 0 <= i < hs.len() ==> valid_field(hs[i])
}

pub open spec fn is_crlf_at(b: Seq<u8>, i: int) -> bool {
    0 <= i && i + 1 < b.len() && b[i] == 13u8 && b[i + 1] == 10u8
}

/// The first line end at or after `from`.
fn find_crlf(b: &Vec<u8>, from: usize) -> (r: Option<usize>)
    ensures
        match r {
            Some(e) => from <= e && is_crlf_at(b@, e as int) && forall|j: int|
                from <= j < e ==> !is_crlf_at(b@, j),
            None => forall|j: int| from <= j ==> !is_crlf_at(b@, j),
        },
{
    if from >= b.len() {
        return None;
    }
    let mut i: usize = from;
    while i < b.len() - 1
        invariant
            from <= i < b@.len(),
            forall|j: int| from <= j < i ==> !is_crlf_at(b@, j),
        decreases b@.len() - i,
    {
        if b[i] == 13u8 && b[i + 1] == 10u8 {
            return Some(i);
        }
        i += 1;
    }
    None
}

/// The first `:` in `[from, to)`.
fn find_colon(b: &Vec<u8>, from: usize, to: usize) -> (r: Option<usize>)
    requires
        to <= b@.len(),
    ensures
        match r {
            Some(c) => from <= c < to && b@[c as int] == 58u8 && forall|j: int|
                from <= j < c ==> b@[j] != 58u8,
            None => forall|j: int| from <= j < to ==> b@[j] != 58u8,
        },
{
    let mut i: usize = from;
    while i < to
        invariant
            from <= i,
            to <= b@.len(),
            forall|j: int| from <= j < i ==> b@[j] != 58u8,
        decreases to - i,
    {
        if b[i] == 58u8 {
            return Some(i);
        }
        i += 1;
    }
    None
}

fn copy_range(b: &Vec<u8>, from: usize, to: usize) -> (r: Vec<u8>)
    requires
        from <= to <= b@.len(),
    ensures
        r@ == b@.subrange(from as int, to as int),
{
    let mut v: Vec<u8> = Vec::new();
    let mut i: usize = from;
    while i < to
        invariant
            from <= i <= to <= b@.len(),
            v@ == b@.subrange(from as int, i as int),
        decreases to - i,
    {
        v.push(b[i]);
        i += 1;
        assert(v@ =~= b@.subrange(from as int, i as int));
    }
    v
}

fn text_of(b: &Vec<u8>, from: usize, to: usize) -> (r: String)
    requires
        from <= to <= b@.len(),
    ensures
        r@ == utf8_lossy(b@.subrange(from as int, to as int)),
        vstd::utf8::valid_utf8(b@.subrange(from as int, to as int)) ==> r@ == vstd::utf8::decode_utf8(
            b@.subrange(from as int, to as int),
        ),
{
    let v = copy_range(b, from, to);
    lossy_text(v.as_slice())
}

proof fn lemma_field_block_concat(a: Seq<HeaderSpec>, c: Seq<HeaderSpec>)
    ensures
        field_block(a + c) == field_block(a) + field_block(c),
    decreases c.len(),
{
    if c.len() == 0 {
        assert(a + c =~= a);
        assert(field_block(a) + field_block(c) =~= field_block(a));
    } else {
        assert((a + c).drop_last() =~= a + c.drop_last());
        lemma_field_block_concat(a, c.drop_last());
        assert(field_block(a + c) =~= field_block(a) + field_block(c));
    }
}

/// Where the line of field `k` starts and what it is.
proof fn lemma_field_at(hs: Seq<HeaderSpec>, k: int)
    requires
        0 <= k < hs.len(),
    ensures
        field_block(hs) == field_block(hs.subrange(0, k)) + field_line(hs[k]) + field_block(
            hs.subrange(k + 1, hs.len() as int),
        ),
        field_block(hs.subrange(0, k + 1)) == field_block(hs.subrange(0, k)) + field_line(hs[k]),
{
    let pre = hs.subrange(0, k);
    let one = seq![hs[k]];
    let post = hs.subrange(k + 1, hs.len() as int);
    assert(hs =~= pre + one + post);
    lemma_field_block_concat(pre + one, post);
    lemma_field_block_concat(pre, one);
    assert(one.drop_last() =~= Seq::<HeaderSpec>::empty());
    assert(one.last() == hs[k]);
    assert(field_block(one.drop_last()) =~= Seq::<u8>::empty());
    assert(field_block(one) =~= field_line(hs[k]));
    assert(hs.subrange(0, k + 1) =~= pre + one);
}

/// Parses header lines from `pos` up to and including the blank line, and
/// returns them with the position after it. Where `w` holds fields whose
/// wire form, and a blank line, stand at `pos`, those fields come back.
fn parse_fields(b: &Vec<u8>, pos: usize, w: Ghost<Option<Seq<HeaderSpec>>>) -> (r: Option<
    (Vec<Header>, usize),
>)
    requires
        pos <= b@.len(),
        w@ matches Some(hs) ==> valid_fields(hs) && pos + field_block(hs).len() + 2 <= b@.len()
            && b@.subrange(pos as int, pos + field_block(hs).len() + 2) == field_block(hs) + crlf(),
    ensures
        r matches Some((_, end)) ==> pos < end <= b@.len(),
        w@ matches Some(hs) ==> (r matches Some((v, end)) && headers_view(v@) == hs && end == pos
            + field_block(hs).len() + 2),
{
    broadcast use vstd::utf8::encode_utf8_valid_utf8, vstd::utf8::encode_utf8_decode_utf8;

    let ghost wit: bool = w@ is Some;
    let ghost hs: Seq<HeaderSpec> = match w@ {
        Some(h) => h,
        None => Seq::empty(),
    };
    let ghost blk = field_block(hs);
    let blen = b.len();
    let mut out: Vec<Header> = Vec::new();
    let mut p: usize = pos;
    let ghost mut k: int = 0;
    assert(hs.subrange(0, 0) =~= Seq::<HeaderSpec>::empty());
    assert(headers_view(out@) =~= Seq::<HeaderSpec>::empty());
    loop
        invariant
            pos <= p <= b@.len(),
            blen == b@.len(),
            wit == w@ is Some,
            w@ matches Some(h) ==> h == hs,
            blk == field_block(hs),
            wit ==> {
                &&& valid_fields(hs)
                &&& 0 <= k <= hs.len()
                &&& p == pos + field_block(hs.subrange(0, k)).len()
                &&& headers_view(out@) == hs.subrange(0, k)
                &&& pos + blk.len() + 2 <= b@.len()
                &&& b@.subrange(pos as int, pos + blk.len() + 2) == blk + crlf()
            },
        decreases b@.len() - p,
    {
        let ghost more: bool = k < hs.len();
        let ghost n: Seq<u8> = if more { encode_utf8(hs[k].name) } else { Seq::empty() };
        let ghost v: Seq<u8> = if more { encode_utf8(hs[k].value) } else { Seq::empty() };
        let ghost line: Seq<u8> = n + seq![58u8, 32u8] + v + crlf();
        let ghost len: int = if more { line.len() as int } else { 2 };
        assert(wit ==> p + len <= b@.len() && (more ==> line == field_line(hs[k])) && (forall|j: int|
            0 <= j < len ==> #[trigger] b@[p + j] == (if more { line[j] } else { crlf()[j] }))) by {
            if wit {
                let whole = b@.subrange(pos as int, pos + blk.len() + 2);
                if more {
                    lemma_field_at(hs, k);
                    let pre = field_block(hs.subrange(0, k));
                    assert forall|j: int| 0 <= j < len implies b@[p + j] == line[j] by {
                        assert(whole[(pre.len() + j) as int] == (blk + crlf())[pre.len() + j]);
                        assert(blk[pre.len() + j] == (pre + line)[pre.len() + j]);
                    }
                } else {
                    assert(hs.subrange(0, k) =~= hs);
                    assert forall|j: int| 0 <= j < len implies b@[p + j] == crlf()[j] by {
                        assert(whole[(blk.len() + j) as int] == (blk + crlf())[blk.len() + j]);
                    }
                }
            }
        }
        assert(wit ==> is_crlf_at(b@, p + len - 2)) by {
            if wit {
                assert(b@[p + (len - 2)] == (if more { line[len - 2] } else { crlf()[0] }));
                assert(b@[p + (len - 1)] == (if more { line[len - 1] } else { crlf()[1] }));
                if more {
                    assert(line[len - 2] == 13u8);
                    assert(line[len - 1] == 10u8);
                }
            }
        }
        assert(wit && more ==> forall|j: int| p <= j < p + len - 2 ==> b@[j] != 13u8) by {
            if wit && more {
                assert(valid_field(hs[k]));
                assert forall|j: int| p <= j < p + len - 2 implies b@[j] != 13u8 by {
                    let o = j - p;
                    assert(b@[p + o] == line[o]);
                    if o < n.len() {
                        assert(line[o] == n[o]);
                    } else if o < n.len() + 2 {
                    } else {
                        assert(line[o] == v[o - n.len() - 2]);
                    }
                }
            }
        }
        let e = match find_crlf(b, p) {
            Some(e) => e,
            None => {
                return None;
            },
        };
        assert(wit ==> e == p + len - 2) by {
            if wit && more {
                if e < p + len - 2 {
                    assert(b@[e as int] != 13u8);
                }
            }
        }
        if e == p {
            assert(wit ==> !more) by {
                if wit && more {
                    assert(valid_field(hs[k]));
                }
            }
            assert(wit ==> hs.subrange(0, k) =~= hs);
            return Some((out, e + 2));
        }
        assert(wit ==> more);
        assert(wit ==> valid_field(hs[k]));
        assert(wit ==> b@[p + n.len()] == 58u8 && forall|j: int| p <= j < p + n.len() ==> b@[j] != 58u8) by {
            if wit {
                assert(b@[p + n.len()] == line[n.len() as int]);
                assert forall|j: int| p <= j < p + n.len() implies b@[j] != 58u8 by {
                    assert(b@[p + (j - p)] == line[j - p]);
                    assert(line[j - p] == n[j - p]);
                }
            }
        }
        let c = match find_colon(b, p, e) {
            Some(c) => c,
            None => {
                return None;
            },
        };
        assert(wit ==> c == p + n.len());
        if c == p {
            return None;
        }
        assert(wit ==> b@[c + 1] == 32u8) by {
            if wit {
                assert(b@[p + (n.len() + 1)] == line[(n.len() + 1) as int]);
            }
        }
        assert(wit && v.len() > 0 ==> b@[c + 2] == v[0] && c + 2 < e) by {
            if wit && v.len() > 0 {
                assert(b@[p + (n.len() + 2)] == line[(n.len() + 2) as int]);
                assert(line[(n.len() + 2) as int] == v[0]);
            }
        }
        let mut s = c + 1;
        while s < e && (b[s] == 32u8 || b[s] == 9u8)
            invariant
                c < s <= e,
                e + 1 < b@.len(),
                wit ==> s == c + 1 || s == c + 2,
                wit ==> e == c + 2 + v.len(),
                wit ==> b@[c + 1] == 32u8,
                wit && v.len() > 0 ==> b@[c + 2] == v[0] && c + 2 < e,
                wit ==> 0 <= k < hs.len() && valid_field(hs[k]) && v == encode_utf8(hs[k].value),
            decreases e - s,
        {
            s += 1;
        }
        assert(wit ==> s == c + 2);
        let name = text_of(b, p, c);
        let value = text_of(b, s, e);
        let ghost before = headers_view(out@);
        out.push(Header { name, value });
        proof {
            if wit {
                assert(b@.subrange(p as int, c as int) =~= n) by {
                    assert forall|j: int| 0 <= j < n.len() implies b@.subrange(p as int, c as int)[j] == n[j] by {
                        assert(b@[p + j] == line[j]);
                    }
                }
                assert(b@.subrange(s as int, e as int) =~= v) by {
                    assert forall|j: int| 0 <= j < v.len() implies b@.subrange(s as int, e as int)[j] == v[j] by {
                        assert(b@[p + (n.len() + 2 + j)] == line[(n.len() + 2 + j) as int]);
                    }
                }
                vstd::utf8::encode_utf8_valid_utf8(hs[k].name);
                vstd::utf8::encode_utf8_decode_utf8(hs[k].name);
                vstd::utf8::encode_utf8_valid_utf8(hs[k].value);
                vstd::utf8::encode_utf8_decode_utf8(hs[k].value);
                assert(out@.last()@.name == hs[k].name);
                assert(out@.last()@.value == hs[k].value);
                assert(hs.subrange(0, k + 1) =~= hs.subrange(0, k).push(hs[k]));
                assert(headers_view(out@) =~= before.push(out@.last()@));
                lemma_field_at(hs, k);
                assert(headers_view(out@) =~= hs.subrange(0, k + 1));
                k = k + 1;
            }
        }
        p = e + 2;
    }
}

/// The value of a decimal digit, or -1 for any other character.
pub open spec fn digit_value(c: char) -> int {
    if c == '0' { 0 } else if c == '1' { 1 } else if c == '2' { 2 } else if c == '3' { 3 }
    else if c == '4' { 4 } else if c == '5' { 5 } else if c == '6' { 6 } else if c == '7' { 7 }
    else if c == '8' { 8 } else if c == '9' { 9 } else { -1 }
}

pub open spec fn all_digits(s: Seq<char>) -> bool {
    forall|i: int| 0 <= i < s.len() ==> digit_value(s[i]) >= 0
}

/// The number that a string of decimal digits writes.
pub open spec fn digits_value(s: Seq<char>) -> int
    decreases s.len(),
{
    if s.len() == 0 {
        0
    } else {
        digits_value(s.drop_last()) * 10 + digit_value(s.last())
    }
}

proof fn lemma_decimal_digits(n: nat)
    ensures
        decimal(n).len() > 0,
        all_digits(decimal(n)),
        digits_value(decimal(n)) == n,
    decreases n,
{
    if n >= 10 {
        lemma_decimal_digits(n / 10);
        let s = decimal(n);
        assert(s.drop_last() =~= decimal(n / 10));
        assert(digit_value(digit_char((n % 10) as int)) == n % 10);
        assert(s.last() == digit_char((n % 10) as int));
        assert(digits_value(s) == digits_value(decimal(n / 10)) * 10 + digit_value(s.last()));
        vstd::arithmetic::div_mod::lemma_fundamental_div_mod(n as int, 10);
        assert(digits_value(s) == n);
        assert forall|i: int| 0 <= i < s.len() implies digit_value(s[i]) >= 0 by {
            if i < s.len() - 1 {
                assert(s[i] == decimal(n / 10)[i]);
            }
        }
    } else {
        let s = decimal(n);
        assert(digit_value(digit_char(n as int)) == n);
        assert(s.drop_last() =~= Seq::<char>::empty());
        assert(s.last() == digit_char(n as int));
        assert(digits_value(s.drop_last()) == 0);
        assert(digits_value(s) == n);
    }
}

proof fn lemma_digits_prefix(s: Seq<char>, i: int)
    requires
        all_digits(s),
        0 <= i <= s.len(),
    ensures
        0 <= digits_value(s.subrange(0, i)) <= digits_value(s),
    decreases s.len() - i,
{
    if i < s.len() {
        lemma_digits_prefix(s, i + 1);
        let p = s.subrange(0, i + 1);
        assert(p.drop_last() =~= s.subrange(0, i));
        assert(p.last() == s[i]);
    } else {
        assert(s.subrange(0, i) =~= s);
    }
    lemma_digits_nonneg(s.subrange(0, i));
}

proof fn lemma_digits_nonneg(s: Seq<char>)
    requires
        all_digits(s),
    ensures
        digits_value(s) >= 0,
    decreases s.len(),
{
    if s.len() > 0 {
        lemma_digits_nonneg(s.drop_last());
    }
}

fn digit_of(c: char) -> (r: Option<u8>)
    ensures
        match r {
            Some(d) => d as int == digit_value(c) && d < 10,
            None => digit_value(c) < 0,
        },
{
    match c {
        '0' => Some(0),
        '1' => Some(1),
        '2' => Some(2),
        '3' => Some(3),
        '4' => Some(4),
        '5' => Some(5),
        '6' => Some(6),
        '7' => Some(7),
        '8' => Some(8),
        '9' => Some(9),
        _ => None,
    }
}

/// Reads a `Content-Length` value: one or more decimal digits whose value
/// fits in 64 bits. Where `w` holds a number written in decimal as `s`,
/// that number comes back.
fn parse_length(s: &str, w: Ghost<Option<nat>>) -> (r: Option<u64>)
    requires
        w@ matches Some(n) ==> s@ == decimal(n) && n <= u64::MAX,
    ensures
        r matches Some(x) ==> s@.len() > 0 && all_digits(s@) && x == digits_value(s@),
        w@ matches Some(n) ==> r == Some(n as u64),
{
    proof {
        if let Some(n) = w@ {
            lemma_decimal_digits(n);
        }
    }
    let len = s.unicode_len();
    if len == 0 {
        return None;
    }
    let mut value: u64 = 0;
    let mut i: usize = 0;
    while i < len
        invariant
            len == s@.len(),
            i <= len,
            all_digits(s@.subrange(0, i as int)),
            value == digits_value(s@.subrange(0, i as int)),
            w@ matches Some(n) ==> s@ == decimal(n) && n <= u64::MAX && all_digits(s@)
                && digits_value(s@) == n,
        decreases len - i,
    {
        let d = match digit_of(s.get_char(i)) {
            Some(d) => d,
            None => return None,
        };
        let next: u128 = value as u128 * 10 + d as u128;
        let ghost pre = s@.subrange(0, i + 1);
        proof {
            assert(pre.drop_last() =~= s@.subrange(0, i as int));
            assert(pre.last() == s@[i as int]);
            if let Some(n) = w@ {
                lemma_digits_prefix(s@, i + 1);
            }
        }
        if next > 18446744073709551615u128 {
            return None;
        }
        value = next as u64;
        i += 1;
    }
    assert(s@.subrange(0, len as int) =~= s@);
    Some(value)
}

proof fn lemma_digits_bytes(d: Seq<char>)
    requires
        all_digits(d),
    ensures
        vstd::utf8::is_ascii_chars(d),
        encode_utf8(d).len() == d.len(),
        forall|i: int| 0 <= i < d.len() ==> 48u8 <= #[trigger] encode_utf8(d)[i] <= 57u8,
{
    assert forall|i: int| 0 <= i < d.len() implies '0' <= #[trigger] d[i] <= '9' by {
        assert(digit_value(d[i]) >= 0);
    }
    vstd::utf8::is_ascii_chars_encode_utf8(d);
    assert forall|i: int| 0 <= i < d.len() implies 48u8 <= #[trigger] encode_utf8(d)[i] <= 57u8 by {
        assert(d[i] as u8 == encode_utf8(d)[i]);
        assert('0' <= d[i] <= '9');
    }
}

/// The framing header is itself a valid header.
proof fn lemma_length_field_valid(n: nat)
    ensures
        valid_field(length_field(n)),
{
    reveal_strlit("content-length");
    let name = content_length_name();
    assert(name =~= seq!['c', 'o', 'n', 't', 'e', 'n', 't', '-', 'l', 'e', 'n', 'g', 't', 'h']);
    assert(vstd::utf8::is_ascii_chars(name));
    vstd::utf8::is_ascii_chars_encode_utf8(name);
    let nb = encode_utf8(name);
    assert forall|i: int| 0 <= i < nb.len() implies nb[i] != 13u8 && nb[i] != 58u8 by {
        assert(name[i] as u8 == nb[i]);
        assert('a' <= name[i] <= 'z' || name[i] == '-');
    }
    lemma_decimal_digits(n);
    lemma_digits_bytes(decimal(n));
}

proof fn lemma_values_named_push(hs: Seq<HeaderSpec>, h: HeaderSpec)
    ensures
        values_named(hs.push(h), h.name) == values_named(hs, h.name).push(h.value),
{
    assert(hs.push(h).drop_last() =~= hs);
    assert(crate::headers::names_match(h.name, h.name));
}

proof fn lemma_valid_push(hs: Seq<HeaderSpec>, n: nat)
    requires
        valid_fields(hs),
    ensures
        valid_fields(hs.push(length_field(n))),
{
    lemma_length_field_valid(n);
    let all = hs.push(length_field(n));
    assert forall|i: int| 0 <= i < all.len() implies valid_field(all[i]) by {
        if i < hs.len() {
            assert(all[i] == hs[i]);
        }
    }
}

/// Whether the bytes at `at` are `pat`.
fn bytes_at(b: &Vec<u8>, at: usize, pat: &Vec<u8>) -> (r: bool)
    ensures
        r == (at + pat@.len() <= b@.len() && b@.subrange(at as int, at + pat@.len()) == pat@),
{
    let blen = b.len();
    if at > blen || pat.len() > blen - at {
        return false;
    }
    let mut i: usize = 0;
    while i < pat.len()
        invariant
            blen == b@.len(),
            at + pat@.len() <= b@.len(),
            i <= pat@.len(),
            forall|j: int| 0 <= j < i ==> b@[at + j] == pat@[j],
        decreases pat@.len() - i,
    {
        if b[at + i] != pat[i] {
            assert(b@.subrange(at as int, at + pat@.len())[i as int] != pat@[i as int]);
            return false;
        }
        i += 1;
    }
    assert(b@.subrange(at as int, at + pat@.len()) =~= pat@);
    true
}

fn protocol_error(message: &str) -> (r: TransportError)
    ensures
        r is Protocol,
{
    TransportError::Protocol(message.to_owned())
}

/// Reads a response: a status line with a three-digit code, header lines, a
/// blank line, and a body of `content-length` bytes (the last such header
/// counts), or all the bytes that remain where there is none. Where `w`
/// holds the parts of `b`'s own wire form, those parts come back.
fn read_response(b: &Vec<u8>, w: Ghost<Option<(u16, Seq<HeaderSpec>, Seq<u8>)>>) -> (r: Result<
    RawResponse,
    TransportError,
>)
    requires
        w@ matches Some((st, hs, body)) ==> 100 <= st <= 999 && valid_fields(hs) && b@
            == response_wire(st, hs, body),
    ensures
        r matches Ok(x) ==> 100 <= x.status <= 999,
        r matches Err(e) ==> e is Protocol,
        w@ matches Some((st, hs, body)) ==> (r matches Ok(x) && x.status == st && x.body@ == body
            && headers_view(x.headers@) == hs.push(length_field(body.len()))),
{
    let ghost wit = w@ is Some;
    let ghost st: u16 = match w@ {
        Some(t) => t.0,
        None => 0,
    };
    let ghost hs: Seq<HeaderSpec> = match w@ {
        Some(t) => t.1,
        None => Seq::empty(),
    };
    let ghost body: Seq<u8> = match w@ {
        Some(t) => t.2,
        None => Seq::empty(),
    };
    let ghost all = hs.push(length_field(body.len()));
    let ghost head_start: int = 15;
    proof {
        if wit {
            lemma_valid_push(hs, body.len());
            assert(head_wire(hs, body.len()) == field_block(all) + crlf());
        }
    }
    let prefix: Vec<u8> = vec![72u8, 84u8, 84u8, 80u8, 47u8, 49u8, 46u8, 49u8, 32u8];
    assert(prefix@ =~= version_prefix());
    if b.len() < 15 || !bytes_at(b, 0, &prefix) {
        proof {
            if wit {
                assert(b@.subrange(0, 9) =~= version_prefix());
            }
        }
        return Err(protocol_error("the status line does not start with HTTP/1.1"));
    }
    let d0 = b[9];
    let d1 = b[10];
    let d2 = b[11];
    assert(wit ==> d0 == (48 + st / 100) as u8 && d1 == (48 + (st / 10) % 10) as u8 && d2 == (48 + st
        % 10) as u8 && b@[12] == 32u8 && b@[13] == 13u8 && b@[14] == 10u8);
    if d0 < 49 || d0 > 57 || d1 < 48 || d1 > 57 || d2 < 48 || d2 > 57 || b[12] != 32u8 {
        return Err(protocol_error("the status code is not three digits"));
    }
    let status: u16 = (d0 - 48) as u16 * 100 + (d1 - 48) as u16 * 10 + (d2 - 48) as u16;
    proof {
        if wit {
            vstd::arithmetic::div_mod::lemma_fundamental_div_mod(st as int, 10);
            vstd::arithmetic::div_mod::lemma_fundamental_div_mod(st as int / 10, 10);
            assert(status == st);
        }
    }
    let e = match find_crlf(b, 13) {
        Some(e) => e,
        None => {
            assert(wit ==> is_crlf_at(b@, 13));
            return Err(protocol_error("the status line does not end"));
        },
    };
    assert(wit ==> e == 13) by {
        if wit {
            assert(is_crlf_at(b@, 13));
        }
    }
    let ghost fields_len: int = field_block(all).len() as int;
    assert(wit ==> e + 2 + fields_len + 2 + body.len() == b@.len() && b@.subrange(e + 2, e + 2 + fields_len
        + 2) == field_block(all) + crlf()) by {
        if wit {
            let sl = version_prefix() + status_digits(st as int) + seq![32u8] + crlf();
            assert(b@ == sl + (field_block(all) + crlf()) + body);
            assert(b@.subrange(e + 2, e + 2 + fields_len + 2) =~= field_block(all) + crlf());
        }
    }
    let (headers, p) = match parse_fields(b, e + 2, Ghost(if wit { Some(all) } else { None })) {
        Some(found) => found,
        None => return Err(protocol_error("a header line is malformed")),
    };
    proof {
        if wit {
            reveal_strlit("content-length");
            lemma_values_named_push(hs, length_field(body.len()));
            assert(b@ =~= b@.subrange(0, p as int) + body);
        }
    }
    let body_bytes = match read_body(b, p, &headers, true, Ghost(if wit { Some(body) } else { None })) {
        Ok(v) => v,
        Err(err) => return Err(err),
    };
    Ok(RawResponse { status, headers, body: body_bytes })
}

/// Reads a response from the bytes a live socket delivered.
pub fn parse_response(b: &Vec<u8>) -> (r: Result<RawResponse, TransportError>)
    ensures
        r matches Ok(x) ==> 100 <= x.status <= 999,
        r matches Err(e) ==> e is Protocol,
        forall|st: u16, hs: Seq<HeaderSpec>, body: Seq<u8>|
            100 <= st <= 999 && valid_fields(hs) && b@ == #[trigger] response_wire(st, hs, body) ==> (
            r matches Ok(x) && x.status == st && x.body@ == body && headers_view(x.headers@)
                == hs.push(length_field(body.len()))),
{
    let ghost w: Option<(u16, Seq<HeaderSpec>, Seq<u8>)> = if exists|
        st: u16,
        hs: Seq<HeaderSpec>,
        body: Seq<u8>,
    | 100 <= st <= 999 && valid_fields(hs) && b@ == #[trigger] response_wire(st, hs, body) {
        let (st, hs, body) = choose|st: u16, hs: Seq<HeaderSpec>, body: Seq<u8>|
            100 <= st <= 999 && valid_fields(hs) && b@ == #[trigger] response_wire(st, hs, body);
        Some((st, hs, body))
    } else {
        None
    };
    let r = read_response(b, Ghost(w));
    assert forall|st: u16, hs: Seq<HeaderSpec>, body: Seq<u8>|
        100 <= st <= 999 && valid_fields(hs) && b@ == #[trigger] response_wire(st, hs, body) implies (
        r matches Ok(x) && x.status == st && x.body@ == body && headers_view(x.headers@) == hs.push(
            length_field(body.len()),
        )) by {
        let (st0, hs0, body0) = w->0;
        lemma_response_wire_unique(st0, hs0, body0, st, hs, body);
    }
    r
}

/// Sends a response through the live socket's framing and reads it back,
/// as a client of a live socket does with what the server wrote. For a
/// response with a valid status and valid headers, the status and the body
/// come back unchanged, so a service answers the same whether it is called
/// in process or over a socket; the headers come back with the framing
/// header added.
pub fn relay_response(r: &RawResponse) -> (out: Result<RawResponse, TransportError>)
    requires
        100 <= r.status <= 999,
    ensures
        valid_fields(headers_view(r.headers@)) ==> (out matches Ok(x) && x.status == r.status
            && x.body@ == r.body@ && headers_view(x.headers@) == headers_view(r.headers@).push(
            length_field(r.body@.len()),
        )),
        out matches Ok(x) ==> 100 <= x.status <= 999,
        out matches Err(e) ==> e is Protocol,
{
    let bytes = encode_response(r);
    let ghost hs = headers_view(r.headers@);
    read_response(
        &bytes,
        Ghost(if valid_fields(hs) { Some((r.status, hs, r.body@)) } else { None }),
    )
}

/// The bytes of a method's name.
pub open spec fn method_bytes(m: Method) -> Seq<u8> {
    match m {
        Method::Get => seq![71u8, 69u8, 84u8],
        Method::Post => seq![80u8, 79u8, 83u8, 84u8],
        Method::Put => seq![80u8, 85u8, 84u8],
        Method::Patch => seq![80u8, 65u8, 84u8, 67u8, 72u8],
        Method::Delete => seq![68u8, 69u8, 76u8, 69u8, 84u8, 69u8],
    }
}

proof fn lemma_method_bytes(m: Method)
    ensures
        encode_utf8(method_name(m)) == method_bytes(m),
{
    reveal_strlit("GET");
    reveal_strlit("POST");
    reveal_strlit("PUT");
    reveal_strlit("PATCH");
    reveal_strlit("DELETE");
    let s = method_name(m);
    match m {
        Method::Get => assert(s =~= seq!['G', 'E', 'T']),
        Method::Post => assert(s =~= seq!['P', 'O', 'S', 'T']),
        Method::Put => assert(s =~= seq!['P', 'U', 'T']),
        Method::Patch => assert(s =~= seq!['P', 'A', 'T', 'C', 'H']),
        Method::Delete => assert(s =~= seq!['D', 'E', 'L', 'E', 'T', 'E']),
    }
    assert(vstd::utf8::is_ascii_chars(s));
    vstd::utf8::is_ascii_chars_encode_utf8(s);
    assert(encode_utf8(s) =~= method_bytes(m));
}

/// The method whose name is exactly the bytes `[0, end)`.
fn method_named(b: &Vec<u8>, end: usize) -> (r: Option<Method>)
    requires
        end <= b@.len(),
    ensures
        match r {
            Some(m) => b@.subrange(0, end as int) == method_bytes(m),
            None => forall|m: Method| b@.subrange(0, end as int) != #[trigger] method_bytes(m),
        },
{
    let get: Vec<u8> = vec![71u8, 69u8, 84u8];
    let post: Vec<u8> = vec![80u8, 79u8, 83u8, 84u8];
    let put: Vec<u8> = vec![80u8, 85u8, 84u8];
    let patch: Vec<u8> = vec![80u8, 65u8, 84u8, 67u8, 72u8];
    let delete: Vec<u8> = vec![68u8, 69u8, 76u8, 69u8, 84u8, 69u8];
    assert(get@ =~= method_bytes(Method::Get));
    assert(post@ =~= method_bytes(Method::Post));
    assert(put@ =~= method_bytes(Method::Put));
    assert(patch@ =~= method_bytes(Method::Patch));
    assert(delete@ =~= method_bytes(Method::Delete));
    if end == 3 && bytes_at(b, 0, &get) {
        Some(Method::Get)
    } else if end == 4 && bytes_at(b, 0, &post) {
        Some(Method::Post)
    } else if end == 3 && bytes_at(b, 0, &put) {
        Some(Method::Put)
    } else if end == 5 && bytes_at(b, 0, &patch) {
        Some(Method::Patch)
    } else if end == 6 && bytes_at(b, 0, &delete) {
        Some(Method::Delete)
    } else {
        assert forall|m: Method| b@.subrange(0, end as int) != #[trigger] method_bytes(m) by {
            if b@.subrange(0, end as int) == method_bytes(m) {
                assert(b@.subrange(0, end as int).len() == method_bytes(m).len());
            }
        }
        None
    }
}

/// The first byte `x` in `[from, to)`.
fn find_byte(b: &Vec<u8>, from: usize, to: usize, x: u8) -> (r: Option<usize>)
    requires
        to <= b@.len(),
    ensures
        match r {
            Some(c) => from <= c < to && b@[c as int] == x && forall|j: int| from <= j < c ==> b@[j] != x,
            None => forall|j: int| from <= j < to ==> b@[j] != x,
        },
{
    let mut i: usize = from;
    while i < to
        invariant
            from <= i,
            to <= b@.len(),
            forall|j: int| from <= j < i ==> b@[j] != x,
        decreases to - i,
    {
        if b[i] == x {
            return Some(i);
        }
        i += 1;
    }
    None
}

/// A request target fits on the request line: no space and no CR.
pub open spec fn valid_target(url: Seq<char>) -> bool {
    let t = encode_utf8(url);
    forall|i: int| 0 <= i < t.len() ==> t[i] != 32u8 && t[i] != 13u8
}

/// The request line: method, full URL and version.
pub open spec fn request_line(m: Method, url: Seq<char>) -> Seq<u8> {
    encode_utf8(method_name(m)) + seq![32u8] + encode_utf8(url) + version_suffix() + crlf()
}

/// Reads the request line, and returns its method, its target and where
/// its line end stands. Where `w` holds the method and URL of the line at
/// the start of `b`, those come back.
fn read_request_line(b: &Vec<u8>, w: Ghost<Option<(Method, Seq<char>)>>) -> (r: Result<
    (Method, String, usize),
    TransportError,
>)
    requires
        w@ matches Some((m, url)) ==> valid_target(url) && request_line(m, url).len() <= b@.len()
            && b@.subrange(0, request_line(m, url).len() as int) == request_line(m, url),
    ensures
        r matches Ok((_, _, e)) ==> e + 1 < b@.len(),
        r matches Err(e) ==> e is Protocol,
        w@ matches Some((m, url)) ==> (r matches Ok((m2, u2, e)) && m2 == m && u2@ == url && e + 2
            == request_line(m, url).len()),
{
    broadcast use vstd::utf8::encode_utf8_valid_utf8, vstd::utf8::encode_utf8_decode_utf8;

    let ghost wit = w@ is Some;
    let ghost m: Method = match w@ {
        Some(t) => t.0,
        None => Method::Get,
    };
    let ghost url: Seq<char> = match w@ {
        Some(t) => t.1,
        None => Seq::empty(),
    };
    let ghost mb = method_bytes(m);
    let ghost t = encode_utf8(url);
    let ghost line = mb + seq![32u8] + t + version_suffix() + crlf();
    let ghost le: int = (mb.len() + 1 + t.len() + 9) as int;
    proof {
        if wit {
            lemma_method_bytes(m);
            assert(line == request_line(m, url));
        }
    }
    assert(wit ==> forall|j: int| 0 <= j < line.len() ==> #[trigger] b@[j] == line[j]) by {
        if wit {
            assert forall|j: int| 0 <= j < line.len() implies #[trigger] b@[j] == line[j] by {
                assert(b@.subrange(0, line.len() as int)[j] == b@[j]);
            }
        }
    }
    assert(wit ==> is_crlf_at(b@, le)) by {
        if wit {
            assert(b@[le] == line[le]);
            assert(b@[le + 1] == line[le + 1]);
        }
    }
    assert(wit ==> forall|j: int| 0 <= j < le ==> b@[j] != 13u8) by {
        if wit {
            assert forall|j: int| 0 <= j < le implies b@[j] != 13u8 by {
                assert(b@[j] == line[j]);
                if j >= mb.len() + 1 && j < mb.len() + 1 + t.len() {
                    assert(line[j] == t[j - mb.len() - 1]);
                }
            }
        }
    }
    let blen = b.len();
    let e = match find_crlf(b, 0) {
        Some(e) => e,
        None => return Err(protocol_error("the request line does not end")),
    };
    assert(wit ==> e == le) by {
        if wit && e < le {
            assert(b@[e as int] != 13u8);
        }
    }
    assert(wit ==> b@[mb.len() as int] == 32u8 && forall|j: int| 0 <= j < mb.len() ==> b@[j] != 32u8) by {
        if wit {
            assert(b@[mb.len() as int] == line[mb.len() as int]);
            assert forall|j: int| 0 <= j < mb.len() implies b@[j] != 32u8 by {
                assert(b@[j] == line[j]);
            }
        }
    }
    let s1 = match find_byte(b, 0, e, 32u8) {
        Some(s) => s,
        None => return Err(protocol_error("the request line has no method")),
    };
    assert(wit ==> s1 == mb.len());
    assert(wit ==> b@.subrange(0, s1 as int) =~= mb) by {
        if wit {
            assert forall|j: int| 0 <= j < s1 implies b@.subrange(0, s1 as int)[j] == mb[j] by {
                assert(b@[j] == line[j]);
            }
        }
    }
    let method = match method_named(b, s1) {
        Some(found) => found,
        None => return Err(protocol_error("the method is not one this harness sends")),
    };
    assert(wit ==> method == m) by {
        if wit {
            assert(method_bytes(method) == method_bytes(m));
        }
    }
    let ghost ts: int = (mb.len() + 1) as int;
    assert(wit ==> b@[ts + t.len()] == 32u8 && forall|j: int| ts <= j < ts + t.len() ==> b@[j] != 32u8)
        by {
        if wit {
            assert(b@[ts + t.len()] == line[ts + t.len()]);
            assert forall|j: int| ts <= j < ts + t.len() implies b@[j] != 32u8 by {
                assert(b@[j] == line[j]);
                assert(line[j] == t[j - ts]);
            }
        }
    }
    let s2 = match find_byte(b, s1 + 1, e, 32u8) {
        Some(s) => s,
        None => return Err(protocol_error("the request line has no version")),
    };
    assert(wit ==> s2 == ts + t.len());
    let suffix: Vec<u8> = vec![32u8, 72u8, 84u8, 84u8, 80u8, 47u8, 49u8, 46u8, 49u8];
    assert(suffix@ =~= version_suffix());
    assert(wit ==> b@.subrange(s2 as int, s2 + 9) =~= version_suffix()) by {
        if wit {
            assert forall|j: int| 0 <= j < 9 implies b@.subrange(s2 as int, s2 + 9)[j] == version_suffix()[j] by {
                assert(b@[s2 + j] == line[s2 + j]);
            }
        }
    }
    if e - s2 != 9 || !bytes_at(b, s2, &suffix) {
        return Err(protocol_error("the request is not HTTP/1.1"));
    }
    let target = text_of(b, s1 + 1, s2);
    assert(wit ==> b@.subrange(s1 + 1, s2 as int) =~= t) by {
        if wit {
            assert forall|j: int| 0 <= j < t.len() implies b@.subrange(s1 + 1, s2 as int)[j] == t[j] by {
                assert(b@[ts + j] == line[ts + j]);
            }
        }
    }
    Ok((method, target, e))
}

/// Reads a request: a request line of method, full URL and `HTTP/1.1`,
/// header lines, a blank line, and a body of `content-length` bytes (none
/// where there is no such header). Where `w` holds the parts of `b`'s own
/// wire form, those parts come back.
fn read_request(b: &Vec<u8>, w: Ghost<Option<(Method, Seq<char>, Seq<HeaderSpec>, Seq<u8>)>>) -> (r:
    Result<(Method, String, Vec<Header>, Vec<u8>), TransportError>)
    requires
        w@ matches Some((m, url, hs, body)) ==> valid_target(url) && valid_fields(hs) && b@
            == request_wire(m, url, hs, body),
    ensures
        r matches Err(e) ==> e is Protocol,
        w@ matches Some((m, url, hs, body)) ==> (r matches Ok((m2, url2, hs2, body2)) && m2 == m
            && url2@ == url && body2@ == body && headers_view(hs2@) == hs.push(
            length_field(body.len()),
        )),
{
    let ghost wit = w@ is Some;
    let ghost m: Method = match w@ {
        Some(t) => t.0,
        None => Method::Get,
    };
    let ghost url: Seq<char> = match w@ {
        Some(t) => t.1,
        None => Seq::empty(),
    };
    let ghost hs: Seq<HeaderSpec> = match w@ {
        Some(t) => t.2,
        None => Seq::empty(),
    };
    let ghost body: Seq<u8> = match w@ {
        Some(t) => t.3,
        None => Seq::empty(),
    };
    let ghost all = hs.push(length_field(body.len()));
    let ghost line = request_line(m, url);
    proof {
        if wit {
            lemma_valid_push(hs, body.len());
            assert(b@ =~= line + (field_block(all) + crlf()) + body);
            assert(b@.subrange(0, line.len() as int) =~= line);
        }
    }
    let blen = b.len();
    let (method, target, e) = match read_request_line(b, Ghost(if wit { Some((m, url)) } else { None })) {
        Ok(found) => found,
        Err(err) => return Err(err),
    };
    let ghost fields_len: int = field_block(all).len() as int;
    assert(wit ==> e + 2 + fields_len + 2 + body.len() == b@.len() && b@.subrange(e + 2, e + 2 + fields_len
        + 2) == field_block(all) + crlf()) by {
        if wit {
            assert(b@.subrange(e + 2, e + 2 + fields_len + 2) =~= field_block(all) + crlf());
        }
    }
    let (headers, p) = match parse_fields(b, e + 2, Ghost(if wit { Some(all) } else { None })) {
        Some(found) => found,
        None => return Err(protocol_error("a header line is malformed")),
    };
    proof {
        if wit {
            reveal_strlit("content-length");
            lemma_values_named_push(hs, length_field(body.len()));
            assert(b@ =~= b@.subrange(0, p as int) + body);
        }
    }
    let body_bytes = match read_body(b, p, &headers, false, Ghost(if wit { Some(body) } else { None })) {
        Ok(v) => v,
        Err(err) => return Err(err),
    };
    Ok((method, target, headers, body_bytes))
}

/// Reads a request from the bytes a live socket server received, and
/// resolves the path of its URL.
pub fn parse_request(b: &Vec<u8>) -> (r: Result<PreparedRequest, TransportError>)
    ensures
        r matches Ok(q) ==> url_path(q.url@) == Some(q.path@),
        r matches Err(e) ==> e is Protocol,
        forall|m: Method, url: Seq<char>, hs: Seq<HeaderSpec>, body: Seq<u8>|
            valid_target(url) && valid_fields(hs) && url_path(url) is Some && b@
                == #[trigger] request_wire(m, url, hs, body) ==> (r matches Ok(q) && q.method == m
                && q.url@ == url && url_path(url) == Some(q.path@) && q.body@ == body
                && headers_view(q.headers@) == hs.push(length_field(body.len()))),
{
    let ghost w: Option<(Method, Seq<char>, Seq<HeaderSpec>, Seq<u8>)> = if exists|
        m: Method,
        url: Seq<char>,
        hs: Seq<HeaderSpec>,
        body: Seq<u8>,
    | valid_target(url) && valid_fields(hs) && b@ == #[trigger] request_wire(m, url, hs, body) {
        let (m, url, hs, body) = choose|m: Method, url: Seq<char>, hs: Seq<HeaderSpec>, body: Seq<u8>|
            valid_target(url) && valid_fields(hs) && b@ == #[trigger] request_wire(m, url, hs, body);
        Some((m, url, hs, body))
    } else {
        None
    };
    let r = match read_request(b, Ghost(w)) {
        Err(e) => Err(e),
        Ok((method, url, headers, body)) => match path_of_url(url.as_str()) {
            Some(path) => Ok(PreparedRequest { method, url, path, headers, body }),
            None => Err(protocol_error("the request target is not a URL")),
        },
    };
    assert forall|m: Method, url: Seq<char>, hs: Seq<HeaderSpec>, body: Seq<u8>|
        valid_target(url) && valid_fields(hs) && url_path(url) is Some && b@
            == #[trigger] request_wire(m, url, hs, body) implies (r matches Ok(q) && q.method == m
            && q.url@ == url && url_path(url) == Some(q.path@) && q.body@ == body && headers_view(
            q.headers@,
        ) == hs.push(length_field(body.len()))) by {
        let (m0, url0, hs0, body0) = w->0;
        lemma_request_wire_unique(m0, url0, hs0, body0, m, url, hs, body);
    }
    r
}

/// Sends a prepared request through the live socket's framing and reads it
/// back, as the live socket server does with what the client wrote. For a
/// request whose URL fits on the request line, whose path is that URL's,
/// and whose headers are valid, the service is handed the same method,
/// URL, path and body as in process, and the headers with the framing
/// header added.
pub fn relay_request(p: &PreparedRequest) -> (out: Result<PreparedRequest, TransportError>)
    ensures
        valid_target(p.url@) && valid_fields(headers_view(p.headers@)) && url_path(p.url@) == Some(
            p.path@,
        ) ==> (out matches Ok(q) && q.method == p.method && q.url@ == p.url@ && q.path@ == p.path@
            && q.body@ == p.body@ && headers_view(q.headers@) == headers_view(p.headers@).push(
            length_field(p.body@.len()),
        )),
        out matches Ok(q) ==> url_path(q.url@) == Some(q.path@),
        out matches Err(e) ==> e is Protocol,
{
    let bytes = encode_request(p);
    let ghost hs = headers_view(p.headers@);
    let ghost ok = valid_target(p.url@) && valid_fields(hs);
    match read_request(&bytes, Ghost(if ok { Some((p.method, p.url@, hs, p.body@)) } else { None })) {
        Err(e) => Err(e),
        Ok((method, url, headers, body)) => match path_of_url(url.as_str()) {
            Some(path) => Ok(PreparedRequest { method, url, path, headers, body }),
            None => Err(protocol_error("the request target is not a URL")),
        },
    }
}

fn hex_digit(x: u8) -> (r: Option<u64>)
    ensures
        r matches Some(d) ==> d < 16,
{
    if 48 <= x && x <= 57 {
        Some((x - 48) as u64)
    } else if 97 <= x && x <= 102 {
        Some((x - 87) as u64)
    } else if 65 <= x && x <= 70 {
        Some((x - 55) as u64)
    } else {
        None
    }
}

/// The chunk size at the start of `[from, to)`: hexadecimal digits, up to a
/// `;` that starts an extension or to the end.
fn chunk_size(b: &Vec<u8>, from: usize, to: usize) -> (r: Option<u64>)
    requires
        to <= b@.len(),
{
    let mut value: u64 = 0;
    let mut i: usize = from;
    let mut digits: usize = 0;
    while i < to && b[i] != 59u8
        invariant
            to <= b@.len(),
            from <= i,
            digits <= i - from,
        decreases to - i,
    {
        let d = match hex_digit(b[i]) {
            Some(d) => d,
            None => return None,
        };
        let next: u128 = value as u128 * 16 + d as u128;
        if next > 18446744073709551615u128 {
            return None;
        }
        value = next as u64;
        digits += 1;
        i += 1;
    }
    if digits == 0 {
        None
    } else {
        Some(value)
    }
}

/// Reads a chunked body from `from`: chunks of a hexadecimal size line, that
/// many bytes and a line end, up to a chunk of size zero and the trailer
/// lines after it.
fn read_chunked(b: &Vec<u8>, from: usize) -> (r: Result<Vec<u8>, TransportError>)
    requires
        from <= b@.len(),
    ensures
        r matches Err(e) ==> e is Protocol,
{
    let blen = b.len();
    let mut body: Vec<u8> = Vec::new();
    let mut p: usize = from;
    loop
        invariant
            blen == b@.len(),
            p <= b@.len(),
        decreases b@.len() - p,
    {
        let e = match find_crlf(b, p) {
            Some(e) => e,
            None => return Err(protocol_error("a chunk size line does not end")),
        };
        let size = match chunk_size(b, p, e) {
            Some(n) => n,
            None => return Err(protocol_error("a chunk size is not hexadecimal")),
        };
        let start = e + 2;
        if size == 0 {
            return match parse_fields(b, start, Ghost(None)) {
                Some(_) => Ok(body),
                None => Err(protocol_error("a trailer line is malformed")),
            };
        }
        if blen - start < 2 || size > (blen - start - 2) as u64 {
            return Err(protocol_error("a chunk is shorter than its size"));
        }
        let stop = start + size as usize;
        if b[stop] != 13u8 || b[stop + 1] != 10u8 {
            return Err(protocol_error("a chunk does not end with a line end"));
        }
        let data = copy_range(b, start, stop);
        let mut data = data;
        body.append(&mut data);
        p = stop + 2;
    }
}

/// The body after the head at `p`: `content-length` bytes where that header
/// is given (the last one counts), else a chunked body where the last
/// `transfer-encoding` is `chunked`, else `rest` (all that remains, or
/// nothing). Where `w` holds the length of `b`'s own body and the headers
/// end with its framing header, that body comes back.
fn read_body(b: &Vec<u8>, p: usize, headers: &Vec<Header>, rest: bool, w: Ghost<Option<Seq<u8>>>) -> (r:
    Result<Vec<u8>, TransportError>)
    requires
        p <= b@.len(),
        w@ matches Some(body) ==> values_named(headers_view(headers@), content_length_name()).len() > 0
            && values_named(headers_view(headers@), content_length_name()).last() == decimal(body.len())
            && b@ == b@.subrange(0, p as int) + body,
    ensures
        r matches Err(e) ==> e is Protocol,
        w@ matches Some(body) ==> (r matches Ok(v) && v@ == body),
{
    proof {
        reveal_strlit("content-length");
    }
    let lengths = crate::headers::header_values(headers, "content-length");
    let ghost lv = lengths@.map_values(|s: String| s@);
    assert(lv.len() == lengths@.len());
    if lengths.len() == 0 {
        proof {
            reveal_strlit("transfer-encoding");
            reveal_strlit("chunked");
        }
        let encodings = crate::headers::header_values(headers, "transfer-encoding");
        if encodings.len() > 0 && header_names_match(encodings[encodings.len() - 1].as_str(), "chunked") {
            return read_chunked(b, p);
        }
        let end = if rest { b.len() } else { p };
        return Ok(copy_range(b, p, end));
    }
    let last = lengths.len() - 1;
    let blen = b.len();
    assert(w@ matches Some(body) ==> body.len() <= blen) by {
        if let Some(body) = w@ {
            assert((b@.subrange(0, p as int) + body).len() == p + body.len());
        }
    }
    assert(w@ matches Some(body) ==> lengths@[last as int]@ == decimal(body.len())) by {
        if let Some(body) = w@ {
            assert(lv[last as int] == lengths@[last as int]@);
        }
    }
    let n = match parse_length(
        lengths[last].as_str(),
        Ghost(match w@ { Some(body) => Some(body.len()), None => None }),
    ) {
        Some(n) => n,
        None => return Err(protocol_error("the content-length is not a number")),
    };
    if n > (b.len() - p) as u64 {
        return Err(protocol_error("the body is shorter than its content-length"));
    }
    let body_bytes = copy_range(b, p, p + n as usize);
    proof {
        if let Some(body) = w@ {
            assert(body_bytes@ =~= body);
        }
    }
    Ok(body_bytes)
}

proof fn lemma_field_block_front(a: Seq<HeaderSpec>)
    requires
        a.len() > 0,
    ensures
        field_block(a) == field_line(a[0]) + field_block(a.drop_first()),
{
    let one = seq![a[0]];
    assert(a =~= one + a.drop_first());
    lemma_field_block_concat(one, a.drop_first());
    assert(one.drop_last() =~= Seq::<HeaderSpec>::empty());
    assert(one.last() == a[0]);
    assert(field_block(one.drop_last()) =~= Seq::<u8>::empty());
    assert(field_block(one) =~= field_line(a[0]));
}

/// A header line never starts like a blank line.
proof fn lemma_field_line_not_blank(h: HeaderSpec, x: Seq<u8>, y: Seq<u8>)
    requires
        valid_field(h),
    ensures
        field_line(h) + x != crlf() + y,
{
    let n = encode_utf8(h.name);
    let s = field_line(h) + x;
    assert(s =~= n + (seq![58u8, 32u8] + encode_utf8(h.value) + crlf() + x));
    assert(s[0] == n[0]);
    assert((crlf() + y)[0] == 13u8);
}

/// A valid header line is read one way only.
#[verifier::rlimit(40)]
proof fn lemma_field_line_unique(h: HeaderSpec, g: HeaderSpec, x: Seq<u8>, x2: Seq<u8>)
    requires
        valid_field(h),
        valid_field(g),
        field_line(h) + x == field_line(g) + x2,
    ensures
        h == g,
        x == x2,
{
    let n = encode_utf8(h.name);
    let v = encode_utf8(h.value);
    let n2 = encode_utf8(g.name);
    let v2 = encode_utf8(g.value);
    let s = field_line(h) + x;
    assert(s =~= n + seq![58u8, 32u8] + v + crlf() + x);
    assert(s =~= n2 + seq![58u8, 32u8] + v2 + crlf() + x2);
    if n.len() < n2.len() {
        assert(s[n.len() as int] == 58u8);
        assert(s[n.len() as int] == n2[n.len() as int]);
    }
    if n2.len() < n.len() {
        assert(s[n2.len() as int] == 58u8);
        assert(s[n2.len() as int] == n[n2.len() as int]);
    }
    assert forall|i: int| 0 <= i < n.len() implies n[i] == n2[i] by {
        assert(s[i] == n[i]);
        assert(s[i] == n2[i]);
    }
    assert(n =~= n2);
    let k: int = (n.len() + 2) as int;
    if v.len() < v2.len() {
        assert(s[k + v.len()] == 13u8);
        assert(s[k + v.len()] == v2[v.len() as int]);
    }
    if v2.len() < v.len() {
        assert(s[k + v2.len()] == 13u8);
        assert(s[k + v2.len()] == v[v2.len() as int]);
    }
    assert forall|i: int| 0 <= i < v.len() implies v[i] == v2[i] by {
        assert(s[k + i] == v[i]);
        assert(s[k + i] == v2[i]);
    }
    assert(v =~= v2);
    let len: int = (k + v.len() + 2) as int;
    assert(x =~= s.subrange(len, s.len() as int));
    assert(x2 =~= s.subrange(len, s.len() as int));
    vstd::utf8::encode_utf8_decode_utf8(h.name);
    vstd::utf8::encode_utf8_decode_utf8(g.name);
    vstd::utf8::encode_utf8_decode_utf8(h.value);
    vstd::utf8::encode_utf8_decode_utf8(g.value);
}

/// Valid header lines and the blank line after them are read one way only.
#[verifier::rlimit(80)]
proof fn lemma_fields_unique(a: Seq<HeaderSpec>, c: Seq<HeaderSpec>, r: Seq<u8>, r2: Seq<u8>)
    requires
        valid_fields(a),
        valid_fields(c),
        field_block(a) + crlf() + r == field_block(c) + crlf() + r2,
    ensures
        a == c,
        r == r2,
    decreases a.len() + c.len(),
{
    let s = field_block(a) + crlf() + r;
    if a.len() == 0 && c.len() == 0 {
        assert(field_block(a) =~= Seq::<u8>::empty());
        assert(field_block(c) =~= Seq::<u8>::empty());
        assert(r =~= s.subrange(2, s.len() as int));
        assert(r2 =~= s.subrange(2, s.len() as int));
        assert(a =~= c);
    } else if a.len() == 0 {
        assert(field_block(a) =~= Seq::<u8>::empty());
        lemma_field_block_front(c);
        assert(valid_field(c[0]));
        let y = field_block(c.drop_first()) + crlf() + r2;
        assert(s =~= crlf() + r);
        assert(s =~= field_line(c[0]) + y);
        lemma_field_line_not_blank(c[0], y, r);
    } else if c.len() == 0 {
        assert(field_block(c) =~= Seq::<u8>::empty());
        lemma_field_block_front(a);
        assert(valid_field(a[0]));
        let y = field_block(a.drop_first()) + crlf() + r;
        assert(s =~= crlf() + r2);
        assert(s =~= field_line(a[0]) + y);
        lemma_field_line_not_blank(a[0], y, r2);
    } else {
        lemma_field_block_front(a);
        lemma_field_block_front(c);
        let x = field_block(a.drop_first()) + crlf() + r;
        let x2 = field_block(c.drop_first()) + crlf() + r2;
        assert(s =~= field_line(a[0]) + x);
        assert(s =~= field_line(c[0]) + x2);
        lemma_field_line_unique(a[0], c[0], x, x2);
        let ra = a.drop_first();
        let rc = c.drop_first();
        assert forall|i: int| 0 <= i < ra.len() implies valid_field(ra[i]) by {
            assert(ra[i] == a[i + 1]);
        }
        assert forall|i: int| 0 <= i < rc.len() implies valid_field(rc[i]) by {
            assert(rc[i] == c[i + 1]);
        }
        lemma_fields_unique(ra, rc, r, r2);
        assert(a =~= seq![a[0]] + ra);
        assert(c =~= seq![c[0]] + rc);
    }
}

/// Valid responses have distinct wire forms.
proof fn lemma_response_wire_unique(
    st: u16,
    hs: Seq<HeaderSpec>,
    body: Seq<u8>,
    st2: u16,
    hs2: Seq<HeaderSpec>,
    body2: Seq<u8>,
)
    requires
        100 <= st <= 999,
        100 <= st2 <= 999,
        valid_fields(hs),
        valid_fields(hs2),
        response_wire(st, hs, body) == response_wire(st2, hs2, body2),
    ensures
        st == st2,
        hs == hs2,
        body == body2,
{
    let w = response_wire(st, hs, body);
    let start = version_prefix() + status_digits(st as int) + seq![32u8] + crlf();
    let start2 = version_prefix() + status_digits(st2 as int) + seq![32u8] + crlf();
    let a = hs.push(length_field(body.len()));
    let a2 = hs2.push(length_field(body2.len()));
    assert(w =~= start + (field_block(a) + crlf() + body));
    assert(w =~= start2 + (field_block(a2) + crlf() + body2));
    assert(w[9] == start[9] && w[9] == start2[9]);
    assert(w[10] == start[10] && w[10] == start2[10]);
    assert(w[11] == start[11] && w[11] == start2[11]);
    vstd::arithmetic::div_mod::lemma_fundamental_div_mod(st as int, 10);
    vstd::arithmetic::div_mod::lemma_fundamental_div_mod(st as int / 10, 10);
    vstd::arithmetic::div_mod::lemma_fundamental_div_mod(st2 as int, 10);
    vstd::arithmetic::div_mod::lemma_fundamental_div_mod(st2 as int / 10, 10);
    assert(st == st2);
    assert(field_block(a) + crlf() + body =~= w.subrange(15, w.len() as int));
    assert(field_block(a2) + crlf() + body2 =~= w.subrange(15, w.len() as int));
    lemma_valid_push(hs, body.len());
    lemma_valid_push(hs2, body2.len());
    lemma_fields_unique(a, a2, body, body2);
    assert(hs =~= a.drop_last());
    assert(hs2 =~= a2.drop_last());
}

proof fn lemma_method_bytes_unique(m: Method, m2: Method)
    requires
        method_bytes(m) == method_bytes(m2),
    ensures
        m == m2,
        forall|i: int| 0 <= i < method_bytes(m).len() ==> method_bytes(m)[i] != 32u8,
{
    let a = method_bytes(m);
    let c = method_bytes(m2);
    assert(a.len() == c.len() && a[0] == c[0]);
    assert forall|i: int| 0 <= i < method_bytes(m).len() implies method_bytes(m)[i] != 32u8 by {
        match m {
            Method::Get => {},
            Method::Post => {},
            Method::Put => {},
            Method::Patch => {},
            Method::Delete => {},
        }
    }
    match m {
        Method::Get => {},
        Method::Post => {},
        Method::Put => {},
        Method::Patch => {},
        Method::Delete => {},
    }
}

proof fn lemma_method_bytes_no_space(m: Method)
    ensures
        forall|i: int| 0 <= i < method_bytes(m).len() ==> method_bytes(m)[i] != 32u8,
{
    lemma_method_bytes_unique(m, m);
}

/// Two byte strings that each end before a space at their own length, and
/// hold no space before it, are equal when they start the same sequence.
proof fn lemma_word_unique(p: Seq<u8>, q: Seq<u8>, x: Seq<u8>, y: Seq<u8>)
    requires
        p + x == q + y,
        x.len() > 0 && x[0] == 32u8,
        y.len() > 0 && y[0] == 32u8,
        forall|i: int| 0 <= i < p.len() ==> p[i] != 32u8,
        forall|i: int| 0 <= i < q.len() ==> q[i] != 32u8,
    ensures
        p == q,
        x == y,
{
    let s = p + x;
    if p.len() < q.len() {
        assert(s[p.len() as int] == x[0]);
        assert(s[p.len() as int] == q[p.len() as int]);
    }
    if q.len() < p.len() {
        assert(s[q.len() as int] == y[0]);
        assert(s[q.len() as int] == p[q.len() as int]);
    }
    assert forall|i: int| 0 <= i < p.len() implies p[i] == q[i] by {
        assert(s[i] == p[i]);
        assert(s[i] == q[i]);
    }
    assert(p =~= q);
    assert(x =~= s.subrange(p.len() as int, s.len() as int));
    assert(y =~= s.subrange(p.len() as int, s.len() as int));
}

/// Valid requests have distinct wire forms.
#[verifier::rlimit(60)]
proof fn lemma_request_wire_unique(
    m: Method,
    url: Seq<char>,
    hs: Seq<HeaderSpec>,
    body: Seq<u8>,
    m2: Method,
    url2: Seq<char>,
    hs2: Seq<HeaderSpec>,
    body2: Seq<u8>,
)
    requires
        valid_target(url),
        valid_target(url2),
        valid_fields(hs),
        valid_fields(hs2),
        request_wire(m, url, hs, body) == request_wire(m2, url2, hs2, body2),
    ensures
        m == m2,
        url == url2,
        hs == hs2,
        body == body2,
{
    lemma_method_bytes(m);
    lemma_method_bytes(m2);
    lemma_method_bytes_no_space(m);
    lemma_method_bytes_no_space(m2);
    let t = encode_utf8(url);
    let t2 = encode_utf8(url2);
    let a = hs.push(length_field(body.len()));
    let a2 = hs2.push(length_field(body2.len()));
    let tail = field_block(a) + crlf() + body;
    let tail2 = field_block(a2) + crlf() + body2;
    let after = version_suffix() + crlf() + tail;
    let after2 = version_suffix() + crlf() + tail2;
    let w = request_wire(m, url, hs, body);
    assert(w =~= method_bytes(m) + (seq![32u8] + t + after));
    assert(w =~= method_bytes(m2) + (seq![32u8] + t2 + after2));
    lemma_word_unique(method_bytes(m), method_bytes(m2), seq![32u8] + t + after, seq![32u8] + t2 + after2);
    lemma_method_bytes_unique(m, m2);
    let rest = seq![32u8] + t + after;
    assert(t + after =~= rest.subrange(1, rest.len() as int));
    assert(t2 + after2 =~= (seq![32u8] + t2 + after2).subrange(1, rest.len() as int));
    lemma_word_unique(t, t2, after, after2);
    vstd::utf8::encode_utf8_decode_utf8(url);
    vstd::utf8::encode_utf8_decode_utf8(url2);
    assert(tail =~= after.subrange(11, after.len() as int));
    assert(tail2 =~= after2.subrange(11, after.len() as int));
    lemma_valid_push(hs, body.len());
    lemma_valid_push(hs2, body2.len());
    lemma_fields_unique(a, a2, body, body2);
    assert(hs =~= a.drop_last());
    assert(hs2 =~= a2.drop_last());
}

} // verus!
