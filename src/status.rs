//! Status codes and the 2xx range.
use vstd::prelude::*;

verus! {

/// A status code that HTTP can carry: three digits.
pub open spec fn is_valid_status(code: int) -> bool {
    100 <= code <= 999
}

/// Within the 2xx range.
pub open spec fn is_success(code: int) -> bool {
    200 <= code <= 299
}

/// Outside the 2xx range.
pub open spec fn is_failure(code: int) -> bool {
    code < 200 || code > 299
}

pub fn status_is_success(code: u16) -> (r: bool)
    ensures
        r == is_success(code as int),
{
    200 <= code && code <= 299
}

pub fn status_is_failure(code: u16) -> (r: bool)
    ensures
        r == is_failure(code as int),
{
    code < 200 || code > 299
}

/// Relies on `http::StatusCode::from_u16`, which accepts exactly the codes
/// from 100 to 999, to refuse a response whose status no HTTP status line
/// can carry.
#[verifier::external_body]
pub(crate) fn status_code_accepted(code: u16) -> (r: bool)
    ensures
        r == is_valid_status(code as int),
{
    http::StatusCode::from_u16(code).is_ok()
}

/// Every status code is either a success or a failure, and never both.
pub proof fn lemma_success_failure_partition(code: int)
    requires
        is_valid_status(code),
    ensures
        is_success(code) != is_failure(code),
{
}

pub open spec fn digit_char(d: int) -> char {
    if d == 0 { '0' } else if d == 1 { '1' } else if d == 2 { '2' } else if d == 3 { '3' }
    else if d == 4 { '4' } else if d == 5 { '5' } else if d == 6 { '6' } else if d == 7 { '7' }
    else if d == 8 { '8' } else { '9' }
}

/// The decimal digits of `n`, without leading zeros.
pub open spec fn decimal(n: nat) -> Seq<char>
    decreases n,
{
    if n < 10 {
        seq![digit_char(n as int)]
    } else {
        decimal(n / 10).push(digit_char((n % 10) as int))
    }
}

fn digit_text(d: u64) -> (r: &'static str)
    requires
        d < 10,
    ensures
        r@ == seq![digit_char(d as int)],
{
    proof {
        reveal_strlit("0");
        reveal_strlit("1");
        reveal_strlit("2");
        reveal_strlit("3");
        reveal_strlit("4");
        reveal_strlit("5");
        reveal_strlit("6");
        reveal_strlit("7");
        reveal_strlit("8");
        reveal_strlit("9");
    }
    let r = if d == 0 { "0" } else if d == 1 { "1" } else if d == 2 { "2" } else if d == 3 { "3" }
    else if d == 4 { "4" } else if d == 5 { "5" } else if d == 6 { "6" } else if d == 7 { "7" }
    else if d == 8 { "8" } else { "9" };
    assert(r@ =~= seq![digit_char(d as int)]);
    r
}

/// A number written in decimal.
pub fn decimal_text(n: u64) -> (r: String)
    ensures
        r@ == decimal(n as nat),
    decreases n,
{
    if n < 10 {
        digit_text(n).to_owned()
    } else {
        let mut r = decimal_text(n / 10);
        r.append(digit_text(n % 10));
        r
    }
}

/// A status code written in decimal, as in a status line.
pub fn status_text(code: u16) -> (r: String)
    ensures
        r@ == decimal(code as nat),
{
    decimal_text(code as u64)
}

} // verus!
