//! The response side of the protocol: the sentinel path that rejected
//! requests are retargeted to, and the exact edit applied to the outbound
//! response of a rejected request (status 429, `Retry-After` in whole
//! milliseconds, empty body).

use vstd::prelude::*;
use vstd::string::StringExecFns;

verus! {

/// A rejection outcome: the minimum wait, in whole milliseconds, before a
/// retry could succeed, as reported by the rejecting rule's quota checker at
/// evaluation time. Carried from the decision phase to the response phase.
#[derive(Clone, Copy, PartialEq, Eq, Structural)]
pub struct RateLimitResponse {
    pub retry_after: u128,
}

/// The edit the response phase applies to a rejected request's response.
/// The host glue copies these fields onto its response object verbatim.
pub struct ResponseDirective {
    /// HTTP status code; always 429 (Too Many Requests).
    pub status: u16,
    /// Header to set; always `Retry-After`.
    pub header_name: String,
    /// Header value: the wait time in milliseconds, in decimal.
    pub header_value: String,
    /// Length of the replacement body; always 0 (the body is dropped).
    pub body_len: usize,
}

/// The reserved internal path that rejected requests are redirected to.
/// It must never collide with an application route.
pub open spec fn sentinel_path_spec() -> Seq<char> {
    "/rate-limiter-handler-ZoIGMRpd2xPAOawvWc2T8m9Hs33E3kX8"@
}

/// URI that rate-limited requests get redirected to. Applications must not
/// register a route at this path.
pub fn sentinel_path() -> (r: &'static str)
    ensures
        r@ == sentinel_path_spec(),
{
    "/rate-limiter-handler-ZoIGMRpd2xPAOawvWc2T8m9Hs33E3kX8"
}

/// Whether `path` is the sentinel path.
pub fn is_sentinel_path(path: &str) -> (r: bool)
    ensures
        r == (path@ == sentinel_path_spec()),
{
    let p: String = path.to_owned();
    let s: String = sentinel_path().to_owned();
    p == s
}

/// The decimal digit character for `d` (0 through 9).
pub open spec fn dec_digit(d: nat) -> char {
    if d == 0 {
        '0'
    } else if d == 1 {
        '1'
    } else if d == 2 {
        '2'
    } else if d == 3 {
        '3'
    } else if d == 4 {
        '4'
    } else if d == 5 {
        '5'
    } else if d == 6 {
        '6'
    } else if d == 7 {
        '7'
    } else if d == 8 {
        '8'
    } else {
        '9'
    }
}

/// The decimal representation of `n`, most significant digit first, with no
/// leading zeros (and `0` itself written as "0").
pub open spec fn dec_str(n: nat) -> Seq<char>
    decreases n,
{
    if n < 10 {
        seq![dec_digit(n)]
    } else {
        dec_str(n / 10).push(dec_digit(n % 10))
    }
}

/// The digit characters of `ds`, read back to front.
pub open spec fn rev_digit_chars(ds: Seq<u8>) -> Seq<char> {
    Seq::new(ds.len(), |i: int| dec_digit(ds[ds.len() - 1 - i] as nat))
}

fn digit_str(d: u8) -> (r: &'static str)
    requires
        d < 10,
    ensures
        r@ == seq![dec_digit(d as nat)],
{
    proof {
        reveal_strlit("0");
        reveal_strlit("1");
        reveal_strlit("2");
        reveal_strlit("3");
        reveal_strlit("4");
        reveal_strlit("5");
        reveal_strlit("6");
        reveal_strlit("7");
        reveal_strlit("8");
        reveal_strlit("9");
        assert(seq![dec_digit(d as nat)].len() == 1);
    }
    if d == 0 {
        proof {
            assert("0"@ =~= seq![dec_digit(d as nat)]);
        }
        "0"
    } else if d == 1 {
        proof {
            assert("1"@ =~= seq![dec_digit(d as nat)]);
        }
        "1"
    } else if d == 2 {
        proof {
            assert("2"@ =~= seq![dec_digit(d as nat)]);
        }
        "2"
    } else if d == 3 {
        proof {
            assert("3"@ =~= seq![dec_digit(d as nat)]);
        }
        "3"
    } else if d == 4 {
        proof {
            assert("4"@ =~= seq![dec_digit(d as nat)]);
        }
        "4"
    } else if d == 5 {
        proof {
            assert("5"@ =~= seq![dec_digit(d as nat)]);
        }
        "5"
    } else if d == 6 {
        proof {
            assert("6"@ =~= seq![dec_digit(d as nat)]);
        }
        "6"
    } else if d == 7 {
        proof {
            assert("7"@ =~= seq![dec_digit(d as nat)]);
        }
        "7"
    } else if d == 8 {
        proof {
            assert("8"@ =~= seq![dec_digit(d as nat)]);
        }
        "8"
    } else {
        proof {
            assert("9"@ =~= seq![dec_digit(d as nat)]);
        }
        "9"
    }
}

proof fn lemma_rev_digit_chars_push(ds: Seq<u8>, d: u8)
    ensures
        rev_digit_chars(ds.push(d)) =~= seq![dec_digit(d as nat)] + rev_digit_chars(ds),
{
    assert forall|i: int| 0 <= i < ds.len() + 1 implies rev_digit_chars(ds.push(d))[i] == (seq![
        dec_digit(d as nat),
    ] + rev_digit_chars(ds))[i] by {
        if i == 0 {
            assert(ds.push(d)[ds.len() as int] == d);
        } else {
            assert(ds.push(d)[ds.len() - i] == ds[ds.len() - i]);
        }
    }
}

/// The decimal rendering of `n`, proved equal to `dec_str`.
pub fn u128_to_dec_string(n: u128) -> (s: String)
    ensures
        s@ == dec_str(n as nat),
{
    let mut digits: Vec<u8> = Vec::new();
    let mut m: u128 = n;
    if m == 0 {
        digits.push(0);
        proof {
            assert(dec_str(n as nat) =~= rev_digit_chars(digits@));
        }
    } else {
        proof {
            assert(dec_str(n as nat) =~= dec_str(n as nat) + rev_digit_chars(digits@));
        }
        while m > 0
            invariant
                forall|i: int| 0 <= i < digits@.len() ==> digits@[i] < 10,
                m > 0 ==> dec_str(n as nat) == dec_str(m as nat) + rev_digit_chars(digits@),
                m == 0 ==> dec_str(n as nat) == rev_digit_chars(digits@),
            decreases m,
        {
            let ghost old_m = m as nat;
            let ghost old_digits = digits@;
            let d: u8 = (m % 10) as u8;
            digits.push(d);
            m = m / 10;
            proof {
                lemma_rev_digit_chars_push(old_digits, d);
                if old_m < 10 {
                    assert(dec_str(old_m) =~= seq![dec_digit(d as nat)]);
                    assert(dec_str(n as nat) =~= rev_digit_chars(digits@));
                } else {
                    assert(dec_str(old_m) == dec_str(old_m / 10).push(dec_digit(old_m % 10)));
                    assert(dec_str(old_m / 10).push(dec_digit(old_m % 10)) =~= dec_str(old_m / 10)
                        + seq![dec_digit(d as nat)]);
                    assert(dec_str(n as nat) =~= dec_str(m as nat) + rev_digit_chars(digits@));
                }
            }
        }
    }
    let mut s = String::new();
    let mut i: usize = digits.len();
    while i > 0
        invariant
            i <= digits@.len(),
            forall|j: int| 0 <= j < digits@.len() ==> digits@[j] < 10,
            dec_str(n as nat) == rev_digit_chars(digits@),
            s@ == rev_digit_chars(digits@).take(digits@.len() - i),
        decreases i,
    {
        i = i - 1;
        let ghost old_s = s@;
        s.append(digit_str(digits[i]));
        proof {
            let rev = rev_digit_chars(digits@);
            assert(rev[digits@.len() - 1 - i] == dec_digit(digits@[i as int] as nat));
            assert(s@ =~= rev.take(digits@.len() - i));
        }
    }
    proof {
        assert(rev_digit_chars(digits@).take(digits@.len() as int) =~= rev_digit_chars(digits@));
    }
    s
}

/// What a correct rejection edit looks like for a wait of `wait` ms:
/// status 429, a `Retry-After` header holding the wait in decimal
/// milliseconds, and an empty body.
pub open spec fn directive_matches(d: ResponseDirective, wait: u128) -> bool {
    &&& d.status == 429
    &&& d.header_name@ == "Retry-After"@
    &&& d.header_value@ == dec_str(wait as nat)
    &&& d.body_len == 0
}

/// Builds the response edit for a rejection: status 429, `Retry-After` set
/// to the reported wait in milliseconds, body replaced by an empty one.
pub fn apply_rate_limit(outcome: &RateLimitResponse) -> (d: ResponseDirective)
    ensures
        directive_matches(d, outcome.retry_after),
{
    ResponseDirective {
        status: 429,
        header_name: "Retry-After".to_owned(),
        header_value: u128_to_dec_string(outcome.retry_after),
        body_len: 0,
    }
}

/// What the response phase decides to do, as a value: `Some(wait)` exactly
/// when the request sits on the sentinel path and a rejection outcome was
/// stashed for it; `None` (pass the response through untouched) otherwise —
/// in particular when no outcome was ever stored, the phase fails open.
pub open spec fn response_decision_model(path: Seq<char>, stored: Option<RateLimitResponse>)
    -> Option<u128> {
    if path == sentinel_path_spec() {
        match stored {
            Some(o) => Some(o.retry_after),
            None => None,
        }
    } else {
        None
    }
}

/// The post-response phase. `path` is the request's current path and
/// `stored` whatever rejection outcome the request phase stashed (`None` if
/// storage was never written — treated as "no rejection", fail open).
/// Returns the edit to apply, or `None` to leave the response untouched.
pub fn on_response_decision(path: &str, stored: Option<RateLimitResponse>) -> (r: Option<
    ResponseDirective,
>)
    ensures
        (r is Some) == (response_decision_model(path@, stored) is Some),
        match r {
            Some(d) => {
                &&& stored is Some
                &&& directive_matches(d, stored->Some_0.retry_after)
                &&& path@ == sentinel_path_spec()
            },
            None => response_decision_model(path@, stored) is None,
        },
{
    if !is_sentinel_path(path) {
        return None;
    }
    match stored {
        Some(outcome) => Some(apply_rate_limit(&outcome)),
        None => None,
    }
}

/// The pre-routing phase's visible effect, as a value: a rejected request is
/// retargeted to the sentinel path (and the outcome stashed); an admitted
/// request is left exactly as it was.
pub fn on_request_decision(result: Option<RateLimitResponse>) -> (r: Option<&'static str>)
    ensures
        result is None ==> r is None,
        result is Some ==> (r is Some && r->Some_0@ == sentinel_path_spec()),
{
    match result {
        Some(_) => Some(sentinel_path()),
        None => None,
    }
}

/// An admitted request passes through untouched: the request phase makes no
/// edit, and — since nothing was stashed and the path was not retargeted —
/// the response phase makes none either, on any path an application route
/// can own. The served response is therefore the one the host would have
/// produced with no rate-limiting hook installed at all.
pub proof fn lemma_admitted_passes_through(path: Seq<char>)
    requires
        path != sentinel_path_spec(),
    ensures
        forall|stored: Option<RateLimitResponse>|
            response_decision_model(path, stored) is None,
{
}

} // verus!
