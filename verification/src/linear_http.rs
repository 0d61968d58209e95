//! Interpreting Linear's HTTP answers.
//!
//! Both Linear transports (the tracker's async client and the host-side
//! blocking transport behind the `host-linear` capability) decide what an
//! HTTP answer means in the same order: `429` is a rate limit carrying the
//! server's `Retry-After` hint, any other non-2xx status is an upstream
//! failure, and only a 2xx answer has its body read. The network exchange
//! itself stays with the caller; these functions are the decisions.
use vstd::prelude::*;
use vstd::utf8::{decode_utf8, valid_utf8};

use crate::text::{
    char_is_ascii_digit, chars_of, decimal, decimal_chars, extend_chars, extend_str, is_ascii_digit,
    string_from, trim, trim_vec,
};
use crate::tracker::TrackerError;
use crate::wasm_host::{LinearHttpResult, LinearTransportError};

verus! {

/// What to do with an HTTP answer, judged by its status code.
#[derive(Debug, Clone, Copy, PartialEq, Eq)]
pub enum HttpDisposition {
    /// `429 Too Many Requests`.
    RateLimited,
    /// Any other status outside `200..=299`.
    Failed,
    /// A `2xx` status: read the body.
    ReadBody,
}

pub open spec fn disposition_of(status: u16) -> HttpDisposition {
    if status == 429 {
        HttpDisposition::RateLimited
    } else if 200 <= status <= 299 {
        HttpDisposition::ReadBody
    } else {
        HttpDisposition::Failed
    }
}

/// Classify an HTTP status code.
pub fn disposition(status: u16) -> (d: HttpDisposition)
    ensures
        d == disposition_of(status),
{
    if status == 429 {
        HttpDisposition::RateLimited
    } else if 200 <= status && status <= 299 {
        HttpDisposition::ReadBody
    } else {
        HttpDisposition::Failed
    }
}

/// Value of a run of ASCII digits.
pub open spec fn digits_value(s: Seq<char>) -> int
    decreases s.len(),
{
    if s.len() == 0 {
        0
    } else {
        digits_value(s.drop_last()) * 10 + (s.last() as int - '0' as int)
    }
}

/// `s` without one leading `+`.
pub open spec fn sign_stripped(s: Seq<char>) -> Seq<char> {
    if s.len() > 0 && s[0] == '+' {
        s.skip(1)
    } else {
        s
    }
}

pub open spec fn all_ascii_digits(d: Seq<char>) -> bool {
    forall|i: int| 0 <= i < d.len() ==> is_ascii_digit(#[trigger] d[i])
}

/// `str::parse::<u32>`: an optional `+`, then one or more ASCII digits
/// whose value fits in 32 bits; anything else is refused.
pub open spec fn parse_u32(s: Seq<char>) -> Option<u32> {
    let d = sign_stripped(s);
    if d.len() > 0 && all_ascii_digits(d) && digits_value(d) <= u32::MAX {
        Some(digits_value(d) as u32)
    } else {
        None
    }
}

proof fn lemma_digits_value_grows(s: Seq<char>, k: int)
    requires
        0 <= k <= s.len(),
        forall|i: int| 0 <= i < s.len() ==> is_ascii_digit(#[trigger] s[i]),
    ensures
        digits_value(s.take(k)) <= digits_value(s),
        0 <= digits_value(s.take(k)),
    decreases s.len() - k,
{
    if k < s.len() {
        lemma_digits_value_grows(s, k + 1);
        assert(s.take(k + 1).drop_last() =~= s.take(k));
        assert(s.take(k + 1).last() == s[k]);
    } else {
        assert(s.take(k) =~= s);
    }
    lemma_digits_nonneg(s.take(k));
}

proof fn lemma_digits_nonneg(s: Seq<char>)
    requires
        forall|i: int| 0 <= i < s.len() ==> is_ascii_digit(#[trigger] s[i]),
    ensures
        0 <= digits_value(s),
    decreases s.len(),
{
    if s.len() > 0 {
        assert(forall|i: int|
            0 <= i < s.drop_last().len() ==> s.drop_last()[i] == s[i]);
        lemma_digits_nonneg(s.drop_last());
    }
}

fn digit_value(c: char) -> (d: u64)
    requires
        is_ascii_digit(c),
    ensures
        d == c as int - '0' as int,
        d < 10,
{
    (c as u32 - '0' as u32) as u64
}

/// `s.parse::<u32>().ok()`.
pub fn parse_u32_exec(s: &[char]) -> (r: Option<u32>)
    ensures
        r == parse_u32(s@),
{
    let start: usize = if s.len() > 0 && s[0] == '+' {
        1
    } else {
        0
    };
    let ghost d = sign_stripped(s@);
    assert(d =~= s@.skip(start as int));
    if start >= s.len() {
        return None;
    }
    let mut v: u64 = 0;
    let mut i: usize = start;
    while i < s.len()
        invariant
            start <= i <= s.len(),
            start < s.len(),
            d =~= s@.skip(start as int),
            d == sign_stripped(s@),
            forall|j: int| 0 <= j < i - start ==> is_ascii_digit(#[trigger] d[j]),
            v == digits_value(d.take(i - start)),
            v <= u32::MAX,
        decreases s.len() - i,
    {
        if !char_is_ascii_digit(s[i]) {
            assert(d[i - start] == s@[i as int]);
            return None;
        }
        let c = digit_value(s[i]);
        proof {
            assert(d.take(i - start + 1).drop_last() =~= d.take(i - start));
            assert(d.take(i - start + 1).last() == s@[i as int]);
        }
        let nv = v * 10 + c;
        if nv > 4294967295 {
            proof {
                assert(forall|j: int|
                    0 <= j < i - start + 1 ==> #[trigger] d.take(i - start + 1)[j] == d[j]);
                if all_ascii_digits(d) {
                    lemma_digits_value_grows(d, i - start + 1);
                }
            }
            return None;
        }
        v = nv;
        i = i + 1;
    }
    assert(d.take(i - start) =~= d);
    Some(v as u32)
}

/// `429`: the typed rate limit, with the `Retry-After` hint when its value
/// (already known to be visible ASCII) is an integer number of seconds.
/// The HTTP-date form, or any other text, gives no hint.
pub fn linear_rate_limited(retry_after: Option<&str>) -> (e: LinearTransportError)
    ensures
        e == LinearTransportError::RateLimited(
            match retry_after {
                Some(h) => parse_u32(trim(h@)),
                None => None,
            },
        ),
{
    match retry_after {
        Some(h) => {
            let cs = chars_of(h);
            let t = trim_vec(cs.as_slice());
            LinearTransportError::RateLimited(parse_u32_exec(t.as_slice()))
        },
        None => LinearTransportError::RateLimited(None),
    }
}

/// A non-2xx status other than `429`: a generic upstream failure naming
/// only the status code (never the URL, the token or the body).
pub fn linear_status_error(status: u16) -> (e: LinearTransportError)
    ensures
        e matches LinearTransportError::Upstream(m) && m@ == "HTTP "@ + decimal(status as nat)
            + " from linear endpoint"@,
{
    let mut v: Vec<char> = Vec::new();
    extend_str(&mut v, "HTTP ");
    let d = decimal_chars(status as u64);
    extend_chars(&mut v, d.as_slice());
    extend_str(&mut v, " from linear endpoint");
    LinearTransportError::Upstream(string_from(v.as_slice()))
}

/// `String::from_utf8(bytes.to_vec()).ok()`: the text the bytes encode,
/// when they are valid UTF-8.
#[verifier::external_body]
fn utf8_string(bytes: &[u8]) -> (r: Option<String>)
    ensures
        match r {
            Some(s) => valid_utf8(bytes@) && s@ == decode_utf8(bytes@),
            None => !valid_utf8(bytes@),
        },
{
    String::from_utf8(bytes.to_vec()).ok()
}

/// The body of a 2xx answer, read up to one byte past the cap: more than
/// `max_response_bytes` bytes is refused as too large, bytes that are not
/// UTF-8 are an I/O failure, anything else is the result.
pub fn linear_body_result(status: u16, body: &[u8], max_response_bytes: usize) -> (r: Result<
    LinearHttpResult,
    LinearTransportError,
>)
    ensures
        body.len() > max_response_bytes ==> (r matches Err(LinearTransportError::Upstream(m)) && m@
            == "linear response body too large"@),
        body.len() <= max_response_bytes && !valid_utf8(body@) ==> (r matches Err(
            LinearTransportError::Io(m),
        ) && m@ == "response body is not valid utf-8"@),
        body.len() <= max_response_bytes && valid_utf8(body@) ==> (r matches Ok(res) && res.status
            == status && res.body_json@ == decode_utf8(body@)),
{
    if body.len() > max_response_bytes {
        return Err(LinearTransportError::Upstream("linear response body too large".to_owned()));
    }
    match utf8_string(body) {
        Some(text) => Ok(LinearHttpResult { status, body_json: text }),
        None => Err(LinearTransportError::Io("response body is not valid utf-8".to_owned())),
    }
}

/// A request that never produced an answer. The message is static: it
/// carries neither the URL nor the token.
pub fn linear_request_failure(timed_out: bool) -> (e: LinearTransportError)
    ensures
        e matches LinearTransportError::Io(m) && m@ == if timed_out {
            "linear transport request timed out"@
        } else {
            "linear transport request failed"@
        },
{
    if timed_out {
        LinearTransportError::Io("linear transport request timed out".to_owned())
    } else {
        LinearTransportError::Io("linear transport request failed".to_owned())
    }
}

/// `429` from the tracker endpoint: the raw `Retry-After` value, or
/// `unspecified` when there is none (or it is not visible ASCII).
pub fn tracker_rate_limited(retry_after: Option<&str>) -> (e: TrackerError)
    ensures
        e matches TrackerError::RateLimited(h) && h@ == match retry_after {
            Some(v) => v@,
            None => "unspecified"@,
        },
{
    match retry_after {
        Some(v) => TrackerError::RateLimited(v.to_owned()),
        None => TrackerError::RateLimited("unspecified".to_owned()),
    }
}

/// At most the first `n` characters of `s`.
pub open spec fn first_chars(s: Seq<char>, n: nat) -> Seq<char> {
    if s.len() <= n {
        s
    } else {
        s.take(n as int)
    }
}

/// A failed tracker request: the status line and the first 300
/// characters of the response text.
pub fn tracker_status_error(status_line: &str, body_text: &str) -> (e: TrackerError)
    ensures
        e matches TrackerError::Upstream(m) && m@ == "HTTP "@ + status_line@ + " from Linear: "@
            + first_chars(body_text@, 300),
{
    let mut v: Vec<char> = Vec::new();
    extend_str(&mut v, "HTTP ");
    extend_str(&mut v, status_line);
    extend_str(&mut v, " from Linear: ");
    let body = chars_of(body_text);
    let mut i: usize = 0;
    let ghost prefix = v@;
    while i < body.len() && i < 300
        invariant
            i <= body.len(),
            i <= 300,
            body@ == body_text@,
            v@ == prefix + body@.take(i as int),
        decreases body.len() - i,
    {
        v.push(body[i]);
        assert(body@.take(i + 1) =~= body@.take(i as int).push(body@[i as int]));
        i = i + 1;
    }
    assert(body@.take(i as int) =~= first_chars(body_text@, 300));
    TrackerError::Upstream(string_from(v.as_slice()))
}

/// The messages joined by `"; "`.
pub open spec fn joined(messages: Seq<Seq<char>>) -> Seq<char>
    decreases messages.len(),
{
    if messages.len() == 0 {
        Seq::empty()
    } else if messages.len() == 1 {
        messages[0]
    } else {
        joined(messages.drop_last()) + "; "@ + messages.last()
    }
}

/// The outcome of a decoded GraphQL envelope: a non-empty `errors` list is
/// an upstream failure carrying every message; otherwise the `data` member,
/// which must be present.
pub fn graphql_outcome<D>(data: Option<D>, errors: Option<Vec<String>>) -> (r: Result<
    D,
    TrackerError,
>)
    ensures
        match errors {
            Some(es) if es.len() > 0 => r matches Err(TrackerError::Upstream(m)) && m@ == joined(
                crate::strmap::string_views(es@),
            ),
            _ => match data {
                Some(d) => r == Ok::<D, TrackerError>(d),
                None => r matches Err(TrackerError::InvalidResponse(m)) && m@
                    == "missing GraphQL `data` envelope"@,
            },
        },
{
    if let Some(es) = &errors {
        if es.len() > 0 {
            let mut v: Vec<char> = Vec::new();
            let mut i: usize = 0;
            while i < es.len()
                invariant
                    0 < es.len(),
                    i <= es.len(),
                    i == 0 ==> v@.len() == 0,
                    i > 0 ==> v@ == joined(crate::strmap::string_views(es@).take(i as int)),
                decreases es.len() - i,
            {
                let ghost views = crate::strmap::string_views(es@);
                if i > 0 {
                    extend_str(&mut v, "; ");
                }
                extend_str(&mut v, es[i].as_str());
                proof {
                    let t = views.take(i + 1);
                    assert(t.drop_last() =~= views.take(i as int));
                    assert(t.last() == es@[i as int]@);
                    if i == 0 {
                        assert(t.len() == 1);
                        assert(v@ =~= t[0]);
                    }
                }
                i = i + 1;
            }
            assert(crate::strmap::string_views(es@).take(es.len() as int) =~= crate::strmap::string_views(es@));
            return Err(TrackerError::Upstream(string_from(v.as_slice())));
        }
    }
    match data {
        Some(d) => Ok(d),
        None => Err(TrackerError::InvalidResponse("missing GraphQL `data` envelope".to_owned())),
    }
}

} // verus!
