//! The primality-query protocol: each request line is a JSON object that
//! must carry `"method": "isPrime"` and a numeric `"number"`; the reply
//! states whether the number is prime, and a malformed request draws one
//! failure line and ends the conversation.
//!
//! JSON values are opaque to this crate: reading them goes through small
//! trusted wrappers around `serde_json`, and the primality verdict itself
//! comes from the `is_prime` crate, whose answer on a given number is
//! named by [`prime_verdict`].  The decision from plain values to the
//! reply line is verified in [`number_reply`].

use vstd::prelude::*;

verus! {

#[verifier::external_type_specification]
#[verifier::external_body]
pub struct ExValue(serde_json::Value);

/// What `is_prime::is_prime` answers for the decimal digits of `n`: a
/// deterministic Miller-Rabin verdict, a function of the digits alone.
pub uninterp spec fn prime_verdict(n: u64) -> bool;

/// Relies on `is_prime::is_prime`, a deterministic Miller-Rabin test on a
/// decimal string.  Its source returns false below 2 and for even numbers
/// above 2, and true for 2, 3 and 5.
#[verifier::external_body]
fn check_prime(n: u64) -> (r: bool)
    ensures
        r == prime_verdict(n),
        n < 2 ==> !r,
        n == 2 || n == 3 || n == 5 ==> r,
        n > 2 && n % 2 == 0 ==> !r,
{
    is_prime::is_prime(&n.to_string())
}

/// Whether `serde_json::from_str` accepts the text as one JSON value:
/// a grammar check, a function of the text alone.
pub uninterp spec fn json_accepts(s: Seq<char>) -> bool;

/// Relies on `serde_json::from_str`: decodes one JSON value from text,
/// succeeding exactly on the texts the parser accepts.
#[verifier::external_body]
fn json_parse(s: &str) -> (r: Option<serde_json::Value>)
    ensures
        (r is Some) == json_accepts(s@),
{
    serde_json::from_str::<serde_json::Value>(s).ok()
}

/// Relies on `serde_json::Value::get`: the field of a JSON object under
/// the given key, if the value is an object with that key.
#[verifier::external_body]
fn json_get<'a>(v: &'a serde_json::Value, key: &str) -> Option<&'a serde_json::Value> {
    v.get(key)
}

/// Relies on `serde_json::Value::as_str`: the text of a JSON string, or
/// nothing when the value is not a string.
#[verifier::external_body]
fn json_as_str<'a>(v: &'a serde_json::Value) -> Option<&'a str> {
    v.as_str()
}

/// Relies on `serde_json::Value::is_number`: whether the value is a JSON
/// number.
#[verifier::external_body]
fn json_is_number(v: &serde_json::Value) -> bool {
    v.is_number()
}

/// Relies on `serde_json::Value::is_f64`: whether the value is a number
/// that is represented as a float (it has a fraction or exponent, or does
/// not fit an integer).
#[verifier::external_body]
fn json_is_f64(v: &serde_json::Value) -> bool {
    v.is_f64()
}

/// Relies on `serde_json::Value::as_i64`: the value as a signed 64-bit
/// integer, when it is an integral number that fits.
#[verifier::external_body]
fn json_as_i64(v: &serde_json::Value) -> Option<i64> {
    v.as_i64()
}

/// Relies on `serde_json::Value::as_u64`: the value as an unsigned 64-bit
/// integer, when it is a non-negative integral number that fits.
#[verifier::external_body]
fn json_as_u64(v: &serde_json::Value) -> Option<u64> {
    v.as_u64()
}

/// What the `number` field of a well-formed request turned out to be:
/// a float, a negative integer, or a whole number.
#[derive(Clone, Copy, Debug, PartialEq, Eq, Structural)]
pub enum NumberKind {
    /// Represented as a float: never prime.
    Float,
    /// A negative integer: never prime.
    Negative,
    /// A non-negative integer, to be tested for primality.
    Whole(u64),
}

/// The reply line for a malformed request.
pub open spec fn malformed_text() -> Seq<char> {
    "{\"result\":\"failure\"}\n"@
}

/// The reply line stating the primality verdict.
pub open spec fn prime_text(flag: bool) -> Seq<char> {
    if flag {
        "{\"method\":\"isPrime\",\"prime\":true}\n"@
    } else {
        "{\"method\":\"isPrime\",\"prime\":false}\n"@
    }
}

/// The verdict owed for each kind of number: floats and negative integers
/// are never prime; a whole number gets the named Miller-Rabin verdict.
pub open spec fn kind_verdict(kind: NumberKind) -> bool {
    match kind {
        NumberKind::Float => false,
        NumberKind::Negative => false,
        NumberKind::Whole(n) => prime_verdict(n),
    }
}

/// The failure line sent for a malformed request.
pub fn malformed_line() -> (r: String)
    ensures
        r@ == malformed_text(),
{
    String::from_str("{\"result\":\"failure\"}\n")
}

/// The reply line for a classified number: exactly the verdict that
/// [`kind_verdict`] owes it.
pub fn number_reply(kind: NumberKind) -> (r: String)
    ensures
        r@ == prime_text(kind_verdict(kind)),
{
    let flag = match kind {
        NumberKind::Float => false,
        NumberKind::Negative => false,
        NumberKind::Whole(n) => check_prime(n),
    };
    if flag {
        String::from_str("{\"method\":\"isPrime\",\"prime\":true}\n")
    } else {
        String::from_str("{\"method\":\"isPrime\",\"prime\":false}\n")
    }
}

/// Classify the `number` field the way the protocol reads it.  The JSON
/// value is opaque, so nothing relates the outcome to it; [`number_reply`]
/// then answers exactly for whatever kind came back.
fn classify_number(v: &serde_json::Value) -> Option<NumberKind> {
    if !json_is_number(v) {
        return None;
    }
    if json_is_f64(v) {
        return Some(NumberKind::Float);
    }
    match json_as_i64(v) {
        Some(n) => {
            if n < 0 {
                Some(NumberKind::Negative)
            } else {
                Some(NumberKind::Whole(n as u64))
            }
        },
        None => match json_as_u64(v) {
            Some(u) => Some(NumberKind::Whole(u)),
            None => None,
        },
    }
}

/// Decide the reply to one request line.  Returns the line to send and
/// whether the request was well-formed: a malformed request (not JSON, no
/// `method` or `number` field, a method other than `isPrime`, or a
/// non-numeric number) draws the failure line and `false`, on which the
/// caller closes the connection; a well-formed one draws a primality
/// verdict line and `true`.  Text the JSON parser rejects is always
/// malformed; what the field checks decide rests on the opaque value the
/// parser returned, so only the shape of the reply is stated for it.
pub fn handle_payload(line: &str) -> (r: (String, bool))
    ensures
        r.1 ==> r.0@ == prime_text(true) || r.0@ == prime_text(false),
        !r.1 ==> r.0@ == malformed_text(),
        !json_accepts(line@) ==> !r.1,
{
    let parsed = match json_parse(line) {
        Some(v) => v,
        None => {
            return (malformed_line(), false);
        },
    };
    let method = match json_get(&parsed, "method") {
        Some(m) => m,
        None => {
            return (malformed_line(), false);
        },
    };
    let number = match json_get(&parsed, "number") {
        Some(n) => n,
        None => {
            return (malformed_line(), false);
        },
    };
    let method_ok = match json_as_str(method) {
        Some(m) => m.to_owned() == String::from_str("isPrime"),
        None => false,
    };
    if !method_ok {
        return (malformed_line(), false);
    }
    match classify_number(number) {
        Some(kind) => {
            let reply = number_reply(kind);
            proof {
                if kind_verdict(kind) {
                    assert(reply@ == prime_text(true));
                } else {
                    assert(reply@ == prime_text(false));
                }
            }
            (reply, true)
        },
        None => (malformed_line(), false),
    }
}

} // verus!
