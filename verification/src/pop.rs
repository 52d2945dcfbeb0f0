//! Proof-of-payment callbacks.
use vstd::prelude::*;
use crate::error::{ErrorModel, URIError};
use crate::percent::{url_decode, url_decode_spec};
use crate::text::{ascii_lower, ascii_lower_eq, before_first, split_once};
use crate::types::{pop_value, PopModel, PopParam, Value};

verus! {

/// Schemes a callback may not use: they would reveal the payer to a server,
/// or run code.
pub open spec fn is_forbidden_scheme(s: Seq<char>) -> bool {
    ||| s == "https"@
    ||| s == "http"@
    ||| s == "file"@
    ||| s == "javascript"@
    ||| s == "mailto"@
}

/// The outcome of validating a callback: `None` where its value does not
/// percent-decode (the check cannot go on), else the decoded callback or the
/// forbidden scheme it starts with. Schemes are compared in ASCII lower
/// case, as URI schemes are case-insensitive.
pub open spec fn pop_scheme_check_spec(pop: PopModel) -> Option<Result<Seq<char>, ErrorModel>> {
    match url_decode_spec(pop_value(pop)) {
        None => None,
        Some(decoded) => {
            let scheme = before_first(decoded, ':');
            if is_forbidden_scheme(ascii_lower(scheme)) {
                Some(Err(ErrorModel::ForbiddenPopScheme(scheme)))
            } else {
                Some(Ok(decoded))
            }
        },
    }
}

/// The callback that `build_callback` returns, or `None` where a value on the
/// way does not percent-decode.
pub open spec fn build_callback_spec(pop: PopModel, method: Seq<char>, hex: Seq<char>) -> Option<
    Result<Seq<char>, ErrorModel>,
> {
    match pop_scheme_check_spec(pop) {
        None => None,
        Some(Err(e)) => Some(Err(e)),
        Some(Ok(decoded)) => Some(Ok(decoded + method + "=$"@ + hex)),
    }
}

/// Is the scheme, in ASCII lower case, a forbidden one?
fn is_forbidden(scheme: &str) -> (r: bool)
    ensures
        r == is_forbidden_scheme(ascii_lower(scheme@)),
{
    ascii_lower_eq(scheme, "https") || ascii_lower_eq(scheme, "http") || ascii_lower_eq(
        scheme,
        "file",
    ) || ascii_lower_eq(scheme, "javascript") || ascii_lower_eq(scheme, "mailto")
}

/// Decodes the callback and checks its scheme as `validate_pop_scheme`
/// does; `None` where it does not decode.
pub fn check_pop_scheme(pop: &PopParam) -> (r: Option<Result<String, URIError>>)
    ensures
        match pop_scheme_check_spec(pop@) {
            None => r is None,
            Some(Ok(d)) => r matches Some(Ok(s)) && s@ == d,
            Some(Err(e)) => r matches Some(Err(x)) && x@ == e,
        },
{
    let pop_value = pop.get_value();
    let decoded = match url_decode(pop_value.as_str()) {
        Some(d) => d,
        None => return None,
    };
    let scheme = match split_once(decoded.as_str(), ':') {
        Some((before, _)) => before,
        None => decoded.clone(),
    };
    if is_forbidden(scheme.as_str()) {
        Some(Err(URIError::ForbiddenPopScheme(scheme)))
    } else {
        Some(Ok(decoded))
    }
}

/// Percent-decodes the callback and refuses it where its scheme (the text
/// before the first `:`) is `https`, `http`, `file`, `javascript` or
/// `mailto`. The callback must percent-decode.
pub fn validate_pop_scheme(pop: &PopParam) -> (r: Result<String, URIError>)
    requires
        pop_scheme_check_spec(pop@) is Some,
    ensures
        match pop_scheme_check_spec(pop@) {
            Some(Ok(d)) => r matches Ok(s) && s@ == d,
            Some(Err(e)) => r matches Err(x) && x@ == e,
            None => false,
        },
{
    match check_pop_scheme(pop) {
        Some(r) => r,
        None => {
            proof {
                assert(false);
            }
            Err(URIError::InvalidPopParameter(pop.get_value()))
        },
    }
}

/// The callback to open once paid, or `None` where a value on the way does
/// not percent-decode.
fn callback(pop: &PopParam, method: &str, hex: &str) -> (r: Option<Result<String, URIError>>)
    ensures
        match build_callback_spec(pop@, method@, hex@) {
            Some(Ok(s)) => r matches Some(Ok(x)) && x@ == s,
            Some(Err(e)) => r matches Some(Err(x)) && x@ == e,
            None => r is None,
        },
{
    let pop_pay = match check_pop_scheme(pop) {
        None => return None,
        Some(Err(e)) => return Some(Err(e)),
        Some(Ok(d)) => d,
    };
    proof {
        reveal_strlit("=$");
    }
    let mut call_back = pop_pay;
    call_back.append(method);
    call_back.append("=$");
    call_back.append(hex);
    Some(Ok(call_back))
}

/// The URI to open once paid: the callback, percent-decoded once, the
/// payment method, `=$` and the proof. Refused as `validate_pop_scheme`
/// refuses. The callback must percent-decode: `try_build_callback` checks
/// this.
pub fn build_callback(pop: &PopParam, method: &str, hex: &str) -> (r: Result<String, URIError>)
    requires
        build_callback_spec(pop@, method@, hex@) is Some,
    ensures
        match build_callback_spec(pop@, method@, hex@) {
            Some(Ok(s)) => r matches Ok(x) && x@ == s,
            Some(Err(e)) => r matches Err(x) && x@ == e,
            None => false,
        },
{
    match callback(pop, method, hex) {
        Some(r) => r,
        None => {
            proof {
                assert(false);
            }
            Err(URIError::InvalidPopParameter(pop.get_value()))
        },
    }
}

/// `build_callback` where its values percent-decode; `None` where one does
/// not.
pub fn try_build_callback(pop: &PopParam, method: &str, hex: &str) -> (r: Option<
    Result<String, URIError>,
>)
    ensures
        match build_callback_spec(pop@, method@, hex@) {
            Some(Ok(s)) => r matches Some(Ok(x)) && x@ == s,
            Some(Err(e)) => r matches Some(Err(x)) && x@ == e,
            None => r is None,
        },
{
    match callback(pop, method, hex) {
        None => None,
        Some(_) => Some(build_callback(pop, method, hex)),
    }
}

} // verus!
