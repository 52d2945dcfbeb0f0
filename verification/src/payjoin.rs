//! PayJoin (BIP-78) endpoints.
use vstd::prelude::*;
use url::Url;
use crate::error::{ErrorModel, URIError};
use crate::text::str_eq;
use crate::types::opt_string_view;

verus! {

/// What `url::Url::parse` makes of a text, read through `as_str()` (the
/// URL as the crate serialises it), `scheme()` and `host_str()`; `None` where
/// it refuses the text.
pub uninterp spec fn url_parts(input: Seq<char>) -> Option<(Seq<char>, Seq<char>, Option<Seq<char>>)>;

/// `url::Url::parse`, with the parsed URL's `as_str()`, `scheme()` and
/// `host_str()`. The WHATWG URL parsing rules are left to the name above.
#[verifier::external_body]
fn parse_url(input: &str) -> (r: Option<(String, String, Option<String>)>)
    ensures
        match url_parts(input@) {
            Some(parts) => r matches Some(x) && x.0@ == parts.0 && x.1@ == parts.1 && opt_string_view(
                x.2,
            ) == parts.2,
            None => r is None,
        },
{
    let url = match Url::parse(input) {
        Ok(u) => u,
        Err(_) => return None,
    };
    let host = match url.host_str() {
        Some(h) => Some(h.to_owned()),
        None => None,
    };
    Some((url.as_str().to_owned(), url.scheme().to_owned(), host))
}

/// An accepted PayJoin endpoint: the URL as `url` serialises it, its scheme
/// and its host.
pub struct PayjoinUrl {
    pub text: String,
    pub scheme: String,
    pub host: Option<String>,
}

/// An endpoint is accepted over `https`, or over `http` to `localhost`.
pub open spec fn pj_endpoint_allowed(scheme: Seq<char>, host: Option<Seq<char>>) -> bool {
    scheme == "https"@ || (scheme == "http"@ && host == Some("localhost"@))
}

/// Parses a PayJoin endpoint and accepts it where it uses `https`, or `http`
/// to `localhost`.
pub fn validate_pj_url(input: String) -> (r: Result<PayjoinUrl, URIError>)
    ensures
        match url_parts(input@) {
            Some(parts) => if pj_endpoint_allowed(parts.1, parts.2) {
                r matches Ok(u) && u.text@ == parts.0 && u.scheme@ == parts.1 && opt_string_view(
                    u.host,
                ) == parts.2
            } else {
                r matches Err(e) && e@ == ErrorModel::PayjoinError("Invalid URL"@)
            },
            None => r matches Err(e) && e@ == ErrorModel::PayjoinError("Invalid URL"@),
        },
{
    let (text, scheme, host) = match parse_url(input.as_str()) {
        Some(p) => p,
        None => return Err(URIError::PayjoinError("Invalid URL".to_owned())),
    };
    if str_eq(scheme.as_str(), "https") {
    } else if str_eq(scheme.as_str(), "http") {
        let is_localhost = match &host {
            Some(h) => str_eq(h.as_str(), "localhost"),
            None => false,
        };
        if !is_localhost {
            return Err(URIError::PayjoinError("Invalid URL".to_owned()));
        }
    } else {
        return Err(URIError::PayjoinError("Invalid URL".to_owned()));
    }
    Ok(PayjoinUrl { text, scheme, host })
}

} // verus!
