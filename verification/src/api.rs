//! Responses of HTTP requests made outside the browser.

use std::collections::HashMap;

use vstd::prelude::*;
use vstd::utf8::{encode_utf8, valid_utf8};

use crate::text::{chars_of, has_prefix, push_str, starts_with_str, trim_end_matches_char, trim_end_matching, trim_start_matches_char, trim_start_matching};

verus! {

#[verifier::external_type_specification]
#[verifier::external_body]
pub struct ExFromUtf8Error(std::string::FromUtf8Error);

/// `String::from_utf8`.
///
/// Trusted: it succeeds exactly on valid UTF-8, and then the string's
/// encoding is the bytes; otherwise it passes the error on.
#[verifier::external_body]
fn string_from_utf8(bytes: Vec<u8>) -> (r: Result<String, std::string::FromUtf8Error>)
    ensures
        r is Ok <==> valid_utf8(bytes@),
        r matches Ok(s) ==> encode_utf8(s@) == bytes@,
{
    String::from_utf8(bytes)
}

/// The response of an HTTP request.
#[derive(Debug)]
pub struct APIResponse {
    /// HTTP status code.
    pub status: u16,
    /// Response headers, by lowercase name.
    pub headers: HashMap<String, String>,
    /// The raw body.
    pub body: Vec<u8>,
}

impl APIResponse {
    /// A response with the given status, headers and body.
    pub fn new(status: u16, headers: HashMap<String, String>, body: Vec<u8>) -> (r: Self)
        ensures
            r.status == status,
            r.headers == headers,
            r.body@ == body@,
    {
        APIResponse { status, headers, body }
    }

    /// The raw body bytes.
    pub fn body(&self) -> (b: &[u8])
        ensures
            b@ == self.body@,
    {
        self.body.as_slice()
    }

    /// The body as text; an error when it is not valid UTF-8.
    pub fn text(&self) -> (r: Result<String, std::string::FromUtf8Error>)
        ensures
            r is Ok <==> valid_utf8(self.body@),
            r matches Ok(s) ==> encode_utf8(s@) == self.body@,
    {
        string_from_utf8(self.body.clone())
    }

    /// Whether the status is a success (200–299).
    pub fn ok(&self) -> (b: bool)
        ensures
            b == (200 <= self.status <= 299),
    {
        200 <= self.status && self.status <= 299
    }
}

/// The URL a request goes to: a URL that starts with `http://` or
/// `https://` as it is; any other, when there is a base URL, joined to it
/// with exactly one `/` (the base's trailing and the path's leading slashes
/// dropped); without a base URL, as it is.
pub open spec fn spec_resolve_url(base_url: Option<Seq<char>>, url: Seq<char>) -> Seq<char> {
    match base_url {
        Some(base) => if !has_prefix(url, "http://"@) && !has_prefix(url, "https://"@) {
            trim_end_matching(base, '/') + "/"@ + trim_start_matching(url, '/')
        } else {
            url
        },
        None => url,
    }
}

/// The URL a request for `url` goes to, given the context's base URL.
pub fn resolve_url(base_url: Option<&str>, url: &str) -> (r: String)
    ensures
        r@ == spec_resolve_url(
            match base_url {
                Some(b) => Some(b@),
                None => None,
            },
            url@,
        ),
{
    match base_url {
        Some(base) => {
            let v = chars_of(url);
            if !starts_with_str(v.as_slice(), "http://") && !starts_with_str(v.as_slice(), "https://") {
                let mut r = trim_end_matches_char(base, '/');
                push_str(&mut r, "/");
                let rest = trim_start_matches_char(url, '/');
                push_str(&mut r, rest.as_str());
                r
            } else {
                url.to_owned()
            }
        },
        None => url.to_owned(),
    }
}

/// The origin a browser cookie is filed under when it seeds a request
/// context: `https://` for a secure cookie, else `http://`, then the
/// cookie's domain without its leading dots.
pub open spec fn spec_cookie_origin(secure: bool, domain: Seq<char>) -> Seq<char> {
    (if secure {
        "https"@
    } else {
        "http"@
    }) + "://"@ + trim_start_matching(domain, '.')
}

/// The origin a browser cookie is filed under when it seeds a request
/// context.
pub fn cookie_origin(secure: bool, domain: &str) -> (r: String)
    ensures
        r@ == spec_cookie_origin(secure, domain@),
{
    let mut r = if secure {
        "https".to_owned()
    } else {
        "http".to_owned()
    };
    push_str(&mut r, "://");
    let d = trim_start_matches_char(domain, '.');
    push_str(&mut r, d.as_str());
    r
}

} // verus!
