//! Which transport serves a URL, and how URLs are resolved against a base.

use vstd::prelude::*;
use crate::error::ErrorKind;
use crate::text::str_eq;

verus! {

/// What `Url::parse(base)` followed by `Url::join(reference)` serialises to;
/// none where the base does not parse or the reference cannot be resolved.
pub uninterp spec fn url_join_text(base: Seq<char>, reference: Seq<char>) -> Option<Seq<char>>;

/// The scheme of `url` as `Url::parse` and `Url::scheme` give it; none where
/// `url` does not parse.
pub uninterp spec fn url_scheme_text(url: Seq<char>) -> Option<Seq<char>>;

/// `Url::parse` and `Url::join` of the `url` crate: `base` is parsed as an
/// absolute URL and `reference` is resolved against it; the result is the
/// resolved URL as text, or nothing where either step fails.
#[verifier::external_body]
fn url_join(base: &str, reference: &str) -> (joined: Option<String>)
    ensures
        match joined {
            Some(u) => url_join_text(base@, reference@) == Some(u@),
            None => url_join_text(base@, reference@) is None,
        },
{
    match url::Url::parse(base) {
        Ok(b) => match b.join(reference) {
            Ok(u) => Some(String::from(u)),
            Err(_) => None,
        },
        Err(_) => None,
    }
}

/// `Url::parse` and `Url::scheme` of the `url` crate: the scheme of `url`,
/// or nothing where `url` does not parse as an absolute URL.
#[verifier::external_body]
fn url_scheme(url: &str) -> (scheme: Option<String>)
    ensures
        match scheme {
            Some(s) => url_scheme_text(url@) == Some(s@),
            None => url_scheme_text(url@) is None,
        },
{
    match url::Url::parse(url) {
        Ok(u) => Some(u.scheme().to_string()),
        Err(_) => None,
    }
}

/// `text` is an absolute URL: it parses as one.
pub open spec fn is_absolute_url(text: Seq<char>) -> bool {
    url_scheme_text(text) is Some
}

/// Whether `text` is an absolute URL.
pub fn check_url(text: &str) -> (ok: bool)
    ensures
        ok == is_absolute_url(text@),
{
    url_scheme(text).is_some()
}

/// `reference` resolved against `base`, where the two resolve to a text
/// that is an absolute URL itself.
pub open spec fn resolved_url(base: Seq<char>, reference: Seq<char>) -> Option<Seq<char>> {
    match url_join_text(base, reference) {
        Some(u) => if is_absolute_url(u) {
            Some(u)
        } else {
            None
        },
        None => None,
    }
}

/// Resolves `reference` against `base`. What comes back is tested to be an
/// absolute URL, so that a manifest which holds it can be read again.
pub fn resolve_url(base: &str, reference: &str) -> (resolved: Option<String>)
    ensures
        match resolved {
            Some(u) => resolved_url(base@, reference@) == Some(u@),
            None => resolved_url(base@, reference@) is None,
        },
{
    match url_join(base, reference) {
        Some(u) => {
            if check_url(u.as_str()) {
                Some(u)
            } else {
                None
            }
        },
        None => None,
    }
}

/// A way to read a manifest or a file.
#[derive(Clone, Copy, Debug, PartialEq, Eq, Structural)]
pub enum Transport {
    /// A GET over `http` or `https`.
    Http,
    /// A read from the local file system.
    File,
}

/// The transport that serves a scheme: `http` and `https` are fetched,
/// `file` is read, and no other scheme is served.
pub open spec fn transport_of_scheme(scheme: Seq<char>) -> Option<Transport> {
    if scheme == "http"@ || scheme == "https"@ {
        Some(Transport::Http)
    } else if scheme == "file"@ {
        Some(Transport::File)
    } else {
        None
    }
}

/// The transport that serves a URL with the given scheme, if it has one: a
/// URL that does not parse is a parse error, a scheme that none serves is
/// unsupported.
pub open spec fn transport_of(scheme: Option<Seq<char>>) -> Result<Transport, ErrorKind> {
    match scheme {
        None => Err(ErrorKind::Parse),
        Some(s) => match transport_of_scheme(s) {
            Some(t) => Ok(t),
            None => Err(ErrorKind::UnsupportedScheme),
        },
    }
}

/// The transport that serves `scheme`.
pub fn transport_for_scheme(scheme: &str) -> (t: Option<Transport>)
    ensures
        t == transport_of_scheme(scheme@),
{
    if str_eq(scheme, "http") || str_eq(scheme, "https") {
        Some(Transport::Http)
    } else if str_eq(scheme, "file") {
        Some(Transport::File)
    } else {
        None
    }
}

/// The transport for a URL whose scheme was found to be `scheme`.
pub fn transport_for_parsed(scheme: Option<&str>) -> (t: Result<Transport, ErrorKind>)
    ensures
        t == transport_of(
            match scheme {
                Some(s) => Some(s@),
                None => None,
            },
        ),
{
    match scheme {
        None => Err(ErrorKind::Parse),
        Some(s) => match transport_for_scheme(s) {
            Some(t) => Ok(t),
            None => Err(ErrorKind::UnsupportedScheme),
        },
    }
}

/// The transport that serves `url`.
pub fn transport_for(url: &str) -> (t: Result<Transport, ErrorKind>)
    ensures
        t == transport_of(url_scheme_text(url@)),
{
    match url_scheme(url) {
        Some(s) => transport_for_parsed(Some(s.as_str())),
        None => transport_for_parsed(None),
    }
}

/// What the answer to a GET means for the caller.
#[derive(Clone, Copy, Debug, PartialEq, Eq, Structural)]
pub enum HttpOutcome {
    /// A 2xx answer: the body is what was asked for.
    Success,
    /// A 404 answer: there is nothing at that URL.
    NotFound,
    /// Any other answer.
    Failure,
}

/// How a status code is read: 2xx succeeds, 404 is a missing resource, all
/// else fails.
pub open spec fn http_outcome_of(status: u16) -> HttpOutcome {
    if 200 <= status < 300 {
        HttpOutcome::Success
    } else if status == 404 {
        HttpOutcome::NotFound
    } else {
        HttpOutcome::Failure
    }
}

/// What a status code means.
pub fn http_outcome(status: u16) -> (o: HttpOutcome)
    ensures
        o == http_outcome_of(status),
{
    if 200 <= status && status < 300 {
        HttpOutcome::Success
    } else if status == 404 {
        HttpOutcome::NotFound
    } else {
        HttpOutcome::Failure
    }
}

} // verus!
