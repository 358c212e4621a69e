use comstar::error::ErrorKind;
use comstar::transport::{
    check_url, http_outcome, resolve_url, transport_for, transport_for_parsed,
    transport_for_scheme, HttpOutcome, Transport,
};

#[test]
fn absolute_urls_are_told_from_other_text() {
    assert!(check_url("http://host/a.txt"));
    assert!(check_url("file:///srv/tree/"));
    assert!(check_url("mailto:someone@example.net"));
    assert!(!check_url("a.txt"));
    assert!(!check_url("/srv/tree"));
    assert!(!check_url(""));
    assert!(!check_url("http://[broken"));
}

#[test]
fn references_are_resolved_against_the_base() {
    assert_eq!(
        resolve_url("https://example.net/a/b.html", "c.png"),
        Some("https://example.net/a/c.png".to_string())
    );
    assert_eq!(
        resolve_url("https://example.net/a/b/", "sub/c.png"),
        Some("https://example.net/a/b/sub/c.png".to_string())
    );
    assert_eq!(resolve_url("not a url", "c.png"), None);
    assert_eq!(resolve_url("mailto:someone@example.net", "c.png"), None);
    assert_eq!(resolve_url("http://host/", "ws:[oops"), None);
}

#[test]
fn http_and_https_are_fetched() {
    assert_eq!(transport_for("http://host/a.txt"), Ok(Transport::Http));
    assert_eq!(transport_for("https://host/comstar.json"), Ok(Transport::Http));
}

#[test]
fn file_urls_are_read() {
    assert_eq!(transport_for("file:///srv/tree/comstar.json"), Ok(Transport::File));
}

#[test]
fn scheme_is_read_off_the_parsed_url() {
    assert_eq!(transport_for("HTTP://host/x"), Ok(Transport::Http));
    assert_eq!(transport_for("  file:///x"), Ok(Transport::File));
}

#[test]
fn other_schemes_are_unsupported() {
    assert_eq!(transport_for("ftp://host/a.txt"), Err(ErrorKind::UnsupportedScheme));
    assert_eq!(transport_for("gs://bucket/a.txt"), Err(ErrorKind::UnsupportedScheme));
}

#[test]
fn text_that_is_no_url_is_a_parse_error() {
    assert_eq!(transport_for("a.txt"), Err(ErrorKind::Parse));
    assert_eq!(transport_for(""), Err(ErrorKind::Parse));
}

#[test]
fn transport_by_scheme() {
    assert_eq!(transport_for_scheme("http"), Some(Transport::Http));
    assert_eq!(transport_for_scheme("https"), Some(Transport::Http));
    assert_eq!(transport_for_scheme("file"), Some(Transport::File));
    assert_eq!(transport_for_scheme("HTTP"), None);
    assert_eq!(transport_for_scheme(""), None);
}

#[test]
fn transport_for_a_parsed_scheme() {
    assert_eq!(transport_for_parsed(Some("file")), Ok(Transport::File));
    assert_eq!(transport_for_parsed(Some("ssh")), Err(ErrorKind::UnsupportedScheme));
    assert_eq!(transport_for_parsed(None), Err(ErrorKind::Parse));
}

#[test]
fn status_codes() {
    assert_eq!(http_outcome(200), HttpOutcome::Success);
    assert_eq!(http_outcome(204), HttpOutcome::Success);
    assert_eq!(http_outcome(299), HttpOutcome::Success);
    assert_eq!(http_outcome(404), HttpOutcome::NotFound);
    assert_eq!(http_outcome(199), HttpOutcome::Failure);
    assert_eq!(http_outcome(300), HttpOutcome::Failure);
    assert_eq!(http_outcome(403), HttpOutcome::Failure);
    assert_eq!(http_outcome(500), HttpOutcome::Failure);
}
