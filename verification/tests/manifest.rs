use comstar::digest::{get_file_hash, FileDigest};
use comstar::error::ErrorKind;
use comstar::generate::{generate_manifest, GenerateError, HashedFile};
use comstar::manifest::{find_entry, get_manifest, manifest_path, require_manifest, Manifest, ManifestEntry, ManifestError, ManifestReply, RawEntry, RawManifest, Timestamp};
use comstar::walker::{get_walker, walker_admits};
use comstar::paths::RelPath;

const SHA512_X: &str = "a4abd4448c49562d828115d13a1fccea927f52b4d5459297f8b43e42da89238bc13626e43dcb38ddb082488927ec904fb42057443983e88585179d50551afe62";
const SHA512_YY: &str = "28586f41c2a84433c3bf6f1558c20ae329b297d2fcd6900b602d545cf3a780095c2575076d5294abbc759a1303da658ea918c0ba3758a07a71073d3762898e34";

fn stamp() -> Timestamp {
    Timestamp { secs: 1_700_000_000, nanos: 500 }
}

fn raw_entry(path: &str, sha512: &str) -> RawEntry {
    RawEntry {
        path: path.to_string(),
        sha512: sha512.to_string(),
        source: format!("http://host/{}", path),
    }
}

fn raw_manifest(entries: Vec<RawEntry>) -> RawManifest {
    RawManifest {
        source: "http://host/comstar.json".to_string(),
        generated_at: stamp(),
        entries,
    }
}

fn entry(path: &str, contents: &[u8]) -> ManifestEntry {
    ManifestEntry {
        path: RelPath::new(path).unwrap(),
        sha512: get_file_hash(contents),
        source: format!("http://host/{}", path),
    }
}

fn hashed(path: &str, contents: &[u8]) -> HashedFile {
    HashedFile { path: path.to_string(), sha512: get_file_hash(contents) }
}

#[test]
fn manifest_path_is_comstar_json() {
    assert_eq!(manifest_path().as_str(), "comstar.json");
}

#[test]
fn walker_leaves_out_only_the_manifest_file() {
    assert!(!walker_admits("comstar.json"));
    assert!(walker_admits("sub/comstar.json"));
    assert!(walker_admits("a.txt"));
}

#[test]
fn walker_config_names_the_ignore_file() {
    let c = get_walker();
    assert_eq!(c.ignore_file, ".comstarignore");
    assert_eq!(c.excluded.as_str(), "comstar.json");
}

#[test]
fn parse_accepts_a_sound_manifest() {
    let raw = raw_manifest(vec![raw_entry("a.txt", SHA512_X), raw_entry("sub/b.bin", SHA512_YY)]);
    let m = Manifest::parse(&raw).unwrap();
    assert_eq!(m.source(), "http://host/comstar.json");
    assert_eq!(m.generated_at(), stamp());
    assert_eq!(m.len(), 2);
    assert_eq!(m.entries()[0].path.as_str(), "a.txt");
    assert_eq!(m.entries()[0].sha512.as_str(), SHA512_X);
    assert_eq!(m.entries()[0].source, "http://host/a.txt");
    assert_eq!(m.entries()[1].path.as_str(), "sub/b.bin");
    assert_eq!(m.entries()[1].sha512.as_str(), SHA512_YY);
}

#[test]
fn parse_accepts_an_empty_manifest() {
    let m = Manifest::parse(&raw_manifest(vec![])).unwrap();
    assert_eq!(m.len(), 0);
}

#[test]
fn parse_rejects_an_absolute_path() {
    let raw = raw_manifest(vec![raw_entry("a.txt", SHA512_X), raw_entry("/etc/passwd", SHA512_X)]);
    assert_eq!(Manifest::parse(&raw), Err(ManifestError::InvalidPath { index: 1 }));
}

#[test]
fn parse_rejects_a_parent_component() {
    let raw = raw_manifest(vec![raw_entry("../outside", SHA512_X)]);
    assert_eq!(Manifest::parse(&raw), Err(ManifestError::InvalidPath { index: 0 }));
}

#[test]
fn parse_rejects_the_manifest_file_as_entry() {
    let raw = raw_manifest(vec![raw_entry("comstar.json", SHA512_X)]);
    assert_eq!(Manifest::parse(&raw), Err(ManifestError::ReservedPath { index: 0 }));
}

#[test]
fn parse_rejects_a_digest_in_another_format() {
    let upper = SHA512_X.to_uppercase();
    let raw = raw_manifest(vec![raw_entry("a.txt", &upper)]);
    assert_eq!(Manifest::parse(&raw), Err(ManifestError::InvalidDigest { index: 0 }));
    let short = raw_manifest(vec![raw_entry("a.txt", "abc123")]);
    assert_eq!(Manifest::parse(&short), Err(ManifestError::InvalidDigest { index: 0 }));
}

#[test]
fn parse_rejects_a_source_that_is_no_absolute_url() {
    let mut bad = raw_entry("b.txt", SHA512_X);
    bad.source = "b.txt".to_string();
    let raw = raw_manifest(vec![raw_entry("a.txt", SHA512_X), bad]);
    assert_eq!(Manifest::parse(&raw), Err(ManifestError::InvalidSource { index: 1 }));
}

#[test]
fn parse_rejects_a_manifest_source_that_is_no_absolute_url() {
    let mut raw = raw_manifest(vec![raw_entry("a.txt", SHA512_X)]);
    raw.source = "/srv/tree/comstar.json".to_string();
    assert_eq!(Manifest::parse(&raw), Err(ManifestError::InvalidManifestSource));
    assert_eq!(
        get_manifest(&ManifestReply::Document(raw)),
        Err(ErrorKind::Parse)
    );
}

#[test]
fn source_is_checked_before_duplicates_and_after_the_digest() {
    let mut no_url = raw_entry("a.txt", SHA512_X);
    no_url.source = "nowhere".to_string();
    let raw = raw_manifest(vec![raw_entry("a.txt", SHA512_X), no_url]);
    assert_eq!(Manifest::parse(&raw), Err(ManifestError::InvalidSource { index: 1 }));
    let mut both = raw_entry("b.txt", "nothex");
    both.source = "nowhere".to_string();
    let raw = raw_manifest(vec![both]);
    assert_eq!(Manifest::parse(&raw), Err(ManifestError::InvalidDigest { index: 0 }));
}

#[test]
fn new_rejects_sources_that_are_no_absolute_urls() {
    let mut e = entry("a.txt", b"x");
    e.source = "a.txt".to_string();
    assert_eq!(
        Manifest::new("http://host/comstar.json".to_string(), stamp(), vec![e]),
        Err(ManifestError::InvalidSource { index: 0 })
    );
    assert_eq!(
        Manifest::new("comstar.json".to_string(), stamp(), vec![entry("a.txt", b"x")]),
        Err(ManifestError::InvalidManifestSource)
    );
}

#[test]
fn sources_elsewhere_than_below_the_manifest_are_taken_as_they_stand() {
    let mut mirrored = raw_entry("a.txt", SHA512_X);
    mirrored.source = "https://cdn.example/pool/a.txt".to_string();
    let m = Manifest::parse(&raw_manifest(vec![mirrored])).unwrap();
    assert_eq!(m.entries()[0].source, "https://cdn.example/pool/a.txt");
}

#[test]
fn parse_rejects_a_duplicate_path() {
    let raw = raw_manifest(vec![
        raw_entry("a.txt", SHA512_X),
        raw_entry("b.txt", SHA512_X),
        raw_entry("a.txt", SHA512_YY),
    ]);
    assert_eq!(Manifest::parse(&raw), Err(ManifestError::DuplicatePath { index: 2 }));
}

#[test]
fn parse_reports_the_first_entry_at_fault() {
    let raw = raw_manifest(vec![
        raw_entry("a.txt", "nothex"),
        raw_entry("/abs", SHA512_X),
    ]);
    assert_eq!(Manifest::parse(&raw), Err(ManifestError::InvalidDigest { index: 0 }));
}

#[test]
fn manifest_errors_are_parse_errors() {
    assert_eq!(ManifestError::InvalidPath { index: 0 }.kind(), ErrorKind::Parse);
    assert_eq!(ManifestError::DuplicatePath { index: 3 }.kind(), ErrorKind::Parse);
    assert_eq!(GenerateError::InvalidBase.kind(), ErrorKind::Parse);
}

#[test]
fn new_accepts_distinct_entries() {
    let m = Manifest::new(
        "http://host/comstar.json".to_string(),
        stamp(),
        vec![entry("a.txt", b"x"), entry("sub/b.bin", b"yy")],
    )
    .unwrap();
    assert_eq!(m.len(), 2);
    assert_eq!(m.clone(), m);
}

#[test]
fn new_rejects_duplicates_and_the_manifest_file() {
    let dup = Manifest::new(
        "http://host/comstar.json".to_string(),
        stamp(),
        vec![entry("a.txt", b"x"), entry("a.txt", b"y")],
    );
    assert_eq!(dup, Err(ManifestError::DuplicatePath { index: 1 }));
    let reserved = Manifest::new(
        "http://host/comstar.json".to_string(),
        stamp(),
        vec![entry("a.txt", b"x"), entry("comstar.json", b"{}")],
    );
    assert_eq!(reserved, Err(ManifestError::ReservedPath { index: 1 }));
}

#[test]
fn find_gives_the_entry_of_a_path() {
    let m = Manifest::new(
        "http://host/comstar.json".to_string(),
        stamp(),
        vec![entry("a.txt", b"x"), entry("sub/b.bin", b"yy")],
    )
    .unwrap();
    assert_eq!(m.find("sub/b.bin").unwrap().sha512.as_str(), SHA512_YY);
    assert!(m.find("b.bin").is_none());
    assert!(find_entry(m.entries(), "a.txt").is_some());
}

#[test]
fn generate_resolves_sources_against_the_base() {
    let files = vec![hashed("a.txt", b"x"), hashed("sub/b.bin", b"yy")];
    let m = generate_manifest("http://host/dir/", stamp(), &files).unwrap();
    assert_eq!(m.source(), "http://host/dir/comstar.json");
    assert_eq!(m.generated_at(), stamp());
    assert_eq!(m.len(), 2);
    assert_eq!(m.entries()[0].path.as_str(), "a.txt");
    assert_eq!(m.entries()[0].sha512.as_str(), SHA512_X);
    assert_eq!(m.entries()[0].source, "http://host/dir/a.txt");
    assert_eq!(m.entries()[1].path.as_str(), "sub/b.bin");
    assert_eq!(m.entries()[1].sha512.as_str(), SHA512_YY);
    assert_eq!(m.entries()[1].source, "http://host/dir/sub/b.bin");
}

#[test]
fn generate_replaces_the_last_segment_of_a_base_without_slash() {
    let files = vec![hashed("a.txt", b"x")];
    let m = generate_manifest("https://example.net/a/b.html", stamp(), &files).unwrap();
    assert_eq!(m.source(), "https://example.net/a/comstar.json");
    assert_eq!(m.entries()[0].source, "https://example.net/a/a.txt");
}

#[test]
fn generate_passes_over_the_manifest_file() {
    let files = vec![hashed("comstar.json", b"{}"), hashed("a.txt", b"x")];
    let m = generate_manifest("file:///srv/tree/", stamp(), &files).unwrap();
    assert_eq!(m.len(), 1);
    assert_eq!(m.entries()[0].path.as_str(), "a.txt");
    assert_eq!(m.entries()[0].source, "file:///srv/tree/a.txt");
    assert!(m.entries().iter().all(|e| e.path.as_str() != "comstar.json"));
}

#[test]
fn generate_rejects_a_base_that_is_no_url() {
    let files = vec![hashed("a.txt", b"x")];
    assert_eq!(generate_manifest("not a url", stamp(), &files), Err(GenerateError::InvalidBase));
    assert_eq!(
        generate_manifest("mailto:someone@example.net", stamp(), &files),
        Err(GenerateError::InvalidBase)
    );
}

#[test]
fn generate_rejects_an_invalid_path() {
    let files = vec![hashed("a.txt", b"x"), hashed("../b", b"y")];
    assert_eq!(
        generate_manifest("http://host/", stamp(), &files),
        Err(GenerateError::InvalidPath { index: 1 })
    );
}

#[test]
fn generate_rejects_a_repeated_path() {
    let files = vec![hashed("a.txt", b"x"), hashed("a.txt", b"x")];
    assert_eq!(
        generate_manifest("http://host/", stamp(), &files),
        Err(GenerateError::DuplicatePath { index: 1 })
    );
}

#[test]
fn generate_rejects_a_path_that_does_not_resolve() {
    let files = vec![hashed("ws:[oops", b"x")];
    assert_eq!(
        generate_manifest("http://host/", stamp(), &files),
        Err(GenerateError::UnresolvedPath { index: 0 })
    );
}

#[test]
fn absent_manifest_is_no_error() {
    assert_eq!(get_manifest(&ManifestReply::Absent), Ok(None));
}

#[test]
fn malformed_manifest_is_a_parse_error() {
    assert_eq!(get_manifest(&ManifestReply::Malformed), Err(ErrorKind::Parse));
}

#[test]
fn document_with_bad_entry_is_a_parse_error() {
    let raw = raw_manifest(vec![raw_entry("a/../b", SHA512_X)]);
    assert_eq!(get_manifest(&ManifestReply::Document(raw)), Err(ErrorKind::Parse));
}

#[test]
fn document_becomes_a_manifest() {
    let raw = raw_manifest(vec![raw_entry("a.txt", SHA512_X)]);
    let m = get_manifest(&ManifestReply::Document(raw)).unwrap().unwrap();
    assert_eq!(m.len(), 1);
    assert_eq!(m.entries()[0].sha512, FileDigest::new(SHA512_X).unwrap());
}

#[test]
fn missing_manifest_is_fatal_where_required() {
    assert_eq!(require_manifest(None), Err(ErrorKind::RemoteManifestMissing));
    let m = Manifest::parse(&raw_manifest(vec![])).unwrap();
    assert_eq!(require_manifest(Some(m.clone())), Ok(m));
}
