use comstar::digest::get_file_hash;
use comstar::error::ErrorKind;
use comstar::generate::{generate_manifest, HashedFile};
use comstar::manifest::{Manifest, ManifestEntry, Timestamp};
use comstar::paths::RelPath;
use comstar::validate::{
    check_entry, diff_manifests, find_local, summarize, validation_passed, verify_manifest,
    DifferenceCounts, DifferenceType, ValidationDifference,
};

const SHA512_Y: &str = "121b4774a759924a2929c4a412fb6e31b9aaa746466840efcc4a76d69a94149e2364e3983d646feafaa1b511785e5c9e90aedc30da6a6bead5520ecc99c6626a";

fn at() -> Timestamp {
    Timestamp { secs: 0, nanos: 0 }
}

fn remote_entry(path: &str, contents: &[u8]) -> ManifestEntry {
    ManifestEntry {
        path: RelPath::new(path).unwrap(),
        sha512: get_file_hash(contents),
        source: format!("http://host/{}", path),
    }
}

fn manifest_of(entries: Vec<ManifestEntry>) -> Manifest {
    Manifest::new("http://host/comstar.json".to_string(), at(), entries).unwrap()
}

fn on_disk(path: &str, contents: &[u8]) -> HashedFile {
    HashedFile { path: path.to_string(), sha512: get_file_hash(contents) }
}

fn paths(list: &[&str]) -> Vec<String> {
    list.iter().map(|s| s.to_string()).collect()
}

fn rel(path: &str) -> RelPath {
    RelPath::new(path).unwrap()
}

#[test]
fn difference_constructors() {
    let e = remote_entry("a.txt", b"x");
    assert_eq!(
        ValidationDifference::missing(rel("a.txt"), e.clone()),
        ValidationDifference { ty: DifferenceType::FileMissing(e.clone()), path: rel("a.txt") }
    );
    assert_eq!(
        ValidationDifference::hash_mismatch(rel("a.txt"), e.clone(), get_file_hash(b"y")),
        ValidationDifference {
            ty: DifferenceType::HashMismatch { upstream: e.clone(), local: get_file_hash(b"y") },
            path: rel("a.txt"),
        }
    );
    assert_eq!(
        ValidationDifference::unknown_file(rel("extra.txt")),
        ValidationDifference { ty: DifferenceType::UnknownFile, path: rel("extra.txt") }
    );
}

#[test]
fn check_entry_three_ways() {
    let e = remote_entry("a.txt", b"x");
    assert_eq!(
        check_entry(&e, None),
        Some(ValidationDifference::missing(rel("a.txt"), e.clone()))
    );
    assert_eq!(
        check_entry(&e, Some(&get_file_hash(b"y"))),
        Some(ValidationDifference::hash_mismatch(rel("a.txt"), e.clone(), get_file_hash(b"y")))
    );
    assert_eq!(check_entry(&e, Some(&get_file_hash(b"x"))), None);
}

#[test]
fn find_local_takes_the_first_file_at_the_path() {
    let files = vec![on_disk("a", b"1"), on_disk("b", b"2"), on_disk("a", b"3")];
    assert_eq!(find_local(&files, "a"), Some(&get_file_hash(b"1")));
    assert_eq!(find_local(&files, "b"), Some(&get_file_hash(b"2")));
    assert_eq!(find_local(&files, "c"), None);
}

#[test]
fn validate_missing_file() {
    let m = manifest_of(vec![remote_entry("a.txt", b"x")]);
    let ds = verify_manifest(&m, &vec![], false, &vec![]).unwrap();
    assert_eq!(
        ds,
        vec![ValidationDifference::missing(rel("a.txt"), remote_entry("a.txt", b"x"))]
    );
    assert!(!validation_passed(&ds));
    assert_eq!(summarize(&ds), DifferenceCounts { missing: 1, desynced: 0, untracked: 0 });
}

#[test]
fn validate_hash_mismatch() {
    let m = manifest_of(vec![remote_entry("a.txt", b"x")]);
    let ds = verify_manifest(&m, &vec![on_disk("a.txt", b"y")], false, &vec![]).unwrap();
    assert_eq!(ds.len(), 1);
    assert_eq!(ds[0].path.as_str(), "a.txt");
    match &ds[0].ty {
        DifferenceType::HashMismatch { upstream, local } => {
            assert_eq!(upstream, &remote_entry("a.txt", b"x"));
            assert_eq!(local.as_str(), SHA512_Y);
        }
        other => panic!("not a mismatch: {:?}", other),
    }
    assert_eq!(summarize(&ds), DifferenceCounts { missing: 0, desynced: 1, untracked: 0 });
}

#[test]
fn validate_unknown_file_under_force() {
    let m = manifest_of(vec![remote_entry("a.txt", b"x")]);
    let found = vec![on_disk("a.txt", b"x")];
    let walked = paths(&["a.txt", "extra.txt"]);
    let forced = verify_manifest(&m, &found, true, &walked).unwrap();
    assert_eq!(forced, vec![ValidationDifference::unknown_file(rel("extra.txt"))]);
    assert_eq!(summarize(&forced), DifferenceCounts { missing: 0, desynced: 0, untracked: 1 });
}

#[test]
fn validate_reports_no_unknown_file_without_force() {
    let m = manifest_of(vec![remote_entry("a.txt", b"x")]);
    let found = vec![on_disk("a.txt", b"x")];
    let walked = paths(&["a.txt", "extra.txt", "more/extra.bin"]);
    let plain = verify_manifest(&m, &found, false, &walked).unwrap();
    assert!(plain.is_empty());
    assert!(validation_passed(&plain));
    let forced = verify_manifest(&m, &found, true, &walked).unwrap();
    let unknown: Vec<&str> = forced.iter().map(|d| d.path.as_str()).collect();
    assert_eq!(unknown, vec!["extra.txt", "more/extra.bin"]);
    assert!(forced.iter().all(|d| d.ty == DifferenceType::UnknownFile));
}

#[test]
fn validate_passes_over_the_manifest_file_in_the_tree() {
    let m = manifest_of(vec![remote_entry("a.txt", b"x")]);
    let found = vec![on_disk("a.txt", b"x")];
    let walked = paths(&["comstar.json", "a.txt"]);
    assert!(verify_manifest(&m, &found, true, &walked).unwrap().is_empty());
}

#[test]
fn validate_rejects_a_walked_path_that_is_not_canonical() {
    let m = manifest_of(vec![remote_entry("a.txt", b"x")]);
    let found = vec![on_disk("a.txt", b"x")];
    let walked = paths(&["a.txt", "/abs/extra.txt"]);
    assert_eq!(verify_manifest(&m, &found, true, &walked), Err(ErrorKind::Parse));
    assert!(verify_manifest(&m, &found, false, &walked).unwrap().is_empty());
}

#[test]
fn validate_keeps_the_order_of_the_entries() {
    let m = manifest_of(vec![
        remote_entry("a", b"1"),
        remote_entry("b", b"2"),
        remote_entry("c", b"3"),
        remote_entry("d", b"4"),
    ]);
    let found = vec![on_disk("d", b"0"), on_disk("b", b"2")];
    let ds = verify_manifest(&m, &found, true, &paths(&["z", "b", "d"])).unwrap();
    let got: Vec<(&str, u8)> = ds
        .iter()
        .map(|d| {
            (
                d.path.as_str(),
                match d.ty {
                    DifferenceType::FileMissing(_) => 0,
                    DifferenceType::HashMismatch { .. } => 1,
                    DifferenceType::UnknownFile => 2,
                },
            )
        })
        .collect();
    assert_eq!(got, vec![("a", 0), ("c", 0), ("d", 1), ("z", 2)]);
    assert_eq!(summarize(&ds), DifferenceCounts { missing: 2, desynced: 1, untracked: 1 });
}

#[test]
fn generate_then_validate_finds_nothing() {
    let files = vec![
        on_disk("a.txt", b"x"),
        on_disk("sub/b.bin", b"yy"),
        on_disk("sub/deep/c", b""),
    ];
    let m = generate_manifest("file:///srv/tree/", at(), &files).unwrap();
    let walked = paths(&["a.txt", "sub/b.bin", "sub/deep/c"]);
    assert!(verify_manifest(&m, &files, false, &walked).unwrap().is_empty());
    assert!(verify_manifest(&m, &files, true, &walked).unwrap().is_empty());
}

#[test]
fn summary_of_no_difference() {
    assert_eq!(summarize(&vec![]), DifferenceCounts { missing: 0, desynced: 0, untracked: 0 });
    assert!(validation_passed(&vec![]));
}

#[test]
fn manifests_differ_by_missing_and_changed_entries() {
    let authority = manifest_of(vec![
        remote_entry("same", b"1"),
        remote_entry("changed", b"2"),
        remote_entry("new", b"3"),
    ]);
    let local = manifest_of(vec![
        remote_entry("old", b"9"),
        remote_entry("changed", b"0"),
        remote_entry("same", b"1"),
    ]);
    let plain = diff_manifests(&authority, Some(&local), false).unwrap();
    assert_eq!(
        plain,
        vec![
            ValidationDifference::hash_mismatch(
                rel("changed"),
                remote_entry("changed", b"2"),
                get_file_hash(b"0")
            ),
            ValidationDifference::missing(rel("new"), remote_entry("new", b"3")),
        ]
    );
    let forced = diff_manifests(&authority, Some(&local), true).unwrap();
    assert_eq!(forced.len(), 3);
    assert_eq!(forced[..2], plain[..]);
    assert_eq!(forced[2], ValidationDifference::unknown_file(rel("old")));
}

#[test]
fn no_local_manifest_gives_no_diff() {
    let authority = manifest_of(vec![remote_entry("a", b"1")]);
    assert_eq!(diff_manifests(&authority, None, false), None);
    assert_eq!(diff_manifests(&authority, None, true), None);
}

#[test]
fn a_manifest_does_not_differ_from_itself() {
    let m = manifest_of(vec![remote_entry("a", b"1"), remote_entry("b/c", b"2")]);
    assert_eq!(diff_manifests(&m, Some(&m), true), Some(vec![]));
}
