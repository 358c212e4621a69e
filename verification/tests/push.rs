use comstar::digest::get_file_hash;
use comstar::generate::{generate_manifest, HashedFile};
use comstar::manifest::{Manifest, Timestamp};
use comstar::paths::RelPath;
use comstar::push::{
    content_type_for, content_type_or_default, delete_object, diff_manifests, make_meta,
    object_path, push_dir, push_step, upload_object, ManifestDiff, ObjectMeta, PushAction,
    PushStep,
};

const SHA512_X: &str = "a4abd4448c49562d828115d13a1fccea927f52b4d5459297f8b43e42da89238bc13626e43dcb38ddb082488927ec904fb42057443983e88585179d50551afe62";
const SHA512_YY: &str = "28586f41c2a84433c3bf6f1558c20ae329b297d2fcd6900b602d545cf3a780095c2575076d5294abbc759a1303da658ea918c0ba3758a07a71073d3762898e34";

fn tree(files: &[(&str, &[u8])]) -> Manifest {
    let hashed: Vec<HashedFile> = files
        .iter()
        .map(|(p, c)| HashedFile { path: p.to_string(), sha512: get_file_hash(c) })
        .collect();
    generate_manifest("https://storage.example/bucket/", Timestamp { secs: 5, nanos: 0 }, &hashed)
        .unwrap()
}

fn key(path: &str) -> RelPath {
    RelPath::new(path).unwrap()
}

fn upload_from(bucket: &str, object: &str, local_file: &str, content_type: &str) -> PushStep {
    PushStep {
        name: object.to_string(),
        action: PushAction::Upload {
            meta: ObjectMeta {
                bucket: bucket.to_string(),
                name: object.to_string(),
                content_encoding: "gzip".to_string(),
                content_type: content_type.to_string(),
            },
            local_file: key(local_file),
        },
    }
}

fn upload(bucket: &str, object: &str, content_type: &str) -> PushStep {
    upload_from(bucket, object, object, content_type)
}

#[test]
fn content_type_goes_by_the_extension() {
    assert_eq!(content_type_for(&key("a.txt")), "text/plain");
    assert_eq!(content_type_for(&key("site/index.html")), "text/html");
    assert_eq!(content_type_for(&key("comstar.json")), "application/json");
    assert_eq!(content_type_for(&key("IMG.PNG")), "image/png");
}

#[test]
fn content_type_defaults_to_octet_stream() {
    assert_eq!(content_type_for(&key("sub/b.bin")), "application/octet-stream");
    assert_eq!(content_type_for(&key("noext")), "application/octet-stream");
    assert_eq!(content_type_for(&key(".hidden")), "application/octet-stream");
    assert_eq!(content_type_for(&key("what.isthisextension")), "application/octet-stream");
    assert_eq!(content_type_or_default(None), "application/octet-stream");
    assert_eq!(content_type_or_default(Some("text/css".to_string())), "text/css");
}

#[test]
fn meta_says_gzip() {
    assert_eq!(
        make_meta("bkt", "a/b.txt", "text/plain".to_string()),
        ObjectMeta {
            bucket: "bkt".to_string(),
            name: "a/b.txt".to_string(),
            content_encoding: "gzip".to_string(),
            content_type: "text/plain".to_string(),
        }
    );
}

#[test]
fn upload_and_delete_requests() {
    assert_eq!(
        upload_object("bkt", &key("pre/a.txt"), &key("a.txt")),
        upload_from("bkt", "pre/a.txt", "a.txt", "text/plain").action
    );
    assert_eq!(
        delete_object("bkt", &key("pre/a.txt")),
        PushAction::Delete { bucket: "bkt".to_string(), object: key("pre/a.txt") }
    );
}

#[test]
fn object_path_goes_below_the_prefix() {
    assert_eq!(object_path(None, &key("a.txt")).as_str(), "a.txt");
    assert_eq!(object_path(Some(&key("site/v1")), &key("sub/a.txt")).as_str(), "site/v1/sub/a.txt");
}

#[test]
fn first_push_uploads_everything() {
    let local = tree(&[("a.txt", b"x"), ("sub/b.bin", b"yy")]);
    assert_eq!(local.entries()[0].sha512.as_str(), SHA512_X);
    assert_eq!(local.entries()[1].sha512.as_str(), SHA512_YY);
    assert_eq!(
        diff_manifests(&local, None),
        vec![ManifestDiff::Update(key("a.txt")), ManifestDiff::Update(key("sub/b.bin"))]
    );
    let plan = push_dir(&local, None, "bkt", None);
    assert_eq!(
        plan.steps,
        vec![
            upload("bkt", "a.txt", "text/plain"),
            upload("bkt", "sub/b.bin", "application/octet-stream"),
        ]
    );
    assert_eq!(plan.manifest, Some(upload("bkt", "comstar.json", "application/json")));
}

#[test]
fn incremental_push_uploads_what_changed() {
    let remote = tree(&[("a.txt", b"1"), ("b.txt", b"2")]);
    let local = tree(&[("a.txt", b"1 changed"), ("b.txt", b"2"), ("c.txt", b"3")]);
    assert_eq!(
        diff_manifests(&local, Some(&remote)),
        vec![ManifestDiff::Update(key("a.txt")), ManifestDiff::Update(key("c.txt"))]
    );
    let plan = push_dir(&local, Some(&remote), "bkt", None);
    assert_eq!(
        plan.steps,
        vec![upload("bkt", "a.txt", "text/plain"), upload("bkt", "c.txt", "text/plain")]
    );
    assert_eq!(plan.manifest, Some(upload("bkt", "comstar.json", "application/json")));
    assert!(plan.steps.iter().all(|s| !matches!(s.action, PushAction::Delete { .. })));
}

#[test]
fn push_deletes_what_is_gone_from_the_tree() {
    let remote = tree(&[("a.txt", b"1"), ("gone.txt", b"2")]);
    let local = tree(&[("a.txt", b"1")]);
    assert_eq!(diff_manifests(&local, Some(&remote)), vec![ManifestDiff::Delete(key("gone.txt"))]);
    let plan = push_dir(&local, Some(&remote), "bkt", None);
    assert_eq!(
        plan.steps,
        vec![PushStep {
            name: "gone.txt".to_string(),
            action: PushAction::Delete { bucket: "bkt".to_string(), object: key("gone.txt") },
        }]
    );
    assert!(plan.manifest.is_some());
}

#[test]
fn push_of_an_unchanged_tree_does_nothing() {
    let remote = tree(&[("a.txt", b"1"), ("b.txt", b"2")]);
    let local = tree(&[("b.txt", b"2"), ("a.txt", b"1")]);
    assert!(diff_manifests(&local, Some(&remote)).is_empty());
    let plan = push_dir(&local, Some(&remote), "bkt", Some(&key("pre")));
    assert!(plan.steps.is_empty());
    assert_eq!(plan.manifest, None);
}

#[test]
fn prefix_applies_to_the_key_and_not_to_the_local_file() {
    let local = tree(&[("sub/b.bin", b"yy")]);
    let plan = push_dir(&local, None, "bkt", Some(&key("pre")));
    match &plan.steps[0].action {
        PushAction::Upload { meta, local_file } => {
            assert_eq!(meta.name, "pre/sub/b.bin");
            assert_eq!(local_file.as_str(), "sub/b.bin");
        }
        other => panic!("not an upload: {:?}", other),
    }
    assert_eq!(plan.steps[0].name, "pre/sub/b.bin");
}

#[test]
fn push_below_a_prefix() {
    let local = tree(&[("a.txt", b"x")]);
    let plan = push_dir(&local, None, "bkt", Some(&key("site/v1")));
    assert_eq!(plan.steps, vec![upload_from("bkt", "site/v1/a.txt", "a.txt", "text/plain")]);
    assert_eq!(
        plan.manifest,
        Some(upload_from("bkt", "site/v1/comstar.json", "comstar.json", "application/json"))
    );
    assert_eq!(
        push_step(&ManifestDiff::Delete(key("old")), "bkt", Some(&key("site/v1"))),
        PushStep {
            name: "site/v1/old".to_string(),
            action: PushAction::Delete { bucket: "bkt".to_string(), object: key("site/v1/old") },
        }
    );
}
