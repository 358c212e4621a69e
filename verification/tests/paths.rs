use comstar::paths::{check_canonical, RelPath};

fn canonical(text: &str) -> bool {
    RelPath::new(text).is_some()
}

#[test]
fn plain_paths_are_canonical() {
    assert!(canonical("a.txt"));
    assert!(canonical("sub/b.bin"));
    assert!(canonical("a/b/c/d"));
    assert!(canonical(".hidden"));
    assert!(canonical("a/..b"));
    assert!(canonical("..."));
    assert!(canonical("dir.d/file"));
}

#[test]
fn empty_path_is_rejected() {
    assert!(!canonical(""));
}

#[test]
fn absolute_path_is_rejected() {
    assert!(!canonical("/etc/passwd"));
    assert!(!canonical("/"));
}

#[test]
fn parent_components_are_rejected() {
    assert!(!canonical(".."));
    assert!(!canonical("../a"));
    assert!(!canonical("a/.."));
    assert!(!canonical("a/../b"));
}

#[test]
fn current_dir_components_are_rejected() {
    assert!(!canonical("."));
    assert!(!canonical("./a"));
    assert!(!canonical("a/."));
    assert!(!canonical("a/./b"));
}

#[test]
fn trailing_and_doubled_slashes_are_rejected() {
    assert!(!canonical("a/"));
    assert!(!canonical("a//b"));
}

#[test]
fn check_canonical_works_on_characters() {
    let ok: Vec<char> = "x/y".chars().collect();
    let bad: Vec<char> = "x/../y".chars().collect();
    assert!(check_canonical(&ok));
    assert!(!check_canonical(&bad));
}

#[test]
fn as_str_gives_the_text_back() {
    let p = RelPath::new("sub/b.bin").unwrap();
    assert_eq!(p.as_str(), "sub/b.bin");
}

#[test]
fn file_name_is_the_last_component() {
    assert_eq!(RelPath::new("sub/b.bin").unwrap().file_name(), "b.bin");
    assert_eq!(RelPath::new("a.txt").unwrap().file_name(), "a.txt");
    assert_eq!(RelPath::new("a/b/c").unwrap().file_name(), "c");
}

#[test]
fn extension_follows_the_last_dot() {
    assert_eq!(RelPath::new("a/b.tar.gz").unwrap().extension(), Some("gz".to_string()));
    assert_eq!(RelPath::new("a.txt").unwrap().extension(), Some("txt".to_string()));
    assert_eq!(RelPath::new("a.d/noext").unwrap().extension(), None);
    assert_eq!(RelPath::new(".hidden").unwrap().extension(), None);
    assert_eq!(RelPath::new("trailing.").unwrap().extension(), Some("".to_string()));
}

#[test]
fn join_puts_one_slash_between() {
    let prefix = RelPath::new("site/v1").unwrap();
    let path = RelPath::new("sub/b.bin").unwrap();
    assert_eq!(prefix.join(&path).as_str(), "site/v1/sub/b.bin");
}

#[test]
fn equals_compares_the_text() {
    let a = RelPath::new("a/b").unwrap();
    let b = RelPath::new("a/b").unwrap();
    let c = RelPath::new("a/c").unwrap();
    assert!(a.equals(&b));
    assert!(!a.equals(&c));
    assert_eq!(a.clone(), a);
}
