use comstar::digest::{check_digest, get_file_hash, to_hex, FileDigest, Hasher};

const SHA512_EMPTY: &str = "cf83e1357eefb8bdf1542850d66d8007d620e4050b5715dc83f4a921d36ce9ce47d0d13c5d85f2b0ff8318d2877eec2f63b931bd47417a81a538327af927da3e";
const SHA512_X: &str = "a4abd4448c49562d828115d13a1fccea927f52b4d5459297f8b43e42da89238bc13626e43dcb38ddb082488927ec904fb42057443983e88585179d50551afe62";
const SHA512_ABC: &str = "ddaf35a193617abacc417349ae20413112e6fa4e89a97ea20a9eeee64b55d39a2192992a274fc1a836ba3c23a3feebbd454d4423643ce80e2a9ac94fa54ca49f";

#[test]
fn to_hex_writes_two_lowercase_digits_a_byte() {
    assert_eq!(to_hex(&[]), "");
    assert_eq!(to_hex(&[0x00, 0x0f, 0xa5, 0xff]), "000fa5ff");
    assert_eq!(to_hex(&[0x12, 0x9a, 0xbc, 0xde]), "129abcde");
}

#[test]
fn hash_of_known_contents() {
    assert_eq!(get_file_hash(b"").as_str(), SHA512_EMPTY);
    assert_eq!(get_file_hash(b"x").as_str(), SHA512_X);
    assert_eq!(get_file_hash(b"abc").as_str(), SHA512_ABC);
}

#[test]
fn hash_is_128_lowercase_hex_digits() {
    let d = get_file_hash(b"some contents");
    assert_eq!(d.as_str().len(), 128);
    assert!(d.as_str().chars().all(|c| c.is_ascii_digit() || ('a'..='f').contains(&c)));
}

#[test]
fn hasher_streams_chunks() {
    let mut h = Hasher::new();
    h.update(b"a");
    h.update(b"");
    h.update(b"bc");
    assert_eq!(h.finish().as_str(), SHA512_ABC);
}

#[test]
fn hasher_without_input_gives_the_empty_digest() {
    assert_eq!(Hasher::new().finish().as_str(), SHA512_EMPTY);
}

#[test]
fn canonical_digest_is_accepted() {
    let d = FileDigest::new(SHA512_X).unwrap();
    assert_eq!(d.as_str(), SHA512_X);
    assert!(d.equals(&get_file_hash(b"x")));
    assert!(!d.equals(&get_file_hash(b"y")));
    assert_eq!(d.clone(), d);
}

#[test]
fn uppercase_digest_is_rejected() {
    assert!(FileDigest::new(&SHA512_X.to_uppercase()).is_none());
}

#[test]
fn digest_of_wrong_length_is_rejected() {
    assert!(FileDigest::new("").is_none());
    assert!(FileDigest::new(&SHA512_X[..127]).is_none());
    assert!(FileDigest::new(&format!("{}0", SHA512_X)).is_none());
}

#[test]
fn digest_with_a_foreign_character_is_rejected() {
    let mut s = SHA512_X.to_string();
    s.replace_range(5..6, "g");
    assert!(FileDigest::new(&s).is_none());
    let mut t = SHA512_X.to_string();
    t.replace_range(0..1, " ");
    assert!(FileDigest::new(&t).is_none());
}

#[test]
fn check_digest_works_on_characters() {
    let good: Vec<char> = SHA512_X.chars().collect();
    let bad: Vec<char> = SHA512_X.to_uppercase().chars().collect();
    assert!(check_digest(&good));
    assert!(!check_digest(&bad));
}
