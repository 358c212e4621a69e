//! SHA-512 digests of file contents, written as 128 lowercase hex digits.

use vstd::prelude::*;
use crate::text::to_chars;

verus! {

/// The number of bytes of a SHA-512 digest.
pub const DIGEST_BYTES: usize = 64;

/// The number of hex digits of a written digest.
pub const DIGEST_CHARS: usize = 128;

/// `c` is one of `0`..`9`, `a`..`f`.
pub open spec fn is_lower_hex(c: char) -> bool {
    ('0' <= c && c <= '9') || ('a' <= c && c <= 'f')
}

/// A digest in its one accepted form: 128 lowercase hex digits.
pub open spec fn is_canonical_digest(s: Seq<char>) -> bool {
    &&& s.len() == DIGEST_CHARS
    &&& forall|i: int| 0 <= i < s.len() ==> is_lower_hex(#[trigger] s[i])
}

/// The lowercase hex digit of a nibble.
pub open spec fn hex_char(n: int) -> char {
    seq!['0', '1', '2', '3', '4', '5', '6', '7', '8', '9', 'a', 'b', 'c', 'd', 'e', 'f'][n]
}

/// `bytes` in lowercase hex: two digits a byte, the high nibble first.
pub open spec fn hex_lower(bytes: Seq<u8>) -> Seq<char> {
    Seq::new(
        2 * bytes.len(),
        |i: int|
            if i % 2 == 0 {
                hex_char(bytes[i / 2] as int / 16)
            } else {
                hex_char(bytes[i / 2] as int % 16)
            },
    )
}

/// Every hex digit of a nibble is a lowercase hex digit.
pub proof fn lemma_hex_char_lower(n: int)
    requires
        0 <= n < 16,
    ensures
        is_lower_hex(hex_char(n)),
{
}

/// The hex form of 64 bytes is a canonical digest.
pub proof fn lemma_hex_of_digest_is_canonical(bytes: Seq<u8>)
    requires
        bytes.len() == DIGEST_BYTES,
    ensures
        is_canonical_digest(hex_lower(bytes)),
{
    let h = hex_lower(bytes);
    assert forall|i: int| 0 <= i < h.len() implies is_lower_hex(#[trigger] h[i]) by {
        let b = bytes[i / 2] as int;
        lemma_hex_char_lower(b / 16);
        lemma_hex_char_lower(b % 16);
    }
}

/// The text of one hex digit.
fn hex_digit(n: u8) -> (s: &'static str)
    requires
        n < 16,
    ensures
        s@ == seq![hex_char(n as int)],
{
    proof {
        reveal_strlit("0");
        reveal_strlit("1");
        reveal_strlit("2");
        reveal_strlit("3");
        reveal_strlit("4");
        reveal_strlit("5");
        reveal_strlit("6");
        reveal_strlit("7");
        reveal_strlit("8");
        reveal_strlit("9");
        reveal_strlit("a");
        reveal_strlit("b");
        reveal_strlit("c");
        reveal_strlit("d");
        reveal_strlit("e");
        reveal_strlit("f");
    }
    let s = match n {
        0 => "0",
        1 => "1",
        2 => "2",
        3 => "3",
        4 => "4",
        5 => "5",
        6 => "6",
        7 => "7",
        8 => "8",
        9 => "9",
        10 => "a",
        11 => "b",
        12 => "c",
        13 => "d",
        14 => "e",
        _ => "f",
    };
    assert(s@ =~= seq![hex_char(n as int)]);
    s
}

/// `bytes` written in lowercase hex.
pub fn to_hex(bytes: &[u8]) -> (s: String)
    ensures
        s@ == hex_lower(bytes@),
{
    let mut s = String::new();
    let mut i: usize = 0;
    while i < bytes.len()
        invariant
            i <= bytes.len(),
            s@ == hex_lower(bytes@.take(i as int)),
        decreases bytes.len() - i,
    {
        let b = bytes[i];
        let ghost before = s@;
        s.append(hex_digit(b / 16));
        s.append(hex_digit(b % 16));
        assert(s@ =~= hex_lower(bytes@.take(i + 1))) by {
            let t = bytes@.take(i + 1);
            assert(t.len() == i + 1);
            assert(s@.len() == 2 * i + 2);
            assert forall|k: int| 0 <= k < 2 * i + 2 implies s@[k] == hex_lower(t)[k] by {
                if k < 2 * i {
                    assert(s@[k] == before[k]);
                    assert(t[k / 2] == bytes@.take(i as int)[k / 2]);
                } else {
                    assert(t[k / 2] == b);
                }
            }
        }
        i = i + 1;
    }
    assert(bytes@.take(i as int) == bytes@);
    s
}

/// Whether `chars` is a digest in canonical form.
pub fn check_digest(chars: &Vec<char>) -> (ok: bool)
    ensures
        ok == is_canonical_digest(chars@),
{
    if chars.len() != DIGEST_CHARS {
        return false;
    }
    let mut i: usize = 0;
    while i < chars.len()
        invariant
            i <= chars.len(),
            chars.len() == DIGEST_CHARS,
            forall|k: int| 0 <= k < i ==> is_lower_hex(#[trigger] chars@[k]),
        decreases chars.len() - i,
    {
        let c = chars[i];
        if !(('0' <= c && c <= '9') || ('a' <= c && c <= 'f')) {
            assert(!is_lower_hex(chars@[i as int]));
            return false;
        }
        i = i + 1;
    }
    true
}

/// A SHA-512 hasher of the `sha2` crate, with what it has been fed so far.
#[verifier::external_body]
pub struct Sha512State {
    inner: sha2::Sha512,
}

/// The bytes that the hasher has absorbed, in the order in which they came.
pub uninterp spec fn absorbed(h: Sha512State) -> Seq<u8>;

/// The SHA-512 digest of `data`: 64 bytes.
pub uninterp spec fn sha512(data: Seq<u8>) -> Seq<u8>;

/// `Digest::new` of `sha2::Sha512`: a hasher that has absorbed nothing.
#[verifier::external_body]
fn sha512_new() -> (h: Sha512State)
    ensures
        absorbed(h) == Seq::<u8>::empty(),
{
    Sha512State { inner: <sha2::Sha512 as sha2::Digest>::new() }
}

/// `Digest::update` of `sha2::Sha512`: the hasher absorbs `data` behind what
/// it has absorbed before.
#[verifier::external_body]
fn sha512_update(h: &mut Sha512State, data: &[u8])
    ensures
        absorbed(*final(h)) == absorbed(*old(h)) + data@,
{
    sha2::Digest::update(&mut h.inner, data)
}

/// `Digest::finalize` of `sha2::Sha512`: the digest of all that the hasher
/// has absorbed, which is 64 bytes long.
#[verifier::external_body]
fn sha512_finalize(h: Sha512State) -> (out: Vec<u8>)
    ensures
        out@ == sha512(absorbed(h)),
        out@.len() == DIGEST_BYTES,
{
    sha2::Digest::finalize(h.inner).to_vec()
}

/// The digest of a file, in canonical form.
#[derive(Debug, PartialEq, Eq)]
pub struct FileDigest {
    hex: String,
}

impl View for FileDigest {
    type V = Seq<char>;

    closed spec fn view(&self) -> Seq<char> {
        self.hex@
    }
}

impl FileDigest {
    /// Every value of the type is in canonical form.
    #[verifier::type_invariant]
    pub open spec fn inv(&self) -> bool {
        is_canonical_digest(self@)
    }

    /// The digest that `text` spells, where `text` is in canonical form.
    pub fn new(text: &str) -> (r: Option<FileDigest>)
        ensures
            r is Some <==> is_canonical_digest(text@),
            r matches Some(d) ==> d@ == text@,
    {
        let chars = to_chars(text);
        if check_digest(&chars) {
            Some(FileDigest { hex: text.to_owned() })
        } else {
            None
        }
    }

    /// The digest as text.
    pub fn as_str(&self) -> (s: &str)
        ensures
            s@ == self@,
            is_canonical_digest(s@),
    {
        proof {
            use_type_invariant(self);
        }
        self.hex.as_str()
    }

    /// Whether the two digests are the same.
    pub fn equals(&self, other: &FileDigest) -> (r: bool)
        ensures
            r == (self@ == other@),
    {
        self.hex == other.hex
    }
}

impl Clone for FileDigest {
    fn clone(&self) -> (r: FileDigest)
        ensures
            r@ == self@,
    {
        proof {
            use_type_invariant(self);
        }
        FileDigest { hex: self.hex.clone() }
    }
}

/// A running SHA-512 over the chunks of one file.
pub struct Hasher {
    state: Sha512State,
}

impl Hasher {
    /// The bytes fed so far.
    pub closed spec fn input(&self) -> Seq<u8> {
        absorbed(self.state)
    }

    /// A hasher that has been fed nothing.
    pub fn new() -> (h: Hasher)
        ensures
            h.input() == Seq::<u8>::empty(),
    {
        Hasher { state: sha512_new() }
    }

    /// Feeds the next chunk of the file.
    pub fn update(&mut self, chunk: &[u8])
        ensures
            final(self).input() == old(self).input() + chunk@,
    {
        sha512_update(&mut self.state, chunk);
    }

    /// The digest of all that was fed.
    pub fn finish(self) -> (d: FileDigest)
        ensures
            d@ == hex_lower(sha512(self.input())),
            is_canonical_digest(d@),
    {
        let raw = sha512_finalize(self.state);
        proof {
            lemma_hex_of_digest_is_canonical(raw@);
        }
        FileDigest { hex: to_hex(raw.as_slice()) }
    }
}

/// The digest of a file with the given contents.
pub fn get_file_hash(contents: &[u8]) -> (d: FileDigest)
    ensures
        d@ == hex_lower(sha512(contents@)),
        is_canonical_digest(d@),
{
    let mut h = Hasher::new();
    h.update(contents);
    assert(Seq::<u8>::empty() + contents@ == contents@);
    h.finish()
}

} // verus!
