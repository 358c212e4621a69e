//! Relative paths as manifests write them: slash-separated and canonical.

use vstd::prelude::*;
use crate::text::to_chars;

verus! {

/// A component starts at index `i` of `p`.
pub open spec fn starts_component(p: Seq<char>, i: int) -> bool {
    i == 0 || p[i - 1] == '/'
}

/// A component ends just before index `j` of `p`.
pub open spec fn ends_component(p: Seq<char>, j: int) -> bool {
    j == p.len() || p[j] == '/'
}

/// The component that starts at `i` is empty, `.` or `..`.
pub open spec fn bad_component_at(p: Seq<char>, i: int) -> bool {
    &&& starts_component(p, i)
    &&& {
        ||| ends_component(p, i)
        ||| (p[i] == '.' && ends_component(p, i + 1))
        ||| (p[i] == '.' && i + 1 < p.len() && p[i + 1] == '.' && ends_component(p, i + 2))
    }
}

/// A canonical relative path: split at `/`, every component is a name, none
/// is empty, `.` or `..`. Such a path is not empty, does not start or end
/// with `/`, and does not point outside its base.
pub open spec fn is_canonical_path(p: Seq<char>) -> bool {
    forall|i: int| 0 <= i <= p.len() ==> !bad_component_at(p, i)
}

/// Whether `chars` is a canonical relative path.
pub fn check_canonical(chars: &Vec<char>) -> (ok: bool)
    ensures
        ok == is_canonical_path(chars@),
{
    let n = chars.len();
    let mut i: usize = 0;
    while i <= n
        invariant
            i <= n + 1,
            n == chars.len(),
            forall|k: int| 0 <= k < i ==> !bad_component_at(chars@, k),
        decreases n + 1 - i,
    {
        let starts = i == 0 || chars[i - 1] == '/';
        if starts {
            let empty = i == n || chars[i] == '/';
            let dot = i < n && chars[i] == '.' && (i + 1 == n || chars[i + 1] == '/');
            let dotdot = i < n && chars[i] == '.' && i + 1 < n && chars[i + 1] == '.' && (i + 2 == n
                || chars[i + 2] == '/');
            if empty || dot || dotdot {
                assert(bad_component_at(chars@, i as int));
                return false;
            }
        }
        if i == n {
            assert(forall|k: int| 0 <= k <= n ==> !bad_component_at(chars@, k));
            return true;
        }
        i = i + 1;
    }
    true
}

/// Where the last component of `p` starts: just behind the last `/`, or at 0.
pub open spec fn last_component_start(p: Seq<char>) -> int
    decreases p.len(),
{
    if p.len() == 0 || p.last() == '/' {
        p.len() as int
    } else {
        last_component_start(p.drop_last())
    }
}

/// The text behind the last `/` of `p`.
pub open spec fn last_component(p: Seq<char>) -> Seq<char> {
    p.subrange(last_component_start(p), p.len() as int)
}

/// The file name of `p`: its last component that is not `.`, with trailing
/// separators passed over; none where no component is left or it is `..`.
pub open spec fn file_name_of(p: Seq<char>) -> Option<Seq<char>>
    decreases p.len(),
{
    if p.len() == 0 {
        None
    } else if p.last() == '/' || last_component(p) == seq!['.'] {
        file_name_of(p.drop_last())
    } else if last_component(p) == seq!['.', '.'] {
        None
    } else {
        Some(last_component(p))
    }
}

/// `base` with `path` adjoined: one `/` between them unless `base` is empty
/// or ends with one, and one leading `/` of `path` dropped.
pub open spec fn join_paths(base: Seq<char>, path: Seq<char>) -> Seq<char> {
    let tail = if path.len() > 0 && path[0] == '/' {
        path.drop_first()
    } else {
        path
    };
    let head = if base.len() > 0 && base.last() != '/' {
        base.push('/')
    } else {
        base
    };
    head + tail
}

/// Where the last `.` of `name` stands; -1 where it has none.
pub open spec fn last_dot(name: Seq<char>) -> int
    decreases name.len(),
{
    if name.len() == 0 {
        -1
    } else if name.last() == '.' {
        name.len() - 1
    } else {
        last_dot(name.drop_last())
    }
}

/// The extension of `p`: what follows the last `.` of its file name, where
/// the name has a `.` that is not its first character.
pub open spec fn extension_of(p: Seq<char>) -> Option<Seq<char>> {
    match file_name_of(p) {
        None => None,
        Some(name) => if last_dot(name) <= 0 {
            None
        } else {
            Some(name.subrange(last_dot(name) + 1, name.len() as int))
        },
    }
}

/// `RelativePath::extension` of the `relative-path` crate: the part of the
/// file name behind its last `.`; nothing where there is no file name, where
/// the name has no `.`, or where its only `.` comes first.
#[verifier::external_body]
fn relative_extension(path: &str) -> (ext: Option<String>)
    ensures
        match ext {
            Some(e) => extension_of(path@) == Some(e@),
            None => extension_of(path@) is None,
        },
{
    match relative_path::RelativePath::new(path).extension() {
        Some(e) => Some(e.to_string()),
        None => None,
    }
}

/// `RelativePath::file_name` of the `relative-path` crate: walking the
/// components from the back, it passes over `.`, gives the first name it
/// meets, and gives nothing at `..` or when the components run out.
#[verifier::external_body]
fn relative_file_name(path: &str) -> (name: Option<String>)
    ensures
        match name {
            Some(n) => file_name_of(path@) == Some(n@),
            None => file_name_of(path@) is None,
        },
{
    match relative_path::RelativePath::new(path).file_name() {
        Some(n) => Some(n.to_string()),
        None => None,
    }
}

/// `RelativePath::join` of the `relative-path` crate: a copy of `base` onto
/// which `path` is pushed, that is, a `/` is added to a non-empty base that
/// does not end with one, and `path` follows without one leading `/`.
#[verifier::external_body]
fn relative_join(base: &str, path: &str) -> (joined: String)
    ensures
        joined@ == join_paths(base@, path@),
{
    relative_path::RelativePath::new(base).join(path).into_string()
}

/// Facts about where the last component starts.
pub proof fn lemma_last_component_start(p: Seq<char>)
    ensures
        0 <= last_component_start(p) <= p.len(),
        starts_component(p, last_component_start(p)),
        forall|k: int| last_component_start(p) <= k < p.len() ==> p[k] != '/',
    decreases p.len(),
{
    if p.len() == 0 || p.last() == '/' {
    } else {
        let q = p.drop_last();
        lemma_last_component_start(q);
        let s = last_component_start(q);
        assert(s > 0 ==> q[s - 1] == p[s - 1]);
        assert forall|k: int| s <= k < p.len() implies p[k] != '/' by {
            if k < q.len() {
                assert(q[k] == p[k]);
            }
        }
    }
}

/// A canonical path has a file name: its last component, which is not empty.
pub proof fn lemma_canonical_file_name(p: Seq<char>)
    requires
        is_canonical_path(p),
    ensures
        file_name_of(p) == Some(last_component(p)),
        last_component(p).len() > 0,
        is_canonical_path(last_component(p)),
{
    lemma_last_component_start(p);
    let n = p.len() as int;
    let k = last_component_start(p);
    let c = last_component(p);
    assert(!bad_component_at(p, 0));
    assert(!bad_component_at(p, n));
    assert(!bad_component_at(p, k));
    assert(n > 0);
    assert(p.last() != '/');
    assert(k < n);
    assert(c.len() == n - k);
    assert(c[0] == p[k]);
    if c == seq!['.'] {
        assert(seq!['.'].len() == 1);
        assert(k + 1 == n);
        assert(false);
    }
    if c == seq!['.', '.'] {
        assert(seq!['.', '.'].len() == 2);
        assert(c[1] == p[k + 1]);
        assert(seq!['.', '.'][0] == '.');
        assert(seq!['.', '.'][1] == '.');
        assert(k + 2 == n);
        assert(false);
    }
    assert forall|i: int| 0 <= i <= c.len() implies !bad_component_at(c, i) by {
        if bad_component_at(c, i) {
            if i > 0 {
                assert(c[i - 1] == p[k + i - 1]);
                assert(false);
            }
            assert(i == 0);
            if c.len() > 1 {
                assert(c[1] == p[k + 1]);
            }
            if c.len() > 2 {
                assert(c[2] == p[k + 2]);
            }
            assert(bad_component_at(p, k));
        }
    }
}

/// A canonical path adjoined to a canonical path is canonical, and the two
/// are parted by exactly one `/`.
pub proof fn lemma_join_canonical(base: Seq<char>, path: Seq<char>)
    requires
        is_canonical_path(base),
        is_canonical_path(path),
    ensures
        join_paths(base, path) == base + seq!['/'] + path,
        is_canonical_path(join_paths(base, path)),
{
    let b = base.len() as int;
    let j = join_paths(base, path);
    assert(!bad_component_at(base, 0));
    assert(!bad_component_at(base, b));
    assert(!bad_component_at(path, 0));
    assert(base.push('/') == base + seq!['/']);
    assert(j == base + seq!['/'] + path);
    assert(j.len() == b + 1 + path.len());
    assert forall|i: int| 0 <= i <= j.len() implies !bad_component_at(j, i) by {
        if bad_component_at(j, i) {
            if i <= b {
                if i > 0 {
                    assert(j[i - 1] == base[i - 1]);
                }
                if i < b {
                    assert(j[i] == base[i]);
                }
                if i + 1 < b {
                    assert(j[i + 1] == base[i + 1]);
                }
                if i + 2 < b {
                    assert(j[i + 2] == base[i + 2]);
                }
                assert(j[b] == '/');
                assert(bad_component_at(base, i));
            } else {
                let k = i - b - 1;
                if k > 0 {
                    assert(j[i - 1] == path[k - 1]);
                }
                if k < path.len() {
                    assert(j[i] == path[k]);
                }
                if k + 1 < path.len() {
                    assert(j[i + 1] == path[k + 1]);
                }
                if k + 2 < path.len() {
                    assert(j[i + 2] == path[k + 2]);
                }
                assert(bad_component_at(path, k));
            }
        }
    }
}

/// A canonical relative path.
#[derive(Debug, PartialEq, Eq)]
pub struct RelPath {
    text: String,
}

impl View for RelPath {
    type V = Seq<char>;

    closed spec fn view(&self) -> Seq<char> {
        self.text@
    }
}

impl RelPath {
    /// Every value of the type is canonical.
    #[verifier::type_invariant]
    pub open spec fn inv(&self) -> bool {
        is_canonical_path(self@)
    }

    /// The path that `text` spells, where `text` is canonical.
    pub fn new(text: &str) -> (r: Option<RelPath>)
        ensures
            r is Some <==> is_canonical_path(text@),
            r matches Some(p) ==> p@ == text@,
    {
        let chars = to_chars(text);
        if check_canonical(&chars) {
            Some(RelPath { text: text.to_owned() })
        } else {
            None
        }
    }

    /// The path as text.
    pub fn as_str(&self) -> (s: &str)
        ensures
            s@ == self@,
            is_canonical_path(s@),
    {
        proof {
            use_type_invariant(self);
        }
        self.text.as_str()
    }

    /// The name of the file: the last component.
    pub fn file_name(&self) -> (name: String)
        ensures
            name@ == last_component(self@),
            name@.len() > 0,
    {
        proof {
            use_type_invariant(self);
            lemma_canonical_file_name(self@);
        }
        match relative_file_name(self.text.as_str()) {
            Some(n) => n,
            None => vstd::pervasive::unreached(),
        }
    }

    /// The extension of the file's name, if it has one.
    pub fn extension(&self) -> (ext: Option<String>)
        ensures
            match ext {
                Some(e) => extension_of(self@) == Some(e@),
                None => extension_of(self@) is None,
            },
    {
        relative_extension(self.text.as_str())
    }

    /// This path with `path` adjoined.
    pub fn join(&self, path: &RelPath) -> (r: RelPath)
        ensures
            r@ == self@ + seq!['/'] + path@,
    {
        proof {
            use_type_invariant(self);
            use_type_invariant(path);
            lemma_join_canonical(self@, path@);
        }
        RelPath { text: relative_join(self.text.as_str(), path.text.as_str()) }
    }

    /// Whether the two paths are the same.
    pub fn equals(&self, other: &RelPath) -> (r: bool)
        ensures
            r == (self@ == other@),
    {
        self.text == other.text
    }
}

impl Clone for RelPath {
    fn clone(&self) -> (r: RelPath)
        ensures
            r@ == self@,
    {
        proof {
            use_type_invariant(self);
        }
        RelPath { text: self.text.clone() }
    }
}

} // verus!
