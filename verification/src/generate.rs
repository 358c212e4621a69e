//! Assembling the manifest of a tree from the files that its walk found.

use vstd::prelude::*;
use crate::digest::FileDigest;
use crate::error::ErrorKind;
use crate::manifest::{
    entries_canonical, entries_sourced, entry_views, excludes_manifest_file, manifest_file,
    paths_distinct,
    EntryView, Manifest, ManifestEntry, ManifestView, Timestamp,
};
use crate::paths::{is_canonical_path, RelPath};
use crate::transport::{resolve_url, resolved_url};
use crate::walker::walker_admits;

verus! {

/// A file that the walk found, with the digest of its contents.
#[derive(Debug, PartialEq, Eq)]
pub struct HashedFile {
    /// The file's place below the root of the walk, `/` between components.
    pub path: String,
    /// The digest of the file's bytes.
    pub sha512: FileDigest,
}

/// The mathematical value of a [`HashedFile`].
pub struct HashedFileView {
    pub path: Seq<char>,
    pub sha512: Seq<char>,
}

impl View for HashedFile {
    type V = HashedFileView;

    open spec fn view(&self) -> HashedFileView {
        HashedFileView { path: self.path@, sha512: self.sha512@ }
    }
}

/// The values of a run of hashed files.
pub open spec fn file_views(files: Seq<HashedFile>) -> Seq<HashedFileView> {
    files.map_values(|f: HashedFile| f@)
}

/// Why a walk does not make a manifest; `index` is that of the file at fault.
#[derive(Clone, Copy, Debug, PartialEq, Eq, Structural)]
pub enum GenerateError {
    /// The manifest's own URL cannot be formed from the base URL.
    InvalidBase,
    /// The file's path is not a canonical relative path.
    InvalidPath { index: usize },
    /// The file's path cannot be resolved against the base URL.
    UnresolvedPath { index: usize },
    /// An earlier file has the same path.
    DuplicatePath { index: usize },
}

impl GenerateError {
    /// Every such error is a parse error.
    pub fn kind(&self) -> (k: ErrorKind)
        ensures
            k == ErrorKind::Parse,
    {
        ErrorKind::Parse
    }
}

/// The entry that a file becomes: its path and digest, and as source its
/// path resolved against the base URL, which is an absolute URL.
pub open spec fn generated_entry(base: Seq<char>, f: HashedFileView) -> EntryView {
    EntryView { path: f.path, sha512: f.sha512, source: resolved_url(base, f.path).unwrap() }
}

/// The entries that the files become, in their order; the manifest file is
/// left out.
pub open spec fn generated_entries(base: Seq<char>, files: Seq<HashedFileView>) -> Seq<EntryView>
    decreases files.len(),
{
    if files.len() == 0 {
        Seq::empty()
    } else if files.last().path == manifest_file() {
        generated_entries(base, files.drop_last())
    } else {
        generated_entries(base, files.drop_last()).push(generated_entry(base, files.last()))
    }
}

/// A file before index `i` has the path of file `i`.
pub open spec fn file_repeats_earlier(files: Seq<HashedFileView>, i: int) -> bool {
    exists|j: int| 0 <= j < i && #[trigger] files[j].path == files[i].path
}

/// What keeps file `i` out of the manifest, if anything; nothing is wrong
/// with the manifest file, which is passed over.
pub open spec fn generate_violation_at(
    base: Seq<char>,
    files: Seq<HashedFileView>,
    i: int,
) -> Option<GenerateError> {
    if files[i].path == manifest_file() {
        None
    } else if !is_canonical_path(files[i].path) {
        Some(GenerateError::InvalidPath { index: i as usize })
    } else if resolved_url(base, files[i].path) is None {
        Some(GenerateError::UnresolvedPath { index: i as usize })
    } else if file_repeats_earlier(files, i) {
        Some(GenerateError::DuplicatePath { index: i as usize })
    } else {
        None
    }
}

/// The violation of the first file at or behind `from` that has one.
pub open spec fn first_generate_violation(
    base: Seq<char>,
    files: Seq<HashedFileView>,
    from: int,
) -> Option<GenerateError>
    decreases files.len() - from,
{
    if from < 0 || from >= files.len() {
        None
    } else if generate_violation_at(base, files, from) is Some {
        generate_violation_at(base, files, from)
    } else {
        first_generate_violation(base, files, from + 1)
    }
}

/// Why the files make no manifest below `base`, if they make none.
pub open spec fn generate_failure(base: Seq<char>, files: Seq<HashedFileView>) -> Option<
    GenerateError,
> {
    if resolved_url(base, manifest_file()) is None {
        Some(GenerateError::InvalidBase)
    } else {
        first_generate_violation(base, files, 0)
    }
}

/// Where no file from `from` up to `k` has a violation and file `k` has one,
/// that one is the first.
proof fn lemma_first_generate_violation_found(
    base: Seq<char>,
    files: Seq<HashedFileView>,
    from: int,
    k: int,
)
    requires
        0 <= from <= k < files.len(),
        forall|i: int| from <= i < k ==> generate_violation_at(base, files, i) is None,
        generate_violation_at(base, files, k) is Some,
    ensures
        first_generate_violation(base, files, from) == generate_violation_at(base, files, k),
    decreases k - from,
{
    if from < k {
        lemma_first_generate_violation_found(base, files, from + 1, k);
    }
}

/// Where no file from `from` on has a violation, there is no first one.
proof fn lemma_no_generate_violation(base: Seq<char>, files: Seq<HashedFileView>, from: int)
    requires
        0 <= from,
        forall|i: int| from <= i < files.len() ==> generate_violation_at(base, files, i) is None,
    ensures
        first_generate_violation(base, files, from) is None,
    decreases files.len() - from,
{
    if from < files.len() {
        lemma_no_generate_violation(base, files, from + 1);
    }
}

/// Whether a file before index `i` has the path of file `i`.
fn file_path_repeats(files: &Vec<HashedFile>, i: usize) -> (repeats: bool)
    requires
        i < files.len(),
    ensures
        repeats == file_repeats_earlier(file_views(files@), i as int),
{
    let ghost fv = file_views(files@);
    let mut j: usize = 0;
    while j < i
        invariant
            j <= i < files.len(),
            fv == file_views(files@),
            forall|k: int| 0 <= k < j ==> #[trigger] fv[k].path != fv[i as int].path,
        decreases i - j,
    {
        if files[j].path == files[i].path {
            assert(fv[j as int].path == fv[i as int].path);
            return true;
        }
        j = j + 1;
    }
    false
}

/// Entry `j` has the path of one of the first `i` files.
spec fn drawn_from(
    es: Seq<EntryView>,
    files: Seq<HashedFileView>,
    i: int,
    j: int,
) -> bool {
    exists|k: int| 0 <= k < i && #[trigger] files[k].path == es[j].path
}

/// Assembles the manifest of a tree from the files that its walk found.
///
/// Each file becomes an entry whose source is its path resolved against
/// `base_url`; the manifest file itself is passed over; the manifest's own
/// source is `comstar.json` resolved against `base_url`.
pub fn generate_manifest(base_url: &str, generated_at: Timestamp, files: &Vec<HashedFile>) -> (r:
    Result<Manifest, GenerateError>)
    ensures
        match r {
            Ok(m) => {
                &&& generate_failure(base_url@, file_views(files@)) is None
                &&& m@ == (ManifestView {
                    source: resolved_url(base_url@, manifest_file()).unwrap(),
                    generated_at,
                    entries: generated_entries(base_url@, file_views(files@)),
                })
            },
            Err(e) => generate_failure(base_url@, file_views(files@)) == Some(e),
        },
{
    let ghost base = base_url@;
    let ghost fv = file_views(files@);
    let source = match resolve_url(base_url, "comstar.json") {
        Some(u) => u,
        None => {
            return Err(GenerateError::InvalidBase);
        },
    };
    let mut entries: Vec<ManifestEntry> = Vec::new();
    let mut i: usize = 0;
    assert(fv.take(0) == Seq::<HashedFileView>::empty());
    while i < files.len()
        invariant
            i <= files.len(),
            base == base_url@,
            fv == file_views(files@),
            resolved_url(base, manifest_file()) == Some(source@),
            entries_sourced(entry_views(entries@)),
            forall|k: int| 0 <= k < i ==> generate_violation_at(base, fv, k) is None,
            entry_views(entries@) == generated_entries(base, fv.take(i as int)),
            entries_canonical(entry_views(entries@)),
            paths_distinct(entry_views(entries@)),
            excludes_manifest_file(entry_views(entries@)),
            forall|j: int|
                0 <= j < entries.len() ==> #[trigger] drawn_from(
                    entry_views(entries@),
                    fv,
                    i as int,
                    j,
                ),
        decreases files.len() - i,
    {
        let file = &files[i];
        let ghost old_es = entry_views(entries@);
        assert(fv[i as int] == file@);
        assert(fv.take(i + 1).drop_last() == fv.take(i as int));
        assert(fv.take(i + 1).last() == fv[i as int]);
        if walker_admits(file.path.as_str()) {
            let path = match RelPath::new(file.path.as_str()) {
                Some(p) => p,
                None => {
                    proof {
                        lemma_first_generate_violation_found(base, fv, 0, i as int);
                    }
                    return Err(GenerateError::InvalidPath { index: i });
                },
            };
            let entry_source = match resolve_url(base_url, file.path.as_str()) {
                Some(u) => u,
                None => {
                    proof {
                        lemma_first_generate_violation_found(base, fv, 0, i as int);
                    }
                    return Err(GenerateError::UnresolvedPath { index: i });
                },
            };
            if file_path_repeats(files, i) {
                proof {
                    lemma_first_generate_violation_found(base, fv, 0, i as int);
                }
                return Err(GenerateError::DuplicatePath { index: i });
            }
            let _ = file.sha512.as_str();
            let entry = ManifestEntry { path, sha512: file.sha512.clone(), source: entry_source };
            assert(entry@ == generated_entry(base, fv[i as int]));
            entries.push(entry);
            proof {
                let es = entry_views(entries@);
                assert(es =~= old_es.push(generated_entry(base, fv[i as int])));
                assert forall|j: int| 0 <= j < es.len() implies #[trigger] drawn_from(
                    es,
                    fv,
                    i + 1,
                    j,
                ) by {
                    if j < old_es.len() {
                        assert(drawn_from(old_es, fv, i as int, j));
                        let k = choose|k: int|
                            0 <= k < i && #[trigger] fv[k].path == old_es[j].path;
                        assert(fv[k].path == es[j].path);
                    } else {
                        assert(fv[i as int].path == es[j].path);
                    }
                }
                assert forall|a: int, b: int|
                    0 <= a < es.len() && 0 <= b < es.len() && a != b implies #[trigger] es[a].path
                    != #[trigger] es[b].path by {
                    if a < old_es.len() && b < old_es.len() {
                        assert(old_es[a].path != old_es[b].path);
                    } else {
                        let older = if a < old_es.len() {
                            a
                        } else {
                            b
                        };
                        assert(drawn_from(old_es, fv, i as int, older));
                        let k = choose|k: int|
                            0 <= k < i && #[trigger] fv[k].path == old_es[older].path;
                        if fv[k].path == fv[i as int].path {
                            assert(file_repeats_earlier(fv, i as int));
                        }
                    }
                }
            }
        } else {
            proof {
                let es = entry_views(entries@);
                assert forall|j: int| 0 <= j < es.len() implies #[trigger] drawn_from(
                    es,
                    fv,
                    i + 1,
                    j,
                ) by {
                    assert(drawn_from(es, fv, i as int, j));
                    let k = choose|k: int| 0 <= k < i && #[trigger] fv[k].path == es[j].path;
                    assert(fv[k].path == es[j].path);
                }
            }
        }
        i = i + 1;
    }
    assert(fv.take(i as int) == fv);
    proof {
        lemma_no_generate_violation(base, fv, 0);
    }
    Ok(Manifest::from_parts(source, generated_at, entries))
}

} // verus!
