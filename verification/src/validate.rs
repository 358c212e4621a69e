//! The differences between a manifest and a tree, and between two manifests.

use vstd::prelude::*;
use crate::digest::FileDigest;
use crate::error::ErrorKind;
use crate::generate::{file_views, HashedFile, HashedFileView};
use crate::manifest::{
    entry_views, find_entry, has_path, lemma_lookup, lookup, manifest_file, EntryView, Manifest,
    ManifestEntry,
};
use crate::paths::{is_canonical_path, RelPath};
use crate::text::str_eq;
use crate::walker::walker_admits;

verus! {

/// What is wrong with one file.
#[derive(Debug, PartialEq, Eq)]
pub enum DifferenceType {
    /// The manifest has the file, the tree does not.
    FileMissing(ManifestEntry),
    /// Both have the file, with different digests.
    HashMismatch { upstream: ManifestEntry, local: FileDigest },
    /// The tree has the file, the manifest does not.
    UnknownFile,
}

/// The mathematical value of a [`DifferenceType`].
pub enum DifferenceTypeView {
    FileMissing(EntryView),
    HashMismatch { upstream: EntryView, local: Seq<char> },
    UnknownFile,
}

impl View for DifferenceType {
    type V = DifferenceTypeView;

    open spec fn view(&self) -> DifferenceTypeView {
        match self {
            DifferenceType::FileMissing(e) => DifferenceTypeView::FileMissing(e@),
            DifferenceType::HashMismatch { upstream, local } => DifferenceTypeView::HashMismatch {
                upstream: upstream@,
                local: local@,
            },
            DifferenceType::UnknownFile => DifferenceTypeView::UnknownFile,
        }
    }
}

impl Clone for DifferenceType {
    fn clone(&self) -> (t: DifferenceType)
        ensures
            t@ == self@,
    {
        match self {
            DifferenceType::FileMissing(e) => DifferenceType::FileMissing(e.clone()),
            DifferenceType::HashMismatch { upstream, local } => DifferenceType::HashMismatch {
                upstream: upstream.clone(),
                local: local.clone(),
            },
            DifferenceType::UnknownFile => DifferenceType::UnknownFile,
        }
    }
}

/// One difference: the file's path and what is wrong with it.
#[derive(Debug, PartialEq, Eq)]
pub struct ValidationDifference {
    pub ty: DifferenceType,
    pub path: RelPath,
}

/// The mathematical value of a [`ValidationDifference`].
pub struct DifferenceView {
    pub ty: DifferenceTypeView,
    pub path: Seq<char>,
}

impl View for ValidationDifference {
    type V = DifferenceView;

    open spec fn view(&self) -> DifferenceView {
        DifferenceView { ty: self.ty@, path: self.path@ }
    }
}

impl Clone for ValidationDifference {
    fn clone(&self) -> (d: ValidationDifference)
        ensures
            d@ == self@,
    {
        ValidationDifference { ty: self.ty.clone(), path: self.path.clone() }
    }
}

/// The values of a run of differences.
pub open spec fn difference_views(ds: Seq<ValidationDifference>) -> Seq<DifferenceView> {
    ds.map_values(|d: ValidationDifference| d@)
}

/// The difference that says the file of `entry` is missing.
pub open spec fn missing_view(entry: EntryView) -> DifferenceView {
    DifferenceView { ty: DifferenceTypeView::FileMissing(entry), path: entry.path }
}

/// The difference that says the file of `upstream` has the digest `local`.
pub open spec fn mismatch_view(upstream: EntryView, local: Seq<char>) -> DifferenceView {
    DifferenceView {
        ty: DifferenceTypeView::HashMismatch { upstream, local },
        path: upstream.path,
    }
}

/// The difference that says no entry knows the file at `path`.
pub open spec fn unknown_view(path: Seq<char>) -> DifferenceView {
    DifferenceView { ty: DifferenceTypeView::UnknownFile, path }
}

impl ValidationDifference {
    /// The file at `path`, which `entry` describes, is missing.
    pub fn missing(path: RelPath, entry: ManifestEntry) -> (d: ValidationDifference)
        ensures
            d@ == (DifferenceView { ty: DifferenceTypeView::FileMissing(entry@), path: path@ }),
    {
        ValidationDifference { ty: DifferenceType::FileMissing(entry), path }
    }

    /// The file at `path` has the digest `local`, not that of `upstream`.
    pub fn hash_mismatch(path: RelPath, upstream: ManifestEntry, local: FileDigest) -> (d:
        ValidationDifference)
        ensures
            d@ == (DifferenceView {
                ty: DifferenceTypeView::HashMismatch { upstream: upstream@, local: local@ },
                path: path@,
            }),
    {
        ValidationDifference { ty: DifferenceType::HashMismatch { upstream, local }, path }
    }

    /// No entry knows the file at `path`.
    pub fn unknown_file(path: RelPath) -> (d: ValidationDifference)
        ensures
            d@ == unknown_view(path@),
    {
        ValidationDifference { ty: DifferenceType::UnknownFile, path }
    }
}

/// What is wrong with the file of `entry`, given the digest of the local
/// file, if there is a local file: missing without one, a mismatch where the
/// digests differ, nothing where they agree.
pub open spec fn entry_difference(entry: EntryView, local: Option<Seq<char>>) -> Option<
    DifferenceView,
> {
    match local {
        None => Some(missing_view(entry)),
        Some(d) => if d != entry.sha512 {
            Some(mismatch_view(entry, d))
        } else {
            None
        },
    }
}

/// Compares one entry with what was found at its place in the tree.
pub fn check_entry(entry: &ManifestEntry, local: Option<&FileDigest>) -> (d: Option<
    ValidationDifference,
>)
    ensures
        match d {
            Some(x) => entry_difference(
                entry@,
                match local {
                    Some(l) => Some(l@),
                    None => None,
                },
            ) == Some(x@),
            None => entry_difference(
                entry@,
                match local {
                    Some(l) => Some(l@),
                    None => None,
                },
            ) is None,
        },
{
    match local {
        None => Some(ValidationDifference::missing(entry.path.clone(), entry.clone())),
        Some(l) => {
            if !l.equals(&entry.sha512) {
                Some(
                    ValidationDifference::hash_mismatch(
                        entry.path.clone(),
                        entry.clone(),
                        l.clone(),
                    ),
                )
            } else {
                None
            }
        },
    }
}

/// The digest of the entry for `path`, if there is one.
pub open spec fn digest_at(es: Seq<EntryView>, path: Seq<char>) -> Option<Seq<char>> {
    match lookup(es, path) {
        Some(e) => Some(e.sha512),
        None => None,
    }
}

/// The differences of the entries of `authority` against `other`, in the
/// order of `authority`.
pub open spec fn authority_differences(authority: Seq<EntryView>, other: Seq<EntryView>) -> Seq<
    DifferenceView,
>
    decreases authority.len(),
{
    if authority.len() == 0 {
        Seq::empty()
    } else {
        let rest = authority_differences(authority.drop_last(), other);
        match entry_difference(authority.last(), digest_at(other, authority.last().path)) {
            Some(d) => rest.push(d),
            None => rest,
        }
    }
}

/// An unknown-file difference for each of `paths` that `known` has no entry
/// for, in the order of `paths`.
pub open spec fn unknown_differences(paths: Seq<Seq<char>>, known: Seq<EntryView>) -> Seq<
    DifferenceView,
>
    decreases paths.len(),
{
    if paths.len() == 0 {
        Seq::empty()
    } else {
        let rest = unknown_differences(paths.drop_last(), known);
        if has_path(known, paths.last()) {
            rest
        } else {
            rest.push(unknown_view(paths.last()))
        }
    }
}

/// The paths of the entries.
pub open spec fn entry_paths(es: Seq<EntryView>) -> Seq<Seq<char>> {
    es.map_values(|e: EntryView| e.path)
}

/// The differences between two manifests: what `authority` has and `other`
/// lacks or has otherwise, and, under `force`, what only `other` has.
pub open spec fn manifest_differences(
    authority: Seq<EntryView>,
    other: Seq<EntryView>,
    force: bool,
) -> Seq<DifferenceView> {
    if force {
        authority_differences(authority, other) + unknown_differences(
            entry_paths(other),
            authority,
        )
    } else {
        authority_differences(authority, other)
    }
}

/// Compares the entries of `authority` with those of `other`.
fn compare_entries(authority: &Vec<ManifestEntry>, other: &Vec<ManifestEntry>) -> (ds: Vec<
    ValidationDifference,
>)
    ensures
        difference_views(ds@) == authority_differences(
            entry_views(authority@),
            entry_views(other@),
        ),
{
    let ghost a = entry_views(authority@);
    let ghost o = entry_views(other@);
    let mut ds: Vec<ValidationDifference> = Vec::new();
    let mut i: usize = 0;
    assert(a.take(0) == Seq::<EntryView>::empty());
    while i < authority.len()
        invariant
            i <= authority.len(),
            a == entry_views(authority@),
            o == entry_views(other@),
            difference_views(ds@) == authority_differences(a.take(i as int), o),
        decreases authority.len() - i,
    {
        let entry = &authority[i];
        let ghost before = difference_views(ds@);
        assert(a[i as int] == entry@);
        assert(a.take(i + 1).drop_last() == a.take(i as int));
        assert(a.take(i + 1).last() == a[i as int]);
        let found = find_entry(other, entry.path.as_str());
        let local = match found {
            Some(e) => Some(&e.sha512),
            None => None,
        };
        match check_entry(entry, local) {
            Some(d) => {
                ds.push(d);
                assert(difference_views(ds@) =~= before.push(d@));
            },
            None => {},
        }
        i = i + 1;
    }
    assert(a.take(i as int) == a);
    ds
}

/// Adds to `ds` an unknown-file difference for each entry of `other` that
/// `authority` has no entry for.
fn push_unknown_entries(
    ds: &mut Vec<ValidationDifference>,
    other: &Vec<ManifestEntry>,
    authority: &Vec<ManifestEntry>,
)
    ensures
        difference_views(final(ds)@) == difference_views(old(ds)@) + unknown_differences(
            entry_paths(entry_views(other@)),
            entry_views(authority@),
        ),
{
    let ghost a = entry_views(authority@);
    let ghost paths = entry_paths(entry_views(other@));
    let ghost start = difference_views(ds@);
    let mut i: usize = 0;
    assert(paths.take(0) == Seq::<Seq<char>>::empty());
    assert(start + Seq::<DifferenceView>::empty() == start);
    while i < other.len()
        invariant
            i <= other.len(),
            a == entry_views(authority@),
            paths == entry_paths(entry_views(other@)),
            difference_views(ds@) == start + unknown_differences(paths.take(i as int), a),
        decreases other.len() - i,
    {
        let entry = &other[i];
        let ghost before = difference_views(ds@);
        assert(paths[i as int] == entry.path@);
        assert(paths.take(i + 1).drop_last() == paths.take(i as int));
        assert(paths.take(i + 1).last() == paths[i as int]);
        proof {
            lemma_lookup(a, entry.path@);
        }
        if find_entry(authority, entry.path.as_str()).is_none() {
            ds.push(ValidationDifference::unknown_file(entry.path.clone()));
            assert(difference_views(ds@) =~= before.push(unknown_view(entry.path@)));
            assert(difference_views(ds@) =~= start + unknown_differences(paths.take(i + 1), a));
        }
        i = i + 1;
    }
    assert(paths.take(i as int) == paths);
}

/// The differences between the manifest `authority` and the manifest `other`
/// of the tree that is to match it; none where the tree has no manifest.
///
/// An entry that `other` lacks is missing; one that it has with another
/// digest is a mismatch; under `force`, one that only `other` has is unknown.
pub fn diff_manifests(authority: &Manifest, other: Option<&Manifest>, force: bool) -> (r: Option<
    Vec<ValidationDifference>,
>)
    ensures
        match (r, other) {
            (Some(ds), Some(o)) => difference_views(ds@) == manifest_differences(
                authority@.entries,
                o@.entries,
                force,
            ),
            (None, None) => true,
            _ => false,
        },
{
    match other {
        None => None,
        Some(o) => {
            let mut ds = compare_entries(authority.entries(), o.entries());
            if force {
                push_unknown_entries(&mut ds, o.entries(), authority.entries());
            }
            Some(ds)
        },
    }
}

/// The digest of the first of `files` at `path`.
pub open spec fn local_digest(files: Seq<HashedFileView>, path: Seq<char>) -> Option<Seq<char>>
    decreases files.len(),
{
    if files.len() == 0 {
        None
    } else if files[0].path == path {
        Some(files[0].sha512)
    } else {
        local_digest(files.drop_first(), path)
    }
}

/// The digest of the first of `files` at `path`.
pub fn find_local<'a>(files: &'a Vec<HashedFile>, path: &str) -> (found: Option<&'a FileDigest>)
    ensures
        match found {
            Some(d) => local_digest(file_views(files@), path@) == Some(d@),
            None => local_digest(file_views(files@), path@) is None,
        },
{
    let ghost fv = file_views(files@);
    let mut i: usize = 0;
    assert(fv.skip(0) == fv);
    while i < files.len()
        invariant
            i <= files.len(),
            fv == file_views(files@),
            local_digest(fv, path@) == local_digest(fv.skip(i as int), path@),
        decreases files.len() - i,
    {
        let ghost rest = fv.skip(i as int);
        assert(rest[0] == fv[i as int]);
        assert(rest.drop_first() == fv.skip(i + 1));
        if str_eq(files[i].path.as_str(), path) {
            return Some(&files[i].sha512);
        }
        i = i + 1;
    }
    None
}

/// The differences of the entries against the files found in the tree, in
/// the order of the entries.
pub open spec fn tree_differences(entries: Seq<EntryView>, found: Seq<HashedFileView>) -> Seq<
    DifferenceView,
>
    decreases entries.len(),
{
    if entries.len() == 0 {
        Seq::empty()
    } else {
        let rest = tree_differences(entries.drop_last(), found);
        match entry_difference(entries.last(), local_digest(found, entries.last().path)) {
            Some(d) => rest.push(d),
            None => rest,
        }
    }
}

/// Every path of the walk is canonical.
pub open spec fn walk_canonical(walked: Seq<Seq<char>>) -> bool {
    forall|i: int| 0 <= i < walked.len() ==> is_canonical_path(#[trigger] walked[i])
}

/// An unknown-file difference for each file of the walk that no entry knows,
/// in the order of the walk; the manifest file is passed over.
pub open spec fn untracked_differences(walked: Seq<Seq<char>>, entries: Seq<EntryView>) -> Seq<
    DifferenceView,
>
    decreases walked.len(),
{
    if walked.len() == 0 {
        Seq::empty()
    } else {
        let rest = untracked_differences(walked.drop_last(), entries);
        if walked.last() == manifest_file() || has_path(entries, walked.last()) {
            rest
        } else {
            rest.push(unknown_view(walked.last()))
        }
    }
}

/// The differences between a manifest and a tree: for each entry what is
/// wrong with its file, and, under `force`, the files that no entry knows.
pub open spec fn validation_differences(
    entries: Seq<EntryView>,
    found: Seq<HashedFileView>,
    force: bool,
    walked: Seq<Seq<char>>,
) -> Seq<DifferenceView> {
    if force {
        tree_differences(entries, found) + untracked_differences(walked, entries)
    } else {
        tree_differences(entries, found)
    }
}

/// The texts of a run of strings.
pub open spec fn string_views(v: Seq<String>) -> Seq<Seq<char>> {
    v.map_values(|s: String| s@)
}

/// Compares a manifest with its tree.
///
/// `found` holds the files of the entries that exist in the tree, each with
/// the digest of its contents: an entry without one is missing. `walked`
/// holds the paths of all files of the tree and is read under `force` only:
/// then each file that no entry knows is reported, and a path that is not
/// canonical is a parse error.
pub fn verify_manifest(
    manifest: &Manifest,
    found: &Vec<HashedFile>,
    force: bool,
    walked: &Vec<String>,
) -> (r: Result<Vec<ValidationDifference>, ErrorKind>)
    ensures
        match r {
            Ok(ds) => {
                &&& force ==> walk_canonical(string_views(walked@))
                &&& difference_views(ds@) == validation_differences(
                    manifest@.entries,
                    file_views(found@),
                    force,
                    string_views(walked@),
                )
            },
            Err(e) => e == ErrorKind::Parse && force && !walk_canonical(string_views(walked@)),
        },
{
    let entries = manifest.entries();
    let ghost es = entry_views(entries@);
    let ghost fv = file_views(found@);
    let ghost wv = string_views(walked@);
    let mut ds: Vec<ValidationDifference> = Vec::new();
    let mut i: usize = 0;
    assert(es.take(0) == Seq::<EntryView>::empty());
    while i < entries.len()
        invariant
            i <= entries.len(),
            es == entry_views(entries@),
            fv == file_views(found@),
            difference_views(ds@) == tree_differences(es.take(i as int), fv),
        decreases entries.len() - i,
    {
        let entry = &entries[i];
        let ghost before = difference_views(ds@);
        assert(es[i as int] == entry@);
        assert(es.take(i + 1).drop_last() == es.take(i as int));
        assert(es.take(i + 1).last() == es[i as int]);
        match check_entry(entry, find_local(found, entry.path.as_str())) {
            Some(d) => {
                ds.push(d);
                assert(difference_views(ds@) =~= before.push(d@));
            },
            None => {},
        }
        i = i + 1;
    }
    assert(es.take(i as int) == es);
    if force {
        let ghost start = difference_views(ds@);
        let mut k: usize = 0;
        assert(wv.take(0) == Seq::<Seq<char>>::empty());
        assert(start + Seq::<DifferenceView>::empty() == start);
        while k < walked.len()
            invariant
                k <= walked.len(),
                force,
                es == entry_views(entries@),
                wv == string_views(walked@),
                forall|j: int| 0 <= j < k ==> is_canonical_path(#[trigger] wv[j]),
                difference_views(ds@) == start + untracked_differences(wv.take(k as int), es),
            decreases walked.len() - k,
        {
            let text = walked[k].as_str();
            let ghost before = difference_views(ds@);
            assert(wv[k as int] == text@);
            assert(wv.take(k + 1).drop_last() == wv.take(k as int));
            assert(wv.take(k + 1).last() == wv[k as int]);
            let path = match RelPath::new(text) {
                Some(p) => p,
                None => {
                    assert(!is_canonical_path(wv[k as int]));
                    return Err(ErrorKind::Parse);
                },
            };
            proof {
                lemma_lookup(es, text@);
            }
            if walker_admits(text) && find_entry(entries, text).is_none() {
                ds.push(ValidationDifference::unknown_file(path));
                assert(difference_views(ds@) =~= before.push(unknown_view(text@)));
                assert(difference_views(ds@) =~= start + untracked_differences(
                    wv.take(k + 1),
                    es,
                ));
            }
            k = k + 1;
        }
        assert(wv.take(k as int) == wv);
    }
    Ok(ds)
}

/// How many differences of each kind a report holds.
#[derive(Clone, Copy, Debug, PartialEq, Eq, Structural)]
pub struct DifferenceCounts {
    /// Files that the manifest has and the tree lacks.
    pub missing: usize,
    /// Files whose digest is not that of the manifest.
    pub desynced: usize,
    /// Files that the manifest does not know.
    pub untracked: usize,
}

/// The number of missing files among `ds`.
pub open spec fn count_missing(ds: Seq<DifferenceView>) -> nat
    decreases ds.len(),
{
    if ds.len() == 0 {
        0
    } else {
        count_missing(ds.drop_last()) + if ds.last().ty is FileMissing {
            1nat
        } else {
            0nat
        }
    }
}

/// The number of digest mismatches among `ds`.
pub open spec fn count_desynced(ds: Seq<DifferenceView>) -> nat
    decreases ds.len(),
{
    if ds.len() == 0 {
        0
    } else {
        count_desynced(ds.drop_last()) + if ds.last().ty is HashMismatch {
            1nat
        } else {
            0nat
        }
    }
}

/// The number of unknown files among `ds`.
pub open spec fn count_untracked(ds: Seq<DifferenceView>) -> nat
    decreases ds.len(),
{
    if ds.len() == 0 {
        0
    } else {
        count_untracked(ds.drop_last()) + if ds.last().ty is UnknownFile {
            1nat
        } else {
            0nat
        }
    }
}

/// The three counts add up to the number of differences.
pub proof fn lemma_counts_add_up(ds: Seq<DifferenceView>)
    ensures
        count_missing(ds) + count_desynced(ds) + count_untracked(ds) == ds.len(),
    decreases ds.len(),
{
    if ds.len() > 0 {
        lemma_counts_add_up(ds.drop_last());
    }
}

/// Counts the differences by kind.
pub fn summarize(ds: &Vec<ValidationDifference>) -> (c: DifferenceCounts)
    ensures
        c.missing == count_missing(difference_views(ds@)),
        c.desynced == count_desynced(difference_views(ds@)),
        c.untracked == count_untracked(difference_views(ds@)),
{
    let ghost dv = difference_views(ds@);
    let mut c = DifferenceCounts { missing: 0, desynced: 0, untracked: 0 };
    let mut i: usize = 0;
    assert(dv.take(0) == Seq::<DifferenceView>::empty());
    while i < ds.len()
        invariant
            i <= ds.len(),
            dv == difference_views(ds@),
            c.missing == count_missing(dv.take(i as int)),
            c.desynced == count_desynced(dv.take(i as int)),
            c.untracked == count_untracked(dv.take(i as int)),
        decreases ds.len() - i,
    {
        assert(dv[i as int] == ds@[i as int]@);
        assert(dv.take(i + 1).drop_last() == dv.take(i as int));
        assert(dv.take(i + 1).last() == dv[i as int]);
        proof {
            lemma_counts_add_up(dv.take(i as int));
        }
        match &ds[i].ty {
            DifferenceType::FileMissing(_) => {
                c.missing = c.missing + 1;
            },
            DifferenceType::HashMismatch { .. } => {
                c.desynced = c.desynced + 1;
            },
            DifferenceType::UnknownFile => {
                c.untracked = c.untracked + 1;
            },
        }
        i = i + 1;
    }
    assert(dv.take(i as int) == dv);
    c
}

/// Whether a validation passed: it did where it found no difference.
pub fn validation_passed(ds: &Vec<ValidationDifference>) -> (ok: bool)
    ensures
        ok == (difference_views(ds@).len() == 0),
{
    ds.len() == 0
}

} // verus!
