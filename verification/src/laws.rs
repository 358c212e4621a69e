//! What holds of the library as a whole, proved from the definitions that
//! its contracts use.

use vstd::prelude::*;
use crate::digest::is_canonical_digest;
use crate::generate::{
    first_generate_violation, generate_failure, generate_violation_at, generated_entries,
    generated_entry, HashedFileView,
};
use crate::manifest::{
    has_path, lemma_first_violation, lemma_lookup_own, manifest_file, manifest_violation,
    violation_at, EntryView, ManifestView,
};
use crate::push::{
    needs_upload, object_key, push_deletes, push_differences, push_step_of, push_updates,
    ManifestDiffView, PushActionView,
};
use crate::sync::sync_steps_of;
use crate::validate::{
    authority_differences, digest_at, entry_difference, entry_paths, local_digest,
    manifest_differences, tree_differences, unknown_differences, unknown_view,
    untracked_differences, validation_differences, DifferenceTypeView, DifferenceView,
};

verus! {

/// No entry of a manifest is the manifest file.
pub proof fn law_manifest_excludes_itself(m: ManifestView)
    requires
        m.wf(),
    ensures
        forall|i: int| 0 <= i < m.entries.len() ==> #[trigger] m.entries[i].path != manifest_file(),
{
}

/// No entry that is generated is the manifest file, whatever the walk found.
pub proof fn law_generate_excludes_manifest_file(base: Seq<char>, files: Seq<HashedFileView>)
    ensures
        forall|i: int|
            0 <= i < generated_entries(base, files).len() ==> #[trigger] generated_entries(
                base,
                files,
            )[i].path != manifest_file(),
    decreases files.len(),
{
    if files.len() > 0 {
        law_generate_excludes_manifest_file(base, files.drop_last());
        let rest = generated_entries(base, files.drop_last());
        let all = generated_entries(base, files);
        assert forall|i: int| 0 <= i < all.len() implies #[trigger] all[i].path
            != manifest_file() by {
            if i < rest.len() {
                assert(all[i] == rest[i]);
            }
        }
    }
}

/// Parts of which one entry has a digest that is not 128 lowercase hex
/// digits make no manifest.
pub proof fn law_digest_format_enforced(m: ManifestView, i: int)
    requires
        0 <= i < m.entries.len(),
        !is_canonical_digest(m.entries[i].sha512),
    ensures
        manifest_violation(m) is Some,
{
    lemma_first_violation(m.entries, 0);
    assert(violation_at(m.entries, i) is Some);
}

/// Every update names a local entry that must be uploaded.
proof fn lemma_push_updates_members(
    local: Seq<EntryView>,
    remote: Option<Seq<EntryView>>,
    k: int,
)
    requires
        0 <= k < push_updates(local, remote).len(),
    ensures
        exists|j: int|
            0 <= j < local.len() && needs_upload(#[trigger] local[j], remote) && push_updates(
                local,
                remote,
            )[k] == ManifestDiffView::Update(local[j].path),
    decreases local.len(),
{
    let rest = push_updates(local.drop_last(), remote);
    if k < rest.len() {
        lemma_push_updates_members(local.drop_last(), remote, k);
        let j = choose|j: int|
            0 <= j < local.drop_last().len() && needs_upload(
                #[trigger] local.drop_last()[j],
                remote,
            ) && rest[k] == ManifestDiffView::Update(local.drop_last()[j].path);
        assert(local[j] == local.drop_last()[j]);
    } else {
        assert(needs_upload(local[local.len() - 1], remote));
    }
}

/// A delete is no update.
proof fn lemma_push_deletes_members(remote: Seq<EntryView>, local: Seq<EntryView>, k: int)
    requires
        0 <= k < push_deletes(remote, local).len(),
    ensures
        push_deletes(remote, local)[k] is Delete,
    decreases remote.len(),
{
    let rest = push_deletes(remote.drop_last(), local);
    if k < rest.len() {
        lemma_push_deletes_members(remote.drop_last(), local, k);
    }
}

/// A push uploads no file that has not changed: where the remote manifest
/// has the path of a local entry with the same digest, no update names that
/// path.
pub proof fn law_push_minimal(local: ManifestView, remote: ManifestView, i: int)
    requires
        local.wf(),
        0 <= i < local.entries.len(),
        digest_at(remote.entries, local.entries[i].path) == Some(local.entries[i].sha512),
    ensures
        forall|k: int|
            0 <= k < push_differences(local.entries, Some(remote.entries)).len()
                ==> #[trigger] push_differences(local.entries, Some(remote.entries))[k]
                != ManifestDiffView::Update(local.entries[i].path),
{
    let r = Some(remote.entries);
    let ups = push_updates(local.entries, r);
    let dels = push_deletes(remote.entries, local.entries);
    let all = push_differences(local.entries, r);
    assert forall|k: int| 0 <= k < all.len() implies #[trigger] all[k] != ManifestDiffView::Update(
        local.entries[i].path,
    ) by {
        if k < ups.len() {
            lemma_push_updates_members(local.entries, r, k);
            let j = choose|j: int|
                0 <= j < local.entries.len() && needs_upload(#[trigger] local.entries[j], r)
                    && ups[k] == ManifestDiffView::Update(local.entries[j].path);
            if local.entries[j].path == local.entries[i].path {
                assert(j == i);
            }
        } else {
            lemma_push_deletes_members(remote.entries, local.entries, k - ups.len());
        }
    }
}

/// A prefix is a place in the bucket only: the upload of a changed file
/// writes the object at the file's path below the prefix, and reads the
/// file at its own path in the tree.
pub proof fn law_prefix_is_in_the_bucket_only(
    path: Seq<char>,
    bucket: Seq<char>,
    prefix: Option<Seq<char>>,
)
    ensures
        push_step_of(ManifestDiffView::Update(path), bucket, prefix).action matches PushActionView::Upload {
            meta,
            local_file,
        } && meta.bucket == bucket && meta.name == object_key(prefix, path) && local_file == path,
        prefix matches Some(p) ==> object_key(prefix, path) == p + seq!['/'] + path,
{
}

/// The paths of the unknown files among `ds`, in their order.
pub open spec fn unknown_paths(ds: Seq<DifferenceView>) -> Seq<Seq<char>>
    decreases ds.len(),
{
    if ds.len() == 0 {
        Seq::empty()
    } else if ds.last().ty is UnknownFile {
        unknown_paths(ds.drop_last()).push(ds.last().path)
    } else {
        unknown_paths(ds.drop_last())
    }
}

/// The files of the walk that the manifest does not know, in the order of
/// the walk; the manifest file is not one of them.
pub open spec fn extra_paths(walked: Seq<Seq<char>>, entries: Seq<EntryView>) -> Seq<Seq<char>>
    decreases walked.len(),
{
    if walked.len() == 0 {
        Seq::empty()
    } else if walked.last() == manifest_file() || has_path(entries, walked.last()) {
        extra_paths(walked.drop_last(), entries)
    } else {
        extra_paths(walked.drop_last(), entries).push(walked.last())
    }
}

/// The unknown paths of two runs of differences, one behind the other.
proof fn lemma_unknown_paths_add(a: Seq<DifferenceView>, b: Seq<DifferenceView>)
    ensures
        unknown_paths(a + b) == unknown_paths(a) + unknown_paths(b),
    decreases b.len(),
{
    if b.len() == 0 {
        assert(a + b == a);
        assert(unknown_paths(a) + Seq::<Seq<char>>::empty() == unknown_paths(a));
    } else {
        assert((a + b).drop_last() == a + b.drop_last());
        assert((a + b).last() == b.last());
        lemma_unknown_paths_add(a, b.drop_last());
        if b.last().ty is UnknownFile {
            assert((unknown_paths(a) + unknown_paths(b.drop_last())).push(b.last().path)
                == unknown_paths(a) + unknown_paths(b.drop_last()).push(b.last().path));
        }
    }
}

/// The comparison of the entries with the tree reports no unknown file.
proof fn lemma_tree_differences_known(entries: Seq<EntryView>, found: Seq<HashedFileView>)
    ensures
        unknown_paths(tree_differences(entries, found)) == Seq::<Seq<char>>::empty(),
        forall|k: int|
            0 <= k < tree_differences(entries, found).len() ==> !(#[trigger] tree_differences(
                entries,
                found,
            )[k].ty is UnknownFile),
    decreases entries.len(),
{
    if entries.len() > 0 {
        lemma_tree_differences_known(entries.drop_last(), found);
        let rest = tree_differences(entries.drop_last(), found);
        let all = tree_differences(entries, found);
        if all.len() > rest.len() {
            assert(all.drop_last() == rest);
        }
    }
}

/// The search for untracked files reports the extra files, each as unknown.
proof fn lemma_untracked_are_extras(walked: Seq<Seq<char>>, entries: Seq<EntryView>)
    ensures
        unknown_paths(untracked_differences(walked, entries)) == extra_paths(walked, entries),
    decreases walked.len(),
{
    if walked.len() > 0 {
        lemma_untracked_are_extras(walked.drop_last(), entries);
        let rest = untracked_differences(walked.drop_last(), entries);
        let all = untracked_differences(walked, entries);
        if all.len() > rest.len() {
            assert(all.drop_last() == rest);
            assert(all.last() == unknown_view(walked.last()));
        }
    }
}

/// Unknown files are reported under `force` only, and then exactly the
/// files of the tree that the manifest does not know.
pub proof fn law_unknown_requires_force(
    entries: Seq<EntryView>,
    found: Seq<HashedFileView>,
    walked: Seq<Seq<char>>,
)
    ensures
        unknown_paths(validation_differences(entries, found, false, walked)) == Seq::<
            Seq<char>,
        >::empty(),
        forall|k: int|
            0 <= k < validation_differences(entries, found, false, walked).len() ==> !(
            #[trigger] validation_differences(entries, found, false, walked)[k].ty is UnknownFile),
        unknown_paths(validation_differences(entries, found, true, walked)) == extra_paths(
            walked,
            entries,
        ),
{
    lemma_tree_differences_known(entries, found);
    lemma_untracked_are_extras(walked, entries);
    lemma_unknown_paths_add(
        tree_differences(entries, found),
        untracked_differences(walked, entries),
    );
    assert(Seq::<Seq<char>>::empty() + extra_paths(walked, entries) == extra_paths(
        walked,
        entries,
    ));
}

/// The first of `files` at a path is the one that `local_digest` reads.
proof fn lemma_local_digest_first(files: Seq<HashedFileView>, k: int)
    requires
        0 <= k < files.len(),
        forall|j: int| 0 <= j < k ==> #[trigger] files[j].path != files[k].path,
    ensures
        local_digest(files, files[k].path) == Some(files[k].sha512),
    decreases files.len(),
{
    if k > 0 {
        let rest = files.drop_first();
        assert(files[0].path != files[k].path);
        assert(rest[k - 1] == files[k]);
        assert forall|j: int| 0 <= j < k - 1 implies #[trigger] rest[j].path != rest[k - 1].path by {
            assert(rest[j] == files[j + 1]);
        }
        lemma_local_digest_first(rest, k - 1);
    }
}

/// Where the files make a manifest, none of them has a violation.
proof fn lemma_generate_violations_none(base: Seq<char>, files: Seq<HashedFileView>, from: int)
    requires
        0 <= from,
        first_generate_violation(base, files, from) is None,
    ensures
        forall|i: int| from <= i < files.len() ==> generate_violation_at(base, files, i) is None,
    decreases files.len() - from,
{
    if from < files.len() {
        lemma_generate_violations_none(base, files, from + 1);
    }
}

/// Every generated entry is that of a file which is not the manifest file.
proof fn lemma_generated_members(base: Seq<char>, files: Seq<HashedFileView>, j: int)
    requires
        0 <= j < generated_entries(base, files).len(),
    ensures
        exists|k: int|
            0 <= k < files.len() && (#[trigger] files[k]).path != manifest_file()
                && generated_entries(base, files)[j] == generated_entry(base, files[k]),
    decreases files.len(),
{
    let rest = generated_entries(base, files.drop_last());
    if j < rest.len() {
        lemma_generated_members(base, files.drop_last(), j);
        let k = choose|k: int|
            0 <= k < files.drop_last().len() && (#[trigger] files.drop_last()[k]).path
                != manifest_file() && rest[j] == generated_entry(base, files.drop_last()[k]);
        assert(files[k] == files.drop_last()[k]);
    } else {
        assert(files[files.len() - 1].path != manifest_file());
    }
}

/// Every file that is not the manifest file has a generated entry.
proof fn lemma_generated_has_path(base: Seq<char>, files: Seq<HashedFileView>, k: int)
    requires
        0 <= k < files.len(),
        files[k].path != manifest_file(),
    ensures
        has_path(generated_entries(base, files), files[k].path),
    decreases files.len(),
{
    let rest = generated_entries(base, files.drop_last());
    let all = generated_entries(base, files);
    if k < files.len() - 1 {
        lemma_generated_has_path(base, files.drop_last(), k);
        let i = choose|i: int| 0 <= i < rest.len() && #[trigger] rest[i].path == files[k].path;
        assert(all[i].path == files[k].path);
    } else {
        assert(all[all.len() - 1].path == files[k].path);
    }
}

/// Where no entry differs from its file, the comparison with the tree finds
/// nothing.
proof fn lemma_tree_differences_empty(entries: Seq<EntryView>, found: Seq<HashedFileView>)
    requires
        forall|i: int|
            0 <= i < entries.len() ==> entry_difference(
                #[trigger] entries[i],
                local_digest(found, entries[i].path),
            ) is None,
    ensures
        tree_differences(entries, found) == Seq::<DifferenceView>::empty(),
    decreases entries.len(),
{
    if entries.len() > 0 {
        assert forall|i: int| 0 <= i < entries.drop_last().len() implies entry_difference(
            #[trigger] entries.drop_last()[i],
            local_digest(found, entries.drop_last()[i].path),
        ) is None by {
            assert(entries.drop_last()[i] == entries[i]);
        }
        lemma_tree_differences_empty(entries.drop_last(), found);
        assert(entry_difference(
            entries[entries.len() - 1],
            local_digest(found, entries[entries.len() - 1].path),
        ) is None);
    }
}

/// Where the manifest knows every file of the walk but the manifest file,
/// the search for untracked files finds nothing.
proof fn lemma_untracked_empty(walked: Seq<Seq<char>>, entries: Seq<EntryView>)
    requires
        forall|k: int|
            0 <= k < walked.len() ==> #[trigger] walked[k] == manifest_file() || has_path(
                entries,
                walked[k],
            ),
    ensures
        untracked_differences(walked, entries) == Seq::<DifferenceView>::empty(),
    decreases walked.len(),
{
    if walked.len() > 0 {
        assert forall|k: int| 0 <= k < walked.drop_last().len() implies #[trigger] walked.drop_last()[k]
            == manifest_file() || has_path(entries, walked.drop_last()[k]) by {
            assert(walked.drop_last()[k] == walked[k]);
        }
        lemma_untracked_empty(walked.drop_last(), entries);
        assert(walked[walked.len() - 1] == manifest_file() || has_path(
            entries,
            walked[walked.len() - 1],
        ));
    }
}

/// The paths of the files.
pub open spec fn file_paths(files: Seq<HashedFileView>) -> Seq<Seq<char>> {
    files.map_values(|f: HashedFileView| f.path)
}

/// A tree validates against the manifest that was generated from it: where
/// the files of a walk make a manifest, comparing that manifest with the
/// same files finds no difference, with or without `force`.
pub proof fn law_round_trip(base: Seq<char>, files: Seq<HashedFileView>, force: bool)
    requires
        generate_failure(base, files) is None,
    ensures
        validation_differences(
            generated_entries(base, files),
            files,
            force,
            file_paths(files),
        ) == Seq::<DifferenceView>::empty(),
{
    let entries = generated_entries(base, files);
    let walked = file_paths(files);
    lemma_generate_violations_none(base, files, 0);
    assert forall|i: int| 0 <= i < entries.len() implies entry_difference(
        #[trigger] entries[i],
        local_digest(files, entries[i].path),
    ) is None by {
        lemma_generated_members(base, files, i);
        let k = choose|k: int|
            0 <= k < files.len() && (#[trigger] files[k]).path != manifest_file() && entries[i]
                == generated_entry(base, files[k]);
        assert(generate_violation_at(base, files, k) is None);
        lemma_local_digest_first(files, k);
    }
    lemma_tree_differences_empty(entries, files);
    assert forall|k: int| 0 <= k < walked.len() implies #[trigger] walked[k] == manifest_file()
        || has_path(entries, walked[k]) by {
        if files[k].path != manifest_file() {
            lemma_generated_has_path(base, files, k);
        }
    }
    lemma_untracked_empty(walked, entries);
    assert(Seq::<DifferenceView>::empty() + Seq::<DifferenceView>::empty() == Seq::<
        DifferenceView,
    >::empty());
}

/// A tree as a sync sees it: the digest of each file, by the file's path.
pub type Tree = Map<Seq<char>, Seq<char>>;

/// The digest of the file at `path`, if the tree has one there.
pub open spec fn tree_digest(tree: Tree, path: Seq<char>) -> Option<Seq<char>> {
    if tree.contains_key(path) {
        Some(tree[path])
    } else {
        None
    }
}

/// What settling a difference leaves at the difference's path: the file of
/// the entry, whose digest is that of the entry, or no file.
pub open spec fn settled_digest(d: DifferenceView) -> Option<Seq<char>> {
    match d.ty {
        DifferenceTypeView::FileMissing(entry) => Some(entry.sha512),
        DifferenceTypeView::HashMismatch { upstream, local } => Some(upstream.sha512),
        DifferenceTypeView::UnknownFile => None,
    }
}

/// The tree after one difference is settled: a missing or differing file is
/// fetched, an unknown file is deleted.
pub open spec fn apply_difference(tree: Tree, d: DifferenceView) -> Tree {
    match settled_digest(d) {
        Some(digest) => tree.insert(d.path, digest),
        None => tree.remove(d.path),
    }
}

/// The tree after the differences are settled, one after the other.
pub open spec fn apply_differences(tree: Tree, ds: Seq<DifferenceView>) -> Tree
    decreases ds.len(),
{
    if ds.len() == 0 {
        tree
    } else {
        apply_difference(apply_differences(tree, ds.drop_last()), ds.last())
    }
}

/// `found` and `walked` are what a validation reads off the tree: for each
/// entry the digest of the file at its path, and the paths of all files.
pub open spec fn observed(
    tree: Tree,
    entries: Seq<EntryView>,
    found: Seq<HashedFileView>,
    walked: Seq<Seq<char>>,
) -> bool {
    &&& forall|i: int|
        0 <= i < entries.len() ==> local_digest(found, (#[trigger] entries[i]).path) == tree_digest(
            tree,
            entries[i].path,
        )
    &&& forall|p: Seq<char>| #[trigger] walked.contains(p) <==> tree.contains_key(p)
}

/// Where no difference touches `path`, the tree keeps what it has there.
proof fn lemma_apply_untouched(tree: Tree, ds: Seq<DifferenceView>, path: Seq<char>)
    requires
        forall|k: int| 0 <= k < ds.len() ==> (#[trigger] ds[k]).path != path,
    ensures
        tree_digest(apply_differences(tree, ds), path) == tree_digest(tree, path),
    decreases ds.len(),
{
    if ds.len() > 0 {
        let rest = ds.drop_last();
        assert(ds[ds.len() - 1].path != path);
        assert forall|k: int| 0 <= k < rest.len() implies (#[trigger] rest[k]).path != path by {
            assert(rest[k] == ds[k]);
        }
        lemma_apply_untouched(tree, rest, path);
    }
}

/// Where some differences touch `path` and all of them leave `v` there, the
/// tree has `v` there.
proof fn lemma_apply_settled(
    tree: Tree,
    ds: Seq<DifferenceView>,
    path: Seq<char>,
    v: Option<Seq<char>>,
)
    requires
        exists|k: int| 0 <= k < ds.len() && (#[trigger] ds[k]).path == path,
        forall|k: int|
            0 <= k < ds.len() && (#[trigger] ds[k]).path == path ==> settled_digest(ds[k]) == v,
    ensures
        tree_digest(apply_differences(tree, ds), path) == v,
    decreases ds.len(),
{
    let rest = ds.drop_last();
    let last = ds.last();
    if last.path == path {
        assert(ds[ds.len() - 1].path == path);
    } else {
        let k = choose|k: int| 0 <= k < ds.len() && (#[trigger] ds[k]).path == path;
        assert(rest[k] == ds[k]);
        assert forall|j: int|
            0 <= j < rest.len() && (#[trigger] rest[j]).path == path implies settled_digest(
            rest[j],
        ) == v by {
            assert(rest[j] == ds[j]);
        }
        lemma_apply_settled(tree, rest, path, v);
    }
}

/// Every difference that the comparison with the tree finds is that of an
/// entry.
proof fn lemma_tree_differences_members(
    entries: Seq<EntryView>,
    found: Seq<HashedFileView>,
    k: int,
)
    requires
        0 <= k < tree_differences(entries, found).len(),
    ensures
        exists|i: int|
            0 <= i < entries.len() && entry_difference(
                #[trigger] entries[i],
                local_digest(found, entries[i].path),
            ) == Some(tree_differences(entries, found)[k]),
    decreases entries.len(),
{
    let rest = tree_differences(entries.drop_last(), found);
    if k < rest.len() {
        lemma_tree_differences_members(entries.drop_last(), found, k);
        let i = choose|i: int|
            0 <= i < entries.drop_last().len() && entry_difference(
                #[trigger] entries.drop_last()[i],
                local_digest(found, entries.drop_last()[i].path),
            ) == Some(rest[k]);
        assert(entries[i] == entries.drop_last()[i]);
    } else {
        assert(entry_difference(
            entries[entries.len() - 1],
            local_digest(found, entries[entries.len() - 1].path),
        ) == Some(tree_differences(entries, found)[k]));
    }
}

/// The difference of every entry that differs from its file is found.
proof fn lemma_tree_differences_contains(
    entries: Seq<EntryView>,
    found: Seq<HashedFileView>,
    i: int,
)
    requires
        0 <= i < entries.len(),
        entry_difference(entries[i], local_digest(found, entries[i].path)) is Some,
    ensures
        exists|k: int|
            0 <= k < tree_differences(entries, found).len() && Some(
                #[trigger] tree_differences(entries, found)[k],
            ) == entry_difference(entries[i], local_digest(found, entries[i].path)),
    decreases entries.len(),
{
    let rest = tree_differences(entries.drop_last(), found);
    let all = tree_differences(entries, found);
    if i < entries.len() - 1 {
        assert(entries.drop_last()[i] == entries[i]);
        lemma_tree_differences_contains(entries.drop_last(), found, i);
        let k = choose|k: int|
            0 <= k < rest.len() && Some(#[trigger] rest[k]) == entry_difference(
                entries[i],
                local_digest(found, entries[i].path),
            );
        assert(all[k] == rest[k]);
    } else {
        assert(Some(all[all.len() - 1]) == entry_difference(
            entries[i],
            local_digest(found, entries[i].path),
        ));
    }
}

/// Every difference that the search for untracked files finds is that of a
/// file of the walk which the manifest does not know.
proof fn lemma_untracked_members(walked: Seq<Seq<char>>, entries: Seq<EntryView>, k: int)
    requires
        0 <= k < untracked_differences(walked, entries).len(),
    ensures
        exists|w: int|
            0 <= w < walked.len() && #[trigger] walked[w] != manifest_file() && !has_path(
                entries,
                walked[w],
            ) && untracked_differences(walked, entries)[k] == unknown_view(walked[w]),
    decreases walked.len(),
{
    let rest = untracked_differences(walked.drop_last(), entries);
    if k < rest.len() {
        lemma_untracked_members(walked.drop_last(), entries, k);
        let w = choose|w: int|
            0 <= w < walked.drop_last().len() && #[trigger] walked.drop_last()[w]
                != manifest_file() && !has_path(entries, walked.drop_last()[w]) && rest[k]
                == unknown_view(walked.drop_last()[w]);
        assert(walked[w] == walked.drop_last()[w]);
    } else {
        let w = walked.len() - 1;
        assert(walked[w] != manifest_file() && !has_path(entries, walked[w])
            && untracked_differences(walked, entries)[k] == unknown_view(walked[w]));
    }
}

/// Every file of the walk that the manifest does not know is found.
proof fn lemma_untracked_contains(walked: Seq<Seq<char>>, entries: Seq<EntryView>, w: int)
    requires
        0 <= w < walked.len(),
        walked[w] != manifest_file(),
        !has_path(entries, walked[w]),
    ensures
        exists|k: int|
            0 <= k < untracked_differences(walked, entries).len() && #[trigger] untracked_differences(
                walked,
                entries,
            )[k] == unknown_view(walked[w]),
    decreases walked.len(),
{
    let rest = untracked_differences(walked.drop_last(), entries);
    let all = untracked_differences(walked, entries);
    if w < walked.len() - 1 {
        assert(walked.drop_last()[w] == walked[w]);
        lemma_untracked_contains(walked.drop_last(), entries, w);
        let k = choose|k: int| 0 <= k < rest.len() && #[trigger] rest[k] == unknown_view(walked[w]);
        assert(all[k] == rest[k]);
    } else {
        assert(all[all.len() - 1] == unknown_view(walked[w]));
    }
}

/// What a validation finds is either the difference of an entry, at the
/// entry's path and settled by the entry's digest, or, under `force`, an
/// unknown file of the walk that no entry knows.
proof fn lemma_validation_members(
    entries: Seq<EntryView>,
    found: Seq<HashedFileView>,
    force: bool,
    walked: Seq<Seq<char>>,
    k: int,
)
    requires
        0 <= k < validation_differences(entries, found, force, walked).len(),
    ensures
        ({
            let d = validation_differences(entries, found, force, walked)[k];
            ||| exists|i: int|
                0 <= i < entries.len() && (#[trigger] entries[i]).path == d.path && settled_digest(
                    d,
                ) == Some(entries[i].sha512) && local_digest(found, entries[i].path) != Some(
                    entries[i].sha512,
                )
            ||| force && settled_digest(d) is None && d.path != manifest_file() && !has_path(
                entries,
                d.path,
            ) && walked.contains(d.path)
        }),
{
    let td = tree_differences(entries, found);
    let d = validation_differences(entries, found, force, walked)[k];
    if k < td.len() {
        lemma_tree_differences_members(entries, found, k);
        let i = choose|i: int|
            0 <= i < entries.len() && entry_difference(
                #[trigger] entries[i],
                local_digest(found, entries[i].path),
            ) == Some(td[k]);
        assert(entries[i].path == d.path);
    } else {
        lemma_untracked_members(walked, entries, k - td.len());
        let w = choose|w: int|
            0 <= w < walked.len() && #[trigger] walked[w] != manifest_file() && !has_path(
                entries,
                walked[w],
            ) && untracked_differences(walked, entries)[k - td.len()] == unknown_view(walked[w]);
        assert(walked.contains(walked[w]));
    }
}

/// A sync settles the tree: when the differences that a validation found
/// are settled, a second validation finds none, so that a second sync has
/// no step to take and writes no file.
///
/// `tree` is the tree before the first sync, of which `found` and `walked`
/// are read; `found_after` and `walked_after` are read of the tree that the
/// first sync leaves.
pub proof fn law_sync_idempotent(
    m: ManifestView,
    tree: Tree,
    found: Seq<HashedFileView>,
    walked: Seq<Seq<char>>,
    force: bool,
    found_after: Seq<HashedFileView>,
    walked_after: Seq<Seq<char>>,
)
    requires
        m.wf(),
        observed(tree, m.entries, found, walked),
        observed(
            apply_differences(tree, validation_differences(m.entries, found, force, walked)),
            m.entries,
            found_after,
            walked_after,
        ),
    ensures
        validation_differences(m.entries, found_after, force, walked_after) == Seq::<
            DifferenceView,
        >::empty(),
        sync_steps_of(validation_differences(m.entries, found_after, force, walked_after)).len()
            == 0,
{
    let es = m.entries;
    let ds = validation_differences(es, found, force, walked);
    let after = apply_differences(tree, ds);
    assert forall|i: int| 0 <= i < es.len() implies entry_difference(
        #[trigger] es[i],
        local_digest(found_after, es[i].path),
    ) is None by {
        let p = es[i].path;
        let want = Some(es[i].sha512);
        assert forall|k: int| 0 <= k < ds.len() && (#[trigger] ds[k]).path == p implies settled_digest(
            ds[k],
        ) == want by {
            lemma_validation_members(es, found, force, walked, k);
            if exists|j: int|
                0 <= j < es.len() && (#[trigger] es[j]).path == ds[k].path && settled_digest(ds[k])
                    == Some(es[j].sha512) && local_digest(found, es[j].path) != Some(es[j].sha512) {
                let j = choose|j: int|
                    0 <= j < es.len() && (#[trigger] es[j]).path == ds[k].path && settled_digest(
                        ds[k],
                    ) == Some(es[j].sha512) && local_digest(found, es[j].path) != Some(
                        es[j].sha512,
                    );
                assert(j == i);
            } else {
                assert(es[i].path == p);
                assert(has_path(es, p));
            }
        }
        if local_digest(found, p) == want {
            if exists|k: int| 0 <= k < ds.len() && (#[trigger] ds[k]).path == p {
                lemma_apply_settled(tree, ds, p, want);
            } else {
                lemma_apply_untouched(tree, ds, p);
            }
        } else {
            lemma_tree_differences_contains(es, found, i);
            let td = tree_differences(es, found);
            let k = choose|k: int|
                0 <= k < td.len() && Some(#[trigger] td[k]) == entry_difference(
                    es[i],
                    local_digest(found, es[i].path),
                );
            assert(ds[k] == td[k]);
            assert(ds[k].path == p);
            lemma_apply_settled(tree, ds, p, want);
        }
        assert(tree_digest(after, p) == want);
    }
    lemma_tree_differences_empty(es, found_after);
    if force {
        assert forall|w: int| 0 <= w < walked_after.len() implies #[trigger] walked_after[w]
            == manifest_file() || has_path(es, walked_after[w]) by {
            let p = walked_after[w];
            assert(walked_after.contains(p));
            assert(after.contains_key(p));
            if p != manifest_file() && !has_path(es, p) {
                assert forall|k: int|
                    0 <= k < ds.len() && (#[trigger] ds[k]).path == p implies settled_digest(ds[k])
                    == None::<Seq<char>> by {
                    lemma_validation_members(es, found, force, walked, k);
                    if exists|j: int|
                        0 <= j < es.len() && (#[trigger] es[j]).path == ds[k].path {
                        let j = choose|j: int|
                            0 <= j < es.len() && (#[trigger] es[j]).path == ds[k].path;
                        assert(has_path(es, p));
                    }
                }
                if tree.contains_key(p) {
                    assert(walked.contains(p));
                    let x = choose|x: int| 0 <= x < walked.len() && walked[x] == p;
                    lemma_untracked_contains(walked, es, x);
                    let ud = untracked_differences(walked, es);
                    let td = tree_differences(es, found);
                    let k = choose|k: int|
                        0 <= k < ud.len() && #[trigger] ud[k] == unknown_view(walked[x]);
                    assert(ds[td.len() + k] == ud[k]);
                    assert(ds[td.len() + k].path == p);
                    lemma_apply_settled(tree, ds, p, None);
                } else {
                    if exists|k: int| 0 <= k < ds.len() && (#[trigger] ds[k]).path == p {
                        lemma_apply_settled(tree, ds, p, None);
                    } else {
                        lemma_apply_untouched(tree, ds, p);
                    }
                }
                assert(false);
            }
        }
        lemma_untracked_empty(walked_after, es);
        assert(Seq::<DifferenceView>::empty() + Seq::<DifferenceView>::empty() == Seq::<
            DifferenceView,
        >::empty());
    }
}

/// The entries of a manifest do not differ from themselves.
proof fn lemma_authority_differences_self(es: Seq<EntryView>, other: Seq<EntryView>)
    requires
        forall|i: int|
            0 <= i < es.len() ==> digest_at(other, (#[trigger] es[i]).path) == Some(es[i].sha512),
    ensures
        authority_differences(es, other) == Seq::<DifferenceView>::empty(),
    decreases es.len(),
{
    if es.len() > 0 {
        assert forall|i: int| 0 <= i < es.drop_last().len() implies digest_at(
            other,
            (#[trigger] es.drop_last()[i]).path,
        ) == Some(es.drop_last()[i].sha512) by {
            assert(es.drop_last()[i] == es[i]);
        }
        lemma_authority_differences_self(es.drop_last(), other);
        assert(digest_at(other, es[es.len() - 1].path) == Some(es[es.len() - 1].sha512));
    }
}

/// No path of a manifest is unknown to that manifest.
proof fn lemma_unknown_differences_self(paths: Seq<Seq<char>>, known: Seq<EntryView>)
    requires
        forall|i: int| 0 <= i < paths.len() ==> has_path(known, #[trigger] paths[i]),
    ensures
        unknown_differences(paths, known) == Seq::<DifferenceView>::empty(),
    decreases paths.len(),
{
    if paths.len() > 0 {
        assert forall|i: int| 0 <= i < paths.drop_last().len() implies has_path(
            known,
            #[trigger] paths.drop_last()[i],
        ) by {
            assert(paths.drop_last()[i] == paths[i]);
        }
        lemma_unknown_differences_self(paths.drop_last(), known);
        assert(has_path(known, paths[paths.len() - 1]));
    }
}

/// A sync that trusts the tree's copy of the manifest has nothing to do
/// when that copy is the manifest itself, as it is after a sync: a manifest
/// does not differ from itself, with or without `force`.
pub proof fn law_sync_idempotent_trusted(m: ManifestView, force: bool)
    requires
        m.wf(),
    ensures
        manifest_differences(m.entries, m.entries, force) == Seq::<DifferenceView>::empty(),
        sync_steps_of(manifest_differences(m.entries, m.entries, force)).len() == 0,
{
    let es = m.entries;
    assert forall|i: int| 0 <= i < es.len() implies digest_at(es, (#[trigger] es[i]).path) == Some(
        es[i].sha512,
    ) by {
        lemma_lookup_own(es, i);
    }
    lemma_authority_differences_self(es, es);
    let paths = entry_paths(es);
    assert forall|i: int| 0 <= i < paths.len() implies has_path(es, #[trigger] paths[i]) by {
        assert(es[i].path == paths[i]);
    }
    lemma_unknown_differences_self(paths, es);
    assert(Seq::<DifferenceView>::empty() + Seq::<DifferenceView>::empty() == Seq::<
        DifferenceView,
    >::empty());
}

} // verus!
