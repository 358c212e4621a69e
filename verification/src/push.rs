//! Publishing a tree to a bucket: which objects to upload and which to
//! delete.

use vstd::prelude::*;
use crate::manifest::{
    entry_views, find_entry, has_path, lemma_lookup, manifest_file, manifest_path, EntryView,
    Manifest, ManifestEntry,
};
use crate::paths::{extension_of, RelPath};
use crate::validate::digest_at;

verus! {

/// The media type that `mime_guess` lists first for a file extension; none
/// where it lists none.
pub uninterp spec fn mime_for_extension(ext: Seq<char>) -> Option<Seq<char>>;

/// `mime_guess::from_ext` and `MimeGuess::first`: the first media type that
/// the crate's table has for `ext`, as text; nothing where the table has no
/// row for it.
#[verifier::external_body]
fn guess_mime(ext: &str) -> (mime: Option<String>)
    ensures
        match mime {
            Some(m) => mime_for_extension(ext@) == Some(m@),
            None => mime_for_extension(ext@) is None,
        },
{
    match mime_guess::from_ext(ext).first() {
        Some(m) => Some(m.to_string()),
        None => None,
    }
}

/// The media type of an object whose type is not known.
pub open spec fn default_content_type() -> Seq<char> {
    "application/octet-stream"@
}

/// The content type of an object, given the media type guessed for it.
pub open spec fn content_type_of(guess: Option<Seq<char>>) -> Seq<char> {
    match guess {
        Some(m) => m,
        None => default_content_type(),
    }
}

/// The media type guessed for the object at `path`: that of its extension.
pub open spec fn mime_of_path(path: Seq<char>) -> Option<Seq<char>> {
    match extension_of(path) {
        Some(ext) => mime_for_extension(ext),
        None => None,
    }
}

/// The content type for a guess: the guess, or the default where there is
/// none.
pub fn content_type_or_default(guess: Option<String>) -> (t: String)
    ensures
        t@ == content_type_of(
            match guess {
                Some(m) => Some(m@),
                None => None,
            },
        ),
{
    match guess {
        Some(m) => m,
        None => "application/octet-stream".to_owned(),
    }
}

/// The content type of the object at `path`.
pub fn content_type_for(path: &RelPath) -> (t: String)
    ensures
        t@ == content_type_of(mime_of_path(path@)),
{
    match path.extension() {
        Some(ext) => content_type_or_default(guess_mime(ext.as_str())),
        None => content_type_or_default(None),
    }
}

/// What the object store is told about an uploaded object.
#[derive(Debug, PartialEq, Eq)]
pub struct ObjectMeta {
    pub bucket: String,
    pub name: String,
    pub content_encoding: String,
    pub content_type: String,
}

/// The mathematical value of an [`ObjectMeta`].
pub struct ObjectMetaView {
    pub bucket: Seq<char>,
    pub name: Seq<char>,
    pub content_encoding: Seq<char>,
    pub content_type: Seq<char>,
}

impl View for ObjectMeta {
    type V = ObjectMetaView;

    open spec fn view(&self) -> ObjectMetaView {
        ObjectMetaView {
            bucket: self.bucket@,
            name: self.name@,
            content_encoding: self.content_encoding@,
            content_type: self.content_type@,
        }
    }
}

/// The description of an object that is uploaded through a gzip encoder.
pub open spec fn meta_of(bucket: Seq<char>, name: Seq<char>, content_type: Seq<char>)
    -> ObjectMetaView {
    ObjectMetaView { bucket, name, content_encoding: "gzip"@, content_type }
}

/// Describes the object `name` of `bucket`: its content is gzip-encoded.
pub fn make_meta(bucket: &str, name: &str, content_type: String) -> (meta: ObjectMeta)
    ensures
        meta@ == meta_of(bucket@, name@, content_type@),
{
    ObjectMeta {
        bucket: bucket.to_owned(),
        name: name.to_owned(),
        content_encoding: "gzip".to_owned(),
        content_type,
    }
}

/// One request to the object store.
#[derive(Debug, PartialEq, Eq)]
pub enum PushAction {
    /// Stream the file at `local_file` below the tree's root through a gzip
    /// encoder into the object that `meta` describes.
    Upload { meta: ObjectMeta, local_file: RelPath },
    /// Remove the object `object` of `bucket`.
    Delete { bucket: String, object: RelPath },
}

/// The mathematical value of a [`PushAction`].
pub enum PushActionView {
    Upload { meta: ObjectMetaView, local_file: Seq<char> },
    Delete { bucket: Seq<char>, object: Seq<char> },
}

impl View for PushAction {
    type V = PushActionView;

    open spec fn view(&self) -> PushActionView {
        match self {
            PushAction::Upload { meta, local_file } => PushActionView::Upload {
                meta: meta@,
                local_file: local_file@,
            },
            PushAction::Delete { bucket, object } => PushActionView::Delete {
                bucket: bucket@,
                object: object@,
            },
        }
    }
}

/// The upload of `local_file` as the object `object` of `bucket`.
pub open spec fn upload_of(bucket: Seq<char>, object: Seq<char>, local_file: Seq<char>)
    -> PushActionView {
    PushActionView::Upload {
        meta: meta_of(bucket, object, content_type_of(mime_of_path(local_file))),
        local_file,
    }
}

/// The request that uploads `local_file` as the object `object` of `bucket`;
/// the content type goes by the extension of `local_file`.
pub fn upload_object(bucket: &str, object: &RelPath, local_file: &RelPath) -> (a: PushAction)
    ensures
        a@ == upload_of(bucket@, object@, local_file@),
{
    let content_type = content_type_for(local_file);
    PushAction::Upload {
        meta: make_meta(bucket, object.as_str(), content_type),
        local_file: local_file.clone(),
    }
}

/// The request that removes the object `object` of `bucket`.
pub fn delete_object(bucket: &str, object: &RelPath) -> (a: PushAction)
    ensures
        a@ == (PushActionView::Delete { bucket: bucket@, object: object@ }),
{
    PushAction::Delete { bucket: bucket.to_owned(), object: object.clone() }
}

/// What a push does about one path of the tree.
#[derive(Debug, PartialEq, Eq)]
pub enum ManifestDiff {
    /// The file is new or has changed: upload it.
    Update(RelPath),
    /// The file is gone from the tree: delete its object.
    Delete(RelPath),
}

/// The mathematical value of a [`ManifestDiff`].
pub enum ManifestDiffView {
    Update(Seq<char>),
    Delete(Seq<char>),
}

impl View for ManifestDiff {
    type V = ManifestDiffView;

    open spec fn view(&self) -> ManifestDiffView {
        match self {
            ManifestDiff::Update(p) => ManifestDiffView::Update(p@),
            ManifestDiff::Delete(p) => ManifestDiffView::Delete(p@),
        }
    }
}

/// The values of a run of diffs.
pub open spec fn diff_views(ds: Seq<ManifestDiff>) -> Seq<ManifestDiffView> {
    ds.map_values(|d: ManifestDiff| d@)
}

/// Whether the file of `entry` must be uploaded: it must unless the remote
/// manifest has its path with the same digest.
pub open spec fn needs_upload(entry: EntryView, remote: Option<Seq<EntryView>>) -> bool {
    match remote {
        Some(r) => digest_at(r, entry.path) != Some(entry.sha512),
        None => true,
    }
}

/// An update for each local entry that must be uploaded, in their order.
pub open spec fn push_updates(local: Seq<EntryView>, remote: Option<Seq<EntryView>>) -> Seq<
    ManifestDiffView,
>
    decreases local.len(),
{
    if local.len() == 0 {
        Seq::empty()
    } else {
        let rest = push_updates(local.drop_last(), remote);
        if needs_upload(local.last(), remote) {
            rest.push(ManifestDiffView::Update(local.last().path))
        } else {
            rest
        }
    }
}

/// A delete for each remote entry whose path the tree no longer has, in
/// their order.
pub open spec fn push_deletes(remote: Seq<EntryView>, local: Seq<EntryView>) -> Seq<
    ManifestDiffView,
>
    decreases remote.len(),
{
    if remote.len() == 0 {
        Seq::empty()
    } else {
        let rest = push_deletes(remote.drop_last(), local);
        if has_path(local, remote.last().path) {
            rest
        } else {
            rest.push(ManifestDiffView::Delete(remote.last().path))
        }
    }
}

/// What a push changes: the updates, then the deletes; without a remote
/// manifest everything is uploaded and nothing is deleted.
pub open spec fn push_differences(local: Seq<EntryView>, remote: Option<Seq<EntryView>>) -> Seq<
    ManifestDiffView,
> {
    match remote {
        Some(r) => push_updates(local, remote) + push_deletes(r, local),
        None => push_updates(local, remote),
    }
}

/// The values of the entries of a manifest that may be absent.
pub open spec fn remote_entries(remote: Option<&Manifest>) -> Option<Seq<EntryView>> {
    match remote {
        Some(m) => Some(m@.entries),
        None => None,
    }
}

/// Compares the manifest of the tree with that of the bucket.
///
/// A file that the bucket lacks or has with another digest is updated; an
/// object whose file is gone from the tree is deleted. Where the bucket has
/// no manifest, every file is updated.
pub fn diff_manifests(local: &Manifest, remote: Option<&Manifest>) -> (ds: Vec<ManifestDiff>)
    ensures
        diff_views(ds@) == push_differences(local@.entries, remote_entries(remote)),
{
    let entries = local.entries();
    let ghost l = entry_views(entries@);
    let ghost r = remote_entries(remote);
    let mut ds: Vec<ManifestDiff> = Vec::new();
    let mut i: usize = 0;
    assert(l.take(0) == Seq::<EntryView>::empty());
    while i < entries.len()
        invariant
            i <= entries.len(),
            l == entry_views(entries@),
            r == remote_entries(remote),
            diff_views(ds@) == push_updates(l.take(i as int), r),
        decreases entries.len() - i,
    {
        let entry = &entries[i];
        let ghost before = diff_views(ds@);
        assert(l[i as int] == entry@);
        assert(l.take(i + 1).drop_last() == l.take(i as int));
        assert(l.take(i + 1).last() == l[i as int]);
        let unchanged = match remote {
            Some(m) => match find_entry(m.entries(), entry.path.as_str()) {
                Some(e) => e.sha512.equals(&entry.sha512),
                None => false,
            },
            None => false,
        };
        if !unchanged {
            ds.push(ManifestDiff::Update(entry.path.clone()));
            assert(diff_views(ds@) =~= before.push(ManifestDiffView::Update(entry.path@)));
        }
        i = i + 1;
    }
    assert(l.take(i as int) == l);
    match remote {
        Some(m) => {
            let others = m.entries();
            let ghost o = entry_views(others@);
            let ghost start = diff_views(ds@);
            let mut k: usize = 0;
            assert(o.take(0) == Seq::<EntryView>::empty());
            assert(start + Seq::<ManifestDiffView>::empty() == start);
            while k < others.len()
                invariant
                    k <= others.len(),
                    l == entry_views(entries@),
                    o == entry_views(others@),
                    diff_views(ds@) == start + push_deletes(o.take(k as int), l),
                decreases others.len() - k,
            {
                let entry = &others[k];
                let ghost before = diff_views(ds@);
                assert(o[k as int] == entry@);
                assert(o.take(k + 1).drop_last() == o.take(k as int));
                assert(o.take(k + 1).last() == o[k as int]);
                proof {
                    lemma_lookup(l, entry.path@);
                }
                if find_entry(entries, entry.path.as_str()).is_none() {
                    ds.push(ManifestDiff::Delete(entry.path.clone()));
                    assert(diff_views(ds@) =~= before.push(
                        ManifestDiffView::Delete(entry.path@),
                    ));
                    assert(diff_views(ds@) =~= start + push_deletes(o.take(k + 1), l));
                }
                k = k + 1;
            }
            assert(o.take(k as int) == o);
        },
        None => {},
    }
    ds
}

/// One item of work: the name under which its progress is shown, and the
/// request.
#[derive(Debug, PartialEq, Eq)]
pub struct PushStep {
    pub name: String,
    pub action: PushAction,
}

/// The mathematical value of a [`PushStep`].
pub struct PushStepView {
    pub name: Seq<char>,
    pub action: PushActionView,
}

impl View for PushStep {
    type V = PushStepView;

    open spec fn view(&self) -> PushStepView {
        PushStepView { name: self.name@, action: self.action@ }
    }
}

/// The values of a run of steps.
pub open spec fn push_step_views(steps: Seq<PushStep>) -> Seq<PushStepView> {
    steps.map_values(|s: PushStep| s@)
}

/// The key of the object for `path`: `path` below the prefix, if there is
/// one.
pub open spec fn object_key(prefix: Option<Seq<char>>, path: Seq<char>) -> Seq<char> {
    match prefix {
        Some(p) => p + seq!['/'] + path,
        None => path,
    }
}

/// The step for a diff. The object's key serves as its name. The prefix is
/// a place in the bucket only: an upload reads the file that lies at the
/// diff's own path below the tree's root.
pub open spec fn push_step_of(d: ManifestDiffView, bucket: Seq<char>, prefix: Option<Seq<char>>)
    -> PushStepView {
    match d {
        ManifestDiffView::Update(path) => PushStepView {
            name: object_key(prefix, path),
            action: upload_of(bucket, object_key(prefix, path), path),
        },
        ManifestDiffView::Delete(path) => PushStepView {
            name: object_key(prefix, path),
            action: PushActionView::Delete { bucket, object: object_key(prefix, path) },
        },
    }
}

/// The steps for the diffs, one each, in their order.
pub open spec fn push_steps_of(
    ds: Seq<ManifestDiffView>,
    bucket: Seq<char>,
    prefix: Option<Seq<char>>,
) -> Seq<PushStepView> {
    ds.map_values(|d: ManifestDiffView| push_step_of(d, bucket, prefix))
}

/// The text of a prefix that may be absent.
pub open spec fn prefix_view(prefix: Option<&RelPath>) -> Option<Seq<char>> {
    match prefix {
        Some(p) => Some(p@),
        None => None,
    }
}

/// The key of the object for `path`.
pub fn object_path(prefix: Option<&RelPath>, path: &RelPath) -> (key: RelPath)
    ensures
        key@ == object_key(prefix_view(prefix), path@),
{
    match prefix {
        Some(p) => p.join(path),
        None => path.clone(),
    }
}

/// The step that carries out one diff.
pub fn push_step(d: &ManifestDiff, bucket: &str, prefix: Option<&RelPath>) -> (s: PushStep)
    ensures
        s@ == push_step_of(d@, bucket@, prefix_view(prefix)),
{
    match d {
        ManifestDiff::Update(path) => {
            let key = object_path(prefix, path);
            PushStep { name: key.as_str().to_owned(), action: upload_object(bucket, &key, path) }
        },
        ManifestDiff::Delete(path) => {
            let key = object_path(prefix, path);
            PushStep { name: key.as_str().to_owned(), action: delete_object(bucket, &key) }
        },
    }
}

/// What a push does.
#[derive(Debug, PartialEq, Eq)]
pub struct PushPlan {
    /// One step for each changed or removed file.
    pub steps: Vec<PushStep>,
    /// The upload of the manifest, which comes last, when all steps have
    /// succeeded; none where nothing has changed.
    pub manifest: Option<PushStep>,
}

/// Plans the push of a tree to a bucket.
///
/// The tree's manifest is compared with that of the bucket; each changed
/// file is uploaded and each removed file's object is deleted. The objects
/// lie below the prefix in the bucket; the files are read at their own
/// paths in the tree. The manifest is uploaded if and only if there is such
/// a step.
pub fn push_dir(
    local: &Manifest,
    remote: Option<&Manifest>,
    bucket: &str,
    bucket_prefix: Option<&RelPath>,
) -> (plan: PushPlan)
    ensures
        push_step_views(plan.steps@) == push_steps_of(
            push_differences(local@.entries, remote_entries(remote)),
            bucket@,
            prefix_view(bucket_prefix),
        ),
        match plan.manifest {
            Some(s) => plan.steps@.len() > 0 && s@ == push_step_of(
                ManifestDiffView::Update(manifest_file()),
                bucket@,
                prefix_view(bucket_prefix),
            ),
            None => plan.steps@.len() == 0,
        },
{
    let diffs = diff_manifests(local, remote);
    let ghost dv = diff_views(diffs@);
    let ghost b = bucket@;
    let ghost pre = prefix_view(bucket_prefix);
    let mut steps: Vec<PushStep> = Vec::new();
    let mut i: usize = 0;
    while i < diffs.len()
        invariant
            i <= diffs.len(),
            dv == diff_views(diffs@),
            b == bucket@,
            pre == prefix_view(bucket_prefix),
            steps.len() == i,
            push_step_views(steps@) == push_steps_of(dv.take(i as int), b, pre),
        decreases diffs.len() - i,
    {
        let step = push_step(&diffs[i], bucket, bucket_prefix);
        let ghost before = push_step_views(steps@);
        let ghost sv = step@;
        assert(dv[i as int] == diffs@[i as int]@);
        steps.push(step);
        assert(push_step_views(steps@) =~= before.push(sv));
        assert(push_step_views(steps@) =~= push_steps_of(dv.take(i + 1), b, pre)) by {
            assert forall|k: int| 0 <= k < i + 1 implies push_step_views(steps@)[k]
                == push_steps_of(dv.take(i + 1), b, pre)[k] by {
                if k < i {
                    assert(before[k] == push_steps_of(dv.take(i as int), b, pre)[k]);
                    assert(dv.take(i as int)[k] == dv.take(i + 1)[k]);
                }
            }
        }
        i = i + 1;
    }
    assert(dv.take(i as int) == dv);
    let manifest = if diffs.len() > 0 {
        Some(push_step(&ManifestDiff::Update(manifest_path()), bucket, bucket_prefix))
    } else {
        None
    };
    PushPlan { steps, manifest }
}

} // verus!
