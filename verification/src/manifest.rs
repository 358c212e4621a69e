//! Manifests: the inventory of a directory tree, and how one is checked and
//! assembled.

use vstd::prelude::*;
use crate::digest::{is_canonical_digest, FileDigest};
use crate::error::ErrorKind;
use crate::paths::{bad_component_at, is_canonical_path, RelPath};
use crate::text::str_eq;
use crate::transport::{check_url, is_absolute_url};

verus! {

/// The name of the file that holds a tree's manifest, at the tree's root.
pub open spec fn manifest_file() -> Seq<char> {
    "comstar.json"@
}

/// The name of the manifest file is a canonical path.
pub proof fn lemma_manifest_file_canonical()
    ensures
        is_canonical_path(manifest_file()),
{
    reveal_strlit("comstar.json");
    let p = manifest_file();
    assert(p.len() == 12);
    assert(p[0] == 'c');
    assert forall|i: int| 0 <= i < 12 implies p[i] != '/' by {
        if i == 0 {
        } else if i == 1 {
        } else if i == 2 {
        } else if i == 3 {
        } else if i == 4 {
        } else if i == 5 {
        } else if i == 6 {
        } else if i == 7 {
        } else if i == 8 {
        } else if i == 9 {
        } else if i == 10 {
        } else {
            assert(i == 11);
        }
    }
    assert forall|i: int| 0 <= i <= p.len() implies !bad_component_at(p, i) by {
        if i > 0 {
            assert(p[i - 1] != '/');
        }
    }
}

/// The path of the manifest file.
pub fn manifest_path() -> (p: RelPath)
    ensures
        p@ == manifest_file(),
{
    proof {
        lemma_manifest_file_canonical();
    }
    match RelPath::new("comstar.json") {
        Some(p) => p,
        None => vstd::pervasive::unreached(),
    }
}

/// A moment in UTC: seconds since the epoch and the nanoseconds within the
/// second.
#[derive(Clone, Copy, Debug, PartialEq, Eq, Structural)]
pub struct Timestamp {
    pub secs: i64,
    pub nanos: u32,
}

/// The mathematical value of a manifest entry, checked or not.
pub struct EntryView {
    pub path: Seq<char>,
    pub sha512: Seq<char>,
    pub source: Seq<char>,
}

/// The mathematical value of a manifest, checked or not.
pub struct ManifestView {
    pub source: Seq<char>,
    pub generated_at: Timestamp,
    pub entries: Seq<EntryView>,
}

/// Every entry has a canonical path and a canonical digest.
pub open spec fn entries_canonical(es: Seq<EntryView>) -> bool {
    forall|i: int|
        0 <= i < es.len() ==> is_canonical_path(#[trigger] es[i].path) && is_canonical_digest(
            es[i].sha512,
        )
}

/// The source of every entry is an absolute URL.
pub open spec fn entries_sourced(es: Seq<EntryView>) -> bool {
    forall|i: int| 0 <= i < es.len() ==> is_absolute_url(#[trigger] es[i].source)
}

/// No two entries share a path.
pub open spec fn paths_distinct(es: Seq<EntryView>) -> bool {
    forall|i: int, j: int|
        0 <= i < es.len() && 0 <= j < es.len() && i != j ==> #[trigger] es[i].path
            != #[trigger] es[j].path
}

/// The manifest file is not itself an entry.
pub open spec fn excludes_manifest_file(es: Seq<EntryView>) -> bool {
    forall|i: int| 0 <= i < es.len() ==> #[trigger] es[i].path != manifest_file()
}

impl ManifestView {
    /// What holds of every manifest: its own source and that of every entry
    /// are absolute URLs, every path and digest is canonical, no path occurs
    /// twice, and none is that of the manifest file.
    ///
    /// That an entry's source is its path resolved against the base at which
    /// the tree is published holds of a manifest that was generated; one
    /// that was read does not say what its base was, and its sources are
    /// taken as they stand.
    pub open spec fn wf(self) -> bool {
        &&& is_absolute_url(self.source)
        &&& entries_sourced(self.entries)
        &&& entries_canonical(self.entries)
        &&& paths_distinct(self.entries)
        &&& excludes_manifest_file(self.entries)
    }
}

/// Whether some entry has the path `p`.
pub open spec fn has_path(es: Seq<EntryView>, p: Seq<char>) -> bool {
    exists|i: int| 0 <= i < es.len() && #[trigger] es[i].path == p
}

/// The first entry with the path `p`.
pub open spec fn lookup(es: Seq<EntryView>, p: Seq<char>) -> Option<EntryView>
    decreases es.len(),
{
    if es.len() == 0 {
        None
    } else if es[0].path == p {
        Some(es[0])
    } else {
        lookup(es.drop_first(), p)
    }
}

/// `lookup` finds an entry exactly where some entry has the path, and what it
/// finds has that path and is an entry.
pub proof fn lemma_lookup(es: Seq<EntryView>, p: Seq<char>)
    ensures
        lookup(es, p) is Some <==> has_path(es, p),
        lookup(es, p) matches Some(e) ==> e.path == p && es.contains(e),
    decreases es.len(),
{
    if es.len() == 0 {
    } else if es[0].path == p {
        assert(es.contains(es[0]));
    } else {
        let rest = es.drop_first();
        lemma_lookup(rest, p);
        if has_path(rest, p) {
            let i = choose|i: int| 0 <= i < rest.len() && #[trigger] rest[i].path == p;
            assert(es[i + 1].path == p);
        }
        if has_path(es, p) {
            let i = choose|i: int| 0 <= i < es.len() && #[trigger] es[i].path == p;
            assert(rest[i - 1].path == p);
        }
        if let Some(e) = lookup(rest, p) {
            let i = choose|i: int| 0 <= i < rest.len() && rest[i] == e;
            assert(es[i + 1] == e);
        }
    }
}

/// Where paths are distinct, `lookup` of an entry's path finds that entry.
pub proof fn lemma_lookup_own(es: Seq<EntryView>, i: int)
    requires
        paths_distinct(es),
        0 <= i < es.len(),
    ensures
        lookup(es, es[i].path) == Some(es[i]),
    decreases es.len(),
{
    if i == 0 {
    } else {
        let rest = es.drop_first();
        assert(es[0].path != es[i].path);
        assert forall|a: int, b: int|
            0 <= a < rest.len() && 0 <= b < rest.len() && a != b implies #[trigger] rest[a].path
            != #[trigger] rest[b].path by {
            assert(rest[a] == es[a + 1]);
            assert(rest[b] == es[b + 1]);
        }
        assert(rest[i - 1] == es[i]);
        lemma_lookup_own(rest, i - 1);
    }
}

/// One row of a manifest.
#[derive(Debug, PartialEq, Eq)]
pub struct ManifestEntry {
    /// Where the file lies below the manifest's base.
    pub path: RelPath,
    /// The digest of the file's bytes.
    pub sha512: FileDigest,
    /// The URL from which the file can be fetched. In a manifest it is an
    /// absolute URL; an entry that stands alone may hold any text here, and
    /// a sync fails the item of an entry whose source is no URL.
    pub source: String,
}

impl View for ManifestEntry {
    type V = EntryView;

    open spec fn view(&self) -> EntryView {
        EntryView { path: self.path@, sha512: self.sha512@, source: self.source@ }
    }
}

impl Clone for ManifestEntry {
    fn clone(&self) -> (e: ManifestEntry)
        ensures
            e@ == self@,
    {
        ManifestEntry {
            path: self.path.clone(),
            sha512: self.sha512.clone(),
            source: self.source.clone(),
        }
    }
}

/// The values of a run of entries.
pub open spec fn entry_views(es: Seq<ManifestEntry>) -> Seq<EntryView> {
    es.map_values(|e: ManifestEntry| e@)
}

/// One row of a manifest as it was read, not yet checked.
#[derive(Debug, PartialEq, Eq)]
pub struct RawEntry {
    pub path: String,
    pub sha512: String,
    pub source: String,
}

impl View for RawEntry {
    type V = EntryView;

    open spec fn view(&self) -> EntryView {
        EntryView { path: self.path@, sha512: self.sha512@, source: self.source@ }
    }
}

/// A manifest as it was read, not yet checked.
#[derive(Debug, PartialEq, Eq)]
pub struct RawManifest {
    pub source: String,
    pub generated_at: Timestamp,
    pub entries: Vec<RawEntry>,
}

impl View for RawManifest {
    type V = ManifestView;

    open spec fn view(&self) -> ManifestView {
        ManifestView {
            source: self.source@,
            generated_at: self.generated_at,
            entries: self.entries@.map_values(|e: RawEntry| e@),
        }
    }
}

/// Why the parts do not make a manifest; `index` is that of the entry at
/// fault.
#[derive(Clone, Copy, Debug, PartialEq, Eq, Structural)]
pub enum ManifestError {
    /// The manifest's own source is not an absolute URL.
    InvalidManifestSource,
    /// The path is not a canonical relative path.
    InvalidPath { index: usize },
    /// The path is that of the manifest file.
    ReservedPath { index: usize },
    /// The digest is not 128 lowercase hex digits.
    InvalidDigest { index: usize },
    /// The source is not an absolute URL.
    InvalidSource { index: usize },
    /// An earlier entry has the same path.
    DuplicatePath { index: usize },
}

impl ManifestError {
    /// Every such error is a parse error.
    pub fn kind(&self) -> (k: ErrorKind)
        ensures
            k == ErrorKind::Parse,
    {
        ErrorKind::Parse
    }
}

/// An entry before index `i` has the path of entry `i`.
pub open spec fn repeats_earlier(es: Seq<EntryView>, i: int) -> bool {
    exists|j: int| 0 <= j < i && #[trigger] es[j].path == es[i].path
}

/// What is wrong with entry `i`, if anything: its path, then its digest, then
/// its source, then its place among the entries before it.
pub open spec fn violation_at(es: Seq<EntryView>, i: int) -> Option<ManifestError> {
    if !is_canonical_path(es[i].path) {
        Some(ManifestError::InvalidPath { index: i as usize })
    } else if es[i].path == manifest_file() {
        Some(ManifestError::ReservedPath { index: i as usize })
    } else if !is_canonical_digest(es[i].sha512) {
        Some(ManifestError::InvalidDigest { index: i as usize })
    } else if !is_absolute_url(es[i].source) {
        Some(ManifestError::InvalidSource { index: i as usize })
    } else if repeats_earlier(es, i) {
        Some(ManifestError::DuplicatePath { index: i as usize })
    } else {
        None
    }
}

/// The violation of the first entry at or behind `from` that has one.
pub open spec fn first_violation(es: Seq<EntryView>, from: int) -> Option<ManifestError>
    decreases es.len() - from,
{
    if from < 0 || from >= es.len() {
        None
    } else if violation_at(es, from) is Some {
        violation_at(es, from)
    } else {
        first_violation(es, from + 1)
    }
}

/// Why the parts `m` make no manifest, if they make none: the manifest's
/// own source, then the first entry at fault.
pub open spec fn manifest_violation(m: ManifestView) -> Option<ManifestError> {
    if !is_absolute_url(m.source) {
        Some(ManifestError::InvalidManifestSource)
    } else {
        first_violation(m.entries, 0)
    }
}

/// Parts without a violation are those of a manifest, and the other way
/// round.
pub proof fn lemma_no_violation_is_wf(m: ManifestView)
    ensures
        manifest_violation(m) is None <==> m.wf(),
{
    let es = m.entries;
    lemma_first_violation(es, 0);
    if first_violation(es, 0) is None {
        assert forall|i: int| 0 <= i < es.len() implies is_absolute_url(
            #[trigger] es[i].source,
        ) by {
            assert(violation_at(es, i) is None);
        }
        assert forall|i: int, j: int|
            0 <= i < es.len() && 0 <= j < es.len() && i != j implies #[trigger] es[i].path
            != #[trigger] es[j].path by {
            if es[i].path == es[j].path {
                if i < j {
                    assert(repeats_earlier(es, j));
                    assert(violation_at(es, j) is Some);
                } else {
                    assert(repeats_earlier(es, i));
                    assert(violation_at(es, i) is Some);
                }
            }
        }
        assert forall|i: int| 0 <= i < es.len() implies is_canonical_path(#[trigger] es[i].path)
            && is_canonical_digest(es[i].sha512) by {
            assert(violation_at(es, i) is None);
        }
        assert forall|i: int| 0 <= i < es.len() implies #[trigger] es[i].path
            != manifest_file() by {
            assert(violation_at(es, i) is None);
        }
    }
    if m.wf() {
        assert forall|i: int| 0 <= i < es.len() implies violation_at(es, i) is None by {
            assert(is_canonical_path(es[i].path));
            assert(es[i].path != manifest_file());
            assert(is_absolute_url(es[i].source));
            if repeats_earlier(es, i) {
                let j = choose|j: int| 0 <= j < i && #[trigger] es[j].path == es[i].path;
                assert(false);
            }
        }
    }
}

/// `first_violation` is none exactly where no entry from `from` on has a
/// violation; otherwise it is the violation of the first that has one.
pub proof fn lemma_first_violation(es: Seq<EntryView>, from: int)
    requires
        0 <= from,
    ensures
        first_violation(es, from) is None <==> (forall|i: int|
            from <= i < es.len() ==> violation_at(es, i) is None),
        first_violation(es, from) is Some ==> exists|k: int|
            from <= k < es.len() && first_violation(es, from) == violation_at(es, k) && (forall|
                i: int,
            |
                from <= i < k ==> violation_at(es, i) is None),
    decreases es.len() - from,
{
    if from >= es.len() {
    } else if violation_at(es, from) is Some {
        assert(first_violation(es, from) == violation_at(es, from));
    } else {
        lemma_first_violation(es, from + 1);
        if first_violation(es, from + 1) is Some {
            let k = choose|k: int|
                from + 1 <= k < es.len() && first_violation(es, from + 1) == violation_at(es, k)
                    && (forall|i: int| from + 1 <= i < k ==> violation_at(es, i) is None);
            assert(from <= k < es.len() && first_violation(es, from) == violation_at(es, k) && (
            forall|i: int| from <= i < k ==> violation_at(es, i) is None));
        }
        assert forall|i: int| from <= i < es.len() && first_violation(es, from + 1) is None
            implies violation_at(es, i) is None by {
            if i == from {
            }
        }
    }
}

/// Where no entry from `from` up to `k` has a violation and entry `k` has
/// one, that one is the first.
pub proof fn lemma_first_violation_found(es: Seq<EntryView>, from: int, k: int)
    requires
        0 <= from <= k < es.len(),
        forall|i: int| from <= i < k ==> violation_at(es, i) is None,
        violation_at(es, k) is Some,
    ensures
        first_violation(es, from) == violation_at(es, k),
    decreases k - from,
{
    if from < k {
        lemma_first_violation_found(es, from + 1, k);
    }
}

/// The inventory of a directory tree at a point in time.
#[derive(Debug, PartialEq, Eq)]
pub struct Manifest {
    source: String,
    generated_at: Timestamp,
    entries: Vec<ManifestEntry>,
}

impl View for Manifest {
    type V = ManifestView;

    closed spec fn view(&self) -> ManifestView {
        ManifestView {
            source: self.source@,
            generated_at: self.generated_at,
            entries: entry_views(self.entries@),
        }
    }
}

/// Whether one of the first `upto` entries has the path `path`.
fn path_taken(entries: &Vec<ManifestEntry>, upto: usize, path: &RelPath) -> (taken: bool)
    requires
        upto <= entries.len(),
    ensures
        taken == (exists|j: int|
            0 <= j < upto && #[trigger] entry_views(entries@)[j].path == path@),
{
    let mut j: usize = 0;
    while j < upto
        invariant
            j <= upto <= entries.len(),
            forall|k: int| 0 <= k < j ==> #[trigger] entry_views(entries@)[k].path != path@,
        decreases upto - j,
    {
        if entries[j].path.equals(path) {
            assert(entry_views(entries@)[j as int].path == path@);
            return true;
        }
        j = j + 1;
    }
    false
}

impl Manifest {
    /// Every manifest has absolute URLs as sources and canonical entries
    /// with distinct paths, none of them the manifest file.
    #[verifier::type_invariant]
    pub open spec fn inv(&self) -> bool {
        self@.wf()
    }

    /// The manifest with the given parts, where they make one.
    pub fn new(source: String, generated_at: Timestamp, entries: Vec<ManifestEntry>) -> (r: Result<
        Manifest,
        ManifestError,
    >)
        ensures
            match r {
                Ok(m) => m@ == (ManifestView {
                    source: source@,
                    generated_at,
                    entries: entry_views(entries@),
                }) && manifest_violation(m@) is None,
                Err(e) => manifest_violation(
                    ManifestView { source: source@, generated_at, entries: entry_views(entries@) },
                ) == Some(e),
            },
    {
        let ghost es = entry_views(entries@);
        if !check_url(source.as_str()) {
            return Err(ManifestError::InvalidManifestSource);
        }
        let mut i: usize = 0;
        while i < entries.len()
            invariant
                i <= entries.len(),
                es == entry_views(entries@),
                is_absolute_url(source@),
                forall|k: int| 0 <= k < i ==> violation_at(es, k) is None,
            decreases entries.len() - i,
        {
            let path = entries[i].path.as_str();
            let _ = entries[i].sha512.as_str();
            assert(es[i as int] == entries@[i as int]@);
            if str_eq(path, "comstar.json") {
                proof {
                    lemma_first_violation_found(es, 0, i as int);
                }
                return Err(ManifestError::ReservedPath { index: i });
            }
            if !check_url(entries[i].source.as_str()) {
                proof {
                    lemma_first_violation_found(es, 0, i as int);
                }
                return Err(ManifestError::InvalidSource { index: i });
            }
            if path_taken(&entries, i, &entries[i].path) {
                proof {
                    assert(repeats_earlier(es, i as int));
                    lemma_first_violation_found(es, 0, i as int);
                }
                return Err(ManifestError::DuplicatePath { index: i });
            }
            assert(violation_at(es, i as int) is None) by {
                if repeats_earlier(es, i as int) {
                    let j = choose|j: int| 0 <= j < i && #[trigger] es[j].path == es[i as int].path;
                    assert(false);
                }
            }
            i = i + 1;
        }
        proof {
            lemma_first_violation(es, 0);
            lemma_no_violation_is_wf(
                ManifestView { source: source@, generated_at, entries: es },
            );
        }
        Ok(Manifest { source, generated_at, entries })
    }

    /// The manifest with the given parts, which are known to make one.
    pub(crate) fn from_parts(
        source: String,
        generated_at: Timestamp,
        entries: Vec<ManifestEntry>,
    ) -> (m: Manifest)
        requires
            (ManifestView { source: source@, generated_at, entries: entry_views(entries@) }).wf(),
        ensures
            m@ == (ManifestView { source: source@, generated_at, entries: entry_views(entries@) }),
    {
        Manifest { source, generated_at, entries }
    }

    /// The manifest that `raw` describes, where it describes one.
    pub fn parse(raw: &RawManifest) -> (r: Result<Manifest, ManifestError>)
        ensures
            match r {
                Ok(m) => manifest_violation(raw@) is None && m@ == raw@,
                Err(e) => manifest_violation(raw@) == Some(e),
            },
    {
        let ghost es = raw@.entries;
        if !check_url(raw.source.as_str()) {
            return Err(ManifestError::InvalidManifestSource);
        }
        let mut entries: Vec<ManifestEntry> = Vec::new();
        let mut i: usize = 0;
        while i < raw.entries.len()
            invariant
                i <= raw.entries.len(),
                es == raw@.entries,
                is_absolute_url(raw@.source),
                entries.len() == i,
                entry_views(entries@) == es.take(i as int),
                forall|k: int| 0 <= k < i ==> violation_at(es, k) is None,
            decreases raw.entries.len() - i,
        {
            let item = &raw.entries[i];
            assert(es[i as int] == item@);
            let path = match RelPath::new(item.path.as_str()) {
                Some(p) => p,
                None => {
                    proof {
                        lemma_first_violation_found(es, 0, i as int);
                    }
                    return Err(ManifestError::InvalidPath { index: i });
                },
            };
            if str_eq(item.path.as_str(), "comstar.json") {
                proof {
                    lemma_first_violation_found(es, 0, i as int);
                }
                return Err(ManifestError::ReservedPath { index: i });
            }
            let sha512 = match FileDigest::new(item.sha512.as_str()) {
                Some(d) => d,
                None => {
                    proof {
                        lemma_first_violation_found(es, 0, i as int);
                    }
                    return Err(ManifestError::InvalidDigest { index: i });
                },
            };
            if !check_url(item.source.as_str()) {
                proof {
                    lemma_first_violation_found(es, 0, i as int);
                }
                return Err(ManifestError::InvalidSource { index: i });
            }
            let taken = path_taken(&entries, i, &path);
            proof {
                if taken {
                    let j = choose|j: int|
                        0 <= j < i && #[trigger] entry_views(entries@)[j].path == path@;
                    assert(es.take(i as int)[j] == es[j]);
                    assert(repeats_earlier(es, i as int));
                }
                if repeats_earlier(es, i as int) {
                    let j = choose|j: int| 0 <= j < i && #[trigger] es[j].path == es[i as int].path;
                    assert(es.take(i as int)[j] == es[j]);
                    assert(entry_views(entries@)[j].path == path@);
                }
            }
            if taken {
                proof {
                    lemma_first_violation_found(es, 0, i as int);
                }
                return Err(ManifestError::DuplicatePath { index: i });
            }
            let entry = ManifestEntry { path, sha512, source: item.source.clone() };
            assert(entry@ == es[i as int]);
            entries.push(entry);
            assert(entry_views(entries@) =~= es.take(i + 1));
            i = i + 1;
        }
        assert(es.take(i as int) == es);
        proof {
            lemma_first_violation(es, 0);
            lemma_no_violation_is_wf(raw@);
        }
        Ok(Manifest { source: raw.source.clone(), generated_at: raw.generated_at, entries })
    }

    /// The URL at which this manifest lies.
    pub fn source(&self) -> (s: &str)
        ensures
            s@ == self@.source,
    {
        self.source.as_str()
    }

    /// When the manifest was assembled.
    pub fn generated_at(&self) -> (t: Timestamp)
        ensures
            t == self@.generated_at,
    {
        self.generated_at
    }

    /// The entries, in the order of the walk that found them.
    pub fn entries(&self) -> (es: &Vec<ManifestEntry>)
        ensures
            entry_views(es@) == self@.entries,
            self@.wf(),
    {
        proof {
            use_type_invariant(self);
        }
        &self.entries
    }

    /// The number of entries.
    pub fn len(&self) -> (n: usize)
        ensures
            n == self@.entries.len(),
    {
        self.entries.len()
    }

    /// The entry for `path`, if there is one.
    pub fn find(&self, path: &str) -> (found: Option<&ManifestEntry>)
        ensures
            match found {
                Some(e) => lookup(self@.entries, path@) == Some(e@),
                None => lookup(self@.entries, path@) is None,
            },
    {
        find_entry(&self.entries, path)
    }
}

/// The first of `entries` with the path `path`.
pub fn find_entry<'a>(entries: &'a Vec<ManifestEntry>, path: &str) -> (found: Option<
    &'a ManifestEntry,
>)
    ensures
        match found {
            Some(e) => lookup(entry_views(entries@), path@) == Some(e@),
            None => lookup(entry_views(entries@), path@) is None,
        },
{
    let ghost es = entry_views(entries@);
    let mut i: usize = 0;
    assert(es.skip(0) == es);
    while i < entries.len()
        invariant
            i <= entries.len(),
            es == entry_views(entries@),
            lookup(es, path@) == lookup(es.skip(i as int), path@),
        decreases entries.len() - i,
    {
        let ghost rest = es.skip(i as int);
        assert(rest[0] == es[i as int]);
        assert(rest.drop_first() == es.skip(i + 1));
        if str_eq(entries[i].path.as_str(), path) {
            return Some(&entries[i]);
        }
        i = i + 1;
    }
    None
}

impl Clone for Manifest {
    fn clone(&self) -> (m: Manifest)
        ensures
            m@ == self@,
    {
        proof {
            use_type_invariant(self);
        }
        let mut entries: Vec<ManifestEntry> = Vec::new();
        let mut i: usize = 0;
        while i < self.entries.len()
            invariant
                i <= self.entries.len(),
                entries.len() == i,
                entry_views(entries@) == entry_views(self.entries@).take(i as int),
            decreases self.entries.len() - i,
        {
            entries.push(self.entries[i].clone());
            assert(entry_views(entries@) =~= entry_views(self.entries@).take(i + 1));
            i = i + 1;
        }
        assert(entry_views(self.entries@).take(i as int) == entry_views(self.entries@));
        Manifest { source: self.source.clone(), generated_at: self.generated_at, entries }
    }
}

/// What came back when a manifest was asked for.
#[derive(Debug, PartialEq, Eq)]
pub enum ManifestReply {
    /// There is nothing at the manifest's place: a 404, or no such file.
    Absent,
    /// What is there is not a manifest document.
    Malformed,
    /// The document that is there.
    Document(RawManifest),
}

/// What a reply yields: an absent manifest is no error, a malformed one and
/// one whose entries break a rule are parse errors.
pub open spec fn manifest_of_reply(reply: ManifestReply) -> Result<Option<ManifestView>, ErrorKind> {
    match reply {
        ManifestReply::Absent => Ok(None),
        ManifestReply::Malformed => Err(ErrorKind::Parse),
        ManifestReply::Document(raw) => if manifest_violation(raw@) is None {
            Ok(Some(raw@))
        } else {
            Err(ErrorKind::Parse)
        },
    }
}

/// The manifest that a reply holds, none where the manifest is absent.
pub fn get_manifest(reply: &ManifestReply) -> (r: Result<Option<Manifest>, ErrorKind>)
    ensures
        match r {
            Ok(Some(m)) => manifest_of_reply(*reply) == Ok::<Option<ManifestView>, ErrorKind>(
                Some(m@),
            ),
            Ok(None) => manifest_of_reply(*reply) == Ok::<Option<ManifestView>, ErrorKind>(None),
            Err(e) => manifest_of_reply(*reply) == Err::<Option<ManifestView>, ErrorKind>(e),
        },
{
    match reply {
        ManifestReply::Absent => Ok(None),
        ManifestReply::Malformed => Err(ErrorKind::Parse),
        ManifestReply::Document(raw) => match Manifest::parse(raw) {
            Ok(m) => Ok(Some(m)),
            Err(e) => Err(e.kind()),
        },
    }
}

/// The manifest that a command cannot do without: a missing one is fatal.
pub fn require_manifest(manifest: Option<Manifest>) -> (r: Result<Manifest, ErrorKind>)
    ensures
        match manifest {
            Some(m) => r == Ok::<Manifest, ErrorKind>(m),
            None => r == Err::<Manifest, ErrorKind>(ErrorKind::RemoteManifestMissing),
        },
{
    match manifest {
        Some(m) => Ok(m),
        None => Err(ErrorKind::RemoteManifestMissing),
    }
}

} // verus!
