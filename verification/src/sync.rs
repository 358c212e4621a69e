//! Bringing a tree in line with a manifest: what to fetch and what to delete.

use vstd::prelude::*;
use crate::error::ErrorKind;
use crate::manifest::Manifest;
use crate::paths::{last_component, RelPath};
use crate::transport::{transport_for, transport_of, url_scheme_text, Transport};
use crate::validate::{
    diff_manifests, difference_views, manifest_differences, DifferenceType, DifferenceTypeView,
    DifferenceView, ValidationDifference,
};

verus! {

/// What is done about one difference.
#[derive(Debug, PartialEq, Eq)]
pub enum SyncAction {
    /// GET `source` and write the body to `dest`, replacing what is there.
    Download { source: String, dest: RelPath },
    /// Copy the local file that `source` names to `dest`.
    Copy { source: String, dest: RelPath },
    /// Remove the file at `dest`.
    Delete { dest: RelPath },
    /// Nothing can be done: the item fails with this error when its turn
    /// comes, and the other items still run.
    Fail { error: ErrorKind },
}

/// The mathematical value of a [`SyncAction`].
pub enum SyncActionView {
    Download { source: Seq<char>, dest: Seq<char> },
    Copy { source: Seq<char>, dest: Seq<char> },
    Delete { dest: Seq<char> },
    Fail { error: ErrorKind },
}

impl View for SyncAction {
    type V = SyncActionView;

    open spec fn view(&self) -> SyncActionView {
        match self {
            SyncAction::Download { source, dest } => SyncActionView::Download {
                source: source@,
                dest: dest@,
            },
            SyncAction::Copy { source, dest } => SyncActionView::Copy {
                source: source@,
                dest: dest@,
            },
            SyncAction::Delete { dest } => SyncActionView::Delete { dest: dest@ },
            SyncAction::Fail { error } => SyncActionView::Fail { error: *error },
        }
    }
}

/// One item of work: the name under which its progress is shown, and what
/// is done.
#[derive(Debug, PartialEq, Eq)]
pub struct SyncStep {
    pub name: String,
    pub action: SyncAction,
}

/// The mathematical value of a [`SyncStep`].
pub struct SyncStepView {
    pub name: Seq<char>,
    pub action: SyncActionView,
}

impl View for SyncStep {
    type V = SyncStepView;

    open spec fn view(&self) -> SyncStepView {
        SyncStepView { name: self.name@, action: self.action@ }
    }
}

/// The values of a run of steps.
pub open spec fn step_views(steps: Seq<SyncStep>) -> Seq<SyncStepView> {
    steps.map_values(|s: SyncStep| s@)
}

/// How `source` is brought to `dest`, given the transport that serves
/// `source` or the reason why none does.
pub open spec fn fetch_action_of(
    source: Seq<char>,
    dest: Seq<char>,
    transport: Result<Transport, ErrorKind>,
) -> SyncActionView {
    match transport {
        Ok(Transport::Http) => SyncActionView::Download { source, dest },
        Ok(Transport::File) => SyncActionView::Copy { source, dest },
        Err(error) => SyncActionView::Fail { error },
    }
}

/// How `source` is brought to `dest`.
pub fn get_file(source: &str, dest: &RelPath, transport: Result<Transport, ErrorKind>) -> (a:
    SyncAction)
    ensures
        a@ == fetch_action_of(source@, dest@, transport),
{
    match transport {
        Ok(Transport::Http) => SyncAction::Download {
            source: source.to_owned(),
            dest: dest.clone(),
        },
        Ok(Transport::File) => SyncAction::Copy { source: source.to_owned(), dest: dest.clone() },
        Err(error) => SyncAction::Fail { error },
    }
}

/// What is done about a difference: a missing or differing file is fetched
/// from the source of its entry, an unknown file is deleted.
pub open spec fn sync_action_of(d: DifferenceView) -> SyncActionView {
    match d.ty {
        DifferenceTypeView::FileMissing(entry) => fetch_action_of(
            entry.source,
            d.path,
            transport_of(url_scheme_text(entry.source)),
        ),
        DifferenceTypeView::HashMismatch { upstream, local } => fetch_action_of(
            upstream.source,
            d.path,
            transport_of(url_scheme_text(upstream.source)),
        ),
        DifferenceTypeView::UnknownFile => SyncActionView::Delete { dest: d.path },
    }
}

/// The step for a difference; it is shown under the file's name.
pub open spec fn sync_step_of(d: DifferenceView) -> SyncStepView {
    SyncStepView { name: last_component(d.path), action: sync_action_of(d) }
}

/// The step that settles one difference.
pub fn sync_step(d: &ValidationDifference) -> (s: SyncStep)
    ensures
        s@ == sync_step_of(d@),
{
    let name = d.path.file_name();
    let action = match &d.ty {
        DifferenceType::FileMissing(entry) => get_file(
            entry.source.as_str(),
            &d.path,
            transport_for(entry.source.as_str()),
        ),
        DifferenceType::HashMismatch { upstream, local: _ } => get_file(
            upstream.source.as_str(),
            &d.path,
            transport_for(upstream.source.as_str()),
        ),
        DifferenceType::UnknownFile => SyncAction::Delete { dest: d.path.clone() },
    };
    SyncStep { name, action }
}

/// The differences that a sync works from when it trusts the manifest that
/// the tree holds; none where the tree holds no manifest or where a full
/// validation is asked for, and the tree must then be validated instead.
pub fn trusted_differences(
    target: &Manifest,
    local: Option<&Manifest>,
    force: bool,
    force_validate: bool,
) -> (r: Option<Vec<ValidationDifference>>)
    ensures
        match r {
            Some(ds) => !force_validate && local is Some && difference_views(ds@)
                == manifest_differences(target@.entries, local.unwrap()@.entries, force),
            None => force_validate || local is None,
        },
{
    if force_validate {
        None
    } else {
        diff_manifests(target, local, force)
    }
}

/// What a sync does.
#[derive(Debug, PartialEq, Eq)]
pub struct SyncPlan {
    /// One step for each difference, in their order.
    pub steps: Vec<SyncStep>,
    /// Whether the tree's copy of the manifest is written anew when all
    /// steps have succeeded.
    pub refresh_manifest: bool,
}

/// The steps for the differences, one each, in their order.
pub open spec fn sync_steps_of(ds: Seq<DifferenceView>) -> Seq<SyncStepView> {
    ds.map_values(|d: DifferenceView| sync_step_of(d))
}

/// Plans the sync of a tree from the differences found in it.
///
/// Each difference gets one step. Where there is no difference nothing is
/// done at all: no file is written, and the tree's copy of the manifest is
/// left as it is.
pub fn sync_manifest(differences: &Vec<ValidationDifference>) -> (plan: SyncPlan)
    ensures
        step_views(plan.steps@) == sync_steps_of(difference_views(differences@)),
        plan.refresh_manifest == (differences@.len() > 0),
{
    let ghost dv = difference_views(differences@);
    let mut steps: Vec<SyncStep> = Vec::new();
    let mut i: usize = 0;
    while i < differences.len()
        invariant
            i <= differences.len(),
            dv == difference_views(differences@),
            steps.len() == i,
            step_views(steps@) == sync_steps_of(dv.take(i as int)),
        decreases differences.len() - i,
    {
        let step = sync_step(&differences[i]);
        let ghost before = step_views(steps@);
        let ghost sv = step@;
        assert(dv[i as int] == differences@[i as int]@);
        steps.push(step);
        assert(step_views(steps@) =~= before.push(sv));
        assert(step_views(steps@) =~= sync_steps_of(dv.take(i + 1))) by {
            assert forall|k: int| 0 <= k < i + 1 implies step_views(steps@)[k] == sync_steps_of(
                dv.take(i + 1),
            )[k] by {
                if k < i {
                    assert(before[k] == sync_steps_of(dv.take(i as int))[k]);
                    assert(dv.take(i as int)[k] == dv.take(i + 1)[k]);
                }
            }
        }
        i = i + 1;
    }
    assert(dv.take(i as int) == dv);
    SyncPlan { steps, refresh_manifest: differences.len() > 0 }
}

} // verus!
