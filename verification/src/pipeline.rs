//! The schedule of a run: at most ten items in flight, every item joined,
//! and the first error in the order of the items as the run's result.

use vstd::prelude::*;
use crate::error::ErrorKind;

verus! {

/// The number of items that may be in flight at once.
pub const WIDTH: usize = 10;

/// Where one item of work stands.
#[derive(Clone, Copy, Debug, PartialEq, Eq, Structural)]
pub enum ItemState {
    /// Not started yet.
    Queued,
    /// Started, holding a permit.
    Running,
    /// Finished without error; the permit is back.
    Succeeded,
    /// Finished with an error; the permit is back.
    Failed(ErrorKind),
}

impl ItemState {
    /// The item has finished, one way or the other.
    pub open spec fn is_finished(self) -> bool {
        self is Succeeded || self is Failed
    }
}

/// The number of running items among `states`.
pub open spec fn count_running(states: Seq<ItemState>) -> nat
    decreases states.len(),
{
    if states.len() == 0 {
        0
    } else {
        count_running(states.drop_last()) + if states.last() is Running {
            1nat
        } else {
            0nat
        }
    }
}

/// The error of the first failed item among the first `n`.
pub open spec fn first_failure(states: Seq<ItemState>, n: int) -> Option<ErrorKind>
    decreases n,
{
    if n <= 0 {
        None
    } else {
        match first_failure(states, n - 1) {
            Some(e) => Some(e),
            None => match states[n - 1] {
                ItemState::Failed(e) => Some(e),
                _ => None,
            },
        }
    }
}

/// What the run comes to once all `states` are joined: the first failure, or
/// success where there is none.
pub open spec fn outcome_of(states: Seq<ItemState>) -> Result<(), ErrorKind> {
    match first_failure(states, states.len() as int) {
        Some(e) => Err(e),
        None => Ok(()),
    }
}

/// Changing one state changes the number of running items by what that
/// state adds or takes.
pub proof fn lemma_count_update(states: Seq<ItemState>, i: int, s: ItemState)
    requires
        0 <= i < states.len(),
    ensures
        count_running(states.update(i, s)) + (if states[i] is Running {
            1nat
        } else {
            0nat
        }) == count_running(states) + (if s is Running {
            1nat
        } else {
            0nat
        }),
    decreases states.len(),
{
    let u = states.update(i, s);
    if i == states.len() - 1 {
        assert(u.drop_last() == states.drop_last());
    } else {
        assert(u.drop_last() == states.drop_last().update(i, s));
        lemma_count_update(states.drop_last(), i, s);
    }
}

/// No more items run than there are, and where one runs the count is not 0.
pub proof fn lemma_count_bounds(states: Seq<ItemState>, i: int)
    requires
        0 <= i < states.len(),
    ensures
        count_running(states) <= states.len(),
        states[i] is Running ==> count_running(states) > 0,
    decreases states.len(),
{
    if i < states.len() - 1 {
        lemma_count_bounds(states.drop_last(), i);
    } else if states.len() > 1 {
        lemma_count_bounds(states.drop_last(), 0);
    } else {
        assert(count_running(states.drop_last()) == 0);
    }
}

/// A change behind the first `n` states does not touch their first failure.
pub proof fn lemma_first_failure_update(states: Seq<ItemState>, n: int, i: int, s: ItemState)
    requires
        0 <= n <= i < states.len(),
    ensures
        first_failure(states.update(i, s), n) == first_failure(states, n),
    decreases n,
{
    if n > 0 {
        lemma_first_failure_update(states, n - 1, i, s);
    }
}

/// The mathematical value of a [`Pipeline`].
pub struct PipelineView {
    /// The state of each item.
    pub states: Seq<ItemState>,
    /// How many items have been started: those before this index.
    pub started: nat,
    /// How many items have been joined: those before this index.
    pub joined: nat,
}

impl PipelineView {
    /// What holds of every pipeline: the items are started in their order
    /// and joined in their order, an item is joined only when it has
    /// finished, and at most [`WIDTH`] run at once.
    pub open spec fn wf(self) -> bool {
        &&& self.started <= self.states.len()
        &&& forall|i: int| 0 <= i < self.started ==> !(#[trigger] self.states[i] is Queued)
        &&& forall|i: int|
            self.started <= i < self.states.len() ==> #[trigger] self.states[i] is Queued
        &&& self.joined <= self.states.len()
        &&& forall|i: int| 0 <= i < self.joined ==> (#[trigger] self.states[i]).is_finished()
        &&& count_running(self.states) <= WIDTH
    }

    /// Every item has been joined.
    pub open spec fn is_done(self) -> bool {
        self.joined == self.states.len()
    }
}

/// What the coordinator does next.
#[derive(Clone, Copy, Debug, PartialEq, Eq)]
pub enum Directive {
    /// A permit was taken for the item at this index: spawn it.
    Start(usize),
    /// The item at this index has finished and is now joined.
    Joined(usize),
    /// Nothing can be started or joined: wait until a running item reports.
    Wait,
    /// Every item is joined: the run ends with this result.
    Finished(Result<(), ErrorKind>),
}

/// The states of the items with the counters that go with them.
#[derive(Debug, PartialEq, Eq)]
struct Schedule {
    states: Vec<ItemState>,
    started: usize,
    running: usize,
    joined: usize,
    failure: Option<ErrorKind>,
}

impl View for Schedule {
    type V = PipelineView;

    closed spec fn view(&self) -> PipelineView {
        PipelineView {
            states: self.states@,
            started: self.started as nat,
            joined: self.joined as nat,
        }
    }
}

impl Schedule {
    /// The schedule is well formed, and its counters say what its states
    /// say.
    closed spec fn sound(&self) -> bool {
        &&& self@.wf()
        &&& self.running == count_running(self.states@)
        &&& self.failure == first_failure(self.states@, self.joined as int)
    }

    /// A schedule of `n` items, none of them started.
    fn new(n: usize) -> (p: Schedule)
        ensures
            p.sound(),
            p@.started == 0,
            p@.joined == 0,
            p@.states == Seq::new(n as nat, |i: int| ItemState::Queued),
            count_running(p@.states) == 0,
    {
        let mut states: Vec<ItemState> = Vec::new();
        let mut i: usize = 0;
        while i < n
            invariant
                i <= n,
                states@ == Seq::new(i as nat, |k: int| ItemState::Queued),
                count_running(states@) == 0,
            decreases n - i,
        {
            let ghost before = states@;
            states.push(ItemState::Queued);
            assert(states@.drop_last() == before);
            assert(states@ =~= Seq::new((i + 1) as nat, |k: int| ItemState::Queued));
            i = i + 1;
        }
        Schedule { states, started: 0, running: 0, joined: 0, failure: None }
    }
}

/// What a step of the coordinator does to the schedule, and what it asks
/// for. In this order: the first queued item is started where fewer than
/// [`WIDTH`] run; else the next item to join is joined where it has
/// finished; else the run is finished where all are joined; else the
/// coordinator waits.
pub open spec fn step_of(p: PipelineView) -> (PipelineView, Directive) {
    if p.started < p.states.len() && count_running(p.states) < WIDTH {
        (
            PipelineView {
                states: p.states.update(p.started as int, ItemState::Running),
                started: p.started + 1,
                joined: p.joined,
            },
            Directive::Start(p.started as usize),
        )
    } else if p.joined < p.states.len() && p.states[p.joined as int].is_finished() {
        (PipelineView { joined: p.joined + 1, ..p }, Directive::Joined(p.joined as usize))
    } else if p.joined == p.states.len() {
        (p, Directive::Finished(outcome_of(p.states)))
    } else {
        (p, Directive::Wait)
    }
}

/// What the report of an item does to the schedule: a running item takes
/// the state that its outcome gives; any other report changes nothing.
pub open spec fn report_of(p: PipelineView, index: int, outcome: Result<(), ErrorKind>)
    -> PipelineView {
    if 0 <= index < p.states.len() && p.states[index] is Running {
        PipelineView {
            states: p.states.update(
                index,
                match outcome {
                    Ok(_) => ItemState::Succeeded,
                    Err(e) => ItemState::Failed(e),
                },
            ),
            ..p
        }
    } else {
        p
    }
}

/// Among the first `n` states, a failure is found exactly where one of them
/// has failed.
pub proof fn lemma_first_failure(states: Seq<ItemState>, n: int)
    requires
        0 <= n <= states.len(),
    ensures
        first_failure(states, n) is None <==> forall|i: int|
            0 <= i < n ==> !(#[trigger] states[i] is Failed),
        first_failure(states, n) matches Some(e) ==> exists|k: int|
            0 <= k < n && #[trigger] states[k] == ItemState::Failed(e) && forall|i: int|
                0 <= i < k ==> !(#[trigger] states[i] is Failed),
    decreases n,
{
    if n > 0 {
        lemma_first_failure(states, n - 1);
        if first_failure(states, n - 1) is None {
            if let ItemState::Failed(e) = states[n - 1] {
                assert(states[n - 1] == ItemState::Failed(e));
            }
        }
    }
}

/// A run ends only when every item has finished; it ends in success exactly
/// where no item has failed, and else with the error of the first item, in
/// the order of the items, that has failed.
pub proof fn law_run_result(p: PipelineView)
    requires
        p.wf(),
        step_of(p).1 is Finished,
    ensures
        forall|i: int| 0 <= i < p.states.len() ==> (#[trigger] p.states[i]).is_finished(),
        step_of(p).1 == Directive::Finished(Ok(())) <==> forall|i: int|
            0 <= i < p.states.len() ==> !(#[trigger] p.states[i] is Failed),
        forall|e: ErrorKind|
            step_of(p).1 == Directive::Finished(Err(e)) ==> exists|k: int|
                0 <= k < p.states.len() && #[trigger] p.states[k] == ItemState::Failed(e)
                    && forall|i: int| 0 <= i < k ==> !(#[trigger] p.states[i] is Failed),
{
    lemma_first_failure(p.states, p.states.len() as int);
}

/// A run never holds: whenever the coordinator is told to wait, an item is
/// running whose report will let it go on.
pub proof fn law_wait_has_running(p: PipelineView)
    requires
        p.wf(),
        step_of(p).1 is Wait,
    ensures
        count_running(p.states) > 0,
{
    let j = p.joined as int;
    if p.states[j] is Running {
        lemma_count_bounds(p.states, j);
    } else {
        assert(p.states[j] is Queued);
        assert(p.started <= j);
    }
}

impl Schedule {
    /// Takes the next step of the run.
    fn step(&mut self) -> (d: Directive)
        requires
            old(self).sound(),
        ensures
            final(self).sound(),
            (final(self)@, d) == step_of(old(self)@),
            count_running(final(self)@.states) == count_running(old(self)@.states) + (if d
                is Start {
                1nat
            } else {
                0nat
            }),
            d is Wait ==> count_running(final(self)@.states) > 0,
    {
        let ghost before = self@;
        if self.started < self.states.len() && self.running < WIDTH {
            let index = self.started;
            proof {
                lemma_count_update(self.states@, index as int, ItemState::Running);
                lemma_first_failure_update(
                    self.states@,
                    self.joined as int,
                    index as int,
                    ItemState::Running,
                );
            }
            self.states.set(index, ItemState::Running);
            self.started = index + 1;
            self.running = self.running + 1;
            assert((self@, Directive::Start(index)) == step_of(before));
            Directive::Start(index)
        } else if self.joined < self.states.len() && (match self.states[self.joined] {
            ItemState::Succeeded => true,
            ItemState::Failed(_) => true,
            _ => false,
        }) {
            let index = self.joined;
            if self.failure.is_none() {
                match self.states[index] {
                    ItemState::Failed(e) => {
                        self.failure = Some(e);
                    },
                    _ => {},
                }
            }
            self.joined = index + 1;
            assert((self@, Directive::Joined(index)) == step_of(before));
            Directive::Joined(index)
        } else if self.joined == self.states.len() {
            let result = match self.failure {
                Some(e) => Err(e),
                None => Ok(()),
            };
            Directive::Finished(result)
        } else {
            proof {
                let j = self.joined as int;
                if self.states@[j] is Running {
                    lemma_count_bounds(self.states@, j);
                } else {
                    assert(self.states@[j] is Queued);
                    assert(self.started < self.states.len());
                }
            }
            Directive::Wait
        }
    }

    /// Takes the report of the item at `index`.
    fn report(&mut self, index: usize, outcome: Result<(), ErrorKind>) -> (accepted: bool)
        requires
            old(self).sound(),
        ensures
            final(self).sound(),
            final(self)@ == report_of(old(self)@, index as int, outcome),
            accepted == (index < old(self)@.states.len() && old(self)@.states[index as int]
                is Running),
            count_running(old(self)@.states) == count_running(final(self)@.states) + (if accepted {
                1nat
            } else {
                0nat
            }),
    {
        if index >= self.states.len() {
            return false;
        }
        match self.states[index] {
            ItemState::Running => {},
            _ => {
                return false;
            },
        }
        let next = match outcome {
            Ok(_) => ItemState::Succeeded,
            Err(e) => ItemState::Failed(e),
        };
        proof {
            lemma_count_update(self.states@, index as int, next);
            lemma_count_bounds(self.states@, index as int);
            assert(self.joined <= index) by {
                if index < self.joined {
                    assert(self.states@[index as int].is_finished());
                }
            }
            lemma_first_failure_update(self.states@, self.joined as int, index as int, next);
        }
        self.states.set(index, next);
        self.running = self.running - 1;
        true
    }
}

/// The schedule of one run over a known number of items.
#[derive(Debug, PartialEq, Eq)]
pub struct Pipeline {
    schedule: Schedule,
}

impl View for Pipeline {
    type V = PipelineView;

    closed spec fn view(&self) -> PipelineView {
        self.schedule@
    }
}

impl Pipeline {
    /// Every pipeline is well formed, and its counters say what its states
    /// say.
    #[verifier::type_invariant]
    closed spec fn inv(&self) -> bool {
        self.schedule.sound()
    }

    /// A run over `n` items, none of them started.
    pub fn new(n: usize) -> (p: Pipeline)
        ensures
            p@.wf(),
            p@.started == 0,
            p@.joined == 0,
            p@.states == Seq::new(n as nat, |i: int| ItemState::Queued),
            count_running(p@.states) == 0,
    {
        Pipeline { schedule: Schedule::new(n) }
    }

    /// The number of items.
    pub fn len(&self) -> (n: usize)
        ensures
            n == self@.states.len(),
    {
        self.schedule.states.len()
    }

    /// The number of items in flight.
    pub fn in_flight(&self) -> (n: usize)
        ensures
            n == count_running(self@.states),
            n <= WIDTH,
            self@.wf(),
    {
        proof {
            use_type_invariant(self);
        }
        self.schedule.running
    }

    /// The state of the item at `index`.
    pub fn state(&self, index: usize) -> (s: Option<ItemState>)
        ensures
            s == if index < self@.states.len() {
                Some(self@.states[index as int])
            } else {
                None
            },
    {
        if index < self.schedule.states.len() {
            Some(self.schedule.states[index])
        } else {
            None
        }
    }

    /// Takes the next step of the run.
    pub fn next_step(&mut self) -> (d: Directive)
        ensures
            (final(self)@, d) == step_of(old(self)@),
            old(self)@.wf(),
            final(self)@.wf(),
            count_running(final(self)@.states) == count_running(old(self)@.states) + (if d
                is Start {
                1nat
            } else {
                0nat
            }),
            d is Wait ==> count_running(final(self)@.states) > 0,
    {
        proof {
            use_type_invariant(&*self);
        }
        let mut schedule = Schedule::new(0);
        core::mem::swap(&mut self.schedule, &mut schedule);
        let d = schedule.step();
        self.schedule = schedule;
        d
    }

    /// Takes the report of the item at `index`, which ended with `outcome`.
    /// The report is accepted where that item is running.
    pub fn complete(&mut self, index: usize, outcome: Result<(), ErrorKind>) -> (accepted: bool)
        ensures
            final(self)@ == report_of(old(self)@, index as int, outcome),
            old(self)@.wf(),
            final(self)@.wf(),
            accepted == (index < old(self)@.states.len() && old(self)@.states[index as int]
                is Running),
            count_running(old(self)@.states) == count_running(final(self)@.states) + (if accepted {
                1nat
            } else {
                0nat
            }),
    {
        proof {
            use_type_invariant(&*self);
        }
        let mut schedule = Schedule::new(0);
        core::mem::swap(&mut self.schedule, &mut schedule);
        let accepted = schedule.report(index, outcome);
        self.schedule = schedule;
        accepted
    }
}

} // verus!
