//! The migration runner: the decisions that bring a store's schema up to
//! the latest generation of a registry.
//!
//! The runner never touches the database itself. Its host opens the
//! connection, executes payloads and commits or rolls back; the runner is
//! told what happened and answers with what to do next. Each record is
//! applied in a transaction of its own, in ascending order of version, and
//! the first failure ends the run.

use vstd::prelude::*;
use crate::error::Error;
use crate::registry::{
    latest_version, lemma_pending_start_splits, pending_start, splits_at, strictly_increasing,
    Migration, MigrationRegistry,
};

verus! {

/// The life cycle of a database file's schema within one process run.
#[derive(Clone, Copy, Debug, PartialEq, Eq, Structural)]
pub enum Phase {
    /// Nothing is known of the file yet: it may be absent or empty.
    Uninitialized,
    /// The marker has been read and a record is being applied.
    Migrating,
    /// No record is pending; the store may be handed out.
    Current,
    /// An error ended the run. Nothing follows but giving up.
    Failed,
}

/// What the host reports back to the runner.
#[derive(Clone, Copy, Debug, PartialEq, Eq, Structural)]
pub enum Event {
    /// The connection is open and the store's version marker reads
    /// `marker` (zero for a freshly created file).
    Opened { marker: i64 },
    /// The file cannot be reached: it is inaccessible or locked.
    Unreachable,
    /// The payload of the record that was to be applied has been executed
    /// and the marker advanced to its version, in one committed
    /// transaction.
    Committed,
    /// Executing the payload failed and its transaction was rolled back.
    RolledBack,
}

/// What the runner asks of the host.
#[derive(Clone, Copy, Debug, PartialEq, Eq, Structural)]
pub enum Action {
    /// Open the connection and read the version marker.
    Open,
    /// In one transaction, execute the payload of the record at `position`
    /// and advance the marker to its version.
    Apply { position: usize },
    /// The schema is current: let the application use the store.
    Serve,
    /// Give up starting, with `error` as the diagnostic.
    Abort { error: Error },
}

/// The runner as a mathematical value.
pub struct RunnerView {
    /// The catalog that the runner works through.
    pub records: Seq<Migration>,
    pub phase: Phase,
    /// The store's version marker, as far as it is known: what was read
    /// when the store was opened, or the version committed last.
    pub marker: Option<i64>,
    /// The error that ended the run, if one did.
    pub failure: Option<Error>,
}

impl RunnerView {
    /// The position of the record to apply next, given that the marker is
    /// known.
    pub open spec fn cursor(self) -> nat {
        pending_start(self.records, self.marker->0 as int)
    }

    /// The states that a runner can be in.
    pub open spec fn wf(self) -> bool {
        &&& strictly_increasing(self.records)
        &&& self.records.len() <= usize::MAX
        &&& match self.phase {
            Phase::Uninitialized => self.marker is None && self.failure is None,
            Phase::Migrating => {
                &&& self.marker is Some
                &&& self.failure is None
                &&& self.cursor() < self.records.len()
            },
            Phase::Current => {
                &&& self.marker is Some
                &&& self.failure is None
                &&& self.cursor() == self.records.len()
            },
            Phase::Failed => match self.failure {
                Some(Error::ConnectionFailure) => true,
                Some(Error::MigrationExecutionFailure { position, version }) => {
                    &&& self.marker is Some
                    &&& position == self.cursor()
                    &&& position < self.records.len()
                    &&& version == self.records[position as int].version
                },
                _ => false,
            },
        }
    }

    /// The state before anything is known of the store.
    pub open spec fn initial(records: Seq<Migration>) -> RunnerView {
        RunnerView { records, phase: Phase::Uninitialized, marker: None, failure: None }
    }

    /// The state of a runner whose store stands at `marker`: migrating
    /// while a record above the marker is left, current otherwise.
    pub open spec fn at_marker(self, marker: i64) -> RunnerView {
        RunnerView {
            phase: if pending_start(self.records, marker as int) < self.records.len() {
                Phase::Migrating
            } else {
                Phase::Current
            },
            marker: Some(marker),
            ..self
        }
    }

    /// The state after an error.
    pub open spec fn failed_with(self, error: Error) -> RunnerView {
        RunnerView { phase: Phase::Failed, failure: Some(error), ..self }
    }

    /// The state that follows `self` on `event`.
    ///
    /// Opening leads to the first pending record, or straight to `Current`
    /// where none is pending. A commit moves the marker to the version of
    /// the record that was applied. A rollback or a lost connection ends
    /// the run. `Current` and `Failed` are final, and an event that does
    /// not belong to the present phase changes nothing.
    pub open spec fn step(self, event: Event) -> RunnerView {
        match (self.phase, event) {
            (Phase::Uninitialized, Event::Opened { marker }) => self.at_marker(marker),
            (Phase::Uninitialized, Event::Unreachable) => self.failed_with(Error::ConnectionFailure),
            (Phase::Migrating, Event::Committed) => self.at_marker(
                self.records[self.cursor() as int].version,
            ),
            (Phase::Migrating, Event::RolledBack) => self.failed_with(
                Error::MigrationExecutionFailure {
                    position: self.cursor() as usize,
                    version: self.records[self.cursor() as int].version,
                },
            ),
            (Phase::Migrating, Event::Unreachable) => self.failed_with(Error::ConnectionFailure),
            _ => self,
        }
    }

    /// What the host has to do in this state.
    pub open spec fn demand(self) -> Action {
        match self.phase {
            Phase::Uninitialized => Action::Open,
            Phase::Migrating => Action::Apply { position: self.cursor() as usize },
            Phase::Current => Action::Serve,
            Phase::Failed => Action::Abort { error: self.failure->0 },
        }
    }

    /// The state after `count` commits in a row.
    pub open spec fn commits(self, count: nat) -> RunnerView
        decreases count,
    {
        if count == 0 {
            self
        } else {
            self.step(Event::Committed).commits((count - 1) as nat)
        }
    }

    /// The state after the store was opened at `marker` and every record
    /// pending from there was committed.
    pub open spec fn pass(records: Seq<Migration>, marker: i64) -> RunnerView {
        RunnerView::initial(records).step(Event::Opened { marker }).commits(
            (records.len() - pending_start(records, marker as int)) as nat,
        )
    }
}

/// Every step leads from a state of the runner to a state of the runner.
pub proof fn lemma_step_keeps_wf(state: RunnerView, event: Event)
    requires
        state.wf(),
    ensures
        state.step(event).wf(),
{
    match (state.phase, event) {
        (Phase::Uninitialized, Event::Opened { marker }) => {
            lemma_pending_start_splits(state.records, marker as int);
        },
        (Phase::Migrating, Event::Committed) => {
            lemma_pending_start_splits(
                state.records,
                state.records[state.cursor() as int].version as int,
            );
        },
        _ => {},
    }
}

/// `Current` and `Failed` are final: no event leads out of them, so no
/// record is attempted after one has failed.
pub proof fn lemma_final_phases_absorb(state: RunnerView, event: Event)
    requires
        state.phase == Phase::Current || state.phase == Phase::Failed,
    ensures
        state.step(event) == state,
        state.demand() is Serve || state.demand() is Abort,
{
}

/// An error leaves the marker where it was: the store stays at the version
/// committed last, and the run has failed.
pub proof fn lemma_failure_keeps_marker(state: RunnerView, event: Event)
    requires
        state.wf(),
        state.phase == Phase::Uninitialized || state.phase == Phase::Migrating,
        event == Event::RolledBack || event == Event::Unreachable,
    ensures
        state.step(event).marker == state.marker,
        state.phase == Phase::Migrating || event == Event::Unreachable ==> state.step(event).phase
            == Phase::Failed,
{
}

/// A commit moves the marker up to the version of the record that was
/// demanded, and the record demanded next is the one right after it: the
/// applied versions always form a prefix of the catalog without a gap.
pub proof fn lemma_commit_advances(state: RunnerView)
    requires
        state.wf(),
        state.phase == Phase::Migrating,
    ensures
        state.step(Event::Committed).marker == Some(state.records[state.cursor() as int].version),
        state.step(Event::Committed).marker->0 > state.marker->0,
        state.step(Event::Committed).cursor() == state.cursor() + 1,
{
    let records = state.records;
    let position = state.cursor() as int;
    let version = records[position].version;
    lemma_pending_start_splits(records, state.marker->0 as int);
    assert(splits_at(records, version as int, position + 1)) by {
        assert forall|i: int| 0 <= i < position + 1 implies (#[trigger] records[i]).version <= version by {
            if i < position {
                assert(records[i].version < records[position].version);
            }
        }
        assert forall|i: int| position + 1 <= i < records.len() implies (#[trigger] records[i]).version
            > version by {
            assert(records[position].version < records[i].version);
        }
    }
    lemma_pending_start_splits(records, version as int);
}

/// From a migrating state, committing every pending record demands them
/// one by one in ascending order and ends in `Current` at the latest
/// version.
pub proof fn lemma_commits_complete(state: RunnerView)
    requires
        state.wf(),
        state.phase == Phase::Migrating,
    ensures
        forall|done: nat|
            done < state.records.len() - state.cursor() ==> (#[trigger] state.commits(done)).demand()
                == (Action::Apply { position: (state.cursor() + done) as usize }),
        state.commits((state.records.len() - state.cursor()) as nat).phase == Phase::Current,
        state.commits((state.records.len() - state.cursor()) as nat).marker == Some(
            state.records.last().version,
        ),
        state.commits((state.records.len() - state.cursor()) as nat).failure is None,
        state.commits((state.records.len() - state.cursor()) as nat).records == state.records,
    decreases state.records.len() - state.cursor(),
{
    let left = (state.records.len() - state.cursor()) as nat;
    let next = state.step(Event::Committed);
    lemma_commit_advances(state);
    lemma_step_keeps_wf(state, Event::Committed);
    assert(state.commits(0) == state);
    if next.phase == Phase::Migrating {
        lemma_commits_complete(next);
        assert forall|done: nat| done < left implies (#[trigger] state.commits(done)).demand() == (
        Action::Apply { position: (state.cursor() + done) as usize }) by {
            if done > 0 {
                assert(state.commits(done) == next.commits((done - 1) as nat));
            }
        }
        assert(state.commits(left) == next.commits((left - 1) as nat));
    } else {
        assert(left == 1);
        assert(next.commits(0) == next);
        assert(state.commits(1) == next.commits(0));
        assert forall|done: nat| done < left implies (#[trigger] state.commits(done)).demand() == (
        Action::Apply { position: (state.cursor() + done) as usize }) by {
            assert(done == 0);
        }
    }
}

/// A complete pass ends in `Current` without an error. Where records were
/// pending the marker ends at the latest version of the catalog;
/// where none was, the marker stays as it was read.
pub proof fn lemma_pass_reaches_current(records: Seq<Migration>, marker: i64)
    requires
        strictly_increasing(records),
        records.len() <= usize::MAX,
    ensures
        RunnerView::pass(records, marker).wf(),
        RunnerView::pass(records, marker).records == records,
        RunnerView::pass(records, marker).phase == Phase::Current,
        RunnerView::pass(records, marker).failure is None,
        RunnerView::pass(records, marker).marker == Some(
            if pending_start(records, marker as int) < records.len() {
                records.last().version
            } else {
                marker
            },
        ),
{
    let opened = RunnerView::initial(records).step(Event::Opened { marker });
    lemma_step_keeps_wf(RunnerView::initial(records), Event::Opened { marker });
    if opened.phase == Phase::Migrating {
        lemma_commits_complete(opened);
    } else {
        assert(opened.commits(0) == opened);
    }
}

/// A freshly created file, whose marker reads zero, stands at the latest
/// version of the catalog after one pass.
pub proof fn lemma_fresh_pass_reaches_latest(records: Seq<Migration>)
    requires
        strictly_increasing(records),
        records.len() <= usize::MAX,
    ensures
        RunnerView::pass(records, 0).phase == Phase::Current,
        RunnerView::pass(records, 0).marker == Some(latest_version(records) as i64),
{
    lemma_pass_reaches_current(records, 0);
    lemma_pending_start_splits(records, 0);
}

/// Running a pass again changes nothing: on a store that a pass has brought
/// to `Current`, the next pass finds no record pending, demands no payload
/// and ends with the same marker.
pub proof fn lemma_second_pass_is_idle(records: Seq<Migration>, marker: i64)
    requires
        strictly_increasing(records),
        records.len() <= usize::MAX,
    ensures
        ({
            let first = RunnerView::pass(records, marker);
            let reopened = RunnerView::initial(records).step(Event::Opened { marker: first.marker->0 });
            &&& reopened.phase == Phase::Current
            &&& reopened.demand() == Action::Serve
            &&& RunnerView::pass(records, first.marker->0) == first
        }),
{
    lemma_pass_reaches_current(records, marker);
    let first = RunnerView::pass(records, marker);
    let reopened = RunnerView::initial(records).step(Event::Opened { marker: first.marker->0 });
    assert(reopened.commits(0) == reopened);
}

/// Drives one pass over a registry. It holds the registry by reference and
/// never changes it.
pub struct MigrationRunner<'a> {
    registry: &'a MigrationRegistry,
    phase: Phase,
    marker: Option<i64>,
    failure: Option<Error>,
}

impl<'a> View for MigrationRunner<'a> {
    type V = RunnerView;

    closed spec fn view(&self) -> RunnerView {
        RunnerView {
            records: self.registry@,
            phase: self.phase,
            marker: self.marker,
            failure: self.failure,
        }
    }
}

impl<'a> MigrationRunner<'a> {
    #[verifier::type_invariant]
    spec fn valid(self) -> bool {
        self@.wf()
    }

    /// A runner that has not looked at the store yet.
    pub fn new(registry: &'a MigrationRegistry) -> (runner: MigrationRunner<'a>)
        ensures
            runner@ == RunnerView::initial(registry@),
            runner@.wf(),
    {
        let _ = registry.len();
        MigrationRunner { registry, phase: Phase::Uninitialized, marker: None, failure: None }
    }

    /// The phase that the run is in.
    pub fn phase(&self) -> (phase: Phase)
        ensures
            phase == self@.phase,
    {
        self.phase
    }

    /// The store's version marker, once it has been read.
    pub fn marker(&self) -> (marker: Option<i64>)
        ensures
            marker == self@.marker,
    {
        self.marker
    }

    /// The error that ended the run, if one did.
    pub fn failure(&self) -> (failure: Option<Error>)
        ensures
            failure == self@.failure,
    {
        self.failure
    }

    /// What the host has to do now.
    pub fn action(&self) -> (action: Action)
        ensures
            action == self@.demand(),
            self@.wf(),
    {
        proof {
            use_type_invariant(self);
        }
        match self.phase {
            Phase::Uninitialized => Action::Open,
            Phase::Migrating => match self.marker {
                Some(marker) => Action::Apply { position: self.registry.pending_from(marker) },
                None => vstd::pervasive::unreached(),
            },
            Phase::Current => Action::Serve,
            Phase::Failed => match self.failure {
                Some(error) => Action::Abort { error },
                None => vstd::pervasive::unreached(),
            },
        }
    }

    /// Takes note of what the host reports and answers with what it has to
    /// do next.
    pub fn handle(&mut self, event: Event) -> (action: Action)
        ensures
            final(self)@ == old(self)@.step(event),
            final(self)@.wf(),
            action == final(self)@.demand(),
    {
        proof {
            use_type_invariant(&*self);
        }
        let registry = self.registry;
        let n = registry.len();
        match (self.phase, event) {
            (Phase::Uninitialized, Event::Opened { marker }) => {
                let start = registry.pending_from(marker);
                let phase = if start < n {
                    Phase::Migrating
                } else {
                    Phase::Current
                };
                *self = MigrationRunner { registry, phase, marker: Some(marker), failure: None };
            },
            (Phase::Uninitialized, Event::Unreachable) | (Phase::Migrating, Event::Unreachable) => {
                *self = MigrationRunner {
                    registry,
                    phase: Phase::Failed,
                    marker: self.marker,
                    failure: Some(Error::ConnectionFailure),
                };
            },
            (Phase::Migrating, Event::Committed) => {
                let position = match self.marker {
                    Some(marker) => registry.pending_from(marker),
                    None => vstd::pervasive::unreached(),
                };
                let version = registry.records()[position].version;
                let start = registry.pending_from(version);
                let phase = if start < n {
                    Phase::Migrating
                } else {
                    Phase::Current
                };
                *self = MigrationRunner { registry, phase, marker: Some(version), failure: None };
            },
            (Phase::Migrating, Event::RolledBack) => {
                let position = match self.marker {
                    Some(marker) => registry.pending_from(marker),
                    None => vstd::pervasive::unreached(),
                };
                let version = registry.records()[position].version;
                *self = MigrationRunner {
                    registry,
                    phase: Phase::Failed,
                    marker: self.marker,
                    failure: Some(Error::MigrationExecutionFailure { position, version }),
                };
            },
            _ => {},
        }
        self.action()
    }
}

} // verus!
