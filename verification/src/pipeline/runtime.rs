//! The decisions of the running pipeline: how the planner loop reacts to a
//! read of the WAL, what one round hands to the worker, and which records
//! the worker acknowledges. Locking, channels and timing are the caller's.
use vstd::prelude::*;
use crate::error::{RagloomError, RagloomErrorKind};
use crate::pipeline::planner::{ack_for, ack_of, count_work_items, work_count};
use crate::state::wal::{clone_records, WalRecord};

verus! {

/// How the planner loop continues after reading the WAL.
#[derive(Debug, Clone, Copy, PartialEq, Eq)]
pub enum ReadDecision {
    /// The WAL held this many records; go on.
    Proceed(usize),
    /// The WAL was busy (an `Internal` error); yield and start the round again.
    Retry,
    /// Any other error ends the loop.
    Stop,
}

/// The decision after a read of the WAL that found `read` records or failed.
pub fn after_wal_read(read: &Result<usize, RagloomError>) -> (d: ReadDecision)
    ensures
        read matches Ok(n) ==> d == ReadDecision::Proceed(*n),
        read matches Err(e) ==> (e.kind == RagloomErrorKind::Internal ==> d == ReadDecision::Retry)
            && (e.kind != RagloomErrorKind::Internal ==> d == ReadDecision::Stop),
{
    match read {
        Ok(n) => ReadDecision::Proceed(*n),
        Err(e) => match e.kind {
            RagloomErrorKind::Internal => ReadDecision::Retry,
            _ => ReadDecision::Stop,
        },
    }
}

/// What one round of the planner loop hands on.
#[derive(Debug)]
pub struct Round {
    /// The records appended during the round, in order, for the worker.
    pub fresh: Vec<WalRecord>,
    /// How many of them are work items (newly discovered files).
    pub discovered: usize,
    /// Nothing was appended: the loop reports a finished window and waits.
    pub idle: bool,
}

/// The round that took the WAL from `before` records to `after`: the
/// records past the first `before`, the number of work items among them,
/// and whether the round appended nothing.
pub fn plan_round(before: usize, after: &[WalRecord]) -> (r: Round)
    ensures
        r.idle == (after@.len() == before),
        before <= after@.len() ==> r.fresh@ == after@.skip(before as int),
        before > after@.len() ==> r.fresh@.len() == 0,
        r.discovered == work_count(r.fresh@, r.fresh@.len() as int),
{
    let mut fresh: Vec<WalRecord> = Vec::new();
    let mut i = before;
    proof {
        if before <= after@.len() {
            assert(after@.subrange(before as int, before as int) =~= fresh@);
        }
    }
    while i < after.len()
        invariant
            before <= i <= after@.len() || (i == before && before > after@.len()),
            before <= after@.len() ==> fresh@ == after@.subrange(before as int, i as int),
            before > after@.len() ==> fresh@.len() == 0,
        decreases after@.len() - i,
    {
        fresh.push(after[i].clone());
        assert(after@.subrange(before as int, i + 1) =~= after@.subrange(before as int, i as int).push(after@[i as int]));
        i += 1;
    }
    proof {
        if before <= after@.len() {
            assert(after@.subrange(before as int, after@.len() as int) =~= after@.skip(before as int));
        }
    }
    let discovered = count_work_items(fresh.as_slice());
    Round { fresh, discovered, idle: after.len() == before }
}

/// The acknowledgement the worker appends after executing `record`: work
/// items are acknowledged (whatever the outcome of their execution, as the
/// pipeline is at-least-once); other records are not.
pub open spec fn execution_ack_of(record: WalRecord) -> Option<WalRecord> {
    match record {
        WalRecord::WorkItem { .. } => ack_of(record),
        WalRecord::WorkItemV2 { .. } => ack_of(record),
        _ => None,
    }
}

/// See [`execution_ack_of`].
pub fn execution_ack(record: &WalRecord) -> (a: Option<WalRecord>)
    ensures
        a == execution_ack_of(*record),
{
    match record {
        WalRecord::WorkItem { .. } => ack_for(record),
        WalRecord::WorkItemV2 { .. } => ack_for(record),
        _ => None,
    }
}

/// Whether executing `record` processes a file (only file-version work
/// items do; the others need no work).
pub fn processes_file(record: &WalRecord) -> (b: bool)
    ensures
        b == (*record is WorkItemV2),
{
    match record {
        WalRecord::WorkItemV2 { .. } => true,
        _ => false,
    }
}

/// Where the processing of one file stands.
#[derive(Debug, Clone, Copy, PartialEq, Eq, Structural)]
pub enum FileStep {
    /// The document is to be loaded.
    Load,
    /// The loaded text is to be chunked and embedded into points.
    Build,
    /// This many points are to be upserted.
    Upsert(usize),
    /// Done; the summary has its entry for the file.
    Finish,
}

/// What the outside work of a step came to.
#[derive(Debug, Clone, Copy, PartialEq, Eq, Structural)]
pub enum StepEvent {
    Loaded,
    LoadFailed,
    /// The points were built; this many.
    Built(usize),
    BuildFailed,
    Upserted,
    UpsertFailed,
}

/// What the summary records for the file.
#[derive(Debug, Clone, Copy, PartialEq, Eq, Structural)]
pub enum SummaryAction {
    Nothing,
    RecordFailure,
    /// The file was indexed into this many points.
    RecordSuccess(usize),
}

/// The next step and the summary action after `ev` at `step`: a failure at
/// any stage finishes the file as failed, an upsert after building `n` points
/// finishes it as indexed into `n` points, and an event that does not belong
/// to the step changes nothing.
pub open spec fn file_step_spec(step: FileStep, ev: StepEvent) -> (FileStep, SummaryAction) {
    match (step, ev) {
        (FileStep::Load, StepEvent::Loaded) => (FileStep::Build, SummaryAction::Nothing),
        (FileStep::Load, StepEvent::LoadFailed) => (FileStep::Finish, SummaryAction::RecordFailure),
        (FileStep::Build, StepEvent::Built(n)) => (FileStep::Upsert(n), SummaryAction::Nothing),
        (FileStep::Build, StepEvent::BuildFailed) => (FileStep::Finish, SummaryAction::RecordFailure),
        (FileStep::Upsert(n), StepEvent::Upserted) => (FileStep::Finish, SummaryAction::RecordSuccess(n)),
        (FileStep::Upsert(_), StepEvent::UpsertFailed) => (FileStep::Finish, SummaryAction::RecordFailure),
        _ => (step, SummaryAction::Nothing),
    }
}

/// The step after `ev` at `step`, and what the summary records.
pub fn next_file_step(step: FileStep, ev: StepEvent) -> (r: (FileStep, SummaryAction))
    ensures
        r == file_step_spec(step, ev),
{
    match (step, ev) {
        (FileStep::Load, StepEvent::Loaded) => (FileStep::Build, SummaryAction::Nothing),
        (FileStep::Load, StepEvent::LoadFailed) => (FileStep::Finish, SummaryAction::RecordFailure),
        (FileStep::Build, StepEvent::Built(n)) => (FileStep::Upsert(n), SummaryAction::Nothing),
        (FileStep::Build, StepEvent::BuildFailed) => (FileStep::Finish, SummaryAction::RecordFailure),
        (FileStep::Upsert(n), StepEvent::Upserted) => (FileStep::Finish, SummaryAction::RecordSuccess(n)),
        (FileStep::Upsert(_), StepEvent::UpsertFailed) => (FileStep::Finish, SummaryAction::RecordFailure),
        _ => (step, SummaryAction::Nothing),
    }
}

/// Where the steps end from `step` after the events `evs`, and how many
/// summary entries they record.
pub open spec fn run_file_steps(step: FileStep, evs: Seq<StepEvent>) -> (FileStep, nat)
    decreases evs.len(),
{
    if evs.len() == 0 {
        (step, 0)
    } else {
        let (next, action) = file_step_spec(step, evs[0]);
        let (end, count) = run_file_steps(next, evs.drop_first());
        (end, count + if action is Nothing { 0nat } else { 1nat })
    }
}

/// Every file is counted exactly once: from `Load`, whatever the events, the
/// summary gets one entry when the file finishes and none before.
pub proof fn law_file_recorded_once(evs: Seq<StepEvent>)
    ensures
        run_file_steps(FileStep::Load, evs).1 == (if run_file_steps(FileStep::Load, evs).0 is Finish { 1nat } else { 0nat }),
{
    lemma_recorded_once(FileStep::Load, evs);
}

proof fn lemma_recorded_once(step: FileStep, evs: Seq<StepEvent>)
    ensures
        step is Finish ==> run_file_steps(step, evs) == (FileStep::Finish, 0nat),
        !(step is Finish) ==> run_file_steps(step, evs).1 == (if run_file_steps(step, evs).0 is Finish { 1nat } else { 0nat }),
    decreases evs.len(),
{
    if evs.len() > 0 {
        let (next, action) = file_step_spec(step, evs[0]);
        lemma_recorded_once(next, evs.drop_first());
    }
}

} // verus!
