//! Durable job transitions: every change the job store makes to a job record.
//! The store applies a computed record only while the stored record is unchanged.
use crate::jobs::domain::{
    execution_error_text, lifecycle_allows, result_kind, ExecutionError, Job, JobError, JobFailure, JobKind, JobResult,
    JobStatus, JobStep,
};
use vstd::prelude::*;

verus! {

/// Fields that no transition changes.
pub open spec fn same_identity(a: Job, b: Job) -> bool {
    &&& a.id == b.id
    &&& a.kind == b.kind
    &&& a.input == b.input
    &&& a.created_at == b.created_at
}

/// The first execution step of a job of the given kind.
pub open spec fn first_step(kind: JobKind) -> JobStep {
    match kind {
        JobKind::PortfolioReview => JobStep::SnapshottingPortfolio,
        JobKind::WatchlistBriefing => JobStep::ReadingWatchlist,
    }
}

/// The step a running job must be at before it may report `step`; `None`
/// when a job of that kind never reports `step`.
pub open spec fn step_before(kind: JobKind, step: JobStep) -> Option<JobStep> {
    match (kind, step) {
        (JobKind::PortfolioReview, JobStep::SnapshottingPortfolio) => Some(JobStep::SnapshottingPortfolio),
        (JobKind::PortfolioReview, JobStep::LoadingResearch) => Some(JobStep::SnapshottingPortfolio),
        (JobKind::PortfolioReview, JobStep::CalculatingReview) => Some(JobStep::LoadingResearch),
        (JobKind::PortfolioReview, JobStep::PersistingReview) => Some(JobStep::CalculatingReview),
        (JobKind::WatchlistBriefing, JobStep::ReadingWatchlist) => Some(JobStep::ReadingWatchlist),
        (JobKind::WatchlistBriefing, JobStep::LoadingResearch) => Some(JobStep::ReadingWatchlist),
        (JobKind::WatchlistBriefing, JobStep::PersistingBriefing) => Some(JobStep::LoadingResearch),
        _ => None,
    }
}

pub open spec fn claim_post(old: Job, now: String, new: Job) -> bool {
    &&& same_identity(old, new)
    &&& new.status == JobStatus::Running
    &&& new.started_at == Some(now)
    &&& new.attempt_count == old.attempt_count + 1
    &&& new.step == first_step(old.kind)
    &&& new.queued_at == old.queued_at
    &&& new.completed_at == old.completed_at
    &&& new.error == old.error
    &&& new.result == old.result
    &&& new.previous_failures@ == old.previous_failures@
}

pub open spec fn progress_post(old: Job, step: JobStep, new: Job) -> bool {
    &&& same_identity(old, new)
    &&& new.status == old.status
    &&& new.step == step
    &&& new.queued_at == old.queued_at
    &&& new.started_at == old.started_at
    &&& new.completed_at == old.completed_at
    &&& new.attempt_count == old.attempt_count
    &&& new.error == old.error
    &&& new.result == old.result
    &&& new.previous_failures@ == old.previous_failures@
}

pub open spec fn succeed_post(old: Job, result: JobResult, now: String, new: Job) -> bool {
    &&& same_identity(old, new)
    &&& new.status == JobStatus::Succeeded
    &&& new.step == JobStep::Completed
    &&& new.queued_at == old.queued_at
    &&& new.started_at == old.started_at
    &&& new.completed_at == Some(now)
    &&& new.attempt_count == old.attempt_count
    &&& new.error == None::<String>
    &&& new.result == Some(result)
    &&& new.previous_failures@ == old.previous_failures@
}

pub open spec fn failure_status(error: ExecutionError) -> JobStatus {
    if error == ExecutionError::Interrupted {
        JobStatus::Interrupted
    } else {
        JobStatus::Failed
    }
}

/// `f` records the attempt of `old` that ended at `now` with `error`.
pub open spec fn is_failure_record(f: JobFailure, old: Job, error: ExecutionError, now: String) -> bool {
    &&& f.attempt == old.attempt_count
    &&& f.status == failure_status(error)
    &&& f.step == old.step
    &&& old.started_at == Some(f.started_at)
    &&& f.completed_at == now
    &&& f.error@ == execution_error_text(error)
}

pub open spec fn fail_post(old: Job, error: ExecutionError, now: String, new: Job) -> bool {
    &&& same_identity(old, new)
    &&& new.status == failure_status(error)
    &&& new.step == old.step
    &&& new.queued_at == old.queued_at
    &&& new.started_at == old.started_at
    &&& new.completed_at == Some(now)
    &&& new.attempt_count == old.attempt_count
    &&& (new.error matches Some(m) && m@ == execution_error_text(error))
    &&& new.result == old.result
    &&& new.previous_failures@.len() == old.previous_failures@.len() + 1
    &&& new.previous_failures@.drop_last() == old.previous_failures@
    &&& is_failure_record(new.previous_failures@.last(), old, error, now)
}

pub open spec fn retry_post(old: Job, now: String, new: Job) -> bool {
    &&& same_identity(old, new)
    &&& new.status == JobStatus::Queued
    &&& new.step == JobStep::Queued
    &&& new.queued_at == now
    &&& new.started_at == None::<String>
    &&& new.completed_at == None::<String>
    &&& new.attempt_count == old.attempt_count
    &&& new.error == None::<String>
    &&& new.result == old.result
    &&& new.previous_failures@ == old.previous_failures@
}


/// `first_step` in executable form.
pub fn first_step_of(kind: JobKind) -> (r: JobStep)
    ensures
        r == first_step(kind),
{
    match kind {
        JobKind::PortfolioReview => JobStep::SnapshottingPortfolio,
        JobKind::WatchlistBriefing => JobStep::ReadingWatchlist,
    }
}

/// The step that must precede `step` for a job of `kind`.
pub fn required_previous_step(kind: JobKind, step: JobStep) -> (r: Result<JobStep, JobError>)
    ensures
        match step_before(kind, step) {
            Some(p) => r == Ok::<JobStep, JobError>(p),
            None => r == Err::<JobStep, JobError>(JobError::InvalidTransition),
        },
{
    match (kind, step) {
        (JobKind::PortfolioReview, JobStep::SnapshottingPortfolio) => Ok(JobStep::SnapshottingPortfolio),
        (JobKind::PortfolioReview, JobStep::LoadingResearch) => Ok(JobStep::SnapshottingPortfolio),
        (JobKind::PortfolioReview, JobStep::CalculatingReview) => Ok(JobStep::LoadingResearch),
        (JobKind::PortfolioReview, JobStep::PersistingReview) => Ok(JobStep::CalculatingReview),
        (JobKind::WatchlistBriefing, JobStep::ReadingWatchlist) => Ok(JobStep::ReadingWatchlist),
        (JobKind::WatchlistBriefing, JobStep::LoadingResearch) => Ok(JobStep::ReadingWatchlist),
        (JobKind::WatchlistBriefing, JobStep::PersistingBriefing) => Ok(JobStep::LoadingResearch),
        _ => Err(JobError::InvalidTransition),
    }
}

/// A store update must change exactly one record; otherwise the job was not
/// in the state the transition requires.
pub fn changed(rows: u64) -> (r: Result<(), JobError>)
    ensures
        r is Ok <==> rows == 1,
        r matches Err(e) ==> e == JobError::InvalidTransition,
{
    if rows == 1 {
        Ok(())
    } else {
        Err(JobError::InvalidTransition)
    }
}

/// Starts the next execution of a queued job. The attempt count counts
/// executions, so claiming is the only transition that increments it.
pub fn claim(old: Job, now: String) -> (r: Result<Job, JobError>)
    ensures
        match r {
            Ok(new) => old.status == JobStatus::Queued && claim_post(old, now, new),
            Err(e) => if old.status != JobStatus::Queued {
                e == JobError::InvalidTransition
            } else {
                old.attempt_count == i64::MAX && e == JobError::Repository
            },
        },
{
    if old.status != JobStatus::Queued {
        return Err(JobError::InvalidTransition);
    }
    if old.attempt_count == i64::MAX {
        return Err(JobError::Repository);
    }
    let step = first_step_of(old.kind);
    Ok(Job {
        status: JobStatus::Running,
        started_at: Some(now),
        attempt_count: old.attempt_count + 1,
        step,
        ..old
    })
}

/// Records that a running attempt reached `step`. A stale attempt, a job that is
/// not running, or a step out of order is rejected.
pub fn progress(old: Job, attempt: i64, step: JobStep) -> (r: Result<Job, JobError>)
    ensures
        match r {
            Ok(new) => {
                &&& step_before(old.kind, step) == Some(old.step)
                &&& attempt == old.attempt_count
                &&& old.status == JobStatus::Running
                &&& progress_post(old, step, new)
            },
            Err(e) => e == JobError::InvalidTransition && !(step_before(old.kind, step) == Some(old.step)
                && attempt == old.attempt_count && old.status == JobStatus::Running),
        },
{
    let previous = required_previous_step(old.kind, step)?;
    if attempt != old.attempt_count || old.status != JobStatus::Running || old.step != previous {
        return Err(JobError::InvalidTransition);
    }
    Ok(Job { step, ..old })
}

/// Completes the running attempt with its saved result.
pub fn succeed(old: Job, attempt: i64, result: JobResult, now: String) -> (r: Result<Job, JobError>)
    ensures
        match r {
            Ok(new) => {
                &&& attempt == old.attempt_count
                &&& old.status == JobStatus::Running
                &&& result_kind(result) == old.kind
                &&& succeed_post(old, result, now, new)
            },
            Err(e) => e == JobError::InvalidTransition && !(attempt == old.attempt_count
                && old.status == JobStatus::Running && result_kind(result) == old.kind),
        },
{
    if attempt != old.attempt_count || old.status != JobStatus::Running || result.kind() != old.kind {
        return Err(JobError::InvalidTransition);
    }
    Ok(Job {
        status: JobStatus::Succeeded,
        step: JobStep::Completed,
        completed_at: Some(now),
        result: Some(result),
        error: None,
        ..old
    })
}

/// Ends the running attempt unsuccessfully and keeps a record of it.
/// An interruption leaves the job `Interrupted`; any other error `Failed`.
pub fn fail(old: Job, attempt: i64, error: ExecutionError, now: String) -> (r: Result<Job, JobError>)
    ensures
        match r {
            Ok(new) => {
                &&& attempt == old.attempt_count
                &&& old.status == JobStatus::Running
                &&& old.started_at is Some
                &&& fail_post(old, error, now, new)
            },
            Err(e) => if !(attempt == old.attempt_count && old.status == JobStatus::Running) {
                e == JobError::InvalidTransition
            } else {
                old.started_at is None && e == JobError::Repository
            },
        },
{
    if attempt != old.attempt_count || old.status != JobStatus::Running {
        return Err(JobError::InvalidTransition);
    }
    let started = match &old.started_at {
        Some(s) => s.clone(),
        None => {
            return Err(JobError::Repository);
        },
    };
    let status = if error == ExecutionError::Interrupted {
        JobStatus::Interrupted
    } else {
        JobStatus::Failed
    };
    let message = error.message();
    let record = JobFailure {
        attempt: old.attempt_count,
        status,
        step: old.step,
        started_at: started,
        completed_at: now.clone(),
        error: message.clone(),
    };
    let mut failures = old.previous_failures;
    let ghost before = failures@;
    failures.push(record);
    proof {
        assert(failures@.drop_last() =~= before);
    }
    Ok(Job {
        status,
        completed_at: Some(now),
        error: Some(message),
        previous_failures: failures,
        ..old
    })
}

/// Queues a failed or interrupted job again under the same identity; the
/// attempt count is unchanged until the next execution is claimed.
pub fn retry(old: Job, now: String) -> (r: Result<Job, JobError>)
    ensures
        match r {
            Ok(new) => (old.status == JobStatus::Failed || old.status == JobStatus::Interrupted) && retry_post(old, now, new),
            Err(e) => !(old.status == JobStatus::Failed || old.status == JobStatus::Interrupted) && e == JobError::InvalidTransition,
        },
{
    if !old.status.can_retry() {
        return Err(JobError::InvalidTransition);
    }
    Ok(Job {
        status: JobStatus::Queued,
        queued_at: now,
        started_at: None,
        completed_at: None,
        error: None,
        step: JobStep::Queued,
        ..old
    })
}

/// Law: every transition computed by `claim`, `succeed`, `fail` and `retry`
/// follows the closed lifecycle (`JobStatus::allows`) and keeps the job's
/// identity.
pub proof fn lemma_transitions_follow_lifecycle(
    old: Job,
    new: Job,
    now: String,
    result: JobResult,
    error: ExecutionError,
)
    requires
        (old.status == JobStatus::Queued && claim_post(old, now, new))
            || (old.status == JobStatus::Running && succeed_post(old, result, now, new))
            || (old.status == JobStatus::Running && fail_post(old, error, now, new))
            || ((old.status == JobStatus::Failed || old.status == JobStatus::Interrupted) && retry_post(old, now, new)),
    ensures
        lifecycle_allows(old.status, new.status),
        same_identity(old, new),
{
}

/// Law: the attempt count counts executions. Claiming adds one; reporting
/// progress, succeeding, failing and retrying leave it unchanged.
pub proof fn lemma_attempts_count_executions(
    old: Job,
    new: Job,
    now: String,
    step: JobStep,
    result: JobResult,
    error: ExecutionError,
)
    ensures
        claim_post(old, now, new) ==> new.attempt_count == old.attempt_count + 1,
        progress_post(old, step, new) ==> new.attempt_count == old.attempt_count,
        succeed_post(old, result, now, new) ==> new.attempt_count == old.attempt_count,
        fail_post(old, error, now, new) ==> new.attempt_count == old.attempt_count,
        retry_post(old, now, new) ==> new.attempt_count == old.attempt_count,
{
}

/// Law: failure history only grows, and only when an attempt fails; a
/// manual retry keeps every earlier failure.
pub proof fn lemma_failure_history_is_append_only(
    old: Job,
    new: Job,
    now: String,
    step: JobStep,
    result: JobResult,
    error: ExecutionError,
)
    ensures
        claim_post(old, now, new) ==> new.previous_failures@ == old.previous_failures@,
        progress_post(old, step, new) ==> new.previous_failures@ == old.previous_failures@,
        succeed_post(old, result, now, new) ==> new.previous_failures@ == old.previous_failures@,
        retry_post(old, now, new) ==> new.previous_failures@ == old.previous_failures@,
        fail_post(old, error, now, new) ==> new.previous_failures@.drop_last() == old.previous_failures@
            && is_failure_record(new.previous_failures@.last(), old, error, now),
{
}

/// Law: a failed attempt that is retried and claimed again keeps its job
/// identity, runs as the next attempt, and remembers the failed attempt.
pub proof fn lemma_retry_preserves_identity(
    running: Job,
    failed: Job,
    queued: Job,
    again: Job,
    error: ExecutionError,
    t1: String,
    t2: String,
    t3: String,
)
    requires
        fail_post(running, error, t1, failed),
        retry_post(failed, t2, queued),
        claim_post(queued, t3, again),
    ensures
        same_identity(running, again),
        again.attempt_count == running.attempt_count + 1,
        again.previous_failures@.last() == failed.previous_failures@.last(),
        is_failure_record(again.previous_failures@.last(), running, error, t1),
        again.status == JobStatus::Running,
        again.step == first_step(running.kind),
{
}

/// The steps a job of each kind reports while it runs, in the order its
/// service reports them: a review snapshots the portfolio, loads research,
/// calculates and persists; a briefing reads the watchlist, loads research
/// and persists.
pub open spec fn reporting_order(kind: JobKind) -> Seq<JobStep> {
    match kind {
        JobKind::PortfolioReview => seq![
            JobStep::SnapshottingPortfolio,
            JobStep::LoadingResearch,
            JobStep::CalculatingReview,
            JobStep::PersistingReview,
        ],
        JobKind::WatchlistBriefing => seq![JobStep::ReadingWatchlist, JobStep::LoadingResearch, JobStep::PersistingBriefing],
    }
}

/// `to` may follow `from` in a running job of `kind`: the next step in the
/// reporting order, or the first step reported again right after claiming.
pub open spec fn may_follow(kind: JobKind, from: JobStep, to: JobStep) -> bool {
    let order = reporting_order(kind);
    ||| (from == order[0] && to == order[0])
    ||| exists|i: int| 0 <= i < order.len() - 1 && #[trigger] order[i] == from && order[i + 1] == to
}

/// Law: progress accepts exactly the steps of the reporting order, one after
/// the other from the step a claim starts at: a running job at one step of
/// that order may report the next (so every review passes Snapshotting,
/// LoadingResearch, CalculatingReview, PersistingReview by successive
/// progress calls), and no other step.
pub proof fn lemma_progress_follows_reporting_order(kind: JobKind, from: JobStep, to: JobStep)
    ensures
        reporting_order(kind)[0] == first_step(kind),
        (step_before(kind, to) == Some(from)) <==> may_follow(kind, from, to),
{
    let order = reporting_order(kind);
    match kind {
        JobKind::PortfolioReview => {
            assert(order.len() == 4);
            assert(order[0] == JobStep::SnapshottingPortfolio && order[1] == JobStep::LoadingResearch);
            assert(order[2] == JobStep::CalculatingReview && order[3] == JobStep::PersistingReview);
        },
        JobKind::WatchlistBriefing => {
            assert(order.len() == 3);
            assert(order[0] == JobStep::ReadingWatchlist && order[1] == JobStep::LoadingResearch);
            assert(order[2] == JobStep::PersistingBriefing);
        },
    }
    if may_follow(kind, from, to) && !(from == order[0] && to == order[0]) {
        let i = choose|i: int| 0 <= i < order.len() - 1 && #[trigger] order[i] == from && order[i + 1] == to;
        if i == 0 {
        } else if i == 1 {
        } else {
            assert(i == 2);
        }
    }
    if step_before(kind, to) == Some(from) {
        if !(from == order[0] && to == order[0]) {
            let i: int = if to == order[1] { 0 } else if to == order[2] { 1 } else { 2 };
            assert(order[i] == from && order[i + 1] == to);
        }
    }
}

} // verus!
