//! The worker's decisions: which step a running job reports, how an
//! execution ends in the job record, and whether the worker keeps going.
use crate::jobs::domain::{ExecutionError, JobError, JobResult, JobStatus, JobStep};
use crate::review::domain::{ReviewError, ReviewStep};
use crate::watchlist::service::BriefingStep;
use vstd::prelude::*;

verus! {

/// The job step a review reports.
pub fn job_step_for_review(step: ReviewStep) -> (r: JobStep)
    ensures
        r == match step {
            ReviewStep::SnapshottingPortfolio => JobStep::SnapshottingPortfolio,
            ReviewStep::LoadingResearch => JobStep::LoadingResearch,
            ReviewStep::CalculatingReview => JobStep::CalculatingReview,
            ReviewStep::PersistingReview => JobStep::PersistingReview,
        },
{
    match step {
        ReviewStep::SnapshottingPortfolio => JobStep::SnapshottingPortfolio,
        ReviewStep::LoadingResearch => JobStep::LoadingResearch,
        ReviewStep::CalculatingReview => JobStep::CalculatingReview,
        ReviewStep::PersistingReview => JobStep::PersistingReview,
    }
}

/// The job step a briefing reports.
pub fn job_step_for_briefing(step: BriefingStep) -> (r: JobStep)
    ensures
        r == match step {
            BriefingStep::ReadingWatchlist => JobStep::ReadingWatchlist,
            BriefingStep::LoadingResearch => JobStep::LoadingResearch,
            BriefingStep::PersistingBriefing => JobStep::PersistingBriefing,
        },
{
    match step {
        BriefingStep::ReadingWatchlist => JobStep::ReadingWatchlist,
        BriefingStep::LoadingResearch => JobStep::LoadingResearch,
        BriefingStep::PersistingBriefing => JobStep::PersistingBriefing,
    }
}

/// How a claimed job is recorded when its execution ends.
#[derive(Debug, Clone, Copy, PartialEq, Eq, Structural)]
pub enum Settlement {
    Succeed(JobResult),
    Fail(ExecutionError),
}

/// Whether an execution's end needs a look for a result it may already have
/// committed: every end but a reported success does.
pub fn needs_recovery(execution: &Option<Result<JobResult, ExecutionError>>) -> (r: bool)
    ensures
        r == !(*execution matches Some(Ok(_))),
{
    match execution {
        Some(Ok(_)) => false,
        _ => true,
    }
}

/// Records an execution's end (`None` when the task stopped without an
/// answer). A committed result is never hidden: a failed or lost
/// acknowledgement still succeeds when the result was saved.
pub fn settle(execution: Option<Result<JobResult, ExecutionError>>, committed: Option<JobResult>) -> (r: Settlement)
    ensures
        match execution {
            Some(Ok(result)) => r == Settlement::Succeed(result),
            _ => match committed {
                Some(result) => r == Settlement::Succeed(result),
                None => r == Settlement::Fail(match execution {
                    Some(Err(e)) => e,
                    _ => ExecutionError::Panicked,
                }),
            },
        },
{
    match execution {
        Some(Ok(result)) => Settlement::Succeed(result),
        _ => match committed {
            Some(result) => Settlement::Succeed(result),
            None => Settlement::Fail(match execution {
                Some(Err(e)) => e,
                _ => ExecutionError::Panicked,
            }),
        },
    }
}

/// Recovers a job found running at startup: it succeeds with the result it
/// committed, or is marked interrupted.
pub fn recover(committed: Option<JobResult>) -> (r: Settlement)
    ensures
        match committed {
            Some(result) => r == Settlement::Succeed(result),
            None => r == Settlement::Fail(ExecutionError::Interrupted),
        },
{
    match committed {
        Some(result) => Settlement::Succeed(result),
        None => Settlement::Fail(ExecutionError::Interrupted),
    }
}

/// What the worker does after one round.
#[derive(Debug, Clone, Copy, PartialEq, Eq, Structural)]
pub enum WorkerNext {
    /// A job ran: look for the next one at once.
    RunAgain,
    /// Nothing was queued: wait for a wake-up or the poll interval.
    Wait,
    /// A transition could not be recorded: stop.
    Stop,
}

pub fn after_round(round: Result<bool, JobError>) -> (r: WorkerNext)
    ensures
        r == match round {
            Ok(true) => WorkerNext::RunAgain,
            Ok(false) => WorkerNext::Wait,
            Err(_) => WorkerNext::Stop,
        },
{
    match round {
        Ok(true) => WorkerNext::RunAgain,
        Ok(false) => WorkerNext::Wait,
        Err(_) => WorkerNext::Stop,
    }
}

/// The job error of a refused review submission.
pub fn submission_error(e: ReviewError) -> (r: JobError)
    ensures
        r == if e == ReviewError::NoPortfolio { JobError::NoPortfolio } else { JobError::InvalidPortfolio },
{
    match e {
        ReviewError::NoPortfolio => JobError::NoPortfolio,
        _ => JobError::InvalidPortfolio,
    }
}

/// Whether new work may be queued: the worker must be running, and a review
/// needs a reviewable portfolio.
pub fn submission_gate(worker_started: bool, portfolio: Result<(), ReviewError>) -> (r: Result<(), JobError>)
    ensures
        !worker_started ==> r == Err::<(), JobError>(JobError::Unavailable),
        worker_started ==> match portfolio {
            Ok(()) => r == Ok::<(), JobError>(()),
            Err(e) => r == Err::<(), JobError>(if e == ReviewError::NoPortfolio { JobError::NoPortfolio } else { JobError::InvalidPortfolio }),
        },
{
    if !worker_started {
        return Err(JobError::Unavailable);
    }
    match portfolio {
        Ok(()) => Ok(()),
        Err(e) => Err(submission_error(e)),
    }
}

/// Whether a job may be retried: only failed or interrupted jobs, and only
/// while the worker runs.
pub fn retry_gate(status: JobStatus, worker_started: bool) -> (r: Result<(), JobError>)
    ensures
        r == if !(status == JobStatus::Failed || status == JobStatus::Interrupted) {
            Err::<(), JobError>(JobError::InvalidTransition)
        } else if !worker_started {
            Err(JobError::Unavailable)
        } else {
            Ok(())
        },
{
    if !status.can_retry() {
        return Err(JobError::InvalidTransition);
    }
    if !worker_started {
        return Err(JobError::Unavailable);
    }
    Ok(())
}

} // verus!
