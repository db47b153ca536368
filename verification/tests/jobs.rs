use epic_platform::jobs::domain::{
    validate_key, ExecutionError, Job, JobError, JobInput, JobKind, JobResult, JobStatus, JobStep, JobSubmission,
    Readiness,
};
use epic_platform::jobs::lifecycle::{changed, claim, fail, progress, required_previous_step, retry, succeed};
use epic_platform::jobs::runner::{after_round, recover, retry_gate, settle, submission_gate, Settlement, WorkerNext};
use epic_platform::review::domain::ReviewError;
use JobStatus::{Failed, Interrupted, Queued, Running, Succeeded};

#[test]
fn lifecycle_is_closed_and_explicit() {
    for from in [Queued, Running, Succeeded, Failed, Interrupted] {
        for to in [Queued, Running, Succeeded, Failed, Interrupted] {
            let expected = matches!(
                (from, to),
                (Queued, Running) | (Running, Succeeded | Failed | Interrupted) | (Failed | Interrupted, Queued)
            );
            assert_eq!(from.allows(to), expected);
        }
    }
}

fn queued(id: i64, kind: JobKind) -> Job {
    Job {
        id,
        kind,
        input: match kind {
            JobKind::PortfolioReview => JobInput::PortfolioReview,
            JobKind::WatchlistBriefing => {
                JobInput::WatchlistBriefing { symbols: epic_platform::watchlist::domain::WatchlistInput::parse("MSFT").unwrap() }
            }
        },
        status: JobStatus::Queued,
        step: JobStep::Queued,
        attempt_count: 0,
        created_at: "2025-08-02T00:00:00Z".to_string(),
        queued_at: "2025-08-02T00:00:00Z".to_string(),
        started_at: None,
        completed_at: None,
        result: None,
        error: None,
        previous_failures: Vec::new(),
    }
}

fn running(id: i64) -> Job {
    claim(queued(id, JobKind::PortfolioReview), "t1".to_string()).unwrap()
}

#[test]
fn claim_progress_and_stale_attempt_guards() {
    let job = running(7);
    assert_eq!(job.status, JobStatus::Running);
    assert_eq!(job.attempt_count, 1);
    assert_eq!(job.step, JobStep::SnapshottingPortfolio);
    assert_eq!(claim(running(7), "t2".to_string()).unwrap_err(), JobError::InvalidTransition);
    let job = progress(job, 1, JobStep::LoadingResearch).unwrap();
    assert_eq!(job.step, JobStep::LoadingResearch);
    let stale = progress(running(7), 1, JobStep::LoadingResearch).unwrap();
    assert_eq!(progress(stale, 2, JobStep::CalculatingReview).unwrap_err(), JobError::InvalidTransition);
    let skipping = progress(running(7), 1, JobStep::LoadingResearch).unwrap();
    assert_eq!(progress(skipping, 1, JobStep::PersistingReview).unwrap_err(), JobError::InvalidTransition);
    let done = succeed(job, 1, JobResult::Review { id: 3 }, "t3".to_string()).unwrap();
    assert_eq!(done.status, JobStatus::Succeeded);
    assert_eq!(done.step, JobStep::Completed);
    assert_eq!(done.result, Some(JobResult::Review { id: 3 }));
}

#[test]
fn failed_job_api_retry_preserves_identity_and_counts_execution() {
    let job = claim(queued(9, JobKind::PortfolioReview), "t1".to_string()).unwrap();
    let failed = fail(job, 1, ExecutionError::Review(ReviewError::Calculation), "t2".to_string()).unwrap();
    assert_eq!(failed.status, JobStatus::Failed);
    assert_eq!(failed.previous_failures.len(), 1);
    assert_eq!(failed.previous_failures[0].attempt, 1);
    let again = retry(failed, "t3".to_string()).unwrap();
    assert_eq!(again.id, 9);
    assert_eq!(again.status, JobStatus::Queued);
    assert_eq!(again.attempt_count, 1);
    let running = claim(again, "t4".to_string()).unwrap();
    assert_eq!(running.attempt_count, 2);
    let interrupted = fail(running, 2, ExecutionError::Interrupted, "t5".to_string()).unwrap();
    assert_eq!(interrupted.status, JobStatus::Interrupted);
    assert_eq!(interrupted.previous_failures.len(), 2);
    assert_eq!(retry(queued(1, JobKind::PortfolioReview), "t".to_string()).unwrap_err(), JobError::InvalidTransition);
}

#[test]
fn briefing_steps_and_results_keep_their_kind() {
    let job = claim(queued(4, JobKind::WatchlistBriefing), "t1".to_string()).unwrap();
    assert_eq!(job.step, JobStep::ReadingWatchlist);
    assert_eq!(required_previous_step(JobKind::WatchlistBriefing, JobStep::PersistingBriefing), Ok(JobStep::LoadingResearch));
    assert!(required_previous_step(JobKind::WatchlistBriefing, JobStep::CalculatingReview).is_err());
    assert_eq!(
        succeed(job, 1, JobResult::Review { id: 1 }, "t".to_string()).unwrap_err(),
        JobError::InvalidTransition
    );
}

#[test]
fn changed_rows_and_keys_are_checked() {
    assert_eq!(changed(1), Ok(()));
    assert_eq!(changed(0), Err(JobError::InvalidTransition));
    assert_eq!(validate_key(None), Ok(()));
    assert_eq!(validate_key(Some("browser-click-1")), Ok(()));
    assert_eq!(validate_key(Some("")), Err(JobError::InvalidKey));
    assert_eq!(validate_key(Some("bad key")), Err(JobError::InvalidKey));
    assert_eq!(validate_key(Some("contains/separator")), Err(JobError::InvalidKey));
    assert_eq!(validate_key(Some(&"k".repeat(129))), Err(JobError::InvalidKey));
    assert_eq!(validate_key(Some(&"k".repeat(128))), Ok(()));
}

#[test]
fn submission_points_at_the_job() {
    let submission = JobSubmission::from_job(&queued(42, JobKind::PortfolioReview));
    assert_eq!(submission.job_id, 42);
    assert_eq!(submission.status, JobStatus::Queued);
    assert_eq!(submission.status_url, "/api/jobs/42");
}

#[test]
fn committed_result_is_never_hidden() {
    let result = JobResult::Review { id: 5 };
    assert_eq!(settle(Some(Ok(result)), None), Settlement::Succeed(result));
    assert_eq!(settle(Some(Err(ExecutionError::Review(ReviewError::Repository))), Some(result)), Settlement::Succeed(result));
    assert_eq!(settle(None, Some(result)), Settlement::Succeed(result));
    assert_eq!(settle(None, None), Settlement::Fail(ExecutionError::Panicked));
    assert_eq!(
        settle(Some(Err(ExecutionError::Review(ReviewError::NoPortfolio))), None),
        Settlement::Fail(ExecutionError::Review(ReviewError::NoPortfolio))
    );
    assert_eq!(recover(Some(result)), Settlement::Succeed(result));
    assert_eq!(recover(None), Settlement::Fail(ExecutionError::Interrupted));
}

#[test]
fn worker_and_submission_decisions() {
    assert_eq!(after_round(Ok(true)), WorkerNext::RunAgain);
    assert_eq!(after_round(Ok(false)), WorkerNext::Wait);
    assert_eq!(after_round(Err(JobError::Repository)), WorkerNext::Stop);
    assert_eq!(submission_gate(false, Ok(())), Err(JobError::Unavailable));
    assert_eq!(submission_gate(true, Err(ReviewError::NoPortfolio)), Err(JobError::NoPortfolio));
    assert_eq!(submission_gate(true, Err(ReviewError::InvalidPortfolio)), Err(JobError::InvalidPortfolio));
    assert_eq!(submission_gate(true, Ok(())), Ok(()));
    assert_eq!(retry_gate(JobStatus::Running, true), Err(JobError::InvalidTransition));
    assert_eq!(retry_gate(JobStatus::Failed, false), Err(JobError::Unavailable));
    assert_eq!(retry_gate(JobStatus::Interrupted, true), Ok(()));
}

#[test]
fn readiness_requires_every_part() {
    assert!(Readiness::assess(true, true, true).ready);
    assert!(!Readiness::assess(true, true, false).ready);
    assert!(!Readiness::assess(false, true, true).ready);
    assert_eq!(JobStep::PersistingBriefing.as_str(), "persisting_briefing");
    assert_eq!(JobKind::from_name("watchlist_briefing"), Some(JobKind::WatchlistBriefing));
    assert_eq!(JobStatus::from_name("interrupted"), Some(JobStatus::Interrupted));
    assert_eq!(JobStatus::from_name("unknown"), None);
}
