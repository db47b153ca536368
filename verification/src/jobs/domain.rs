use crate::numtext::{int_text, int_to_text};
use crate::review::domain::{review_error_text, ReviewError};
use crate::text::str_is;
use crate::watchlist::domain::{watchlist_error_text, WatchlistError, WatchlistInput};
use vstd::prelude::*;

verus! {

#[derive(Debug, Clone, Copy, PartialEq, Eq, Structural)]
pub enum JobKind {
    PortfolioReview,
    WatchlistBriefing,
}

#[derive(Debug, Clone, Copy, PartialEq, Eq, Structural)]
pub enum JobStatus {
    Queued,
    Running,
    Succeeded,
    Failed,
    Interrupted,
}

#[derive(Debug, Clone, Copy, PartialEq, Eq, Structural)]
pub enum JobStep {
    Queued,
    SnapshottingPortfolio,
    LoadingResearch,
    CalculatingReview,
    PersistingReview,
    ReadingWatchlist,
    PersistingBriefing,
    Completed,
}

/// The closed job lifecycle: queued work starts running, running work ends
/// succeeded, failed or interrupted, and only failed or interrupted work is
/// queued again (manually).
pub open spec fn lifecycle_allows(from: JobStatus, to: JobStatus) -> bool {
    ||| (from == JobStatus::Queued && to == JobStatus::Running)
    ||| (from == JobStatus::Running && (to == JobStatus::Succeeded || to == JobStatus::Failed || to == JobStatus::Interrupted))
    ||| ((from == JobStatus::Failed || from == JobStatus::Interrupted) && to == JobStatus::Queued)
}

impl JobStatus {
    pub fn is_active(self) -> (r: bool)
        ensures
            r == (self == JobStatus::Queued || self == JobStatus::Running),
    {
        matches!(self, JobStatus::Queued | JobStatus::Running)
    }

    pub fn can_retry(self) -> (r: bool)
        ensures
            r == (self == JobStatus::Failed || self == JobStatus::Interrupted),
    {
        matches!(self, JobStatus::Failed | JobStatus::Interrupted)
    }

    pub fn allows(self, next: JobStatus) -> (r: bool)
        ensures
            r == lifecycle_allows(self, next),
    {
        match (self, next) {
            (JobStatus::Queued, JobStatus::Running) => true,
            (JobStatus::Running, JobStatus::Succeeded) => true,
            (JobStatus::Running, JobStatus::Failed) => true,
            (JobStatus::Running, JobStatus::Interrupted) => true,
            (JobStatus::Failed, JobStatus::Queued) => true,
            (JobStatus::Interrupted, JobStatus::Queued) => true,
            _ => false,
        }
    }
}

/// Stored names of job kinds.
pub open spec fn job_kind_name(k: JobKind) -> Seq<char> {
    match k {
        JobKind::PortfolioReview => "portfolio_review"@,
        JobKind::WatchlistBriefing => "watchlist_briefing"@,
    }
}

impl JobKind {
    pub fn as_str(self) -> (r: &'static str)
        ensures
            r@ == job_kind_name(self),
    {
        match self {
            JobKind::PortfolioReview => "portfolio_review",
            JobKind::WatchlistBriefing => "watchlist_briefing",
        }
    }

    /// The variant whose name is exactly `name`.
    pub fn from_name(name: &str) -> (r: Option<JobKind>)
        ensures
            match r {
                Some(k) => job_kind_name(k) == name@,
                None => forall|k: JobKind| job_kind_name(k) != name@,
            },
    {
        if str_is(name, "portfolio_review") {
            return Some(JobKind::PortfolioReview);
        }
        if str_is(name, "watchlist_briefing") {
            return Some(JobKind::WatchlistBriefing);
        }
        None
    }
}

/// Stored names of job states.
pub open spec fn job_status_name(k: JobStatus) -> Seq<char> {
    match k {
        JobStatus::Queued => "queued"@,
        JobStatus::Running => "running"@,
        JobStatus::Succeeded => "succeeded"@,
        JobStatus::Failed => "failed"@,
        JobStatus::Interrupted => "interrupted"@,
    }
}

impl JobStatus {
    pub fn as_str(self) -> (r: &'static str)
        ensures
            r@ == job_status_name(self),
    {
        match self {
            JobStatus::Queued => "queued",
            JobStatus::Running => "running",
            JobStatus::Succeeded => "succeeded",
            JobStatus::Failed => "failed",
            JobStatus::Interrupted => "interrupted",
        }
    }

    /// The variant whose name is exactly `name`.
    pub fn from_name(name: &str) -> (r: Option<JobStatus>)
        ensures
            match r {
                Some(k) => job_status_name(k) == name@,
                None => forall|k: JobStatus| job_status_name(k) != name@,
            },
    {
        if str_is(name, "queued") {
            return Some(JobStatus::Queued);
        }
        if str_is(name, "running") {
            return Some(JobStatus::Running);
        }
        if str_is(name, "succeeded") {
            return Some(JobStatus::Succeeded);
        }
        if str_is(name, "failed") {
            return Some(JobStatus::Failed);
        }
        if str_is(name, "interrupted") {
            return Some(JobStatus::Interrupted);
        }
        None
    }
}

/// Stored names of execution steps.
pub open spec fn job_step_name(k: JobStep) -> Seq<char> {
    match k {
        JobStep::Queued => "queued"@,
        JobStep::SnapshottingPortfolio => "snapshotting_portfolio"@,
        JobStep::LoadingResearch => "loading_research"@,
        JobStep::CalculatingReview => "calculating_review"@,
        JobStep::PersistingReview => "persisting_review"@,
        JobStep::ReadingWatchlist => "reading_watchlist"@,
        JobStep::PersistingBriefing => "persisting_briefing"@,
        JobStep::Completed => "completed"@,
    }
}

impl JobStep {
    pub fn as_str(self) -> (r: &'static str)
        ensures
            r@ == job_step_name(self),
    {
        match self {
            JobStep::Queued => "queued",
            JobStep::SnapshottingPortfolio => "snapshotting_portfolio",
            JobStep::LoadingResearch => "loading_research",
            JobStep::CalculatingReview => "calculating_review",
            JobStep::PersistingReview => "persisting_review",
            JobStep::ReadingWatchlist => "reading_watchlist",
            JobStep::PersistingBriefing => "persisting_briefing",
            JobStep::Completed => "completed",
        }
    }

    /// The variant whose name is exactly `name`.
    pub fn from_name(name: &str) -> (r: Option<JobStep>)
        ensures
            match r {
                Some(k) => job_step_name(k) == name@,
                None => forall|k: JobStep| job_step_name(k) != name@,
            },
    {
        if str_is(name, "queued") {
            return Some(JobStep::Queued);
        }
        if str_is(name, "snapshotting_portfolio") {
            return Some(JobStep::SnapshottingPortfolio);
        }
        if str_is(name, "loading_research") {
            return Some(JobStep::LoadingResearch);
        }
        if str_is(name, "calculating_review") {
            return Some(JobStep::CalculatingReview);
        }
        if str_is(name, "persisting_review") {
            return Some(JobStep::PersistingReview);
        }
        if str_is(name, "reading_watchlist") {
            return Some(JobStep::ReadingWatchlist);
        }
        if str_is(name, "persisting_briefing") {
            return Some(JobStep::PersistingBriefing);
        }
        if str_is(name, "completed") {
            return Some(JobStep::Completed);
        }
        None
    }
}

#[derive(Debug, Clone, PartialEq)]
pub struct JobFailure {
    pub attempt: i64,
    pub status: JobStatus,
    pub step: JobStep,
    pub started_at: String,
    pub completed_at: String,
    pub error: String,
}

#[derive(Debug, Clone, Copy, PartialEq, Eq, Structural)]
pub enum JobResult {
    Review { id: i64 },
    WatchlistBriefing { id: i64 },
}

impl JobResult {
    pub fn id(&self) -> (r: i64)
        ensures
            r == result_id(*self),
    {
        match self {
            JobResult::Review { id } => *id,
            JobResult::WatchlistBriefing { id } => *id,
        }
    }

    pub fn kind(&self) -> (r: JobKind)
        ensures
            r == result_kind(*self),
    {
        match self {
            JobResult::Review { .. } => JobKind::PortfolioReview,
            JobResult::WatchlistBriefing { .. } => JobKind::WatchlistBriefing,
        }
    }

    /// The result of a job of `kind` that saved record `id`.
    pub fn for_kind(kind: JobKind, id: i64) -> (r: JobResult)
        ensures
            result_kind(r) == kind,
            result_id(r) == id,
    {
        match kind {
            JobKind::PortfolioReview => JobResult::Review { id },
            JobKind::WatchlistBriefing => JobResult::WatchlistBriefing { id },
        }
    }
}

pub open spec fn result_id(r: JobResult) -> i64 {
    match r {
        JobResult::Review { id } => id,
        JobResult::WatchlistBriefing { id } => id,
    }
}

pub open spec fn result_kind(r: JobResult) -> JobKind {
    match r {
        JobResult::Review { .. } => JobKind::PortfolioReview,
        JobResult::WatchlistBriefing { .. } => JobKind::WatchlistBriefing,
    }
}

/// What a job works on; a briefing keeps the watchlist it was submitted with.
#[derive(Debug)]
pub enum JobInput {
    PortfolioReview,
    WatchlistBriefing { symbols: WatchlistInput },
}

pub open spec fn input_kind(i: JobInput) -> JobKind {
    match i {
        JobInput::PortfolioReview => JobKind::PortfolioReview,
        JobInput::WatchlistBriefing { .. } => JobKind::WatchlistBriefing,
    }
}

impl JobInput {
    pub fn kind(&self) -> (r: JobKind)
        ensures
            r == input_kind(*self),
    {
        match self {
            JobInput::PortfolioReview => JobKind::PortfolioReview,
            JobInput::WatchlistBriefing { .. } => JobKind::WatchlistBriefing,
        }
    }
}

impl Clone for JobInput {
    fn clone(&self) -> (r: Self)
        ensures
            input_kind(r) == input_kind(*self),
            r matches JobInput::WatchlistBriefing { symbols: a } ==> (*self matches JobInput::WatchlistBriefing { symbols: b } && a@ == b@),
    {
        match self {
            JobInput::PortfolioReview => JobInput::PortfolioReview,
            JobInput::WatchlistBriefing { symbols } => JobInput::WatchlistBriefing { symbols: symbols.clone() },
        }
    }
}

#[derive(Debug, Clone)]
pub struct Job {
    pub id: i64,
    pub kind: JobKind,
    pub input: JobInput,
    pub status: JobStatus,
    pub created_at: String,
    pub queued_at: String,
    pub started_at: Option<String>,
    pub completed_at: Option<String>,
    pub attempt_count: i64,
    pub step: JobStep,
    pub error: Option<String>,
    pub result: Option<JobResult>,
    pub previous_failures: Vec<JobFailure>,
}

#[derive(Debug, Clone)]
pub struct JobSubmission {
    pub job_id: i64,
    pub status: JobStatus,
    pub status_url: String,
}

impl JobSubmission {
    /// The acknowledgement of a submitted job, pointing at its status resource.
    pub fn from_job(job: &Job) -> (r: JobSubmission)
        ensures
            r.job_id == job.id,
            r.status == job.status,
            r.status_url@ == "/api/jobs/"@ + int_text(job.id as int),
    {
        let mut url = "/api/jobs/".to_owned();
        let number = int_to_text(job.id);
        url.append(number.as_str());
        JobSubmission { job_id: job.id, status: job.status, status_url: url }
    }
}

#[derive(Debug, Clone, Copy, PartialEq, Eq, Structural)]
pub enum JobError {
    Repository,
    NotFound,
    InvalidId,
    InvalidKey,
    InvalidTransition,
    Unavailable,
    NoPortfolio,
    InvalidPortfolio,
    Watchlist { error: WatchlistError },
}

pub open spec fn job_error_text(e: JobError) -> Seq<char> {
    match e {
        JobError::Repository => "Job database operation failed. Check job status before resubmitting."@,
        JobError::NotFound => "This job does not exist."@,
        JobError::InvalidId => "Job ID must be a positive integer."@,
        JobError::InvalidKey => "Idempotency-Key must contain 1–128 ASCII letters, digits, dots, underscores or hyphens."@,
        JobError::InvalidTransition => "This job cannot make that state transition. Only failed or interrupted jobs can be retried."@,
        JobError::Unavailable => "The review worker is unavailable. Check readiness and restart after resolving the server error."@,
        JobError::NoPortfolio => "Load local Schwab data on Portfolio before creating a review."@,
        JobError::InvalidPortfolio => "The portfolio is empty or inconsistent. Reload valid local data."@,
        JobError::Watchlist { error } => watchlist_error_text(error),
    }
}

impl JobError {
    /// The user-facing explanation of the error.
    pub fn message(&self) -> (r: String)
        ensures
            r@ == job_error_text(*self),
    {
        let text = match self {
            JobError::Repository => "Job database operation failed. Check job status before resubmitting.",
            JobError::NotFound => "This job does not exist.",
            JobError::InvalidId => "Job ID must be a positive integer.",
            JobError::InvalidKey => "Idempotency-Key must contain 1–128 ASCII letters, digits, dots, underscores or hyphens.",
            JobError::InvalidTransition => "This job cannot make that state transition. Only failed or interrupted jobs can be retried.",
            JobError::Unavailable => "The review worker is unavailable. Check readiness and restart after resolving the server error.",
            JobError::NoPortfolio => "Load local Schwab data on Portfolio before creating a review.",
            JobError::InvalidPortfolio => "The portfolio is empty or inconsistent. Reload valid local data.",
            JobError::Watchlist { error } => {
                return error.message();
            },
        };
        text.to_owned()
    }
}

/// A job error as the API reports it.
#[derive(Debug, Clone)]
pub struct JobApiError {
    pub error: JobError,
    pub message: String,
}

impl JobApiError {
    pub fn from_error(error: JobError) -> (r: JobApiError)
        ensures
            r.error == error,
            r.message@ == job_error_text(error),
    {
        JobApiError { error, message: error.message() }
    }
}

/// Rejects job identifiers that cannot exist.
pub fn validate_job_id(id: i64) -> (r: Result<(), JobError>)
    ensures
        r == if id <= 0 { Err::<(), JobError>(JobError::InvalidId) } else { Ok(()) },
{
    if id <= 0 {
        Err(JobError::InvalidId)
    } else {
        Ok(())
    }
}

#[derive(Debug, Clone, Copy, PartialEq, Eq, Structural)]
pub enum ExecutionError {
    Review(ReviewError),
    Watchlist(WatchlistError),
    Interrupted,
    Panicked,
}

pub open spec fn execution_error_text(e: ExecutionError) -> Seq<char> {
    match e {
        ExecutionError::Review(error) => review_error_text(error),
        ExecutionError::Watchlist(error) => watchlist_error_text(error),
        ExecutionError::Interrupted => "Execution stopped before a saved review was found. You may retry manually."@,
        ExecutionError::Panicked => "The review task stopped unexpectedly. Check the server log; you may retry manually."@,
    }
}

impl ExecutionError {
    /// The text recorded as the job's error.
    pub fn message(&self) -> (r: String)
        ensures
            r@ == execution_error_text(*self),
    {
        match self {
            ExecutionError::Review(error) => error.message(),
            ExecutionError::Watchlist(error) => error.message(),
            ExecutionError::Interrupted => {
                "Execution stopped before a saved review was found. You may retry manually.".to_owned()
            },
            ExecutionError::Panicked => {
                "The review task stopped unexpectedly. Check the server log; you may retry manually.".to_owned()
            },
        }
    }
}

#[derive(Debug, Clone, Copy, PartialEq, Eq, Structural)]
pub struct Readiness {
    pub ready: bool,
    pub migrations_completed: bool,
    pub job_repository_usable: bool,
    pub worker_started: bool,
}

impl Readiness {
    /// Ready only when storage migrated, the job store answers and the worker runs.
    pub fn assess(migrations_completed: bool, job_repository_usable: bool, worker_started: bool) -> (r: Readiness)
        ensures
            r.ready == (migrations_completed && job_repository_usable && worker_started),
            r.migrations_completed == migrations_completed,
            r.job_repository_usable == job_repository_usable,
            r.worker_started == worker_started,
    {
        Readiness {
            ready: migrations_completed && job_repository_usable && worker_started,
            migrations_completed,
            job_repository_usable,
            worker_started,
        }
    }
}

pub open spec fn key_char_allowed(c: char) -> bool {
    ('a' <= c && c <= 'z') || ('A' <= c && c <= 'Z') || ('0' <= c && c <= '9') || c == '.' || c == '_' || c == '-'
}

/// An idempotency key: 1 to 128 ASCII letters, digits, dots, underscores or hyphens.
/// (Any non-ASCII character already disqualifies a key, so counting characters
/// and counting bytes agree on every acceptable key.)
pub open spec fn valid_key(k: Seq<char>) -> bool {
    &&& 0 < k.len() <= 128
    &&& forall|i: int| 0 <= i < k.len() ==> key_char_allowed(#[trigger] k[i])
}

/// Checks an optional client idempotency key.
pub fn validate_key(key: Option<&str>) -> (r: Result<(), JobError>)
    ensures
        r is Ok <==> (key matches Some(k) ==> valid_key(k@)),
        r matches Err(e) ==> e == JobError::InvalidKey,
{
    match key {
        None => Ok(()),
        Some(k) => {
            let cs = crate::text::chars_of(k);
            if cs.len() == 0 || cs.len() > 128 {
                return Err(JobError::InvalidKey);
            }
            let mut i: usize = 0;
            while i < cs.len()
                invariant
                    i <= cs@.len(),
                    cs@ == k@,
                    key == Some(k),
                    forall|j: int| 0 <= j < i ==> key_char_allowed(#[trigger] cs@[j]),
                decreases cs@.len() - i,
            {
                let c = cs[i];
                if !(('a' <= c && c <= 'z') || ('A' <= c && c <= 'Z') || ('0' <= c && c <= '9') || c == '.' || c == '_' || c == '-') {
                    return Err(JobError::InvalidKey);
                }
                i = i + 1;
            }
            Ok(())
        },
    }
}

} // verus!
