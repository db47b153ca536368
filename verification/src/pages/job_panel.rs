//! The job panel: its submit button, whether it keeps polling, and the
//! headline of each listed job.
use crate::jobs::domain::{Job, JobKind, JobStatus};
use crate::numtext::{int_text, int_to_text};
use vstd::prelude::*;

verus! {

/// The panel polls while any listed job is queued or running.
pub fn polling_needed(jobs: &Vec<Job>) -> (r: bool)
    ensures
        r == exists|i: int| 0 <= i < jobs@.len()
            && (#[trigger] jobs@[i].status == JobStatus::Queued || jobs@[i].status == JobStatus::Running),
{
    let mut k: usize = 0;
    while k < jobs.len()
        invariant
            k <= jobs@.len(),
            forall|i: int| 0 <= i < k ==> !(#[trigger] jobs@[i].status == JobStatus::Queued || jobs@[i].status == JobStatus::Running),
        decreases jobs@.len() - k,
    {
        if jobs[k].status.is_active() {
            return true;
        }
        k = k + 1;
    }
    false
}

pub open spec fn submit_label_text(busy: bool, key_pending: bool, kind: JobKind) -> Seq<char> {
    if busy {
        "Submitting…"@
    } else if key_pending {
        "Retry submission with same key"@
    } else if kind == JobKind::PortfolioReview {
        "Create portfolio review"@
    } else {
        "Create briefing"@
    }
}

/// The submit button's label: busy while a request runs; after a failed
/// submission it offers to resend the same idempotency key.
pub fn submit_label(busy: bool, key_pending: bool, kind: JobKind) -> (r: &'static str)
    ensures
        r@ == submit_label_text(busy, key_pending, kind),
{
    if busy {
        "Submitting…"
    } else if key_pending {
        "Retry submission with same key"
    } else {
        match kind {
            JobKind::PortfolioReview => "Create portfolio review",
            JobKind::WatchlistBriefing => "Create briefing",
        }
    }
}

pub open spec fn status_name(s: JobStatus) -> Seq<char> {
    match s {
        JobStatus::Queued => "Queued"@,
        JobStatus::Running => "Running"@,
        JobStatus::Succeeded => "Succeeded"@,
        JobStatus::Failed => "Failed"@,
        JobStatus::Interrupted => "Interrupted"@,
    }
}

/// The headline of a listed job: `Job #<id> · <status> · attempt <n>`.
pub fn job_headline(job: &Job) -> (r: String)
    ensures
        r@ == "Job #"@ + int_text(job.id as int) + " · "@ + status_name(job.status) + " · attempt "@
            + int_text(job.attempt_count as int),
{
    let mut text = "Job #".to_owned();
    let id = int_to_text(job.id);
    text.append(id.as_str());
    text.append(" · ");
    text.append(
        match job.status {
            JobStatus::Queued => "Queued",
            JobStatus::Running => "Running",
            JobStatus::Succeeded => "Succeeded",
            JobStatus::Failed => "Failed",
            JobStatus::Interrupted => "Interrupted",
        },
    );
    text.append(" · attempt ");
    let attempt = int_to_text(job.attempt_count);
    text.append(attempt.as_str());
    text
}

/// What the panel says once a submission is accepted.
pub fn accepted_message(job_id: i64) -> (r: String)
    ensures
        r@ == "Job #"@ + int_text(job_id as int) + " accepted. You can close this page and return later."@,
{
    let mut text = "Job #".to_owned();
    let id = int_to_text(job_id);
    text.append(id.as_str());
    text.append(" accepted. You can close this page and return later.");
    text
}

} // verus!
