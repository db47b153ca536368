//! How the HTTP API answers: the status code of each error, and the
//! identifiers it accepts in paths.
use crate::jobs::domain::{JobError, Readiness};
use crate::numtext::{parse_i64, parse_i64_spec, parse_positive_id};
use crate::portfolio::{LoadStatus, PortfolioSnapshot};
use crate::research::domain::{RefreshResponse, ResearchError};
use crate::review::domain::ReviewError;
use crate::watchlist::domain::WatchlistError;
use vstd::prelude::*;

verus! {

pub open spec fn review_status_spec(e: ReviewError) -> u16 {
    match e {
        ReviewError::NoPortfolio => 409,
        ReviewError::InvalidPortfolio => 422,
        ReviewError::NotFound => 404,
        ReviewError::InvalidId => 400,
        ReviewError::Calculation => 500,
        _ => 503,
    }
}

/// The status of a review error.
pub fn review_status(e: ReviewError) -> (r: u16)
    ensures
        r == review_status_spec(e),
{
    match e {
        ReviewError::NoPortfolio => 409,
        ReviewError::InvalidPortfolio => 422,
        ReviewError::NotFound => 404,
        ReviewError::InvalidId => 400,
        ReviewError::Calculation => 500,
        _ => 503,
    }
}

pub open spec fn job_status_spec(e: JobError) -> u16 {
    match e {
        JobError::NotFound => 404,
        JobError::InvalidId | JobError::InvalidKey => 400,
        JobError::InvalidTransition | JobError::NoPortfolio => 409,
        JobError::InvalidPortfolio => 422,
        JobError::Repository | JobError::Unavailable => 503,
        JobError::Watchlist { .. } => 422,
    }
}

/// The status of a job error.
pub fn job_status(e: JobError) -> (r: u16)
    ensures
        r == job_status_spec(e),
{
    match e {
        JobError::NotFound => 404,
        JobError::InvalidId | JobError::InvalidKey => 400,
        JobError::InvalidTransition | JobError::NoPortfolio => 409,
        JobError::InvalidPortfolio => 422,
        JobError::Repository | JobError::Unavailable => 503,
        JobError::Watchlist { .. } => 422,
    }
}

pub open spec fn briefing_status_spec(e: WatchlistError) -> u16 {
    match e {
        WatchlistError::NotFound => 404,
        WatchlistError::InvalidId => 400,
        WatchlistError::Empty | WatchlistError::InvalidConfiguration => 422,
        _ => 503,
    }
}

/// The status of a briefing error.
pub fn briefing_status(e: WatchlistError) -> (r: u16)
    ensures
        r == briefing_status_spec(e),
{
    match e {
        WatchlistError::NotFound => 404,
        WatchlistError::InvalidId => 400,
        WatchlistError::Empty | WatchlistError::InvalidConfiguration => 422,
        _ => 503,
    }
}

pub open spec fn research_status_spec(e: Option<ResearchError>) -> u16 {
    match e {
        None => 200,
        Some(ResearchError::InvalidSymbol) => 400,
        Some(ResearchError::UnsupportedSymbol) => 404,
        Some(ResearchError::Busy) => 409,
        Some(ResearchError::Timeout) => 504,
        Some(ResearchError::SourceUnavailable) | Some(ResearchError::SourceHttp { .. }) | Some(ResearchError::MalformedSource) => 502,
        Some(_) => 503,
    }
}

/// The status of a research answer carrying `e`.
pub fn research_status(e: Option<ResearchError>) -> (r: u16)
    ensures
        r == research_status_spec(e),
{
    match e {
        None => 200,
        Some(ResearchError::InvalidSymbol) => 400,
        Some(ResearchError::UnsupportedSymbol) => 404,
        Some(ResearchError::Busy) => 409,
        Some(ResearchError::Timeout) => 504,
        Some(ResearchError::SourceUnavailable) | Some(ResearchError::SourceHttp { .. }) | Some(ResearchError::MalformedSource) => 502,
        Some(_) => 503,
    }
}

/// The status of a refresh answer: that of its refresh error, else of its
/// view's error.
pub fn refresh_status(response: &RefreshResponse) -> (r: u16)
    ensures
        r == research_status_spec(match response.company.refresh_error {
            Some(e) => Some(e),
            None => response.company.error,
        }),
{
    let e = match response.company.refresh_error {
        Some(e) => Some(e),
        None => response.company.error,
    };
    research_status(e)
}

/// Ready (200) or unavailable (503).
pub fn readiness_status(readiness: &Readiness) -> (r: u16)
    ensures
        r == if readiness.ready { 200u16 } else { 503u16 },
{
    if readiness.ready {
        200
    } else {
        503
    }
}

/// A failed reload answers 422; any other snapshot 200.
pub fn reload_status(snapshot: &PortfolioSnapshot) -> (r: u16)
    ensures
        r == if snapshot.status == LoadStatus::Failed { 422u16 } else { 200u16 },
{
    if snapshot.status == LoadStatus::Failed {
        422
    } else {
        200
    }
}

/// A job identifier in a path: a positive integer.
pub fn job_id(text: &str) -> (r: Result<i64, JobError>)
    ensures
        match parse_i64_spec(text@) {
            Some(v) => if v > 0 { r == Ok::<i64, JobError>(v) } else { r == Err::<i64, JobError>(JobError::InvalidId) },
            None => r == Err::<i64, JobError>(JobError::InvalidId),
        },
{
    match parse_positive_id(text) {
        Some(v) => Ok(v),
        None => Err(JobError::InvalidId),
    }
}

/// A review identifier in a path: an integer (the review service rejects
/// non-positive ones).
pub fn review_id(text: &str) -> (r: Result<i64, ReviewError>)
    ensures
        match parse_i64_spec(text@) {
            Some(v) => r == Ok::<i64, ReviewError>(v),
            None => r == Err::<i64, ReviewError>(ReviewError::InvalidId),
        },
{
    match parse_i64(text) {
        Some(v) => Ok(v),
        None => Err(ReviewError::InvalidId),
    }
}

/// A briefing identifier in a path: an integer.
pub fn briefing_id(text: &str) -> (r: Result<i64, WatchlistError>)
    ensures
        match parse_i64_spec(text@) {
            Some(v) => r == Ok::<i64, WatchlistError>(v),
            None => r == Err::<i64, WatchlistError>(WatchlistError::InvalidId),
        },
{
    match parse_i64(text) {
        Some(v) => Ok(v),
        None => Err(WatchlistError::InvalidId),
    }
}

} // verus!
