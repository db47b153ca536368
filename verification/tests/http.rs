use epic_platform::http::{
    briefing_id, briefing_status, job_id, job_status, readiness_status, reload_status, research_status, review_id,
    review_status,
};
use epic_platform::jobs::domain::{JobError, Readiness};
use epic_platform::portfolio::PortfolioSnapshot;
use epic_platform::research::domain::ResearchError;
use epic_platform::review::domain::ReviewError;
use epic_platform::watchlist::domain::WatchlistError;

#[test]
fn errors_map_to_statuses() {
    assert_eq!(review_status(ReviewError::NoPortfolio), 409);
    assert_eq!(review_status(ReviewError::InvalidPortfolio), 422);
    assert_eq!(review_status(ReviewError::Calculation), 500);
    assert_eq!(review_status(ReviewError::Repository), 503);
    assert_eq!(job_status(JobError::InvalidKey), 400);
    assert_eq!(job_status(JobError::Watchlist { error: WatchlistError::Empty }), 422);
    assert_eq!(job_status(JobError::Unavailable), 503);
    assert_eq!(briefing_status(WatchlistError::NotFound), 404);
    assert_eq!(briefing_status(WatchlistError::ResearchUnavailable), 503);
    assert_eq!(research_status(None), 200);
    assert_eq!(research_status(Some(ResearchError::SourceHttp { status: 500 })), 502);
    assert_eq!(research_status(Some(ResearchError::Busy)), 409);
    assert_eq!(research_status(Some(ResearchError::Migration)), 503);
}

#[test]
fn path_identifiers_are_checked() {
    assert_eq!(job_id("12"), Ok(12));
    assert_eq!(job_id("0"), Err(JobError::InvalidId));
    assert_eq!(job_id("zero"), Err(JobError::InvalidId));
    assert_eq!(review_id("abc"), Err(ReviewError::InvalidId));
    assert_eq!(review_id("-3"), Ok(-3));
    assert_eq!(briefing_id("99999"), Ok(99999));
    assert_eq!(briefing_id("9999999999999999999"), Err(WatchlistError::InvalidId));
}

#[test]
fn readiness_and_reload_statuses() {
    assert_eq!(readiness_status(&Readiness::assess(true, true, true)), 200);
    assert_eq!(readiness_status(&Readiness::assess(true, false, true)), 503);
    let snapshot = PortfolioSnapshot::initial("/missing".into());
    assert_eq!(reload_status(&snapshot), 200);
}
