use epic_platform::decimal::Dec;
use epic_platform::jobs::domain::{Job, JobInput, JobKind, JobStatus, JobStep};
use epic_platform::pages::job_panel::{accepted_message, job_headline, polling_needed, submit_label};
use epic_platform::pages::portfolio::{load_notice, money_text};
use epic_platform::pages::remember;
use epic_platform::pages::research::{after_refresh, card_title, portfolio_stale, refresh_feedback, status_line};
use epic_platform::pages::review::{
    latest_created, percent_text, points_text, positions_in, symbols_text, ReviewSection,
};
use epic_platform::pages::watchlist::{configured_symbols, entry_title};
use epic_platform::portfolio::{HoldingSummary, LoadStatus};
use epic_platform::research::domain::{
    Company, CompanyView, EarningsPeriod, HoldingResearch, HoldingsResearch, RefreshOutcome, RefreshResponse,
    ResearchError, ResearchSnapshot, ResearchStatus,
};
use epic_platform::review::domain::{CoverageStatus, LargestPosition, ReviewHistoryEntry, ReviewPosition, ReviewSummary};
use epic_platform::symbol::StockSymbol;
use epic_platform::watchlist::domain::{
    BriefingEntry, BriefingHistoryEntry, BriefingStatus, WatchlistConfiguration, WatchlistError, WatchlistInput,
};

fn job(id: i64, status: JobStatus) -> Job {
    Job {
        id,
        kind: JobKind::PortfolioReview,
        input: JobInput::PortfolioReview,
        status,
        step: JobStep::Queued,
        attempt_count: 2,
        created_at: "2025-08-02T00:00:00Z".to_string(),
        queued_at: "2025-08-02T00:00:00Z".to_string(),
        started_at: None,
        completed_at: None,
        result: None,
        error: None,
        previous_failures: Vec::new(),
    }
}

fn briefing(id: i64, created_at: &str) -> BriefingHistoryEntry {
    BriefingHistoryEntry { id, created_at: created_at.to_string(), symbols: Vec::new() }
}

fn ids<T>(rows: &[T], id: impl Fn(&T) -> i64) -> Vec<i64> {
    rows.iter().map(id).collect()
}

#[test]
fn remembered_records_replace_older_copies_newest_first() {
    let mut rows = vec![briefing(5, "old"), briefing(3, "c"), briefing(1, "a")];
    remember(&mut rows, briefing(4, "d"));
    assert_eq!(ids(&rows, |r| r.id), vec![5, 4, 3, 1]);
    remember(&mut rows, briefing(5, "new"));
    assert_eq!(ids(&rows, |r| r.id), vec![5, 4, 3, 1]);
    assert_eq!(rows[0].created_at, "new");
    let mut unordered = vec![briefing(2, "x"), briefing(9, "y"), briefing(2, "z")];
    remember(&mut unordered, briefing(7, "w"));
    assert_eq!(ids(&unordered, |r| r.id), vec![9, 7, 2, 2]);
    assert_eq!(unordered[2].created_at, "x");
    assert_eq!(unordered[3].created_at, "z");
    let mut empty: Vec<BriefingHistoryEntry> = Vec::new();
    remember(&mut empty, briefing(1, "only"));
    assert_eq!(ids(&empty, |r| r.id), vec![1]);
}

#[test]
fn job_panel_polls_active_jobs_and_labels_submission() {
    let mut jobs = vec![job(2, JobStatus::Succeeded), job(1, JobStatus::Failed)];
    assert!(!polling_needed(&jobs));
    remember(&mut jobs, job(3, JobStatus::Queued));
    assert_eq!(ids(&jobs, |j| j.id), vec![3, 2, 1]);
    assert!(polling_needed(&jobs));
    assert!(polling_needed(&vec![job(1, JobStatus::Running)]));
    assert!(!polling_needed(&Vec::new()));
    assert_eq!(submit_label(true, true, JobKind::PortfolioReview), "Submitting…");
    assert_eq!(submit_label(false, true, JobKind::WatchlistBriefing), "Retry submission with same key");
    assert_eq!(submit_label(false, false, JobKind::PortfolioReview), "Create portfolio review");
    assert_eq!(submit_label(false, false, JobKind::WatchlistBriefing), "Create briefing");
    assert_eq!(job_headline(&job(12, JobStatus::Interrupted)), "Job #12 · Interrupted · attempt 2");
    assert_eq!(accepted_message(7), "Job #7 accepted. You can close this page and return later.");
}

#[test]
fn portfolio_notice_marks_a_kept_snapshot_stale() {
    assert_eq!(load_notice(LoadStatus::Failed, true), "Reload failed — showing the last successful snapshot (stale)");
    assert_eq!(load_notice(LoadStatus::Failed, false), "Portfolio unavailable — local data could not be loaded");
    assert_eq!(load_notice(LoadStatus::Loaded, true), "Local data loaded successfully");
    assert_eq!(load_notice(LoadStatus::NotLoaded, false), "Not loaded");
    assert_eq!(money_text(Some(Dec::new(155275, 2))), "$1552.75");
    assert_eq!(money_text(Some(Dec::new(-5, 1))), "$-0.50");
    assert_eq!(money_text(None), "—");
}

fn snapshot(symbol: &str, label: &str) -> ResearchSnapshot {
    ResearchSnapshot {
        company: Company::find(&StockSymbol::parse(symbol).unwrap()).unwrap(),
        period: EarningsPeriod { label: label.into(), ended_on: "2025-07-27".into() },
        revenue: Dec::new(46743000000, 0),
        diluted_eps: Dec::new(105, 2),
        currency: "USD".into(),
        source_updated_at: "2025-08-01T00:00:00+00:00".into(),
        retrieved_at: "2025-08-02T00:00:00Z".into(),
        sources: Vec::new(),
    }
}

fn view(status: ResearchStatus, snapshot: Option<ResearchSnapshot>, error: Option<ResearchError>) -> CompanyView {
    CompanyView {
        symbol: "NVDA".into(),
        company: Company::find(&StockSymbol::parse("NVDA").unwrap()),
        status,
        snapshot,
        error,
        last_refresh_at: Some("2025-08-02T00:00:01Z".into()),
        refresh_error: Some(ResearchError::Timeout),
    }
}

#[test]
fn research_card_keeps_a_displayed_snapshot_after_a_failed_read() {
    let failed = RefreshResponse {
        outcome: RefreshOutcome::Failed,
        company: view(ResearchStatus::RepositoryFailure, None, Some(ResearchError::Repository)),
    };
    let shown = after_refresh(failed, Some(snapshot("NVDA", "FY2026 Q2")));
    assert_eq!(shown.snapshot.unwrap().period.label, "FY2026 Q2");
    assert_eq!(shown.status, ResearchStatus::RepositoryFailure);
    assert_eq!(shown.refresh_error, Some(ResearchError::Timeout));
    let saved = RefreshResponse {
        outcome: RefreshOutcome::Saved,
        company: view(ResearchStatus::Available, Some(snapshot("NVDA", "FY2026 Q3")), None),
    };
    let shown = after_refresh(saved, Some(snapshot("NVDA", "FY2026 Q2")));
    assert_eq!(shown.snapshot.unwrap().period.label, "FY2026 Q3");
    let none = RefreshResponse { outcome: RefreshOutcome::Failed, company: view(ResearchStatus::NeverRefreshed, None, None) };
    assert!(after_refresh(none, None).snapshot.is_none());
    assert_eq!(refresh_feedback(RefreshOutcome::Saved), "New earnings snapshot saved.");
    assert_eq!(
        refresh_feedback(RefreshOutcome::Unchanged),
        "Source checked. This earnings period is already saved; its original facts and retrieval date are unchanged."
    );
    assert_eq!(status_line(ResearchStatus::Unsupported), "Unsupported instrument — no company lookup attempted");
    assert_eq!(status_line(ResearchStatus::NeverRefreshed), "Never refreshed — no saved research");
}

fn holding(symbol: &str, description: &str, research: CompanyView) -> HoldingResearch {
    HoldingResearch {
        holding: HoldingSummary {
            held_symbol: symbol.into(),
            stock_symbol: StockSymbol::parse(symbol).ok(),
            description: description.into(),
            market_value: Dec::new(100, 0),
        },
        research,
    }
}

#[test]
fn research_page_titles_and_stale_portfolio_warning() {
    let nvda = holding("NVDA", "NVIDIA CORP", view(ResearchStatus::NeverRefreshed, None, None));
    assert_eq!(card_title(&nvda), "NVIDIA");
    let mut spy_view = view(ResearchStatus::Unsupported, None, None);
    spy_view.company = None;
    let spy = holding("SPY", "SPDR S&P 500 ETF", spy_view);
    assert_eq!(card_title(&spy), "SPDR S&P 500 ETF");
    let page = |status, available| HoldingsResearch {
        portfolio_status: status,
        portfolio_available: available,
        repository_error: None,
        holdings: Vec::new(),
    };
    assert!(portfolio_stale(&page(LoadStatus::Failed, true)));
    assert!(!portfolio_stale(&page(LoadStatus::Loaded, true)));
    assert!(!portfolio_stale(&page(LoadStatus::Failed, false)));
}

fn position(symbol: &str, coverage: CoverageStatus) -> ReviewPosition {
    ReviewPosition {
        symbol: symbol.into(),
        stock_symbol: StockSymbol::parse(symbol).ok(),
        description: "Synthetic".into(),
        asset_type: "Equity".into(),
        quantity: None,
        market_value: Dec::new(100, 0),
        weight_percent: None,
        coverage,
        research: None,
    }
}

#[test]
fn review_sections_and_number_texts() {
    let positions = vec![
        position("NVDA", CoverageStatus::Available),
        position("MSFT", CoverageStatus::Missing),
        position("SPY", CoverageStatus::Unsupported),
        position("AMD", CoverageStatus::RepositoryFailure),
        position("ZZZZ", CoverageStatus::Unmatched),
    ];
    assert_eq!(positions_in(&positions, ReviewSection::WithResearch), vec![0]);
    assert_eq!(positions_in(&positions, ReviewSection::WithoutResearch), vec![1, 3]);
    assert_eq!(positions_in(&positions, ReviewSection::Unmatched), vec![4]);
    assert_eq!(positions_in(&positions, ReviewSection::Unsupported), vec![2]);
    assert_eq!(percent_text(Some(Dec::new(57142857, 6))), "57.14%");
    assert_eq!(percent_text(Some(Dec::new(40, 0))), "40.00%");
    assert_eq!(percent_text(None), "N/A (no positive denominator)");
    assert_eq!(points_text(Some(Dec::new(15, 1))), "+1.50 percentage points");
    assert_eq!(points_text(Some(Dec::new(-25, 1))), "-2.50 percentage points");
    assert_eq!(points_text(None), "N/A");
    assert_eq!(symbols_text(&vec!["AMD".to_string(), "NVDA".to_string()]), "AMD, NVDA");
    assert_eq!(symbols_text(&vec!["MU".to_string()]), "MU");
    assert_eq!(symbols_text(&Vec::new()), "None");
}

fn review_entry(id: i64, created_at: &str) -> ReviewHistoryEntry {
    ReviewHistoryEntry {
        id,
        created_at: created_at.into(),
        summary: ReviewSummary {
            total_market_value: Dec::new(100, 0),
            gross_market_value: Dec::new(100, 0),
            position_count: 1,
            largest_position: LargestPosition {
                symbol: "NVDA".into(),
                market_value: Dec::new(100, 0),
                gross_weight_percent: Some(Dec::new(100, 0)),
            },
            top_three_concentration_percent: Some(Dec::new(100, 0)),
            supported_position_count: 1,
            covered_position_count: 0,
            missing_position_count: 1,
            unmatched_position_count: 0,
            unsupported_position_count: 0,
            supported_gross_market_value: Dec::new(100, 0),
            covered_gross_market_value: Dec::zero(),
            coverage_count_percent: Some(Dec::zero()),
            coverage_value_percent: Some(Dec::zero()),
        },
    }
}

#[test]
fn review_history_shows_the_newest_saved_review() {
    let mut history = vec![review_entry(2, "2025-08-02T00:00:00Z"), review_entry(1, "2025-08-01T00:00:00Z")];
    assert_eq!(latest_created(&history), "2025-08-02T00:00:00Z");
    remember(&mut history, review_entry(3, "2025-08-03T00:00:00Z"));
    assert_eq!(latest_created(&history), "2025-08-03T00:00:00Z");
    assert_eq!(latest_created(&Vec::new()), "None yet");
}

#[test]
fn watchlist_page_lists_configuration_and_titles_entries() {
    let configured = WatchlistConfiguration { input: Some(WatchlistInput::parse("nvda, AMD").unwrap()), error: None };
    assert_eq!(configured_symbols(&configured), "AMD, NVDA");
    let empty = WatchlistConfiguration { input: Some(WatchlistInput::parse("").unwrap()), error: None };
    assert_eq!(configured_symbols(&empty), "None");
    let invalid = WatchlistConfiguration { input: None, error: Some(WatchlistError::InvalidConfiguration) };
    assert_eq!(configured_symbols(&invalid), "None");
    let known = BriefingEntry {
        symbol: StockSymbol::parse("MSFT").unwrap(),
        company_name: Some("Microsoft".into()),
        status: BriefingStatus::NeverRefreshed,
        research: None,
    };
    assert_eq!(entry_title(&known), "MSFT · Microsoft");
    let unknown = BriefingEntry {
        symbol: StockSymbol::parse("ZZZZ").unwrap(),
        company_name: None,
        status: BriefingStatus::NeverRefreshed,
        research: None,
    };
    assert_eq!(entry_title(&unknown), "ZZZZ · Company not in research registry");
}
