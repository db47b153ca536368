use epic_platform::decimal::Dec;
use epic_platform::portfolio::positions::parse_positions;
use epic_platform::portfolio::{LoadError, LoadStatus, PortfolioSnapshot};
use epic_platform::research::domain::{Company, EarningsPeriod, ResearchError, ResearchSnapshot, SavedResearchSnapshot};
use epic_platform::review::domain::{CoverageStatus, ReviewError, SavedReview};
use epic_platform::review::service::{assemble_review, research_symbols, review_detail, validate_id, validate_input};
use epic_platform::symbol::StockSymbol;

const CSV: &str = "Symbol,Description,Qty,Price,Mkt Val,Asset Type\nNVDA,Synthetic NVIDIA,1,100,100,Equity\nMSFT,Synthetic Microsoft,3,100,300,Equity\nSPY,Synthetic fund,6,100,600,ETF\n";
const LOADED: &str = "2025-08-02T00:00:00+00:00";
const CREATED: &str = "2025-08-02T00:10:00+00:00";

fn loaded() -> PortfolioSnapshot {
    PortfolioSnapshot::initial("/data".into())
        .start_loading()
        .apply_load(parse_positions(CSV, "Positions.csv"), LOADED.into())
}

fn saved(id: i64, symbol: &str) -> SavedResearchSnapshot {
    SavedResearchSnapshot {
        id,
        snapshot: ResearchSnapshot {
            company: Company::find(&StockSymbol::parse(symbol).unwrap()).unwrap(),
            period: EarningsPeriod { label: "FY2026 Q2".into(), ended_on: "2025-07-27".into() },
            revenue: Dec::new(46743000000, 0),
            diluted_eps: Dec::new(105, 2),
            currency: "USD".into(),
            source_updated_at: "2025-08-01T00:00:00+00:00".into(),
            retrieved_at: "2025-08-02T00:00:00+00:00".into(),
            sources: Vec::new(),
        },
    }
}

fn create(saved: Result<Vec<SavedResearchSnapshot>, ResearchError>) -> SavedReview {
    let document = assemble_review(loaded(), saved, CREATED.into(), LOADED.into(), CREATED.into()).unwrap();
    SavedReview { id: 1, document }
}

#[test]
fn full_partial_and_zero_coverage_are_saved() {
    let input = loaded();
    assert_eq!(validate_input(&input), Ok(()));
    let symbols = research_symbols(input.portfolio.as_ref().unwrap());
    assert_eq!(symbols.iter().map(|s| s.to_string()).collect::<Vec<_>>(), vec!["NVDA", "MSFT"]);
    let zero = create(Ok(Vec::new()));
    assert_eq!(zero.document.summary.coverage_count_percent, Some(Dec::zero()));
    assert_eq!(zero.document.summary.missing_position_count, 2);
    let partial = create(Ok(vec![saved(7, "NVDA")]));
    assert_eq!(partial.document.summary.coverage_count_percent, Some(Dec::new(50, 0)));
    assert_eq!(partial.document.summary.coverage_value_percent, Some(Dec::new(25, 0)));
    let research = partial.document.positions[0].research.as_ref().unwrap();
    assert_eq!(research.snapshot_id, 7);
    assert_eq!(research.snapshot, saved(7, "NVDA").snapshot);
    assert_eq!(research.retrieval_age_seconds, 600);
    assert_eq!(research.source_age_seconds, 87000);
    let full = create(Ok(vec![saved(7, "NVDA"), saved(8, "MSFT")]));
    assert_eq!(full.document.summary.coverage_count_percent, Some(Dec::new(100, 0)));
    assert_eq!(full.document.summary.coverage_value_percent, Some(Dec::new(100, 0)));
    assert_eq!(full.document.summary.unsupported_position_count, 1);
    assert_eq!(full.document.positions[2].coverage, CoverageStatus::Unsupported);
    assert_eq!(full.document.portfolio_source_file, "Positions.csv");
    assert_eq!(full.document.portfolio_loaded_at, LOADED);
}

#[test]
fn research_failure_is_recorded_and_saved_reviews_need_no_current_inputs() {
    let review = create(Err(ResearchError::Initialization));
    assert_eq!(review.document.research_error, Some(ResearchError::Initialization));
    assert_eq!(review.document.positions[0].coverage, CoverageStatus::RepositoryFailure);
    assert_eq!(review.document.summary.covered_position_count, 0);
    let none = PortfolioSnapshot::initial("/missing".into())
        .start_loading()
        .apply_load(Err(LoadError::new("directory_missing", "missing".into())), LOADED.into());
    assert_eq!(
        assemble_review(none, Ok(Vec::new()), CREATED.into(), LOADED.into(), CREATED.into()).unwrap_err(),
        ReviewError::NoPortfolio
    );
    // A failed reload keeps the prior snapshot, and the review records its status.
    let stale = loaded().apply_load(Err(LoadError::new("positions_invalid", "broken".into())), CREATED.into());
    let document = assemble_review(stale, Ok(Vec::new()), CREATED.into(), LOADED.into(), CREATED.into()).unwrap();
    assert_eq!(document.portfolio_load_status, LoadStatus::Failed);
    let detail = review_detail(review, Ok(None));
    assert!(detail.comparison.is_none() && detail.comparison_error.is_none());
    assert_eq!(validate_id(0), Err(ReviewError::InvalidId));
}

#[test]
fn unreadable_creation_time_is_a_calculation_error() {
    let early = assemble_review(loaded(), Ok(Vec::new()), "not a time".into(), LOADED.into(), CREATED.into());
    assert_eq!(early.unwrap_err(), ReviewError::Calculation);
}
