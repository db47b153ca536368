use crate::decimal::Dec;
use crate::portfolio::LoadStatus;
use crate::research::domain::{ResearchError, ResearchSnapshot};
use crate::symbol::StockSymbol;
use vstd::prelude::*;

verus! {

#[derive(Debug, Clone, Copy, PartialEq, Eq, Structural)]
pub enum CoverageStatus {
    Available,
    Missing,
    Unmatched,
    Unsupported,
    RepositoryFailure,
}

#[derive(Debug)]
pub struct ReviewResearch {
    /// Provenance within the research database; reads use the copied snapshot.
    pub snapshot_id: i64,
    pub snapshot: ResearchSnapshot,
    /// Age at review creation, in whole seconds; never recalculated on display.
    pub retrieval_age_seconds: i64,
    pub source_age_seconds: i64,
}

#[derive(Debug)]
pub struct ReviewPosition {
    pub symbol: String,
    pub stock_symbol: Option<StockSymbol>,
    pub description: String,
    pub asset_type: String,
    pub quantity: Option<Dec>,
    pub market_value: Dec,
    /// Signed market value / positive signed portfolio total. None otherwise.
    pub weight_percent: Option<Dec>,
    pub coverage: CoverageStatus,
    pub research: Option<ReviewResearch>,
}

#[derive(Debug, Clone, PartialEq)]
pub struct LargestPosition {
    pub symbol: String,
    pub market_value: Dec,
    pub gross_weight_percent: Option<Dec>,
}

#[derive(Debug, Clone, PartialEq)]
pub struct ReviewSummary {
    pub total_market_value: Dec,
    pub gross_market_value: Dec,
    pub position_count: usize,
    /// Largest absolute exposure; symbol provides a deterministic tie breaker.
    pub largest_position: LargestPosition,
    pub top_three_concentration_percent: Option<Dec>,
    pub supported_position_count: usize,
    pub covered_position_count: usize,
    pub missing_position_count: usize,
    pub unmatched_position_count: usize,
    pub unsupported_position_count: usize,
    pub supported_gross_market_value: Dec,
    pub covered_gross_market_value: Dec,
    pub coverage_count_percent: Option<Dec>,
    pub coverage_value_percent: Option<Dec>,
}

#[derive(Debug)]
pub struct ReviewDocument {
    pub calculation_version: u32,
    pub created_at: String,
    pub portfolio_captured_at: String,
    pub research_captured_at: String,
    pub portfolio_loaded_at: String,
    pub portfolio_load_status: LoadStatus,
    pub portfolio_source_file: String,
    pub research_error: Option<ResearchError>,
    pub summary: ReviewSummary,
    pub positions: Vec<ReviewPosition>,
}

#[derive(Debug)]
pub struct SavedReview {
    pub id: i64,
    pub document: ReviewDocument,
}

#[derive(Debug)]
pub struct ReviewHistoryEntry {
    pub id: i64,
    pub created_at: String,
    pub summary: ReviewSummary,
}

#[derive(Debug, Clone)]
pub struct ReviewComparison {
    pub previous_id: i64,
    pub total_value_change: Dec,
    pub position_count_change: i64,
    pub previous_largest_symbol: String,
    pub current_largest_symbol: String,
    pub concentration_change_points: Option<Dec>,
    pub coverage_count_change_points: Option<Dec>,
    pub coverage_value_change_points: Option<Dec>,
    pub added_symbols: Vec<String>,
    pub removed_symbols: Vec<String>,
}

#[derive(Debug)]
pub struct ReviewDetail {
    pub review: SavedReview,
    pub comparison: Option<ReviewComparison>,
    pub comparison_error: Option<ReviewError>,
}

/// Review reports its real execution boundaries without depending on Jobs.
#[derive(Debug, Clone, Copy, PartialEq, Eq, Structural)]
pub enum ReviewStep {
    SnapshottingPortfolio,
    LoadingResearch,
    CalculatingReview,
    PersistingReview,
}

#[derive(Debug, Clone, Copy, PartialEq, Eq, Structural)]
pub enum ReviewError {
    NoPortfolio,
    InvalidPortfolio,
    Initialization,
    Migration,
    Repository,
    NotFound,
    InvalidId,
    Calculation,
}

#[derive(Debug, Clone)]
pub struct ReviewApiError {
    pub error: ReviewError,
    pub message: String,
}

pub open spec fn review_error_text(e: ReviewError) -> Seq<char> {
    match e {
        ReviewError::NoPortfolio => "Load local Schwab data on Portfolio before creating a review."@,
        ReviewError::InvalidPortfolio => "The portfolio is empty or inconsistent. Reload valid local data before creating a review."@,
        ReviewError::Initialization => "Review database could not be opened. Check REVIEW_DB_PATH and permissions, then restart EPIC."@,
        ReviewError::Migration => "Review database migration failed. Check the server log and database version."@,
        ReviewError::Repository => "Review database operation failed. No partial review has been saved."@,
        ReviewError::NotFound => "This saved review does not exist."@,
        ReviewError::InvalidId => "Review ID must be a positive integer."@,
        ReviewError::Calculation => "Review calculation could not be completed safely; a numeric value or date is outside the supported range."@,
    }
}

impl ReviewApiError {
    pub fn from_error(error: ReviewError) -> (r: ReviewApiError)
        ensures
            r.error == error,
            r.message@ == review_error_text(error),
    {
        ReviewApiError { error, message: error.message() }
    }
}

impl ReviewError {
    /// The user-facing explanation of the error.
    pub fn message(&self) -> (r: String)
        ensures
            r@ == review_error_text(*self),
    {
        let text = match self {
            ReviewError::NoPortfolio => "Load local Schwab data on Portfolio before creating a review.",
            ReviewError::InvalidPortfolio => "The portfolio is empty or inconsistent. Reload valid local data before creating a review.",
            ReviewError::Initialization => "Review database could not be opened. Check REVIEW_DB_PATH and permissions, then restart EPIC.",
            ReviewError::Migration => "Review database migration failed. Check the server log and database version.",
            ReviewError::Repository => "Review database operation failed. No partial review has been saved.",
            ReviewError::NotFound => "This saved review does not exist.",
            ReviewError::InvalidId => "Review ID must be a positive integer.",
            ReviewError::Calculation => "Review calculation could not be completed safely; a numeric value or date is outside the supported range.",
        };
        text.to_owned()
    }
}

} // verus!
