use epic_platform::decimal::Dec;
use epic_platform::review::calculations::{age_seconds, compare, percentage, summarize};
use epic_platform::review::domain::{
    CoverageStatus, LargestPosition, ReviewDocument, ReviewError, ReviewPosition, ReviewSummary, SavedReview,
};
use epic_platform::portfolio::LoadStatus;
use epic_platform::symbol::StockSymbol;

fn position(symbol: &str, value: i64, coverage: CoverageStatus) -> ReviewPosition {
    ReviewPosition {
        symbol: symbol.into(),
        stock_symbol: StockSymbol::parse(symbol).ok(),
        description: "Synthetic".into(),
        asset_type: "Equity".into(),
        quantity: Some(Dec::new(1, 0)),
        market_value: Dec::new(value, 0),
        weight_percent: None,
        coverage,
        research: None,
    }
}

#[test]
fn deterministic_concentration_and_coverage() {
    let mut positions = vec![
        position("NVDA", 400, CoverageStatus::Available),
        position("MSFT", 300, CoverageStatus::Missing),
        position("SPY", 200, CoverageStatus::Unsupported),
        position("ZZZZ", 100, CoverageStatus::Unmatched),
    ];
    let result = summarize(&mut positions).unwrap();
    assert_eq!(result.total_market_value, Dec::new(1000, 0));
    assert_eq!(result.largest_position.symbol, "NVDA");
    assert_eq!(result.top_three_concentration_percent, Some(Dec::new(90, 0)));
    assert_eq!(positions[0].weight_percent, Some(Dec::new(40, 0)));
    assert_eq!(result.supported_position_count, 2);
    assert_eq!(result.covered_position_count, 1);
    assert_eq!(result.coverage_count_percent, Some(Dec::new(50, 0)));
    assert_eq!(result.coverage_value_percent, Some(Dec::new(57142857, 6)));
    assert_eq!(result.unsupported_position_count, 1);
    assert_eq!(result.unmatched_position_count, 1);
    positions.reverse();
    assert_eq!(summarize(&mut positions).unwrap(), result);
}

#[test]
fn shorts_zero_totals_ties_and_numeric_limits_are_explicit() {
    let mut positions = vec![
        position("NVDA", 100, CoverageStatus::Available),
        position("AMD", -100, CoverageStatus::Missing),
    ];
    let result = summarize(&mut positions).unwrap();
    assert_eq!(result.total_market_value, Dec::zero());
    assert_eq!(result.gross_market_value, Dec::new(200, 0));
    assert_eq!(result.largest_position.symbol, "AMD");
    assert_eq!(result.coverage_value_percent, Some(Dec::new(50, 0)));
    assert!(positions.iter().all(|p| p.weight_percent.is_none()));
    let mut zero = vec![position("SPY", 0, CoverageStatus::Unsupported)];
    let result = summarize(&mut zero).unwrap();
    assert!(result.coverage_count_percent.is_none());
    assert!(result.coverage_value_percent.is_none());
    assert!(result.top_three_concentration_percent.is_none());
    assert_eq!(summarize(&mut Vec::new()), Err(ReviewError::InvalidPortfolio));
    let max = Dec { mantissa: 79228162514264337593543950335, scale: 0, negative: false };
    positions[0].market_value = max;
    positions[1].market_value = max;
    assert_eq!(summarize(&mut positions), Err(ReviewError::Calculation));
}

#[test]
fn exact_age_has_no_freshness_threshold() {
    assert_eq!(age_seconds("2025-08-03T00:00:01Z", "2025-08-02T00:00:00Z"), Ok(86401));
    assert_eq!(age_seconds("2025-08-02T00:00:00Z", "2025-08-03T00:00:00Z"), Ok(-86400));
    assert_eq!(age_seconds("invalid", "2025-08-02T00:00:00Z"), Err(ReviewError::Calculation));
}

#[test]
fn age_truncates_toward_zero_and_reads_offsets() {
    assert_eq!(age_seconds("2025-08-02T00:00:00.900Z", "2025-08-02T00:00:00Z"), Ok(0));
    assert_eq!(age_seconds("2025-08-02T02:00:00+02:00", "2025-08-02T00:00:00Z"), Ok(0));
    assert_eq!(age_seconds("2025-08-02T00:00:00Z", "not a time"), Err(ReviewError::Calculation));
}

#[test]
fn percentage_rounds_to_six_places_and_needs_a_positive_base() {
    assert_eq!(percentage(&Dec::new(1, 0), &Dec::new(3, 0)), Ok(Some(Dec::new(33333333, 6))));
    assert_eq!(percentage(&Dec::new(1, 0), &Dec::zero()), Ok(None));
    assert_eq!(percentage(&Dec::new(1, 0), &Dec::new(-5, 0)), Ok(None));
}

#[test]
fn weights_follow_signed_total_and_ties_break_by_symbol() {
    let mut positions = vec![
        position("MSFT", 300, CoverageStatus::Available),
        position("AMD", 300, CoverageStatus::Available),
        position("NVDA", -200, CoverageStatus::RepositoryFailure),
        position("ZZZZ", 100, CoverageStatus::Unmatched),
    ];
    let result = summarize(&mut positions).unwrap();
    assert_eq!(result.total_market_value, Dec::new(500, 0));
    assert_eq!(result.gross_market_value, Dec::new(900, 0));
    assert_eq!(result.largest_position.symbol, "AMD");
    assert_eq!(positions[2].weight_percent, Some(Dec::new(-40, 0)));
    assert_eq!(result.supported_position_count, 3);
    assert_eq!(result.covered_position_count, 2);
    assert_eq!(result.missing_position_count, 1);
    assert_eq!(result.top_three_concentration_percent, Some(Dec::new(88888889, 6)));
}

fn summary(total: i64, count: usize, largest: &str, top: Option<Dec>) -> ReviewSummary {
    ReviewSummary {
        total_market_value: Dec::new(total, 0),
        gross_market_value: Dec::new(total, 0),
        position_count: count,
        largest_position: LargestPosition { symbol: largest.into(), market_value: Dec::new(total, 0), gross_weight_percent: None },
        top_three_concentration_percent: top,
        supported_position_count: 0,
        covered_position_count: 0,
        missing_position_count: 0,
        unmatched_position_count: 0,
        unsupported_position_count: 0,
        supported_gross_market_value: Dec::zero(),
        covered_gross_market_value: Dec::zero(),
        coverage_count_percent: None,
        coverage_value_percent: Some(Dec::new(50, 0)),
    }
}

fn saved(id: i64, summary: ReviewSummary, positions: Vec<ReviewPosition>) -> SavedReview {
    SavedReview {
        id,
        document: ReviewDocument {
            calculation_version: 1,
            created_at: "2025-08-02T00:00:00Z".into(),
            portfolio_captured_at: "2025-08-02T00:00:00Z".into(),
            research_captured_at: "2025-08-02T00:00:00Z".into(),
            portfolio_loaded_at: "2025-08-02T00:00:00Z".into(),
            portfolio_load_status: LoadStatus::Loaded,
            portfolio_source_file: "Positions.csv".into(),
            research_error: None,
            summary,
            positions,
        },
    }
}

#[test]
fn comparison_reports_changes_and_sorted_symbol_differences() {
    let current = saved(
        2,
        summary(600, 2, "AMD", Some(Dec::new(100, 0))),
        vec![position("NVDA", 200, CoverageStatus::Available), position("AMD", 400, CoverageStatus::Missing)],
    );
    let mut cash = position(" Cash ", 0, CoverageStatus::Unsupported);
    cash.stock_symbol = None;
    let previous = saved(
        1,
        summary(1000, 3, "SPY", Some(Dec::new(90, 0))),
        vec![position("NVDA", 100, CoverageStatus::Available), position("SPY", 600, CoverageStatus::Unsupported), cash],
    );
    let c = compare(&current, &previous).unwrap();
    assert_eq!(c.previous_id, 1);
    assert_eq!(c.total_value_change, Dec::new(-400, 0));
    assert_eq!(c.position_count_change, -1);
    assert_eq!(c.previous_largest_symbol, "SPY");
    assert_eq!(c.current_largest_symbol, "AMD");
    assert_eq!(c.concentration_change_points, Some(Dec::new(10, 0)));
    assert_eq!(c.coverage_count_change_points, None);
    assert_eq!(c.coverage_value_change_points, Some(Dec::zero()));
    assert_eq!(c.added_symbols, vec!["AMD".to_string()]);
    assert_eq!(c.removed_symbols, vec!["Cash".to_string(), "SPY".to_string()]);
}

#[test]
fn comparison_fails_when_a_difference_overflows() {
    let max = Dec { mantissa: 79228162514264337593543950335, scale: 0, negative: false };
    let mut a = summary(0, 1, "A", None);
    a.total_market_value = max;
    let mut b = summary(0, 1, "B", None);
    b.total_market_value = max.neg();
    assert_eq!(compare(&saved(2, a, Vec::new()), &saved(1, b, Vec::new())).unwrap_err(), ReviewError::Calculation);
}

#[test]
fn summary_is_the_same_in_every_order_at_one_scale() {
    let rows = [
        ("NVDA", 40025, CoverageStatus::Available),
        ("MSFT", -12050, CoverageStatus::Missing),
        ("SPY", 30000, CoverageStatus::Unsupported),
        ("ZZZZ", 199, CoverageStatus::Unmatched),
        ("AMD", 30000, CoverageStatus::RepositoryFailure),
    ];
    let build = |order: &[usize]| -> Vec<ReviewPosition> {
        order
            .iter()
            .map(|&i| {
                let mut p = position(rows[i].0, 0, rows[i].2);
                p.market_value = Dec::new(rows[i].1, 2);
                p
            })
            .collect()
    };
    let mut first = build(&[0, 1, 2, 3, 4]);
    let expected = summarize(&mut first).unwrap();
    assert_eq!(expected.total_market_value, Dec::new(88174, 2));
    assert_eq!(expected.largest_position.symbol, "NVDA");
    for order in [[4, 3, 2, 1, 0], [2, 0, 4, 1, 3], [1, 4, 0, 3, 2]] {
        let mut positions = build(&order);
        let summary = summarize(&mut positions).unwrap();
        assert_eq!(summary, expected);
        assert_eq!(summary.total_market_value.scale, expected.total_market_value.scale);
        assert_eq!(summary.top_three_concentration_percent, expected.top_three_concentration_percent);
        for (k, &i) in order.iter().enumerate() {
            assert_eq!(positions[k].weight_percent, first[i].weight_percent);
        }
    }
}

#[test]
fn comparing_a_review_with_itself_reports_no_change() {
    let mut s = summary(1000, 2, "NVDA", Some(Dec::new(90, 0)));
    s.total_market_value = Dec::new(123456, 2);
    s.coverage_count_percent = Some(Dec::new(3333, 2));
    let r = saved(7, s, vec![position("NVDA", 600, CoverageStatus::Available), position("AMD", 400, CoverageStatus::Missing)]);
    let c = compare(&r, &r).unwrap();
    assert_eq!(c.previous_id, 7);
    assert_eq!(c.total_value_change.mantissa, 0);
    assert_eq!(c.total_value_change.scale, 2);
    assert_eq!(c.position_count_change, 0);
    assert_eq!(c.current_largest_symbol, c.previous_largest_symbol);
    assert_eq!(c.concentration_change_points.unwrap().mantissa, 0);
    assert_eq!(c.coverage_count_change_points.unwrap().mantissa, 0);
    assert_eq!(c.coverage_value_change_points.unwrap().mantissa, 0);
    assert!(c.added_symbols.is_empty());
    assert!(c.removed_symbols.is_empty());
}

#[test]
fn a_negative_zero_market_value_passes_through_the_total() {
    let mut p = position("NVDA", 0, CoverageStatus::Available);
    p.market_value = Dec { mantissa: 0, scale: 2, negative: true };
    let mut positions = vec![p];
    let result = summarize(&mut positions).unwrap();
    assert_eq!(result.total_market_value.mantissa, 0);
    assert_eq!(result.total_market_value.scale, 2);
    assert!(result.total_market_value.negative);
    assert!(!result.gross_market_value.negative);
    assert!(positions[0].weight_percent.is_none());
}

#[test]
fn exact_quotients_and_products_keep_their_digits() {
    let p = percentage(&Dec::new(150, 0), &Dec::new(600, 0)).unwrap().unwrap();
    assert_eq!(p, Dec::new(25, 0));
    let q = percentage(&Dec::new(300, 2), &Dec::new(3, 0)).unwrap().unwrap();
    assert_eq!((q.mantissa, q.scale), (10000, 2));
    assert_eq!(percentage(&Dec::zero(), &Dec::new(7, 0)).unwrap(), Some(Dec::zero()));
    assert_eq!(percentage(&Dec::new(5, 0), &Dec::zero()).unwrap(), None);
    let even = percentage(&Dec::new(1, 0), &Dec::new(512, 0)).unwrap().unwrap();
    assert_eq!((even.mantissa, even.scale), (195312, 6));
    let odd = percentage(&Dec::new(3, 0), &Dec::new(512, 0)).unwrap().unwrap();
    assert_eq!((odd.mantissa, odd.scale), (585938, 6));
}

#[test]
fn summary_is_the_same_in_every_order_at_mixed_scales_without_shorts() {
    let rows = [
        ("NVDA", Dec::new(15, 1), CoverageStatus::Available),
        ("MSFT", Dec::new(2, 0), CoverageStatus::Missing),
        ("SPY", Dec::new(125, 2), CoverageStatus::Unsupported),
        ("ZZZZ", Dec::new(0, 3), CoverageStatus::Unmatched),
    ];
    let build = |order: &[usize]| -> Vec<ReviewPosition> {
        order
            .iter()
            .map(|&i| {
                let mut p = position(rows[i].0, 0, rows[i].2);
                p.market_value = rows[i].1;
                p
            })
            .collect()
    };
    let mut first = build(&[0, 1, 2, 3]);
    let expected = summarize(&mut first).unwrap();
    assert_eq!((expected.total_market_value.mantissa, expected.total_market_value.scale), (475, 2));
    assert_eq!(expected.largest_position.symbol, "MSFT");
    for order in [[3, 2, 1, 0], [1, 3, 0, 2], [2, 0, 3, 1]] {
        let mut positions = build(&order);
        let summary = summarize(&mut positions).unwrap();
        assert_eq!(summary, expected);
        assert_eq!(summary.total_market_value.scale, expected.total_market_value.scale);
        assert_eq!(summary.gross_market_value.scale, expected.gross_market_value.scale);
        for (k, &i) in order.iter().enumerate() {
            let (w, e) = (positions[k].weight_percent.unwrap(), first[i].weight_percent.unwrap());
            assert_eq!((w.mantissa, w.scale), (e.mantissa, e.scale));
        }
    }
}

#[test]
fn summary_agrees_in_value_when_a_short_changes_how_the_total_is_written() {
    let rows = [
        ("AAA", Dec::new(10, 1), CoverageStatus::Available),
        ("BBB", Dec::new(-10, 1), CoverageStatus::Missing),
        ("CCC", Dec::new(2, 0), CoverageStatus::Unsupported),
    ];
    let build = |order: &[usize]| -> Vec<ReviewPosition> {
        order
            .iter()
            .map(|&i| {
                let mut p = position(rows[i].0, 0, rows[i].2);
                p.market_value = rows[i].1;
                p
            })
            .collect()
    };
    let mut first = build(&[0, 1, 2]);
    let mut second = build(&[2, 0, 1]);
    let a = summarize(&mut first).unwrap();
    let b = summarize(&mut second).unwrap();
    assert_eq!((a.total_market_value.mantissa, a.total_market_value.scale), (2, 0));
    assert_eq!((b.total_market_value.mantissa, b.total_market_value.scale), (20, 1));
    assert_eq!(a, b);
    assert_eq!(first[0].weight_percent, second[1].weight_percent);
    assert_eq!(first[1].weight_percent, second[2].weight_percent);
    assert_eq!(first[2].weight_percent, second[0].weight_percent);
}
