use epic_platform::decimal::Dec;
use epic_platform::http::{refresh_status, research_status};
use epic_platform::portfolio::Position;
use epic_platform::research::domain::{
    Company, RefreshOutcome, RefreshResponse, ResearchError, ResearchSnapshot, ResearchStatus,
};
use epic_platform::research::json::{expand, Json, JsonNumber};
use epic_platform::portfolio::{HoldingSummary, LoadStatus};
use epic_platform::research::domain::HoldingResearch;
use epic_platform::research::service::{
    attempt_of, busy_view, company_lookup, company_view, holdings_research, refresh_outcome, unsupported_view, RefreshAttempt,
};
use epic_platform::research::source::{
    body_fits, decode_page, forecast_path, normalize_response, normalize_response_on, status_error, transport_error,
};
use epic_platform::symbol::StockSymbol;

const FORECAST: &str = r#"{"type":"data","nodes":[null,{"type":"data","data":[
{"estimates":1,"priceTargets":2,"trust":3},
{"table":4},
{"currency":5},
{"lastUpdated":6},
{"quarterly":7},
"USD",
1754006400000,
{"lastDate":8,"fiscalYear":9,"fiscalQuarter":11,"dates":13,"revenue":15,"eps":17},
0,
[10],
"2025",
[12],
"Q2",
[14],
"2025-06-30",
[16],
1250000000,
[18],
2.5
]}]}"#;
const RETRIEVED: &str = "2025-08-02T00:00:00Z";

fn symbol(value: &str) -> StockSymbol {
    StockSymbol::parse(value).unwrap()
}

fn snapshot() -> ResearchSnapshot {
    normalize_response(&Company::find(&symbol("NVDA")).unwrap(), FORECAST.as_bytes(), RETRIEVED).unwrap()
}

#[test]
fn normalizes_symbols_without_inference_or_aliases() {
    assert_eq!(symbol(" nvda "), symbol("NVDA"));
    assert_ne!(symbol("GOOG"), symbol("GOOGL"));
    assert_ne!(symbol("BRK.B"), symbol("BRK-B"));
    for value in ["", "  ", "NVDA 12/18/2026 100 C", "NVDA261218C00100000", "../../db", "BRK..B", "股票", "BRK-"] {
        assert!(StockSymbol::parse(value).is_err(), "{value}");
    }
    assert!(StockSymbol::parse("../db").is_err());
    assert!(Company::find(&symbol("ZZZZ")).is_none());
    let mut position = Position {
        symbol: " nvda ".into(),
        description: "Synthetic".into(),
        quantity: Some(Dec::new(1, 0)),
        price: Some(Dec::new(1, 0)),
        market_value: Dec::new(1, 0),
        cost_basis: None,
        asset_type: "Equity".into(),
    };
    assert_eq!(position.stock_symbol(), Some(symbol("NVDA")));
    for asset in ["ETF", "Option", "Cash", "Mutual Fund", "Bond", "Unknown"] {
        position.asset_type = asset.into();
        assert_eq!(position.stock_symbol(), None);
    }
    position.asset_type.clear();
    position.symbol = "Cash".into();
    assert_eq!(position.stock_symbol(), None);
}

#[test]
fn decodes_actual_source_contract_and_rejects_incomplete_data() {
    let parsed = snapshot();
    assert_eq!(parsed.period.label, "FY2025 Q2");
    assert_eq!(parsed.period.ended_on, "2025-06-30");
    assert_eq!(parsed.revenue, Dec::new(1_250_000_000, 0));
    assert_eq!(parsed.diluted_eps, Dec::new(25, 1));
    assert_eq!(parsed.retrieved_at, RETRIEVED);
    assert_eq!(parsed.sources[0].url, "https://stockanalysis.com/stocks/nvda/forecast/");
    for invalid in [
        "not JSON".to_string(),
        "{}".to_string(),
        r#"{"nodes":[{"data":[{"cycle":0}]}]}"#.to_string(),
        r#"{"nodes":[{"data":[{"bad":999}]}]}"#.to_string(),
        FORECAST.replace("1250000000", "null"),
        FORECAST.replace("1250000000", "\"[PRO]\""),
        FORECAST.replace("2025-06-30", "2999-06-30"),
        FORECAST.replace("\"USD\"", "\"EUR\""),
        FORECAST.replace("1754006400000", "null"),
        FORECAST.replace("\"Q2\"", "\"Q9\""),
    ] {
        assert_eq!(
            normalize_response(&parsed.company, invalid.as_bytes(), RETRIEVED),
            Err(ResearchError::MalformedSource)
        );
    }
}

#[test]
fn snapshot_keeps_source_update_time_and_registry_name() {
    let parsed = snapshot();
    assert_eq!(parsed.company.name, "NVIDIA");
    assert_eq!(parsed.currency, "USD");
    assert_eq!(parsed.source_updated_at, "2025-08-01T00:00:00+00:00");
    assert_eq!(parsed.sources.len(), 1);
    assert_eq!(parsed.sources[0].label, "Stock Analysis · reported quarterly results (S&P Global)");
}

#[test]
fn validation_depends_on_the_date_it_is_checked() {
    let company = Company::find(&symbol("NVDA")).unwrap();
    assert!(normalize_response_on(&company, FORECAST.as_bytes(), RETRIEVED, (2025, 8, 1)).is_ok());
    assert_eq!(
        normalize_response_on(&company, FORECAST.as_bytes(), RETRIEVED, (2025, 6, 29)),
        Err(ResearchError::MalformedSource)
    );
    assert!(normalize_response_on(&company, FORECAST.as_bytes(), RETRIEVED, (2025, 6, 30)).is_ok());
    assert_eq!(
        normalize_response_on(&company, FORECAST.as_bytes(), "yesterday", (2025, 8, 1)),
        Err(ResearchError::MalformedSource)
    );
}

#[test]
fn scientific_numbers_and_large_integers_are_read_exactly() {
    let company = Company::find(&symbol("NVDA")).unwrap();
    let text = FORECAST.replace("2.5", "2.5e-3").replace("1250000000", "18446744073709551615");
    let parsed = normalize_response_on(&company, text.as_bytes(), RETRIEVED, (2025, 8, 1)).unwrap();
    assert_eq!(parsed.diluted_eps, Dec::new(25, 4));
    assert_eq!(parsed.revenue, Dec { mantissa: 18446744073709551615, scale: 0, negative: false });
    let negative = FORECAST.replace("1250000000", "-5");
    assert_eq!(
        normalize_response_on(&company, negative.as_bytes(), RETRIEVED, (2025, 8, 1)),
        Err(ResearchError::MalformedSource)
    );
}

#[test]
fn expansion_resolves_references_within_budget() {
    let int = |n: u64| Json::Number(JsonNumber::PosInt(n));
    let data = Json::Array(vec![
        Json::Object(vec![("a".into(), int(1)), ("b".into(), Json::Number(JsonNumber::NegInt(-1)))]),
        Json::Array(vec![int(2), int(2)]),
        Json::String("x".into()),
    ]);
    let page = Json::Object(vec![("nodes".into(), Json::Array(vec![Json::Object(vec![("data".into(), data)])]))]);
    let value = decode_page(&page).unwrap();
    match value {
        Json::Object(fields) => {
            assert_eq!(fields.len(), 2);
            assert_eq!(fields[0].0, "a");
            assert!(matches!(&fields[0].1, Json::Array(items) if items.len() == 2));
            assert!(matches!(fields[1].1, Json::Null));
        }
        _ => panic!("expected an object"),
    }
    let table = vec![Json::Array(vec![Json::Number(JsonNumber::PosInt(1)), Json::Number(JsonNumber::PosInt(1))]), Json::String("x".into())];
    let mut budget: usize = 3;
    assert!(expand(&table, 0, 0, &mut budget).is_ok());
    assert_eq!(budget, 0);
    let mut budget: usize = 2;
    assert_eq!(expand(&table, 0, 0, &mut budget).unwrap_err(), ResearchError::MalformedSource);
    let mut budget: usize = 10;
    assert_eq!(expand(&table, 5, 0, &mut budget).unwrap_err(), ResearchError::MalformedSource);
    let mut budget: usize = 10;
    assert!(expand(&table, 0, 39, &mut budget).is_err());
}

#[test]
fn source_requests_and_failures_are_typed() {
    let company = Company::find(&symbol("NVDA")).unwrap();
    assert_eq!(forecast_path(&company), "stocks/nvda/forecast/__data.json");
    assert!(body_fits(1_999_000, 1_000));
    assert!(!body_fits(1_999_000, 1_001));
    assert_eq!(transport_error(true), ResearchError::Timeout);
    assert_eq!(transport_error(false), ResearchError::SourceUnavailable);
    assert_eq!(status_error(200), None);
    assert_eq!(status_error(503), Some(ResearchError::SourceHttp { status: 503 }));
    assert_eq!(ResearchError::SourceHttp { status: 503 }.message(), "Stock Analysis returned HTTP 503. Saved research remains available.");
}

#[test]
fn company_views_report_status_and_errors_separately() {
    let invalid = company_lookup("NVDA 12/18/2026 100 C").unwrap_err();
    assert_eq!(invalid.error, Some(ResearchError::InvalidSymbol));
    assert_eq!(invalid.status, ResearchStatus::Unsupported);
    let unmatched = company_lookup("zzzz").unwrap_err();
    assert_eq!(unmatched.symbol, "ZZZZ");
    assert_eq!(unmatched.status, ResearchStatus::Unmatched);
    assert_eq!(unmatched.error, Some(ResearchError::UnsupportedSymbol));
    let company = company_lookup(" nvda ").unwrap();
    assert_eq!(company.name, "NVIDIA");
    let attempt = RefreshAttempt { at: "2025-08-02T00:00:00Z".into(), error: Some(ResearchError::Timeout) };
    let view = company_view(" nvda ", company, Some(attempt), Ok(None));
    assert_eq!(view.symbol, "NVDA");
    assert_eq!(view.status, ResearchStatus::NeverRefreshed);
    assert_eq!(view.refresh_error, Some(ResearchError::Timeout));
    assert_eq!(view.error, None);
    let failed = company_view("NVDA", company_lookup("NVDA").unwrap(), None, Err(ResearchError::Repository));
    assert_eq!(failed.status, ResearchStatus::RepositoryFailure);
    assert_eq!(research_status(failed.error), 503);
    let response = RefreshResponse { outcome: refresh_outcome(&Err(ResearchError::Busy)), company: view };
    assert_eq!(response.outcome, RefreshOutcome::Failed);
    assert_eq!(refresh_status(&response), 504);
    assert_eq!(refresh_outcome(&Ok(true)), RefreshOutcome::Saved);
    assert_eq!(refresh_outcome(&Ok(false)), RefreshOutcome::Unchanged);
}


#[test]
fn failed_refresh_preserves_snapshot_and_reports_error_separately() {
    let result: Result<bool, ResearchError> = Err(ResearchError::SourceUnavailable);
    let attempt = attempt_of("2025-08-03T00:00:00Z".into(), &result);
    let view = company_view("NVDA", company_lookup("NVDA").unwrap(), Some(attempt), Ok(Some(snapshot())));
    assert_eq!(view.status, ResearchStatus::Available);
    assert_eq!(view.snapshot.as_ref().unwrap().retrieved_at, RETRIEVED);
    assert_eq!(view.error, None);
    assert_eq!(view.refresh_error, Some(ResearchError::SourceUnavailable));
    assert_eq!(view.last_refresh_at.as_deref(), Some("2025-08-03T00:00:00Z"));
    let response = RefreshResponse { outcome: refresh_outcome(&result), company: view };
    assert_eq!(response.outcome, RefreshOutcome::Failed);
    assert_eq!(refresh_status(&response), 502);
}

#[test]
fn slow_source_holds_no_portfolio_lock_and_second_refresh_is_rejected() {
    let view = company_view("NVDA", company_lookup("NVDA").unwrap(), None, Ok(Some(snapshot())));
    let busy = busy_view(view);
    assert_eq!(busy.refresh_error, Some(ResearchError::Busy));
    assert!(busy.snapshot.is_some());
    let response = RefreshResponse { outcome: RefreshOutcome::Failed, company: busy };
    assert_eq!(refresh_status(&response), 409);
}

#[test]
fn connection_failure_and_timeout_are_typed_and_bounded() {
    assert_eq!(research_status(Some(transport_error(true))), 504);
    assert_eq!(research_status(Some(transport_error(false))), 502);
    assert!(body_fits(0, 2_000_000));
    assert!(!body_fits(1, 2_000_000));
}

#[test]
fn http_contract_success_missing_unsupported_and_source_failure() {
    let never = company_view("NVDA", company_lookup("NVDA").unwrap(), None, Ok(None));
    assert_eq!(research_status(never.error), 200);
    assert_eq!(research_status(company_lookup("$CASH").unwrap_err().error), 400);
    assert_eq!(research_status(company_lookup("ZZZZ").unwrap_err().error), 404);
    assert_eq!(research_status(Some(ResearchError::MalformedSource)), 502);
    assert_eq!(research_status(Some(ResearchError::Repository)), 503);
}

#[test]
fn no_portfolio_and_database_initialization_failure_leave_portfolio_usable() {
    let none = holdings_research(LoadStatus::Failed, false, Some(ResearchError::Initialization), Vec::new());
    assert!(!none.portfolio_available);
    assert_eq!(none.repository_error, Some(ResearchError::Initialization));
    let cash = HoldingSummary {
        held_symbol: "Cash & Cash Investments".into(),
        stock_symbol: None,
        description: "--".into(),
        market_value: Dec::new(0, 0),
    };
    let failed = company_view("MSFT", company_lookup("MSFT").unwrap(), None, Err(ResearchError::Repository));
    let items = vec![
        HoldingResearch { research: unsupported_view(&cash.held_symbol), holding: cash },
        HoldingResearch {
            holding: HoldingSummary {
                held_symbol: "msft".into(),
                stock_symbol: StockSymbol::parse("msft").ok(),
                description: "Synthetic Microsoft".into(),
                market_value: Dec::new(100, 0),
            },
            research: failed,
        },
    ];
    let page = holdings_research(LoadStatus::Loaded, true, None, items);
    assert_eq!(page.repository_error, Some(ResearchError::Repository));
    assert_eq!(page.holdings[0].research.status, ResearchStatus::Unsupported);
    assert_eq!(page.holdings.len(), 2);
}

#[test]
fn negative_zero_revenue_is_refused() {
    let mut s = snapshot();
    s.revenue = Dec { mantissa: 0, scale: 2, negative: true };
    assert_eq!(s.validate_on((2025, 8, 1)), Err(ResearchError::MalformedSource));
    s.revenue = Dec::new(0, 2);
    assert_eq!(s.validate_on((2025, 8, 1)), Ok(()));
}

#[test]
fn period_end_must_read_as_it_is_written() {
    let mut s = snapshot();
    s.period.ended_on = "2025-6-30".into();
    assert_eq!(s.validate_on((2025, 8, 1)), Err(ResearchError::MalformedSource));
    s.period.ended_on = "2025-06-30".into();
    assert_eq!(s.validate_on((2025, 8, 1)), Ok(()));
}
