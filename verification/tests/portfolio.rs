use epic_platform::decimal::Dec;
use epic_platform::portfolio::loader::{directory_error_code, is_positions_file, no_positions_error, pick_newest, DirectoryFault};
use epic_platform::portfolio::parser::{number, validate_quotes, NumberError, QuoteError};
use epic_platform::pages::portfolio::money_text;
use epic_platform::portfolio::positions::{parse_positions, positions_from_records, CsvRead, CsvRow};
use epic_platform::portfolio::{LoadError, LoadStatus, Portfolio, PortfolioSnapshot, PortfolioSummary};

#[test]
fn parses_signed_currency_and_missing_values_without_rounding() {
    assert_eq!(number("($1,234.56)").unwrap(), Some(Dec::new(-123456, 2)));
    assert_eq!(number("-$0.10").unwrap(), Some(Dec::new(-10, 2)));
    assert_eq!(number("--").unwrap(), None);
    for invalid in ["NaN", "1garbage", "1,2", "1.2,3", "--1", "1.2.3"] {
        assert!(number(invalid).is_err());
    }
}

const CSV: &str = "\"Positions for account Example\"\n\"Symbol\",\"Description\",\"Qty (Quantity)\",\"Price\",\"Mkt Val (Market Value)\",\"Cost Basis\",\"Asset Type\"\n\"DEMO-A\",\"Example Index Fund\",\"10\",\"$100.00\",\"$1,000.00\",\"$900.00\",\"ETF\"\n\"NVDA\",\"Synthetic NVIDIA\",\"2\",\"$301.00\",\"$602.75\",\"--\",\"Equity\"\n\"DEMO 01/17/2026 100.00 P\",\"Example put\",\"-1\",\"$0.50\",\"-$50.00\",\"$60.00\",\"Option\"\n\"Cash & Cash Investments\",\"--\",\"--\",\"--\",\"$0.00\",\"--\",\"Cash and Money Market\"\n\"Positions Total\",\"\",\"--\",\"--\",\"$1,552.75\",\"--\",\"--\"\n";

#[test]
fn parses_export_with_exact_signed_total_and_cash() {
    let portfolio = parse_positions(CSV, "Example-Positions.csv").unwrap();
    assert_eq!(portfolio.summary.position_count, 4);
    assert_eq!(portfolio.summary.total_market_value, Dec::new(155275, 2));
    assert_eq!(portfolio.positions[2].market_value, Dec::new(-50, 0));
    assert_eq!(portfolio.positions[3].quantity, None);
    assert_eq!(portfolio.positions[1].cost_basis, None);
    assert_eq!(portfolio.source_file, "Example-Positions.csv");
}

#[test]
fn rejects_positions_total_that_disagrees_with_rows() {
    let bad = CSV.replace("$1,552.75", "$1,000.00");
    assert!(parse_positions(&bad, "Positions.csv").is_err());
}

#[test]
fn rejects_unterminated_quote() {
    let content = "Symbol,Description,Qty,Price,Mkt Val,Asset Type\nX,Example,1,2,2,\"unclosed";
    let chars: Vec<char> = content.chars().collect();
    assert!(validate_quotes(&chars).is_err());
    assert!(parse_positions(content, "Positions.csv").is_err());
}

#[test]
fn number_errors_are_distinct() {
    assert_eq!(number("--1"), Err(NumberError::InvalidSign));
    assert_eq!(number("1,2"), Err(NumberError::InvalidGrouping));
    assert_eq!(number("NaN"), Err(NumberError::InvalidDecimal));
    assert_eq!(number("1234567890123456789012345678901234567890"), Err(NumberError::OutOfRange));
    assert_eq!(number(" (12.50) "), Ok(Some(Dec::new(-1250, 2))));
    assert_eq!(number("N/A"), Ok(None));
}

#[test]
fn quote_errors_are_distinct() {
    let ok: Vec<char> = "a,\"b,c\",d\n".chars().collect();
    assert_eq!(validate_quotes(&ok), Ok(()));
    let stray: Vec<char> = "a,b\"c\n".chars().collect();
    assert_eq!(validate_quotes(&stray), Err(QuoteError::Malformed));
    let open: Vec<char> = "\"abc".chars().collect();
    assert_eq!(validate_quotes(&open), Err(QuoteError::Unterminated));
}

#[test]
fn selects_positions_files_by_name_ignoring_case() {
    assert!(is_positions_file("New-POSITIONS.CSV"));
    assert!(is_positions_file("Old-Positions.csv"));
    assert!(!is_positions_file("Balances.csv"));
    assert!(!is_positions_file("Positions.txt"));
}

#[test]
fn newest_candidate_wins_and_name_breaks_ties() {
    let candidates = vec![
        (100u64, 0u32, "Old-Positions.csv".to_string()),
        (200u64, 0u32, "New-POSITIONS.CSV".to_string()),
        (150u64, 5u32, "Mid-Positions.csv".to_string()),
    ];
    assert_eq!(pick_newest(&candidates), Some(1));
    let tied = vec![
        (100u64, 0u32, "b-positions.csv".to_string()),
        (100u64, 0u32, "a-positions.csv".to_string()),
    ];
    assert_eq!(pick_newest(&tied), Some(0));
    assert_eq!(pick_newest(&Vec::new()), None);
}

fn tiny_portfolio() -> Portfolio {
    Portfolio {
        positions: Vec::new(),
        summary: PortfolioSummary { position_count: 0, total_market_value: Dec::zero() },
        source_file: "Positions.csv".to_string(),
    }
}

#[test]
fn failed_reload_preserves_snapshot_and_can_recover() {
    let snapshot = PortfolioSnapshot::initial("/data".to_string());
    assert_eq!(snapshot.status, LoadStatus::NotLoaded);
    let loaded = snapshot.start_loading().apply_load(Ok(tiny_portfolio()), "2025-08-02T00:00:00Z".to_string());
    assert_eq!(loaded.status, LoadStatus::Loaded);
    let failed = loaded.apply_load(
        Err(LoadError::new("positions_invalid", "malformed".to_string())),
        "2025-08-03T00:00:00Z".to_string(),
    );
    assert_eq!(failed.status, LoadStatus::Failed);
    assert!(failed.portfolio.is_some());
    assert_eq!(failed.last_successful_load.as_deref(), Some("2025-08-02T00:00:00Z"));
    assert_eq!(failed.error.as_ref().unwrap().code, "positions_invalid");
    let recovered = failed.start_loading().apply_load(Ok(tiny_portfolio()), "2025-08-04T00:00:00Z".to_string());
    assert_eq!(recovered.status, LoadStatus::Loaded);
    assert!(recovered.error.is_none());
    assert_eq!(recovered.last_successful_load.as_deref(), Some("2025-08-04T00:00:00Z"));
}

#[test]
fn rejects_empty_malformed_missing_values_and_bad_totals() {
    for content in [
        String::new(),
        "not a positions export".into(),
        CSV.replace("$602.75", "not money"),
        CSV.replace("$602.75", "--"),
        CSV.replace("$1,552.75", "$1,000.00"),
        CSV.replace("\"NVDA\",\"Synthetic NVIDIA\"", "\"DEMO-A\",\"Synthetic NVIDIA\""),
        "Symbol,Description,Qty,Price,Mkt Val\nX,Example,1,2\n".into(),
        "Symbol,Description,Qty,Price,Mkt Val\n".into(),
    ] {
        assert_eq!(parse_positions(&content, "Positions.csv").unwrap_err().code, "positions_invalid");
    }
}

#[test]
fn rejects_malformed_quoting_and_supports_reordered_columns() {
    let unclosed = "Symbol,Description,Qty,Price,Mkt Val,Asset Type\nX,Example,1,2,2,\"unclosed";
    assert!(parse_positions(unclosed, "Positions.csv").unwrap_err().message.contains("unterminated"));
    let reordered = "\u{feff}Symbol,Mkt Val,Price,Qty,Description\r\nX,2.00,2.00,1,\"Example \"\"quoted\"\" name\"\r\n";
    let portfolio = parse_positions(reordered, "Positions.csv").unwrap();
    assert_eq!(portfolio.summary.total_market_value, Dec::new(2, 0));
    assert_eq!(portfolio.positions[0].description, "Example \"quoted\" name");
}

#[test]
fn missing_directory_is_distinct_from_missing_required_data() {
    assert_eq!(directory_error_code(DirectoryFault::Missing), "directory_missing");
    assert!(!is_positions_file("Balances.csv"));
    let none = no_positions_error();
    assert_eq!(none.code, "positions_missing");
    assert_ne!(none.code, directory_error_code(DirectoryFault::Missing));
}

#[test]
fn directory_must_be_a_directory_and_symlinks_are_not_sources() {
    assert_eq!(directory_error_code(DirectoryFault::Other), "directory_invalid");
    assert_eq!(pick_newest(&Vec::new()), None);
    assert_eq!(no_positions_error().code, "positions_missing");
}

#[test]
fn unreadable_directory_and_file_report_errors() {
    assert_eq!(directory_error_code(DirectoryFault::Denied), "directory_unreadable");
}

#[test]
fn negative_zero_cells_keep_their_sign() {
    let z = number("-$0.00").unwrap().unwrap();
    assert_eq!(z.mantissa, 0);
    assert_eq!(z.scale, 2);
    assert!(z.negative);
    assert!(number("(0.00)").unwrap().unwrap().negative);
    assert!(!number("$0.00").unwrap().unwrap().negative);
    assert_eq!(z, Dec::new(0, 2));
    assert_eq!(money_text(Some(z)), "$-0.00");
    assert_eq!(money_text(Some(Dec::new(0, 2))), "$0.00");
}

fn record(line: u64, cells: &[&str]) -> CsvRow {
    CsvRow { line, fields: cells.iter().map(|c| c.to_string()).collect() }
}

#[test]
fn records_build_the_portfolio_row_by_row() {
    let header = record(2, &["Symbol", "Description", "Qty (Quantity)", "Price", "Mkt Val (Market Value)", "Asset Type"]);
    let holding = record(3, &["NVDA", "Synthetic NVIDIA", "2", "$301.00", "$602.75", "Equity"]);
    let cash = record(4, &["Cash & Cash Investments", "--", "--", "--", "$10.00", "Cash and Money Market"]);
    let total = record(5, &["Positions Total", "", "--", "--", "$612.75", "--"]);
    let read = CsvRead { rows: vec![record(1, &["Positions for account"]), header, holding, cash, total], error: None };
    let p = positions_from_records(&read, "P.csv").unwrap();
    assert_eq!(p.summary.position_count, 2);
    assert_eq!(p.summary.total_market_value, Dec::new(61275, 2));
    assert_eq!(p.positions[0].market_value, Dec::new(60275, 2));
    assert_eq!(p.source_file, "P.csv");
    let broken = CsvRead { rows: read.rows, error: Some("bad quote".to_string()) };
    let e = positions_from_records(&broken, "P.csv").unwrap_err();
    assert_eq!(e.code, "positions_invalid");
    assert_eq!(e.message, "P.csv: malformed CSV: bad quote");
}
