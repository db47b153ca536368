use epic_platform::config::{watchlist_setting, EnvValue};
use epic_platform::research::domain::{Company, EarningsPeriod, ResearchSnapshot, SavedResearchSnapshot, SourceLink};
use epic_platform::decimal::Dec;
use epic_platform::symbol::StockSymbol;
use epic_platform::watchlist::domain::{BriefingStatus, WatchlistError, WatchlistInput};
use epic_platform::research::domain::ResearchError;
use epic_platform::watchlist::service::{assemble_briefing, briefing_from, configuration_of, submission_input};

#[test]
fn normalization_empty_and_invalid_are_explicit() {
    let input = WatchlistInput::parse(" msft , AMD,msft, brk.b ").unwrap();
    assert_eq!(input.symbols().iter().map(|s| s.to_string()).collect::<Vec<_>>(), ["AMD", "BRK.B", "MSFT"]);
    assert_eq!(input, WatchlistInput::parse("BRK.B,MSFT,AMD").unwrap());
    assert_eq!(WatchlistInput::parse("  ").unwrap().validate_submission(), Err(WatchlistError::Empty));
    for value in ["MSFT,", "MSFT,,AMD", "MSFT260101C100", "$CASH", "BRK..B"] {
        assert_eq!(WatchlistInput::parse(value), Err(WatchlistError::InvalidConfiguration));
    }
    assert!(WatchlistInput::parse(&vec!["AMD"; 33].join(",")).is_err());
}

#[test]
fn values_round_trip_through_their_texts() {
    let input = WatchlistInput::parse("msft,amd").unwrap();
    let values = input.to_values();
    assert_eq!(values, vec!["AMD".to_string(), "MSFT".to_string()]);
    assert_eq!(WatchlistInput::from_values(&values).unwrap(), input);
    assert_eq!(
        WatchlistInput::from_values(&vec!["AMD".to_string(); 33]),
        Err(WatchlistError::InvalidConfiguration)
    );
    assert_eq!(WatchlistInput::parse(&vec!["AMD"; 32].join(",")).unwrap().symbols().len(), 1);
}

#[test]
fn configuration_comes_from_the_environment() {
    assert_eq!(watchlist_setting(&EnvValue::Absent).unwrap().symbols().len(), 0);
    assert_eq!(watchlist_setting(&EnvValue::NotUnicode), Err(WatchlistError::InvalidConfiguration));
    assert_eq!(watchlist_setting(&EnvValue::Present("AMD,,MSFT".into())), Err(WatchlistError::InvalidConfiguration));
    let config = watchlist_setting(&EnvValue::Present("amd".into()));
    let shown = configuration_of(&config);
    assert_eq!(shown.error, None);
    assert_eq!(shown.input.unwrap().symbols().len(), 1);
    assert_eq!(submission_input(&watchlist_setting(&EnvValue::Absent)), Err(WatchlistError::Empty));
    assert_eq!(submission_input(&Err(WatchlistError::InvalidConfiguration)), Err(WatchlistError::InvalidConfiguration));
    assert!(submission_input(&config).is_ok());
}

fn saved(id: i64, symbol: &str, label: &str) -> SavedResearchSnapshot {
    SavedResearchSnapshot {
        id,
        snapshot: ResearchSnapshot {
            company: Company { symbol: StockSymbol::parse(symbol).unwrap(), name: format!("{symbol} Inc") },
            period: EarningsPeriod { label: label.into(), ended_on: "2025-06-30".into() },
            revenue: Dec::new(100, 0),
            diluted_eps: Dec::new(1, 0),
            currency: "USD".into(),
            source_updated_at: "2025-08-01T00:00:00Z".into(),
            retrieved_at: "2025-08-02T00:00:00Z".into(),
            sources: vec![SourceLink { label: "source".into(), url: "https://example.com/".into() }],
        },
    }
}

#[test]
fn briefing_preserves_missing_research_and_exact_saved_history() {
    let input = WatchlistInput::parse("MSFT,AMD,ZZZZ").unwrap();
    let research = vec![saved(3, "MSFT", "FY2025 Q2"), saved(4, "MSFT", "FY2025 Q1")];
    let document = assemble_briefing(&input, &research, "2025-08-03T00:00:00Z".into());
    assert_eq!(document.created_at, "2025-08-03T00:00:00Z");
    assert_eq!(document.entries.len(), 3);
    assert_eq!(document.entries[0].symbol.as_str(), "AMD");
    assert_eq!(document.entries[0].status, BriefingStatus::NeverRefreshed);
    assert_eq!(document.entries[0].company_name.as_deref(), Some("AMD"));
    assert_eq!(document.entries[1].status, BriefingStatus::Available);
    assert_eq!(document.entries[1].company_name.as_deref(), Some("MSFT Inc"));
    assert_eq!(document.entries[1].research.as_ref().unwrap().id, 3);
    assert_eq!(document.entries[2].company_name, None);
    assert!(document.entries[2].research.is_none());
}

#[test]
fn empty_invalid_and_portfolio_independent_submission_are_explicit() {
    assert_eq!(submission_input(&watchlist_setting(&EnvValue::Present("  ".into()))), Err(WatchlistError::Empty));
    assert_eq!(
        submission_input(&watchlist_setting(&EnvValue::Present("MSFT,,AMD".into()))),
        Err(WatchlistError::InvalidConfiguration)
    );
    let input = submission_input(&watchlist_setting(&EnvValue::Present("zzzz".into()))).unwrap();
    let document = assemble_briefing(&input, &Vec::new(), "2025-08-02T00:00:00Z".into());
    assert_eq!(document.entries.len(), 1);
    assert_eq!(document.entries[0].status, BriefingStatus::NeverRefreshed);
    assert_eq!(document.entries[0].company_name, None);
}

#[test]
fn briefing_needs_readable_research() {
    let input = WatchlistInput::parse("msft,amd").unwrap();
    assert_eq!(
        briefing_from(&input, Err(ResearchError::Repository), "2025-08-02T00:00:00Z".to_string()).unwrap_err(),
        WatchlistError::ResearchUnavailable
    );
    let d = briefing_from(&input, Ok(Vec::new()), "2025-08-02T00:00:00Z".to_string()).unwrap();
    assert_eq!(d.created_at, "2025-08-02T00:00:00Z");
    assert_eq!(d.entries.len(), 2);
    assert_eq!(d.entries[0].symbol.as_str(), "AMD");
    assert_eq!(d.entries[0].status, BriefingStatus::NeverRefreshed);
    assert!(d.entries[1].research.is_none());
}
