//! The research service's decisions over owned inputs: how a requested
//! symbol is shown, what a refresh attempt reports, and how holdings are
//! paired with research.
use crate::portfolio::LoadStatus;
use crate::research::domain::{
    registry_name, snapshot_view, Company, CompanyView, HoldingResearch, HoldingsResearch,
    RefreshOutcome, ResearchError, ResearchSnapshot, ResearchStatus,
};
use crate::symbol::{normalize_symbol, valid_symbol, StockSymbol};
use crate::text::{chars_of, string_of, trim_chars, upper_chars};
use vstd::prelude::*;

verus! {

/// The latest refresh attempt for a symbol in this process.
#[derive(Debug)]
pub struct RefreshAttempt {
    pub at: String,
    pub error: Option<ResearchError>,
}

impl Clone for RefreshAttempt {
    fn clone(&self) -> (r: Self)
        ensures
            r.at@ == self.at@,
            r.error == self.error,
    {
        RefreshAttempt { at: self.at.clone(), error: self.error }
    }
}

/// A requested symbol as shown: trimmed and ASCII upper-cased.
pub fn display_symbol(raw: &str) -> (r: String)
    ensures
        r@ == normalize_symbol(raw@),
{
    let t = trim_chars(chars_of(raw).as_slice());
    let u = upper_chars(t.as_slice());
    string_of(u.as_slice())
}

/// The view of a symbol before any research is read.
pub open spec fn initial_view(raw: Seq<char>, v: CompanyView) -> bool {
    &&& v.symbol@ == normalize_symbol(raw)
    &&& v.last_refresh_at is None
    &&& v.refresh_error is None
    &&& v.snapshot is None
}

/// Looks up a requested symbol. A symbol that is not an ordinary stock, or
/// not in the registry, is answered at once; otherwise the registry company
/// is returned for its research to be read.
pub fn company_lookup(raw: &str) -> (r: Result<Company, CompanyView>)
    ensures
        !valid_symbol(normalize_symbol(raw@)) ==> (r matches Err(v) && initial_view(raw@, v) && v.company is None
            && v.status == ResearchStatus::Unsupported && v.error == Some(ResearchError::InvalidSymbol)),
        valid_symbol(normalize_symbol(raw@)) ==> match registry_name(normalize_symbol(raw@)) {
            None => r matches Err(v) && initial_view(raw@, v) && v.company is None
                && v.status == ResearchStatus::Unmatched && v.error == Some(ResearchError::UnsupportedSymbol),
            Some(n) => r matches Ok(c) && c.symbol@ == normalize_symbol(raw@) && c.name@ == n,
        },
{
    let shown = display_symbol(raw);
    let symbol = match StockSymbol::parse(raw) {
        Ok(s) => s,
        Err(_) => {
            return Err(CompanyView {
                symbol: shown,
                company: None,
                status: ResearchStatus::Unsupported,
                snapshot: None,
                error: Some(ResearchError::InvalidSymbol),
                last_refresh_at: None,
                refresh_error: None,
            });
        },
    };
    match Company::find(&symbol) {
        Some(c) => Ok(c),
        None => Err(CompanyView {
            symbol: shown,
            company: None,
            status: ResearchStatus::Unmatched,
            snapshot: None,
            error: Some(ResearchError::UnsupportedSymbol),
            last_refresh_at: None,
            refresh_error: None,
        }),
    }
}

/// The view of a registry company from its latest refresh attempt and its
/// saved research (or the error reading it).
pub fn company_view(
    raw: &str,
    company: Company,
    attempt: Option<RefreshAttempt>,
    saved: Result<Option<ResearchSnapshot>, ResearchError>,
) -> (r: CompanyView)
    ensures
        r.symbol@ == normalize_symbol(raw@),
        r.company matches Some(c) && c.symbol@ == company.symbol@ && c.name@ == company.name@,
        match attempt {
            Some(a) => r.last_refresh_at matches Some(t) && t@ == a.at@ && r.refresh_error == a.error,
            None => r.last_refresh_at is None && r.refresh_error is None,
        },
        match saved {
            Ok(Some(s)) => r.status == ResearchStatus::Available && r.error is None
                && (r.snapshot matches Some(x) && snapshot_view(x) == snapshot_view(s)),
            Ok(None) => r.status == ResearchStatus::NeverRefreshed && r.error is None && r.snapshot is None,
            Err(e) => r.status == ResearchStatus::RepositoryFailure && r.error == Some(e) && r.snapshot is None,
        },
{
    let (last_refresh_at, refresh_error) = match attempt {
        Some(a) => (Some(a.at), a.error),
        None => (None, None),
    };
    let (status, snapshot, error) = match saved {
        Ok(Some(s)) => (ResearchStatus::Available, Some(s), None),
        Ok(None) => (ResearchStatus::NeverRefreshed, None, None),
        Err(e) => (ResearchStatus::RepositoryFailure, None, Some(e)),
    };
    CompanyView {
        symbol: display_symbol(raw),
        company: Some(company),
        status,
        snapshot,
        error,
        last_refresh_at,
        refresh_error,
    }
}

/// The view of a holding that is not an ordinary stock.
pub fn unsupported_view(held_symbol: &String) -> (r: CompanyView)
    ensures
        r.symbol@ == held_symbol@,
        r.company is None,
        r.status == ResearchStatus::Unsupported,
        r.snapshot is None,
        r.error is None,
        r.last_refresh_at is None,
        r.refresh_error is None,
{
    CompanyView {
        symbol: held_symbol.clone(),
        company: None,
        status: ResearchStatus::Unsupported,
        snapshot: None,
        error: None,
        last_refresh_at: None,
        refresh_error: None,
    }
}

/// The repository error a holdings page reports: that of the last holding
/// whose research could not be read, else the store's opening error.
pub open spec fn holdings_repository_error(init: Option<ResearchError>, items: Seq<HoldingResearch>) -> Option<ResearchError>
    decreases items.len(),
{
    if items.len() == 0 {
        init
    } else if items.last().research.status == ResearchStatus::RepositoryFailure {
        items.last().research.error
    } else {
        holdings_repository_error(init, items.drop_last())
    }
}

/// Pairs the holdings with their research.
pub fn holdings_research(
    portfolio_status: LoadStatus,
    portfolio_available: bool,
    initialization_error: Option<ResearchError>,
    items: Vec<HoldingResearch>,
) -> (r: HoldingsResearch)
    ensures
        r.portfolio_status == portfolio_status,
        r.portfolio_available == portfolio_available,
        r.repository_error == holdings_repository_error(initialization_error, items@),
        r.holdings@ == items@,
{
    let mut repository_error = initialization_error;
    let mut k: usize = 0;
    while k < items.len()
        invariant
            k <= items@.len(),
            repository_error == holdings_repository_error(initialization_error, items@.subrange(0, k as int)),
        decreases items@.len() - k,
    {
        proof {
            assert(items@.subrange(0, k + 1).drop_last() =~= items@.subrange(0, k as int));
        }
        if items[k].research.status == ResearchStatus::RepositoryFailure {
            repository_error = items[k].research.error;
        }
        k = k + 1;
    }
    proof {
        assert(items@.subrange(0, items@.len() as int) =~= items@);
    }
    HoldingsResearch { portfolio_status, portfolio_available, repository_error, holdings: items }
}

/// The outcome a refresh reports: a new snapshot saved, the same period
/// already saved, or a failure.
pub fn refresh_outcome(result: &Result<bool, ResearchError>) -> (r: RefreshOutcome)
    ensures
        r == match result {
            Ok(true) => RefreshOutcome::Saved,
            Ok(false) => RefreshOutcome::Unchanged,
            Err(_) => RefreshOutcome::Failed,
        },
{
    match result {
        Ok(true) => RefreshOutcome::Saved,
        Ok(false) => RefreshOutcome::Unchanged,
        Err(_) => RefreshOutcome::Failed,
    }
}

/// The attempt a refresh records, finished at `at`.
pub fn attempt_of(at: String, result: &Result<bool, ResearchError>) -> (r: RefreshAttempt)
    ensures
        r.at == at,
        r.error == match result {
            Ok(_) => None::<ResearchError>,
            Err(e) => Some(*e),
        },
{
    RefreshAttempt {
        at,
        error: match result {
            Ok(_) => None,
            Err(e) => Some(*e),
        },
    }
}

/// A view that reports a refresh refused because another is running.
pub fn busy_view(view: CompanyView) -> (r: CompanyView)
    ensures
        r == (CompanyView { refresh_error: Some(ResearchError::Busy), ..view }),
{
    CompanyView { refresh_error: Some(ResearchError::Busy), ..view }
}

} // verus!
