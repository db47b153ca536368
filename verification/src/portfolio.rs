//! Holdings read from a local positions export, and the server-owned snapshot.
pub mod loader;
pub mod parser;
pub mod positions;

use crate::decimal::Dec;
use crate::symbol::{normalize_symbol, valid_symbol, StockSymbol};
use crate::text::{chars_eq, chars_of, lower_chars, lower_seq, trim, trim_chars};
use vstd::prelude::*;

verus! {

#[derive(Debug, Clone)]
pub struct Position {
    pub symbol: String,
    pub description: String,
    pub quantity: Option<Dec>,
    pub price: Option<Dec>,
    pub market_value: Dec,
    pub cost_basis: Option<Dec>,
    pub asset_type: String,
}

/// Asset types treated as ordinary stock (after trimming and lower-casing).
pub open spec fn stock_asset(asset: Seq<char>) -> bool {
    ||| asset == ""@
    ||| asset == "equity"@
    ||| asset == "equities"@
    ||| asset == "stock"@
    ||| asset == "stocks"@
    ||| asset == "common stock"@
}

/// The ordinary stock a holding row refers to, if any: stock-like asset type,
/// not the cash row, and a valid stock symbol.
pub open spec fn holding_stock_symbol(symbol: Seq<char>, asset_type: Seq<char>) -> Option<Seq<char>> {
    if !stock_asset(lower_seq(trim(asset_type))) || lower_seq(trim(symbol)) == "cash"@
        || !valid_symbol(normalize_symbol(symbol)) {
        None
    } else {
        Some(normalize_symbol(symbol))
    }
}

pub open spec fn symbol_opt_view(s: Option<StockSymbol>) -> Option<Seq<char>> {
    match s {
        Some(x) => Some(x@),
        None => None,
    }
}

/// `trim` then ASCII lower-case.
pub fn trimmed_lower(s: &str) -> (r: Vec<char>)
    ensures
        r@ == lower_seq(trim(s@)),
{
    let c = chars_of(s);
    let t = trim_chars(c.as_slice());
    lower_chars(t.as_slice())
}

/// Whether `s` holds exactly the text of `lit`.
pub fn chars_are(s: &[char], lit: &str) -> (r: bool)
    ensures
        r == (s@ == lit@),
{
    let l = chars_of(lit);
    chars_eq(s, l.as_slice())
}

impl Position {
    /// The ordinary stock this holding refers to, if any.
    pub fn stock_symbol(&self) -> (r: Option<StockSymbol>)
        ensures
            symbol_opt_view(r) == holding_stock_symbol(self.symbol@, self.asset_type@),
    {
        let asset = trimmed_lower(self.asset_type.as_str());
        let stock = chars_are(asset.as_slice(), "") || chars_are(asset.as_slice(), "equity")
            || chars_are(asset.as_slice(), "equities") || chars_are(asset.as_slice(), "stock")
            || chars_are(asset.as_slice(), "stocks") || chars_are(asset.as_slice(), "common stock");
        let sym = trimmed_lower(self.symbol.as_str());
        if !stock || chars_are(sym.as_slice(), "cash") {
            return None;
        }
        match StockSymbol::parse(self.symbol.as_str()) {
            Ok(s) => Some(s),
            Err(_) => None,
        }
    }
}

/// Owned, minimal projection of a holding for consumers.
#[derive(Debug, Clone)]
pub struct HoldingSummary {
    pub held_symbol: String,
    pub stock_symbol: Option<StockSymbol>,
    pub description: String,
    pub market_value: Dec,
}

#[derive(Debug, Clone)]
pub struct PortfolioSummary {
    pub position_count: usize,
    /// Signed sum of exported rows, including cash if present; not account equity.
    pub total_market_value: Dec,
}

#[derive(Debug, Clone)]
pub struct Portfolio {
    pub positions: Vec<Position>,
    pub summary: PortfolioSummary,
    pub source_file: String,
}

#[derive(Debug, Clone, PartialEq)]
pub struct LoadError {
    pub code: String,
    pub message: String,
}

impl LoadError {
    pub fn new(code: &str, message: String) -> (r: LoadError)
        ensures
            r.code@ == code@,
            r.message@ == message@,
    {
        LoadError { code: code.to_owned(), message }
    }
}

#[derive(Debug, Clone, Copy, PartialEq, Eq, Structural)]
pub enum LoadStatus {
    NotLoaded,
    Loading,
    Loaded,
    Failed,
}

#[derive(Debug, Clone)]
pub struct PortfolioSnapshot {
    pub data_directory: String,
    pub status: LoadStatus,
    pub last_successful_load: Option<String>,
    pub error: Option<LoadError>,
    pub portfolio: Option<Portfolio>,
}

impl PortfolioSnapshot {
    /// The state before any load: nothing loaded, no error.
    pub fn initial(data_directory: String) -> (r: PortfolioSnapshot)
        ensures
            r.data_directory == data_directory,
            r.status == LoadStatus::NotLoaded,
            r.last_successful_load is None,
            r.error is None,
            r.portfolio is None,
    {
        PortfolioSnapshot {
            data_directory,
            status: LoadStatus::NotLoaded,
            last_successful_load: None,
            error: None,
            portfolio: None,
        }
    }

    /// Marks a load as started; everything else is kept.
    pub fn start_loading(self) -> (r: PortfolioSnapshot)
        ensures
            r == (PortfolioSnapshot { status: LoadStatus::Loading, ..self }),
    {
        PortfolioSnapshot { status: LoadStatus::Loading, ..self }
    }

    /// Publishes the outcome of a load finished at `now`. A successful load
    /// replaces the portfolio; a failed load keeps the last good portfolio and
    /// its load time and only reports the error.
    pub fn apply_load(self, result: Result<Portfolio, LoadError>, now: String) -> (r: PortfolioSnapshot)
        ensures
            r.data_directory == self.data_directory,
            match result {
                Ok(p) => {
                    &&& r.status == LoadStatus::Loaded
                    &&& r.portfolio == Some(p)
                    &&& r.last_successful_load == Some(now)
                    &&& r.error is None
                },
                Err(e) => {
                    &&& r.status == LoadStatus::Failed
                    &&& r.portfolio == self.portfolio
                    &&& r.last_successful_load == self.last_successful_load
                    &&& r.error == Some(e)
                },
            },
    {
        match result {
            Ok(p) => PortfolioSnapshot {
                status: LoadStatus::Loaded,
                portfolio: Some(p),
                last_successful_load: Some(now),
                error: None,
                ..self
            },
            Err(e) => PortfolioSnapshot { status: LoadStatus::Failed, error: Some(e), ..self },
        }
    }
}

/// What research reads of the snapshot: the load status, and the holdings of
/// the loaded portfolio if there is one.
pub fn research_input_of(snapshot: &PortfolioSnapshot) -> (r: (LoadStatus, Option<Vec<HoldingSummary>>))
    ensures
        r.0 == snapshot.status,
        r.1 is Some <==> snapshot.portfolio is Some,
        r.1 matches Some(h) ==> holdings_match(h@, snapshot.portfolio.unwrap().positions@),
{
    match &snapshot.portfolio {
        Some(p) => (snapshot.status, Some(holdings_of(p))),
        None => (snapshot.status, None),
    }
}

/// Each holding projects the position at its index.
pub open spec fn holdings_match(hs: Seq<HoldingSummary>, ps: Seq<Position>) -> bool {
    &&& hs.len() == ps.len()
    &&& forall|i: int| 0 <= i < hs.len() ==> {
        let h = #[trigger] hs[i];
        let p = ps[i];
        &&& h.held_symbol@ == p.symbol@
        &&& symbol_opt_view(h.stock_symbol) == holding_stock_symbol(p.symbol@, p.asset_type@)
        &&& h.description@ == p.description@
        &&& h.market_value == p.market_value
    }
}

/// The owned holdings projection of a portfolio, one entry per position in order.
pub fn holdings_of(portfolio: &Portfolio) -> (r: Vec<HoldingSummary>)
    ensures
        holdings_match(r@, portfolio.positions@),
{
    let mut r: Vec<HoldingSummary> = Vec::new();
    let mut k: usize = 0;
    while k < portfolio.positions.len()
        invariant
            k <= portfolio.positions@.len(),
            r@.len() == k,
            forall|i: int| 0 <= i < k ==> {
                let h = #[trigger] r@[i];
                let p = portfolio.positions@[i];
                &&& h.held_symbol@ == p.symbol@
                &&& symbol_opt_view(h.stock_symbol) == holding_stock_symbol(p.symbol@, p.asset_type@)
                &&& h.description@ == p.description@
                &&& h.market_value == p.market_value
            },
        decreases portfolio.positions@.len() - k,
    {
        let p = &portfolio.positions[k];
        r.push(HoldingSummary {
            held_symbol: p.symbol.clone(),
            stock_symbol: p.stock_symbol(),
            description: p.description.clone(),
            market_value: p.market_value,
        });
        k = k + 1;
    }
    r
}

/// Law: a holding whose asset type is blank (an export without an asset
/// type column, or an empty cell) is an ordinary stock when its symbol is a
/// valid stock symbol other than cash; a holding with any asset type is
/// never a stock under an invalid symbol or as the cash row.
pub proof fn lemma_blank_asset_type_is_stock(symbol: Seq<char>, asset_type: Seq<char>)
    ensures
        trim(asset_type).len() == 0 && valid_symbol(normalize_symbol(symbol)) && lower_seq(trim(symbol)) != "cash"@
            ==> holding_stock_symbol(symbol, asset_type) == Some(normalize_symbol(symbol)),
        !valid_symbol(normalize_symbol(symbol)) || lower_seq(trim(symbol)) == "cash"@
            ==> holding_stock_symbol(symbol, asset_type) is None,
{
    if trim(asset_type).len() == 0 {
        reveal_strlit("");
        assert(lower_seq(trim(asset_type)) =~= ""@);
    }
}

/// Law: the asset types of ordinary stock are recognised whatever their
/// case and surrounding spaces (Equity, Equities, Stock, Stocks, Common
/// Stock), and other instruments (ETF, Option, Mutual Fund, Fixed Income,
/// Cash and Money Market) are never stocks.
pub proof fn lemma_asset_types(symbol: Seq<char>, asset_type: Seq<char>)
    requires
        valid_symbol(normalize_symbol(symbol)),
        lower_seq(trim(symbol)) != "cash"@,
    ensures
        lower_seq(trim(asset_type)) == "equity"@ || lower_seq(trim(asset_type)) == "equities"@
            || lower_seq(trim(asset_type)) == "stock"@ || lower_seq(trim(asset_type)) == "stocks"@
            || lower_seq(trim(asset_type)) == "common stock"@
            ==> holding_stock_symbol(symbol, asset_type) == Some(normalize_symbol(symbol)),
        lower_seq(trim(asset_type)) == "etf"@ || lower_seq(trim(asset_type)) == "option"@
            || lower_seq(trim(asset_type)) == "mutual fund"@ || lower_seq(trim(asset_type)) == "fixed income"@
            || lower_seq(trim(asset_type)) == "cash and money market"@
            ==> holding_stock_symbol(symbol, asset_type) is None,
{
    reveal_strlit("");
    reveal_strlit("equity");
    reveal_strlit("equities");
    reveal_strlit("stock");
    reveal_strlit("stocks");
    reveal_strlit("common stock");
    reveal_strlit("etf");
    reveal_strlit("option");
    reveal_strlit("mutual fund");
    reveal_strlit("fixed income");
    reveal_strlit("cash and money market");
    let a = lower_seq(trim(asset_type));
    if a == "etf"@ || a == "option"@ || a == "mutual fund"@ || a == "fixed income"@ || a == "cash and money market"@ {
        assert(a.len() == 3 || a.len() == 6 || a.len() == 11 || a.len() == 12 || a.len() == 21);
        assert(a.len() == 6 ==> a[0] == 'o');
        assert(a.len() == 12 ==> a[0] == 'f');
        assert(a != ""@ && a != "equity"@ && a != "equities"@ && a != "stock"@ && a != "stocks"@);
        assert(a != "common stock"@) by {
            if a.len() == 12 {
                assert("common stock"@[0] == 'c');
            }
        }
        assert(!stock_asset(a));
    }
}

} // verus!
