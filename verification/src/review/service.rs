//! Review creation and reading, as decisions over owned inputs: which
//! portfolio can be reviewed, what research each position gets, and how a
//! saved review is shown beside the one before it.
use crate::decimal::same_value;
use crate::portfolio::{holding_stock_symbol, symbol_opt_view, Portfolio, PortfolioSnapshot, Position};
use crate::research::domain::{registry_name, same_snapshot, Company, ResearchError, SavedResearchSnapshot};
use crate::review::calculations::{
    age_seconds, age_spec, compare, compare_spec, entries, positions_wf, summarize, summary_matches, summary_spec,
    summary_wf, weights_are, Entry,
};
use crate::review::domain::{
    CoverageStatus, ReviewDetail, ReviewDocument, ReviewError, ReviewPosition, ReviewResearch,
    SavedReview,
};
use crate::symbol::StockSymbol;
use crate::watchlist::domain::symbol_views;
use vstd::prelude::*;

verus! {

/// Whether a review can start from this portfolio snapshot.
pub open spec fn input_spec(input: PortfolioSnapshot) -> Result<(), ReviewError> {
    match input.portfolio {
        None => Err(ReviewError::NoPortfolio),
        Some(p) => if input.last_successful_load is None || p.positions@.len() == 0
            || p.positions@.len() != p.summary.position_count {
            Err(ReviewError::InvalidPortfolio)
        } else {
            Ok(())
        },
    }
}

/// Checks that a loaded, consistent, non-empty portfolio is present.
pub fn validate_input(input: &PortfolioSnapshot) -> (r: Result<(), ReviewError>)
    ensures
        r == input_spec(*input),
{
    match &input.portfolio {
        None => Err(ReviewError::NoPortfolio),
        Some(p) => {
            if input.last_successful_load.is_none() || p.positions.len() == 0
                || p.positions.len() != p.summary.position_count {
                Err(ReviewError::InvalidPortfolio)
            } else {
                Ok(())
            }
        },
    }
}

/// The registry symbols whose saved research a review reads, one per
/// covered position, in order.
pub open spec fn research_symbol_views(ps: Seq<Position>) -> Seq<Seq<char>>
    decreases ps.len(),
{
    if ps.len() == 0 {
        Seq::empty()
    } else {
        let rest = research_symbol_views(ps.drop_last());
        match holding_stock_symbol(ps.last().symbol@, ps.last().asset_type@) {
            Some(s) => if registry_name(s) is Some { rest.push(s) } else { rest },
            None => rest,
        }
    }
}

/// Computes `research_symbol_views`.
pub fn research_symbols(portfolio: &Portfolio) -> (r: Vec<StockSymbol>)
    ensures
        symbol_views(r@) == research_symbol_views(portfolio.positions@),
{
    let ps = &portfolio.positions;
    let mut r: Vec<StockSymbol> = Vec::new();
    let mut k: usize = 0;
    while k < ps.len()
        invariant
            k <= ps@.len(),
            symbol_views(r@) == research_symbol_views(ps@.subrange(0, k as int)),
        decreases ps@.len() - k,
    {
        proof {
            assert(ps@.subrange(0, k + 1).drop_last() =~= ps@.subrange(0, k as int));
        }
        let ghost before = r@;
        match ps[k].stock_symbol() {
            Some(s) => {
                if Company::find(&s).is_some() {
                    let ghost sv = s@;
                    r.push(s);
                    proof {
                        assert(symbol_views(r@) =~= symbol_views(before).push(sv));
                    }
                }
            },
            None => {},
        }
        k = k + 1;
    }
    proof {
        assert(ps@.subrange(0, ps@.len() as int) =~= ps@);
    }
    r
}

/// A position's research coverage: not a stock, not in the registry, research
/// unreadable, research found, or research missing.
pub open spec fn coverage_spec(stock: Option<Seq<char>>, research_failed: bool, has_snapshot: bool) -> CoverageStatus {
    match stock {
        None => CoverageStatus::Unsupported,
        Some(s) => if registry_name(s) is None {
            CoverageStatus::Unmatched
        } else if research_failed {
            CoverageStatus::RepositoryFailure
        } else if has_snapshot {
            CoverageStatus::Available
        } else {
            CoverageStatus::Missing
        },
    }
}

/// The saved snapshot for a symbol: the last one listed for it.
pub open spec fn saved_index(saved: Seq<SavedResearchSnapshot>, s: Seq<char>) -> Option<int>
    decreases saved.len(),
{
    if saved.len() == 0 {
        None
    } else if saved.last().snapshot.company.symbol@ == s {
        Some(saved.len() - 1)
    } else {
        saved_index(saved.drop_last(), s)
    }
}

/// The saved snapshot a position is reviewed with, if any.
pub open spec fn found_for(p: Position, saved: Seq<SavedResearchSnapshot>) -> Option<int> {
    match holding_stock_symbol(p.symbol@, p.asset_type@) {
        Some(s) => saved_index(saved, s),
        None => None,
    }
}

pub open spec fn saved_snapshots(saved: Result<Vec<SavedResearchSnapshot>, ResearchError>) -> Seq<SavedResearchSnapshot> {
    match saved {
        Ok(v) => v@,
        Err(_) => Seq::empty(),
    }
}

pub open spec fn review_entry(p: Position, saved: Seq<SavedResearchSnapshot>, failed: bool) -> Entry {
    (p.symbol@, p.market_value, coverage_spec(holding_stock_symbol(p.symbol@, p.asset_type@), failed, found_for(p, saved) is Some))
}

pub open spec fn review_entries(ps: Seq<Position>, saved: Seq<SavedResearchSnapshot>, failed: bool) -> Seq<Entry> {
    ps.map_values(|p: Position| review_entry(p, saved, failed))
}

/// The ages of every snapshot used can be computed at `created`.
pub open spec fn ages_ok(ps: Seq<Position>, saved: Seq<SavedResearchSnapshot>, created: Seq<char>) -> bool {
    forall|i: int| 0 <= i < ps.len() ==> match #[trigger] found_for(ps[i], saved) {
        Some(j) => age_spec(created, saved[j].snapshot.retrieved_at@) is Ok
            && age_spec(created, saved[j].snapshot.source_updated_at@) is Ok,
        None => true,
    }
}

/// How a review of `input` ends: an input or calculation error, a total that
/// disagrees with the loaded portfolio's, or success.
pub open spec fn review_outcome(
    input: PortfolioSnapshot,
    saved: Result<Vec<SavedResearchSnapshot>, ResearchError>,
    created: Seq<char>,
) -> Result<(), ReviewError> {
    match input_spec(input) {
        Err(e) => Err(e),
        Ok(()) => {
            let p = input.portfolio.unwrap();
            let sv = saved_snapshots(saved);
            if age_spec(created, input.last_successful_load.unwrap()@) is Err {
                Err(ReviewError::Calculation)
            } else if !ages_ok(p.positions@, sv, created) {
                Err(ReviewError::Calculation)
            } else {
                match summary_spec(review_entries(p.positions@, sv, saved is Err)) {
                    Err(e) => Err(e),
                    Ok(f) => if f.total.same_value(p.summary.total_market_value) {
                        Ok(())
                    } else {
                        Err(ReviewError::InvalidPortfolio)
                    },
                }
            }
        },
    }
}

/// A review position copies its holding and carries the research found for it.
pub open spec fn position_built(
    p: Position,
    rp: ReviewPosition,
    saved: Seq<SavedResearchSnapshot>,
    failed: bool,
    created: Seq<char>,
) -> bool {
    &&& rp.symbol@ == p.symbol@
    &&& symbol_opt_view(rp.stock_symbol) == holding_stock_symbol(p.symbol@, p.asset_type@)
    &&& rp.description@ == p.description@
    &&& rp.asset_type@ == p.asset_type@
    &&& rp.quantity == p.quantity
    &&& rp.market_value == p.market_value
    &&& rp.coverage == review_entry(p, saved, failed).2
    &&& match found_for(p, saved) {
        Some(j) => rp.research matches Some(rr) && {
            &&& rr.snapshot_id == saved[j].id
            &&& same_snapshot(rr.snapshot, saved[j].snapshot)
            &&& age_spec(created, saved[j].snapshot.retrieved_at@) == Ok::<i64, ReviewError>(rr.retrieval_age_seconds)
            &&& age_spec(created, saved[j].snapshot.source_updated_at@) == Ok::<i64, ReviewError>(rr.source_age_seconds)
        },
        None => rp.research is None,
    }
}

/// The document of a successful review.
pub open spec fn document_built(
    input: PortfolioSnapshot,
    saved: Result<Vec<SavedResearchSnapshot>, ResearchError>,
    created: Seq<char>,
    portfolio_captured: Seq<char>,
    research_captured: Seq<char>,
    doc: ReviewDocument,
) -> bool {
    let p = input.portfolio.unwrap();
    let sv = saved_snapshots(saved);
    let es = review_entries(p.positions@, sv, saved is Err);
    &&& doc.calculation_version == 1
    &&& doc.created_at@ == created
    &&& doc.portfolio_captured_at@ == portfolio_captured
    &&& doc.research_captured_at@ == research_captured
    &&& doc.portfolio_loaded_at@ == input.last_successful_load.unwrap()@
    &&& doc.portfolio_load_status == input.status
    &&& doc.portfolio_source_file@ == p.source_file@
    &&& doc.research_error == match saved {
        Ok(_) => None::<ResearchError>,
        Err(e) => Some(e),
    }
    &&& summary_spec(es) matches Ok(f) && summary_matches(es, f, doc.summary) && weights_are(doc.positions@, f.weights)
    &&& doc.positions@.len() == p.positions@.len()
    &&& forall|i: int| 0 <= i < p.positions@.len() ==> position_built(p.positions@[i], #[trigger] doc.positions@[i], sv, saved is Err, created)
}

pub open spec fn snapshot_wf(input: PortfolioSnapshot) -> bool {
    input.portfolio matches Some(p) ==> {
        &&& p.summary.total_market_value.wf()
        &&& forall|i: int| 0 <= i < p.positions@.len() ==> (#[trigger] p.positions@[i]).market_value.wf()
    }
}

proof fn lemma_saved_index(saved: Seq<SavedResearchSnapshot>, s: Seq<char>)
    ensures
        saved_index(saved, s) matches Some(j) ==> 0 <= j < saved.len() && saved[j].snapshot.company.symbol@ == s,
    decreases saved.len(),
{
    if saved.len() > 0 {
        lemma_saved_index(saved.drop_last(), s);
    }
}

/// The position of the saved snapshot for `s`, if any.
fn saved_lookup(saved: &Vec<SavedResearchSnapshot>, s: &StockSymbol) -> (r: Option<usize>)
    ensures
        match saved_index(saved@, s@) {
            Some(j) => r == Some(j as usize),
            None => r is None,
        },
{
    let mut k: usize = saved.len();
    proof {
        assert(saved@.subrange(0, saved@.len() as int) =~= saved@);
    }
    while k > 0
        invariant
            k <= saved@.len(),
            saved_index(saved@, s@) == saved_index(saved@.subrange(0, k as int), s@),
        decreases k,
    {
        proof {
            assert(saved@.subrange(0, k as int).drop_last() =~= saved@.subrange(0, k - 1));
        }
        if saved[k - 1].snapshot.company.symbol.same(s) {
            return Some(k - 1);
        }
        k = k - 1;
    }
    None
}

/// Builds the review of a portfolio snapshot from the saved research read for
/// it (or the error reading it), timestamped `created_at`.
pub fn assemble_review(
    input: PortfolioSnapshot,
    saved: Result<Vec<SavedResearchSnapshot>, ResearchError>,
    created_at: String,
    portfolio_captured_at: String,
    research_captured_at: String,
) -> (r: Result<ReviewDocument, ReviewError>)
    requires
        snapshot_wf(input),
    ensures
        match review_outcome(input, saved, created_at@) {
            Err(e) => r == Err::<ReviewDocument, ReviewError>(e),
            Ok(()) => r matches Ok(doc) && document_built(input, saved, created_at@, portfolio_captured_at@, research_captured_at@, doc),
        },
{
    let ghost input0 = input;
    let ghost saved0 = saved;
    validate_input(&input)?;
    let loaded_at = match &input.last_successful_load {
        Some(l) => l.clone(),
        None => return Err(ReviewError::InvalidPortfolio),
    };
    let status = input.status;
    let portfolio = match input.portfolio {
        Some(p) => p,
        None => return Err(ReviewError::NoPortfolio),
    };
    let failed = saved.is_err();
    let (research_error, snapshots) = match saved {
        Ok(v) => (None, v),
        Err(e) => (Some(e), Vec::new()),
    };
    let ghost sv = snapshots@;
    let saved_count = snapshots.len();
    assert(sv == saved_snapshots(saved0));
    age_seconds(created_at.as_str(), loaded_at.as_str())?;
    let ghost ps = portfolio.positions@;
    let n = portfolio.positions.len();
    let mut positions: Vec<ReviewPosition> = Vec::new();
    let mut i: usize = 0;
    while i < n
        invariant
            n == ps.len(),
            ps == portfolio.positions@,
            sv == snapshots@,
            saved_count == sv.len(),
            input0 == input,
            saved0 == saved,
            input_spec(input0) == Ok::<(), ReviewError>(()),
            input0.portfolio == Some(portfolio),
            sv == saved_snapshots(saved0),
            failed == saved0 is Err,
            age_spec(created_at@, input0.last_successful_load.unwrap()@) is Ok,
            i <= n,
            positions@.len() == i,
            forall|k: int| 0 <= k < ps.len() ==> (#[trigger] ps[k]).market_value.wf(),
            forall|k: int| 0 <= k < i ==> position_built(ps[k], #[trigger] positions@[k], sv, failed, created_at@),
            forall|k: int| 0 <= k < i ==> #[trigger] positions@[k].weight_percent is None,
            forall|k: int| 0 <= k < i ==> match #[trigger] found_for(ps[k], sv) {
                Some(j) => age_spec(created_at@, sv[j].snapshot.retrieved_at@) is Ok
                    && age_spec(created_at@, sv[j].snapshot.source_updated_at@) is Ok,
                None => true,
            },
        decreases n - i,
    {
        let p = &portfolio.positions[i];
        let symbol = p.stock_symbol();
        let supported = match &symbol {
            Some(s) => Company::find(s).is_some(),
            None => false,
        };
        let found = match &symbol {
            Some(s) => saved_lookup(&snapshots, s),
            None => None,
        };
        proof {
            assert(symbol_opt_view(symbol) == holding_stock_symbol(ps[i as int].symbol@, ps[i as int].asset_type@));
            match &symbol {
                Some(x) => {
                    lemma_saved_index(sv, x@);
                    assert(found_for(ps[i as int], sv) == saved_index(sv, x@));
                    match saved_index(sv, x@) {
                        Some(j) => {
                            assert(found == Some(j as usize));
                        },
                        None => {
                            assert(found is None);
                        },
                    }
                },
                None => {},
            }
            assert(match found_for(ps[i as int], sv) {
                Some(j) => found matches Some(f) && f as int == j && 0 <= j < sv.len(),
                None => found is None,
            });
        }
        let coverage = if symbol.is_none() {
            CoverageStatus::Unsupported
        } else if !supported {
            CoverageStatus::Unmatched
        } else if failed {
            CoverageStatus::RepositoryFailure
        } else if found.is_some() {
            CoverageStatus::Available
        } else {
            CoverageStatus::Missing
        };
        let research = match found {
            Some(j) => {
                let item = &snapshots[j];
                let retrieval = match age_seconds(created_at.as_str(), item.snapshot.retrieved_at.as_str()) {
                    Ok(a) => a,
                    Err(e) => {
                        proof {
                            assert(found_for(ps[i as int], sv) == Some(j as int));
                            assert(!ages_ok(ps, sv, created_at@));
                        }
                        return Err(e);
                    },
                };
                let source = match age_seconds(created_at.as_str(), item.snapshot.source_updated_at.as_str()) {
                    Ok(a) => a,
                    Err(e) => {
                        proof {
                            assert(found_for(ps[i as int], sv) == Some(j as int));
                            assert(!ages_ok(ps, sv, created_at@));
                        }
                        return Err(e);
                    },
                };
                Some(ReviewResearch {
                    snapshot_id: item.id,
                    snapshot: item.snapshot.clone(),
                    retrieval_age_seconds: retrieval,
                    source_age_seconds: source,
                })
            },
            None => None,
        };
        let rp = ReviewPosition {
            symbol: p.symbol.clone(),
            stock_symbol: symbol,
            description: p.description.clone(),
            asset_type: p.asset_type.clone(),
            quantity: p.quantity,
            market_value: p.market_value,
            weight_percent: None,
            coverage,
            research,
        };
        assert(position_built(ps[i as int], rp, sv, failed, created_at@));
        positions.push(rp);
        i = i + 1;
    }
    proof {
        assert(ages_ok(ps, sv, created_at@));
        assert(entries(positions@) =~= review_entries(ps, sv, failed));
        assert(positions_wf(positions@));
    }
    let summary = summarize(&mut positions)?;
    if !same_value(&summary.total_market_value, &portfolio.summary.total_market_value) {
        return Err(ReviewError::InvalidPortfolio);
    }
    Ok(ReviewDocument {
        calculation_version: 1,
        created_at,
        portfolio_captured_at,
        research_captured_at,
        portfolio_loaded_at: loaded_at,
        portfolio_load_status: status,
        portfolio_source_file: portfolio.source_file,
        research_error,
        summary,
        positions,
    })
}

/// Rejects review identifiers that cannot exist.
pub fn validate_id(id: i64) -> (r: Result<(), ReviewError>)
    ensures
        r == if id <= 0 { Err::<(), ReviewError>(ReviewError::InvalidId) } else { Ok(()) },
{
    if id <= 0 {
        Err(ReviewError::InvalidId)
    } else {
        Ok(())
    }
}

/// Shows a saved review beside the one before it. A failed comparison (or a
/// failed read of the earlier review) is reported without hiding the review.
pub fn review_detail(review: SavedReview, previous: Result<Option<SavedReview>, ReviewError>) -> (r: ReviewDetail)
    requires
        summary_wf(review.document.summary),
        previous matches Ok(Some(p)) ==> summary_wf(p.document.summary),
    ensures
        r.review == review,
        match previous {
            Ok(None) => r.comparison is None && r.comparison_error is None,
            Err(e) => r.comparison is None && r.comparison_error == Some(e),
            Ok(Some(p)) => {
                ||| r.comparison matches Some(c) && r.comparison_error is None && compare_spec(review, p, Ok(c))
                ||| r.comparison is None && (r.comparison_error matches Some(e) && compare_spec(review, p, Err(e)))
            },
        },
{
    let comparison = match &previous {
        Ok(Some(p)) => match compare(&review, p) {
            Ok(c) => Ok(Some(c)),
            Err(e) => Err(e),
        },
        Ok(None) => Ok(None),
        Err(e) => Err(*e),
    };
    match comparison {
        Ok(c) => ReviewDetail { review, comparison: c, comparison_error: None },
        Err(e) => ReviewDetail { review, comparison: None, comparison_error: Some(e) },
    }
}

} // verus!
