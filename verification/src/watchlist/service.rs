//! Briefing creation as decisions over owned inputs: which watchlist is
//! submitted and what each watched symbol's entry holds.
use crate::research::domain::{registry_name, same_snapshot, Company, ResearchError, SavedResearchSnapshot};
use crate::symbol::StockSymbol;
use crate::watchlist::domain::{
    symbol_views, BriefingDocument, BriefingEntry, BriefingStatus, WatchlistConfiguration, WatchlistError,
    WatchlistInput,
};
use vstd::prelude::*;

verus! {

/// The steps a briefing reports while it runs.
#[derive(Debug, Clone, Copy, PartialEq, Eq, Structural)]
pub enum BriefingStep {
    ReadingWatchlist,
    LoadingResearch,
    PersistingBriefing,
}

/// The configured watchlist as shown: the watchlist, or the configuration error.
pub fn configuration_of(configuration: &Result<WatchlistInput, WatchlistError>) -> (r: WatchlistConfiguration)
    ensures
        match configuration {
            Ok(w) => r.input matches Some(x) && x@ == w@ && r.error is None,
            Err(e) => r.input is None && r.error == Some(*e),
        },
{
    match configuration {
        Ok(w) => WatchlistConfiguration { input: Some(w.clone()), error: None },
        Err(e) => WatchlistConfiguration { input: None, error: Some(*e) },
    }
}

/// The watchlist a briefing job is submitted with: the configured one, if it
/// was accepted and is not empty.
pub fn submission_input(configuration: &Result<WatchlistInput, WatchlistError>) -> (r: Result<WatchlistInput, WatchlistError>)
    ensures
        match configuration {
            Ok(w) => if w@.len() == 0 {
                r == Err::<WatchlistInput, WatchlistError>(WatchlistError::Empty)
            } else {
                r matches Ok(x) && x@ == w@
            },
            Err(e) => r == Err::<WatchlistInput, WatchlistError>(*e),
        },
{
    match configuration {
        Ok(w) => {
            w.validate_submission()?;
            Ok(w.clone())
        },
        Err(e) => Err(*e),
    }
}

/// Rejects briefing identifiers that cannot exist.
pub fn validate_briefing_id(id: i64) -> (r: Result<(), WatchlistError>)
    ensures
        r == if id <= 0 { Err::<(), WatchlistError>(WatchlistError::InvalidId) } else { Ok(()) },
{
    if id <= 0 {
        Err(WatchlistError::InvalidId)
    } else {
        Ok(())
    }
}

/// The first saved snapshot for a symbol.
pub open spec fn first_saved(saved: Seq<SavedResearchSnapshot>, s: Seq<char>) -> Option<int>
    decreases saved.len(),
{
    if saved.len() == 0 {
        None
    } else if saved[0].snapshot.company.symbol@ == s {
        Some(0)
    } else {
        match first_saved(saved.drop_first(), s) {
            Some(j) => Some(j + 1),
            None => None,
        }
    }
}

proof fn lemma_first_saved(saved: Seq<SavedResearchSnapshot>, s: Seq<char>)
    ensures
        first_saved(saved, s) matches Some(j) ==> 0 <= j < saved.len() && saved[j].snapshot.company.symbol@ == s,
    decreases saved.len(),
{
    if saved.len() > 0 {
        lemma_first_saved(saved.drop_first(), s);
    }
}

/// A briefing entry: the symbol, the research saved for it, the company name
/// from that research or else from the registry, and whether research exists.
pub open spec fn entry_built(s: Seq<char>, saved: Seq<SavedResearchSnapshot>, e: BriefingEntry) -> bool {
    &&& e.symbol@ == s
    &&& match first_saved(saved, s) {
        Some(j) => {
            &&& e.status == BriefingStatus::Available
            &&& e.research matches Some(x) && x.id == saved[j].id && same_snapshot(x.snapshot, saved[j].snapshot)
            &&& e.company_name matches Some(n) && n@ == saved[j].snapshot.company.name@
        },
        None => {
            &&& e.status == BriefingStatus::NeverRefreshed
            &&& e.research is None
            &&& match registry_name(s) {
                Some(n) => e.company_name matches Some(m) && m@ == n,
                None => e.company_name is None,
            }
        },
    }
}

fn find_saved(saved: &Vec<SavedResearchSnapshot>, s: &StockSymbol) -> (r: Option<usize>)
    ensures
        match first_saved(saved@, s@) {
            Some(j) => r matches Some(k) && k as int == j,
            None => r is None,
        },
{
    let mut k: usize = 0;
    proof {
        assert(saved@.subrange(0, saved@.len() as int) =~= saved@);
    }
    while k < saved.len()
        invariant
            k <= saved@.len(),
            first_saved(saved@, s@) == match first_saved(saved@.subrange(k as int, saved@.len() as int), s@) {
                Some(j) => Some(j + k),
                None => None::<int>,
            },
        decreases saved@.len() - k,
    {
        proof {
            assert(saved@.subrange(k as int, saved@.len() as int).drop_first() =~= saved@.subrange(k + 1, saved@.len() as int));
        }
        if saved[k].snapshot.company.symbol.same(s) {
            return Some(k);
        }
        k = k + 1;
    }
    None
}

/// Builds a briefing of the watchlist from the saved research read for it.
pub fn assemble_briefing(input: &WatchlistInput, saved: &Vec<SavedResearchSnapshot>, created_at: String) -> (r: BriefingDocument)
    ensures
        r.created_at == created_at,
        r.entries@.len() == input@.len(),
        forall|i: int| 0 <= i < input@.len() ==> entry_built(input@[i], saved@, #[trigger] r.entries@[i]),
{
    let symbols = input.symbols();
    let mut entries: Vec<BriefingEntry> = Vec::new();
    let mut k: usize = 0;
    while k < symbols.len()
        invariant
            k <= symbols@.len(),
            symbol_views(symbols@) == input@,
            entries@.len() == k,
            forall|i: int| 0 <= i < k ==> entry_built(input@[i], saved@, #[trigger] entries@[i]),
        decreases symbols@.len() - k,
    {
        let symbol = &symbols[k];
        assert(symbol@ == input@[k as int]);
        proof {
            lemma_first_saved(saved@, symbol@);
        }
        let entry = match find_saved(saved, symbol) {
            Some(j) => {
                let research = saved[j].clone();
                let name = research.snapshot.company.name.clone();
                BriefingEntry {
                    symbol: symbol.clone(),
                    company_name: Some(name),
                    status: BriefingStatus::Available,
                    research: Some(research),
                }
            },
            None => BriefingEntry {
                symbol: symbol.clone(),
                company_name: match Company::find(symbol) {
                    Some(c) => Some(c.name),
                    None => None,
                },
                status: BriefingStatus::NeverRefreshed,
                research: None,
            },
        };
        entries.push(entry);
        k = k + 1;
    }
    BriefingDocument { created_at, entries }
}

/// The briefing of `input` from the saved research read for it; when that
/// reading failed there is no briefing, only `ResearchUnavailable`.
pub fn briefing_from(
    input: &WatchlistInput,
    saved: Result<Vec<SavedResearchSnapshot>, ResearchError>,
    created_at: String,
) -> (r: Result<BriefingDocument, WatchlistError>)
    ensures
        saved is Err ==> r == Err::<BriefingDocument, WatchlistError>(WatchlistError::ResearchUnavailable),
        saved matches Ok(v) ==> r matches Ok(d) && {
            &&& d.created_at == created_at
            &&& d.entries@.len() == input@.len()
            &&& forall|i: int| 0 <= i < input@.len() ==> entry_built(input@[i], v@, #[trigger] d.entries@[i])
        },
{
    match saved {
        Ok(v) => Ok(assemble_briefing(input, &v, created_at)),
        Err(_) => Err(WatchlistError::ResearchUnavailable),
    }
}

} // verus!
