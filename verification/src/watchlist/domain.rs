use crate::research::domain::SavedResearchSnapshot;
use crate::sorted::string_views;
use crate::symbol::{normalize_symbol, valid_symbol, StockSymbol};
use crate::text::{
    split_chars, split_on,
    chars_eq, chars_lt, chars_of, lemma_seq_lt_asymmetric, lemma_seq_lt_irreflexive,
    lemma_seq_lt_total, lemma_seq_lt_transitive, seq_lt, string_of, strictly_sorted, trim,
    trim_bounds,
};
use vstd::prelude::*;

verus! {

pub open spec fn symbol_views(v: Seq<StockSymbol>) -> Seq<Seq<char>> {
    v.map_values(|x: StockSymbol| x@)
}

/// The normalized symbols of a list of configured values.
pub open spec fn normalized_values(vs: Seq<Seq<char>>) -> Seq<Seq<char>> {
    vs.map_values(|p: Seq<char>| normalize_symbol(p))
}

/// A list of values is accepted when it holds at most 32 values and every
/// value is an ordinary stock symbol.
pub open spec fn values_acceptable(vs: Seq<Seq<char>>) -> bool {
    &&& vs.len() <= 32
    &&& forall|i: int| 0 <= i < vs.len() ==> valid_symbol(#[trigger] normalized_values(vs)[i])
}

/// The normalized symbols of the pieces of a configuration text.
pub open spec fn normalized_pieces(s: Seq<char>) -> Seq<Seq<char>> {
    normalized_values(split_on(s, ','))
}

/// A configuration is accepted when its comma-separated pieces are.
pub open spec fn pieces_acceptable(s: Seq<char>) -> bool {
    values_acceptable(split_on(s, ','))
}

#[derive(Debug, Clone, Copy, PartialEq, Eq, Structural)]
pub enum WatchlistError {
    Empty,
    InvalidConfiguration,
    Repository,
    ResearchUnavailable,
    NotFound,
    InvalidId,
}

pub open spec fn watchlist_error_text(e: WatchlistError) -> Seq<char> {
    match e {
        WatchlistError::Empty => "Watchlist is empty. Set WATCHLIST_SYMBOLS on the server and restart."@,
        WatchlistError::InvalidConfiguration => "Invalid WATCHLIST_SYMBOLS. Use at most 32 comma-separated ordinary stock symbols; empty entries and option symbols are not supported."@,
        WatchlistError::Repository => "Briefing database operation failed. Existing saved briefings remain unchanged."@,
        WatchlistError::ResearchUnavailable => "Saved research could not be read. No briefing was saved; this is not a Never refreshed result."@,
        WatchlistError::NotFound => "This briefing does not exist."@,
        WatchlistError::InvalidId => "Briefing ID must be a positive integer."@,
    }
}

impl WatchlistError {
    /// The user-facing explanation of the error.
    pub fn message(&self) -> (r: String)
        ensures
            r@ == watchlist_error_text(*self),
    {
        let text = match self {
            WatchlistError::Empty => "Watchlist is empty. Set WATCHLIST_SYMBOLS on the server and restart.",
            WatchlistError::InvalidConfiguration => "Invalid WATCHLIST_SYMBOLS. Use at most 32 comma-separated ordinary stock symbols; empty entries and option symbols are not supported.",
            WatchlistError::Repository => "Briefing database operation failed. Existing saved briefings remain unchanged.",
            WatchlistError::ResearchUnavailable => "Saved research could not be read. No briefing was saved; this is not a Never refreshed result.",
            WatchlistError::NotFound => "This briefing does not exist.",
            WatchlistError::InvalidId => "Briefing ID must be a positive integer.",
        };
        text.to_owned()
    }
}

/// Canonical, bounded watchlist: symbols in strictly increasing order, so
/// order and duplicate spelling in the configuration do not change identity.
#[derive(Debug, PartialEq)]
pub struct WatchlistInput(Vec<StockSymbol>);

impl View for WatchlistInput {
    type V = Seq<Seq<char>>;

    closed spec fn view(&self) -> Seq<Seq<char>> {
        symbol_views(self.0@)
    }
}

/// Adds `s` to a strictly sorted symbol list unless an equal symbol is present.
fn insert_sorted(v: &mut Vec<StockSymbol>, s: StockSymbol)
    requires
        strictly_sorted(symbol_views(old(v)@)),
    ensures
        strictly_sorted(symbol_views(final(v)@)),
        symbol_views(final(v)@).to_set() == symbol_views(old(v)@).to_set().insert(s@),
        final(v)@.len() <= old(v)@.len() + 1,
{
    let sc = chars_of(s.as_str());
    let mut i: usize = 0;
    while i < v.len()
        invariant
            i <= v@.len(),
            v@ == old(v)@,
            sc@ == s@,
            forall|k: int| 0 <= k < i ==> seq_lt(#[trigger] symbol_views(v@)[k], s@),
        ensures
            i <= v@.len(),
            v@ == old(v)@,
            forall|k: int| 0 <= k < i ==> seq_lt(#[trigger] symbol_views(v@)[k], s@),
            i < v@.len() ==> !seq_lt(symbol_views(v@)[i as int], s@),
        decreases v@.len() - i,
    {
        let vc = chars_of(v[i].as_str());
        if !chars_lt(vc.as_slice(), sc.as_slice()) {
            break;
        }
        i = i + 1;
    }
    let ghost old_views = symbol_views(v@);
    if i < v.len() {
        let vc = chars_of(v[i].as_str());
        if chars_eq(vc.as_slice(), sc.as_slice()) {
            proof {
                assert(old_views.to_set().insert(s@) =~= old_views.to_set()) by {
                    assert(old_views.contains(s@)) by {
                        assert(old_views[i as int] == s@);
                    }
                }
            }
            return;
        }
    }
    proof {
        if i < v@.len() {
            assert(!seq_lt(old_views[i as int], s@));
            lemma_seq_lt_total(old_views[i as int], s@);
            assert(seq_lt(s@, old_views[i as int]));
        }
    }
    v.insert(i, s);
    proof {
        let nv = symbol_views(v@);
        assert(nv =~= old_views.insert(i as int, s@));
        assert forall|a: int, b: int| 0 <= a < b < nv.len() implies seq_lt(#[trigger] nv[a], #[trigger] nv[b]) by {
            if a < i && b == i {
            } else if a < i && b > i {
                assert(nv[b] == old_views[b - 1]);
            } else if a == i && b > i {
                assert(nv[b] == old_views[b - 1]);
                if b - 1 > i {
                    assert(seq_lt(old_views[i as int], old_views[b - 1]));
                    lemma_seq_lt_transitive(s@, old_views[i as int], old_views[b - 1]);
                }
            } else if a > i {
                assert(nv[a] == old_views[a - 1]);
                assert(nv[b] == old_views[b - 1]);
            }
        }
        assert(nv.to_set() =~= old_views.to_set().insert(s@)) by {
            assert forall|x: Seq<char>| nv.to_set().contains(x) implies old_views.to_set().insert(s@).contains(x) by {
                let j = choose|j: int| 0 <= j < nv.len() && nv[j] == x;
                if j < i {
                    assert(old_views[j] == x);
                } else if j > i {
                    assert(old_views[j - 1] == x);
                }
            }
            assert forall|x: Seq<char>| old_views.to_set().insert(s@).contains(x) implies nv.to_set().contains(x) by {
                if x == s@ {
                    assert(nv[i as int] == x);
                } else {
                    let j = choose|j: int| 0 <= j < old_views.len() && old_views[j] == x;
                    if j < i {
                        assert(nv[j] == x);
                    } else {
                        assert(nv[j + 1] == x);
                    }
                }
            }
        }
    }
}

/// Copies a list of symbols.
pub fn clone_symbols(v: &[StockSymbol]) -> (r: Vec<StockSymbol>)
    ensures
        symbol_views(r@) == symbol_views(v@),
{
    let mut r: Vec<StockSymbol> = Vec::new();
    let mut k: usize = 0;
    while k < v.len()
        invariant
            k <= v@.len(),
            symbol_views(r@) == symbol_views(v@.subrange(0, k as int)),
        decreases v@.len() - k,
    {
        r.push(v[k].clone());
        proof {
            assert(symbol_views(v@.subrange(0, k + 1)) =~= symbol_views(v@.subrange(0, k as int)).push(v@[k as int]@));
        }
        k = k + 1;
    }
    proof {
        assert(v@.subrange(0, v@.len() as int) =~= v@);
    }
    r
}

impl Clone for WatchlistInput {
    fn clone(&self) -> (r: Self)
        ensures
            r@ == self@,
    {
        proof {
            use_type_invariant(self);
        }
        WatchlistInput(clone_symbols(&self.0))
    }
}

impl WatchlistInput {
    #[verifier::type_invariant]
    closed spec fn inv(self) -> bool {
        &&& strictly_sorted(symbol_views(self.0@))
        &&& self.0@.len() <= 32
    }

    /// Parses comma-separated symbols. Blank text is the empty watchlist;
    /// more than 32 entries, or any entry that is not an ordinary stock
    /// symbol (empty entries included), is an invalid configuration.
    pub fn parse(value: &str) -> (r: Result<WatchlistInput, WatchlistError>)
        ensures
            trim(value@).len() == 0 ==> (r matches Ok(w) && w@.len() == 0),
            trim(value@).len() > 0 ==> match r {
                Ok(w) => pieces_acceptable(value@) && strictly_sorted(w@)
                    && w@.to_set() == normalized_pieces(value@).to_set(),
                Err(e) => !pieces_acceptable(value@) && e == WatchlistError::InvalidConfiguration,
            },
    {
        let chars = chars_of(value);
        let (a, b) = trim_bounds(chars.as_slice());
        if a == b {
            let empty: Vec<StockSymbol> = Vec::new();
            proof {
                assert(symbol_views(empty@) =~= Seq::<Seq<char>>::empty());
            }
            return Ok(WatchlistInput(empty));
        }
        let pieces = split_chars(chars.as_slice(), ',');
        let mut values: Vec<String> = Vec::new();
        let mut k: usize = 0;
        while k < pieces.len()
            invariant
                k <= pieces@.len(),
                string_views(values@) == pieces@.subrange(0, k as int).map_values(|p: Vec<char>| p@),
            decreases pieces@.len() - k,
        {
            let ghost before = values@;
            let text = string_of(pieces[k].as_slice());
            values.push(text);
            proof {
                assert(string_views(values@) =~= string_views(before).push(pieces@[k as int]@));
                assert(pieces@.subrange(0, k + 1).map_values(|p: Vec<char>| p@) =~= pieces@.subrange(0, k as int).map_values(|p: Vec<char>| p@).push(pieces@[k as int]@));
            }
            k = k + 1;
        }
        proof {
            assert(pieces@.subrange(0, pieces@.len() as int) =~= pieces@);
        }
        WatchlistInput::from_values(&values)
    }

    /// Accepts at most 32 ordinary stock symbols; the watchlist is their
    /// distinct normalized symbols in increasing order.
    pub fn from_values(values: &Vec<String>) -> (r: Result<WatchlistInput, WatchlistError>)
        ensures
            match r {
                Ok(w) => values_acceptable(string_views(values@)) && strictly_sorted(w@)
                    && w@.to_set() == normalized_values(string_views(values@)).to_set(),
                Err(e) => !values_acceptable(string_views(values@)) && e == WatchlistError::InvalidConfiguration,
            },
    {
        let ghost vs = string_views(values@);
        if values.len() > 32 {
            return Err(WatchlistError::InvalidConfiguration);
        }
        let mut symbols: Vec<StockSymbol> = Vec::new();
        let mut k: usize = 0;
        while k < values.len()
            invariant
                k <= values@.len() <= 32,
                vs == string_views(values@),
                strictly_sorted(symbol_views(symbols@)),
                symbols@.len() <= k,
                symbol_views(symbols@).to_set() == normalized_values(vs).subrange(0, k as int).to_set(),
                forall|i: int| 0 <= i < k ==> valid_symbol(#[trigger] normalized_values(vs)[i]),
            decreases values@.len() - k,
        {
            let parsed = StockSymbol::parse(values[k].as_str());
            proof {
                assert(normalized_values(vs)[k as int] == normalize_symbol(values@[k as int]@));
            }
            match parsed {
                Ok(sym) => {
                    insert_sorted(&mut symbols, sym);
                    proof {
                        assert(normalized_values(vs).subrange(0, k + 1) =~= normalized_values(vs).subrange(0, k as int).push(normalized_values(vs)[k as int]));
                        broadcast use vstd::seq_lib::group_seq_properties;
                        assert(normalized_values(vs).subrange(0, k + 1).to_set() =~= normalized_values(vs).subrange(0, k as int).to_set().insert(normalized_values(vs)[k as int]));
                    }
                },
                Err(_) => {
                    return Err(WatchlistError::InvalidConfiguration);
                },
            }
            k = k + 1;
        }
        proof {
            assert(normalized_values(vs).subrange(0, values@.len() as int) =~= normalized_values(vs));
        }
        Ok(WatchlistInput(symbols))
    }

    /// The symbols' texts, in order.
    pub fn to_values(&self) -> (r: Vec<String>)
        ensures
            string_views(r@) == self@,
    {
        let mut r: Vec<String> = Vec::new();
        let mut k: usize = 0;
        while k < self.0.len()
            invariant
                k <= self.0@.len(),
                string_views(r@) == symbol_views(self.0@.subrange(0, k as int)),
            decreases self.0@.len() - k,
        {
            let ghost before = r@;
            let t = self.0[k].to_string();
            r.push(t);
            proof {
                assert(string_views(r@) =~= string_views(before).push(self.0@[k as int]@));
                assert(symbol_views(self.0@.subrange(0, k + 1)) =~= symbol_views(self.0@.subrange(0, k as int)).push(self.0@[k as int]@));
            }
            k = k + 1;
        }
        proof {
            assert(self.0@.subrange(0, self.0@.len() as int) =~= self.0@);
        }
        r
    }

    pub fn symbols(&self) -> (r: &[StockSymbol])
        ensures
            symbol_views(r@) == self@,
    {
        &self.0
    }

    /// A briefing needs at least one symbol.
    pub fn validate_submission(&self) -> (r: Result<(), WatchlistError>)
        ensures
            r is Err <==> self@.len() == 0,
            r matches Err(e) ==> e == WatchlistError::Empty,
    {
        if self.0.len() == 0 {
            Err(WatchlistError::Empty)
        } else {
            Ok(())
        }
    }
}

#[derive(Debug, Clone, Copy, PartialEq, Eq, Structural)]
pub enum BriefingStatus {
    Available,
    NeverRefreshed,
}

/// One watched symbol in a briefing, with the research saved for it.
#[derive(Debug)]
pub struct BriefingEntry {
    pub symbol: StockSymbol,
    pub company_name: Option<String>,
    pub status: BriefingStatus,
    pub research: Option<SavedResearchSnapshot>,
}

#[derive(Debug)]
pub struct BriefingDocument {
    pub created_at: String,
    pub entries: Vec<BriefingEntry>,
}

#[derive(Debug)]
pub struct SavedBriefing {
    pub id: i64,
    pub document: BriefingDocument,
}

#[derive(Debug)]
pub struct BriefingHistoryEntry {
    pub id: i64,
    pub created_at: String,
    pub symbols: Vec<StockSymbol>,
}

/// The configured watchlist, or why it was refused.
#[derive(Debug)]
pub struct WatchlistConfiguration {
    pub input: Option<WatchlistInput>,
    pub error: Option<WatchlistError>,
}

/// Round trip: the texts of a watchlist are accepted back, and read back as
/// the same watchlist (`x` stands for what reading them back gives).
pub proof fn lemma_watchlist_round_trip(w: Seq<Seq<char>>, x: Seq<Seq<char>>)
    requires
        strictly_sorted(w),
        w.len() <= 32,
        forall|i: int| 0 <= i < w.len() ==> valid_symbol(#[trigger] w[i]),
        strictly_sorted(x),
        x.to_set() == normalized_values(w).to_set(),
    ensures
        values_acceptable(w),
        x == w,
{
    assert forall|i: int| 0 <= i < w.len() implies #[trigger] normalized_values(w)[i] == w[i] by {
        crate::symbol::lemma_symbol_reparse(w[i]);
    }
    assert(normalized_values(w) =~= w);
    lemma_watchlist_identity(x, w);
}

/// Identity law: a strictly sorted symbol list is determined by its set, so two
/// configurations naming the same symbols, in any order and with any
/// duplicates or spelling of case and spacing, parse to the same watchlist.
pub proof fn lemma_watchlist_identity(a: Seq<Seq<char>>, b: Seq<Seq<char>>)
    requires
        strictly_sorted(a),
        strictly_sorted(b),
        a.to_set() == b.to_set(),
    ensures
        a == b,
    decreases a.len() + b.len(),
{
    if a.len() == 0 {
        if b.len() > 0 {
            assert(b.to_set().contains(b[0]));
        }
        assert(a =~= b);
    } else if b.len() == 0 {
        assert(a.to_set().contains(a[0]));
    } else {
        // The least elements agree.
        assert(a.to_set().contains(a[0]));
        assert(b.to_set().contains(b[0]));
        let ia = choose|i: int| 0 <= i < b.len() && b[i] == a[0];
        let ib = choose|i: int| 0 <= i < a.len() && a[i] == b[0];
        if ia > 0 {
            assert(seq_lt(b[0], b[ia]));
            if ib > 0 {
                assert(seq_lt(a[0], a[ib]));
                lemma_seq_lt_asymmetric(b[0], a[0]);
            } else {
                lemma_seq_lt_irreflexive(b[0]);
            }
        } else if ib > 0 {
            assert(seq_lt(a[0], a[ib]));
            lemma_seq_lt_irreflexive(a[0]);
        }
        assert(a[0] == b[0]);
        let ta = a.drop_first();
        let tb = b.drop_first();
        assert forall|x: Seq<char>| ta.to_set().contains(x) implies tb.to_set().contains(x) by {
            let j = choose|j: int| 0 <= j < ta.len() && ta[j] == x;
            assert(seq_lt(a[0], a[j + 1]));
            assert(a.to_set().contains(x));
            let m = choose|m: int| 0 <= m < b.len() && b[m] == x;
            if m == 0 {
                lemma_seq_lt_irreflexive(x);
            }
            assert(tb[m - 1] == x);
        }
        assert forall|x: Seq<char>| tb.to_set().contains(x) implies ta.to_set().contains(x) by {
            let j = choose|j: int| 0 <= j < tb.len() && tb[j] == x;
            assert(seq_lt(b[0], b[j + 1]));
            assert(b.to_set().contains(x));
            let m = choose|m: int| 0 <= m < a.len() && a[m] == x;
            if m == 0 {
                lemma_seq_lt_irreflexive(x);
            }
            assert(ta[m - 1] == x);
        }
        assert(ta.to_set() =~= tb.to_set());
        lemma_watchlist_identity(ta, tb);
        assert(a =~= seq![a[0]] + ta);
        assert(b =~= seq![b[0]] + tb);
    }
}

} // verus!
