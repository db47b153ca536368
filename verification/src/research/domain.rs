use crate::decimal::Dec;
use crate::numtext::{nat_digits, nat_to_text};
use crate::portfolio::{HoldingSummary, LoadStatus};
use crate::symbol::StockSymbol;
use crate::text::{chars_of, str_is, trim, trim_bounds};
use crate::timestamp::{date_after, iso_date, iso_date_text, parse_iso_date, parse_rfc3339, rfc3339_instant, today};
use vstd::prelude::*;

verus! {

/// The coverage registry: the company name for a covered symbol. Exact
/// symbols only; no aliases or fuzzy matching.
pub open spec fn registry_name(symbol: Seq<char>) -> Option<Seq<char>> {
    if false {
        None
    } else if symbol == "NVDA"@ {
        Some("NVIDIA"@)
    } else if symbol == "MSFT"@ {
        Some("Microsoft"@)
    } else if symbol == "GOOGL"@ {
        Some("Alphabet"@)
    } else if symbol == "NET"@ {
        Some("Cloudflare"@)
    } else if symbol == "AMD"@ {
        Some("AMD"@)
    } else if symbol == "ARM"@ {
        Some("Arm Holdings"@)
    } else if symbol == "SPCX"@ {
        Some("SpaceX"@)
    } else if symbol == "MU"@ {
        Some("Micron"@)
    } else {
        None
    }
}

#[derive(Debug, PartialEq)]
pub struct Company {
    pub symbol: StockSymbol,
    pub name: String,
}

impl Clone for Company {
    fn clone(&self) -> (r: Self)
        ensures
            r.symbol@ == self.symbol@,
            r.name@ == self.name@,
    {
        Company { symbol: self.symbol.clone(), name: self.name.clone() }
    }
}

impl Company {
    /// The registry entry for exactly this symbol.
    pub fn find(symbol: &StockSymbol) -> (r: Option<Company>)
        ensures
            match registry_name(symbol@) {
                Some(n) => r matches Some(c) && c.symbol@ == symbol@ && c.name@ == n,
                None => r is None,
            },
    {
        let s = symbol.as_str();
        if str_is(s, "NVDA") {
            return Some(Company { symbol: symbol.clone(), name: "NVIDIA".to_owned() });
        }
        if str_is(s, "MSFT") {
            return Some(Company { symbol: symbol.clone(), name: "Microsoft".to_owned() });
        }
        if str_is(s, "GOOGL") {
            return Some(Company { symbol: symbol.clone(), name: "Alphabet".to_owned() });
        }
        if str_is(s, "NET") {
            return Some(Company { symbol: symbol.clone(), name: "Cloudflare".to_owned() });
        }
        if str_is(s, "AMD") {
            return Some(Company { symbol: symbol.clone(), name: "AMD".to_owned() });
        }
        if str_is(s, "ARM") {
            return Some(Company { symbol: symbol.clone(), name: "Arm Holdings".to_owned() });
        }
        if str_is(s, "SPCX") {
            return Some(Company { symbol: symbol.clone(), name: "SpaceX".to_owned() });
        }
        if str_is(s, "MU") {
            return Some(Company { symbol: symbol.clone(), name: "Micron".to_owned() });
        }
        None
    }
}

#[derive(Debug, PartialEq)]
pub struct SourceLink {
    pub label: String,
    pub url: String,
}

impl Clone for SourceLink {
    fn clone(&self) -> (r: Self)
        ensures
            r.label@ == self.label@,
            r.url@ == self.url@,
    {
        SourceLink { label: self.label.clone(), url: self.url.clone() }
    }
}

#[derive(Debug, PartialEq)]
pub struct EarningsPeriod {
    pub label: String,
    pub ended_on: String,
}

impl Clone for EarningsPeriod {
    fn clone(&self) -> (r: Self)
        ensures
            r.label@ == self.label@,
            r.ended_on@ == self.ended_on@,
    {
        EarningsPeriod { label: self.label.clone(), ended_on: self.ended_on.clone() }
    }
}

pub open spec fn link_views(v: Seq<SourceLink>) -> Seq<(Seq<char>, Seq<char>)> {
    v.map_values(|l: SourceLink| (l.label@, l.url@))
}

/// Copies a list of source links.
pub fn clone_links(v: &Vec<SourceLink>) -> (r: Vec<SourceLink>)
    ensures
        link_views(r@) == link_views(v@),
{
    let mut r: Vec<SourceLink> = Vec::new();
    let mut k: usize = 0;
    while k < v.len()
        invariant
            k <= v@.len(),
            link_views(r@) == link_views(v@.subrange(0, k as int)),
        decreases v@.len() - k,
    {
        let ghost before = r@;
        let l = v[k].clone();
        assert(l.label@ == v@[k as int].label@ && l.url@ == v@[k as int].url@);
        r.push(l);
        proof {
            assert(link_views(r@) =~= link_views(before).push((l.label@, l.url@)));
            assert(link_views(v@.subrange(0, k + 1)) =~= link_views(v@.subrange(0, k as int)).push((l.label@, l.url@)));
        }
        k = k + 1;
    }
    proof {
        assert(v@.subrange(0, v@.len() as int) =~= v@);
    }
    r
}

#[derive(Debug, PartialEq)]
pub struct ResearchSnapshot {
    pub company: Company,
    pub period: EarningsPeriod,
    pub revenue: Dec,
    pub diluted_eps: Dec,
    pub currency: String,
    /// Timestamp reported by the source, not necessarily earnings publication time.
    pub source_updated_at: String,
    /// Retrieval that produced this immutable record; unchanged on same-period refresh.
    pub retrieved_at: String,
    pub sources: Vec<SourceLink>,
}

/// Two snapshots hold the same facts.
pub open spec fn same_snapshot(a: ResearchSnapshot, b: ResearchSnapshot) -> bool {
    &&& a.company.symbol@ == b.company.symbol@
    &&& a.company.name@ == b.company.name@
    &&& a.period.label@ == b.period.label@
    &&& a.period.ended_on@ == b.period.ended_on@
    &&& a.revenue == b.revenue
    &&& a.diluted_eps == b.diluted_eps
    &&& a.currency@ == b.currency@
    &&& a.source_updated_at@ == b.source_updated_at@
    &&& a.retrieved_at@ == b.retrieved_at@
    &&& link_views(a.sources@) == link_views(b.sources@)
}

impl Clone for ResearchSnapshot {
    fn clone(&self) -> (r: Self)
        ensures
            same_snapshot(r, *self),
    {
        ResearchSnapshot {
            company: self.company.clone(),
            period: self.period.clone(),
            revenue: self.revenue,
            diluted_eps: self.diluted_eps,
            currency: self.currency.clone(),
            source_updated_at: self.source_updated_at.clone(),
            retrieved_at: self.retrieved_at.clone(),
            sources: clone_links(&self.sources),
        }
    }
}

/// What a snapshot says, as plain values.
pub struct SnapshotView {
    pub symbol: Seq<char>,
    pub name: Seq<char>,
    pub label: Seq<char>,
    pub ended_on: Seq<char>,
    pub revenue: Dec,
    pub diluted_eps: Dec,
    pub currency: Seq<char>,
    pub source_updated_at: Seq<char>,
    pub retrieved_at: Seq<char>,
    pub sources: Seq<(Seq<char>, Seq<char>)>,
}

pub open spec fn snapshot_view(s: ResearchSnapshot) -> SnapshotView {
    SnapshotView {
        symbol: s.company.symbol@,
        name: s.company.name@,
        label: s.period.label@,
        ended_on: s.period.ended_on@,
        revenue: s.revenue,
        diluted_eps: s.diluted_eps,
        currency: s.currency@,
        source_updated_at: s.source_updated_at@,
        retrieved_at: s.retrieved_at@,
        sources: link_views(s.sources@),
    }
}

/// Result of `url::Url::parse`, read as (scheme, whether a host is present,
/// username, whether a password is present); `None` for a parse error.
pub uninterp spec fn url_parts(text: Seq<char>) -> Option<(Seq<char>, bool, Seq<char>, bool)>;

/// `url::Url::parse`, read as (scheme, host present, username, password present).
#[verifier::external_body]
pub(crate) fn parse_url(text: &str) -> (r: Option<(String, bool, String, bool)>)
    ensures
        match r {
            Some((scheme, host, user, password)) => url_parts(text@) == Some((scheme@, host, user@, password)),
            None => url_parts(text@) is None,
        },
{
    url::Url::parse(text).ok().map(|u| (u.scheme().to_string(), u.host_str().is_some(), u.username().to_string(), u.password().is_some()))
}

/// A source link is an http(s) URL with a host and no credentials, and a label.
pub open spec fn link_ok(link: (Seq<char>, Seq<char>)) -> bool {
    match url_parts(link.1) {
        Some((scheme, host, user, password)) => {
            &&& (scheme == "https"@ || scheme == "http"@)
            &&& host
            &&& user.len() == 0
            &&& !password
            &&& trim(link.0).len() > 0
        },
        None => false,
    }
}

/// A snapshot is refused unless its company is in the registry, its names are
/// not blank, its period ended on a real date written `YYYY-MM-DD` no later
/// than `today`, it is in US dollars with non-negative revenue, both
/// timestamps are RFC 3339, and it cites at least one valid source link.
pub open spec fn snapshot_problem(v: SnapshotView, today: (i32, u32, u32)) -> bool {
    match iso_date(v.ended_on) {
        None => true,
        Some(end) => {
            ||| registry_name(v.symbol) is None
            ||| trim(v.name).len() == 0
            ||| trim(v.label).len() == 0
            ||| iso_date_text(end) != v.ended_on
            ||| date_after(end, today)
            ||| v.currency != "USD"@
            ||| v.revenue.negative
            ||| rfc3339_instant(v.source_updated_at) is None
            ||| rfc3339_instant(v.retrieved_at) is None
            ||| v.sources.len() == 0
            ||| exists|i: int| 0 <= i < v.sources.len() && !link_ok(#[trigger] v.sources[i])
        },
    }
}

pub open spec fn validation(v: SnapshotView, today: (i32, u32, u32)) -> Result<(), ResearchError> {
    if snapshot_problem(v, today) {
        Err(ResearchError::MalformedSource)
    } else {
        Ok(())
    }
}

fn is_blank(s: &str) -> (r: bool)
    ensures
        r == (trim(s@).len() == 0),
{
    let c = chars_of(s);
    let (a, b) = trim_bounds(c.as_slice());
    a == b
}

fn date_later(a: (i32, u32, u32), b: (i32, u32, u32)) -> (r: bool)
    ensures
        r == date_after(a, b),
{
    a.0 > b.0 || (a.0 == b.0 && (a.1 > b.1 || (a.1 == b.1 && a.2 > b.2)))
}

impl ResearchSnapshot {
    /// Checks the snapshot's facts as of `today`.
    pub fn validate_on(&self, today: (i32, u32, u32)) -> (r: Result<(), ResearchError>)
        ensures
            r == validation(snapshot_view(*self), today),
    {
        let ghost v = snapshot_view(*self);
        let (end, written) = match parse_iso_date(self.period.ended_on.as_str()) {
            Some(x) => x,
            None => return Err(ResearchError::MalformedSource),
        };
        if Company::find(&self.company.symbol).is_none() || is_blank(self.company.name.as_str())
            || is_blank(self.period.label.as_str()) || !str_is(written.as_str(), self.period.ended_on.as_str())
            || date_later(end, today) || !str_is(self.currency.as_str(), "USD") || self.revenue.sign_negative()
            || parse_rfc3339(self.source_updated_at.as_str()).is_none()
            || parse_rfc3339(self.retrieved_at.as_str()).is_none() || self.sources.len() == 0 {
            return Err(ResearchError::MalformedSource);
        }
        let mut k: usize = 0;
        while k < self.sources.len()
            invariant
                k <= self.sources@.len(),
                v == snapshot_view(*self),
                forall|i: int| 0 <= i < k ==> link_ok(#[trigger] v.sources[i]),
            decreases self.sources@.len() - k,
        {
            let source = &self.sources[k];
            assert(v.sources[k as int] == (source.label@, source.url@));
            let (scheme, host, user, password) = match parse_url(source.url.as_str()) {
                Some(parts) => parts,
                None => return Err(ResearchError::MalformedSource),
            };
            if !(str_is(scheme.as_str(), "https") || str_is(scheme.as_str(), "http")) || !host
                || chars_of(user.as_str()).len() != 0 || password || is_blank(source.label.as_str()) {
                return Err(ResearchError::MalformedSource);
            }
            k = k + 1;
        }
        Ok(())
    }

    /// Checks the snapshot's facts as of the current date (UTC).
    pub fn validate(&self) -> (r: Result<(), ResearchError>)
        ensures
            exists|t: (i32, u32, u32)| r == validation(snapshot_view(*self), t),
    {
        let t = today();
        self.validate_on(t)
    }
}

/// A snapshot as saved, with its identifier in the research store.
#[derive(Debug, PartialEq)]
pub struct SavedResearchSnapshot {
    pub id: i64,
    pub snapshot: ResearchSnapshot,
}

impl Clone for SavedResearchSnapshot {
    fn clone(&self) -> (r: Self)
        ensures
            r.id == self.id,
            same_snapshot(r.snapshot, self.snapshot),
    {
        SavedResearchSnapshot { id: self.id, snapshot: self.snapshot.clone() }
    }
}

#[derive(Debug, Clone, Copy, PartialEq, Eq, Structural)]
pub enum ResearchError {
    InvalidSymbol,
    UnsupportedSymbol,
    Initialization,
    Migration,
    Repository,
    SourceUnavailable,
    Timeout,
    SourceHttp { status: u16 },
    MalformedSource,
    Busy,
}

pub open spec fn research_error_text(e: ResearchError) -> Seq<char> {
    match e {
        ResearchError::InvalidSymbol => "Invalid stock symbol. Options and other complex instruments are not supported."@,
        ResearchError::UnsupportedSymbol => "No matching company in the Stage 3 research registry."@,
        ResearchError::Initialization => "Research database could not be opened. Check RESEARCH_DB_PATH and permissions, then restart EPIC."@,
        ResearchError::Migration => "Research database migration failed. Check the server log and database version; portfolio remains available."@,
        ResearchError::Repository => "Research database read or write failed. Any previously saved snapshot has not been replaced."@,
        ResearchError::SourceUnavailable => "Stock Analysis is unavailable. Saved research remains available; try again later."@,
        ResearchError::Timeout => "Stock Analysis request timed out. Saved research remains available."@,
        ResearchError::MalformedSource => "Stock Analysis returned malformed, incomplete, or unsupported data. Nothing was saved."@,
        ResearchError::Busy => "Another research refresh is in progress. Try again after it finishes."@,
        ResearchError::SourceHttp { status } => "Stock Analysis returned HTTP "@ + nat_digits(status as nat) + ". Saved research remains available."@,
    }
}

impl ResearchError {
    /// The user-facing explanation of the error.
    pub fn message(&self) -> (r: String)
        ensures
            r@ == research_error_text(*self),
    {
        match self {
            ResearchError::InvalidSymbol => "Invalid stock symbol. Options and other complex instruments are not supported.".to_owned(),
            ResearchError::UnsupportedSymbol => "No matching company in the Stage 3 research registry.".to_owned(),
            ResearchError::Initialization => "Research database could not be opened. Check RESEARCH_DB_PATH and permissions, then restart EPIC.".to_owned(),
            ResearchError::Migration => "Research database migration failed. Check the server log and database version; portfolio remains available.".to_owned(),
            ResearchError::Repository => "Research database read or write failed. Any previously saved snapshot has not been replaced.".to_owned(),
            ResearchError::SourceUnavailable => "Stock Analysis is unavailable. Saved research remains available; try again later.".to_owned(),
            ResearchError::Timeout => "Stock Analysis request timed out. Saved research remains available.".to_owned(),
            ResearchError::MalformedSource => "Stock Analysis returned malformed, incomplete, or unsupported data. Nothing was saved.".to_owned(),
            ResearchError::Busy => "Another research refresh is in progress. Try again after it finishes.".to_owned(),
            ResearchError::SourceHttp { status } => {
                let mut m = "Stock Analysis returned HTTP ".to_owned();
                let digits = nat_to_text(*status as u64);
                m.append(digits.as_str());
                m.append(". Saved research remains available.");
                m
            },
        }
    }
}

#[derive(Debug, Clone, Copy, PartialEq, Eq, Structural)]
pub enum ResearchStatus {
    Available,
    NeverRefreshed,
    Unmatched,
    Unsupported,
    RepositoryFailure,
}

#[derive(Debug)]
pub struct CompanyView {
    pub symbol: String,
    pub company: Option<Company>,
    pub status: ResearchStatus,
    pub snapshot: Option<ResearchSnapshot>,
    pub error: Option<ResearchError>,
    /// The latest attempt in this process; separate from immutable saved facts.
    pub last_refresh_at: Option<String>,
    pub refresh_error: Option<ResearchError>,
}

#[derive(Debug)]
pub struct HoldingResearch {
    pub holding: HoldingSummary,
    pub research: CompanyView,
}

#[derive(Debug)]
pub struct HoldingsResearch {
    pub portfolio_status: LoadStatus,
    pub portfolio_available: bool,
    pub repository_error: Option<ResearchError>,
    pub holdings: Vec<HoldingResearch>,
}

#[derive(Debug, Clone, Copy, PartialEq, Eq, Structural)]
pub enum RefreshOutcome {
    Saved,
    Unchanged,
    Failed,
}

#[derive(Debug)]
pub struct RefreshResponse {
    pub outcome: RefreshOutcome,
    pub company: CompanyView,
}

/// Law: validation does not look at diluted EPS: a loss quarter (negative
/// EPS) is accepted or refused exactly as the same snapshot with any other
/// EPS, while a negative revenue (negative zero included) is always refused.
pub proof fn lemma_validation_ignores_eps(v: SnapshotView, eps: Dec, today: (i32, u32, u32))
    ensures
        snapshot_problem(v, today) == snapshot_problem(SnapshotView { diluted_eps: eps, ..v }, today),
        validation(v, today) == validation(SnapshotView { diluted_eps: eps, ..v }, today),
        v.revenue.negative ==> validation(v, today) == Err::<(), ResearchError>(ResearchError::MalformedSource),
{
    let w = SnapshotView { diluted_eps: eps, ..v };
    assert forall|i: int| 0 <= i < v.sources.len() implies (link_ok(#[trigger] v.sources[i]) == link_ok(w.sources[i])) by {}
}

/// Law: of the revenue, validation looks only at its sign flag: any two
/// revenues with the same flag (zero included) are accepted or refused alike.
pub proof fn lemma_validation_reads_revenue_sign_only(v: SnapshotView, revenue: Dec, today: (i32, u32, u32))
    requires
        revenue.negative == v.revenue.negative,
    ensures
        validation(v, today) == validation(SnapshotView { revenue, ..v }, today),
{
    let w = SnapshotView { revenue, ..v };
    assert forall|i: int| 0 <= i < v.sources.len() implies (link_ok(#[trigger] v.sources[i]) == link_ok(w.sources[i])) by {}
}

} // verus!
