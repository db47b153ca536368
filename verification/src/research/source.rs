//! The research source's page format, and the boundary from its response to
//! a research snapshot: values from the provider's reference tables never
//! become view models directly.
use crate::decimal::{decimal_parse, decimal_parse_scientific, parse, parse_scientific, Dec};
use crate::numtext::{int_text, int_to_text, nat_digits, nat_to_text};
use crate::research::domain::{
    link_views, snapshot_problem, snapshot_view, validation, Company, EarningsPeriod, ResearchError,
    ResearchSnapshot, SnapshotView, SourceLink,
};
use crate::research::json::{
    as_i64, as_str, as_u64, as_i64_spec, as_str_spec, as_u64_spec, at_index, at_key, denotes, deref, expand,
    expand_cost, get_index, get_key, json_document, parse_json, Json, JsonNumber,
};
use crate::text::{chars_of, is_ascii_digit, lower_chars, lower_seq, str_is, string_of};
use crate::timestamp::{rfc3339_from_millis, rfc3339_of_millis, today};
use vstd::prelude::*;

verus! {

/// The research source's base address.
pub open spec fn source_base() -> Seq<char> {
    "https://stockanalysis.com/"@
}

/// The reference table of a page document: the `data` array of its last node.
pub open spec fn page_table(payload: Json) -> Option<Seq<Json>> {
    match get_key(payload, "nodes"@) {
        Json::Array(nodes) => if nodes@.len() == 0 {
            None
        } else {
            match get_key(nodes@.last(), "data"@) {
                Json::Array(t) => Some(t@),
                _ => None,
            }
        },
        _ => None,
    }
}

/// The expansion budget of a page: at most this many references are resolved.
pub open spec fn page_budget() -> nat {
    50000
}

fn page_table_of(payload: &Json) -> (r: Option<&Vec<Json>>)
    ensures
        match page_table(*payload) {
            Some(t) => r matches Some(v) && v@ == t,
            None => r is None,
        },
{
    let nodes = match at_key(Some(payload), "nodes") {
        Some(Json::Array(nodes)) => nodes,
        _ => return None,
    };
    if nodes.len() == 0 {
        return None;
    }
    let last = &nodes[nodes.len() - 1];
    assert(*last == nodes@.last());
    match at_key(Some(last), "data") {
        Some(Json::Array(t)) => Some(t),
        _ => None,
    }
}

/// Resolves a page document into its forecast value: entry 0 of its
/// reference table, expanded within the depth and reference budget.
pub fn decode_page(payload: &Json) -> (r: Result<Json, ResearchError>)
    ensures
        match page_table(*payload) {
            None => r == Err::<Json, ResearchError>(ResearchError::MalformedSource),
            Some(t) => match expand_cost(t, 0, 0, page_budget()) {
                None => r == Err::<Json, ResearchError>(ResearchError::MalformedSource),
                Some(_) => r matches Ok(f) && denotes(t, 0, 0, f),
            },
        },
{
    let table = match page_table_of(payload) {
        Some(t) => t,
        None => return Err(ResearchError::MalformedSource),
    };
    let mut budget: usize = 50000;
    expand(table, 0, 0, &mut budget)
}

/// A usable text field: a non-empty string other than the `[PRO]` placeholder.
pub open spec fn text_spec(j: Json) -> Option<Seq<char>> {
    match as_str_spec(j) {
        Some(s) => if s.len() > 0 && s != "[PRO]"@ { Some(s) } else { None },
        None => None,
    }
}

fn text<'a>(j: Option<&'a Json>) -> (r: Result<&'a str, ResearchError>)
    ensures
        match text_spec(deref(j)) {
            Some(s) => r matches Ok(x) && x@ == s,
            None => r == Err::<&str, ResearchError>(ResearchError::MalformedSource),
        },
{
    match as_str(j) {
        Some(s) => {
            let c = chars_of(s);
            if c.len() == 0 || str_is(s, "[PRO]") {
                Err(ResearchError::MalformedSource)
            } else {
                Ok(s)
            }
        },
        None => Err(ResearchError::MalformedSource),
    }
}

/// How `serde_json` writes a number.
pub open spec fn number_text(n: JsonNumber) -> Seq<char> {
    match n {
        JsonNumber::PosInt(u) => nat_digits(u as nat),
        JsonNumber::NegInt(i) => int_text(i as int),
        JsonNumber::Float(s) => s@,
    }
}

/// A numeric field read as a decimal: its text parsed as decimal notation,
/// else as scientific notation.
pub open spec fn decimal_spec(j: Json) -> Option<Dec> {
    match j {
        Json::Number(n) => match decimal_parse(number_text(n)) {
            Some(d) => Some(d),
            None => decimal_parse_scientific(number_text(n)),
        },
        _ => None,
    }
}

fn decimal(j: Option<&Json>) -> (r: Result<Dec, ResearchError>)
    ensures
        match decimal_spec(deref(j)) {
            Some(d) => r == Ok::<Dec, ResearchError>(d),
            None => r == Err::<Dec, ResearchError>(ResearchError::MalformedSource),
        },
{
    let n = match j {
        Some(Json::Number(n)) => n,
        _ => return Err(ResearchError::MalformedSource),
    };
    let written = match n {
        JsonNumber::PosInt(u) => nat_to_text(*u),
        JsonNumber::NegInt(i) => int_to_text(*i),
        JsonNumber::Float(s) => s.clone(),
    };
    match parse(written.as_str()) {
        Some(d) => Ok(d),
        None => match parse_scientific(written.as_str()) {
            Some(d) => Ok(d),
            None => Err(ResearchError::MalformedSource),
        },
    }
}

/// The reported quarterly table of a forecast.
pub open spec fn quarterly(f: Json) -> Json {
    get_key(get_key(get_key(f, "estimates"@), "table"@), "quarterly"@)
}

/// The column of the last reported quarter (below 100).
pub open spec fn period_index(q: Json) -> Option<int> {
    match as_u64_spec(get_key(q, "lastDate"@)) {
        Some(i) => if i < 100 { Some(i as int) } else { None },
        None => None,
    }
}

pub open spec fn year_ok(y: Seq<char>) -> bool {
    y.len() == 4 && forall|i: int| 0 <= i < 4 ==> is_ascii_digit(#[trigger] y[i])
}

pub open spec fn quarter_ok(q: Seq<char>) -> bool {
    q == "Q1"@ || q == "Q2"@ || q == "Q3"@ || q == "Q4"@
}

pub open spec fn currency_ok(f: Json) -> bool {
    as_str_spec(get_key(get_key(f, "priceTargets"@), "currency"@)) == Some("USD"@)
}

pub open spec fn source_link_label() -> Seq<char> {
    "Stock Analysis · reported quarterly results (S&P Global)"@
}

/// The public forecast page of a symbol.
pub open spec fn source_page(symbol: Seq<char>) -> Seq<char> {
    source_base() + "stocks/"@ + lower_seq(symbol) + "/forecast/"@
}

/// The snapshot a forecast reports for a company, retrieved at `retrieved`:
/// the last reported quarter's period, revenue and diluted EPS in US
/// dollars, and the source's update time.
pub open spec fn forecast_view(symbol: Seq<char>, name: Seq<char>, f: Json, retrieved: Seq<char>) -> Option<SnapshotView> {
    let q = quarterly(f);
    match period_index(q) {
        None => None,
        Some(i) => match (text_spec(get_index(get_key(q, "fiscalYear"@), i)), text_spec(get_index(get_key(q, "fiscalQuarter"@), i))) {
            (Some(year), Some(quarter)) => if !year_ok(year) || !quarter_ok(quarter) || !currency_ok(f) {
                None
            } else {
                match as_i64_spec(get_key(get_key(f, "trust"@), "lastUpdated"@)) {
                    None => None,
                    Some(ms) => match rfc3339_of_millis(ms) {
                        None => None,
                        Some(updated) => match text_spec(get_index(get_key(q, "dates"@), i)) {
                            None => None,
                            Some(ended) => match decimal_spec(get_index(get_key(q, "revenue"@), i)) {
                                None => None,
                                Some(revenue) => match decimal_spec(get_index(get_key(q, "eps"@), i)) {
                                    None => None,
                                    Some(eps) => Some(SnapshotView {
                                        symbol,
                                        name,
                                        label: "FY"@ + year + " "@ + quarter,
                                        ended_on: ended,
                                        revenue,
                                        diluted_eps: eps,
                                        currency: "USD"@,
                                        source_updated_at: updated,
                                        retrieved_at: retrieved,
                                        sources: seq![(source_link_label(), source_page(symbol))],
                                    }),
                                },
                            },
                        },
                    },
                }
            },
            _ => None,
        },
    }
}

fn is_year(y: &str) -> (r: bool)
    ensures
        r == year_ok(y@),
{
    let c = chars_of(y);
    if c.len() != 4 {
        return false;
    }
    let mut k: usize = 0;
    while k < 4
        invariant
            k <= 4,
            c@ == y@,
            c@.len() == 4,
            forall|i: int| 0 <= i < k ==> is_ascii_digit(#[trigger] c@[i]),
        decreases 4 - k,
    {
        if !('0' <= c[k] && c[k] <= '9') {
            return false;
        }
        k = k + 1;
    }
    true
}

/// The source page of a symbol.
pub fn source_page_of(company: &Company) -> (r: String)
    ensures
        r@ == source_page(company.symbol@),
{
    let lower = lower_chars(chars_of(company.symbol.as_str()).as_slice());
    let mut url = "https://stockanalysis.com/".to_owned();
    url.append("stocks/");
    url.append(string_of(lower.as_slice()).as_str());
    url.append("/forecast/");
    url
}

/// The forecast data address of a symbol, relative to the source base.
pub fn forecast_path(company: &Company) -> (r: String)
    ensures
        r@ == "stocks/"@ + lower_seq(company.symbol@) + "/forecast/__data.json"@,
{
    let lower = lower_chars(chars_of(company.symbol.as_str()).as_slice());
    let mut path = "stocks/".to_owned();
    path.append(string_of(lower.as_slice()).as_str());
    path.append("/forecast/__data.json");
    path
}

/// Builds the snapshot a forecast reports (before validation).
pub fn forecast_snapshot(company: &Company, forecast: &Json, retrieved_at: &str) -> (r: Result<ResearchSnapshot, ResearchError>)
    ensures
        match forecast_view(company.symbol@, company.name@, *forecast, retrieved_at@) {
            None => r == Err::<ResearchSnapshot, ResearchError>(ResearchError::MalformedSource),
            Some(v) => r matches Ok(s) && snapshot_view(s) == v,
        },
{
    let bad = ResearchError::MalformedSource;
    let f = Some(forecast);
    let q = at_key(at_key(at_key(f, "estimates"), "table"), "quarterly");
    let index = match as_u64(at_key(q, "lastDate")) {
        Some(i) => if i < 100 { i as usize } else { return Err(bad) },
        None => return Err(bad),
    };
    let year = text(at_index(at_key(q, "fiscalYear"), index))?;
    let quarter = text(at_index(at_key(q, "fiscalQuarter"), index))?;
    if !is_year(year) || !(str_is(quarter, "Q1") || str_is(quarter, "Q2") || str_is(quarter, "Q3") || str_is(quarter, "Q4"))
        || !(match as_str(at_key(at_key(f, "priceTargets"), "currency")) {
        Some(c) => str_is(c, "USD"),
        None => false,
    }) {
        return Err(bad);
    }
    let source_updated_at = match as_i64(at_key(at_key(f, "trust"), "lastUpdated")) {
        Some(ms) => match rfc3339_from_millis(ms) {
            Some(t) => t,
            None => return Err(bad),
        },
        None => return Err(bad),
    };
    let ended_on = text(at_index(at_key(q, "dates"), index))?;
    let revenue = decimal(at_index(at_key(q, "revenue"), index))?;
    let diluted_eps = decimal(at_index(at_key(q, "eps"), index))?;
    let mut label = "FY".to_owned();
    label.append(year);
    label.append(" ");
    label.append(quarter);
    let mut sources: Vec<SourceLink> = Vec::new();
    sources.push(SourceLink {
        label: "Stock Analysis · reported quarterly results (S&P Global)".to_owned(),
        url: source_page_of(company),
    });
    let snapshot = ResearchSnapshot {
        company: company.clone(),
        period: EarningsPeriod { label, ended_on: ended_on.to_owned() },
        revenue,
        diluted_eps,
        currency: "USD".to_owned(),
        source_updated_at,
        retrieved_at: retrieved_at.to_owned(),
        sources,
    };
    proof {
        assert(link_views(snapshot.sources@) =~= seq![(source_link_label(), source_page(company.symbol@))]);
    }
    Ok(snapshot)
}

/// What normalizing a source response gives, as of `today`: the response
/// must parse, its page must expand, and the forecast it expands to must
/// report a valid snapshot. The expansion of a page is unique.
pub open spec fn normalized(
    symbol: Seq<char>,
    name: Seq<char>,
    bytes: Seq<u8>,
    retrieved: Seq<char>,
    today: (i32, u32, u32),
    r: Result<ResearchSnapshot, ResearchError>,
) -> bool {
    match json_document(bytes) {
        None => r == Err::<ResearchSnapshot, ResearchError>(ResearchError::MalformedSource),
        Some(p) => match page_table(p) {
            None => r == Err::<ResearchSnapshot, ResearchError>(ResearchError::MalformedSource),
            Some(t) => match expand_cost(t, 0, 0, page_budget()) {
                None => r == Err::<ResearchSnapshot, ResearchError>(ResearchError::MalformedSource),
                Some(_) => exists|f: Json| {
                    &&& #[trigger] denotes(t, 0, 0, f)
                    &&& match forecast_view(symbol, name, f, retrieved) {
                        None => r == Err::<ResearchSnapshot, ResearchError>(ResearchError::MalformedSource),
                        Some(v) => if snapshot_problem(v, today) {
                            r == Err::<ResearchSnapshot, ResearchError>(ResearchError::MalformedSource)
                        } else {
                            r matches Ok(s) && snapshot_view(s) == v
                        },
                    }
                },
            },
        },
    }
}

/// Normalizes a source response into a validated snapshot, as of `today`.
pub fn normalize_response_on(company: &Company, bytes: &[u8], retrieved_at: &str, today: (i32, u32, u32)) -> (r: Result<ResearchSnapshot, ResearchError>)
    ensures
        normalized(company.symbol@, company.name@, bytes@, retrieved_at@, today, r),
{
    let payload = match parse_json(bytes) {
        Some(p) => p,
        None => return Err(ResearchError::MalformedSource),
    };
    let forecast = decode_page(&payload)?;
    let snapshot = forecast_snapshot(company, &forecast, retrieved_at)?;
    snapshot.validate_on(today)?;
    Ok(snapshot)
}

/// Normalizes a source response into a validated snapshot, as of the
/// current date (UTC).
pub fn normalize_response(company: &Company, bytes: &[u8], retrieved_at: &str) -> (r: Result<ResearchSnapshot, ResearchError>)
    ensures
        exists|t: (i32, u32, u32)| normalized(company.symbol@, company.name@, bytes@, retrieved_at@, t, r),
{
    normalize_response_on(company, bytes, retrieved_at, today())
}

/// A response body may grow by `chunk` bytes only while it stays within 2 MB.
pub fn body_fits(received: usize, chunk: usize) -> (r: bool)
    ensures
        r == (received + chunk <= 2000000),
{
    chunk <= 2000000 && received <= 2000000 - chunk
}

/// The error of a failed request: a timeout, or the source being unavailable.
pub fn transport_error(timed_out: bool) -> (r: ResearchError)
    ensures
        r == if timed_out { ResearchError::Timeout } else { ResearchError::SourceUnavailable },
{
    if timed_out {
        ResearchError::Timeout
    } else {
        ResearchError::SourceUnavailable
    }
}

/// The error of an HTTP status other than success (2xx).
pub fn status_error(status: u16) -> (r: Option<ResearchError>)
    ensures
        r == if 200 <= status <= 299 { None } else { Some(ResearchError::SourceHttp { status }) },
{
    if 200 <= status && status <= 299 {
        None
    } else {
        Some(ResearchError::SourceHttp { status })
    }
}

} // verus!
