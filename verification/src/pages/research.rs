//! The research page: status lines, refresh feedback, and what a card keeps
//! showing after a refresh.
use crate::portfolio::LoadStatus;
use crate::research::domain::{HoldingResearch, HoldingsResearch, RefreshOutcome, RefreshResponse, ResearchSnapshot, ResearchStatus, CompanyView};
use vstd::prelude::*;

verus! {

pub open spec fn status_line_text(s: ResearchStatus) -> Seq<char> {
    match s {
        ResearchStatus::Available => "Research available"@,
        ResearchStatus::NeverRefreshed => "Never refreshed — no saved research"@,
        ResearchStatus::Unmatched => "Unmatched — no company in the Stage 3 registry"@,
        ResearchStatus::Unsupported => "Unsupported instrument — no company lookup attempted"@,
        ResearchStatus::RepositoryFailure => "Research database unavailable — any displayed snapshot may be stale"@,
    }
}

/// The status line of a company card.
pub fn status_line(s: ResearchStatus) -> (r: &'static str)
    ensures
        r@ == status_line_text(s),
{
    match s {
        ResearchStatus::Available => "Research available",
        ResearchStatus::NeverRefreshed => "Never refreshed — no saved research",
        ResearchStatus::Unmatched => "Unmatched — no company in the Stage 3 registry",
        ResearchStatus::Unsupported => "Unsupported instrument — no company lookup attempted",
        ResearchStatus::RepositoryFailure => "Research database unavailable — any displayed snapshot may be stale",
    }
}

pub open spec fn refresh_feedback_text(o: RefreshOutcome) -> Seq<char> {
    match o {
        RefreshOutcome::Saved => "New earnings snapshot saved."@,
        RefreshOutcome::Unchanged => "Source checked. This earnings period is already saved; its original facts and retrieval date are unchanged."@,
        RefreshOutcome::Failed => "Refresh failed. Any saved research is shown below."@,
    }
}

/// What a card says after a refresh answered.
pub fn refresh_feedback(o: RefreshOutcome) -> (r: &'static str)
    ensures
        r@ == refresh_feedback_text(o),
{
    match o {
        RefreshOutcome::Saved => "New earnings snapshot saved.",
        RefreshOutcome::Unchanged => "Source checked. This earnings period is already saved; its original facts and retrieval date are unchanged.",
        RefreshOutcome::Failed => "Refresh failed. Any saved research is shown below.",
    }
}

/// The company a card shows after a refresh: the answer's view, except that
/// a snapshot already on display is kept when the answer carries none (a
/// failed read must not erase it).
pub fn after_refresh(response: RefreshResponse, displayed: Option<ResearchSnapshot>) -> (r: CompanyView)
    ensures
        r == (CompanyView {
            snapshot: if response.company.snapshot is None && displayed is Some {
                displayed
            } else {
                response.company.snapshot
            },
            ..response.company
        }),
{
    let company = response.company;
    if company.snapshot.is_none() && displayed.is_some() {
        CompanyView { snapshot: displayed, ..company }
    } else {
        company
    }
}

/// The research page warns that holdings come from a stale portfolio when
/// one is available but its last load did not succeed.
pub fn portfolio_stale(h: &HoldingsResearch) -> (r: bool)
    ensures
        r == (h.portfolio_available && h.portfolio_status != LoadStatus::Loaded),
{
    h.portfolio_available && h.portfolio_status != LoadStatus::Loaded
}

/// A card's title: the registry company's name, else the holding's description.
pub fn card_title(row: &HoldingResearch) -> (r: String)
    ensures
        r@ == match row.research.company {
            Some(c) => c.name@,
            None => row.holding.description@,
        },
{
    match &row.research.company {
        Some(c) => c.name.clone(),
        None => row.holding.description.clone(),
    }
}

} // verus!
