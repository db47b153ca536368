//! The review page: how a saved review's positions are sectioned, and how its
//! percentages, changes and symbol lists read.
use crate::decimal::{decimal_fixed_text, decimal_signed_text, fixed_text, signed_text, Dec};
use crate::review::domain::{CoverageStatus, ReviewHistoryEntry, ReviewPosition};
use crate::sorted::string_views;
use vstd::prelude::*;

verus! {

/// The sections a saved review's positions are shown in.
#[derive(Debug, Clone, Copy, PartialEq, Eq, Structural)]
pub enum ReviewSection {
    /// Holdings with saved research.
    WithResearch,
    /// Supported holdings without captured research (none saved, or the
    /// research store could not be read).
    WithoutResearch,
    /// Unmatched equities, outside supported coverage.
    Unmatched,
    /// Unsupported instruments, excluded from coverage.
    Unsupported,
}

pub open spec fn section_of(c: CoverageStatus) -> ReviewSection {
    match c {
        CoverageStatus::Available => ReviewSection::WithResearch,
        CoverageStatus::Missing => ReviewSection::WithoutResearch,
        CoverageStatus::RepositoryFailure => ReviewSection::WithoutResearch,
        CoverageStatus::Unmatched => ReviewSection::Unmatched,
        CoverageStatus::Unsupported => ReviewSection::Unsupported,
    }
}

/// The positions of one section, by index, in the review's order.
pub fn positions_in(positions: &Vec<ReviewPosition>, section: ReviewSection) -> (r: Vec<usize>)
    ensures
        forall|i: int| 0 <= i < r@.len() ==> (#[trigger] r@[i]) < positions@.len(),
        forall|i: int, j: int| 0 <= i < j < r@.len() ==> r@[i] < r@[j],
        forall|k: int| 0 <= k < positions@.len() ==> (section_of(#[trigger] positions@[k].coverage) == section
            <==> r@.contains(k as usize)),
{
    let mut r: Vec<usize> = Vec::new();
    let mut k: usize = 0;
    while k < positions.len()
        invariant
            k <= positions@.len(),
            forall|i: int| 0 <= i < r@.len() ==> (#[trigger] r@[i]) < k,
            forall|i: int, j: int| 0 <= i < j < r@.len() ==> r@[i] < r@[j],
            forall|m: int| 0 <= m < k ==> (section_of(#[trigger] positions@[m].coverage) == section
                <==> r@.contains(m as usize)),
        decreases positions@.len() - k,
    {
        let here = match positions[k].coverage {
            CoverageStatus::Available => ReviewSection::WithResearch,
            CoverageStatus::Missing | CoverageStatus::RepositoryFailure => ReviewSection::WithoutResearch,
            CoverageStatus::Unmatched => ReviewSection::Unmatched,
            CoverageStatus::Unsupported => ReviewSection::Unsupported,
        };
        let ghost before = r@;
        if here == section {
            r.push(k);
        }
        proof {
            assert forall|m: int| 0 <= m <= k implies (section_of(#[trigger] positions@[m].coverage) == section
                <==> r@.contains(m as usize)) by {
                if m < k {
                    if r@.contains(m as usize) && !before.contains(m as usize) {
                        assert(r@[r@.len() - 1] == k);
                    }
                    if before.contains(m as usize) {
                        let j = choose|j: int| 0 <= j < before.len() && before[j] == m as usize;
                        assert(r@[j] == m as usize);
                    }
                } else if here == section {
                    assert(r@[r@.len() - 1] == k);
                } else {
                    if r@.contains(k) {
                        let j = choose|j: int| 0 <= j < r@.len() && r@[j] == k;
                        assert(r@[j] < k);
                    }
                }
            }
        }
        k = k + 1;
    }
    r
}

/// A percentage with two fraction digits, or why there is none.
pub fn percent_text(value: Option<Dec>) -> (r: String)
    requires
        value matches Some(v) ==> v.wf(),
    ensures
        r@ == match value {
            Some(v) => decimal_fixed_text(v, 2) + "%"@,
            None => "N/A (no positive denominator)"@,
        },
{
    match value {
        Some(v) => {
            let mut text = fixed_text(&v, 2);
            text.append("%");
            text
        },
        None => "N/A (no positive denominator)".to_owned(),
    }
}

/// A change in percentage points, always signed.
pub fn points_text(value: Option<Dec>) -> (r: String)
    requires
        value matches Some(v) ==> v.wf(),
    ensures
        r@ == match value {
            Some(v) => decimal_signed_text(v, 2) + " percentage points"@,
            None => "N/A"@,
        },
{
    match value {
        Some(v) => {
            let mut text = signed_text(&v, 2);
            text.append(" percentage points");
            text
        },
        None => "N/A".to_owned(),
    }
}

pub open spec fn joined(items: Seq<Seq<char>>) -> Seq<char>
    decreases items.len(),
{
    if items.len() == 0 {
        Seq::empty()
    } else if items.len() == 1 {
        items[0]
    } else {
        joined(items.drop_last()) + ", "@ + items.last()
    }
}

/// Symbols separated by commas, or `None` for an empty list.
pub fn symbols_text(symbols: &Vec<String>) -> (r: String)
    ensures
        r@ == if symbols@.len() == 0 {
            "None"@
        } else {
            joined(string_views(symbols@))
        },
{
    if symbols.len() == 0 {
        return "None".to_owned();
    }
    let mut text = symbols[0].clone();
    let mut k: usize = 1;
    while k < symbols.len()
        invariant
            1 <= k <= symbols@.len(),
            text@ == joined(string_views(symbols@.subrange(0, k as int))),
        decreases symbols@.len() - k,
    {
        proof {
            let next = string_views(symbols@.subrange(0, k + 1));
            assert(next.drop_last() =~= string_views(symbols@.subrange(0, k as int)));
        }
        text.append(", ");
        text.append(symbols[k].as_str());
        k = k + 1;
    }
    proof {
        assert(symbols@.subrange(0, k as int) =~= symbols@);
    }
    text
}

/// When the newest saved review was created, or `None yet`.
pub fn latest_created(history: &Vec<ReviewHistoryEntry>) -> (r: String)
    ensures
        r@ == if history@.len() == 0 {
            "None yet"@
        } else {
            history@[0].created_at@
        },
{
    if history.len() == 0 {
        "None yet".to_owned()
    } else {
        history[0].created_at.clone()
    }
}

} // verus!
