//! The portfolio page: its load notice and money amounts.
use crate::decimal::{decimal_fixed_text, fixed_text, Dec};
use crate::portfolio::LoadStatus;
use vstd::prelude::*;

verus! {

pub open spec fn load_notice_text(status: LoadStatus, has_portfolio: bool) -> Seq<char> {
    match status {
        LoadStatus::NotLoaded => "Not loaded"@,
        LoadStatus::Loading => "Loading local data… Previous holdings may be shown."@,
        LoadStatus::Loaded => "Local data loaded successfully"@,
        LoadStatus::Failed => if has_portfolio {
            "Reload failed — showing the last successful snapshot (stale)"@
        } else {
            "Portfolio unavailable — local data could not be loaded"@
        },
    }
}

/// The notice above the holdings: a failed reload that kept the last good
/// snapshot says that it is stale.
pub fn load_notice(status: LoadStatus, has_portfolio: bool) -> (r: &'static str)
    ensures
        r@ == load_notice_text(status, has_portfolio),
{
    match status {
        LoadStatus::NotLoaded => "Not loaded",
        LoadStatus::Loading => "Loading local data… Previous holdings may be shown.",
        LoadStatus::Loaded => "Local data loaded successfully",
        LoadStatus::Failed => if has_portfolio {
            "Reload failed — showing the last successful snapshot (stale)"
        } else {
            "Portfolio unavailable — local data could not be loaded"
        },
    }
}

/// A dollar amount with two fraction digits, or a dash when not supplied.
pub fn money_text(value: Option<Dec>) -> (r: String)
    requires
        value matches Some(v) ==> v.wf(),
    ensures
        r@ == match value {
            Some(v) => "$"@ + decimal_fixed_text(v, 2),
            None => "—"@,
        },
{
    match value {
        Some(v) => {
            let mut text = "$".to_owned();
            let digits = fixed_text(&v, 2);
            text.append(digits.as_str());
            text
        },
        None => "—".to_owned(),
    }
}

} // verus!
