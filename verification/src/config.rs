//! Process configuration read from the environment.
use crate::text::{strictly_sorted, trim};
use crate::watchlist::domain::{normalized_pieces, pieces_acceptable, WatchlistError, WatchlistInput};
use vstd::prelude::*;

verus! {

/// An environment variable as the process found it.
#[derive(Debug)]
pub enum EnvValue {
    Present(String),
    Absent,
    NotUnicode,
}

/// The watchlist configured by `WATCHLIST_SYMBOLS`: the parsed value, the
/// empty watchlist when unset, and an invalid configuration when the value is
/// not Unicode.
pub fn watchlist_setting(value: &EnvValue) -> (r: Result<WatchlistInput, WatchlistError>)
    ensures
        match value {
            EnvValue::Absent => r matches Ok(w) && w@.len() == 0,
            EnvValue::NotUnicode => r == Err::<WatchlistInput, WatchlistError>(WatchlistError::InvalidConfiguration),
            EnvValue::Present(s) => {
                &&& trim(s@).len() == 0 ==> (r matches Ok(w) && w@.len() == 0)
                &&& trim(s@).len() > 0 ==> match r {
                    Ok(w) => pieces_acceptable(s@) && strictly_sorted(w@)
                        && w@.to_set() == normalized_pieces(s@).to_set(),
                    Err(e) => !pieces_acceptable(s@) && e == WatchlistError::InvalidConfiguration,
                }
            },
        },
{
    match value {
        EnvValue::Present(s) => WatchlistInput::parse(s.as_str()),
        EnvValue::Absent => {
            proof {
                reveal_strlit("");
            }
            WatchlistInput::parse("")
        },
        EnvValue::NotUnicode => Err(WatchlistError::InvalidConfiguration),
    }
}

} // verus!
