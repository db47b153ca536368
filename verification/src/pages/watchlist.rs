//! The watchlist page: the configured list and each briefing entry's title.
use crate::pages::review::{joined, symbols_text};
use crate::sorted::string_views;
use crate::watchlist::domain::{BriefingEntry, WatchlistConfiguration};
use vstd::prelude::*;

verus! {

/// The configured server watchlist, or `None` when none is configured.
pub fn configured_symbols(configuration: &WatchlistConfiguration) -> (r: String)
    ensures
        r@ == match configuration.input {
            Some(w) => if w@.len() == 0 { "None"@ } else { joined(w@) },
            None => "None"@,
        },
{
    match &configuration.input {
        Some(w) => {
            let values = w.to_values();
            proof {
                assert(string_views(values@) == w@);
            }
            symbols_text(&values)
        },
        None => "None".to_owned(),
    }
}

/// An entry's title: its symbol and company, or a note that the symbol is
/// not in the research registry.
pub fn entry_title(entry: &BriefingEntry) -> (r: String)
    ensures
        r@ == entry.symbol@ + " · "@ + match entry.company_name {
            Some(n) => n@,
            None => "Company not in research registry"@,
        },
{
    let mut text = entry.symbol.to_string();
    text.append(" · ");
    match &entry.company_name {
        Some(n) => text.append(n.as_str()),
        None => text.append("Company not in research registry"),
    }
    text
}

} // verus!
