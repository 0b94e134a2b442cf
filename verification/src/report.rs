//! From a snapshot to the line that is printed: select, rank, name, join.

use vstd::prelude::*;
use crate::filter::{filter_tickers, selection};
use crate::format::{display_names, get_symbols, join_symbols, joined};
use crate::market::{symbol_set, Ticker};
use crate::rank::{ranked, sort_tickers};
use crate::volume::Volume;

verus! {

/// The tickers that are kept, in the order of their ranking.
pub open spec fn ranked_selection(
    tickers: Seq<Ticker>,
    tradable: Set<Seq<char>>,
    min: Volume,
) -> Seq<Ticker> {
    ranked(selection(tickers, tradable, min))
}

/// The line for a snapshot: the display names of the ranked selection,
/// joined by the separator.
pub open spec fn report(tickers: Seq<Ticker>, tradable: Set<Seq<char>>, min: Volume) -> Seq<char> {
    joined(display_names(ranked_selection(tickers, tradable, min)))
}

/// Selects the tradable tickers with at least the minimum quote volume,
/// ranks them by descending volume and writes their display names on one
/// line. The line ends without a line break.
pub fn report_line(
    tickers: Vec<Ticker>,
    trading_symbols: Vec<String>,
    min_quote_volume: Volume,
) -> (line: String)
    ensures
        line@ == report(tickers@, symbol_set(trading_symbols@), min_quote_volume),
{
    let kept = filter_tickers(tickers, trading_symbols, min_quote_volume);
    let sorted = sort_tickers(kept);
    let symbols = get_symbols(sorted);
    join_symbols(&symbols)
}

} // verus!
