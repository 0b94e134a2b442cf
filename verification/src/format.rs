//! The text that is shown for the ranked tickers.

use vstd::prelude::*;
use vstd::string::*;
use crate::market::{names, Ticker};

verus! {

/// The marker of the market type, which follows every symbol: `.P`.
pub open spec fn market_suffix() -> Seq<char> {
    seq!['.', 'P']
}

/// What stands between two symbols of the line: a comma and a space.
pub open spec fn separator() -> Seq<char> {
    seq![',', ' ']
}

/// The text shown for one ticker: its symbol, then the market suffix.
pub open spec fn display_name(ticker: Ticker) -> Seq<char> {
    ticker.symbol@ + market_suffix()
}

/// The texts shown for a sequence of tickers, in its order.
pub open spec fn display_names(tickers: Seq<Ticker>) -> Seq<Seq<char>> {
    tickers.map_values(|ticker: Ticker| display_name(ticker))
}

/// The parts in their order, with a separator between each two neighbours.
/// No parts give the empty text.
pub open spec fn joined(parts: Seq<Seq<char>>) -> Seq<char>
    decreases parts.len(),
{
    if parts.len() == 0 {
        Seq::empty()
    } else if parts.len() == 1 {
        parts[0]
    } else {
        joined(parts.drop_last()) + separator() + parts.last()
    }
}

/// Gives each ticker its display name: the symbol followed by `.P`.
///
/// The result has one name for each ticker, in the order of the tickers.
pub fn get_symbols(filtered_tickers: Vec<Ticker>) -> (symbols: Vec<String>)
    ensures
        names(symbols@) == display_names(filtered_tickers@),
{
    let ghost all = filtered_tickers@;
    let mut symbols: Vec<String> = Vec::new();
    for ticker in it: filtered_tickers
        invariant
            it.seq() == all,
            names(symbols@) == display_names(all.take(it.index() as int)),
    {
        let ghost listed = names(symbols@);
        let name = ticker.symbol.concat(".P");
        proof {
            reveal_strlit(".P");
            assert(name@ == display_name(ticker));
        }
        symbols.push(name);
        proof {
            let at = it.index() as int;
            assert(display_names(all.take(at + 1)) =~= listed.push(display_name(ticker)));
        }
    }
    symbols
}

/// Joins the display names into one line, separated by `", "`.
///
/// Without names the line is empty.
pub fn join_symbols(symbols: &Vec<String>) -> (line: String)
    ensures
        line@ == joined(names(symbols@)),
{
    let ghost parts = names(symbols@);
    let mut line = String::new();
    for i in 0..symbols.len()
        invariant
            parts == names(symbols@),
            line@ == joined(parts.take(i as int)),
    {
        proof {
            reveal_strlit(", ");
            assert(parts.take(i + 1).drop_last() =~= parts.take(i as int));
        }
        if i > 0 {
            line.append(", ");
        }
        line.append(symbols[i].as_str());
    }
    assert(parts.take(parts.len() as int) =~= parts);
    line
}

} // verus!
