//! The selection of tickers: tradable, and with enough quote volume.

use vstd::prelude::*;
use crate::market::{symbol_set, Ticker};
use crate::tradable::is_listed;
use crate::volume::Volume;

verus! {

/// Whether a ticker is kept: its symbol is in the tradable set, and its
/// quote volume is at least the minimum. A NaN on either side of the
/// comparison keeps nothing.
pub open spec fn retained(ticker: Ticker, tradable: Set<Seq<char>>, min: Volume) -> bool {
    &&& tradable.contains(ticker.symbol@)
    &&& ticker.quote_volume.spec_at_least(&min)
}

/// The tickers that are kept, in the order of the snapshot.
pub open spec fn selection(tickers: Seq<Ticker>, tradable: Set<Seq<char>>, min: Volume) -> Seq<
    Ticker,
> {
    tickers.filter(|ticker: Ticker| retained(ticker, tradable, min))
}

/// Keeps the tickers whose symbol is a trading symbol and whose quote volume
/// is at least `min_quote_volume`.
///
/// The result holds exactly those tickers, each as often as the snapshot
/// does, and in the order of the snapshot.
pub fn filter_tickers(
    tickers: Vec<Ticker>,
    trading_symbols: Vec<String>,
    min_quote_volume: Volume,
) -> (kept: Vec<Ticker>)
    ensures
        kept@ == selection(tickers@, symbol_set(trading_symbols@), min_quote_volume),
        forall|ticker: Ticker|
            kept@.contains(ticker) <==> tickers@.contains(ticker) && retained(
                ticker,
                symbol_set(trading_symbols@),
                min_quote_volume,
            ),
{
    let ghost all = tickers@;
    let ghost tradable = symbol_set(trading_symbols@);
    let ghost pred = |ticker: Ticker| retained(ticker, tradable, min_quote_volume);
    let mut kept: Vec<Ticker> = Vec::new();
    proof {
        reveal(Seq::filter);
    }
    for ticker in it: tickers
        invariant
            it.seq() == all,
            tradable == symbol_set(trading_symbols@),
            pred == |ticker: Ticker| retained(ticker, tradable, min_quote_volume),
            kept@ == all.take(it.index() as int).filter(pred),
    {
        proof {
            let at = it.index() as int;
            assert(all.take(at + 1) =~= all.take(at).push(ticker));
            all.take(at).lemma_filter_push(ticker, pred);
        }
        if is_listed(&trading_symbols, &ticker.symbol) && ticker.quote_volume.at_least(
            &min_quote_volume,
        ) {
            kept.push(ticker);
        }
    }
    proof {
        assert(all.take(all.len() as int) =~= all);
        lemma_selection_members(all, tradable, min_quote_volume);
    }
    kept
}

/// A ticker is in the selection exactly when it is in the snapshot and is
/// retained.
pub proof fn lemma_selection_members(tickers: Seq<Ticker>, tradable: Set<Seq<char>>, min: Volume)
    ensures
        forall|ticker: Ticker|
            selection(tickers, tradable, min).contains(ticker) <==> tickers.contains(ticker)
                && retained(ticker, tradable, min),
{
    let pred = |ticker: Ticker| retained(ticker, tradable, min);
    let kept = tickers.filter(pred);
    assert forall|ticker: Ticker| kept.contains(ticker) implies tickers.contains(ticker)
        && retained(ticker, tradable, min) by {
        tickers.lemma_filter_contains_rev(pred, ticker);
        let i = choose|i: int| 0 <= i < kept.len() && kept[i] == ticker;
        tickers.lemma_filter_pred(pred, i);
    }
    assert forall|ticker: Ticker|
        tickers.contains(ticker) && retained(ticker, tradable, min) implies kept.contains(
        ticker,
    ) by {
        let i = choose|i: int| 0 <= i < tickers.len() && tickers[i] == ticker;
        tickers.lemma_filter_contains(pred, i);
    }
}

} // verus!
