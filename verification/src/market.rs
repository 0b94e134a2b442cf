//! The records that the exchange reports, as the selection reads them.

use vstd::prelude::*;
use crate::volume::Volume;

verus! {

/// One instrument of the exchange's metadata: its symbol and its status.
#[derive(Clone, Debug)]
pub struct SymbolInfo {
    pub symbol: String,
    pub status: String,
}

/// The exchange's metadata: one entry for each instrument it lists.
#[derive(Clone, Debug)]
pub struct ExchangeInfo {
    pub symbols: Vec<SymbolInfo>,
}

/// One entry of the 24-hour ticker snapshot.
#[derive(Clone, Debug)]
pub struct Ticker {
    pub symbol: String,
    pub quote_volume: Volume,
}

/// The characters of each string of a sequence.
pub open spec fn names(strings: Seq<String>) -> Seq<Seq<char>> {
    strings.map_values(|s: String| s@)
}

/// The set of the symbols that a sequence of strings lists.
pub open spec fn symbol_set(symbols: Seq<String>) -> Set<Seq<char>> {
    names(symbols).to_set()
}

/// The status under which the exchange lists an instrument that can be
/// traded.
pub open spec fn trading_status() -> Seq<char> {
    seq!['T', 'R', 'A', 'D', 'I', 'N', 'G']
}

impl SymbolInfo {
    /// Whether the status is exactly `TRADING`.
    pub open spec fn is_trading(self) -> bool {
        self.status@ == trading_status()
    }
}

/// The symbols of the entries whose status is `TRADING`, in the order of the
/// metadata, one for each entry.
pub open spec fn tradable_names(infos: Seq<SymbolInfo>) -> Seq<Seq<char>> {
    infos.filter(|info: SymbolInfo| info.is_trading()).map_values(|info: SymbolInfo| info.symbol@)
}

/// The texts of a sequence without repeats: each stands where it occurs
/// first.
pub open spec fn distinct(texts: Seq<Seq<char>>) -> Seq<Seq<char>>
    decreases texts.len(),
{
    if texts.len() == 0 {
        texts
    } else {
        let front = distinct(texts.drop_last());
        if front.contains(texts.last()) {
            front
        } else {
            front.push(texts.last())
        }
    }
}

/// `distinct` holds every text of its argument, no other, and none twice.
pub proof fn lemma_distinct(texts: Seq<Seq<char>>)
    ensures
        distinct(texts).no_duplicates(),
        distinct(texts).to_set() == texts.to_set(),
    decreases texts.len(),
{
    if texts.len() > 0 {
        let rest = texts.drop_last();
        let last = texts.last();
        let front = distinct(rest);
        lemma_distinct(rest);
        assert(texts =~= rest.push(last));
        assert forall|text: Seq<char>| distinct(texts).contains(text) <==> texts.contains(
            text,
        ) by {
            assert(front.to_set().contains(text) <==> rest.to_set().contains(text));
            if text == last {
                assert(texts[texts.len() - 1] == text);
                if !front.contains(last) {
                    assert(front.push(last)[front.len() as int] == last);
                }
            }
            if rest.contains(text) {
                let i = choose|i: int| 0 <= i < rest.len() && rest[i] == text;
                assert(texts[i] == text);
            }
            if front.contains(text) {
                let i = choose|i: int| 0 <= i < front.len() && front[i] == text;
                assert(distinct(texts)[i] == text);
            }
        }
        assert(distinct(texts).to_set() =~= texts.to_set());
    } else {
        assert(distinct(texts).to_set() =~= texts.to_set());
    }
}

} // verus!
