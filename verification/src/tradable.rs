//! The set of instruments that can currently be traded.

use vstd::prelude::*;
use vstd::string::*;
use crate::market::{
    distinct, lemma_distinct, names, symbol_set, tradable_names, trading_status, ExchangeInfo,
    SymbolInfo,
};

verus! {

/// Whether `symbol` is one of `symbols`, compared character by character.
pub fn is_listed(symbols: &Vec<String>, symbol: &String) -> (listed: bool)
    ensures
        listed == symbol_set(symbols@).contains(symbol@),
{
    for i in 0..symbols.len()
        invariant
            forall|j: int| 0 <= j < i ==> names(symbols@)[j] != symbol@,
    {
        if symbols[i] == *symbol {
            assert(names(symbols@)[i as int] == symbol@);
            return true;
        }
    }
    false
}

/// Collects the set of the symbols whose status is `TRADING`.
///
/// The result holds each such symbol once, however often the metadata list
/// it, at the place of its first entry, and holds no other symbol.
pub fn trading_symbols(info: &ExchangeInfo) -> (symbols: Vec<String>)
    ensures
        names(symbols@) == distinct(tradable_names(info.symbols@)),
        names(symbols@).no_duplicates(),
        symbol_set(symbols@) == tradable_names(info.symbols@).to_set(),
{
    let trading = String::from_str("TRADING");
    let mut symbols: Vec<String> = Vec::new();
    let ghost pred = |entry: SymbolInfo| entry.is_trading();
    let ghost name = |entry: SymbolInfo| entry.symbol@;
    proof {
        reveal_strlit("TRADING");
        reveal(Seq::filter);
    }
    for i in 0..info.symbols.len()
        invariant
            trading@ == trading_status(),
            pred == |entry: SymbolInfo| entry.is_trading(),
            name == |entry: SymbolInfo| entry.symbol@,
            names(symbols@) == distinct(
                info.symbols@.take(i as int).filter(pred).map_values(name),
            ),
    {
        let entry = &info.symbols[i];
        let ghost before = info.symbols@.take(i as int);
        let ghost seen = before.filter(pred).map_values(name);
        proof {
            assert(info.symbols@.take(i + 1) =~= before.push(*entry));
            before.lemma_filter_push(*entry, pred);
        }
        if entry.status == trading {
            proof {
                let next = before.filter(pred).push(*entry).map_values(name);
                assert(next =~= seen.push(entry.symbol@));
                assert(next.drop_last() =~= seen);
            }
            if !is_listed(&symbols, &entry.symbol) {
                let ghost listed = names(symbols@);
                symbols.push(entry.symbol.clone());
                assert(names(symbols@) =~= listed.push(entry.symbol@));
            }
        }
    }
    proof {
        assert(info.symbols@.take(info.symbols@.len() as int) =~= info.symbols@);
        lemma_distinct(tradable_names(info.symbols@));
    }
    symbols
}

} // verus!
