//! The ranking of tickers by descending quote volume.
//!
//! Tickers of equal volume keep the order in which they came. A NaN is no
//! number and cannot be compared; the ranking puts every NaN behind all
//! numbers, and treats the NaNs as tied with each other.

use vstd::prelude::*;
use vstd::seq_lib::to_multiset_insert;
use crate::market::Ticker;
use crate::volume::{lemma_rank_key_orders, Volume};

verus! {

/// Whether the volume of the ticker ranks at or above `volume`.
pub open spec fn reaches(ticker: Ticker, volume: Volume) -> bool {
    ticker.quote_volume.spec_ranks_at_or_above(&volume)
}

/// Whether every ticker ranks at or above all tickers behind it.
pub open spec fn descending(tickers: Seq<Ticker>) -> bool {
    forall|i: int, j: int|
        0 <= i < j < tickers.len() ==> reaches(
            #[trigger] tickers[i],
            (#[trigger] tickers[j]).quote_volume,
        )
}

/// Whether two volumes rank alike: they encode the same number, or both are
/// NaNs.
pub open spec fn tied(a: Volume, b: Volume) -> bool {
    a.spec_ranks_at_or_above(&b) && b.spec_ranks_at_or_above(&a)
}

/// The tickers whose volume is tied with `volume`, in the order of the
/// sequence.
pub open spec fn tied_with(tickers: Seq<Ticker>, volume: Volume) -> Seq<Ticker> {
    tickers.filter(|ticker: Ticker| tied(ticker.quote_volume, volume))
}

/// Whether `ranking` is the stable ranking of `tickers`: it is descending, it
/// holds the same tickers, each as often, and tickers of tied volume stand
/// in the order that they have in `tickers`.
pub open spec fn is_ranking_of(ranking: Seq<Ticker>, tickers: Seq<Ticker>) -> bool {
    &&& descending(ranking)
    &&& ranking.to_multiset() == tickers.to_multiset()
    &&& forall|volume: Volume| #[trigger] tied_with(ranking, volume) == tied_with(tickers, volume)
}

/// The place at which a ticker of the given volume enters a descending
/// sequence: directly behind the last ticker that ranks at or above it.
pub open spec fn slot(ranking: Seq<Ticker>, volume: Volume) -> int
    decreases ranking.len(),
{
    if ranking.len() == 0 {
        0
    } else if reaches(ranking.last(), volume) {
        ranking.len() as int
    } else {
        slot(ranking.drop_last(), volume)
    }
}

/// The ranking of a sequence of tickers, built by letting them enter one
/// after the other, each at its slot.
pub open spec fn ranked(tickers: Seq<Ticker>) -> Seq<Ticker>
    decreases tickers.len(),
{
    if tickers.len() == 0 {
        tickers
    } else {
        let before = ranked(tickers.drop_last());
        before.insert(slot(before, tickers.last().quote_volume), tickers.last())
    }
}

/// Orders the tickers by descending quote volume.
///
/// The result is the stable ranking of the input: the same tickers, the
/// larger volume first, ties in the order of the input, NaNs last. Each
/// ticker is inserted into the part ranked so far, so the time is quadratic
/// in the number of tickers.
pub fn sort_tickers(tickers: Vec<Ticker>) -> (sorted: Vec<Ticker>)
    ensures
        sorted@ == ranked(tickers@),
        is_ranking_of(sorted@, tickers@),
{
    let ghost all = tickers@;
    let mut sorted: Vec<Ticker> = Vec::new();
    for ticker in it: tickers
        invariant
            it.seq() == all,
            sorted@ == ranked(all.take(it.index() as int)),
    {
        let ghost volume = ticker.quote_volume;
        let key = ticker.quote_volume.rank_key();
        let mut at: usize = sorted.len();
        assert(sorted@.take(at as int) =~= sorted@);
        while at > 0 && sorted[at - 1].quote_volume.rank_key() < key
            invariant
                at <= sorted.len(),
                key == volume.spec_rank_key(),
                slot(sorted@, volume) == slot(sorted@.take(at as int), volume),
            decreases at,
        {
            proof {
                lemma_rank_key_orders(sorted@[at - 1].quote_volume, volume);
                assert(sorted@.take(at as int).drop_last() =~= sorted@.take(at - 1));
            }
            at -= 1;
        }
        proof {
            if at > 0 {
                lemma_rank_key_orders(sorted@[at - 1].quote_volume, volume);
            }
            let seen = it.index() as int;
            assert(all.take(seen + 1).drop_last() =~= all.take(seen));
        }
        sorted.insert(at, ticker);
    }
    proof {
        assert(all.take(all.len() as int) =~= all);
        lemma_ranked_is_ranking(all);
    }
    sorted
}

/// Ranking at or above is transitive, and of two volumes one ranks at or
/// above the other.
pub proof fn lemma_rank_order_is_total(a: Volume, b: Volume, c: Volume)
    ensures
        a.spec_ranks_at_or_above(&b) || b.spec_ranks_at_or_above(&a),
        a.spec_ranks_at_or_above(&b) && b.spec_ranks_at_or_above(&c) ==> a.spec_ranks_at_or_above(
            &c,
        ),
        a.spec_ranks_at_or_above(&a),
{
    lemma_rank_key_orders(a, b);
    lemma_rank_key_orders(b, a);
    lemma_rank_key_orders(b, c);
    lemma_rank_key_orders(a, c);
    lemma_rank_key_orders(a, a);
}

/// In a descending sequence the slot of a volume parts the tickers that rank
/// at or above it from those that rank below it.
pub proof fn lemma_slot_parts(ranking: Seq<Ticker>, volume: Volume)
    requires
        descending(ranking),
    ensures
        0 <= slot(ranking, volume) <= ranking.len(),
        forall|i: int| 0 <= i < slot(ranking, volume) ==> reaches(#[trigger] ranking[i], volume),
        forall|i: int|
            slot(ranking, volume) <= i < ranking.len() ==> !reaches(#[trigger] ranking[i], volume),
    decreases ranking.len(),
{
    if ranking.len() == 0 {
    } else if reaches(ranking.last(), volume) {
        let last = ranking.last().quote_volume;
        assert forall|i: int| 0 <= i < ranking.len() implies reaches(
            #[trigger] ranking[i],
            volume,
        ) by {
            lemma_rank_order_is_total(ranking[i].quote_volume, last, volume);
        }
    } else {
        let front = ranking.drop_last();
        lemma_front_is_descending(ranking);
        lemma_slot_parts(front, volume);
        assert forall|i: int| slot(ranking, volume) <= i < ranking.len() implies !reaches(
            #[trigger] ranking[i],
            volume,
        ) by {
            if i < front.len() {
                assert(front[i] == ranking[i]);
            }
        }
        assert forall|i: int| 0 <= i < slot(ranking, volume) implies reaches(
            #[trigger] ranking[i],
            volume,
        ) by {
            assert(front[i] == ranking[i]);
        }
    }
}

/// What is left of a descending sequence without its last ticker is
/// descending.
pub proof fn lemma_front_is_descending(ranking: Seq<Ticker>)
    requires
        descending(ranking),
        ranking.len() > 0,
    ensures
        descending(ranking.drop_last()),
{
    let front = ranking.drop_last();
    assert forall|i: int, j: int| 0 <= i < j < front.len() implies reaches(
        #[trigger] front[i],
        (#[trigger] front[j]).quote_volume,
    ) by {
        assert(front[i] == ranking[i] && front[j] == ranking[j]);
    }
}

/// A ticker that enters a descending sequence at its slot leaves the
/// sequence descending.
pub proof fn lemma_entry_keeps_descending(ranking: Seq<Ticker>, ticker: Ticker)
    requires
        descending(ranking),
    ensures
        descending(ranking.insert(slot(ranking, ticker.quote_volume), ticker)),
{
    let at = slot(ranking, ticker.quote_volume);
    let after = ranking.insert(at, ticker);
    lemma_slot_parts(ranking, ticker.quote_volume);
    assert forall|i: int, j: int| 0 <= i < j < after.len() implies reaches(
        #[trigger] after[i],
        (#[trigger] after[j]).quote_volume,
    ) by {
        let a = if i < at { ranking[i] } else if i == at { ticker } else { ranking[i - 1] };
        let b = if j < at { ranking[j] } else if j == at { ticker } else { ranking[j - 1] };
        assert(after[i] == a && after[j] == b);
        lemma_rank_order_is_total(a.quote_volume, b.quote_volume, ticker.quote_volume);
        lemma_rank_order_is_total(b.quote_volume, a.quote_volume, ticker.quote_volume);
    }
}

/// A ticker that enters a descending sequence at its slot stands behind all
/// tickers that it is tied with, and changes the order of no others.
pub proof fn lemma_entry_keeps_ties(ranking: Seq<Ticker>, ticker: Ticker, volume: Volume)
    requires
        descending(ranking),
    ensures
        tied_with(ranking.insert(slot(ranking, ticker.quote_volume), ticker), volume) == if tied(
            ticker.quote_volume,
            volume,
        ) {
            tied_with(ranking, volume).push(ticker)
        } else {
            tied_with(ranking, volume)
        },
{
    let at = slot(ranking, ticker.quote_volume);
    let pred = |other: Ticker| tied(other.quote_volume, volume);
    let front = ranking.subrange(0, at);
    let back = ranking.subrange(at, ranking.len() as int);
    lemma_slot_parts(ranking, ticker.quote_volume);
    assert(ranking =~= front + back);
    Seq::filter_distributes_over_add(front, back, pred);
    Seq::filter_distributes_over_add(front.push(ticker), back, pred);
    front.lemma_filter_push(ticker, pred);
    if tied(ticker.quote_volume, volume) {
        assert(back.all(|other: Ticker| !pred(other))) by {
            assert forall|i: int| 0 <= i < back.len() implies !pred(#[trigger] back[i]) by {
                lemma_rank_order_is_total(back[i].quote_volume, volume, ticker.quote_volume);
            }
        }
        back.lemma_all_neg_filter_empty(pred);
    }
}

/// `ranked` gives the stable ranking of its argument.
pub proof fn lemma_ranked_is_ranking(tickers: Seq<Ticker>)
    ensures
        is_ranking_of(ranked(tickers), tickers),
    decreases tickers.len(),
{
    if tickers.len() > 0 {
        let rest = tickers.drop_last();
        let last = tickers.last();
        let before = ranked(rest);
        let at = slot(before, last.quote_volume);
        lemma_ranked_is_ranking(rest);
        lemma_slot_parts(before, last.quote_volume);
        lemma_entry_keeps_descending(before, last);
        assert(tickers =~= rest.push(last));
        to_multiset_insert(before, at, last);
        rest.to_multiset_ensures();
        assert forall|volume: Volume| #[trigger]
            tied_with(ranked(tickers), volume) == tied_with(tickers, volume) by {
            lemma_entry_keeps_ties(before, last, volume);
            rest.lemma_filter_push(last, |other: Ticker| tied(other.quote_volume, volume));
        }
    }
}

} // verus!
