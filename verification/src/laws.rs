//! What holds of the selection, the ranking and the line for every snapshot.

use vstd::prelude::*;
use crate::filter::{lemma_selection_members, retained, selection};
use crate::format::{display_names, market_suffix};
use crate::market::Ticker;
use crate::rank::{
    descending, is_ranking_of, lemma_front_is_descending, lemma_rank_order_is_total,
    lemma_ranked_is_ranking, ranked, reaches, tied, tied_with,
};
use crate::report::{ranked_selection, report};
use crate::volume::Volume;

verus! {

/// A ranking holds exactly the tickers of the sequence that it ranks, and
/// has its length.
pub proof fn ranking_has_the_same_tickers(ranking: Seq<Ticker>, tickers: Seq<Ticker>)
    requires
        is_ranking_of(ranking, tickers),
    ensures
        ranking.len() == tickers.len(),
        forall|ticker: Ticker| ranking.contains(ticker) <==> tickers.contains(ticker),
{
    ranking.to_multiset_ensures();
    tickers.to_multiset_ensures();
    assert forall|ticker: Ticker| ranking.contains(ticker) <==> tickers.contains(ticker) by {
        assert(ranking.to_multiset().count(ticker) == tickers.to_multiset().count(ticker));
    }
}

/// Two descending sequences that hold the same tickers, and in which the
/// tickers of each tie stand in the same order, are equal.
proof fn lemma_rankings_agree(first: Seq<Ticker>, second: Seq<Ticker>)
    requires
        descending(first),
        descending(second),
        first.to_multiset() == second.to_multiset(),
        forall|volume: Volume| #[trigger] tied_with(first, volume) == tied_with(second, volume),
    ensures
        first == second,
    decreases first.len(),
{
    first.to_multiset_ensures();
    second.to_multiset_ensures();
    if first.len() > 0 {
        let x = first.last();
        let y = second.last();
        let front = first.drop_last();
        let other = second.drop_last();
        assert(first =~= front.push(x));
        assert(second =~= other.push(y));
        // Each last ticker occurs in the other sequence, at or before its end.
        assert(tied(x.quote_volume, y.quote_volume)) by {
            lemma_rank_order_is_total(x.quote_volume, y.quote_volume, x.quote_volume);
            assert(second.to_multiset().count(x) > 0);
            let k = choose|k: int| 0 <= k < second.len() && second[k] == x;
            assert(reaches(second[k], y.quote_volume));
            assert(first.to_multiset().count(y) > 0);
            let m = choose|m: int| 0 <= m < first.len() && first[m] == y;
            assert(reaches(first[m], x.quote_volume));
        }
        // Both are the last of the same tie, so they are one ticker.
        assert(x == y) by {
            let pred = |other: Ticker| tied(other.quote_volume, x.quote_volume);
            lemma_rank_order_is_total(x.quote_volume, x.quote_volume, x.quote_volume);
            front.lemma_filter_push(x, pred);
            other.lemma_filter_push(y, pred);
            assert(tied_with(first, x.quote_volume) == tied_with(second, x.quote_volume));
            assert(front.filter(pred).push(x).last() == x);
            assert(other.filter(pred).push(y).last() == y);
        }
        // Without it, the two fronts meet the conditions again.
        lemma_front_is_descending(first);
        lemma_front_is_descending(second);
        assert(front.to_multiset() == other.to_multiset()) by {
            assert(front =~= first.remove(first.len() - 1));
            assert(other =~= second.remove(second.len() - 1));
            assert(first.remove(first.len() - 1).to_multiset() =~= first.to_multiset().remove(x));
            assert(second.remove(second.len() - 1).to_multiset() =~= second.to_multiset().remove(
                y,
            ));
        }
        assert forall|volume: Volume| #[trigger]
            tied_with(front, volume) == tied_with(other, volume) by {
            let pred = |other: Ticker| tied(other.quote_volume, volume);
            front.lemma_filter_push(x, pred);
            other.lemma_filter_push(y, pred);
            assert(tied_with(first, volume) == tied_with(second, volume));
            if pred(x) {
                assert(front.filter(pred) =~= front.filter(pred).push(x).drop_last());
                assert(other.filter(pred) =~= other.filter(pred).push(y).drop_last());
            }
        }
        lemma_rankings_agree(front, other);
    }
}

/// A sequence of tickers has one stable ranking only, the one that `ranked`
/// gives.
pub proof fn ranking_is_unique(ranking: Seq<Ticker>, tickers: Seq<Ticker>)
    requires
        is_ranking_of(ranking, tickers),
    ensures
        ranking == ranked(tickers),
{
    lemma_ranked_is_ranking(tickers);
    lemma_rankings_agree(ranking, ranked(tickers));
}

/// The two conditions of the selection can be applied one after the other,
/// in either order: keeping the tradable tickers and then those of enough
/// volume gives the selection, and so does the opposite order.
pub proof fn selection_in_two_passes(
    tickers: Seq<Ticker>,
    tradable: Set<Seq<char>>,
    min: Volume,
)
    ensures
        selection(tickers, tradable, min) == tickers.filter(
            |ticker: Ticker| tradable.contains(ticker.symbol@),
        ).filter(|ticker: Ticker| ticker.quote_volume.spec_at_least(&min)),
        selection(tickers, tradable, min) == tickers.filter(
            |ticker: Ticker| ticker.quote_volume.spec_at_least(&min),
        ).filter(|ticker: Ticker| tradable.contains(ticker.symbol@)),
    decreases tickers.len(),
{
    let both = |ticker: Ticker| retained(ticker, tradable, min);
    let listed = |ticker: Ticker| tradable.contains(ticker.symbol@);
    let enough = |ticker: Ticker| ticker.quote_volume.spec_at_least(&min);
    reveal(Seq::filter);
    if tickers.len() > 0 {
        let rest = tickers.drop_last();
        let last = tickers.last();
        selection_in_two_passes(rest, tradable, min);
        rest.lemma_filter_push(last, both);
        rest.lemma_filter_push(last, listed);
        rest.lemma_filter_push(last, enough);
        rest.filter(listed).lemma_filter_push(last, enough);
        rest.filter(enough).lemma_filter_push(last, listed);
    }
}

/// A tradable ticker whose quote volume equals the threshold is kept, and
/// one whose quote volume is below the threshold is not.
pub proof fn threshold_is_inclusive(
    tickers: Seq<Ticker>,
    tradable: Set<Seq<char>>,
    min: Volume,
    i: int,
)
    requires
        0 <= i < tickers.len(),
        tradable.contains(tickers[i].symbol@),
        !tickers[i].quote_volume.spec_is_nan(),
        !min.spec_is_nan(),
    ensures
        tickers[i].quote_volume.scaled_value() == min.scaled_value() ==> selection(
            tickers,
            tradable,
            min,
        ).contains(tickers[i]),
        tickers[i].quote_volume.scaled_value() < min.scaled_value() ==> !selection(
            tickers,
            tradable,
            min,
        ).contains(tickers[i]),
{
    lemma_selection_members(tickers, tradable, min);
}

/// In the ranked selection the quote volume of a ticker is at least that of
/// every ticker behind it, and so that of its neighbour.
pub proof fn ranked_selection_descends(
    tickers: Seq<Ticker>,
    tradable: Set<Seq<char>>,
    min: Volume,
    i: int,
    j: int,
)
    requires
        0 <= i <= j < ranked_selection(tickers, tradable, min).len(),
    ensures
        ranked_selection(tickers, tradable, min)[i].quote_volume.spec_at_least(
            &ranked_selection(tickers, tradable, min)[j].quote_volume,
        ),
{
    let kept = selection(tickers, tradable, min);
    let ranking = ranked(kept);
    lemma_ranked_is_ranking(kept);
    ranking_has_the_same_tickers(ranking, kept);
    lemma_selection_members(tickers, tradable, min);
    assert(ranking.contains(ranking[i]));
    assert(ranking.contains(ranking[j]));
}

/// In a ranking no number stands behind a NaN.
pub proof fn nan_ranks_last(tickers: Seq<Ticker>, i: int, j: int)
    requires
        0 <= i <= j < ranked(tickers).len(),
        ranked(tickers)[i].quote_volume.spec_is_nan(),
    ensures
        ranked(tickers)[j].quote_volume.spec_is_nan(),
{
    lemma_ranked_is_ranking(tickers);
}

/// The line names each kept ticker once: there are as many display names as
/// kept tickers, and each is the symbol of its ticker followed by the market
/// suffix.
pub proof fn one_name_for_each_kept_ticker(
    tickers: Seq<Ticker>,
    tradable: Set<Seq<char>>,
    min: Volume,
)
    ensures
        display_names(ranked_selection(tickers, tradable, min)).len() == selection(
            tickers,
            tradable,
            min,
        ).len(),
        forall|i: int|
            0 <= i < selection(tickers, tradable, min).len() ==> (#[trigger] display_names(
                ranked_selection(tickers, tradable, min),
            )[i]) == ranked_selection(tickers, tradable, min)[i].symbol@ + market_suffix(),
{
    let kept = selection(tickers, tradable, min);
    lemma_ranked_is_ranking(kept);
    ranking_has_the_same_tickers(ranked(kept), kept);
}

/// Where no ticker of the snapshot is kept, the line is empty.
pub proof fn nothing_kept_gives_empty_line(
    tickers: Seq<Ticker>,
    tradable: Set<Seq<char>>,
    min: Volume,
)
    requires
        forall|i: int|
            0 <= i < tickers.len() ==> !retained(#[trigger] tickers[i], tradable, min),
    ensures
        selection(tickers, tradable, min).len() == 0,
        report(tickers, tradable, min) == Seq::<char>::empty(),
{
    tickers.lemma_all_neg_filter_empty(|ticker: Ticker| retained(ticker, tradable, min));
}

} // verus!
