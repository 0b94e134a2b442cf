//! Acceptance of what the caller parsed: the threshold given on the command
//! line and the quote volumes of the ticker snapshot.
//!
//! Decimal text is turned into a binary64 number by the caller, who hands
//! over the bit pattern of the number, or nothing where the text was not a
//! number. What the parser calls a number may still be an infinity or a
//! NaN; neither is a decimal number, and both are refused here.

use vstd::prelude::*;
use crate::market::Ticker;
use crate::volume::{lemma_scaled_magnitude_sign, Volume};

verus! {

/// Why a threshold is refused.
#[derive(Clone, Copy, Debug, PartialEq, Eq)]
pub enum ArgumentError {
    /// The text of the argument was not a number.
    NotANumber,
    /// The argument was an infinity or a NaN.
    NotFinite,
    /// The argument was a number below zero.
    Negative,
}

/// Why a ticker snapshot is refused.
#[derive(Clone, Copy, Debug, PartialEq, Eq)]
pub enum DecodeError {
    /// The quote volume of the entry at `index` was not a decimal number:
    /// its text was no number at all, or it named an infinity or a NaN. No
    /// entry before it has that defect.
    MalformedQuoteVolume { index: usize },
}

/// One entry of the ticker snapshot after parsing: the symbol, and the bit
/// pattern of the quote volume where its text was a number.
#[derive(Clone, Debug)]
pub struct TickerEntry {
    pub symbol: String,
    pub quote_volume_bits: Option<u64>,
}

impl TickerEntry {
    /// Whether the entry carries a quote volume, and a finite one.
    pub open spec fn well_formed(self) -> bool {
        self.quote_volume_bits matches Some(bits) && (Volume { bits }).spec_is_finite()
    }

    /// The ticker that a well-formed entry stands for.
    pub open spec fn ticker(self) -> Ticker
        recommends
            self.well_formed(),
    {
        Ticker { symbol: self.symbol, quote_volume: Volume { bits: self.quote_volume_bits->0 } }
    }
}

/// The threshold that a parsed argument stands for, or the reason why it is
/// refused. A threshold is a finite number that is not below zero; both
/// zeros are accepted.
pub open spec fn accepted_threshold(parsed: Option<u64>) -> Result<Volume, ArgumentError> {
    match parsed {
        None => Err(ArgumentError::NotANumber),
        Some(bits) => if !(Volume { bits }).spec_is_finite() {
            Err(ArgumentError::NotFinite)
        } else if !(Volume { bits }).spec_at_least(&Volume { bits: 0 }) {
            Err(ArgumentError::Negative)
        } else {
            Ok(Volume { bits })
        },
    }
}

/// Accepts the minimum quote volume given on the command line.
///
/// `parsed` is the bit pattern of the number that the argument's text
/// denotes, or `None` where the text denotes no number. The threshold is
/// accepted where it is finite and not below zero, and is then handed back
/// unchanged.
pub fn min_quote_volume_from(parsed: Option<u64>) -> (threshold: Result<Volume, ArgumentError>)
    ensures
        threshold == accepted_threshold(parsed),
        threshold matches Ok(volume) ==> {
            &&& parsed == Some(volume.bits)
            &&& volume.spec_is_finite()
            &&& volume.scaled_value() >= 0
        },
{
    match parsed {
        None => Err(ArgumentError::NotANumber),
        Some(bits) => {
            let volume = Volume::from_bits(bits);
            if !volume.is_finite() {
                Err(ArgumentError::NotFinite)
            } else if !volume.at_least(&Volume::from_bits(0)) {
                Err(ArgumentError::Negative)
            } else {
                proof {
                    lemma_scaled_magnitude_sign(Volume { bits: 0 });
                }
                Ok(volume)
            }
        },
    }
}

/// Whether every entry is well formed.
pub open spec fn all_well_formed(entries: Seq<TickerEntry>) -> bool {
    forall|i: int| 0 <= i < entries.len() ==> (#[trigger] entries[i]).well_formed()
}

/// Turns the parsed snapshot into tickers, or reports the first entry whose
/// quote volume is not a finite number.
///
/// Every ticker of the result has a finite quote volume.
pub fn decode_tickers(entries: Vec<TickerEntry>) -> (decoded: Result<Vec<Ticker>, DecodeError>)
    ensures
        decoded is Ok <==> all_well_formed(entries@),
        decoded matches Ok(tickers) ==> tickers@ == entries@.map_values(
            |entry: TickerEntry| entry.ticker(),
        ),
        decoded matches Err(DecodeError::MalformedQuoteVolume { index }) ==> {
            &&& index < entries@.len()
            &&& !entries@[index as int].well_formed()
            &&& all_well_formed(entries@.take(index as int))
        },
{
    let mut tickers: Vec<Ticker> = Vec::new();
    let ghost all = entries@;
    for entry in it: entries
        invariant
            it.seq() == all,
            tickers@ == all.take(it.index() as int).map_values(|entry: TickerEntry| entry.ticker()),
            all_well_formed(all.take(it.index() as int)),
    {
        let ghost at = it.index() as int;
        let index = tickers.len();
        match entry.quote_volume_bits {
            Some(bits) => {
                let quote_volume = Volume::from_bits(bits);
                if !quote_volume.is_finite() {
                    return Err(DecodeError::MalformedQuoteVolume { index });
                }
                tickers.push(Ticker { symbol: entry.symbol, quote_volume });
                assert(tickers@ =~= all.take(at + 1).map_values(
                    |entry: TickerEntry| entry.ticker(),
                ));
            },
            None => {
                return Err(DecodeError::MalformedQuoteVolume { index });
            },
        }
    }
    assert(all.take(all.len() as int) =~= all);
    Ok(tickers)
}

} // verus!
