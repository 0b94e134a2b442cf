//! Selection and ranking of exchange instruments by 24-hour quote volume.
//!
//! The crate keeps the instruments that an exchange reports as tradable and
//! whose quote volume reaches a minimum, orders them by descending volume and
//! renders their symbols as one line of text. Quote volumes are carried as
//! IEEE-754 binary64 bit patterns, so that every comparison is made, and
//! proved, on integers.

pub mod filter;
pub mod format;
pub mod intake;
pub mod laws;
pub mod market;
pub mod rank;
pub mod report;
pub mod tradable;
pub mod volume;

pub use filter::filter_tickers;
pub use format::{get_symbols, join_symbols};
pub use intake::{decode_tickers, min_quote_volume_from, ArgumentError, DecodeError, TickerEntry};
pub use market::{ExchangeInfo, SymbolInfo, Ticker};
pub use rank::sort_tickers;
pub use report::report_line;
pub use tradable::{is_listed, trading_symbols};
pub use volume::Volume;
