//! Portfolio aggregation over a record of transactions.
//!
//! A caller hands in an ordered sequence of transactions and gets back, per
//! asset, the quantities and costs summed by transaction type, the net
//! holdings, the assets still held and the market tickers referenced.
//!
//! Amounts are whole numbers of the smallest unit in which an asset or a
//! currency is counted, so sums are exact and do not depend on the order of
//! the record.

pub mod keyed;
pub mod laws;
pub mod lemmas;
pub mod model;
pub mod text;
pub mod totals;
pub mod transaction;
