//! The aggregation stated over sequences of transaction views.
//!
//! Every query of the library is pinned to one of the functions below. They
//! say what a result is, not how it is computed.

use crate::totals::TypeTotals;
use crate::transaction::Total;
use crate::transaction::Transaction;
use crate::transaction::TransactionType;
use crate::transaction::TransactionView;
use vstd::prelude::*;

verus! {

/// What is summed per transaction.
#[derive(Clone, Copy, PartialEq, Eq, Structural, Debug)]
pub enum Measure {
    /// The quantity of the asset moved.
    Quantity,
    /// The currency exchanged plus the fees paid.
    Cost,
}

impl Measure {
    /// The amount of `t` under this measure.
    pub fn of(&self, t: &Transaction) -> (r: Total)
        ensures
            r == measured(t@, *self),
    {
        match self {
            Measure::Quantity => t.asset_quantity as Total,
            Measure::Cost => t.currency_quantity as Total + t.currency_fees_quantity as Total,
        }
    }
}

/// The amount that `t` adds to the bucket it falls in.
pub open spec fn measured(t: TransactionView, m: Measure) -> int {
    match m {
        Measure::Quantity => t.asset_quantity,
        Measure::Cost => t.currency_quantity + t.currency_fees_quantity,
    }
}

/// Whether `t` falls in the bucket of `asset` and `ty`.
pub open spec fn falls_in(t: TransactionView, asset: Seq<char>, ty: TransactionType) -> bool {
    t.asset == asset && t.transaction_type == ty
}

/// What `t` adds to the bucket of `asset` and `ty`: its measured amount if it
/// falls in that bucket, nothing otherwise.
pub open spec fn contribution(
    t: TransactionView,
    m: Measure,
    asset: Seq<char>,
    ty: TransactionType,
) -> int {
    if falls_in(t, asset, ty) {
        measured(t, m)
    } else {
        0
    }
}

/// The sum of what the transactions of `txs` add to the bucket of `asset` and
/// `ty`, wherever in `txs` they stand.
pub open spec fn bucket_total(
    txs: Seq<TransactionView>,
    m: Measure,
    asset: Seq<char>,
    ty: TransactionType,
) -> int
    decreases txs.len(),
{
    if txs.len() == 0 {
        0
    } else {
        bucket_total(txs.drop_last(), m, asset, ty) + contribution(txs.last(), m, asset, ty)
    }
}

/// Whether some transaction of `txs` falls in the bucket of `asset` and `ty`.
pub open spec fn bucket_present(
    txs: Seq<TransactionView>,
    asset: Seq<char>,
    ty: TransactionType,
) -> bool {
    exists|i: int| 0 <= i < txs.len() && falls_in(#[trigger] txs[i], asset, ty)
}

/// Whether some transaction of `txs` moves `asset`.
pub open spec fn asset_present(txs: Seq<TransactionView>, asset: Seq<char>) -> bool {
    exists|i: int| 0 <= i < txs.len() && (#[trigger] txs[i]).asset == asset
}

/// The totals of one asset by transaction type. A type under which the asset
/// never moved has no entry.
pub open spec fn totals_by_type(txs: Seq<TransactionView>, m: Measure, asset: Seq<char>) -> Map<
    TransactionType,
    int,
> {
    Map::new(
        |ty: TransactionType| bucket_present(txs, asset, ty),
        |ty: TransactionType| bucket_total(txs, m, asset, ty),
    )
}

/// The totals of every asset of `txs` by transaction type.
pub open spec fn grouped(txs: Seq<TransactionView>, m: Measure) -> Map<
    Seq<char>,
    Map<TransactionType, int>,
> {
    Map::new(
        |asset: Seq<char>| asset_present(txs, asset),
        |asset: Seq<char>| totals_by_type(txs, m, asset),
    )
}

/// The total under `ty`, with a missing entry read as zero.
pub open spec fn absent_as_zero(totals: Map<TransactionType, int>, ty: TransactionType) -> int {
    if totals.contains_key(ty) {
        totals[ty]
    } else {
        0
    }
}

/// What was bought less what was sold. Transfers do not count.
pub open spec fn net_of(totals: Map<TransactionType, int>) -> int {
    absent_as_zero(totals, TransactionType::BUY) - absent_as_zero(totals, TransactionType::SELL)
}

/// The net quantity of `asset`: the quantities of its purchases less those of
/// its sales.
pub open spec fn net_quantity(txs: Seq<TransactionView>, asset: Seq<char>) -> int {
    bucket_total(txs, Measure::Quantity, asset, TransactionType::BUY) - bucket_total(
        txs,
        Measure::Quantity,
        asset,
        TransactionType::SELL,
    )
}

/// The net quantity of every asset of `txs`.
pub open spec fn net_quantities(txs: Seq<TransactionView>) -> Map<Seq<char>, int> {
    Map::new(
        |asset: Seq<char>| asset_present(txs, asset),
        |asset: Seq<char>| net_quantity(txs, asset),
    )
}

/// The keys of `keys`, each once, in the order of first occurrence.
pub open spec fn distinct(keys: Seq<Seq<char>>) -> Seq<Seq<char>> {
    keys.remove_duplicates(Seq::empty())
}

/// The asset of each transaction.
pub open spec fn asset_column(txs: Seq<TransactionView>) -> Seq<Seq<char>> {
    Seq::new(txs.len(), |i: int| txs[i].asset)
}

/// The ticker of each transaction.
pub open spec fn ticker_column(txs: Seq<TransactionView>) -> Seq<Seq<char>> {
    Seq::new(txs.len(), |i: int| txs[i].ticker)
}

/// The assets of `txs`, each once, in the order of first occurrence.
pub open spec fn assets_in_order(txs: Seq<TransactionView>) -> Seq<Seq<char>> {
    distinct(asset_column(txs))
}

/// Whether more of `asset` was bought than sold.
pub open spec fn is_held(txs: Seq<TransactionView>) -> spec_fn(Seq<char>) -> bool {
    |asset: Seq<char>| net_quantity(txs, asset) > 0
}

/// The assets of which more was bought than sold, in the order of first
/// occurrence.
pub open spec fn held_assets(txs: Seq<TransactionView>) -> Seq<Seq<char>> {
    assets_in_order(txs).filter(is_held(txs))
}

/// The tickers that `txs` refers to.
pub open spec fn ticker_set(txs: Seq<TransactionView>) -> Set<Seq<char>> {
    ticker_column(txs).to_set()
}

/// The tickers of `txs`, each once, in the order of first occurrence.
pub open spec fn tickers_in_order(txs: Seq<TransactionView>) -> Seq<Seq<char>> {
    distinct(ticker_column(txs))
}

/// The totals stored for `asset`, or no totals at all where it is unknown.
pub open spec fn totals_or_empty(
    all: Map<Seq<char>, Map<TransactionType, int>>,
    asset: Seq<char>,
) -> Map<TransactionType, int> {
    if all.contains_key(asset) {
        all[asset]
    } else {
        Map::empty()
    }
}

/// `totals` with `amount` added under `ty`.
pub open spec fn credited(totals: Map<TransactionType, int>, ty: TransactionType, amount: int) -> Map<
    TransactionType,
    int,
> {
    totals.insert(ty, absent_as_zero(totals, ty) + amount)
}

/// `all` after one more transaction: the measured amount of `t` is added to
/// the bucket that `t` falls in.
pub open spec fn recorded(
    all: Map<Seq<char>, Map<TransactionType, int>>,
    t: TransactionView,
    m: Measure,
) -> Map<Seq<char>, Map<TransactionType, int>> {
    all.insert(
        t.asset,
        credited(totals_or_empty(all, t.asset), t.transaction_type, measured(t, m)),
    )
}

/// Whether every amount of `t` is one that a transaction can hold.
pub open spec fn representable(t: TransactionView) -> bool {
    &&& i64::MIN <= t.asset_quantity <= i64::MAX
    &&& i64::MIN <= t.currency_quantity <= i64::MAX
    &&& i64::MIN <= t.currency_fees_quantity <= i64::MAX
}

/// Whether every transaction of `txs` is representable.
pub open spec fn all_representable(txs: Seq<TransactionView>) -> bool {
    forall|i: int| 0 <= i < txs.len() ==> representable(#[trigger] txs[i])
}

/// The largest magnitude of a single quantity.
#[verifier::inline]
pub open spec fn quantity_limit() -> int {
    0x8000_0000_0000_0000
}

/// The largest magnitude of a single cost.
#[verifier::inline]
pub open spec fn cost_limit() -> int {
    0x1_0000_0000_0000_0000
}

/// What a stored map of totals says: the totals of each asset as a map from
/// transaction type to integer.
pub open spec fn totals_model(stored: Map<Seq<char>, TypeTotals>) -> Map<
    Seq<char>,
    Map<TransactionType, int>,
> {
    stored.map_values(|t: TypeTotals| t@)
}

/// What a stored map of sums says: each sum as an integer.
pub open spec fn sums_model(stored: Map<Seq<char>, Total>) -> Map<Seq<char>, int> {
    stored.map_values(|v: Total| v as int)
}

/// What a wallet says: the five aggregates of one record.
pub struct WalletView {
    /// For each asset, the quantity moved under each transaction type.
    pub quantity_by_type_by_asset: Map<Seq<char>, Map<TransactionType, int>>,
    /// For each asset, the currency laid out under each transaction type.
    pub total_cost_by_type_by_asset: Map<Seq<char>, Map<TransactionType, int>>,
    /// For each asset, what was bought less what was sold.
    pub current_quantity_by_asset: Map<Seq<char>, int>,
    /// The assets of which more was bought than sold.
    pub held_assets: Seq<Seq<char>>,
    /// The tickers referred to.
    pub tickers: Set<Seq<char>>,
}

/// The wallet of a record: a function of the record and of nothing else.
pub open spec fn snapshot(txs: Seq<TransactionView>) -> WalletView {
    WalletView {
        quantity_by_type_by_asset: grouped(txs, Measure::Quantity),
        total_cost_by_type_by_asset: grouped(txs, Measure::Cost),
        current_quantity_by_asset: net_quantities(txs),
        held_assets: held_assets(txs),
        tickers: ticker_set(txs),
    }
}

} // verus!
