//! Transaction records and the queries that aggregate them.

use crate::keyed::texts;
use crate::keyed::KeyMap;
use crate::keyed::KeySet;
use crate::lemmas::lemma_assets_in_order;
use crate::lemmas::lemma_grouped_push;
use crate::lemmas::lemma_net_bounded;
use crate::lemmas::lemma_net_of_totals;
use crate::lemmas::lemma_total_bounded;
use crate::model::all_representable;
use crate::model::asset_column;
use crate::model::assets_in_order;
use crate::model::grouped;
use crate::model::held_assets;
use crate::model::is_held;
use crate::model::net_quantities;
use crate::model::net_quantity;
use crate::model::representable;
use crate::model::snapshot;
use crate::model::sums_model;
use crate::model::ticker_column;
use crate::model::ticker_set;
use crate::model::tickers_in_order;
use crate::model::totals_model;
use crate::model::totals_or_empty;
use crate::model::Measure;
use crate::model::WalletView;
use crate::totals::TypeTotals;
use vstd::prelude::*;
use vstd::std_specs::cmp::PartialEqSpecImpl;

verus! {

/// Identifier of the thing acquired or disposed of.
pub type Asset = String;

/// Market symbol under which an asset is quoted.
pub type Ticker = String;

/// Identifier of a counterparty.
pub type Entity = String;

/// An amount moved by one transaction, in smallest units.
pub type Amount = i64;

/// A sum of amounts, in smallest units.
pub type Total = i128;

/// The kind of movement a transaction records.
#[derive(Clone, Copy, PartialEq, Eq, Structural, Hash, Debug)]
pub enum TransactionType {
    BUY,
    SELL,
    TRANSFER,
}

/// A point in time: seconds since the Unix epoch and the nanoseconds into
/// that second.
#[derive(Clone, Copy, PartialEq, Eq, Structural, Hash, Debug)]
pub struct Timestamp {
    pub seconds: i64,
    pub nanoseconds: u32,
}

/// One movement of an asset against a settlement currency.
#[derive(Clone, Debug)]
pub struct Transaction {
    pub source: Entity,
    pub destination: Entity,
    pub transaction_type: TransactionType,
    pub ticker: Ticker,
    pub asset: Asset,
    pub asset_quantity: Amount,
    pub currency: Asset,
    pub currency_quantity: Amount,
    pub currency_fees: Asset,
    pub currency_fees_quantity: Amount,
    pub sent_date: Timestamp,
    pub received_date: Timestamp,
}

/// What a transaction says, with identifiers as character sequences and
/// amounts as mathematical integers.
pub struct TransactionView {
    pub source: Seq<char>,
    pub destination: Seq<char>,
    pub transaction_type: TransactionType,
    pub ticker: Seq<char>,
    pub asset: Seq<char>,
    pub asset_quantity: int,
    pub currency: Seq<char>,
    pub currency_quantity: int,
    pub currency_fees: Seq<char>,
    pub currency_fees_quantity: int,
    pub sent_date: Timestamp,
    pub received_date: Timestamp,
}

impl View for Transaction {
    type V = TransactionView;

    open spec fn view(&self) -> TransactionView {
        TransactionView {
            source: self.source@,
            destination: self.destination@,
            transaction_type: self.transaction_type,
            ticker: self.ticker@,
            asset: self.asset@,
            asset_quantity: self.asset_quantity as int,
            currency: self.currency@,
            currency_quantity: self.currency_quantity as int,
            currency_fees: self.currency_fees@,
            currency_fees_quantity: self.currency_fees_quantity as int,
            sent_date: self.sent_date,
            received_date: self.received_date,
        }
    }
}

impl PartialEq for Transaction {
    /// Two transactions are equal when they say the same in every field.
    fn eq(&self, other: &Self) -> (r: bool) {
        self.source == other.source && self.destination == other.destination
            && self.transaction_type == other.transaction_type && self.ticker == other.ticker
            && self.asset == other.asset && self.asset_quantity == other.asset_quantity
            && self.currency == other.currency && self.currency_quantity
            == other.currency_quantity && self.currency_fees == other.currency_fees
            && self.currency_fees_quantity == other.currency_fees_quantity && self.sent_date
            == other.sent_date && self.received_date == other.received_date
    }
}

impl PartialEqSpecImpl for Transaction {
    open spec fn obeys_eq_spec() -> bool {
        true
    }

    open spec fn eq_spec(&self, other: &Self) -> bool {
        self@ == other@
    }
}

impl Eq for Transaction {

}

/// An ordered record of transactions.
#[derive(Clone, Debug)]
pub struct Transactions {
    pub transactions: Vec<Transaction>,
}

impl View for Transactions {
    type V = Seq<TransactionView>;

    open spec fn view(&self) -> Seq<TransactionView> {
        Seq::new(self.transactions@.len(), |i: int| self.transactions@[i]@)
    }
}

impl Transactions {
    /// Every transaction of a record holds amounts that fit its fields, and
    /// the record is no longer than a vector can be.
    pub proof fn lemma_representable(&self)
        ensures
            all_representable(self@),
            self@.len() <= usize::MAX,
    {
        assert(self.transactions.len() == self.transactions@.len());
        assert forall|i: int| 0 <= i < self@.len() implies representable(#[trigger] self@[i]) by {
            assert(self@[i] == self.transactions@[i]@);
        }
    }

    /// The totals under `m` of every asset by transaction type, the assets in
    /// the order of first occurrence.
    fn totals(&self, m: Measure) -> (r: KeyMap<TypeTotals>)
        requires
            m == Measure::Cost ==> self.transactions@.len() <= isize::MAX,
        ensures
            totals_model(r@) == grouped(self@, m),
            r.order() == assets_in_order(self@),
    {
        let n: usize = self.transactions.len();
        let mut out: KeyMap<TypeTotals> = KeyMap::new();
        let mut i: usize = 0;
        proof {
            assert(asset_column(self@).skip(0) =~= asset_column(self@));
        }
        while i < n
            invariant
                i <= n,
                n == self.transactions@.len(),
                m == Measure::Cost ==> n <= isize::MAX,
                totals_model(out@) == grouped(self@.take(i as int), m),
                asset_column(self@).skip(i as int).remove_duplicates(out.order())
                    == assets_in_order(self@),
            decreases n - i,
        {
            let t = &self.transactions[i];
            let ghost before = self@.take(i as int);
            let ghost seen = out.order();
            let amount = m.of(t);
            let current = match out.get(t.asset.as_str()) {
                Some(found) => *found,
                None => TypeTotals::new(),
            };
            proof {
                self.lemma_representable();
                assert(current@ == totals_or_empty(grouped(before, m), t@.asset));
                lemma_total_bounded(before, m, t@.asset, t.transaction_type);
            }
            let next = current.credit(t.transaction_type, amount);
            out.insert(t.asset.clone(), next);
            proof {
                lemma_grouped_push(before, t@, m);
                assert(self@.take(i + 1) =~= before.push(t@));
                let column = asset_column(self@);
                let rest = column.skip(i as int);
                assert(rest.skip(1) =~= column.skip(i + 1));
                assert(seen.push(t@.asset) =~= seen + seq![t@.asset]);
            }
            i += 1;
        }
        proof {
            assert(self@.take(n as int) =~= self@);
        }
        out
    }

    /// For each asset, the quantity moved under each transaction type.
    ///
    /// Transactions of one asset and type are summed wherever they stand in
    /// the record. A type under which an asset never moved has no total.
    pub fn get_quantity_by_transaction_type_by_asset(&self) -> (r: KeyMap<TypeTotals>)
        ensures
            totals_model(r@) == grouped(self@, Measure::Quantity),
            r.order() == assets_in_order(self@),
    {
        self.totals(Measure::Quantity)
    }

    /// For each asset, the currency laid out under each transaction type: the
    /// currency exchanged plus the fees.
    ///
    /// The record may hold no more transactions than `isize::MAX`, which is as
    /// many as memory can hold: sums of so many costs cannot overflow.
    pub fn get_total_cost_by_transaction_type_by_currency(&self) -> (r: KeyMap<TypeTotals>)
        requires
            self.transactions@.len() <= isize::MAX,
        ensures
            totals_model(r@) == grouped(self@, Measure::Cost),
            r.order() == assets_in_order(self@),
    {
        self.totals(Measure::Cost)
    }

    /// For each asset, what was bought less what was sold. An asset that was
    /// never bought, or never sold, counts zero on that side.
    pub fn get_current_quantity_by_asset(&self) -> (r: KeyMap<Total>)
        ensures
            sums_model(r@) == net_quantities(self@),
            r.order() == assets_in_order(self@),
    {
        let quantities = self.get_quantity_by_transaction_type_by_asset();
        let n: usize = quantities.len();
        let mut out: KeyMap<Total> = KeyMap::new();
        let mut j: usize = 0;
        while j < n
            invariant
                j <= n,
                n == quantities.order().len(),
                n == quantities.values().len(),
                quantities.order().no_duplicates(),
                forall|i: int|
                    0 <= i < n ==> quantities@[#[trigger] quantities.order()[i]]
                        == quantities.values()[i],
                totals_model(quantities@) == grouped(self@, Measure::Quantity),
                out.order() == quantities.order().take(j as int),
                forall|asset: Seq<char>| #[trigger]
                    out@.contains_key(asset) ==> out@[asset] == net_quantity(self@, asset),
            decreases n - j,
        {
            let key = quantities.key_at(j);
            let totals = quantities.value_at(j);
            let ghost asset = key@;
            let ghost seen = out.order();
            proof {
                assert(totals_model(quantities@)[asset] == totals@);
                lemma_net_of_totals(self@, asset);
                self.lemma_representable();
                lemma_net_bounded(self@, asset);
                assert(!seen.contains(asset));
            }
            let net = totals.net();
            out.insert(key.clone(), net);
            proof {
                assert(quantities.order().take(j + 1) =~= seen.push(asset));
            }
            j += 1;
        }
        proof {
            assert(quantities.order().take(n as int) =~= quantities.order());
            lemma_assets_in_order(self@);
            assert(sums_model(out@) =~= net_quantities(self@));
        }
        out
    }

    /// The assets of which more was bought than sold, in the order in which
    /// they first occur in the record.
    pub fn get_assets(&self) -> (r: Vec<String>)
        ensures
            texts(r@) == held_assets(self@),
    {
        let current = self.get_current_quantity_by_asset();
        let n: usize = current.len();
        let mut out: Vec<String> = Vec::new();
        let mut j: usize = 0;
        proof {
            reveal(Seq::filter);
        }
        while j < n
            invariant
                j <= n,
                n == current.order().len(),
                n == current.values().len(),
                forall|i: int|
                    0 <= i < n ==> current@[#[trigger] current.order()[i]] == current.values()[i],
                sums_model(current@) == net_quantities(self@),
                current.order() == assets_in_order(self@),
                texts(out@) == current.order().take(j as int).filter(is_held(self@)),
            decreases n - j,
        {
            let key = current.key_at(j);
            let net = *current.value_at(j);
            let ghost asset = key@;
            let ghost before = current.order().take(j as int);
            proof {
                assert(sums_model(current@)[asset] == net);
                before.lemma_filter_push(asset, is_held(self@));
                assert(current.order().take(j + 1) =~= before.push(asset));
            }
            if net > 0 {
                out.push(key.clone());
            }
            j += 1;
        }
        proof {
            assert(current.order().take(n as int) =~= current.order());
        }
        out
    }

    /// The tickers that the record refers to, each once.
    pub fn get_tickers(&self) -> (r: KeySet)
        ensures
            r@ == ticker_set(self@),
            r.order() == tickers_in_order(self@),
    {
        let n: usize = self.transactions.len();
        let mut out = KeySet::new();
        let mut i: usize = 0;
        proof {
            assert(ticker_column(self@).skip(0) =~= ticker_column(self@));
        }
        while i < n
            invariant
                i <= n,
                n == self.transactions@.len(),
                out@ == ticker_column(self@).take(i as int).to_set(),
                ticker_column(self@).skip(i as int).remove_duplicates(out.order())
                    == tickers_in_order(self@),
            decreases n - i,
        {
            let t = &self.transactions[i];
            let ghost seen = out.order();
            let ghost column = ticker_column(self@);
            out.insert(t.ticker.clone());
            proof {
                let rest = column.skip(i as int);
                assert(rest.skip(1) =~= column.skip(i + 1));
                assert(seen.push(t@.ticker) =~= seen + seq![t@.ticker]);
                assert(column.take(i + 1) =~= column.take(i as int).push(t@.ticker));
                column.take(i as int).lemma_push_to_set_commute(t@.ticker);
            }
            i += 1;
        }
        proof {
            assert(ticker_column(self@).take(n as int) =~= ticker_column(self@));
        }
        out
    }
}

/// The aggregates of one record, computed once and read thereafter.
#[derive(Clone, Debug)]
pub struct Wallet {
    pub quantity_by_transaction_type_by_currency: KeyMap<TypeTotals>,
    pub total_cost_by_transaction_type_by_currency: KeyMap<TypeTotals>,
    pub current_quantity_by_currency: KeyMap<Total>,
    pub assets: Vec<String>,
    pub tickers: KeySet,
}

impl View for Wallet {
    type V = WalletView;

    open spec fn view(&self) -> WalletView {
        WalletView {
            quantity_by_type_by_asset: totals_model(self.quantity_by_transaction_type_by_currency@),
            total_cost_by_type_by_asset: totals_model(
                self.total_cost_by_transaction_type_by_currency@,
            ),
            current_quantity_by_asset: sums_model(self.current_quantity_by_currency@),
            held_assets: texts(self.assets@),
            tickers: self.tickers@,
        }
    }
}

impl Wallet {
    /// Whether this wallet is the one that `Wallet::new` gives for `txs`: it
    /// says what `snapshot` says, and each of its collections is walked in the
    /// order in which its keys first occur in `txs`.
    pub open spec fn is_snapshot_of(&self, txs: Seq<TransactionView>) -> bool {
        &&& self@ == snapshot(txs)
        &&& self.quantity_by_transaction_type_by_currency.order() == assets_in_order(txs)
        &&& self.total_cost_by_transaction_type_by_currency.order() == assets_in_order(txs)
        &&& self.current_quantity_by_currency.order() == assets_in_order(txs)
        &&& self.tickers.order() == tickers_in_order(txs)
    }

    /// The wallet of a record.
    ///
    /// The record may hold no more transactions than `isize::MAX`, which is as
    /// many as memory can hold.
    pub fn new(transactions: Transactions) -> (wallet: Wallet)
        requires
            transactions.transactions@.len() <= isize::MAX,
        ensures
            wallet.is_snapshot_of(transactions@),
    {
        Wallet {
            quantity_by_transaction_type_by_currency:
                transactions.get_quantity_by_transaction_type_by_asset(),
            total_cost_by_transaction_type_by_currency:
                transactions.get_total_cost_by_transaction_type_by_currency(),
            current_quantity_by_currency: transactions.get_current_quantity_by_asset(),
            assets: transactions.get_assets(),
            tickers: transactions.get_tickers(),
        }
    }
}

} // verus!
