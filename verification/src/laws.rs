//! What holds of the aggregation whatever the record.

use crate::keyed::texts;
use crate::lemmas::lemma_assets_in_order;
use crate::lemmas::lemma_net_of_totals;
use crate::lemmas::lemma_tickers_in_order;
use crate::model::absent_as_zero;
use crate::model::asset_present;
use crate::model::assets_in_order;
use crate::model::bucket_present;
use crate::model::bucket_total;
use crate::model::contribution;
use crate::model::falls_in;
use crate::model::grouped;
use crate::model::held_assets;
use crate::model::is_held;
use crate::model::net_quantities;
use crate::model::net_quantity;
use crate::model::sums_model;
use crate::model::ticker_column;
use crate::model::ticker_set;
use crate::model::tickers_in_order;
use crate::model::totals_model;
use crate::model::Measure;
use crate::totals::TypeTotals;
use crate::transaction::TransactionType;
use crate::transaction::TransactionView;
use crate::transaction::Wallet;
use vstd::prelude::*;
use vstd::seq_lib::to_multiset_len;
use vstd::seq_lib::to_multiset_remove;

verus! {

/// Whether `a` and `b` hold the same transactions, each as often in one as in
/// the other, in whatever order.
pub open spec fn same_transactions(a: Seq<TransactionView>, b: Seq<TransactionView>) -> bool {
    a.to_multiset() == b.to_multiset()
}

/// A bucket total is the total without one transaction plus what that
/// transaction contributes.
pub proof fn lemma_total_remove(
    s: Seq<TransactionView>,
    i: int,
    m: Measure,
    asset: Seq<char>,
    ty: TransactionType,
)
    requires
        0 <= i < s.len(),
    ensures
        bucket_total(s, m, asset, ty) == bucket_total(s.remove(i), m, asset, ty) + contribution(
            s[i],
            m,
            asset,
            ty,
        ),
    decreases s.len(),
{
    if i == s.len() - 1 {
        assert(s.remove(i) =~= s.drop_last());
    } else {
        lemma_total_remove(s.drop_last(), i, m, asset, ty);
        assert(s.remove(i).drop_last() =~= s.drop_last().remove(i));
        assert(s.remove(i).last() == s.last());
    }
}

/// Some place of `b` holds the transaction that `a` holds at place `i`.
proof fn lemma_counterpart(a: Seq<TransactionView>, b: Seq<TransactionView>, i: int) -> (j: int)
    requires
        same_transactions(a, b),
        0 <= i < a.len(),
    ensures
        0 <= j < b.len(),
        b[j] == a[i],
{
    a.to_multiset_ensures();
    b.to_multiset_ensures();
    assert(a.contains(a[i]));
    assert(b.to_multiset().count(a[i]) > 0);
    assert(b.contains(a[i]));
    choose|j: int| 0 <= j < b.len() && b[j] == a[i]
}

/// A bucket total does not depend on the order of the record.
pub proof fn lemma_total_ignores_order(
    a: Seq<TransactionView>,
    b: Seq<TransactionView>,
    m: Measure,
    asset: Seq<char>,
    ty: TransactionType,
)
    requires
        same_transactions(a, b),
    ensures
        bucket_total(a, m, asset, ty) == bucket_total(b, m, asset, ty),
    decreases a.len(),
{
    to_multiset_len(a);
    to_multiset_len(b);
    if a.len() > 0 {
        let i = a.len() - 1;
        let j = lemma_counterpart(a, b, i);
        to_multiset_remove(a, i);
        to_multiset_remove(b, j);
        assert(a.remove(i) =~= a.drop_last());
        lemma_total_ignores_order(a.drop_last(), b.remove(j), m, asset, ty);
        lemma_total_remove(b, j, m, asset, ty);
    }
}

/// Which buckets and which assets are present does not depend on the order
/// of the record.
pub proof fn lemma_present_ignores_order(
    a: Seq<TransactionView>,
    b: Seq<TransactionView>,
    asset: Seq<char>,
    ty: TransactionType,
)
    requires
        same_transactions(a, b),
    ensures
        bucket_present(a, asset, ty) == bucket_present(b, asset, ty),
        asset_present(a, asset) == asset_present(b, asset),
{
    if bucket_present(a, asset, ty) {
        let i = choose|i: int| 0 <= i < a.len() && falls_in(#[trigger] a[i], asset, ty);
        let j = lemma_counterpart(a, b, i);
        assert(falls_in(b[j], asset, ty));
    }
    if bucket_present(b, asset, ty) {
        let i = choose|i: int| 0 <= i < b.len() && falls_in(#[trigger] b[i], asset, ty);
        let j = lemma_counterpart(b, a, i);
        assert(falls_in(a[j], asset, ty));
    }
    if asset_present(a, asset) {
        let i = choose|i: int| 0 <= i < a.len() && (#[trigger] a[i]).asset == asset;
        let j = lemma_counterpart(a, b, i);
        assert(b[j].asset == asset);
    }
    if asset_present(b, asset) {
        let i = choose|i: int| 0 <= i < b.len() && (#[trigger] b[i]).asset == asset;
        let j = lemma_counterpart(b, a, i);
        assert(a[j].asset == asset);
    }
}

/// Grouping is independent of order: two records that hold the same
/// transactions have the same totals by asset and type, for quantities and
/// for costs alike.
pub proof fn lemma_grouping_ignores_order(
    a: Seq<TransactionView>,
    b: Seq<TransactionView>,
    m: Measure,
)
    requires
        same_transactions(a, b),
    ensures
        grouped(a, m) == grouped(b, m),
{
    assert forall|asset: Seq<char>| #[trigger]
        grouped(a, m).contains_key(asset) == grouped(b, m).contains_key(asset) by {
        lemma_present_ignores_order(a, b, asset, TransactionType::BUY);
    }
    assert forall|asset: Seq<char>| #[trigger] grouped(a, m).contains_key(asset) implies grouped(
        a,
        m,
    )[asset] =~= grouped(b, m)[asset] by {
        assert forall|ty: TransactionType|
            bucket_present(a, asset, ty) == bucket_present(b, asset, ty) && bucket_total(
                a,
                m,
                asset,
                ty,
            ) == bucket_total(b, m, asset, ty) by {
            lemma_present_ignores_order(a, b, asset, ty);
            lemma_total_ignores_order(a, b, m, asset, ty);
        }
    }
    assert(grouped(a, m) =~= grouped(b, m));
}

/// The net quantities, the set of held assets and the set of tickers do not
/// depend on the order of the record either.
pub proof fn lemma_holdings_ignore_order(a: Seq<TransactionView>, b: Seq<TransactionView>)
    requires
        same_transactions(a, b),
    ensures
        net_quantities(a) == net_quantities(b),
        held_assets(a).to_set() == held_assets(b).to_set(),
        ticker_set(a) == ticker_set(b),
{
    assert forall|asset: Seq<char>|
        asset_present(a, asset) == asset_present(b, asset) && net_quantity(a, asset)
            == net_quantity(b, asset) by {
        lemma_present_ignores_order(a, b, asset, TransactionType::BUY);
        lemma_total_ignores_order(a, b, Measure::Quantity, asset, TransactionType::BUY);
        lemma_total_ignores_order(a, b, Measure::Quantity, asset, TransactionType::SELL);
    }
    assert(net_quantities(a) =~= net_quantities(b));
    assert forall|asset: Seq<char>|
        held_assets(a).contains(asset) == held_assets(b).contains(asset) by {
        lemma_held_assets_exact(a, asset);
        lemma_held_assets_exact(b, asset);
    }
    assert(held_assets(a).to_set() =~= held_assets(b).to_set());
    assert forall|ticker: Seq<char>|
        ticker_column(a).contains(ticker) == ticker_column(b).contains(ticker) by {
        if ticker_column(a).contains(ticker) {
            let i = choose|i: int| 0 <= i < a.len() && ticker_column(a)[i] == ticker;
            let j = lemma_counterpart(a, b, i);
            assert(ticker_column(b)[j] == ticker);
        }
        if ticker_column(b).contains(ticker) {
            let i = choose|i: int| 0 <= i < b.len() && ticker_column(b)[i] == ticker;
            let j = lemma_counterpart(b, a, i);
            assert(ticker_column(a)[j] == ticker);
        }
    }
    assert(ticker_set(a) =~= ticker_set(b));
}

/// The net quantity of an asset is the total of its purchases less the total
/// of its sales, read off the grouped quantities with a missing total as zero.
pub proof fn lemma_net_is_buy_less_sell(txs: Seq<TransactionView>, asset: Seq<char>)
    requires
        asset_present(txs, asset),
    ensures
        net_quantities(txs).contains_key(asset),
        net_quantities(txs)[asset] == absent_as_zero(
            grouped(txs, Measure::Quantity)[asset],
            TransactionType::BUY,
        ) - absent_as_zero(grouped(txs, Measure::Quantity)[asset], TransactionType::SELL),
{
    lemma_net_of_totals(txs, asset);
}

/// The held assets are exactly the assets whose net quantity is above zero,
/// and none is listed twice.
pub proof fn lemma_held_assets_exact(txs: Seq<TransactionView>, asset: Seq<char>)
    ensures
        held_assets(txs).contains(asset) <==> net_quantities(txs).contains_key(asset)
            && net_quantities(txs)[asset] > 0,
        held_assets(txs).no_duplicates(),
{
    let all = assets_in_order(txs);
    let held = held_assets(txs);
    lemma_assets_in_order(txs);
    if held.contains(asset) {
        all.lemma_filter_contains_rev(is_held(txs), asset);
        let i = choose|i: int| 0 <= i < held.len() && held[i] == asset;
        all.lemma_filter_pred(is_held(txs), i);
    }
    if all.contains(asset) && net_quantity(txs, asset) > 0 {
        let i = choose|i: int| 0 <= i < all.len() && all[i] == asset;
        all.lemma_filter_contains(is_held(txs), i);
    }
    lemma_filter_keeps_distinct(all, is_held(txs));
}

/// Filtering a sequence without duplicates leaves no duplicates.
pub proof fn lemma_filter_keeps_distinct(s: Seq<Seq<char>>, keep: spec_fn(Seq<char>) -> bool)
    requires
        s.no_duplicates(),
    ensures
        s.filter(keep).no_duplicates(),
    decreases s.len(),
{
    reveal(Seq::filter);
    if s.len() > 0 {
        let rest = s.drop_last();
        lemma_filter_keeps_distinct(rest, keep);
        if keep(s.last()) {
            if rest.filter(keep).contains(s.last()) {
                rest.lemma_filter_contains_rev(keep, s.last());
                let i = choose|i: int| 0 <= i < rest.len() && rest[i] == s.last();
                assert(s[i] == s[s.len() - 1]);
            }
            let kept = rest.filter(keep);
            assert forall|i: int, j: int|
                0 <= i < kept.len() + 1 && 0 <= j < kept.len() + 1 && i != j implies kept.push(
                s.last(),
            )[i] != kept.push(s.last())[j] by {
                if i < kept.len() && j < kept.len() {
                } else if i < kept.len() {
                    assert(kept.contains(kept[i]));
                } else {
                    assert(kept.contains(kept[j]));
                }
            }
        }
    }
}

/// The tickers of a record, each listed once, are as many as there are
/// distinct tickers among its transactions: duplicates collapse.
pub proof fn lemma_ticker_count(txs: Seq<TransactionView>)
    ensures
        ticker_set(txs).finite(),
        forall|ticker: Seq<char>|
            ticker_set(txs).contains(ticker) <==> exists|i: int|
                0 <= i < txs.len() && (#[trigger] txs[i]).ticker == ticker,
        tickers_in_order(txs).no_duplicates(),
        tickers_in_order(txs).to_set() == ticker_set(txs),
        tickers_in_order(txs).len() == ticker_set(txs).len(),
        ticker_set(txs).len() <= txs.len(),
{
    let column = ticker_column(txs);
    lemma_tickers_in_order(txs);
    vstd::seq_lib::seq_to_set_is_finite(column);
    column.lemma_cardinality_of_set();
    assert forall|ticker: Seq<char>|
        ticker_set(txs).contains(ticker) <==> exists|i: int|
            0 <= i < txs.len() && (#[trigger] txs[i]).ticker == ticker by {
        if ticker_set(txs).contains(ticker) {
            let i = choose|i: int| 0 <= i < column.len() && column[i] == ticker;
            assert(txs[i].ticker == ticker);
        }
        if exists|i: int| 0 <= i < txs.len() && (#[trigger] txs[i]).ticker == ticker {
            let i = choose|i: int| 0 <= i < txs.len() && (#[trigger] txs[i]).ticker == ticker;
            assert(column[i] == ticker);
        }
    }
}

/// A wallet is a function of its record: two wallets computed from the same
/// record say the same, hold the same stored totals, and are walked in the
/// same order.
pub proof fn lemma_snapshot_is_determined(a: Wallet, b: Wallet, txs: Seq<TransactionView>)
    requires
        a.is_snapshot_of(txs),
        b.is_snapshot_of(txs),
    ensures
        a@ == b@,
        a.quantity_by_transaction_type_by_currency@ == b.quantity_by_transaction_type_by_currency@,
        a.quantity_by_transaction_type_by_currency.order()
            == b.quantity_by_transaction_type_by_currency.order(),
        a.total_cost_by_transaction_type_by_currency@
            == b.total_cost_by_transaction_type_by_currency@,
        a.total_cost_by_transaction_type_by_currency.order()
            == b.total_cost_by_transaction_type_by_currency.order(),
        a.current_quantity_by_currency@ == b.current_quantity_by_currency@,
        a.current_quantity_by_currency.order() == b.current_quantity_by_currency.order(),
        texts(a.assets@) == texts(b.assets@),
        a.tickers.order() == b.tickers.order(),
{
    let qa = a.quantity_by_transaction_type_by_currency@;
    let qb = b.quantity_by_transaction_type_by_currency@;
    assert(totals_model(qa) == totals_model(qb));
    assert forall|k: Seq<char>| #[trigger] qa.contains_key(k) == qb.contains_key(k) by {
        assert(totals_model(qa).contains_key(k) == qa.contains_key(k));
        assert(totals_model(qb).contains_key(k) == qb.contains_key(k));
    }
    assert forall|k: Seq<char>| #[trigger] qa.contains_key(k) implies qa[k] == qb[k] by {
        assert(totals_model(qa)[k] == qa[k]@);
        assert(totals_model(qb)[k] == qb[k]@);
        lemma_same_totals(qa[k], qb[k]);
    }
    assert(qa =~= qb);
    let ca = a.total_cost_by_transaction_type_by_currency@;
    let cb = b.total_cost_by_transaction_type_by_currency@;
    assert(totals_model(ca) == totals_model(cb));
    assert forall|k: Seq<char>| #[trigger] ca.contains_key(k) == cb.contains_key(k) by {
        assert(totals_model(ca).contains_key(k) == ca.contains_key(k));
        assert(totals_model(cb).contains_key(k) == cb.contains_key(k));
    }
    assert forall|k: Seq<char>| #[trigger] ca.contains_key(k) implies ca[k] == cb[k] by {
        assert(totals_model(ca)[k] == ca[k]@);
        assert(totals_model(cb)[k] == cb[k]@);
        lemma_same_totals(ca[k], cb[k]);
    }
    assert(ca =~= cb);
    let na = a.current_quantity_by_currency@;
    let nb = b.current_quantity_by_currency@;
    assert(sums_model(na) == sums_model(nb));
    assert forall|k: Seq<char>| #[trigger] na.contains_key(k) == nb.contains_key(k) by {
        assert(sums_model(na).contains_key(k) == na.contains_key(k));
        assert(sums_model(nb).contains_key(k) == nb.contains_key(k));
    }
    assert forall|k: Seq<char>| #[trigger] na.contains_key(k) implies na[k] == nb[k] by {
        assert(sums_model(na)[k] == na[k]);
        assert(sums_model(nb)[k] == nb[k]);
    }
    assert(na =~= nb);
}

/// Totals that say the same are the same.
pub proof fn lemma_same_totals(a: TypeTotals, b: TypeTotals)
    requires
        a@ == b@,
    ensures
        a == b,
{
    assert forall|ty: TransactionType| a.slot(ty) == b.slot(ty) by {
        assert(a@.contains_key(ty) == (a.slot(ty) is Some));
        assert(b@.contains_key(ty) == (b.slot(ty) is Some));
        if a.slot(ty) is Some {
            assert(a@[ty] == a.slot(ty)->Some_0 as int);
            assert(b@[ty] == b.slot(ty)->Some_0 as int);
            assert(a.slot(ty)->Some_0 == b.slot(ty)->Some_0);
        }
    }
    assert(a.slot(TransactionType::BUY) == b.slot(TransactionType::BUY));
    assert(a.slot(TransactionType::SELL) == b.slot(TransactionType::SELL));
    assert(a.slot(TransactionType::TRANSFER) == b.slot(TransactionType::TRANSFER));
}

} // verus!
