//! How the model behaves when a record grows by one transaction, and how large
//! its sums can become.

use crate::model::absent_as_zero;
use crate::model::all_representable;
use crate::model::asset_column;
use crate::model::asset_present;
use crate::model::assets_in_order;
use crate::model::bucket_present;
use crate::model::bucket_total;
use crate::model::contribution;
use crate::model::cost_limit;
use crate::model::distinct;
use crate::model::falls_in;
use crate::model::grouped;
use crate::model::net_of;
use crate::model::net_quantity;
use crate::model::quantity_limit;
use crate::model::recorded;
use crate::model::representable;
use crate::model::ticker_column;
use crate::model::ticker_set;
use crate::model::tickers_in_order;
use crate::model::totals_by_type;
use crate::model::Measure;
use crate::transaction::TransactionType;
use crate::transaction::TransactionView;
use vstd::prelude::*;

verus! {

/// A bucket is present after one more transaction if it was present before or
/// the new transaction falls in it; likewise for an asset.
pub proof fn lemma_present_push(
    s: Seq<TransactionView>,
    t: TransactionView,
    asset: Seq<char>,
    ty: TransactionType,
)
    ensures
        bucket_present(s.push(t), asset, ty) <==> bucket_present(s, asset, ty) || falls_in(
            t,
            asset,
            ty,
        ),
        asset_present(s.push(t), asset) <==> asset_present(s, asset) || t.asset == asset,
{
    let s2 = s.push(t);
    if bucket_present(s, asset, ty) {
        let i = choose|i: int| 0 <= i < s.len() && falls_in(#[trigger] s[i], asset, ty);
        assert(falls_in(s2[i], asset, ty));
    }
    if falls_in(t, asset, ty) {
        assert(falls_in(s2[s.len() as int], asset, ty));
    }
    if bucket_present(s2, asset, ty) {
        let i = choose|i: int| 0 <= i < s2.len() && falls_in(#[trigger] s2[i], asset, ty);
        if i < s.len() {
            assert(falls_in(s[i], asset, ty));
        }
    }
    if asset_present(s, asset) {
        let i = choose|i: int| 0 <= i < s.len() && (#[trigger] s[i]).asset == asset;
        assert(s2[i].asset == asset);
    }
    if t.asset == asset {
        assert(s2[s.len() as int].asset == asset);
    }
    if asset_present(s2, asset) {
        let i = choose|i: int| 0 <= i < s2.len() && (#[trigger] s2[i]).asset == asset;
        if i < s.len() {
            assert(s[i].asset == asset);
        }
    }
}

/// One more transaction adds its contribution to each bucket total.
pub proof fn lemma_total_push(
    s: Seq<TransactionView>,
    t: TransactionView,
    m: Measure,
    asset: Seq<char>,
    ty: TransactionType,
)
    ensures
        bucket_total(s.push(t), m, asset, ty) == bucket_total(s, m, asset, ty) + contribution(
            t,
            m,
            asset,
            ty,
        ),
{
    assert(s.push(t).drop_last() =~= s);
}

/// A bucket in which no transaction falls sums to zero.
pub proof fn lemma_absent_bucket_is_zero(
    s: Seq<TransactionView>,
    m: Measure,
    asset: Seq<char>,
    ty: TransactionType,
)
    requires
        !bucket_present(s, asset, ty),
    ensures
        bucket_total(s, m, asset, ty) == 0,
    decreases s.len(),
{
    if s.len() > 0 {
        let rest = s.drop_last();
        assert(s =~= rest.push(s.last()));
        lemma_present_push(rest, s.last(), asset, ty);
        lemma_absent_bucket_is_zero(rest, m, asset, ty);
    }
}

/// A bucket can only be present for an asset that is present.
pub proof fn lemma_bucket_implies_asset(
    s: Seq<TransactionView>,
    asset: Seq<char>,
    ty: TransactionType,
)
    requires
        bucket_present(s, asset, ty),
    ensures
        asset_present(s, asset),
{
    let i = choose|i: int| 0 <= i < s.len() && falls_in(#[trigger] s[i], asset, ty);
    assert(s[i].asset == asset);
}

/// The grouped totals of a record that grew by `t` are those of the record
/// before, with `t` recorded.
pub proof fn lemma_grouped_push(s: Seq<TransactionView>, t: TransactionView, m: Measure)
    ensures
        grouped(s.push(t), m) == recorded(grouped(s, m), t, m),
{
    let s2 = s.push(t);
    let before = grouped(s, m);
    let after = recorded(before, t, m);
    assert forall|asset: Seq<char>| #[trigger]
        grouped(s2, m).contains_key(asset) == after.contains_key(asset) by {
        lemma_present_push(s, t, asset, t.transaction_type);
    }
    assert forall|asset: Seq<char>| #[trigger] after.contains_key(asset) implies grouped(s2, m)[asset]
        =~= after[asset] by {
        let lhs = grouped(s2, m)[asset];
        let rhs = after[asset];
        assert forall|ty: TransactionType| #[trigger]
            lhs.contains_key(ty) == rhs.contains_key(ty) && (lhs.contains_key(ty) ==> lhs[ty]
                == rhs[ty]) by {
            lemma_present_push(s, t, asset, ty);
            lemma_total_push(s, t, m, asset, ty);
            if !bucket_present(s, asset, ty) {
                lemma_absent_bucket_is_zero(s, m, asset, ty);
            } else {
                lemma_bucket_implies_asset(s, asset, ty);
            }
        }
    }
    assert(grouped(s2, m) =~= after);
}

/// A bucket total is no larger in magnitude than the number of transactions
/// times the largest single amount.
pub proof fn lemma_total_bounded(
    s: Seq<TransactionView>,
    m: Measure,
    asset: Seq<char>,
    ty: TransactionType,
)
    requires
        all_representable(s),
    ensures
        m == Measure::Quantity ==> -(s.len() * quantity_limit()) <= bucket_total(s, m, asset, ty)
            <= s.len() * quantity_limit(),
        m == Measure::Cost ==> -(s.len() * cost_limit()) <= bucket_total(s, m, asset, ty)
            <= s.len() * cost_limit(),
    decreases s.len(),
{
    if s.len() > 0 {
        let rest = s.drop_last();
        assert(representable(s[s.len() - 1]));
        assert forall|i: int| 0 <= i < rest.len() implies representable(#[trigger] rest[i]) by {
            assert(representable(s[i]));
        }
        lemma_total_bounded(rest, m, asset, ty);
    }
}

/// A net quantity is no larger in magnitude than the number of transactions
/// times the largest single quantity: no transaction is both a purchase and a
/// sale.
pub proof fn lemma_net_bounded(s: Seq<TransactionView>, asset: Seq<char>)
    requires
        all_representable(s),
    ensures
        -(s.len() * quantity_limit()) <= net_quantity(s, asset) <= s.len() * quantity_limit(),
    decreases s.len(),
{
    if s.len() > 0 {
        let rest = s.drop_last();
        assert(representable(s[s.len() - 1]));
        assert forall|i: int| 0 <= i < rest.len() implies representable(#[trigger] rest[i]) by {
            assert(representable(s[i]));
        }
        lemma_net_bounded(rest, asset);
    }
}

/// Read off the totals by type, with a missing total as zero, the net
/// quantity of an asset is its purchases less its sales.
pub proof fn lemma_net_of_totals(s: Seq<TransactionView>, asset: Seq<char>)
    ensures
        net_of(totals_by_type(s, Measure::Quantity, asset)) == net_quantity(s, asset),
{
    let totals = totals_by_type(s, Measure::Quantity, asset);
    if !bucket_present(s, asset, TransactionType::BUY) {
        lemma_absent_bucket_is_zero(s, Measure::Quantity, asset, TransactionType::BUY);
    }
    if !bucket_present(s, asset, TransactionType::SELL) {
        lemma_absent_bucket_is_zero(s, Measure::Quantity, asset, TransactionType::SELL);
    }
    assert(absent_as_zero(totals, TransactionType::BUY) == bucket_total(
        s,
        Measure::Quantity,
        asset,
        TransactionType::BUY,
    ));
    assert(absent_as_zero(totals, TransactionType::SELL) == bucket_total(
        s,
        Measure::Quantity,
        asset,
        TransactionType::SELL,
    ));
}

/// Removing duplicates keeps exactly the keys that occur, and none twice.
pub proof fn lemma_distinct(keys: Seq<Seq<char>>)
    ensures
        distinct(keys).no_duplicates(),
        distinct(keys).to_set() == keys.to_set(),
        forall|k: Seq<char>| distinct(keys).contains(k) <==> keys.contains(k),
        distinct(keys).len() == keys.to_set().len(),
{
    lemma_remove_duplicates(keys, Seq::empty());
    assert(distinct(keys).to_set() =~= keys.to_set());
    distinct(keys).unique_seq_to_set();
}

/// Removing duplicates from `keys`, with `seen` as what came before, yields
/// the keys of either, and none twice if `seen` holds none twice.
pub proof fn lemma_remove_duplicates(keys: Seq<Seq<char>>, seen: Seq<Seq<char>>)
    requires
        seen.no_duplicates(),
    ensures
        keys.remove_duplicates(seen).no_duplicates(),
        forall|k: Seq<char>|
            keys.remove_duplicates(seen).contains(k) <==> seen.contains(k) || keys.contains(k),
    decreases keys.len(),
{
    if keys.len() == 0 {
    } else {
        let first = keys[0];
        let rest = keys.skip(1);
        let grown = if seen.contains(first) {
            seen
        } else {
            seen + seq![first]
        };
        if !seen.contains(first) {
            assert forall|i: int, j: int|
                0 <= i < grown.len() && 0 <= j < grown.len() && i != j implies grown[i]
                != grown[j] by {
                if i < seen.len() && j < seen.len() {
                } else if i < seen.len() {
                    assert(seen.contains(seen[i]));
                } else if j < seen.len() {
                    assert(seen.contains(seen[j]));
                }
            }
        }
        lemma_remove_duplicates(rest, grown);
        assert forall|k: Seq<char>|
            keys.remove_duplicates(seen).contains(k) <==> seen.contains(k) || keys.contains(
                k,
            ) by {
            if rest.contains(k) {
                let i = choose|i: int| 0 <= i < rest.len() && rest[i] == k;
                assert(keys[i + 1] == k);
            }
            if keys.contains(k) {
                let i = choose|i: int| 0 <= i < keys.len() && keys[i] == k;
                if i > 0 {
                    assert(rest[i - 1] == k);
                }
            }
            if grown.contains(k) && !seen.contains(first) {
                let i = choose|i: int| 0 <= i < grown.len() && grown[i] == k;
                if i < seen.len() {
                    assert(seen[i] == k);
                }
            }
            if seen.contains(k) && !seen.contains(first) {
                let i = choose|i: int| 0 <= i < seen.len() && seen[i] == k;
                assert(grown[i] == k);
            }
            if k == first && !seen.contains(first) {
                assert(grown[seen.len() as int] == first);
            }
        }
    }
}

/// The assets in order are exactly the assets that are present, each once.
pub proof fn lemma_assets_in_order(s: Seq<TransactionView>)
    ensures
        assets_in_order(s).no_duplicates(),
        forall|asset: Seq<char>| assets_in_order(s).contains(asset) <==> asset_present(s, asset),
{
    let column = asset_column(s);
    lemma_distinct(column);
    assert forall|asset: Seq<char>| column.contains(asset) <==> asset_present(s, asset) by {
        if column.contains(asset) {
            let i = choose|i: int| 0 <= i < column.len() && column[i] == asset;
            assert(s[i].asset == asset);
        }
        if asset_present(s, asset) {
            let i = choose|i: int| 0 <= i < s.len() && (#[trigger] s[i]).asset == asset;
            assert(column[i] == asset);
        }
    }
}

/// The tickers in order are exactly the members of the ticker set, each once.
pub proof fn lemma_tickers_in_order(s: Seq<TransactionView>)
    ensures
        tickers_in_order(s).no_duplicates(),
        tickers_in_order(s).to_set() == ticker_set(s),
        tickers_in_order(s).len() == ticker_set(s).len(),
{
    lemma_distinct(ticker_column(s));
}

} // verus!
