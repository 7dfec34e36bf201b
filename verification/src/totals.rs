//! Totals of one asset by transaction type.

use crate::model::absent_as_zero;
use crate::model::credited;
use crate::model::net_of;
use crate::transaction::Total;
use crate::transaction::TransactionType;
use vstd::prelude::*;

verus! {

/// The totals of one asset, one per transaction type. A type under which the
/// asset never moved holds nothing, which is not the same as a total of zero.
#[derive(Clone, Copy, Debug, PartialEq, Eq)]
pub struct TypeTotals {
    pub buy: Option<Total>,
    pub sell: Option<Total>,
    pub transfer: Option<Total>,
}

impl View for TypeTotals {
    type V = Map<TransactionType, int>;

    open spec fn view(&self) -> Map<TransactionType, int> {
        Map::new(
            |ty: TransactionType| self.slot(ty) is Some,
            |ty: TransactionType| self.slot(ty)->Some_0 as int,
        )
    }
}

impl TypeTotals {
    /// What is held under `ty`.
    pub open spec fn slot(&self, ty: TransactionType) -> Option<Total> {
        match ty {
            TransactionType::BUY => self.buy,
            TransactionType::SELL => self.sell,
            TransactionType::TRANSFER => self.transfer,
        }
    }

    /// Totals that hold nothing under any type.
    pub fn new() -> (r: Self)
        ensures
            r@ == Map::<TransactionType, int>::empty(),
    {
        let r = TypeTotals { buy: None, sell: None, transfer: None };
        assert(r@ =~= Map::<TransactionType, int>::empty());
        r
    }

    /// The total under `ty`, if the asset ever moved under it.
    pub fn get(&self, ty: &TransactionType) -> (r: Option<&Total>)
        ensures
            r is Some <==> self@.contains_key(*ty),
            r is Some ==> *r->Some_0 == self@[*ty],
    {
        match ty {
            TransactionType::BUY => self.buy.as_ref(),
            TransactionType::SELL => self.sell.as_ref(),
            TransactionType::TRANSFER => self.transfer.as_ref(),
        }
    }

    /// The total under `ty`, zero where the asset never moved under it.
    pub fn total(&self, ty: TransactionType) -> (r: Total)
        ensures
            r == absent_as_zero(self@, ty),
    {
        match self.get(&ty) {
            Some(v) => *v,
            None => 0,
        }
    }

    /// These totals with `amount` added under `ty`.
    pub fn credit(&self, ty: TransactionType, amount: Total) -> (r: Self)
        requires
            i128::MIN <= absent_as_zero(self@, ty) + amount <= i128::MAX,
        ensures
            r@ == credited(self@, ty, amount as int),
    {
        let sum: Total = self.total(ty) + amount;
        let r = match ty {
            TransactionType::BUY => TypeTotals { buy: Some(sum), sell: self.sell, transfer: self.transfer },
            TransactionType::SELL => TypeTotals { buy: self.buy, sell: Some(sum), transfer: self.transfer },
            TransactionType::TRANSFER => TypeTotals { buy: self.buy, sell: self.sell, transfer: Some(sum) },
        };
        assert(r@ =~= credited(self@, ty, amount as int));
        r
    }

    /// What was bought less what was sold, a missing total counting as zero.
    pub fn net(&self) -> (r: Total)
        requires
            i128::MIN <= net_of(self@) <= i128::MAX,
        ensures
            r == net_of(self@),
    {
        self.total(TransactionType::BUY) - self.total(TransactionType::SELL)
    }
}

} // verus!
