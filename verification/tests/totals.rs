use portfolio::model::Measure;
use portfolio::totals::TypeTotals;
use portfolio::transaction::Timestamp;
use portfolio::transaction::Transaction;
use portfolio::transaction::TransactionType;

#[test]
fn new_totals_hold_nothing() {
    let totals = TypeTotals::new();
    assert_eq!(totals.get(&TransactionType::BUY), None);
    assert_eq!(totals.get(&TransactionType::SELL), None);
    assert_eq!(totals.get(&TransactionType::TRANSFER), None);
    assert_eq!(totals.total(TransactionType::BUY), 0);
    assert_eq!(totals.net(), 0);
}

#[test]
fn credit_adds_under_one_type_only() {
    let totals = TypeTotals::new()
        .credit(TransactionType::SELL, 40)
        .credit(TransactionType::BUY, 100)
        .credit(TransactionType::SELL, 2);
    assert_eq!(totals.get(&TransactionType::BUY), Some(&100));
    assert_eq!(totals.get(&TransactionType::SELL), Some(&42));
    assert_eq!(totals.get(&TransactionType::TRANSFER), None);
    assert_eq!(totals.total(TransactionType::SELL), 42);
    assert_eq!(totals.total(TransactionType::TRANSFER), 0);
}

#[test]
fn net_leaves_transfers_out() {
    let totals = TypeTotals { buy: Some(160), sell: Some(40), transfer: Some(1_000) };
    assert_eq!(totals.net(), 120);
    let sold_only = TypeTotals { buy: None, sell: Some(40), transfer: None };
    assert_eq!(sold_only.net(), -40);
    let bought_only = TypeTotals { buy: Some(7), sell: None, transfer: None };
    assert_eq!(bought_only.net(), 7);
    let moved_only = TypeTotals { buy: None, sell: None, transfer: Some(5) };
    assert_eq!(moved_only.net(), 0);
}

#[test]
fn a_measure_picks_the_amount_to_sum() {
    let at = Timestamp { seconds: 0, nanoseconds: 0 };
    let transaction = Transaction {
        source: "a".to_string(),
        destination: "b".to_string(),
        transaction_type: TransactionType::BUY,
        ticker: "BTC-USD".to_string(),
        asset: "bitcoin".to_string(),
        asset_quantity: 40,
        currency: "euros".to_string(),
        currency_quantity: 10_000,
        currency_fees: "euros".to_string(),
        currency_fees_quantity: 200,
        sent_date: at,
        received_date: at,
    };
    assert_eq!(Measure::Quantity.of(&transaction), 40);
    assert_eq!(Measure::Cost.of(&transaction), 10_200);
}

#[test]
fn transactions_are_equal_when_every_field_is() {
    let at = Timestamp { seconds: 5, nanoseconds: 6 };
    let transaction = Transaction {
        source: "a".to_string(),
        destination: "b".to_string(),
        transaction_type: TransactionType::SELL,
        ticker: "BTC-USD".to_string(),
        asset: "bitcoin".to_string(),
        asset_quantity: 40,
        currency: "euros".to_string(),
        currency_quantity: 10_000,
        currency_fees: "dollars".to_string(),
        currency_fees_quantity: 200,
        sent_date: at,
        received_date: at,
    };
    assert!(transaction == transaction.clone());
    let mut other = transaction.clone();
    other.source.push('x');
    assert!(transaction != other);
    let mut other = transaction.clone();
    other.destination.push('x');
    assert!(transaction != other);
    let mut other = transaction.clone();
    other.transaction_type = TransactionType::TRANSFER;
    assert!(transaction != other);
    let mut other = transaction.clone();
    other.ticker.push('x');
    assert!(transaction != other);
    let mut other = transaction.clone();
    other.asset.push('x');
    assert!(transaction != other);
    let mut other = transaction.clone();
    other.asset_quantity += 1;
    assert!(transaction != other);
    let mut other = transaction.clone();
    other.currency.push('x');
    assert!(transaction != other);
    let mut other = transaction.clone();
    other.currency_quantity += 1;
    assert!(transaction != other);
    let mut other = transaction.clone();
    other.currency_fees.push('x');
    assert!(transaction != other);
    let mut other = transaction.clone();
    other.currency_fees_quantity += 1;
    assert!(transaction != other);
    let mut other = transaction.clone();
    other.sent_date.seconds += 1;
    assert!(transaction != other);
    let mut other = transaction.clone();
    other.received_date.nanoseconds += 1;
    assert!(transaction != other);
}
