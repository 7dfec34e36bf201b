use chrono::Utc;
use portfolio::transaction::Timestamp;
use portfolio::transaction::Transaction;
use portfolio::transaction::TransactionType;
use portfolio::transaction::Transactions;

/// Smallest units in one whole: amounts are written with eight decimals.
const UNITS_PER_WHOLE: f64 = 100_000_000.0;

fn units(amount: f64) -> i64 {
    (amount * UNITS_PER_WHOLE).round() as i64
}

fn whole(units: i128) -> f64 {
    units as f64 / UNITS_PER_WHOLE
}

pub fn new_bitcoin_buy_transaction_exchange_euros(
    asset_quantity: f64,
    currency_quantity: f64,
    currency_fees_quantity: f64,
) -> Transaction {
    let exchange_spot_trading = String::from("exchange-spot-trading");
    let exchange_wallet = String::from("my-exchange-wallet");
    let now = Utc::now();
    let now = Timestamp { seconds: now.timestamp(), nanoseconds: now.timestamp_subsec_nanos() };
    Transaction {
        source: exchange_spot_trading,
        destination: exchange_wallet,
        transaction_type: TransactionType::BUY,
        asset: "bitcoin".to_string(),
        ticker: "BTC-USD".to_string(),
        asset_quantity: units(asset_quantity),
        currency: "euros".to_string(),
        currency_quantity: units(currency_quantity),
        currency_fees: "euros".to_string(),
        currency_fees_quantity: units(currency_fees_quantity),
        sent_date: now,
        received_date: now,
    }
}

#[test]
fn get_quantity_by_transaction_type_by_asset() {
    let transaction1 = new_bitcoin_buy_transaction_exchange_euros(0.4, 100.0, 2.0);
    let transaction2 = new_bitcoin_buy_transaction_exchange_euros(0.6, 100.0, 2.0);
    let transactions = Transactions {
        transactions: vec![transaction1, transaction2],
    };
    let quantity_by_transaction_type_by_currency =
        transactions.get_quantity_by_transaction_type_by_asset();
    assert_eq!(
        quantity_by_transaction_type_by_currency
            .get("bitcoin")
            .unwrap()
            .get(&TransactionType::BUY),
        Some(&(units(1.0) as i128))
    )
}

#[test]
fn get_total_cost_by_transaction_type_by_currency() {
    let transaction1 = new_bitcoin_buy_transaction_exchange_euros(0.4, 100.0, 2.0);
    let transaction2 = new_bitcoin_buy_transaction_exchange_euros(0.6, 100.0, 2.0);
    let transactions = Transactions {
        transactions: vec![transaction1, transaction2],
    };
    let quantity_by_transaction_type_by_currency =
        transactions.get_total_cost_by_transaction_type_by_currency();
    assert_eq!(
        quantity_by_transaction_type_by_currency
            .get("bitcoin")
            .unwrap()
            .get(&TransactionType::BUY),
        Some(&(units(204.0) as i128))
    )
}

#[test]
fn get_quantity_by_asset() {
    let transaction1 = new_bitcoin_buy_transaction_exchange_euros(1.6, 100.0, 2.0);
    let mut transaction2 = new_bitcoin_buy_transaction_exchange_euros(0.4, 200.0, 2.0);
    transaction2.transaction_type = TransactionType::SELL;
    let transactions = Transactions {
        transactions: vec![transaction1, transaction2],
    };
    let quantity_by_currency = transactions.get_current_quantity_by_asset();

    assert_eq!(
        format!("{:.5}", whole(*quantity_by_currency.get("bitcoin").unwrap())),
        format!("{:.5}", 1.2)
    )
}

#[test]
fn get_assets() {
    let transaction1 = new_bitcoin_buy_transaction_exchange_euros(1.6, 100.0, 3.0);
    let mut transaction2 = new_bitcoin_buy_transaction_exchange_euros(0.4, 200.0, 2.0);
    transaction2.transaction_type = TransactionType::SELL;
    let transactions = Transactions {
        transactions: vec![transaction1, transaction2],
    };
    let assets = transactions.get_assets();
    assert_eq!(*assets.get(0).unwrap(), "bitcoin")
}

#[test]
fn get_tickers() {
    let transaction1 = new_bitcoin_buy_transaction_exchange_euros(1.6, 100.0, 3.0);
    let mut transaction2 = new_bitcoin_buy_transaction_exchange_euros(0.4, 200.0, 2.0);
    transaction2.transaction_type = TransactionType::SELL;
    let transactions = Transactions {
        transactions: vec![transaction1, transaction2],
    };
    let tickers = transactions.get_tickers();
    assert_eq!(tickers.get("BTC-USD").unwrap(), "BTC-USD")
}
