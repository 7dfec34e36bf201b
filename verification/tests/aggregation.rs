use portfolio::keyed::KeyMap;
use portfolio::totals::TypeTotals;
use portfolio::transaction::Timestamp;
use portfolio::transaction::Transaction;
use portfolio::transaction::TransactionType;
use portfolio::transaction::Transactions;
use portfolio::transaction::Wallet;

fn movement(
    transaction_type: TransactionType,
    asset: &str,
    ticker: &str,
    asset_quantity: i64,
    currency_quantity: i64,
    currency_fees_quantity: i64,
) -> Transaction {
    let at = Timestamp { seconds: 1_600_000_000, nanoseconds: 0 };
    Transaction {
        source: "exchange-spot-trading".to_string(),
        destination: "my-exchange-wallet".to_string(),
        transaction_type,
        ticker: ticker.to_string(),
        asset: asset.to_string(),
        asset_quantity,
        currency: "euros".to_string(),
        currency_quantity,
        currency_fees: "euros".to_string(),
        currency_fees_quantity,
        sent_date: at,
        received_date: at,
    }
}

fn buy(asset: &str, ticker: &str, quantity: i64) -> Transaction {
    movement(TransactionType::BUY, asset, ticker, quantity, 10_000, 200)
}

fn sell(asset: &str, ticker: &str, quantity: i64) -> Transaction {
    movement(TransactionType::SELL, asset, ticker, quantity, 10_000, 200)
}

fn transfer(asset: &str, ticker: &str, quantity: i64) -> Transaction {
    movement(TransactionType::TRANSFER, asset, ticker, quantity, 0, 50)
}

fn record(transactions: Vec<Transaction>) -> Transactions {
    Transactions { transactions }
}

fn mixed() -> Vec<Transaction> {
    vec![
        buy("bitcoin", "BTC-USD", 160),
        buy("ethereum", "ETH-USD", 500),
        sell("bitcoin", "BTC-USD", 40),
        transfer("bitcoin", "BTC-EUR", 25),
        sell("ethereum", "ETH-USD", 700),
        buy("bitcoin", "BTC-USD", 5),
        transfer("litecoin", "LTC-USD", 9),
    ]
}

fn keys_of<V>(map: &KeyMap<V>) -> Vec<String> {
    (0..map.len()).map(|i| map.key_at(i).clone()).collect()
}

fn entries_of(map: &KeyMap<TypeTotals>) -> Vec<(String, TypeTotals)> {
    (0..map.len()).map(|i| (map.key_at(i).clone(), *map.value_at(i))).collect()
}

fn sums_of(map: &KeyMap<i128>) -> Vec<(String, i128)> {
    (0..map.len()).map(|i| (map.key_at(i).clone(), *map.value_at(i))).collect()
}

#[test]
fn grouping_combines_transactions_that_are_not_adjacent() {
    let quantities = record(mixed()).get_quantity_by_transaction_type_by_asset();
    let bitcoin = quantities.get("bitcoin").unwrap();
    assert_eq!(bitcoin.get(&TransactionType::BUY), Some(&165));
    assert_eq!(bitcoin.get(&TransactionType::SELL), Some(&40));
    assert_eq!(bitcoin.get(&TransactionType::TRANSFER), Some(&25));
    let ethereum = quantities.get("ethereum").unwrap();
    assert_eq!(ethereum.get(&TransactionType::BUY), Some(&500));
    assert_eq!(ethereum.get(&TransactionType::SELL), Some(&700));
    assert_eq!(quantities.len(), 3);
}

#[test]
fn a_bucket_without_transactions_is_absent() {
    let quantities = record(mixed()).get_quantity_by_transaction_type_by_asset();
    let ethereum = quantities.get("ethereum").unwrap();
    assert_eq!(ethereum.get(&TransactionType::TRANSFER), None);
    let litecoin = quantities.get("litecoin").unwrap();
    assert_eq!(litecoin.get(&TransactionType::BUY), None);
    assert_eq!(litecoin.get(&TransactionType::SELL), None);
    assert_eq!(litecoin.get(&TransactionType::TRANSFER), Some(&9));
    assert!(quantities.get("dogecoin").is_none());
    assert!(!quantities.contains_key("dogecoin"));
}

#[test]
fn a_bucket_that_sums_to_zero_is_present() {
    let transactions = record(vec![buy("bitcoin", "BTC-USD", 7), buy("bitcoin", "BTC-USD", -7)]);
    let quantities = transactions.get_quantity_by_transaction_type_by_asset();
    assert_eq!(quantities.get("bitcoin").unwrap().get(&TransactionType::BUY), Some(&0));
}

#[test]
fn cost_is_currency_plus_fees() {
    let costs = record(mixed()).get_total_cost_by_transaction_type_by_currency();
    let bitcoin = costs.get("bitcoin").unwrap();
    assert_eq!(bitcoin.get(&TransactionType::BUY), Some(&20_400));
    assert_eq!(bitcoin.get(&TransactionType::SELL), Some(&10_200));
    assert_eq!(bitcoin.get(&TransactionType::TRANSFER), Some(&50));
    assert_eq!(costs.get("litecoin").unwrap().get(&TransactionType::TRANSFER), Some(&50));
}

#[test]
fn cost_counts_negative_amounts() {
    let transactions = record(vec![
        movement(TransactionType::BUY, "bitcoin", "BTC-USD", 1, 1_000, -30),
        movement(TransactionType::BUY, "bitcoin", "BTC-USD", 1, -400, 10),
    ]);
    let costs = transactions.get_total_cost_by_transaction_type_by_currency();
    assert_eq!(costs.get("bitcoin").unwrap().get(&TransactionType::BUY), Some(&580));
}

#[test]
fn sums_of_the_largest_amounts_are_exact() {
    let transactions = record(vec![
        movement(TransactionType::BUY, "bitcoin", "BTC-USD", i64::MAX, i64::MAX, i64::MAX),
        movement(TransactionType::BUY, "bitcoin", "BTC-USD", i64::MAX, i64::MAX, i64::MAX),
        movement(TransactionType::SELL, "bitcoin", "BTC-USD", i64::MIN, i64::MIN, i64::MIN),
    ]);
    let quantities = transactions.get_quantity_by_transaction_type_by_asset();
    let costs = transactions.get_total_cost_by_transaction_type_by_currency();
    let net = transactions.get_current_quantity_by_asset();
    let largest = i64::MAX as i128;
    let smallest = i64::MIN as i128;
    assert_eq!(quantities.get("bitcoin").unwrap().get(&TransactionType::BUY), Some(&(2 * largest)));
    assert_eq!(costs.get("bitcoin").unwrap().get(&TransactionType::BUY), Some(&(4 * largest)));
    assert_eq!(costs.get("bitcoin").unwrap().get(&TransactionType::SELL), Some(&(2 * smallest)));
    assert_eq!(net.get("bitcoin"), Some(&(2 * largest - smallest)));
}

#[test]
fn net_quantity_is_bought_less_sold() {
    let net = record(mixed()).get_current_quantity_by_asset();
    assert_eq!(net.get("bitcoin"), Some(&125));
    assert_eq!(net.get("ethereum"), Some(&-200));
    assert_eq!(net.get("litecoin"), Some(&0));
    assert_eq!(net.get("dogecoin"), None);
    assert_eq!(net.len(), 3);
}

#[test]
fn net_quantity_agrees_with_the_grouped_quantities() {
    let transactions = record(mixed());
    let quantities = transactions.get_quantity_by_transaction_type_by_asset();
    let net = transactions.get_current_quantity_by_asset();
    assert_eq!(keys_of(&quantities), keys_of(&net));
    for i in 0..quantities.len() {
        let totals = quantities.value_at(i);
        let bought = totals.get(&TransactionType::BUY).copied().unwrap_or(0);
        let sold = totals.get(&TransactionType::SELL).copied().unwrap_or(0);
        assert_eq!(*net.value_at(i), bought - sold);
    }
}

#[test]
fn an_asset_that_was_only_sold_has_a_negative_net_quantity() {
    let transactions = record(vec![sell("ethereum", "ETH-USD", 50_000_000)]);
    let net = transactions.get_current_quantity_by_asset();
    assert_eq!(net.get("ethereum"), Some(&-50_000_000));
    assert!(transactions.get_assets().is_empty());
}

#[test]
fn an_asset_that_was_only_bought_keeps_all_of_it() {
    let transactions = record(vec![buy("ethereum", "ETH-USD", 3)]);
    assert_eq!(transactions.get_current_quantity_by_asset().get("ethereum"), Some(&3));
    assert_eq!(transactions.get_assets(), vec!["ethereum".to_string()]);
}

#[test]
fn an_asset_that_was_only_transferred_nets_to_zero() {
    let transactions = record(vec![transfer("litecoin", "LTC-USD", 9)]);
    assert_eq!(transactions.get_current_quantity_by_asset().get("litecoin"), Some(&0));
    assert!(transactions.get_assets().is_empty());
}

#[test]
fn held_assets_are_those_with_a_positive_net_quantity() {
    let transactions = record(mixed());
    assert_eq!(transactions.get_assets(), vec!["bitcoin".to_string()]);
    let net = transactions.get_current_quantity_by_asset();
    let held = transactions.get_assets();
    for i in 0..net.len() {
        assert_eq!(held.contains(net.key_at(i)), *net.value_at(i) > 0);
    }
}

#[test]
fn an_asset_sold_out_is_not_held() {
    let transactions = record(vec![buy("bitcoin", "BTC-USD", 40), sell("bitcoin", "BTC-USD", 40)]);
    assert_eq!(transactions.get_current_quantity_by_asset().get("bitcoin"), Some(&0));
    assert!(transactions.get_assets().is_empty());
}

#[test]
fn held_assets_come_in_the_order_of_first_occurrence() {
    let transactions = record(vec![
        buy("zcash", "ZEC-USD", 1),
        buy("bitcoin", "BTC-USD", 1),
        sell("monero", "XMR-USD", 1),
        buy("zcash", "ZEC-USD", 1),
        buy("ethereum", "ETH-USD", 1),
    ]);
    assert_eq!(
        transactions.get_assets(),
        vec!["zcash".to_string(), "bitcoin".to_string(), "ethereum".to_string()]
    );
    assert_eq!(
        keys_of(&transactions.get_current_quantity_by_asset()),
        vec!["zcash".to_string(), "bitcoin".to_string(), "monero".to_string(), "ethereum".to_string()]
    );
}

#[test]
fn tickers_collapse_duplicates() {
    let transactions = record(vec![
        buy("bitcoin", "BTC-USD", 1),
        sell("bitcoin", "BTC-USD", 1),
        buy("ethereum", "ETH-USD", 1),
    ]);
    let tickers = transactions.get_tickers();
    assert_eq!(tickers.len(), 2);
    assert!(tickers.contains("BTC-USD"));
    assert!(tickers.contains("ETH-USD"));
    assert!(!tickers.contains("LTC-USD"));
    assert_eq!(tickers.item(0), "BTC-USD");
    assert_eq!(tickers.item(1), "ETH-USD");
}

#[test]
fn tickers_are_counted_by_value_not_by_asset() {
    let tickers = record(mixed()).get_tickers();
    assert_eq!(tickers.len(), 4);
    assert!(tickers.contains("BTC-USD"));
    assert!(tickers.contains("BTC-EUR"));
    assert!(tickers.contains("ETH-USD"));
    assert!(tickers.contains("LTC-USD"));
}

#[test]
fn an_empty_record_gives_empty_results() {
    let transactions = record(vec![]);
    assert_eq!(transactions.get_quantity_by_transaction_type_by_asset().len(), 0);
    assert_eq!(transactions.get_total_cost_by_transaction_type_by_currency().len(), 0);
    assert_eq!(transactions.get_current_quantity_by_asset().len(), 0);
    assert!(transactions.get_assets().is_empty());
    assert_eq!(transactions.get_tickers().len(), 0);
    let wallet = Wallet::new(record(vec![]));
    assert_eq!(wallet.quantity_by_transaction_type_by_currency.len(), 0);
    assert_eq!(wallet.tickers.len(), 0);
    assert!(wallet.assets.is_empty());
}

#[test]
fn results_do_not_depend_on_the_order_of_the_record() {
    let forward = record(mixed());
    let mut turned = mixed();
    turned.reverse();
    turned.swap(1, 4);
    let backward = record(turned);
    let quantities = forward.get_quantity_by_transaction_type_by_asset();
    let other_quantities = backward.get_quantity_by_transaction_type_by_asset();
    let costs = forward.get_total_cost_by_transaction_type_by_currency();
    let other_costs = backward.get_total_cost_by_transaction_type_by_currency();
    let net = forward.get_current_quantity_by_asset();
    let other_net = backward.get_current_quantity_by_asset();
    assert_eq!(quantities.len(), other_quantities.len());
    assert_eq!(costs.len(), other_costs.len());
    assert_eq!(net.len(), other_net.len());
    for (asset, totals) in entries_of(&quantities) {
        assert_eq!(other_quantities.get(&asset), Some(&totals));
    }
    for (asset, totals) in entries_of(&costs) {
        assert_eq!(other_costs.get(&asset), Some(&totals));
    }
    for (asset, sum) in sums_of(&net) {
        assert_eq!(other_net.get(&asset), Some(&sum));
    }
    let mut held = forward.get_assets();
    let mut other_held = backward.get_assets();
    held.sort();
    other_held.sort();
    assert_eq!(held, other_held);
    let tickers = forward.get_tickers();
    let other_tickers = backward.get_tickers();
    assert_eq!(tickers.len(), other_tickers.len());
    for i in 0..tickers.len() {
        assert!(other_tickers.contains(tickers.item(i)));
    }
}

#[test]
fn a_wallet_holds_the_result_of_each_query() {
    let transactions = record(mixed());
    let wallet = Wallet::new(transactions.clone());
    assert_eq!(
        entries_of(&wallet.quantity_by_transaction_type_by_currency),
        entries_of(&transactions.get_quantity_by_transaction_type_by_asset())
    );
    assert_eq!(
        entries_of(&wallet.total_cost_by_transaction_type_by_currency),
        entries_of(&transactions.get_total_cost_by_transaction_type_by_currency())
    );
    assert_eq!(
        sums_of(&wallet.current_quantity_by_currency),
        sums_of(&transactions.get_current_quantity_by_asset())
    );
    assert_eq!(wallet.assets, transactions.get_assets());
    assert_eq!(wallet.tickers.len(), 4);
    assert_eq!(wallet.tickers.item(0), "BTC-USD");
    assert_eq!(wallet.tickers.item(1), "ETH-USD");
    assert_eq!(wallet.tickers.item(2), "BTC-EUR");
    assert_eq!(wallet.tickers.item(3), "LTC-USD");
}

#[test]
fn a_wallet_computed_twice_is_the_same() {
    let first = Wallet::new(record(mixed()));
    let second = Wallet::new(record(mixed()));
    assert_eq!(
        entries_of(&first.quantity_by_transaction_type_by_currency),
        entries_of(&second.quantity_by_transaction_type_by_currency)
    );
    assert_eq!(
        entries_of(&first.total_cost_by_transaction_type_by_currency),
        entries_of(&second.total_cost_by_transaction_type_by_currency)
    );
    assert_eq!(
        sums_of(&first.current_quantity_by_currency),
        sums_of(&second.current_quantity_by_currency)
    );
    assert_eq!(first.assets, second.assets);
    assert_eq!(first.tickers.len(), second.tickers.len());
    for i in 0..first.tickers.len() {
        assert_eq!(first.tickers.item(i), second.tickers.item(i));
    }
    let copy = first.clone();
    assert_eq!(
        entries_of(&copy.quantity_by_transaction_type_by_currency),
        entries_of(&first.quantity_by_transaction_type_by_currency)
    );
    assert_eq!(copy.assets, first.assets);
}

#[test]
fn assets_are_told_apart_by_every_character() {
    let transactions = record(vec![
        buy("bitcoin", "BTC-USD", 1),
        buy("Bitcoin", "BTC-USD", 2),
        buy("bitcoin ", "BTC-USD", 4),
        buy("", "BTC-USD", 8),
        buy("bitcøin", "BTC-USD", 16),
        buy("bitcoin", "BTC-USD", 32),
    ]);
    let quantities = transactions.get_quantity_by_transaction_type_by_asset();
    assert_eq!(quantities.len(), 5);
    assert_eq!(quantities.get("bitcoin").unwrap().get(&TransactionType::BUY), Some(&33));
    assert_eq!(quantities.get("Bitcoin").unwrap().get(&TransactionType::BUY), Some(&2));
    assert_eq!(quantities.get("bitcoin ").unwrap().get(&TransactionType::BUY), Some(&4));
    assert_eq!(quantities.get("").unwrap().get(&TransactionType::BUY), Some(&8));
    assert_eq!(quantities.get("bitcøin").unwrap().get(&TransactionType::BUY), Some(&16));
}
