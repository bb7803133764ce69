use duxnet::community_fund::{
    fund_state_text, logged_timestamp, CommunityFundManager, LoggedTransaction, DISTRIBUTION_INTERVAL_SECONDS,
};
use duxnet::dht::Dht;
use duxnet::error::{CoreError, ErrorKind};
use duxnet::types::{CommunityFund, Currency, NodeId};

fn node() -> Dht {
    Dht::new(NodeId("test-node".to_string()))
}

#[test]
fn test_tax_calculation() {
    let cf_manager = CommunityFundManager::new();

    assert_eq!(cf_manager.calculate_tax_amount(100), 5);
    assert_eq!(cf_manager.calculate_tax_amount(1000), 50);
    assert_eq!(cf_manager.calculate_tax_amount(10000), 500);
}

#[test]
fn test_add_tax_to_fund() {
    let mut dht = node();
    let mut cf_manager = CommunityFundManager::new();

    cf_manager.add_tax_to_fund(&mut dht, Currency::BTC, 1000000).unwrap();

    let balance = cf_manager.get_fund_balance(&Currency::BTC);
    assert_eq!(balance, 1000000);

    cf_manager.add_tax_to_fund(&mut dht, Currency::BTC, 500000).unwrap();
    let balance = cf_manager.get_fund_balance(&Currency::BTC);
    assert_eq!(balance, 1500000);
}

#[test]
fn test_should_distribute() {
    let mut dht = node();
    let mut cf_manager = CommunityFundManager::new();

    assert!(!cf_manager.should_distribute(&dht, &Currency::BTC));

    cf_manager.add_tax_to_fund(&mut dht, Currency::BTC, 1000000).unwrap();

    assert!(!cf_manager.should_distribute(&dht, &Currency::BTC));
}

#[test]
fn test_get_stats() {
    let mut dht = node();
    let mut cf_manager = CommunityFundManager::new();

    cf_manager.add_tax_to_fund(&mut dht, Currency::BTC, 1000000).unwrap();
    cf_manager.add_tax_to_fund(&mut dht, Currency::USDC, 5000000).unwrap();

    let stats = cf_manager.get_stats();

    assert_eq!(stats.currencies.len(), 6);

    let btc_currency = stats.currencies.iter().find(|c| c.currency == "BTC").unwrap();
    let usdc_currency = stats.currencies.iter().find(|c| c.currency == "USDC").unwrap();

    assert_eq!(btc_currency.balance, 1000000);
    assert_eq!(usdc_currency.balance, 5000000);
}

#[test]
fn tax_is_five_percent_rounded_down() {
    let m = CommunityFundManager::new();
    assert_eq!(m.calculate_tax_amount(0), 0);
    assert_eq!(m.calculate_tax_amount(19), 0);
    assert_eq!(m.calculate_tax_amount(20), 1);
    assert_eq!(m.calculate_tax_amount(39), 1);
    assert_eq!(m.calculate_tax_amount(199), 9);
    assert_eq!(m.calculate_tax_amount(u64::MAX), u64::MAX / 20);
}

#[test]
fn add_tax_writes_the_balance_to_the_store() {
    let mut dht = node();
    let mut m = CommunityFundManager::new();
    m.add_tax_to_fund_at(&mut dht, Currency::ETH, 1234, 50).unwrap();
    assert_eq!(dht.get("community_fund_balance_ETH", 50), Some(b"1234".to_vec()));
    assert_eq!(dht.get("community_fund_balance_ETH", 50 + 86399), Some(b"1234".to_vec()));
    assert_eq!(dht.get("community_fund_balance_ETH", 50 + 86400), None);
    assert_eq!(dht.get("community_fund_balance_BTC", 50), None);
    assert_eq!(
        String::from_utf8(dht.get("community_fund_state_ETH", 50).unwrap()).unwrap(),
        "{\"currency\":\"ETH\",\"balance\":1234,\"last_distribution\":0,\"total_distributed\":0,\"distribution_count\":0}"
    );
    assert_eq!(dht.get("community_fund_state_ETH", 50 + 86400), None);
    assert_eq!(dht.get_stats().total_entries, 2);
}

#[test]
fn add_tax_to_a_currency_without_fund_changes_nothing() {
    let mut dht = node();
    let mut m = CommunityFundManager::new();
    let before = m.get_all_fund_balances();
    let r = m.add_tax_to_fund_at(&mut dht, Currency::DUX, 10, 1);
    assert_eq!(r, Err(CoreError::FundNotFound));
    assert_eq!(r.unwrap_err().kind(), ErrorKind::NotFound);
    assert_eq!(m.add_tax_to_fund(&mut dht, Currency::DUX, 0), Err(CoreError::FundNotFound));
    assert_eq!(m.get_fund_balance(&Currency::DUX), 0);
    assert_eq!(m.get_all_fund_balances(), before);
    assert_eq!(dht.get_stats().total_entries, 0);
}

#[test]
fn a_credited_tax_survives_a_restart() {
    let mut dht = node();
    let mut m1 = CommunityFundManager::new();
    m1.add_tax_to_fund_at(&mut dht, Currency::LTC, 700, 10).unwrap();
    m1.add_tax_to_fund_at(&mut dht, Currency::LTC, 5, 20).unwrap();
    let fund = m1.get_all_fund_balances()[3];
    assert_eq!(fund.currency, Currency::LTC);
    assert_eq!(fund.balance, 705);

    let m2 = CommunityFundManager::new();
    let stored = String::from_utf8(m2.stored_fund_state(&dht, &Currency::LTC, 30).unwrap()).unwrap();
    assert_eq!(
        stored,
        "{\"currency\":\"LTC\",\"balance\":705,\"last_distribution\":0,\"total_distributed\":0,\"distribution_count\":0}"
    );
    assert_eq!(stored, fund_state_text(&fund));
    let value: serde_json::Value = serde_json::from_str(&stored).unwrap();
    let mut m2 = m2;
    m2.load_fund_state(CommunityFund {
        currency: Currency::from_symbol(value["currency"].as_str().unwrap()).unwrap(),
        balance: value["balance"].as_u64().unwrap(),
        last_distribution: value["last_distribution"].as_u64().unwrap(),
        total_distributed: value["total_distributed"].as_u64().unwrap(),
        distribution_count: value["distribution_count"].as_u64().unwrap(),
    });
    assert_eq!(m2.get_fund_balance(&Currency::LTC), fund.balance);
    assert_eq!(m2.get_all_fund_balances(), m1.get_all_fund_balances());
    assert_eq!(m2.stored_fund_state(&dht, &Currency::LTC, 20 + 86_400), None);
    assert_eq!(m2.stored_fund_state(&dht, &Currency::BTC, 30), None);
}

#[test]
fn the_wait_counts_from_the_last_distribution() {
    let mut m = CommunityFundManager::new();
    m.load_fund_state(CommunityFund {
        currency: Currency::BTC,
        balance: 1,
        last_distribution: 100_000,
        total_distributed: 0,
        distribution_count: 1,
    });
    let wait = |now: u64| m.get_stats_at(now).currencies[0].next_distribution;
    assert_eq!(wait(100_000), 43_200);
    assert_eq!(wait(100_001), 43_199);
    assert_eq!(wait(143_199), 1);
    assert_eq!(wait(143_200), 0);
    assert_eq!(wait(500_000), 0);
    assert_eq!(wait(99_000), 44_200);
    assert_eq!(wait(0), 143_200);
    m.load_fund_state(CommunityFund {
        currency: Currency::ETH,
        balance: 1,
        last_distribution: u64::MAX,
        total_distributed: 0,
        distribution_count: 1,
    });
    assert_eq!(m.get_stats_at(0).currencies[1].next_distribution, u64::MAX);
    assert_eq!(m.get_stats_at(u64::MAX).currencies[1].next_distribution, 43_200);
    assert_eq!(m.get_stats_at(50_000).next_distribution_in, 0);
    assert_eq!(m.get_stats_at(0).next_distribution_in, 43_200);
}

#[test]
fn the_time_of_a_logged_transaction_is_read_from_its_key() {
    assert_eq!(logged_timestamp("community_fund_tx_cf-dist-btc-did-duxnet-A-44201"), Some(44_201));
    assert_eq!(logged_timestamp("community_fund_tx_cf-dist-btc-a-0"), Some(0));
    assert_eq!(logged_timestamp("community_fund_tx_cf-dist-btc-a-007"), Some(7));
    assert_eq!(logged_timestamp("community_fund_tx_cf-dist-btc-a-18446744073709551615"), Some(u64::MAX));
    assert_eq!(logged_timestamp("community_fund_tx_cf-dist-btc-a-18446744073709551616"), None);
    assert_eq!(logged_timestamp("community_fund_tx_cf-dist-btc-a-"), None);
    assert_eq!(logged_timestamp("community_fund_tx_cf-dist-btc-a-12x"), None);
    assert_eq!(logged_timestamp("community_fund_tx_cf-dist-btc-a-+12"), None);
    assert_eq!(logged_timestamp("12345"), Some(12_345));
    assert_eq!(logged_timestamp(""), None);
    let mut dht = node();
    let mut m = CommunityFundManager::new();
    m.add_tax_to_fund_at(&mut dht, Currency::BTC, 100, 0).unwrap();
    dht.heartbeat("did:duxnet:A", 50_000);
    m.distribute_fund_at(&mut dht, Currency::BTC, 50_000).unwrap();
    let logged = m.logged_transactions(&dht, &Currency::BTC, 50_000);
    assert_eq!(logged_timestamp(&logged[0].0), Some(50_000));
}

#[test]
fn add_tax_that_does_not_fit_is_refused() {
    let mut dht = node();
    let mut m = CommunityFundManager::new();
    m.add_tax_to_fund_at(&mut dht, Currency::BTC, u64::MAX, 1).unwrap();
    let r = m.add_tax_to_fund_at(&mut dht, Currency::BTC, 1, 2);
    assert_eq!(r, Err(CoreError::BalanceOverflow));
    assert_eq!(r.unwrap_err().kind(), ErrorKind::Precondition);
    assert_eq!(m.get_fund_balance(&Currency::BTC), u64::MAX);
}

#[test]
fn tax_then_distribute() {
    let mut dht = node();
    let mut m = CommunityFundManager::new();
    m.add_tax_to_fund_at(&mut dht, Currency::BTC, 10_000, 1_000).unwrap();
    let now = 1_000 + 12 * 3600 + 1;
    dht.heartbeat("did:duxnet:A", now - 10);
    dht.heartbeat("did:duxnet:B", now - 5);
    assert!(m.should_distribute_at(&dht, &Currency::BTC, now));

    let d = m.distribute_fund_at(&mut dht, Currency::BTC, now).unwrap();
    assert_eq!(d.currency, Currency::BTC);
    assert_eq!(d.amount_per_user, 5000);
    assert_eq!(d.total_users, 2);
    assert_eq!(d.distribution_timestamp, now);
    assert_eq!(
        d.transaction_ids,
        vec![format!("cf-dist-btc-did-duxnet-A-{}", now), format!("cf-dist-btc-did-duxnet-B-{}", now)]
    );

    let fund = m.get_all_fund_balances()[0];
    assert_eq!(
        fund,
        CommunityFund {
            currency: Currency::BTC,
            balance: 0,
            last_distribution: now,
            total_distributed: 10_000,
            distribution_count: 1
        }
    );

    let logged = dht.list_by_prefix("community_fund_tx_", now);
    assert_eq!(logged.len(), 2);
    assert_eq!(logged[0].0, format!("community_fund_tx_cf-dist-btc-did-duxnet-A-{}", now));
    assert_eq!(
        String::from_utf8(logged[0].1.clone()).unwrap(),
        "{\"currency\":\"BTC\",\"recipient_did\":\"did:duxnet:A\",\"amount\":5000}"
    );
    assert_eq!(
        String::from_utf8(dht.get("community_fund_state_BTC", now).unwrap()).unwrap(),
        format!(
            "{{\"currency\":\"BTC\",\"balance\":0,\"last_distribution\":{},\"total_distributed\":10000,\"distribution_count\":1}}",
            now
        )
    );
}

#[test]
fn distribution_keeps_the_remainder() {
    let mut dht = node();
    let mut m = CommunityFundManager::new();
    m.add_tax_to_fund_at(&mut dht, Currency::LTC, 10, 0).unwrap();
    let now = DISTRIBUTION_INTERVAL_SECONDS;
    dht.heartbeat("a", now);
    dht.heartbeat("b", now);
    dht.heartbeat("c", now);
    let d = m.distribute_fund_at(&mut dht, Currency::LTC, now).unwrap();
    assert_eq!(d.amount_per_user, 3);
    assert_eq!(d.total_users, 3);
    assert_eq!(m.get_fund_balance(&Currency::LTC), 1);
}

#[test]
fn distribution_without_recipients_is_refused() {
    let mut dht = node();
    let mut m = CommunityFundManager::new();
    m.add_tax_to_fund_at(&mut dht, Currency::BTC, 10_000, 0).unwrap();
    let before = m.get_all_fund_balances();
    let r = m.distribute_fund_at(&mut dht, Currency::BTC, 50_000);
    assert_eq!(r, Err(CoreError::NoRecipients));
    assert_eq!(CoreError::NoRecipients.kind(), ErrorKind::Precondition);
    assert_eq!(CoreError::NoRecipients.message(), "no-recipients");
    assert_eq!(m.get_all_fund_balances(), before);
}

#[test]
fn distribution_with_too_little_is_refused() {
    let mut dht = node();
    let mut m = CommunityFundManager::new();
    m.add_tax_to_fund_at(&mut dht, Currency::BTC, 1, 0).unwrap();
    dht.heartbeat("a", 50_000);
    dht.heartbeat("b", 50_000);
    let before = m.get_all_fund_balances();
    let r = m.distribute_fund_at(&mut dht, Currency::BTC, 50_000);
    assert_eq!(r, Err(CoreError::InsufficientBalance));
    assert_eq!(CoreError::InsufficientBalance.message(), "insufficient-balance");
    assert_eq!(m.get_all_fund_balances(), before);
    assert!(dht.list_by_prefix("community_fund_tx_", 50_000).is_empty());
    assert!(!m.should_distribute_at(&dht, &Currency::BTC, 50_000));
}

#[test]
fn distribution_before_the_interval_is_refused() {
    let mut dht = node();
    let mut m = CommunityFundManager::new();
    m.add_tax_to_fund_at(&mut dht, Currency::BTC, 100, 0).unwrap();
    dht.heartbeat("a", 10);
    assert_eq!(m.distribute_fund_at(&mut dht, Currency::BTC, DISTRIBUTION_INTERVAL_SECONDS - 1), Err(CoreError::NotDue));
    assert!(!m.should_distribute_at(&dht, &Currency::BTC, DISTRIBUTION_INTERVAL_SECONDS - 1));
    assert!(m.distribute_fund_at(&mut dht, Currency::BTC, DISTRIBUTION_INTERVAL_SECONDS).is_ok());
    assert_eq!(
        m.distribute_fund_at(&mut dht, Currency::BTC, DISTRIBUTION_INTERVAL_SECONDS + 1),
        Err(CoreError::NotDue)
    );
}

#[test]
fn distribution_of_a_currency_without_fund_is_refused() {
    let mut dht = node();
    let mut m = CommunityFundManager::new();
    dht.heartbeat("a", 50_000);
    let r = m.distribute_fund_at(&mut dht, Currency::DUX, 50_000);
    assert_eq!(r, Err(CoreError::FundNotFound));
    assert_eq!(CoreError::FundNotFound.kind(), ErrorKind::NotFound);
}

#[test]
fn recipients_whose_identifiers_collide_are_paid_once() {
    let mut dht = node();
    let mut m = CommunityFundManager::new();
    m.add_tax_to_fund_at(&mut dht, Currency::XMR, 100, 0).unwrap();
    dht.heartbeat("x:y", 50_000);
    dht.heartbeat("x-y", 50_000);
    let d = m.distribute_fund_at(&mut dht, Currency::XMR, 50_000).unwrap();
    assert_eq!(d.amount_per_user, 50);
    assert_eq!(d.total_users, 1);
    assert_eq!(d.transaction_ids, vec!["cf-dist-xmr-x-y-50000".to_string()]);
    assert_eq!(m.get_fund_balance(&Currency::XMR), 50);
}

#[test]
fn distribution_that_records_nothing_fails() {
    let mut dht = node();
    let mut m = CommunityFundManager::new();
    m.add_tax_to_fund_at(&mut dht, Currency::XMR, 100, 0).unwrap();
    dht.heartbeat("x", 50_000);
    dht.store("community_fund_tx_cf-dist-xmr-x-50000".to_string(), b"taken".to_vec(), 100, 50_000);
    let before = m.get_all_fund_balances();
    let r = m.distribute_fund_at(&mut dht, Currency::XMR, 50_000);
    assert_eq!(r, Err(CoreError::NothingRecorded));
    assert_eq!(CoreError::NothingRecorded.kind(), ErrorKind::External);
    assert!(CoreError::NothingRecorded.is_retryable());
    assert_eq!(m.get_all_fund_balances(), before);
}

#[test]
fn stats_report_each_fund() {
    let mut dht = node();
    let mut m = CommunityFundManager::new();
    m.add_tax_to_fund_at(&mut dht, Currency::BTC, 70, 0).unwrap();
    dht.heartbeat("a", 43_200);
    m.distribute_fund_at(&mut dht, Currency::BTC, 43_200).unwrap();
    m.add_tax_to_fund_at(&mut dht, Currency::BTC, 5, 43_300).unwrap();
    let stats = m.get_stats_at(43_300);
    assert_eq!(stats.currencies.len(), 6);
    assert_eq!(stats.currencies[0].currency, "BTC");
    assert_eq!(stats.currencies[0].balance, 5);
    assert_eq!(stats.currencies[0].formatted_balance, "5 BTC");
    assert_eq!(stats.currencies[0].last_distribution, 43_200);
    assert_eq!(stats.currencies[0].next_distribution, 43_100);
    assert_eq!(stats.currencies[0].total_distributed, 70);
    assert_eq!(stats.currencies[0].distribution_count, 1);
    assert_eq!(stats.currencies[1].currency, "ETH");
    assert_eq!(stats.currencies[1].next_distribution, 0);
    assert_eq!(stats.next_distribution_in, 0);
    assert_eq!(stats.total_distributed_all_time, 70);
}

#[test]
fn loading_a_fund_state_replaces_the_fund() {
    let mut m = CommunityFundManager::new();
    let stored = CommunityFund {
        currency: Currency::DOGE,
        balance: 9,
        last_distribution: 8,
        total_distributed: 7,
        distribution_count: 6,
    };
    m.load_all_fund_states(&vec![stored]);
    assert_eq!(m.get_fund_balance(&Currency::DOGE), 9);
    assert_eq!(m.get_all_fund_balances().len(), 6);
    assert_eq!(m.get_all_fund_balances()[5], stored);
    let native = CommunityFund { currency: Currency::DUX, ..stored };
    m.load_fund_state(native);
    assert_eq!(m.get_all_fund_balances().len(), 7);
    assert_eq!(m.get_fund_balance(&Currency::DUX), 9);
}

#[test]
fn a_fund_is_reconciled_with_the_log() {
    let mut dht = node();
    let mut m = CommunityFundManager::new();
    m.add_tax_to_fund_at(&mut dht, Currency::BTC, 100, 0).unwrap();
    m.load_fund_state(CommunityFund {
        currency: Currency::BTC,
        balance: 100,
        last_distribution: 50,
        total_distributed: 7,
        distribution_count: 1,
    });
    let logged = vec![
        LoggedTransaction { timestamp: 50, amount: 1_000 },
        LoggedTransaction { timestamp: 60, amount: 30 },
        LoggedTransaction { timestamp: 10, amount: 1_000 },
        LoggedTransaction { timestamp: 60, amount: 30 },
    ];
    assert_eq!(m.reconcile(&mut dht, Currency::BTC, &logged, 70), Ok(60));
    let fund = m.get_all_fund_balances()[0];
    assert_eq!(
        fund,
        CommunityFund {
            currency: Currency::BTC,
            balance: 40,
            last_distribution: 60,
            total_distributed: 67,
            distribution_count: 2
        }
    );
    assert_eq!(
        String::from_utf8(m.stored_fund_state(&dht, &Currency::BTC, 70).unwrap()).unwrap(),
        fund_state_text(&fund)
    );
    assert_eq!(m.reconcile(&mut dht, Currency::BTC, &logged, 80), Ok(0));
    assert_eq!(m.get_all_fund_balances()[0], fund);
    assert_eq!(m.reconcile(&mut dht, Currency::DUX, &logged, 80), Err(CoreError::FundNotFound));
    let more = vec![LoggedTransaction { timestamp: 61, amount: 1_000 }];
    assert_eq!(m.reconcile(&mut dht, Currency::BTC, &more, 90), Ok(1_000));
    assert_eq!(m.get_fund_balance(&Currency::BTC), 0);
}

#[test]
fn the_log_of_a_currency_is_listed() {
    let mut dht = node();
    let mut m = CommunityFundManager::new();
    m.add_tax_to_fund_at(&mut dht, Currency::BTC, 100, 0).unwrap();
    m.add_tax_to_fund_at(&mut dht, Currency::ETH, 100, 0).unwrap();
    dht.heartbeat("a", 43_200);
    m.distribute_fund_at(&mut dht, Currency::BTC, 43_200).unwrap();
    m.distribute_fund_at(&mut dht, Currency::ETH, 43_200).unwrap();
    let logged = m.logged_transactions(&dht, &Currency::ETH, 43_200);
    assert_eq!(logged.len(), 1);
    assert_eq!(logged[0].0, "community_fund_tx_cf-dist-eth-a-43200");
    assert_eq!(
        String::from_utf8(logged[0].1.clone()).unwrap(),
        "{\"currency\":\"ETH\",\"recipient_did\":\"a\",\"amount\":100}"
    );
}
