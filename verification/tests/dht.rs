use duxnet::dht::{Dht, DhtStats, PeerInfo, ACTIVITY_WINDOW_SECONDS};
use duxnet::types::{Currency, NodeId};

fn node() -> Dht {
    Dht::new(NodeId("did:duxnet:local".to_string()))
}

#[test]
fn store_then_get_within_ttl() {
    let mut dht = node();
    dht.store("k".to_string(), b"v".to_vec(), 10, 100);
    assert_eq!(dht.get("k", 100), Some(b"v".to_vec()));
    assert_eq!(dht.get("k", 109), Some(b"v".to_vec()));
    assert_eq!(dht.get("k", 110), None);
    assert_eq!(dht.get("other", 100), None);
}

#[test]
fn ttl_eviction() {
    let mut dht = node();
    dht.store("k".to_string(), b"v".to_vec(), 1, 1_000);
    assert_eq!(dht.get("k", 1_000), Some(b"v".to_vec()));
    assert_eq!(dht.get("k", 1_001), None);
    assert_eq!(dht.get_stats().total_entries, 1);
    assert_eq!(dht.sweep(1_001), 1);
    assert_eq!(dht.get_stats().total_entries, 0);
}

#[test]
fn a_clock_that_runs_backwards_expires_nothing() {
    let mut dht = node();
    dht.store("k".to_string(), b"v".to_vec(), 1, 1_000);
    assert_eq!(dht.get("k", 10), Some(b"v".to_vec()));
    dht.store("z".to_string(), b"v".to_vec(), 0, 1_000);
    assert_eq!(dht.get("z", 1_000), None);
    assert_eq!(dht.get("z", 10), None);
}

#[test]
fn store_overwrites_and_resets_the_ttl() {
    let mut dht = node();
    dht.store("k".to_string(), b"old".to_vec(), 5, 0);
    dht.store("k".to_string(), b"new".to_vec(), 5, 4);
    assert_eq!(dht.get("k", 8), Some(b"new".to_vec()));
    assert_eq!(dht.get("k", 9), None);
    assert_eq!(dht.get_stats().total_entries, 1);
}

#[test]
fn delete_removes_the_entry() {
    let mut dht = node();
    dht.store("a".to_string(), b"1".to_vec(), 5, 0);
    dht.store("b".to_string(), b"2".to_vec(), 5, 0);
    assert!(dht.delete("a"));
    assert!(!dht.delete("a"));
    assert_eq!(dht.get("a", 0), None);
    assert_eq!(dht.get("b", 0), Some(b"2".to_vec()));
}

#[test]
fn list_by_prefix_skips_expired_entries_and_keeps_store_order() {
    let mut dht = node();
    dht.store("service:b".to_string(), b"2".to_vec(), 100, 0);
    dht.store("escrow:x".to_string(), b"9".to_vec(), 100, 0);
    dht.store("service:a".to_string(), b"1".to_vec(), 100, 0);
    dht.store("service:old".to_string(), b"0".to_vec(), 10, 0);
    dht.store("servic".to_string(), b"-".to_vec(), 100, 0);
    assert_eq!(
        dht.list_by_prefix("service:", 50),
        vec![("service:b".to_string(), b"2".to_vec()), ("service:a".to_string(), b"1".to_vec())]
    );
    assert_eq!(dht.list_by_prefix("service:", 5).len(), 3);
    assert_eq!(dht.list_by_prefix("", 50).len(), 4);
    assert!(dht.list_by_prefix("task:", 50).is_empty());
}

#[test]
fn sweep_removes_only_expired_entries() {
    let mut dht = node();
    dht.store("a".to_string(), b"1".to_vec(), 10, 0);
    dht.store("b".to_string(), b"2".to_vec(), 20, 0);
    dht.store("c".to_string(), b"3".to_vec(), 10, 5);
    assert_eq!(dht.sweep(9), 0);
    assert_eq!(dht.sweep(12), 1);
    assert_eq!(
        dht.list_by_prefix("", 12),
        vec![("b".to_string(), b"2".to_vec()), ("c".to_string(), b"3".to_vec())]
    );
    assert_eq!(dht.sweep(100), 2);
    assert_eq!(dht.get_stats().total_entries, 0);
}

#[test]
fn heartbeats_make_identities_active_for_a_day() {
    let mut dht = node();
    dht.heartbeat("did:duxnet:A", 1_000);
    dht.heartbeat("did:duxnet:B", 2_000);
    dht.store("did_heartbeat".to_string(), b"x".to_vec(), 1_000_000, 0);
    assert_eq!(dht.get("did_heartbeat:did:duxnet:A", 1_000), Some(b"1000".to_vec()));
    assert_eq!(
        dht.get_active_dids(2_000),
        vec!["did:duxnet:A".to_string(), "did:duxnet:B".to_string()]
    );
    assert_eq!(dht.get_active_dids(1_000 + ACTIVITY_WINDOW_SECONDS), vec!["did:duxnet:B".to_string()]);
    assert!(dht.get_active_dids(2_000 + ACTIVITY_WINDOW_SECONDS).is_empty());
    dht.heartbeat("did:duxnet:A", 90_000);
    assert_eq!(dht.get_active_dids(90_000), vec!["did:duxnet:A".to_string()]);
}

#[test]
fn logging_a_transaction_is_idempotent() {
    let mut dht = node();
    assert!(dht.store_community_fund_transaction("tx1", Currency::ETH, "did:a", 7, 10));
    assert!(dht.store_community_fund_transaction("tx1", Currency::ETH, "did:a", 7, 11));
    assert_eq!(dht.get_stats().total_entries, 1);
    assert_eq!(
        String::from_utf8(dht.get("community_fund_tx_tx1", 11).unwrap()).unwrap(),
        "{\"currency\":\"ETH\",\"recipient_did\":\"did:a\",\"amount\":7}"
    );
    assert!(!dht.store_community_fund_transaction("tx1", Currency::ETH, "did:b", 7, 12));
    assert!(!dht.store_community_fund_transaction("tx1", Currency::ETH, "did:a", 8, 12));
    assert_eq!(
        String::from_utf8(dht.get("community_fund_tx_tx1", 12).unwrap()).unwrap(),
        "{\"currency\":\"ETH\",\"recipient_did\":\"did:a\",\"amount\":7}"
    );
}

#[test]
fn a_logged_recipient_is_escaped_as_json() {
    let mut dht = node();
    assert!(dht.store_community_fund_transaction("tx", Currency::DOGE, "a\"b\\c\n", 1, 0));
    let text = String::from_utf8(dht.get("community_fund_tx_tx", 0).unwrap()).unwrap();
    assert_eq!(text, "{\"currency\":\"DOGE\",\"recipient_did\":\"a\\\"b\\\\c\\n\",\"amount\":1}");
    let value: serde_json::Value = serde_json::from_str(&text).unwrap();
    assert_eq!(value["recipient_did"].as_str(), Some("a\"b\\c\n"));
    assert_eq!(value["amount"].as_u64(), Some(1));
}

#[test]
fn a_later_remote_copy_wins() {
    let mut dht = node();
    dht.store("k".to_string(), b"local".to_vec(), 100, 50);
    assert!(!dht.merge_remote("k".to_string(), b"older".to_vec(), 100, 49, "did:duxnet:zzz".to_string(), 60));
    assert_eq!(dht.get("k", 60), Some(b"local".to_vec()));
    assert!(dht.merge_remote("k".to_string(), b"newer".to_vec(), 100, 51, "did:duxnet:aaa".to_string(), 60));
    assert_eq!(dht.get("k", 60), Some(b"newer".to_vec()));
    assert_eq!(dht.get("k", 159), Some(b"newer".to_vec()));
    assert_eq!(dht.get("k", 160), None);
}

#[test]
fn a_tie_goes_to_the_greater_identity() {
    let mut dht = node();
    dht.store("k".to_string(), b"local".to_vec(), 100, 50);
    assert!(!dht.merge_remote("k".to_string(), b"a".to_vec(), 100, 50, "did:duxnet:a".to_string(), 60));
    assert!(!dht.merge_remote("k".to_string(), b"same".to_vec(), 100, 50, "did:duxnet:local".to_string(), 60));
    assert!(!dht.merge_remote("k".to_string(), b"prefix".to_vec(), 100, 50, "did:duxnet:loca".to_string(), 60));
    assert_eq!(dht.get("k", 60), Some(b"local".to_vec()));
    assert!(dht.merge_remote("k".to_string(), b"m".to_vec(), 100, 50, "did:duxnet:m".to_string(), 60));
    assert_eq!(dht.get("k", 60), Some(b"m".to_vec()));
    assert!(dht.merge_remote("k".to_string(), b"longer".to_vec(), 100, 50, "did:duxnet:mm".to_string(), 60));
    assert_eq!(dht.get("k", 60), Some(b"longer".to_vec()));
}

#[test]
fn a_remote_copy_replaces_an_expired_or_missing_entry() {
    let mut dht = node();
    assert!(dht.merge_remote("new".to_string(), b"r".to_vec(), 10, 1, "did:x".to_string(), 5));
    assert_eq!(dht.get("new", 5), Some(b"r".to_vec()));
    dht.store("k".to_string(), b"local".to_vec(), 10, 50);
    assert!(dht.merge_remote("k".to_string(), b"old but alive".to_vec(), 10, 1, "did:x".to_string(), 60));
    assert_eq!(dht.get("k", 60), Some(b"old but alive".to_vec()));
}

#[test]
fn the_peer_registry_evicts_the_peer_seen_longest_ago() {
    let mut dht = Dht::with_peer_capacity(NodeId("n".to_string()), 2);
    dht.register_peer("a".to_string(), "10.0.0.1:1".to_string(), 30);
    dht.register_peer("b".to_string(), "10.0.0.2:1".to_string(), 10);
    dht.register_peer("a".to_string(), "10.0.0.1:2".to_string(), 5);
    assert_eq!(
        dht.peers(),
        vec![
            PeerInfo { did: "a".to_string(), endpoint: "10.0.0.1:2".to_string(), last_seen: 5 },
            PeerInfo { did: "b".to_string(), endpoint: "10.0.0.2:1".to_string(), last_seen: 10 },
        ]
    );
    dht.register_peer("c".to_string(), "10.0.0.3:1".to_string(), 20);
    assert_eq!(
        dht.peers(),
        vec![
            PeerInfo { did: "b".to_string(), endpoint: "10.0.0.2:1".to_string(), last_seen: 10 },
            PeerInfo { did: "c".to_string(), endpoint: "10.0.0.3:1".to_string(), last_seen: 20 },
        ]
    );
    dht.store("k".to_string(), b"v".to_vec(), 10, 0);
    dht.register_peer("d".to_string(), "10.0.0.4:1".to_string(), 1);
    assert_eq!(dht.peers().len(), 2);
    assert_eq!(dht.peers()[1].did, "d");
    assert_eq!(dht.get("k", 0), Some(b"v".to_vec()));
}

#[test]
fn a_registry_without_room_stays_empty() {
    let mut dht = Dht::with_peer_capacity(NodeId("n".to_string()), 0);
    dht.register_peer("a".to_string(), "e".to_string(), 1);
    assert!(dht.peers().is_empty());
}

#[test]
fn stats_count_entries_by_category() {
    let mut dht = node();
    dht.store("service:1".to_string(), vec![], 10, 0);
    dht.store("service:2".to_string(), vec![], 10, 0);
    dht.store("reputation:x:y:1".to_string(), vec![], 10, 0);
    dht.store("escrow:e".to_string(), vec![], 10, 0);
    dht.store("task:t".to_string(), vec![], 10, 0);
    dht.register_peer("a".to_string(), "e".to_string(), 1);
    assert_eq!(
        dht.get_stats(),
        DhtStats { total_entries: 5, total_peers: 1, service_entries: 2, reputation_entries: 1, escrow_entries: 1 }
    );
}

#[test]
fn a_read_evicts_what_has_expired() {
    let mut dht = node();
    dht.store("a".to_string(), b"1".to_vec(), 10, 0);
    dht.store("b".to_string(), b"2".to_vec(), 20, 0);
    assert_eq!(dht.get_or_evict("a", 5), Some(b"1".to_vec()));
    assert_eq!(dht.get_stats().total_entries, 2);
    assert_eq!(dht.get_or_evict("a", 10), None);
    assert_eq!(dht.get_stats().total_entries, 1);
    assert_eq!(dht.get_or_evict("missing", 10), None);
    assert_eq!(dht.get_or_evict("b", 10), Some(b"2".to_vec()));
    assert_eq!(dht.get_stats().total_entries, 1);
}

#[test]
fn key_data_is_kept_per_service() {
    let mut dht = node();
    dht.register_aoi_key("s1", "secret", 100);
    dht.register_aoi_key("s1", "newer", 200);
    assert_eq!(dht.get_aoi_key("s1", 200), Some(b"newer".to_vec()));
    assert_eq!(dht.get("aoi:s1", 200), Some(b"newer".to_vec()));
    assert_eq!(dht.get_aoi_key("s2", 200), None);
    assert_eq!(dht.get_aoi_key("s1", 200 + 86_400), None);
}
