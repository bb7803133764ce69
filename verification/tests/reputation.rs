use duxnet::dht::Dht;
use duxnet::error::{CoreError, ErrorKind};
use duxnet::types::NodeId;
use duxnet::reputation::{reputation_key, signing_payload, ReputationAttestation, ReputationStats, ReputationSystem};

fn attestation(attester: &str, target: &str, score: f64, timestamp: u64) -> ReputationAttestation {
    ReputationAttestation {
        attester_did: attester.to_string(),
        target_did: target.to_string(),
        score_bits: score.to_bits(),
        interaction_type: "task_completed".to_string(),
        timestamp,
        signature: vec![1, 2, 3],
    }
}

fn mean(bits: &[u64]) -> f64 {
    if bits.is_empty() {
        0.0
    } else {
        bits.iter().map(|b| f64::from_bits(*b)).sum::<f64>() / bits.len() as f64
    }
}

#[test]
fn reputation_aggregation() {
    let mut dht = Dht::new(NodeId("n".to_string()));
    let mut r = ReputationSystem::new();
    assert_eq!(r.add_attestation_with(&mut dht, attestation("did:A", "did:X", 4.0, 1), true, 100), Ok(true));
    assert_eq!(r.add_attestation_with(&mut dht, attestation("did:B", "did:X", 5.0, 2), true, 100), Ok(true));
    assert_eq!(r.add_attestation_with(&mut dht, attestation("did:C", "did:X", 3.0, 3), true, 100), Ok(true));
    assert_eq!(r.add_attestation_with(&mut dht, attestation("did:C", "did:Y", 1.0, 3), true, 100), Ok(true));
    let scores = r.recent_scores("did:X");
    assert_eq!(scores, vec![4.0f64.to_bits(), 5.0f64.to_bits(), 3.0f64.to_bits()]);
    assert_eq!(mean(&scores), 4.0);
    assert_eq!(mean(&r.recent_scores("did:nobody")), 0.0);
    assert_eq!(mean(&r.all_scores()), 3.25);
    assert_eq!(r.get_stats(), ReputationStats { total_nodes: 2, total_attestations: 4 });
    assert_eq!(dht.get_stats().reputation_entries, 4);
    assert_eq!(
        String::from_utf8(dht.get("reputation:did:X:did:B:2", 100).unwrap()).unwrap(),
        format!(
            "{{\"attester_did\":\"did:B\",\"target_did\":\"did:X\",\"score_bits\":{},\
\"interaction_type\":\"task_completed\",\"timestamp\":2,\"signature\":[1,2,3]}}",
            5.0f64.to_bits()
        )
    );
}

#[test]
fn an_attestation_with_a_bad_signature_is_refused() {
    let mut dht = Dht::new(NodeId("n".to_string()));
    let mut r = ReputationSystem::new();
    let result = r.add_attestation_with(&mut dht, attestation("did:A", "did:X", 4.0, 1), false, 100);
    assert_eq!(result, Err(CoreError::BadSignature));
    assert_eq!(result.unwrap_err().kind(), ErrorKind::Auth);
    assert!(r.all_scores().is_empty());
    assert_eq!(dht.get_stats().total_entries, 0);
    assert_eq!(r.get_stats(), ReputationStats { total_nodes: 0, total_attestations: 0 });
}

#[test]
fn the_same_statement_is_stored_once() {
    let mut dht = Dht::new(NodeId("n".to_string()));
    let mut r = ReputationSystem::new();
    assert_eq!(r.add_attestation_with(&mut dht, attestation("did:A", "did:X", 4.0, 1), true, 100), Ok(true));
    assert_eq!(r.add_attestation_with(&mut dht, attestation("did:A", "did:X", 1.0, 1), true, 100), Ok(false));
    assert_eq!(r.add_attestation_with(&mut dht, attestation("did:A", "did:X", 2.0, 2), true, 100), Ok(true));
    assert_eq!(r.add_attestation_with(&mut dht, attestation("did:B", "did:X", 3.0, 1), true, 100), Ok(true));
    assert_eq!(r.add_attestation_with(&mut dht, attestation("did:A", "did:Y", 5.0, 1), true, 100), Ok(true));
    assert_eq!(r.recent_scores("did:X"), vec![4.0f64.to_bits(), 2.0f64.to_bits(), 3.0f64.to_bits()]);
}

#[test]
fn only_the_latest_attestations_count() {
    let mut dht = Dht::new(NodeId("n".to_string()));
    let mut r = ReputationSystem::with_window(2);
    for (i, score) in [1.0, 2.0, 3.0, 4.0].into_iter().enumerate() {
        r.add_attestation_with(&mut dht, attestation("did:A", "did:X", score, i as u64), true, 100).unwrap();
    }
    r.add_attestation_with(&mut dht, attestation("did:A", "did:Y", 5.0, 9), true, 100).unwrap();
    assert_eq!(r.recent_scores("did:X"), vec![3.0f64.to_bits(), 4.0f64.to_bits()]);
    assert_eq!(r.recent_scores("did:Y"), vec![5.0f64.to_bits()]);
    assert_eq!(ReputationSystem::with_window(0).recent_scores("did:X"), Vec::<u64>::new());
    let mut none = ReputationSystem::with_window(0);
    none.add_attestation_with(&mut dht, attestation("did:A", "did:X", 1.0, 1), true, 100).unwrap();
    assert_eq!(none.recent_scores("did:X"), Vec::<u64>::new());
}

#[test]
fn attestation_payloads_and_keys() {
    let a = attestation("did:A", "did:X", 4.0, 17);
    assert_eq!(signing_payload(&a), format!("did:A:did:X:{}:task_completed:17", 4.0f64.to_bits()));
    assert_eq!(reputation_key(&a), "reputation:did:X:did:A:17");
}
