use duxnet::dht::Dht;
use duxnet::error::{CoreError, ErrorKind};
use duxnet::escrow::{contract_text, escrow_key, signing_payload, state_name, EscrowManager, EscrowStats};
use duxnet::types::{EscrowSignature, EscrowState, NodeId, SignatureIntent};

const B: &str = "did:duxnet:buyer";
const S: &str = "did:duxnet:seller";
const R: &str = "did:duxnet:arbiter";
const R2: &str = "did:duxnet:arbiter-2";

fn store() -> Dht {
    Dht::new(NodeId("did:duxnet:local".to_string()))
}

fn manager_with(id: &str, amount: u64) -> (EscrowManager, Dht) {
    let mut dht = store();
    let mut m = EscrowManager::new();
    let created = m
        .create_with(
            &mut dht,
            id.to_string(),
            B.to_string(),
            S.to_string(),
            vec![R.to_string(), R2.to_string()],
            amount,
            "multisig-address".to_string(),
            1_000)
        .unwrap();
    assert_eq!(created, id);
    (m, dht)
}

#[test]
fn a_new_contract_is_created() {
    let (m, _dht) = manager_with("e1", 100);
    let c = m.get("e1").unwrap();
    assert_eq!(c.id, "e1");
    assert_eq!(c.buyer_did, B);
    assert_eq!(c.seller_did, S);
    assert_eq!(c.arbiters, vec![R.to_string(), R2.to_string()]);
    assert_eq!(c.amount, 100);
    assert_eq!(c.state, EscrowState::Created);
    assert_eq!(c.multisig_address, "multisig-address");
    assert!(c.signatures.is_empty());
    assert_eq!(c.created_at, 1_000);
    assert_eq!(m.get("e2"), None);
    assert_eq!(m.state_of("e2"), None);
}

#[test]
fn a_taken_identifier_is_refused() {
    let (mut m, mut dht) = manager_with("e1", 100);
    let r = m.create_with(&mut dht, "e1".to_string(), "x".to_string(), "y".to_string(), vec![], 1, "a".to_string(), 2);
    assert_eq!(r, Err(CoreError::DuplicateId));
    assert_eq!(m.get("e1").unwrap().buyer_did, B);
    assert_eq!(m.get_stats().total_contracts, 1);
}

#[test]
fn create_draws_a_fresh_identifier() {
    let mut dht = store();
    let mut m = EscrowManager::new();
    let a = m.create(&mut dht, B.to_string(), S.to_string(), vec![R.to_string()], 5, "addr".to_string()).unwrap();
    let b = m.create(&mut dht, B.to_string(), S.to_string(), vec![R.to_string()], 6, "addr".to_string()).unwrap();
    assert_ne!(a, b);
    assert_eq!(a.len(), 36);
    assert_eq!(m.state_of(&a), Some(EscrowState::Created));
    assert_eq!(m.get(&b).unwrap().amount, 6);
}

#[test]
fn funding_needs_a_created_contract() {
    let (mut m, mut dht) = manager_with("e1", 100);
    assert_eq!(m.fund(&mut dht, "missing", 5), Err(CoreError::EscrowNotFound));
    assert_eq!(m.fund(&mut dht, "e1", 5), Ok(()));
    assert_eq!(m.state_of("e1"), Some(EscrowState::Funded));
    assert_eq!(m.fund(&mut dht, "e1", 5), Err(CoreError::IllegalTransition));
    assert_eq!(CoreError::IllegalTransition.kind(), ErrorKind::State);
    assert_eq!(m.state_of("e1"), Some(EscrowState::Funded));
}

#[test]
fn work_starts_on_a_funded_contract() {
    let (mut m, mut dht) = manager_with("e1", 100);
    assert_eq!(m.start_work(&mut dht, "e1", 6), Err(CoreError::IllegalTransition));
    m.fund(&mut dht, "e1", 5).unwrap();
    assert_eq!(m.start_work(&mut dht, "e1", 6), Ok(()));
    assert_eq!(m.state_of("e1"), Some(EscrowState::InProgress));
    assert_eq!(m.start_work(&mut dht, "e1", 6), Err(CoreError::IllegalTransition));
}

#[test]
fn escrow_happy_path() {
    let (mut m, mut dht) = manager_with("e1", 100);
    m.fund(&mut dht, "e1", 5).unwrap();
    m.start_work(&mut dht, "e1", 6).unwrap();
    assert_eq!(m.add_signature_with(&mut dht, "e1", S, vec![1], SignatureIntent::Release, true, 7), Ok(None));
    assert_eq!(m.state_of("e1"), Some(EscrowState::InProgress));
    assert_eq!(m.settle(&mut dht, "e1", SignatureIntent::Release, true, 10), Err(CoreError::IllegalTransition));
    assert_eq!(
        m.add_signature_with(&mut dht, "e1", B, vec![2], SignatureIntent::Release, true, 7),
        Ok(Some(SignatureIntent::Release))
    );
    assert_eq!(m.state_of("e1"), Some(EscrowState::InProgress));
    assert_eq!(m.settle(&mut dht, "e1", SignatureIntent::Release, false, 10), Err(CoreError::ReleaseFailed));
    assert_eq!(CoreError::ReleaseFailed.kind(), ErrorKind::External);
    assert_eq!(m.state_of("e1"), Some(EscrowState::InProgress));
    assert_eq!(m.settle(&mut dht, "e1", SignatureIntent::Release, true, 10), Ok(EscrowState::Completed));
    assert_eq!(m.state_of("e1"), Some(EscrowState::Completed));
    assert!(!m.has_signature("e1", R, SignatureIntent::Release));
    assert_eq!(m.settle(&mut dht, "e1", SignatureIntent::Release, true, 10), Err(CoreError::IllegalTransition));
    assert_eq!(m.raise_dispute(&mut dht, "e1", B, 8), Err(CoreError::IllegalTransition));
    assert_eq!(m.state_of("e1"), Some(EscrowState::Completed));
}

#[test]
fn escrow_dispute() {
    let (mut m, mut dht) = manager_with("e1", 100);
    m.fund(&mut dht, "e1", 5).unwrap();
    assert_eq!(m.raise_dispute(&mut dht, "e1", B, 8), Ok(()));
    assert_eq!(m.state_of("e1"), Some(EscrowState::Disputed));
    assert_eq!(
        m.add_signature_with(&mut dht, "e1", R, vec![7], SignatureIntent::Refund, true, 7),
        Ok(Some(SignatureIntent::Refund))
    );
    assert_eq!(m.settle(&mut dht, "e1", SignatureIntent::Release, true, 10), Err(CoreError::IllegalTransition));
    assert_eq!(m.settle(&mut dht, "e1", SignatureIntent::Refund, true, 10), Ok(EscrowState::Refunded));
    assert_eq!(m.state_of("e1"), Some(EscrowState::Refunded));
}

#[test]
fn an_arbiter_resolves_a_dispute_for_the_seller() {
    let (mut m, mut dht) = manager_with("e1", 100);
    m.fund(&mut dht, "e1", 5).unwrap();
    m.start_work(&mut dht, "e1", 6).unwrap();
    assert_eq!(
        m.resolve_dispute_with(&mut dht, "e1", R, vec![1], SignatureIntent::Release, true, 9),
        Err(CoreError::IllegalTransition)
    );
    m.raise_dispute(&mut dht, "e1", S, 8).unwrap();
    assert_eq!(m.resolve_dispute_with(&mut dht, "missing", R, vec![1], SignatureIntent::Release, true, 9), Err(CoreError::EscrowNotFound));
    assert_eq!(m.resolve_dispute_with(&mut dht, "e1", B, vec![1], SignatureIntent::Release, true, 9), Err(CoreError::NotAuthorized));
    assert_eq!(m.resolve_dispute_with(&mut dht, "e1", R2, vec![1], SignatureIntent::Release, false, 9), Err(CoreError::BadSignature));
    assert!(!m.has_signature("e1", R2, SignatureIntent::Release));
    assert_eq!(m.resolve_dispute_with(&mut dht, "e1", R2, vec![1], SignatureIntent::Release, true, 9), Ok(SignatureIntent::Release));
    assert_eq!(m.state_of("e1"), Some(EscrowState::Disputed));
    assert_eq!(m.settle(&mut dht, "e1", SignatureIntent::Release, true, 10), Ok(EscrowState::Completed));
}

#[test]
fn principals_alone_do_not_settle_a_dispute() {
    let (mut m, mut dht) = manager_with("e1", 100);
    m.fund(&mut dht, "e1", 5).unwrap();
    m.raise_dispute(&mut dht, "e1", B, 8).unwrap();
    assert_eq!(m.add_signature_with(&mut dht, "e1", B, vec![1], SignatureIntent::Refund, true, 7), Ok(None));
    assert_eq!(m.add_signature_with(&mut dht, "e1", S, vec![1], SignatureIntent::Refund, true, 7), Ok(None));
    assert_eq!(m.settle(&mut dht, "e1", SignatureIntent::Refund, true, 10), Err(CoreError::IllegalTransition));
}

#[test]
fn a_refund_before_work_needs_two_of_three() {
    let (mut m, mut dht) = manager_with("e1", 100);
    m.fund(&mut dht, "e1", 5).unwrap();
    assert_eq!(m.add_signature_with(&mut dht, "e1", B, vec![1], SignatureIntent::Refund, true, 7), Ok(None));
    assert_eq!(m.add_signature_with(&mut dht, "e1", R2, vec![1], SignatureIntent::Refund, true, 7), Ok(None));
    assert_eq!(m.add_signature_with(&mut dht, "e1", S, vec![1], SignatureIntent::Release, true, 7), Ok(None));
    assert_eq!(
        m.add_signature_with(&mut dht, "e1", R, vec![1], SignatureIntent::Refund, true, 7),
        Ok(Some(SignatureIntent::Refund))
    );
    assert_eq!(m.settle(&mut dht, "e1", SignatureIntent::Refund, true, 10), Ok(EscrowState::Refunded));
}

#[test]
fn only_parties_may_sign_and_only_with_valid_signatures() {
    let (mut m, mut dht) = manager_with("e1", 100);
    assert_eq!(m.add_signature_with(&mut dht, "missing", B, vec![1], SignatureIntent::Release, true, 7), Err(CoreError::EscrowNotFound));
    assert_eq!(
        m.add_signature_with(&mut dht, "e1", "did:duxnet:stranger", vec![1], SignatureIntent::Release, true, 7),
        Err(CoreError::NotAuthorized)
    );
    assert_eq!(m.add_signature_with(&mut dht, "e1", B, vec![1], SignatureIntent::Release, false, 7), Err(CoreError::BadSignature));
    assert_eq!(CoreError::BadSignature.kind(), ErrorKind::Auth);
    assert_eq!(CoreError::NotAuthorized.kind(), ErrorKind::Auth);
    assert!(m.get("e1").unwrap().signatures.is_empty());
}

#[test]
fn only_principals_raise_disputes() {
    let (mut m, mut dht) = manager_with("e1", 100);
    assert_eq!(m.raise_dispute(&mut dht, "missing", B, 8), Err(CoreError::EscrowNotFound));
    assert_eq!(m.raise_dispute(&mut dht, "e1", B, 8), Err(CoreError::IllegalTransition));
    m.fund(&mut dht, "e1", 5).unwrap();
    assert_eq!(m.raise_dispute(&mut dht, "e1", R, 8), Err(CoreError::NotAuthorized));
    assert_eq!(m.state_of("e1"), Some(EscrowState::Funded));
    m.start_work(&mut dht, "e1", 6).unwrap();
    assert_eq!(m.raise_dispute(&mut dht, "e1", S, 8), Ok(()));
    assert_eq!(m.raise_dispute(&mut dht, "e1", S, 8), Err(CoreError::IllegalTransition));
}

#[test]
fn duplicate_signature_idempotence() {
    let (mut m, mut dht) = manager_with("e1", 100);
    m.fund(&mut dht, "e1", 5).unwrap();
    m.start_work(&mut dht, "e1", 6).unwrap();
    let first = m.add_signature_with(&mut dht, "e1", S, vec![5], SignatureIntent::Release, true, 7);
    let once = m.get("e1").unwrap();
    let second = m.add_signature_with(&mut dht, "e1", S, vec![5], SignatureIntent::Release, true, 7);
    assert_eq!(first, Ok(None));
    assert_eq!(second, first);
    assert_eq!(m.get("e1").unwrap(), once);
    assert_eq!(
        once.signatures,
        vec![EscrowSignature { signer_did: S.to_string(), intent: SignatureIntent::Release, signature: vec![5] }]
    );
    assert_eq!(m.state_of("e1"), Some(EscrowState::InProgress));
    assert_eq!(m.settle(&mut dht, "e1", SignatureIntent::Release, true, 10), Err(CoreError::IllegalTransition));
}

#[test]
fn a_later_signature_overwrites_the_earlier_one() {
    let (mut m, mut dht) = manager_with("e1", 100);
    m.add_signature_with(&mut dht, "e1", S, vec![5], SignatureIntent::Release, true, 7).unwrap();
    m.add_signature_with(&mut dht, "e1", S, vec![6], SignatureIntent::Refund, true, 7).unwrap();
    m.add_signature_with(&mut dht, "e1", S, vec![7], SignatureIntent::Release, true, 7).unwrap();
    assert_eq!(
        m.get("e1").unwrap().signatures,
        vec![
            EscrowSignature { signer_did: S.to_string(), intent: SignatureIntent::Release, signature: vec![7] },
            EscrowSignature { signer_did: S.to_string(), intent: SignatureIntent::Refund, signature: vec![6] },
        ]
    );
    assert!(m.has_signature("e1", S, SignatureIntent::Refund));
    assert!(!m.has_signature("e1", B, SignatureIntent::Refund));
    assert!(!m.has_signature("nope", S, SignatureIntent::Refund));
}

#[test]
fn escrow_payloads_and_keys() {
    assert_eq!(signing_payload("e1", SignatureIntent::Release, 100), "e1:release:100");
    assert_eq!(signing_payload("e1", SignatureIntent::Refund, 0), "e1:refund:0");
    assert_eq!(escrow_key("e1"), "escrow:e1");
    assert_eq!(state_name(EscrowState::InProgress), "InProgress");
}

#[test]
fn stats_count_contracts_by_state() {
    let mut dht = store();
    let mut m = EscrowManager::new();
    for (id, amount) in [("a", 1u64), ("b", 2), ("c", 3), ("d", 4), ("e", 5), ("f", u64::MAX)] {
        m.create_with(&mut dht, id.to_string(), B.to_string(), S.to_string(), vec![R.to_string()], amount, String::new(), 0)
            .unwrap();
    }
    for id in ["b", "c", "d", "e"] {
        m.fund(&mut dht, id, 5).unwrap();
    }
    m.start_work(&mut dht, "c", 6).unwrap();
    m.raise_dispute(&mut dht, "d", B, 8).unwrap();
    m.raise_dispute(&mut dht, "e", B, 8).unwrap();
    m.resolve_dispute_with(&mut dht, "e", R, vec![], SignatureIntent::Refund, true, 9).unwrap();
    m.settle(&mut dht, "e", SignatureIntent::Refund, true, 10).unwrap();
    assert_eq!(
        m.get_stats(),
        EscrowStats {
            total_contracts: 6,
            created: 2,
            funded: 1,
            in_progress: 1,
            completed: 0,
            disputed: 1,
            refunded: 1,
            total_amount: u64::MAX,
        }
    );
    let before = m.get_stats();
    m.settle(&mut dht, "c", SignatureIntent::Release, true, 10).unwrap_err();
    m.resolve_dispute_with(&mut dht, "d", R, vec![], SignatureIntent::Release, true, 9).unwrap();
    m.settle(&mut dht, "d", SignatureIntent::Release, true, 10).unwrap();
    m.fund(&mut dht, "a", 5).unwrap();
    let after = m.get_stats();
    assert_eq!(
        after.total_contracts,
        after.created + after.funded + after.in_progress + after.completed + after.disputed + after.refunded
    );
    assert_eq!(after.total_contracts, before.total_contracts);
    assert_eq!((after.created, after.funded, after.completed, after.disputed), (1, 2, 1, 0));
    assert!(after.completed >= before.completed && after.refunded >= before.refunded);
    assert!(after.created <= before.created);
}

#[test]
fn every_accepted_step_is_published() {
    let (mut m, mut dht) = manager_with("e1", 100);
    let published = |dht: &Dht, now: u64| String::from_utf8(dht.get("escrow:e1", now).unwrap()).unwrap();
    assert_eq!(
        published(&dht, 1_000),
        "{\"id\":\"e1\",\"buyer_did\":\"did:duxnet:buyer\",\"seller_did\":\"did:duxnet:seller\",\
\"arbiters\":[\"did:duxnet:arbiter\",\"did:duxnet:arbiter-2\"],\"amount\":100,\"state\":\"Created\",\
\"multisig_address\":\"multisig-address\",\"signatures\":[],\"created_at\":1000}"
    );
    m.fund(&mut dht, "e1", 2_000).unwrap();
    assert!(published(&dht, 2_000).contains("\"state\":\"Funded\""));
    assert_eq!(m.fund(&mut dht, "e1", 3_000), Err(CoreError::IllegalTransition));
    assert_eq!(dht.get("escrow:e1", 2_000 + 86_400), None);
    m.add_signature_with(&mut dht, "e1", S, vec![0, 7, 255], SignatureIntent::Release, true, 4_000).unwrap();
    m.add_signature_with(&mut dht, "e1", B, vec![], SignatureIntent::Refund, true, 4_000).unwrap();
    let text = published(&dht, 4_000);
    assert!(text.contains(
        "\"signatures\":[{\"signer_did\":\"did:duxnet:seller\",\"intent\":\"release\",\"signature\":[0,7,255]},\
{\"signer_did\":\"did:duxnet:buyer\",\"intent\":\"refund\",\"signature\":[]}]"
    ));
    assert_eq!(text, contract_text(&m.get("e1").unwrap()));
    let value: serde_json::Value = serde_json::from_str(&text).unwrap();
    assert_eq!(value["amount"].as_u64(), Some(100));
    assert_eq!(value["arbiters"][1].as_str(), Some(R2));
    assert_eq!(value["signatures"][0]["signature"][2].as_u64(), Some(255));
    assert_eq!(m.add_signature_with(&mut dht, "e1", B, vec![1], SignatureIntent::Refund, false, 5_000), Err(CoreError::BadSignature));
    assert_eq!(published(&dht, 5_000), text);
    assert_eq!(dht.get_stats().escrow_entries, 1);
}

#[test]
fn a_published_contract_is_taken_over() {
    let (mut m, mut dht) = manager_with("e1", 100);
    m.fund(&mut dht, "e1", 2).unwrap();
    m.add_signature_with(&mut dht, "e1", B, vec![1], SignatureIntent::Refund, true, 3).unwrap();
    let contract = m.get("e1").unwrap();

    let mut fresh = EscrowManager::new();
    assert_eq!(fresh.restore(contract.clone()), Ok(()));
    assert_eq!(fresh.get("e1"), Some(contract.clone()));
    assert_eq!(fresh.restore(contract.clone()), Err(CoreError::DuplicateId));

    let mut twice = contract.clone();
    twice.id = "e2".to_string();
    twice.signatures.push(EscrowSignature {
        signer_did: B.to_string(),
        intent: SignatureIntent::Refund,
        signature: vec![2],
    });
    assert_eq!(fresh.restore(twice), Err(CoreError::Malformed));
    let mut stranger = contract.clone();
    stranger.id = "e3".to_string();
    stranger.signatures[0].signer_did = "did:duxnet:stranger".to_string();
    assert_eq!(fresh.restore(stranger), Err(CoreError::Malformed));
    assert_eq!(CoreError::Malformed.kind(), ErrorKind::Serialization);
    assert_eq!(fresh.get_stats().total_contracts, 1);
}
