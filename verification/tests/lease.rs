use base64::engine::general_purpose::URL_SAFE_NO_PAD;
use base64::Engine;
use open_pubusb::delivery::lease::{
    decode_ack_id, encode_ack_id, AckOutcome, ExpiredLease, LeaseTable,
};

#[test]
fn ack_id_round_trips() {
    let id = encode_ack_id(7, 42, 3);
    assert_eq!(decode_ack_id(&id), Some((7, 42, 3)));
}

#[test]
fn decode_rejects_malformed_input() {
    assert_eq!(decode_ack_id("not-base64-!!!"), None);
    assert_eq!(
        decode_ack_id(&URL_SAFE_NO_PAD.encode(b"short")),
        None
    );
}

#[test]
fn insert_then_get_round_trip() {
    let mut t = LeaseTable::new();
    let ack_id = t.insert(1, 100, 5_000, 1, 0);
    let (sub_id, seq, generation) = decode_ack_id(&ack_id).unwrap();
    assert_eq!((sub_id, seq, generation), (1, 100, 0));
    let lease = t.get(1, 100).unwrap();
    assert_eq!(lease.deadline_ms, 5_000);
    assert_eq!(lease.attempts, 1);
    assert_eq!(t.len(), 1);
}

#[test]
fn ack_removes_lease_and_reports_applied() {
    let mut t = LeaseTable::new();
    let ack_id = t.insert(1, 100, 5_000, 1, 0);
    let outcome = t.ack(&ack_id);
    assert!(matches!(outcome, AckOutcome::Applied(_)));
    assert!(t.get(1, 100).is_none());
    assert!(t.is_empty());
}

#[test]
fn ack_unknown_ack_id_is_unknown_not_error() {
    let mut t = LeaseTable::new();
    let bogus = encode_ack_id(99, 99, 0);
    assert_eq!(t.ack(&bogus), AckOutcome::Unknown);
}

#[test]
fn ack_with_stale_generation_is_ignored() {
    let mut t = LeaseTable::new();
    // Lease at generation 0, then redelivered as generation 1.
    t.insert(1, 100, 1_000, 1, 0);
    let stale_ack_id = encode_ack_id(1, 100, 0);
    t.insert(1, 100, 2_000, 2, 1);

    assert_eq!(t.ack(&stale_ack_id), AckOutcome::StaleGeneration);
    // The live (generation-1) lease must still be present.
    assert!(t.get(1, 100).is_some());
}

#[test]
fn ack_malformed_ack_id_is_ignored() {
    let mut t = LeaseTable::new();
    assert_eq!(t.ack("not a real ack id"), AckOutcome::Malformed);
}

#[test]
fn double_ack_is_idempotent() {
    let mut t = LeaseTable::new();
    let ack_id = t.insert(1, 100, 5_000, 1, 0);
    assert!(matches!(t.ack(&ack_id), AckOutcome::Applied(_)));
    // Second ack of the same id: lease is gone, so Unknown — still not
    // an error at the API boundary.
    assert_eq!(t.ack(&ack_id), AckOutcome::Unknown);
}

#[test]
fn extend_moves_deadline_forward() {
    let mut t = LeaseTable::new();
    let ack_id = t.insert(1, 100, 1_000, 1, 0);
    let outcome = t.extend(&ack_id, 1_000, 600);
    match outcome {
        AckOutcome::Applied(lease) => assert_eq!(lease.deadline_ms, 1_000 + 600_000),
        other => panic!("expected Applied, got {other:?}"),
    }
    assert_eq!(t.get(1, 100).unwrap().deadline_ms, 1_000 + 600_000);
}

#[test]
fn extend_with_zero_seconds_is_immediate_nack() {
    let mut t = LeaseTable::new();
    let ack_id = t.insert(1, 100, 999_999, 1, 0);
    let outcome = t.extend(&ack_id, 5_000, 0);
    assert!(matches!(outcome, AckOutcome::Applied(_)));
    assert_eq!(t.get(1, 100).unwrap().deadline_ms, 5_000);

    let expired = t.expire_up_to(5_000);
    assert_eq!(expired.len(), 1);
    assert_eq!(
        expired[0],
        ExpiredLease {
            sub_id: 1,
            seq: 100,
            attempts: 1,
            generation: 0,
        }
    );
}

#[test]
fn extend_unknown_ack_id_is_ignored() {
    let mut t = LeaseTable::new();
    let bogus = encode_ack_id(1, 1, 0);
    assert_eq!(t.extend(&bogus, 0, 10), AckOutcome::Unknown);
}

#[test]
fn expire_up_to_returns_only_leases_past_deadline() {
    let mut t = LeaseTable::new();
    t.insert(1, 1, 1_000, 1, 0);
    t.insert(1, 2, 2_000, 1, 0);
    t.insert(1, 3, 3_000, 1, 0);

    let expired = t.expire_up_to(2_000);
    let mut seqs: Vec<u64> = expired.iter().map(|e| e.seq).collect();
    seqs.sort_unstable();
    assert_eq!(seqs, vec![1, 2]);
    assert_eq!(t.len(), 1);
    assert!(t.get(1, 3).is_some());
}

#[test]
fn expire_up_to_is_idempotent_when_nothing_new_expired() {
    let mut t = LeaseTable::new();
    t.insert(1, 1, 1_000, 1, 0);
    assert_eq!(t.expire_up_to(1_000).len(), 1);
    assert_eq!(t.expire_up_to(1_000).len(), 0);
    assert_eq!(t.expire_up_to(999_999).len(), 0);
}

#[test]
fn reinsert_replaces_deadline_index_entry() {
    let mut t = LeaseTable::new();
    t.insert(1, 1, 1_000, 1, 0);
    // Re-lease at a later deadline: the old (1_000, 1, 1) index entry
    // must not still cause an expiry at now=1_000.
    t.insert(1, 1, 5_000, 2, 1);
    assert_eq!(t.expire_up_to(1_000).len(), 0);
    assert_eq!(t.expire_up_to(5_000).len(), 1);
}

#[test]
fn nack_now_moves_deadline_to_now_without_ack_id() {
    let mut t = LeaseTable::new();
    t.insert(1, 1, 999_999, 1, 0);
    let lease = t.nack_now(1, 1, 500).unwrap();
    assert_eq!(lease.deadline_ms, 500);
    assert_eq!(t.expire_up_to(500).len(), 1);
}

#[test]
fn nack_now_on_missing_lease_returns_none() {
    let mut t = LeaseTable::new();
    assert!(t.nack_now(1, 1, 0).is_none());
}

#[test]
fn remove_all_for_subscription_only_touches_that_subscription() {
    let mut t = LeaseTable::new();
    t.insert(1, 1, 1_000, 1, 0);
    t.insert(1, 2, 1_000, 1, 0);
    t.insert(2, 1, 1_000, 1, 0);

    let removed = t.remove_all_for_subscription(1);
    assert_eq!(removed.len(), 2);
    assert!(t.get(1, 1).is_none());
    assert!(t.get(1, 2).is_none());
    assert!(t.get(2, 1).is_some());
    assert_eq!(t.len(), 1);
}
