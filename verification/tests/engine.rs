use open_pubusb::delivery::engine::{Delivered, DeliveryEngine};
use open_pubusb::error::Error;
use open_pubusb::store::codec::{CursorRecord, MessageRecord};
use open_pubusb::store::keys::{cursor_key, delivery_key, lease_seq_key, msg_key};
use open_pubusb::store::kv::{KvStore, KvValue, MemKv};

/// An engine with the rows that it works on.
struct Engine {
    kv: MemKv,
    engine: DeliveryEngine,
}

fn engine_on(kv: MemKv) -> Engine {
    Engine { kv, engine: DeliveryEngine::new() }
}

impl Engine {
    fn lease_next(
        &mut self,
        sub_id: u64,
        topic_id: u64,
        max_messages: i32,
        now_ms: i64,
        ack_deadline_secs: i32,
    ) -> Result<Vec<Delivered>, Error> {
        self.engine.lease_next(
            &mut self.kv,
            sub_id,
            topic_id,
            max_messages,
            now_ms,
            ack_deadline_secs,
        )
    }

    fn acknowledge(&mut self, sub_id: u64, ack_ids: &[String]) -> Result<(), Error> {
        self.engine.acknowledge(&mut self.kv, sub_id, ack_ids)
    }

    fn modify_ack_deadline(
        &mut self,
        sub_id: u64,
        ack_ids: &[String],
        now_ms: i64,
        seconds: i32,
    ) -> Result<(), Error> {
        self.engine.modify_ack_deadline(&mut self.kv, sub_id, ack_ids, now_ms, seconds)
    }
}

fn kv() -> MemKv {
    MemKv::new()
}

/// Writes a cursor, as creating a subscription would.
fn seed_cursor(kv: &mut MemKv, sub_id: u64, attach_seq: u64) {
    let cursor = CursorRecord {
        attach_seq,
        acked_floor: attach_seq,
        acked_above_floor: Default::default(),
    };
    kv.put("sub", cursor_key(sub_id), KvValue::Cursor(cursor))
        .unwrap();
}

fn seed_messages(kv: &mut MemKv, topic_id: u64, count: u64, now_ms: i64) {
    for seq in 1..=count {
        let record = MessageRecord {
            publish_ts_ms: now_ms,
            ordering_key: String::new(),
            attributes: Default::default(),
            payload: format!("msg-{seq}").into_bytes(),
            expire_at_ms: now_ms + 7 * 24 * 3600 * 1000,
        };
        kv.put("msg", msg_key(topic_id, seq), KvValue::Message(record))
            .unwrap();
    }
}

#[test]
fn lease_next_returns_messages_in_seq_order() {
    let mut kv = kv();
    seed_cursor(&mut kv, 1, 0);
    seed_messages(&mut kv, 1, 3, 1_000);
    let mut engine = engine_on(kv);

    let delivered = engine.lease_next(1, 1, 10, 2_000, 10).unwrap();
    assert_eq!(delivered.len(), 3);
    let seqs: Vec<u64> = delivered.iter().map(|d| d.seq).collect();
    assert_eq!(seqs, vec![1, 2, 3]);
    assert_eq!(delivered[0].delivery_attempt, 1);
    assert_eq!(delivered[0].message.payload, b"msg-1");
}

#[test]
fn lease_next_respects_max_messages() {
    let mut kv = kv();
    seed_cursor(&mut kv, 1, 0);
    seed_messages(&mut kv, 1, 5, 1_000);
    let mut engine = engine_on(kv);

    let delivered = engine.lease_next(1, 1, 2, 2_000, 10).unwrap();
    assert_eq!(delivered.len(), 2);
}

#[test]
fn lease_next_skips_messages_before_attach_seq() {
    let mut kv = kv();
    seed_messages(&mut kv, 1, 3, 1_000);
    // Subscription attached after seq 1 was published.
    seed_cursor(&mut kv, 1, 1);
    let mut engine = engine_on(kv);

    let delivered = engine.lease_next(1, 1, 10, 2_000, 10).unwrap();
    let seqs: Vec<u64> = delivered.iter().map(|d| d.seq).collect();
    assert_eq!(seqs, vec![2, 3]);
}

#[test]
fn lease_next_does_not_redeliver_a_live_lease() {
    let mut kv = kv();
    seed_cursor(&mut kv, 1, 0);
    seed_messages(&mut kv, 1, 1, 1_000);
    let mut engine = engine_on(kv);

    let first = engine.lease_next(1, 1, 10, 2_000, 10).unwrap();
    assert_eq!(first.len(), 1);
    // Still well within the ack deadline.
    let second = engine.lease_next(1, 1, 10, 2_500, 10).unwrap();
    assert!(second.is_empty());
}

#[test]
fn lease_next_redelivers_after_deadline_with_incremented_attempt() {
    let mut kv = kv();
    seed_cursor(&mut kv, 1, 0);
    seed_messages(&mut kv, 1, 1, 1_000);
    let mut engine = engine_on(kv);

    let first = engine.lease_next(1, 1, 10, 2_000, 10).unwrap();
    assert_eq!(first[0].delivery_attempt, 1);

    // 11s later: past the 10s ack deadline.
    let second = engine.lease_next(1, 1, 10, 13_000, 10).unwrap();
    assert_eq!(second.len(), 1);
    assert_eq!(second[0].seq, first[0].seq);
    assert_eq!(second[0].delivery_attempt, 2);
    assert_ne!(second[0].ack_id, first[0].ack_id);
}

#[test]
fn acknowledge_prevents_redelivery_and_advances_cursor() {
    let mut kv = kv();
    seed_cursor(&mut kv, 1, 0);
    seed_messages(&mut kv, 1, 1, 1_000);
    let mut engine = engine_on(kv);

    let delivered = engine.lease_next(1, 1, 10, 2_000, 10).unwrap();
    engine
        .acknowledge(1, &[delivered[0].ack_id.clone()])
        .unwrap();

    let redelivered = engine.lease_next(1, 1, 10, 100_000, 10).unwrap();
    assert!(redelivered.is_empty());
}

#[test]
fn acknowledge_unknown_ack_id_does_not_error() {
    let mut kv = kv();
    seed_cursor(&mut kv, 1, 0);
    let mut engine = engine_on(kv);
    engine
        .acknowledge(1, &["not-a-real-ack-id".to_string()])
        .unwrap();
}

#[test]
fn double_acknowledge_is_idempotent() {
    let mut kv = kv();
    seed_cursor(&mut kv, 1, 0);
    seed_messages(&mut kv, 1, 1, 1_000);
    let mut engine = engine_on(kv);

    let delivered = engine.lease_next(1, 1, 10, 2_000, 10).unwrap();
    engine
        .acknowledge(1, &[delivered[0].ack_id.clone()])
        .unwrap();
    // Second ack of the same (now-stale, since the lease is gone)
    // ack_id must not error.
    engine
        .acknowledge(1, &[delivered[0].ack_id.clone()])
        .unwrap();
}

#[test]
fn modify_ack_deadline_extends_lease() {
    let mut kv = kv();
    seed_cursor(&mut kv, 1, 0);
    seed_messages(&mut kv, 1, 1, 1_000);
    let mut engine = engine_on(kv);

    let delivered = engine.lease_next(1, 1, 10, 2_000, 10).unwrap();
    engine
        .modify_ack_deadline(1, &[delivered[0].ack_id.clone()], 2_000, 600)
        .unwrap();

    // 11s later — past the *original* 10s deadline, but the extension
    // pushed it out to +600s, so it must still be live.
    let still_leased = engine.lease_next(1, 1, 10, 13_000, 10).unwrap();
    assert!(still_leased.is_empty());
}

#[test]
fn modify_ack_deadline_zero_causes_immediate_redelivery() {
    let mut kv = kv();
    seed_cursor(&mut kv, 1, 0);
    seed_messages(&mut kv, 1, 1, 1_000);
    let mut engine = engine_on(kv);

    let delivered = engine.lease_next(1, 1, 10, 2_000, 10).unwrap();
    engine
        .modify_ack_deadline(1, &[delivered[0].ack_id.clone()], 2_000, 0)
        .unwrap();

    // No time needs to pass: the deadline was moved to "now" (2_000).
    let redelivered = engine.lease_next(1, 1, 10, 2_000, 10).unwrap();
    assert_eq!(redelivered.len(), 1);
    assert_eq!(redelivered[0].delivery_attempt, 2);
}

#[test]
fn two_subscriptions_on_same_topic_both_receive_independently() {
    let mut kv = kv();
    seed_cursor(&mut kv, 1, 0);
    seed_cursor(&mut kv, 2, 0);
    seed_messages(&mut kv, 1, 1, 1_000);
    let mut engine = engine_on(kv);

    let a = engine.lease_next(1, 1, 10, 2_000, 10).unwrap();
    let b = engine.lease_next(2, 1, 10, 2_000, 10).unwrap();
    assert_eq!(a.len(), 1);
    assert_eq!(b.len(), 1);

    engine.acknowledge(1, &[a[0].ack_id.clone()]).unwrap();
    // Acking on subscription 1 must not affect subscription 2's copy.
    let still_there = engine.lease_next(2, 1, 10, 2_000, 10).unwrap();
    assert!(still_there.is_empty()); // still leased to sub 2 from the first pull
}

#[test]
fn sparse_ack_above_floor_then_floor_ack_advances_over_both() {
    let mut kv = kv();
    seed_cursor(&mut kv, 1, 0);
    seed_messages(&mut kv, 1, 2, 1_000);
    let mut engine = engine_on(kv);

    let delivered = engine.lease_next(1, 1, 10, 2_000, 10).unwrap();
    assert_eq!(delivered.len(), 2);
    // Ack seq 2 first (sparse, above floor).
    engine
        .acknowledge(1, &[delivered[1].ack_id.clone()])
        .unwrap();
    // Then seq 1: floor should jump straight to 2, consuming the
    // sparse entry.
    engine
        .acknowledge(1, &[delivered[0].ack_id.clone()])
        .unwrap();

    let cursor = engine.engine.cursor_snapshot(&engine.kv, 1).unwrap();
    assert_eq!(cursor.acked_floor, 2);
    assert!(cursor.acked_above_floor.is_empty());
}

#[test]
fn a_restarted_engine_remembers_leases() {
    let mut kv = kv();
    seed_cursor(&mut kv, 1, 0);
    seed_messages(&mut kv, 1, 1, 1_000);
    let mut engine = engine_on(kv);
    let first = engine.lease_next(1, 1, 10, 2_000, 10).unwrap();
    assert_eq!(engine.engine.lease_count(), 1);

    let mut restarted = Engine { kv: engine.kv, engine: DeliveryEngine::new() };
    restarted.engine.recover(&restarted.kv);
    assert_eq!(restarted.engine.lease_count(), 1);
    assert!(restarted.lease_next(1, 1, 10, 2_500, 10).unwrap().is_empty());
    restarted.acknowledge(1, &[first[0].ack_id.clone()]).unwrap();
    assert!(restarted.lease_next(1, 1, 10, 100_000, 10).unwrap().is_empty());
}

#[test]
fn closing_a_stream_frees_what_was_out_on_it() {
    let mut kv = kv();
    seed_cursor(&mut kv, 1, 0);
    seed_messages(&mut kv, 1, 3, 1_000);
    let mut engine = engine_on(kv);
    let stream = engine.engine.open_stream(1, 1, 10, 2, 0);
    let leased = engine.engine.lease_for_stream(&mut engine.kv, stream, 2_000).unwrap();
    assert_eq!(leased.len(), 2);
    assert!(engine.engine.lease_for_stream(&mut engine.kv, stream, 2_000).unwrap().is_empty());
    engine.engine.on_stream_closed(&mut engine.kv, stream);
    let again = engine.lease_next(1, 1, 10, 2_000, 10).unwrap();
    assert_eq!(again.iter().map(|d| d.seq).collect::<Vec<u64>>(), vec![1, 2, 3]);
}

#[test]
fn acknowledging_on_a_stream_makes_room_for_the_next_message() {
    let mut kv = kv();
    seed_cursor(&mut kv, 1, 0);
    seed_messages(&mut kv, 1, 2, 1_000);
    let mut engine = engine_on(kv);
    let stream = engine.engine.open_stream(1, 1, 10, 1, 0);
    let leased = engine.engine.lease_for_stream(&mut engine.kv, stream, 2_000).unwrap();
    assert_eq!(leased.iter().map(|d| d.seq).collect::<Vec<u64>>(), vec![1]);
    engine
        .engine
        .stream_acknowledge(&mut engine.kv, stream, 1, &[leased[0].ack_id.clone()])
        .unwrap();
    let next = engine.engine.lease_for_stream(&mut engine.kv, stream, 2_000).unwrap();
    assert_eq!(next.iter().map(|d| d.seq).collect::<Vec<u64>>(), vec![2]);
}

#[test]
fn old_leases_are_forgotten_but_their_messages_stay_deliverable() {
    let mut kv = kv();
    seed_cursor(&mut kv, 1, 0);
    seed_messages(&mut kv, 1, 1, 1_000);
    let mut engine = engine_on(kv);
    engine.lease_next(1, 1, 10, 2_000, 10).unwrap();
    assert_eq!(engine.engine.sweep_expired(1, 13_000, 3_600_000), 0);
    assert_eq!(engine.engine.lease_count(), 1);
    assert_eq!(engine.engine.sweep_expired(1, 13_000 + 3_600_000, 3_600_000), 1);
    assert_eq!(engine.engine.lease_count(), 0);
    assert_eq!(engine.lease_next(1, 1, 10, 13_000 + 3_600_000, 10).unwrap().len(), 1);
}

#[test]
fn restoring_a_cursor_opens_what_it_leaves_open() {
    let mut kv = kv();
    seed_cursor(&mut kv, 1, 0);
    seed_messages(&mut kv, 1, 3, 1_000);
    let mut engine = engine_on(kv);
    let delivered = engine.lease_next(1, 1, 10, 2_000, 10).unwrap();
    let ids: Vec<String> = delivered.iter().map(|d| d.ack_id.clone()).collect();
    engine.acknowledge(1, &ids).unwrap();
    let back = CursorRecord { attach_seq: 0, acked_floor: 1, acked_above_floor: Default::default() };
    engine.engine.restore_cursor(&mut engine.kv, 1, back).unwrap();
    let again = engine.lease_next(1, 1, 10, 2_000, 10).unwrap();
    assert_eq!(again.iter().map(|d| d.seq).collect::<Vec<u64>>(), vec![2, 3]);
}

#[test]
fn an_ack_id_of_another_subscription_is_passed_over() {
    let mut kv = kv();
    seed_cursor(&mut kv, 1, 0);
    seed_cursor(&mut kv, 2, 0);
    seed_messages(&mut kv, 1, 1, 1_000);
    let mut engine = engine_on(kv);
    engine.lease_next(1, 1, 10, 2_000, 10).unwrap();
    let other = engine.lease_next(2, 1, 10, 2_000, 10).unwrap();
    let ids = [other[0].ack_id.clone()];

    engine.acknowledge(1, &ids).unwrap();
    assert_eq!(engine.engine.lease_count(), 2);
    assert_eq!(engine.engine.cursor_snapshot(&engine.kv, 1).unwrap().acked_floor, 0);
    assert_eq!(engine.engine.cursor_snapshot(&engine.kv, 2).unwrap().acked_floor, 0);

    engine.modify_ack_deadline(1, &ids, 2_000, 0).unwrap();
    assert!(engine.lease_next(2, 1, 10, 2_000, 10).unwrap().is_empty());

    engine.acknowledge(2, &ids).unwrap();
    assert_eq!(engine.engine.lease_count(), 1);
    assert_eq!(engine.engine.cursor_snapshot(&engine.kv, 2).unwrap().acked_floor, 1);
}

#[test]
fn a_stream_is_not_freed_by_ack_ids_of_another_subscription() {
    let mut kv = kv();
    seed_cursor(&mut kv, 1, 0);
    seed_cursor(&mut kv, 2, 0);
    seed_messages(&mut kv, 1, 2, 1_000);
    let mut engine = engine_on(kv);
    let other = engine.lease_next(2, 1, 1, 2_000, 10).unwrap();
    let stream = engine.engine.open_stream(1, 1, 10, 1, 0);
    engine.engine.lease_for_stream(&mut engine.kv, stream, 2_000).unwrap();
    engine
        .engine
        .stream_acknowledge(&mut engine.kv, stream, 1, &[other[0].ack_id.clone()])
        .unwrap();
    assert!(engine.engine.lease_for_stream(&mut engine.kv, stream, 2_000).unwrap().is_empty());
    assert_eq!(engine.engine.lease_count(), 2);
}

#[test]
fn sweeping_one_subscription_leaves_the_leases_of_another() {
    let mut kv = kv();
    seed_cursor(&mut kv, 1, 0);
    seed_cursor(&mut kv, 2, 0);
    seed_messages(&mut kv, 1, 1, 1_000);
    let mut engine = engine_on(kv);
    engine.lease_next(1, 1, 10, 2_000, 10).unwrap();
    engine.lease_next(2, 1, 10, 2_000, 10).unwrap();
    assert_eq!(engine.engine.sweep_expired(1, 4_000_000, 3_600_000), 1);
    assert_eq!(engine.engine.lease_count(), 1);
    assert_eq!(engine.engine.sweep_expired(2, 4_000_000, 3_600_000), 1);
    assert_eq!(engine.engine.lease_count(), 0);
}

#[test]
fn an_ack_id_from_before_a_stream_was_closed_is_stale() {
    let mut kv = kv();
    seed_cursor(&mut kv, 1, 0);
    seed_messages(&mut kv, 1, 1, 1_000);
    let mut engine = engine_on(kv);
    let stream = engine.engine.open_stream(1, 1, 10, 10, 0);
    let first = engine.engine.lease_for_stream(&mut engine.kv, stream, 2_000).unwrap();
    engine.engine.on_stream_closed(&mut engine.kv, stream);
    let again = engine.lease_next(1, 1, 10, 2_000, 10).unwrap();
    assert_eq!(again[0].seq, first[0].seq);
    assert_ne!(again[0].ack_id, first[0].ack_id);
    engine.acknowledge(1, &[first[0].ack_id.clone()]).unwrap();
    assert_eq!(engine.engine.lease_count(), 1);
    assert_eq!(engine.engine.cursor_snapshot(&engine.kv, 1).unwrap().acked_floor, 0);
    engine.acknowledge(1, &[again[0].ack_id.clone()]).unwrap();
    assert_eq!(engine.engine.cursor_snapshot(&engine.kv, 1).unwrap().acked_floor, 1);
}

#[test]
fn generations_go_on_after_a_restart() {
    let mut kv = kv();
    seed_cursor(&mut kv, 1, 0);
    seed_messages(&mut kv, 1, 2, 1_000);
    let mut engine = engine_on(kv);
    let first = engine.lease_next(1, 1, 10, 2_000, 10).unwrap();
    assert_eq!((first[0].generation, first[1].generation), (1, 2));
    assert_eq!(
        engine.kv.get("meta", &lease_seq_key()),
        Some(KvValue::Bytes(vec![0, 0, 0, 0, 0, 0, 0, 2]))
    );
    let mut restarted = Engine { kv: engine.kv, engine: DeliveryEngine::new() };
    let again = restarted.lease_next(1, 1, 10, 13_000, 10).unwrap();
    assert_eq!((again[0].generation, again[1].generation), (3, 4));
}

#[test]
fn a_delivery_given_back_keeps_its_mark_and_its_deadline() {
    let mut kv = kv();
    seed_cursor(&mut kv, 1, 0);
    seed_messages(&mut kv, 1, 1, 1_000);
    let mut engine = engine_on(kv);
    let first = engine.lease_next(1, 1, 10, 2_000, 10).unwrap();
    engine.modify_ack_deadline(1, &[first[0].ack_id.clone()], 5_000, 0).unwrap();
    match engine.kv.get("dlv", &delivery_key(1, 1)) {
        Some(KvValue::Delivery(d)) => {
            assert_eq!((d.deadline_ms, d.attempts, d.given_back), (5_000, 1, true));
        },
        other => panic!("expected a delivery, got {other:?}"),
    }
    assert_eq!(engine.engine.sweep_expired(1, 5_000, 3_600_000), 0);
    assert_eq!(engine.engine.lease_count(), 1);
    let again = engine.lease_next(1, 1, 10, 5_000, 10).unwrap();
    assert_eq!(again[0].delivery_attempt, 2);
    match engine.kv.get("dlv", &delivery_key(1, 1)) {
        Some(KvValue::Delivery(d)) => assert_eq!((d.attempts, d.given_back), (2, false)),
        other => panic!("expected a delivery, got {other:?}"),
    }
}

#[test]
fn a_cursor_that_does_not_decode_is_named_with_the_reason() {
    let mut kv = kv();
    kv.put("sub", cursor_key(7), KvValue::Undecoded(vec![1, 2], "bad length".to_string())).unwrap();
    let mut engine = engine_on(kv);
    match engine.lease_next(7, 1, 10, 2_000, 10) {
        Err(Error::Internal { message }) => {
            assert_eq!(message, "corrupt cursor record for subscription 7: bad length");
        },
        other => panic!("expected an internal error, got {other:?}"),
    }
    engine.kv.put("sub", cursor_key(7), KvValue::Bytes(Vec::new())).unwrap();
    match engine.acknowledge(7, &["x".to_string()]) {
        Err(Error::Internal { message }) => assert_eq!(
            message,
            "corrupt cursor record for subscription 7: unexpected kind of value"
        ),
        other => panic!("expected an internal error, got {other:?}"),
    }
}

#[test]
fn the_first_request_takes_the_oldest_open_messages() {
    let mut kv = kv();
    seed_cursor(&mut kv, 1, 2);
    seed_messages(&mut kv, 1, 6, 1_000);
    let mut engine = engine_on(kv);
    let first = engine.lease_next(1, 1, 3, 2_000, 10).unwrap();
    assert_eq!(first.iter().map(|d| d.seq).collect::<Vec<u64>>(), vec![3, 4, 5]);
    assert!(first.iter().all(|d| d.delivery_attempt == 1));
    assert_eq!(engine.engine.cursor_snapshot(&engine.kv, 1).unwrap().acked_floor, 2);
    let next = engine.lease_next(1, 1, 10, 11_999, 10).unwrap();
    assert_eq!(next.iter().map(|d| d.seq).collect::<Vec<u64>>(), vec![6]);
    assert_eq!(engine.lease_next(1, 1, 10, 12_000, 10).unwrap().len(), 3);
}

#[test]
fn closing_a_stream_leaves_a_message_to_whoever_has_it_now() {
    let mut kv = kv();
    seed_cursor(&mut kv, 1, 0);
    seed_messages(&mut kv, 1, 2, 1_000);
    let mut engine = engine_on(kv);
    let stream = engine.engine.open_stream(1, 1, 10, 10, 0);
    let first = engine.engine.lease_for_stream(&mut engine.kv, stream, 2_000).unwrap();
    assert_eq!(first.len(), 2);
    engine
        .modify_ack_deadline(1, &[first[1].ack_id.clone()], 2_000, 600)
        .unwrap();
    // The first message ran out of time and went to someone else.
    let other = engine.lease_next(1, 1, 10, 12_000, 10).unwrap();
    assert_eq!(other.iter().map(|d| d.seq).collect::<Vec<u64>>(), vec![1]);
    engine.engine.on_stream_closed(&mut engine.kv, stream);
    assert_eq!(engine.engine.lease_count(), 1);
    let next = engine.lease_next(1, 1, 10, 12_000, 10).unwrap();
    assert_eq!(next.iter().map(|d| (d.seq, d.delivery_attempt)).collect::<Vec<_>>(), vec![(2, 1)]);
    engine.acknowledge(1, &[other[0].ack_id.clone()]).unwrap();
    assert_eq!(engine.engine.cursor_snapshot(&engine.kv, 1).unwrap().acked_floor, 1);
}
