use open_pubusb::clock::MockClock;
use open_pubusb::error::Error;
use open_pubusb::limits::MAX_PUBLISH_BATCH_MESSAGES;
use open_pubusb::maintenance::maintain;
use open_pubusb::names::DELETED_TOPIC;
use open_pubusb::service::{PubSubService, PublishMessage};
use open_pubusb::store::kv::MemKv;
use open_pubusb::string_map::StringMap;
use open_pubusb::subscription::{CreateSubscriptionOptions, SubscriptionUpdatePatch};

fn labels() -> StringMap {
    StringMap::new()
}

fn msg(data: &[u8]) -> PublishMessage {
    PublishMessage { data: data.to_vec(), ..Default::default() }
}

const TOPIC: &str = "projects/proj/topics/top1";
const SUB: &str = "projects/proj/subscriptions/sub1";

fn ready(opts: CreateSubscriptionOptions) -> PubSubService<MemKv, MockClock> {
    let mut svc = PubSubService::new_ephemeral_with_clock(MockClock::new(1_000_000));
    svc.create_topic(TOPIC, labels()).unwrap();
    svc.create_subscription(SUB, TOPIC, opts).unwrap();
    svc
}

fn data(pulled: &[open_pubusb::service::PulledMessage]) -> Vec<String> {
    pulled.iter().map(|m| String::from_utf8(m.data.clone()).unwrap()).collect()
}

#[test]
fn create_topic_then_get_round_trips_labels() {
    let mut svc = PubSubService::new_ephemeral();
    let mut l = StringMap::new();
    l.insert("env".to_string(), "prod".to_string());
    svc.create_topic("projects/proj/topics/top1", l.clone())
        .unwrap();
    let got = svc.get_topic("projects/proj/topics/top1").unwrap();
    assert_eq!(got.labels, l);

    let err = svc
        .create_topic("projects/proj/topics/top1", StringMap::new())
        .unwrap_err();
    assert!(matches!(err, Error::AlreadyExists { .. }));
}

#[test]
fn operations_on_nonexistent_topic_are_not_found() {
    let mut svc = PubSubService::new_ephemeral();
    assert!(matches!(
        svc.get_topic("projects/proj/topics/missing1").unwrap_err(),
        Error::NotFound { .. }
    ));
    assert!(matches!(
        svc.delete_topic("projects/proj/topics/missing1")
            .unwrap_err(),
        Error::NotFound { .. }
    ));
}

#[test]
fn deleting_topic_detaches_subscriptions_to_deleted_sentinel() {
    let mut svc = PubSubService::new_ephemeral();
    svc.create_topic("projects/proj/topics/top1", labels())
        .unwrap();
    svc.create_subscription(
        "projects/proj/subscriptions/sub1",
        "projects/proj/topics/top1",
        CreateSubscriptionOptions::default(),
    )
    .unwrap();

    svc.delete_topic("projects/proj/topics/top1").unwrap();

    let sub = svc
        .get_subscription("projects/proj/subscriptions/sub1")
        .unwrap();
    assert_eq!(sub.topic, DELETED_TOPIC);
}

#[test]
fn list_topic_subscriptions_scopes_to_that_topic() {
    let mut svc = PubSubService::new_ephemeral();
    svc.create_topic("projects/proj/topics/topa", labels())
        .unwrap();
    svc.create_topic("projects/proj/topics/topb", labels())
        .unwrap();
    svc.create_subscription(
        "projects/proj/subscriptions/suba1",
        "projects/proj/topics/topa",
        CreateSubscriptionOptions::default(),
    )
    .unwrap();
    svc.create_subscription(
        "projects/proj/subscriptions/suba2",
        "projects/proj/topics/topa",
        CreateSubscriptionOptions::default(),
    )
    .unwrap();
    svc.create_subscription(
        "projects/proj/subscriptions/subb1",
        "projects/proj/topics/topb",
        CreateSubscriptionOptions::default(),
    )
    .unwrap();

    let subs = svc
        .list_topic_subscriptions("projects/proj/topics/topa")
        .unwrap();
    assert_eq!(
        subs,
        vec![
            "projects/proj/subscriptions/suba1".to_string(),
            "projects/proj/subscriptions/suba2".to_string(),
        ]
    );
}

#[test]
fn detached_subscription_pull_fails_precondition() {
    let mut svc = PubSubService::new_ephemeral();
    svc.create_topic("projects/proj/topics/top1", labels())
        .unwrap();
    svc.create_subscription(
        "projects/proj/subscriptions/sub1",
        "projects/proj/topics/top1",
        CreateSubscriptionOptions::default(),
    )
    .unwrap();
    svc.detach_subscription("projects/proj/subscriptions/sub1")
        .unwrap();

    let err = svc
        .pull("projects/proj/subscriptions/sub1", 10)
        .unwrap_err();
    assert!(matches!(err, Error::FailedPrecondition { .. }));
}

#[test]
fn update_topic_labels_changes_labels_without_recreation() {
    let mut svc = PubSubService::new_ephemeral();
    svc.create_topic("projects/proj/topics/top1", labels())
        .unwrap();
    let mut l = StringMap::new();
    l.insert("k".to_string(), "v".to_string());
    let updated = svc
        .update_topic_labels("projects/proj/topics/top1", l.clone())
        .unwrap();
    assert_eq!(updated.labels, l);
    assert_eq!(
        svc.get_topic("projects/proj/topics/top1").unwrap().labels,
        l
    );
}

#[test]
fn publish_then_pull_round_trips_and_acks() {
    let mut svc = PubSubService::new_ephemeral();
    svc.create_topic("projects/proj/topics/top1", labels())
        .unwrap();
    svc.create_subscription(
        "projects/proj/subscriptions/sub1",
        "projects/proj/topics/top1",
        CreateSubscriptionOptions::default(),
    )
    .unwrap();

    let ids = svc
        .publish("projects/proj/topics/top1", vec![msg(b"hello")])
        .unwrap();
    assert_eq!(ids.len(), 1);

    let pulled = svc.pull("projects/proj/subscriptions/sub1", 10).unwrap();
    assert_eq!(pulled.len(), 1);
    assert_eq!(pulled[0].data, b"hello");
    assert_eq!(pulled[0].message_id, ids[0]);
    // No dead-letter policy on this subscription -> attempt hidden.
    assert_eq!(pulled[0].delivery_attempt, 0);

    svc.acknowledge(
        "projects/proj/subscriptions/sub1",
        vec![pulled[0].ack_id.clone()],
    )
    .unwrap();
    let again = svc.pull("projects/proj/subscriptions/sub1", 10).unwrap();
    assert!(again.is_empty());
}

#[test]
fn messages_published_before_subscription_creation_are_not_delivered() {
    let mut svc = PubSubService::new_ephemeral();
    svc.create_topic("projects/proj/topics/top1", labels())
        .unwrap();
    svc.publish("projects/proj/topics/top1", vec![msg(b"before")])
        .unwrap();
    svc.create_subscription(
        "projects/proj/subscriptions/sub1",
        "projects/proj/topics/top1",
        CreateSubscriptionOptions::default(),
    )
    .unwrap();
    svc.publish("projects/proj/topics/top1", vec![msg(b"after")])
        .unwrap();

    let pulled = svc.pull("projects/proj/subscriptions/sub1", 10).unwrap();
    assert_eq!(pulled.len(), 1);
    assert_eq!(pulled[0].data, b"after");
}

#[test]
fn two_subscriptions_on_same_topic_both_receive_published_message() {
    let mut svc = PubSubService::new_ephemeral();
    svc.create_topic("projects/proj/topics/top1", labels())
        .unwrap();
    svc.create_subscription(
        "projects/proj/subscriptions/suba",
        "projects/proj/topics/top1",
        CreateSubscriptionOptions::default(),
    )
    .unwrap();
    svc.create_subscription(
        "projects/proj/subscriptions/subb",
        "projects/proj/topics/top1",
        CreateSubscriptionOptions::default(),
    )
    .unwrap();

    svc.publish("projects/proj/topics/top1", vec![msg(b"fanout")])
        .unwrap();

    assert_eq!(
        svc.pull("projects/proj/subscriptions/suba", 10)
            .unwrap()
            .len(),
        1
    );
    assert_eq!(
        svc.pull("projects/proj/subscriptions/subb", 10)
            .unwrap()
            .len(),
        1
    );
}

#[test]
fn unacked_message_redelivered_after_deadline_with_incremented_attempt() {
    let mut svc = PubSubService::new_ephemeral_with_clock(MockClock::new(1_000));
    svc.create_topic("projects/proj/topics/top1", labels())
        .unwrap();
    svc.create_subscription(
        "projects/proj/subscriptions/sub1",
        "projects/proj/topics/top1",
        CreateSubscriptionOptions {
            ack_deadline_secs: Some(10),
            dead_letter_topic: Some("projects/proj/topics/dlq1".to_string()),
            ..Default::default()
        },
    )
    .unwrap();
    svc.publish("projects/proj/topics/top1", vec![msg(b"redeliver")])
        .unwrap();

    let first = svc.pull("projects/proj/subscriptions/sub1", 10).unwrap();
    assert_eq!(first[0].delivery_attempt, 1); // DLQ policy present -> exposed

    svc.clock.advance_secs(11);
    let second = svc.pull("projects/proj/subscriptions/sub1", 10).unwrap();
    assert_eq!(second.len(), 1);
    assert_eq!(second[0].message_id, first[0].message_id);
    assert_eq!(second[0].delivery_attempt, 2);
}

#[test]
fn modify_ack_deadline_zero_immediately_nacks_and_redelivers() {
    let mut svc = PubSubService::new_ephemeral_with_clock(MockClock::new(1_000));
    svc.create_topic("projects/proj/topics/top1", labels())
        .unwrap();
    svc.create_subscription(
        "projects/proj/subscriptions/sub1",
        "projects/proj/topics/top1",
        CreateSubscriptionOptions::default(),
    )
    .unwrap();
    svc.publish("projects/proj/topics/top1", vec![msg(b"nack-me")])
        .unwrap();

    let pulled = svc.pull("projects/proj/subscriptions/sub1", 10).unwrap();
    svc.modify_ack_deadline(
        "projects/proj/subscriptions/sub1",
        vec![pulled[0].ack_id.clone()],
        0,
    )
    .unwrap();

    let redelivered = svc.pull("projects/proj/subscriptions/sub1", 10).unwrap();
    assert_eq!(redelivered.len(), 1);
}

#[test]
fn publishing_batch_over_limit_is_invalid_argument() {
    let mut svc = PubSubService::new_ephemeral();
    svc.create_topic("projects/proj/topics/top1", labels())
        .unwrap();
    let messages: Vec<PublishMessage> = (0..(MAX_PUBLISH_BATCH_MESSAGES + 1))
        .map(|i| msg(format!("m{i}").as_bytes()))
        .collect();
    let err = svc
        .publish("projects/proj/topics/top1", messages)
        .unwrap_err();
    assert!(matches!(err, Error::InvalidArgument { .. }));
}

#[test]
fn invalid_topic_name_is_rejected() {
    let mut svc = PubSubService::new_ephemeral();
    let err = svc
        .create_topic("projects/proj/topics/ab", labels())
        .unwrap_err();
    assert!(matches!(err, Error::InvalidArgument { .. }));
}

#[test]
fn topic_name_starting_with_goog_is_rejected() {
    let mut svc = PubSubService::new_ephemeral();
    let err = svc
        .create_topic("projects/proj/topics/goog-reserved", labels())
        .unwrap_err();
    assert!(matches!(err, Error::InvalidArgument { .. }));
}

#[test]
fn published_messages_are_pulled_in_order_with_their_ids() {
    let mut svc = ready(CreateSubscriptionOptions::default());
    let ids = svc.publish(TOPIC, vec![msg(b"a"), msg(b"b"), msg(b"c")]).unwrap();
    assert_eq!(ids, vec!["1".to_string(), "2".to_string(), "3".to_string()]);
    let pulled = svc.pull(SUB, 2).unwrap();
    assert_eq!(data(&pulled), vec!["a", "b"]);
    let rest = svc.pull(SUB, 2).unwrap();
    assert_eq!(data(&rest), vec!["c"]);
    assert_eq!(rest[0].message_id, "3");
}

#[test]
fn a_message_given_back_is_delivered_at_once_despite_its_retry_policy() {
    let mut svc = ready(CreateSubscriptionOptions {
        min_retry_backoff_secs: Some(60),
        max_retry_backoff_secs: Some(600),
        ..Default::default()
    });
    svc.publish(TOPIC, vec![msg(b"x")]).unwrap();
    let first = svc.pull(SUB, 10).unwrap();
    svc.modify_ack_deadline(SUB, vec![first[0].ack_id.clone()], 0).unwrap();
    assert_eq!(svc.pull(SUB, 10).unwrap().len(), 1);
}

#[test]
fn an_expired_delivery_waits_for_an_explicit_backoff() {
    let mut svc = ready(CreateSubscriptionOptions {
        ack_deadline_secs: Some(10),
        min_retry_backoff_secs: Some(60),
        max_retry_backoff_secs: Some(600),
        ..Default::default()
    });
    svc.publish(TOPIC, vec![msg(b"x")]).unwrap();
    svc.pull(SUB, 10).unwrap();
    svc.clock.advance_secs(11);
    assert!(svc.pull(SUB, 10).unwrap().is_empty());
    svc.clock.advance_secs(60);
    assert_eq!(svc.pull(SUB, 10).unwrap().len(), 1);
}

#[test]
fn filters_decide_what_is_delivered() {
    let mut svc = ready(CreateSubscriptionOptions {
        filter: r#"attributes.kind = "keep""#.to_string(),
        ..Default::default()
    });
    let mut keep = StringMap::new();
    keep.insert("kind".to_string(), "keep".to_string());
    svc.publish(
        TOPIC,
        vec![
            msg(b"drop"),
            PublishMessage { data: b"keep".to_vec(), attributes: keep, ..Default::default() },
        ],
    )
    .unwrap();
    assert_eq!(data(&svc.pull(SUB, 10).unwrap()), vec!["keep"]);
}

#[test]
fn a_message_that_fails_too_often_goes_to_the_dead_letter_topic() {
    let mut svc = PubSubService::new_ephemeral_with_clock(MockClock::new(1_000_000));
    svc.create_topic(TOPIC, labels()).unwrap();
    svc.create_topic("projects/proj/topics/dlq1", labels()).unwrap();
    svc.create_subscription(
        SUB,
        TOPIC,
        CreateSubscriptionOptions {
            dead_letter_topic: Some("projects/proj/topics/dlq1".to_string()),
            max_delivery_attempts: Some(5),
            ..Default::default()
        },
    )
    .unwrap();
    svc.create_subscription(
        "projects/proj/subscriptions/dead",
        "projects/proj/topics/dlq1",
        CreateSubscriptionOptions::default(),
    )
    .unwrap();
    svc.publish(TOPIC, vec![msg(b"poison")]).unwrap();
    for attempt in 1..=5 {
        let pulled = svc.pull(SUB, 10).unwrap();
        assert_eq!(pulled.len(), 1, "attempt {attempt}");
        assert_eq!(pulled[0].delivery_attempt, attempt);
        svc.modify_ack_deadline(SUB, vec![pulled[0].ack_id.clone()], 0).unwrap();
    }
    assert!(svc.pull(SUB, 10).unwrap().is_empty());
    let dead = svc.pull("projects/proj/subscriptions/dead", 10).unwrap();
    assert_eq!(data(&dead), vec!["poison"]);
    assert_eq!(
        dead[0].attributes.get("CloudPubSubDeadLetterSourceDeliveryCount"),
        Some(&"5".to_string())
    );
    assert_eq!(
        dead[0].attributes.get("CloudPubSubDeadLetterSourceSubscription"),
        Some(&SUB.to_string())
    );
}

#[test]
fn ordered_messages_with_the_same_key_come_one_after_the_other() {
    let mut svc = ready(CreateSubscriptionOptions {
        enable_message_ordering: true,
        ..Default::default()
    });
    let keyed = |d: &[u8], key: &str| PublishMessage {
        data: d.to_vec(),
        ordering_key: key.to_string(),
        ..Default::default()
    };
    svc.publish(TOPIC, vec![keyed(b"a1", "a"), keyed(b"b1", "b"), keyed(b"a2", "a")]).unwrap();
    let pulled = svc.pull(SUB, 10).unwrap();
    let seen = data(&pulled);
    let a1 = seen.iter().position(|d| d == "a1").unwrap();
    if let Some(a2) = seen.iter().position(|d| d == "a2") {
        assert!(a1 < a2);
    }
}

#[test]
fn seeking_to_a_snapshot_brings_messages_back() {
    let mut svc = ready(CreateSubscriptionOptions::default());
    svc.publish(TOPIC, vec![msg(b"a"), msg(b"b")]).unwrap();
    svc.create_snapshot("projects/proj/snapshots/snap1", SUB, labels()).unwrap();
    let pulled = svc.pull(SUB, 10).unwrap();
    let ids: Vec<String> = pulled.iter().map(|m| m.ack_id.clone()).collect();
    svc.acknowledge(SUB, ids).unwrap();
    assert!(svc.pull(SUB, 10).unwrap().is_empty());
    svc.seek_to_snapshot(SUB, "projects/proj/snapshots/snap1").unwrap();
    assert_eq!(data(&svc.pull(SUB, 10).unwrap()), vec!["a", "b"]);
    assert_eq!(
        svc.list_topic_snapshots(TOPIC).unwrap(),
        vec!["projects/proj/snapshots/snap1".to_string()]
    );
}

#[test]
fn seeking_to_a_time_splits_the_log_there() {
    let mut svc = ready(CreateSubscriptionOptions::default());
    svc.publish(TOPIC, vec![msg(b"early")]).unwrap();
    svc.clock.advance_secs(100);
    svc.publish(TOPIC, vec![msg(b"late")]).unwrap();
    svc.seek_to_time(SUB, 1_050_000).unwrap();
    assert_eq!(data(&svc.pull(SUB, 10).unwrap()), vec!["late"]);
    svc.seek_to_time(SUB, 0).unwrap();
    assert_eq!(data(&svc.pull(SUB, 10).unwrap()), vec!["early", "late"]);
}

#[test]
fn a_snapshot_of_another_topic_is_refused() {
    let mut svc = ready(CreateSubscriptionOptions::default());
    svc.create_topic("projects/proj/topics/top2", labels()).unwrap();
    svc.create_subscription(
        "projects/proj/subscriptions/sub2",
        "projects/proj/topics/top2",
        CreateSubscriptionOptions::default(),
    )
    .unwrap();
    svc.create_snapshot(
        "projects/proj/snapshots/snap2",
        "projects/proj/subscriptions/sub2",
        labels(),
    )
    .unwrap();
    assert!(matches!(
        svc.seek_to_snapshot(SUB, "projects/proj/snapshots/snap2"),
        Err(Error::InvalidArgument { .. })
    ));
}

#[test]
fn a_full_store_refuses_messages() {
    let mut svc = ready(CreateSubscriptionOptions::default()).with_max_disk_bytes(100);
    assert!(matches!(
        svc.publish_at(TOPIC, vec![msg(b"x")], 100, 5),
        Err(Error::ResourceExhausted { message })
            if message == "storage.max_disk_bytes (100) reached; rejecting new writes"
    ));
    assert!(svc.publish_at(TOPIC, vec![msg(b"x")], 99, 5).is_ok());
    assert_eq!(svc.disk_usage_bytes(), 0);
}

#[test]
fn pulling_too_many_messages_is_refused() {
    let mut svc = ready(CreateSubscriptionOptions::default());
    assert!(matches!(svc.pull(SUB, 1_001), Err(Error::InvalidArgument { .. })));
    assert!(svc.pull(SUB, 0).is_ok());
}

#[test]
fn deleting_a_topic_detaches_its_subscriptions() {
    let mut svc = ready(CreateSubscriptionOptions::default());
    svc.delete_topic(TOPIC).unwrap();
    let sub = svc.get_subscription(SUB).unwrap();
    assert!(sub.detached);
    assert!(matches!(svc.pull(SUB, 1), Err(Error::FailedPrecondition { .. })));
}

#[test]
fn a_name_can_be_used_again_after_deletion() {
    let mut svc = ready(CreateSubscriptionOptions::default());
    let before = svc.get_topic(TOPIC).unwrap().id;
    svc.publish(TOPIC, vec![msg(b"old")]).unwrap();
    svc.delete_topic(TOPIC).unwrap();
    svc.create_topic(TOPIC, labels()).unwrap();
    assert_ne!(svc.get_topic(TOPIC).unwrap().id, before);
    svc.create_subscription(
        "projects/proj/subscriptions/sub2",
        TOPIC,
        CreateSubscriptionOptions::default(),
    )
    .unwrap();
    assert!(svc.pull("projects/proj/subscriptions/sub2", 10).unwrap().is_empty());
}

#[test]
fn maintenance_removes_what_has_expired() {
    let mut svc = ready(CreateSubscriptionOptions::default());
    svc.publish(TOPIC, vec![msg(b"x"), msg(b"y")]).unwrap();
    let soon = maintain(&mut svc, 1_000_001);
    assert_eq!(soon.stats.messages_expired, 0);
    assert_eq!((soon.subscriptions, soon.topics), (1, 1));
    let month_ms: i64 = 31 * 24 * 3_600_000;
    let late = maintain(&mut svc, 1_000_000 + month_ms);
    assert_eq!(late.stats.messages_expired, 2);
    assert_eq!((late.subscriptions, late.topics), (0, 1));
    assert!(matches!(svc.get_subscription(SUB), Err(Error::NotFound { .. })));
}

#[test]
fn using_a_subscription_keeps_it_from_expiring() {
    let mut svc = ready(CreateSubscriptionOptions::default());
    let month_secs: i64 = 31 * 24 * 3_600;
    svc.clock.advance_secs(month_secs - 10);
    svc.pull(SUB, 1).unwrap();
    svc.clock.advance_secs(20);
    svc.sweep_retention();
    assert!(svc.get_subscription(SUB).is_ok());
    svc.clock.advance_secs(month_secs);
    svc.sweep_retention();
    assert!(svc.get_subscription(SUB).is_err());
}

#[test]
fn publishing_wakes_the_subscriptions_of_the_topic() {
    let mut svc = ready(CreateSubscriptionOptions::default());
    let id = svc.get_subscription(SUB).unwrap().id;
    svc.publish(TOPIC, vec![msg(b"x")]).unwrap();
    assert_eq!(svc.engine.take_wakeups(), vec![id]);
    assert!(svc.engine.take_wakeups().is_empty());
}

#[test]
fn a_service_over_an_old_store_goes_on_where_the_other_stopped() {
    let mut svc = ready(CreateSubscriptionOptions::default());
    svc.publish(TOPIC, vec![msg(b"a"), msg(b"b")]).unwrap();
    let pulled = svc.pull(SUB, 1).unwrap();
    let mut again = PubSubService::new(svc.kv, MockClock::new(1_000_500));
    assert_eq!(data(&again.pull(SUB, 10).unwrap()), vec!["b"]);
    again.acknowledge(SUB, vec![pulled[0].ack_id.clone()]).unwrap();
    again.clock.advance_secs(3_600);
    assert_eq!(data(&again.pull(SUB, 10).unwrap()), vec!["b"]);
}

#[test]
fn updates_change_only_what_they_give() {
    let mut svc = ready(CreateSubscriptionOptions::default());
    let before = svc.get_subscription(SUB).unwrap();
    let after = svc
        .update_subscription(
            SUB,
            SubscriptionUpdatePatch { ack_deadline_secs: Some(99), ..Default::default() },
        )
        .unwrap();
    assert_eq!(after.ack_deadline_secs, 99);
    assert_eq!(after.message_retention_secs, before.message_retention_secs);
    assert_eq!(after.filter, before.filter);
}

#[test]
fn a_stream_tells_the_attempts_only_with_a_dead_letter_policy() {
    let mut svc = ready(CreateSubscriptionOptions::default());
    svc.publish(TOPIC, vec![msg(b"x")]).unwrap();
    let (stream, _) = svc.open_stream(SUB, 10, 10, 0).unwrap();
    let got = svc.lease_for_stream(stream).unwrap();
    assert_eq!((got[0].message_id.as_str(), got[0].delivery_attempt), ("1", 0));

    let mut svc = PubSubService::new_ephemeral_with_clock(MockClock::new(1_000_000));
    svc.create_topic(TOPIC, labels()).unwrap();
    svc.create_topic("projects/proj/topics/dlq1", labels()).unwrap();
    svc.create_subscription(
        SUB,
        TOPIC,
        CreateSubscriptionOptions {
            dead_letter_topic: Some("projects/proj/topics/dlq1".to_string()),
            ..Default::default()
        },
    )
    .unwrap();
    svc.publish(TOPIC, vec![msg(b"x")]).unwrap();
    let (stream, _) = svc.open_stream(SUB, 10, 10, 0).unwrap();
    assert_eq!(svc.lease_for_stream(stream).unwrap()[0].delivery_attempt, 1);
}

#[test]
fn taking_the_dead_letter_topic_away_takes_the_threshold_too() {
    let mut svc = ready(CreateSubscriptionOptions {
        dead_letter_topic: Some("projects/proj/topics/dlq1".to_string()),
        max_delivery_attempts: Some(7),
        ..Default::default()
    });
    assert_eq!(svc.get_subscription(SUB).unwrap().max_delivery_attempts, 7);
    let patch = SubscriptionUpdatePatch { dead_letter_topic: Some(None), ..Default::default() };
    let updated = svc.update_subscription(SUB, patch).unwrap();
    assert_eq!((updated.dead_letter_topic, updated.max_delivery_attempts), (None, 0));
    let patch = SubscriptionUpdatePatch { max_delivery_attempts: Some(9), ..Default::default() };
    assert_eq!(svc.update_subscription(SUB, patch).unwrap().max_delivery_attempts, 0);
}

#[test]
fn an_ack_id_of_another_subscription_acknowledges_nothing() {
    let mut svc = ready(CreateSubscriptionOptions::default());
    let other = "projects/proj/subscriptions/sub2";
    svc.create_subscription(other, TOPIC, CreateSubscriptionOptions::default()).unwrap();
    svc.publish(TOPIC, vec![msg(b"x")]).unwrap();
    svc.pull(SUB, 10).unwrap();
    let theirs = svc.pull(other, 10).unwrap();
    svc.acknowledge(SUB, vec![theirs[0].ack_id.clone()]).unwrap();
    svc.clock.advance_secs(11);
    assert_eq!(svc.pull(SUB, 10).unwrap().len(), 1);
    assert_eq!(svc.pull(other, 10).unwrap().len(), 1);
}

#[test]
fn following_tokens_gives_each_subscription_and_topic_of_a_project_once() {
    let mut svc = PubSubService::new_ephemeral_with_clock(MockClock::new(1_000_000));
    for project in ["p", "pp", "q"] {
        for i in [3, 1, 4, 0, 2] {
            let topic = format!("projects/{project}/topics/top{i}");
            svc.create_topic(&topic, labels()).unwrap();
            svc.create_subscription(
                &format!("projects/{project}/subscriptions/sub{i}"),
                &topic,
                CreateSubscriptionOptions::default(),
            )
            .unwrap();
        }
    }
    let names: Vec<String> = (0..5).map(|i| format!("projects/p/subscriptions/sub{i}")).collect();
    let topic_names: Vec<String> = (0..5).map(|i| format!("projects/p/topics/top{i}")).collect();
    for (size, pages) in [(1, 5), (2, 3), (3, 2), (5, 1), (6, 1)] {
        let mut seen: Vec<String> = Vec::new();
        let mut token: Option<String> = None;
        for n in 0..pages {
            let (page, next) = svc.list_subscriptions("p", size, token.as_deref()).unwrap();
            assert_eq!(next.is_none(), n + 1 == pages);
            seen.extend(page.iter().map(|s| s.name.clone()));
            token = next;
        }
        assert_eq!(seen, names);
        let mut seen: Vec<String> = Vec::new();
        let mut token: Option<String> = None;
        for n in 0..pages {
            let (page, next) = svc.list_topics("p", size, token.as_deref()).unwrap();
            assert_eq!(next.is_none(), n + 1 == pages);
            seen.extend(page.iter().map(|t| t.name.clone()));
            token = next;
        }
        assert_eq!(seen, topic_names);
    }
    let (all, next) = svc.list_subscriptions("p", 0, None).unwrap();
    assert_eq!(all.iter().map(|s| s.name.clone()).collect::<Vec<_>>(), names);
    assert_eq!(next, None);
}

#[test]
fn deleting_a_subscription_removes_it_and_nothing_else() {
    let mut svc = ready(CreateSubscriptionOptions::default());
    let other = "projects/proj/subscriptions/sub2";
    svc.create_subscription(other, TOPIC, CreateSubscriptionOptions::default()).unwrap();
    svc.publish(TOPIC, vec![msg(b"a")]).unwrap();
    let gone = svc.get_subscription(SUB).unwrap();
    let kept = svc.get_subscription(other).unwrap();
    svc.delete_subscription(SUB).unwrap();
    assert!(matches!(
        svc.get_subscription(SUB).unwrap_err(),
        Error::NotFound { resource } if resource == SUB
    ));
    assert!(matches!(svc.subs.get_by_id(&svc.kv, gone.id).unwrap_err(), Error::NotFound { .. }));
    assert_eq!(svc.list_topic_subscriptions(TOPIC).unwrap(), vec![other.to_string()]);
    assert_eq!(svc.get_subscription(other).unwrap().id, kept.id);
    assert_eq!(data(&svc.pull(other, 10).unwrap()), vec!["a".to_string()]);
    assert!(matches!(
        svc.delete_subscription(SUB).unwrap_err(),
        Error::NotFound { resource } if resource == SUB
    ));
    assert_eq!(svc.list_subscriptions("proj", 0, None).unwrap().0.len(), 1);
}
