use open_pubusb::clock::MockClock;
use open_pubusb::metrics::PUSH_REQUESTS_TOTAL;
use open_pubusb::push::dispatcher::{is_success, Dispatcher, DispatcherSettings, Step};
use open_pubusb::push::envelope::{build, build_no_wrapper, build_wrapped};
use open_pubusb::push::manager::{Change, PushManager};
use open_pubusb::service::{PubSubService, PublishMessage, PulledMessage};
use open_pubusb::store::kv::MemKv;
use open_pubusb::string_map::StringMap;
use open_pubusb::subscription::{CreateSubscriptionOptions, PushConfig, SubscriptionRecord};

const TOPIC: &str = "projects/p/topics/top1";
const SUB: &str = "projects/p/subscriptions/sub1";

fn sample_message() -> PulledMessage {
    let mut attributes = StringMap::new();
    attributes.insert("k".to_string(), "v".to_string());
    PulledMessage {
        ack_id: "ack-1".to_string(),
        message_id: "42".to_string(),
        data: b"hello".to_vec(),
        attributes,
        ordering_key: "order-a".to_string(),
        publish_time_ms: 1_700_000_000_000,
        delivery_attempt: 1,
    }
}

// -- envelopes

#[test]
fn wrapped_envelope_has_both_key_styles() {
    let body = build_wrapped("projects/p/subscriptions/s", &sample_message(), None);
    let v: serde_json::Value = serde_json::from_slice(&body.body).unwrap();
    assert_eq!(v["message"]["messageId"], "42");
    assert_eq!(v["message"]["message_id"], "42");
    assert!(v["message"].get("publishTime").is_some());
    assert!(v["message"].get("publish_time").is_some());
    assert_eq!(v["message"]["orderingKey"], "order-a");
    assert_eq!(v["message"]["ordering_key"], "order-a");
    assert_eq!(v["subscription"], "projects/p/subscriptions/s");
    assert!(v["message"].get("deliveryAttempt").is_none());
}

#[test]
fn wrapped_envelope_includes_delivery_attempt_when_given() {
    let body = build_wrapped("projects/p/subscriptions/s", &sample_message(), Some(3));
    let v: serde_json::Value = serde_json::from_slice(&body.body).unwrap();
    assert_eq!(v["message"]["deliveryAttempt"], 3);
    assert_eq!(v["message"]["delivery_attempt"], 3);
}

#[test]
fn no_wrapper_sends_raw_body_and_metadata_headers() {
    let body = build_no_wrapper("projects/p/subscriptions/s", &sample_message(), false);
    assert_eq!(body.body, b"hello");
    assert!(body
        .extra_headers
        .iter()
        .any(|(k, v)| k == "x-goog-pubsub-message-id" && v == "42"));
    assert!(!body.extra_headers.iter().any(|(k, _)| k == "k"));
}

#[test]
fn no_wrapper_with_write_metadata_includes_attribute_headers() {
    let body = build_no_wrapper("projects/p/subscriptions/s", &sample_message(), true);
    assert!(body.extra_headers.iter().any(|(k, v)| k == "k" && v == "v"));
}

#[test]
fn the_wrapped_body_is_this_text() {
    let body = build("projects/p/subscriptions/s", &sample_message(), Some(7), false, true);
    assert_eq!(body.content_type, "application/json");
    assert!(body.extra_headers.is_empty());
    assert_eq!(
        String::from_utf8(body.body).unwrap(),
        "{\"message\":{\"attributes\":{\"k\":\"v\"},\"data\":\"aGVsbG8=\",\
         \"deliveryAttempt\":7,\"delivery_attempt\":7,\
         \"messageId\":\"42\",\"message_id\":\"42\",\
         \"orderingKey\":\"order-a\",\"ordering_key\":\"order-a\",\
         \"publishTime\":\"2023-11-14T22:13:20Z\",\"publish_time\":\"2023-11-14T22:13:20Z\"},\
         \"subscription\":\"projects/p/subscriptions/s\"}"
    );
}

#[test]
fn texts_are_escaped_and_an_empty_key_is_left_out() {
    let mut m = sample_message();
    m.ordering_key = String::new();
    m.attributes.insert("q\"".to_string(), "line\nbreak \u{1F600}".to_string());
    let body = build_wrapped("projects/p/subscriptions/s", &m, None);
    let v: serde_json::Value = serde_json::from_slice(&body.body).unwrap();
    assert_eq!(v["message"]["attributes"]["q\""], "line\nbreak \u{1F600}");
    assert!(v["message"].get("orderingKey").is_none());
    assert_eq!(v["message"]["data"], "aGVsbG8=");
}

#[test]
fn a_time_without_a_date_is_shown_as_the_epoch() {
    let mut m = sample_message();
    m.publish_time_ms = i64::MAX;
    let body = build_no_wrapper("s", &m, false);
    assert!(body
        .extra_headers
        .contains(&("x-goog-pubsub-publish-time".to_string(), "1970-01-01T00:00:00Z".to_string())));
    m.publish_time_ms = 253_402_207_200_000;
    let body = build_no_wrapper("s", &m, false);
    assert!(body
        .extra_headers
        .contains(&("x-goog-pubsub-publish-time".to_string(), "9999-12-30T22:00:00Z".to_string())));
    m.publish_time_ms = 253_402_207_200_001;
    let body = build_no_wrapper("s", &m, false);
    assert!(body
        .extra_headers
        .contains(&("x-goog-pubsub-publish-time".to_string(), "1970-01-01T00:00:00Z".to_string())));
    m.publish_time_ms = -377_705_023_201_000;
    let body = build_no_wrapper("s", &m, false);
    assert!(body
        .extra_headers
        .contains(&("x-goog-pubsub-publish-time".to_string(), "-009999-01-02T01:59:59Z".to_string())));
    m.publish_time_ms = -377_705_023_201_001;
    let body = build_no_wrapper("s", &m, false);
    assert!(body
        .extra_headers
        .contains(&("x-goog-pubsub-publish-time".to_string(), "1970-01-01T00:00:00Z".to_string())));
}

// -- dispatchers

fn config(endpoint: &str) -> PushConfig {
    PushConfig { endpoint: endpoint.to_string(), no_wrapper: false, write_metadata: false }
}

fn ready(messages: usize) -> PubSubService<MemKv, MockClock> {
    let mut svc = PubSubService::new_ephemeral_with_clock(MockClock::new(1_000_000));
    svc.create_topic(TOPIC, StringMap::new()).unwrap();
    svc.create_subscription(
        SUB,
        TOPIC,
        CreateSubscriptionOptions {
            push_config: Some(config("http://localhost/a")),
            ..Default::default()
        },
    )
    .unwrap();
    for i in 0..messages {
        svc.publish(
            TOPIC,
            vec![PublishMessage { data: format!("m{i}").into_bytes(), ..Default::default() }],
        )
        .unwrap();
    }
    svc
}

fn settings(svc: &PubSubService<MemKv, MockClock>, max_concurrency: u32) -> DispatcherSettings {
    let sub = svc.get_subscription(SUB).unwrap();
    DispatcherSettings {
        subscription: sub.name.clone(),
        sub_id: sub.id,
        ack_deadline_secs: sub.ack_deadline_secs,
        min_retry_backoff_secs: sub.min_retry_backoff_secs,
        max_retry_backoff_secs: sub.max_retry_backoff_secs,
        dead_letter_configured: false,
        push_config: config("http://localhost/a"),
        push_timeout_secs: 0,
        max_concurrency,
    }
}

fn leased(step: Step) -> Vec<PulledMessage> {
    match step {
        Step::Deliver(messages) => messages,
        other => panic!("expected messages, got {other:?}"),
    }
}

#[test]
fn only_five_statuses_take_a_message() {
    let taken: Vec<u16> = (0..600).filter(|s| is_success(*s)).collect();
    assert_eq!(taken, vec![102, 200, 201, 202, 204]);
}

#[test]
fn a_dispatcher_leases_as_much_as_it_may_have_out() {
    let mut svc = ready(3);
    let s = settings(&svc, 0);
    assert_eq!((s.concurrency(), s.timeout_secs()), (1, 1));
    let d = Dispatcher::open(&mut svc, s).unwrap();
    let first = leased(d.next(&mut svc, false, 1_000_000));
    assert_eq!(first.len(), 1);
    assert!(matches!(d.next(&mut svc, false, 1_000_000), Step::Wait));
    let sample = d.settle(&mut svc, first[0].ack_id.clone(), Some(200), 1_000_000);
    assert_eq!(sample.name, PUSH_REQUESTS_TOTAL);
    assert_eq!(sample.labels[1], ("result", "ok".to_string()));
    assert_eq!(leased(d.next(&mut svc, false, 1_000_000))[0].data, b"m1");
}

#[test]
fn a_message_that_is_not_taken_is_put_off_and_sent_again() {
    let mut svc = ready(1);
    let s = settings(&svc, 4);
    let d = Dispatcher::open(&mut svc, s).unwrap();
    let first = leased(d.next(&mut svc, false, 1_000_000));
    assert_eq!(first[0].delivery_attempt, 0);
    let sample = d.settle(&mut svc, first[0].ack_id.clone(), Some(203), 1_000_000);
    assert_eq!(sample.labels[1], ("result", "fail".to_string()));
    assert!(matches!(d.next(&mut svc, false, 1_000_100), Step::Wait));
    let again = leased(d.next(&mut svc, false, 1_000_000 + 10_001));
    assert_ne!(again[0].ack_id, first[0].ack_id);
    // The second failure is put off for twice as long.
    d.settle(&mut svc, again[0].ack_id.clone(), None, 1_020_000);
    assert!(matches!(d.next(&mut svc, false, 1_020_000 + 19_999), Step::Wait));
    assert_eq!(leased(d.next(&mut svc, false, 1_020_000 + 20_001)).len(), 1);
}

#[test]
fn a_message_that_keeps_failing_does_not_block_its_dispatcher() {
    let mut svc = ready(2);
    let s = settings(&svc, 1);
    let d = Dispatcher::open(&mut svc, s).unwrap();
    let first = leased(d.next(&mut svc, false, 1_000_000));
    assert_eq!(first[0].data, b"m0");
    d.settle(&mut svc, first[0].ack_id.clone(), Some(500), 1_000_000);
    let second = leased(d.next(&mut svc, false, 1_000_000));
    assert_eq!(second[0].data, b"m1");
    d.settle(&mut svc, second[0].ack_id.clone(), Some(200), 1_000_000);
    let again = leased(d.next(&mut svc, false, 1_000_000 + 10_001));
    assert_eq!(again[0].data, b"m0");
    // What is still put off when the dispatcher ends can be had at once.
    d.settle(&mut svc, again[0].ack_id.clone(), None, 1_020_000);
    svc.close_stream(d.stream_id);
    let next = settings(&svc, 1);
    let d = Dispatcher::open(&mut svc, next).unwrap();
    assert_eq!(leased(d.next(&mut svc, false, 1_020_000))[0].data, b"m0");
}

#[test]
fn a_dispatcher_stops_when_told_and_when_its_stream_is_gone() {
    let mut svc = ready(1);
    let s = settings(&svc, 4);
    let d = Dispatcher::open(&mut svc, s).unwrap();
    assert!(matches!(d.next(&mut svc, true, 1_000_000), Step::Stop(None)));
    svc.close_stream(d.stream_id);
    assert!(matches!(d.next(&mut svc, false, 1_000_000), Step::Stop(Some(_))));
    svc.delete_subscription(SUB).unwrap();
    let mut s2 = ready(0);
    let gone = settings(&s2, 1);
    s2.delete_subscription(SUB).unwrap();
    assert!(Dispatcher::open(&mut s2, gone).is_err());
}

#[test]
fn the_attempts_are_told_only_with_a_dead_letter_policy() {
    let mut svc = ready(0);
    let mut s = settings(&svc, 1);
    s.dead_letter_configured = true;
    let d = Dispatcher::open(&mut svc, s).unwrap();
    let v: serde_json::Value = serde_json::from_slice(&d.request(&sample_message()).body).unwrap();
    assert_eq!(v["message"]["deliveryAttempt"], 1);
    let s = settings(&svc, 1);
    let d = Dispatcher::open(&mut svc, s).unwrap();
    let v: serde_json::Value = serde_json::from_slice(&d.request(&sample_message()).body).unwrap();
    assert!(v["message"].get("deliveryAttempt").is_none());
}

// -- which dispatchers run

fn subs_of(svc: &PubSubService<MemKv, MockClock>) -> Vec<SubscriptionRecord> {
    svc.list_all_subscriptions()
}

#[test]
fn dispatchers_follow_the_configurations() {
    let mut svc = ready(0);
    let id = svc.get_subscription(SUB).unwrap().id;
    let mut manager = PushManager::new(10, 16);

    let changes = manager.reconcile(&subs_of(&svc), &Vec::new());
    assert_eq!(changes.len(), 1);
    match &changes[0] {
        Change::Start(s) => {
            assert_eq!(s.sub_id, id);
            assert_eq!(s.push_config.endpoint, "http://localhost/a");
            assert_eq!((s.push_timeout_secs, s.max_concurrency), (10, 16));
        }
        other => panic!("expected a start, got {other:?}"),
    }
    assert!(manager.reconcile(&subs_of(&svc), &Vec::new()).is_empty());

    svc.modify_push_config(SUB, Some(config("http://localhost/b"))).unwrap();
    let changes = manager.reconcile(&subs_of(&svc), &Vec::new());
    assert!(matches!(&changes[0], Change::Stop(i) if *i == id));
    assert!(matches!(&changes[1], Change::Start(s) if s.push_config.endpoint == "http://localhost/b"));

    let changes = manager.reconcile(&subs_of(&svc), &vec![id]);
    assert_eq!(changes.len(), 1);
    assert!(matches!(&changes[0], Change::Start(_)));

    svc.modify_push_config(SUB, None).unwrap();
    let changes = manager.reconcile(&subs_of(&svc), &Vec::new());
    assert!(matches!(changes.as_slice(), [Change::Stop(i)] if *i == id));
}

#[test]
fn dispatchers_of_deleted_subscriptions_are_stopped() {
    let mut svc = ready(0);
    let id = svc.get_subscription(SUB).unwrap().id;
    let mut manager = PushManager::new(10, 16);
    manager.reconcile(&subs_of(&svc), &Vec::new());
    svc.delete_subscription(SUB).unwrap();
    let changes = manager.reconcile(&subs_of(&svc), &Vec::new());
    assert!(matches!(changes.as_slice(), [Change::Stop(i)] if *i == id));
    assert!(manager.shutdown().is_empty());
}

#[test]
fn a_shutdown_stops_every_dispatcher() {
    let svc = ready(0);
    let id = svc.get_subscription(SUB).unwrap().id;
    let mut manager = PushManager::new(10, 16);
    manager.reconcile(&subs_of(&svc), &Vec::new());
    assert_eq!(manager.shutdown(), vec![id]);
    assert!(manager.shutdown().is_empty());
}
