use open_pubusb::clock::MockClock;
use open_pubusb::error::Error;
use open_pubusb::grpc::convert::{
    duration_to_secs, ms_to_timestamp, secs_to_duration, timestamp_to_ms, Duration, Timestamp,
};
use open_pubusb::grpc::iam::IamPolicyImpl;
use open_pubusb::grpc::messages::{
    DeadLetterPolicy, ExpirationPolicy, PushConfig, RetryPolicy, Snapshot, State, Subscription,
    Topic, Wrapper,
};
use open_pubusb::grpc::publisher::{PublisherService, UpdateTopicRequest};
use open_pubusb::grpc::schema::SchemaServiceImpl;
use open_pubusb::grpc::status::{to_status, Code};
use open_pubusb::grpc::streaming::{apply_request, next, open, SendStep, Signal, StreamingPullRequest};
use open_pubusb::grpc::subscriber::{
    SeekTarget, SubscriberService, UpdateSnapshotRequest, UpdateSubscriptionRequest,
};
use open_pubusb::rest::error::RestError;
use open_pubusb::rest::fallback;
use open_pubusb::rest::handlers::{
    acknowledge, bad_json, create_subscription, create_topic, delete_subscription, delete_topic,
    get_subscription, get_topic, list_subscriptions, list_topics, modify_ack_deadline,
    modify_push_config, publish, pull, split_verb, subscription_post, topic_post, AckIdsBody,
    CreateSubscriptionBody, CreateTopicBody, ModifyAckDeadlineBody, ModifyPushConfigBody,
    PublishBody, PublishMessageBody, PullBody, SubscriptionMethod,
};
use open_pubusb::service::{PubSubService, PublishMessage};
use open_pubusb::store::kv::MemKv;
use open_pubusb::string_map::StringMap;

const TOPIC: &str = "projects/p/topics/top1";
const SUB: &str = "projects/p/subscriptions/sub1";

fn service() -> PubSubService<MemKv, MockClock> {
    PubSubService::new_ephemeral_with_clock(MockClock::new(1_000_000))
}

fn topic(name: &str) -> Topic {
    Topic {
        name: name.to_string(),
        labels: StringMap::new(),
        message_retention_duration: None,
        kms_key_name: String::new(),
        has_schema_settings: false,
        has_ingestion_data_source_settings: false,
        state: State::Unspecified,
    }
}

fn subscription(name: &str, topic: &str) -> Subscription {
    Subscription {
        name: name.to_string(),
        topic: topic.to_string(),
        push_config: None,
        has_bigquery_config: false,
        has_cloud_storage_config: false,
        ack_deadline_seconds: 0,
        retain_acked_messages: false,
        message_retention_duration: None,
        labels: StringMap::new(),
        enable_message_ordering: false,
        expiration_policy: None,
        filter: String::new(),
        dead_letter_policy: None,
        retry_policy: None,
        detached: false,
        enable_exactly_once_delivery: false,
        state: State::Unspecified,
    }
}

fn msg(data: &[u8]) -> PublishMessage {
    PublishMessage { data: data.to_vec(), ..Default::default() }
}

fn ready() -> PubSubService<MemKv, MockClock> {
    let mut svc = service();
    PublisherService::new().create_topic(&mut svc, topic(TOPIC)).unwrap();
    SubscriberService::new(1800).create_subscription(&mut svc, subscription(SUB, TOPIC)).unwrap();
    svc
}

// -- times on the wire

#[test]
fn timestamp_round_trips_millisecond_precision() {
    let ms = 1_700_000_123_456;
    let ts = ms_to_timestamp(ms);
    assert_eq!(ts.seconds, 1_700_000_123);
    assert_eq!(ts.nanos, 456_000_000);
    assert_eq!(timestamp_to_ms(&ts), ms);
}

#[test]
fn timestamp_handles_zero() {
    assert_eq!(timestamp_to_ms(&ms_to_timestamp(0)), 0);
}

#[test]
fn duration_round_trips_whole_seconds() {
    let d = secs_to_duration(600);
    assert_eq!(duration_to_secs(&d), 600);
}

#[test]
fn times_before_the_epoch_count_their_nanoseconds_forward() {
    let ts = ms_to_timestamp(-1);
    assert_eq!((ts.seconds, ts.nanos), (-1, 999_000_000));
    assert_eq!(timestamp_to_ms(&ts), -1);
    assert_eq!(timestamp_to_ms(&Timestamp { seconds: 1, nanos: -1_999_999 }), 999);
    assert_eq!(timestamp_to_ms(&Timestamp { seconds: i64::MAX, nanos: 5_000_000 }), i64::MAX);
}

// -- statuses

#[test]
fn maps_every_variant_to_the_documented_code() {
    let cases = [
        (Error::NotFound { resource: "x".into() }, Code::NotFound),
        (Error::AlreadyExists { resource: "x".into() }, Code::AlreadyExists),
        (
            Error::InvalidArgument { field: "f".into(), message: "m".into() },
            Code::InvalidArgument,
        ),
        (Error::FailedPrecondition { message: "m".into() }, Code::FailedPrecondition),
        (Error::ResourceExhausted { message: "m".into() }, Code::ResourceExhausted),
        (Error::Unavailable { message: "m".into() }, Code::Unavailable),
        (Error::Unimplemented { method: "m".into() }, Code::Unimplemented),
        (Error::Internal { message: "m".into() }, Code::Internal),
    ];
    for (err, expected) in cases {
        assert_eq!(to_status(err).code, expected);
    }
}

#[test]
fn internal_error_message_is_not_leaked_to_the_client() {
    let status = to_status(Error::Internal { message: "sensitive detail".into() });
    assert!(!status.message.contains("sensitive detail"));
}

#[test]
fn services_that_are_not_there_say_so() {
    assert_eq!(IamPolicyImpl.unimplemented().code, Code::Unimplemented);
    assert_eq!(
        SchemaServiceImpl.unimplemented().message,
        "SchemaService is out of scope for this server"
    );
}

// -- the publisher

#[test]
fn topics_are_shown_as_they_were_made() {
    let mut svc = service();
    let publisher = PublisherService::new();
    let mut request = topic(TOPIC);
    request.message_retention_duration = Some(Duration { seconds: 700, nanos: 5 });
    request.kms_key_name = "key".to_string();
    let made = publisher.create_topic(&mut svc, request).unwrap();
    assert_eq!(made.state, State::Active);
    assert_eq!(made.message_retention_duration, Some(Duration { seconds: 700, nanos: 0 }));
    assert_eq!(made.kms_key_name, "");
    assert_eq!(publisher.get_topic(&svc, TOPIC).unwrap().name, TOPIC);
    let mut bad = topic("projects/p/topics/top2");
    bad.has_schema_settings = true;
    assert_eq!(publisher.create_topic(&mut svc, bad).unwrap_err().code, Code::InvalidArgument);
}

#[test]
fn updating_a_topic_takes_over_what_is_named() {
    let mut svc = service();
    let publisher = PublisherService::new();
    publisher.create_topic(&mut svc, topic(TOPIC)).unwrap();
    let mut changed = topic(TOPIC);
    changed.labels.insert("env".to_string(), "prod".to_string());
    changed.message_retention_duration = Some(Duration { seconds: 900, nanos: 0 });
    let after = publisher
        .update_topic(
            &mut svc,
            UpdateTopicRequest { topic: Some(changed), paths: vec!["labels".to_string()] },
        )
        .unwrap();
    assert_eq!(after.labels.get("env"), Some(&"prod".to_string()));
    assert_eq!(after.message_retention_duration, None);
    let status = publisher
        .update_topic(&mut svc, UpdateTopicRequest { topic: None, paths: Vec::new() })
        .unwrap_err();
    assert_eq!(status.message, "topic is required");
}

#[test]
fn lists_come_in_pages() {
    let mut svc = service();
    let publisher = PublisherService::new();
    for i in 0..3 {
        publisher.create_topic(&mut svc, topic(&format!("projects/p/topics/top{i}"))).unwrap();
    }
    let page = publisher.list_topics(&svc, "projects/p", 2, "").unwrap();
    assert_eq!(page.topics.len(), 2);
    assert!(!page.next_page_token.is_empty());
    let rest = publisher.list_topics(&svc, "p", 2, &page.next_page_token).unwrap();
    assert_eq!(rest.topics.len(), 1);
    assert_eq!(rest.next_page_token, "");
    assert_eq!(publisher.list_topics(&svc, "projects/p", 0, "").unwrap().topics.len(), 3);
}

#[test]
fn the_publisher_lists_what_hangs_on_a_topic() {
    let mut svc = ready();
    let publisher = PublisherService::new();
    let subscriber = SubscriberService::new(1800);
    assert_eq!(publisher.list_topic_subscriptions(&svc, TOPIC).unwrap(), vec![SUB.to_string()]);
    subscriber
        .create_snapshot(&mut svc, "projects/p/snapshots/snap1", SUB, StringMap::new())
        .unwrap();
    assert_eq!(
        publisher.list_topic_snapshots(&svc, TOPIC).unwrap(),
        vec!["projects/p/snapshots/snap1".to_string()]
    );
    assert_eq!(
        publisher.list_topic_snapshots(&svc, "projects/p/topics/none").unwrap_err().code,
        Code::NotFound
    );
    publisher.detach_subscription(&mut svc, SUB).unwrap();
    assert!(subscriber.get_subscription(&svc, SUB).unwrap().detached);
    publisher.delete_topic(&mut svc, TOPIC).unwrap();
    assert_eq!(publisher.get_topic(&svc, TOPIC).unwrap_err().code, Code::NotFound);
}

// -- the subscriber

#[test]
fn a_subscription_is_shown_as_it_was_asked_for() {
    let mut svc = service();
    PublisherService::new().create_topic(&mut svc, topic(TOPIC)).unwrap();
    let subscriber = SubscriberService::new(1800);
    let mut request = subscription(SUB, TOPIC);
    request.ack_deadline_seconds = 42;
    request.filter = "attributes:a".to_string();
    request.expiration_policy = Some(ExpirationPolicy { ttl: None });
    request.dead_letter_policy = Some(DeadLetterPolicy {
        dead_letter_topic: "projects/p/topics/dlq".to_string(),
        max_delivery_attempts: 9,
    });
    request.retry_policy = Some(RetryPolicy {
        minimum_backoff: Some(Duration { seconds: 3, nanos: 0 }),
        maximum_backoff: None,
    });
    request.push_config = Some(PushConfig {
        push_endpoint: "http://localhost/x".to_string(),
        has_authentication_method: true,
        wrapper: Wrapper::NoWrapper { write_metadata: true },
    });
    let made = subscriber.create_subscription(&mut svc, request).unwrap();
    assert_eq!(made.ack_deadline_seconds, 42);
    assert_eq!(made.filter, "attributes:a");
    assert_eq!(made.expiration_policy, Some(ExpirationPolicy { ttl: None }));
    assert_eq!(made.dead_letter_policy.unwrap().max_delivery_attempts, 9);
    let retry = made.retry_policy.unwrap();
    assert_eq!(retry.minimum_backoff, Some(Duration { seconds: 3, nanos: 0 }));
    assert_eq!(retry.maximum_backoff, Some(Duration { seconds: 600, nanos: 0 }));
    let push = made.push_config.unwrap();
    assert_eq!(push.wrapper, Wrapper::NoWrapper { write_metadata: true });
    assert!(!push.has_authentication_method);
    assert_eq!(made.state, State::Active);
}

#[test]
fn what_is_fixed_cannot_be_updated() {
    let mut svc = ready();
    let subscriber = SubscriberService::new(1800);
    for path in ["name", "topic", "enable_message_ordering", "filter"] {
        let status = subscriber
            .update_subscription(
                &mut svc,
                UpdateSubscriptionRequest {
                    subscription: Some(subscription(SUB, TOPIC)),
                    paths: vec![path.to_string()],
                },
            )
            .unwrap_err();
        assert_eq!(status.code, Code::InvalidArgument);
        assert_eq!(status.message, format!("{path}: {path} is immutable after creation"));
    }
    let status = subscriber
        .update_subscription(
            &mut svc,
            UpdateSubscriptionRequest { subscription: None, paths: Vec::new() },
        )
        .unwrap_err();
    assert_eq!(status.message, "subscription is required");
}

#[test]
fn an_update_takes_over_what_it_names() {
    let mut svc = ready();
    let subscriber = SubscriberService::new(1800);
    let mut changed = subscription(SUB, TOPIC);
    changed.ack_deadline_seconds = 77;
    changed.detached = true;
    changed.dead_letter_policy = Some(DeadLetterPolicy {
        dead_letter_topic: "projects/p/topics/dlq".to_string(),
        max_delivery_attempts: 11,
    });
    let after = subscriber
        .update_subscription(
            &mut svc,
            UpdateSubscriptionRequest {
                subscription: Some(changed),
                paths: vec!["dead_letter_policy".to_string(), "detached".to_string()],
            },
        )
        .unwrap();
    assert_eq!(after.ack_deadline_seconds, 10);
    assert!(!after.detached);
    assert_eq!(after.dead_letter_policy.unwrap().max_delivery_attempts, 11);
}

#[test]
fn publish_pull_and_acknowledge_over_the_services() {
    let mut svc = ready();
    let publisher = PublisherService::new();
    let subscriber = SubscriberService::new(1800);
    let empty = subscriber.pull(&mut svc, SUB, 0);
    assert!(subscriber.waits(&empty));
    let ids = publisher.publish(&mut svc, TOPIC, vec![msg(b"a"), msg(b"b")]).unwrap();
    let first = subscriber.pull(&mut svc, SUB, 0);
    assert!(!subscriber.waits(&first));
    let first = first.unwrap();
    assert_eq!(first.len(), 1);
    assert_eq!(first[0].message.data, b"a");
    assert_eq!(first[0].message.message_id, ids[0]);
    assert_eq!(first[0].message.publish_time, Timestamp { seconds: 1000, nanos: 0 });
    subscriber.modify_ack_deadline(&mut svc, SUB, vec![first[0].ack_id.clone()], 0).unwrap();
    let again = subscriber.pull(&mut svc, SUB, 10).unwrap();
    assert_eq!(again.len(), 2);
    let ack_ids: Vec<String> = again.iter().map(|m| m.ack_id.clone()).collect();
    subscriber.acknowledge(&mut svc, SUB, ack_ids).unwrap();
    svc.clock.advance_secs(3600);
    assert!(subscriber.pull(&mut svc, SUB, 10).unwrap().is_empty());
    subscriber
        .seek(&mut svc, SUB, SeekTarget::Time(Timestamp { seconds: 0, nanos: 0 }))
        .unwrap();
    assert_eq!(subscriber.pull(&mut svc, SUB, 10).unwrap().len(), 2);
    assert_eq!(
        subscriber.seek(&mut svc, SUB, SeekTarget::Unset).unwrap_err().message,
        "seek requires either time or snapshot"
    );
    let missing = subscriber.pull(&mut svc, "projects/p/subscriptions/none", 1);
    assert!(!subscriber.waits(&missing));
    assert_eq!(missing.unwrap_err().code, Code::NotFound);
}

#[test]
fn snapshots_over_the_service() {
    let mut svc = ready();
    let subscriber = SubscriberService::new(1800);
    let name = "projects/p/snapshots/snap1";
    let made = subscriber.create_snapshot(&mut svc, name, SUB, StringMap::new()).unwrap();
    assert_eq!(made.topic, TOPIC);
    let mut labels = StringMap::new();
    labels.insert("k".to_string(), "v".to_string());
    let wanted = |labels: StringMap| Snapshot {
        name: name.to_string(),
        topic: String::new(),
        expire_time: Timestamp { seconds: 0, nanos: 0 },
        labels,
    };
    let same = subscriber
        .update_snapshot(
            &mut svc,
            UpdateSnapshotRequest {
                snapshot: Some(wanted(labels.clone())),
                paths: vec!["expire_time".to_string()],
            },
        )
        .unwrap();
    assert!(same.labels.is_empty());
    let changed = subscriber
        .update_snapshot(
            &mut svc,
            UpdateSnapshotRequest { snapshot: Some(wanted(labels.clone())), paths: Vec::new() },
        )
        .unwrap();
    assert_eq!(changed.labels, labels);
    let status = subscriber
        .update_snapshot(
            &mut svc,
            UpdateSnapshotRequest {
                snapshot: Some(wanted(labels)),
                paths: vec!["topic".to_string()],
            },
        )
        .unwrap_err();
    assert_eq!(status.message, "name/topic: name and topic are immutable after creation");
    assert_eq!(subscriber.list_snapshots(&svc, "projects/p", 0, "").unwrap().snapshots.len(), 1);
    subscriber.seek(&mut svc, SUB, SeekTarget::Snapshot(name.to_string())).unwrap();
    subscriber.delete_snapshot(&mut svc, name).unwrap();
    assert_eq!(subscriber.get_snapshot(&svc, name).unwrap_err().code, Code::NotFound);
    subscriber.delete_subscription(&mut svc, SUB).unwrap();
    assert!(subscriber.list_subscriptions(&svc, "projects/p", 0, "").unwrap().subscriptions.is_empty());
}

// -- streams

fn first_request() -> StreamingPullRequest {
    StreamingPullRequest {
        subscription: SUB.to_string(),
        ack_ids: Vec::new(),
        modify_deadline_seconds: Vec::new(),
        modify_deadline_ack_ids: Vec::new(),
        stream_ack_deadline_seconds: 10,
        max_outstanding_messages: 10,
        max_outstanding_bytes: 0,
    }
}

#[test]
fn a_stream_needs_a_good_first_request() {
    let mut svc = ready();
    assert_eq!(open(&mut svc, &None).unwrap_err().message, "stream closed before any request");
    let mut request = first_request();
    request.subscription = String::new();
    assert_eq!(
        open(&mut svc, &Some(request)).unwrap_err().message,
        "the first request must set `subscription`"
    );
    for secs in [9, 601] {
        let mut request = first_request();
        request.stream_ack_deadline_seconds = secs;
        assert_eq!(
            open(&mut svc, &Some(request)).unwrap_err().message,
            "stream_ack_deadline_seconds must be between 10 and 600"
        );
    }
    let mut request = first_request();
    request.subscription = "projects/p/subscriptions/none".to_string();
    assert_eq!(open(&mut svc, &Some(request)).unwrap_err().code, Code::NotFound);
    let mut request = first_request();
    request.modify_deadline_seconds = vec![5];
    assert_eq!(
        open(&mut svc, &Some(request)).unwrap_err().message,
        "modify_deadline_seconds and modify_deadline_ack_ids must have the same length"
    );
}

#[test]
fn a_stream_delivers_until_it_has_to_end() {
    let mut svc = ready();
    let stream = open(&mut svc, &Some(first_request())).unwrap();
    assert!(!stream.message_ordering_enabled);
    assert!(matches!(next(&mut svc, stream.stream_id, Signal::Continue), SendStep::Wait));
    svc.publish(TOPIC, vec![msg(b"a"), msg(b"b")]).unwrap();
    let received = match next(&mut svc, stream.stream_id, Signal::Continue) {
        SendStep::Send(received) => received,
        other => panic!("expected messages, got {other:?}"),
    };
    assert_eq!(received.len(), 2);
    apply_request(
        &mut svc,
        stream.stream_id,
        stream.sub_id,
        &StreamingPullRequest {
            ack_ids: vec![received[0].ack_id.clone()],
            modify_deadline_seconds: vec![0],
            modify_deadline_ack_ids: vec![received[1].ack_id.clone()],
            ..first_request()
        },
    )
    .unwrap();
    match next(&mut svc, stream.stream_id, Signal::Continue) {
        SendStep::Send(again) => {
            assert_eq!(again.len(), 1);
            assert_eq!(again[0].message.data, b"b");
        }
        other => panic!("expected a message, got {other:?}"),
    }
    apply_request(&mut svc, stream.stream_id, stream.sub_id, &first_request()).unwrap();
    assert!(matches!(
        next(&mut svc, stream.stream_id, Signal::Cancelled),
        SendStep::Close(None)
    ));
    match next(&mut svc, stream.stream_id, Signal::ShuttingDown) {
        SendStep::Close(Some(s)) => assert_eq!(s.message, "server is shutting down"),
        other => panic!("expected a close, got {other:?}"),
    }
    match next(&mut svc, stream.stream_id, Signal::LifetimeElapsed) {
        SendStep::Close(Some(s)) => {
            assert_eq!(s.code, Code::Unavailable);
            assert_eq!(s.message, "StreamingPull stream lifetime elapsed; reconnect");
        }
        other => panic!("expected a close, got {other:?}"),
    }
    svc.close_stream(stream.stream_id);
    assert!(matches!(
        next(&mut svc, stream.stream_id, Signal::Continue),
        SendStep::Close(Some(_))
    ));
    assert_eq!(svc.pull(SUB, 10).unwrap().len(), 1);
}

// -- REST

#[test]
fn error_not_found_maps_to_404() {
    let err = RestError::Domain(Error::NotFound { resource: "x".into() });
    let resp = err.into_response();
    assert_eq!(resp.status, 404);
    assert_eq!(
        resp.body,
        "{\"error\":{\"code\":404,\"message\":\"x not found\",\"status\":\"NOT_FOUND\"}}"
    );
}

#[test]
fn error_unimplemented_maps_to_501() {
    let err = RestError::Unimplemented { message: "not done".into() };
    let resp = err.into_response();
    assert_eq!(resp.status, 501);
}

#[test]
fn fallback_returns_501() {
    let resp = fallback().into_response();
    assert_eq!(resp.status, 501);
    let v: serde_json::Value = serde_json::from_str(&resp.body).unwrap();
    assert_eq!(v["error"]["status"], "UNIMPLEMENTED");
    assert_eq!(v["error"]["message"], "this REST method is not implemented by this server");
}

#[test]
fn rest_errors_come_from_errors_and_hide_internals() {
    let err = RestError::from(Error::Internal { message: "secret".into() });
    let resp = err.into_response();
    assert_eq!(resp.status, 500);
    assert!(!resp.body.contains("secret"));
    let resp = bad_json("expected value").into_response();
    assert_eq!(resp.status, 400);
    assert!(resp.body.contains("body: invalid JSON: expected value"));
}

#[test]
fn verbs_are_split_off_at_the_first_colon() {
    assert_eq!(split_verb("t:publish"), ("t".to_string(), Some("publish".to_string())));
    assert_eq!(split_verb("t"), ("t".to_string(), None));
    assert_eq!(split_verb("a:b:c"), ("a".to_string(), Some("b:c".to_string())));
    assert_eq!(split_verb(":x"), (String::new(), Some("x".to_string())));
}

#[test]
fn posts_go_to_their_methods() {
    assert_eq!(topic_post("p", "top1:publish").unwrap(), TOPIC);
    for (verb, method) in [
        ("pull", SubscriptionMethod::Pull),
        ("acknowledge", SubscriptionMethod::Acknowledge),
        ("modifyAckDeadline", SubscriptionMethod::ModifyAckDeadline),
        ("modifyPushConfig", SubscriptionMethod::ModifyPushConfig),
    ] {
        let (found, name) = subscription_post("p", &format!("sub1:{verb}")).unwrap();
        assert_eq!(found, method);
        assert_eq!(name, SUB);
    }
    match subscription_post("p", "sub1:seek") {
        Err(RestError::Unimplemented { message }) => {
            assert_eq!(message, "no such method on this resource: \"sub1:seek\"")
        }
        _ => panic!("seeking is not part of this API"),
    }
    assert!(topic_post("p", "top1").is_err());
}

fn body(data: &str) -> PublishBody {
    PublishBody {
        messages: vec![PublishMessageBody {
            data: data.to_string(),
            attributes: StringMap::new(),
            ordering_key: String::new(),
        }],
    }
}

#[test]
fn a_round_trip_over_rest() {
    let mut svc = service();
    let mut labels = StringMap::new();
    labels.insert("env".to_string(), "dev".to_string());
    let made =
        create_topic(&mut svc, "p", "top1", Some(CreateTopicBody { labels: labels.clone() })).unwrap();
    assert_eq!(made.name, TOPIC);
    assert_eq!(get_topic(&svc, "p", "top1").unwrap().labels, labels);
    assert_eq!(list_topics(&svc, "p").unwrap().topics.len(), 1);

    let mut wanted = subscription("ignored", TOPIC);
    wanted.ack_deadline_seconds = 33;
    wanted.filter = "NOT attributes:skip".to_string();
    let sub =
        create_subscription(&mut svc, "p", "sub1", CreateSubscriptionBody { subscription: wanted })
            .unwrap();
    assert_eq!((sub.name.as_str(), sub.ack_deadline_seconds), (SUB, 33));
    assert_eq!(get_subscription(&svc, "p", "sub1").unwrap().filter, "NOT attributes:skip");
    assert_eq!(list_subscriptions(&svc, "p").unwrap().subscriptions.len(), 1);

    let answer = publish(&mut svc, TOPIC, body("aGVsbG8=")).unwrap();
    assert_eq!(answer.message_ids, vec!["1".to_string()]);
    let pulled = pull(&mut svc, SUB, Some(PullBody { max_messages: 5 })).unwrap();
    assert_eq!(pulled.received_messages[0].message.data, b"hello");
    let ack_id = pulled.received_messages[0].ack_id.clone();
    modify_ack_deadline(
        &mut svc,
        SUB,
        ModifyAckDeadlineBody { ack_ids: vec![ack_id], ack_deadline_seconds: 0 },
    )
    .unwrap();
    acknowledge(&mut svc, SUB, None).unwrap();
    let again = pull(&mut svc, SUB, None).unwrap();
    assert_eq!(again.received_messages.len(), 1);
    let ack_id = again.received_messages[0].ack_id.clone();
    acknowledge(&mut svc, SUB, Some(AckIdsBody { ack_ids: vec![ack_id] })).unwrap();
    svc.clock.advance_secs(3600);
    assert!(pull(&mut svc, SUB, None).unwrap().received_messages.is_empty());

    modify_push_config(
        &mut svc,
        SUB,
        ModifyPushConfigBody {
            push_config: Some(PushConfig {
                push_endpoint: "http://localhost/p".to_string(),
                has_authentication_method: false,
                wrapper: Wrapper::Unset,
            }),
        },
    )
    .unwrap();
    let push = get_subscription(&svc, "p", "sub1").unwrap().push_config.unwrap();
    assert_eq!(push.push_endpoint, "http://localhost/p");
    assert_eq!(push.wrapper, Wrapper::PubsubWrapper);

    delete_subscription(&mut svc, "p", "sub1").unwrap();
    delete_topic(&mut svc, "p", "top1").unwrap();
    assert!(matches!(get_topic(&svc, "p", "top1"), Err(Error::NotFound { .. })));
}

#[test]
fn data_that_is_not_base64_is_refused() {
    let mut svc = service();
    create_topic(&mut svc, "p", "top1", None).unwrap();
    match publish(&mut svc, TOPIC, body("a*b=")) {
        Err(Error::InvalidArgument { field, message }) => {
            assert_eq!(field, "data");
            assert!(message.starts_with("invalid base64: "), "{message}");
            assert!(message.len() > "invalid base64: ".len());
        }
        _ => panic!("accepted data that is not Base64"),
    }
}
