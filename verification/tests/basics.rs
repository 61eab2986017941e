use open_pubusb::clock::{time_told, Clock, MockClock, SystemClock};
use open_pubusb::delivery::dead_letter::{
    build_attributes, format_rfc3339_ms, should_dead_letter, DeadLetterPolicy, ATTR_DELIVERY_COUNT,
    ATTR_SUBSCRIPTION, ATTR_SUBSCRIPTION_PROJECT, ATTR_TOPIC_PUBLISH_TIME,
};
use open_pubusb::delivery::retry::{backoff_for_attempts, next_eligible_at_ms};
use open_pubusb::delivery::stream::{StreamInfo, StreamRegistry};
use open_pubusb::error::Error;
use open_pubusb::string_map::StringMap;
use std::time::Duration;

// -- clock

#[test]
fn mock_clock_starts_at_given_value() {
    let c = MockClock::new(1_000);
    assert_eq!(c.now_ms(), 1_000);
}

#[test]
fn mock_clock_advances() {
    let mut c = MockClock::new(1_000);
    c.advance(500);
    assert_eq!(c.now_ms(), 1_500);
    c.advance_secs(2);
    assert_eq!(c.now_ms(), 3_500);
}

#[test]
fn system_clock_is_positive_and_roughly_now() {
    let now = SystemClock.now_ms();
    assert!(now > 1_700_000_000_000);
}

// -- dead-lettering

#[test]
fn no_topic_never_dead_letters() {
    let policy = DeadLetterPolicy { topic: None, max_delivery_attempts: 5 };
    assert!(!should_dead_letter(100, &policy));
}

#[test]
fn unset_max_attempts_never_dead_letters() {
    let policy = DeadLetterPolicy {
        topic: Some("projects/p/topics/dlq".to_string()),
        max_delivery_attempts: 0,
    };
    assert!(!should_dead_letter(100, &policy));
}

#[test]
fn dead_letters_once_prior_attempts_reach_the_threshold() {
    let policy = DeadLetterPolicy {
        topic: Some("projects/p/topics/dlq".to_string()),
        max_delivery_attempts: 5,
    };
    assert!(!should_dead_letter(3, &policy));
    assert!(!should_dead_letter(4, &policy));
    assert!(should_dead_letter(5, &policy));
    assert!(should_dead_letter(6, &policy));
}

#[test]
fn build_attributes_adds_the_four_source_keys_and_keeps_original() {
    let mut original = StringMap::new();
    original.insert("k".to_string(), "v".to_string());
    let attrs = build_attributes(
        &original,
        6,
        "projects/proj-1/subscriptions/sub-a",
        1_700_000_000_123,
    );
    assert_eq!(attrs.get("k"), Some(&"v".to_string()));
    assert_eq!(attrs.get(ATTR_DELIVERY_COUNT), Some(&"6".to_string()));
    assert_eq!(
        attrs.get(ATTR_SUBSCRIPTION),
        Some(&"projects/proj-1/subscriptions/sub-a".to_string())
    );
    assert_eq!(attrs.get(ATTR_SUBSCRIPTION_PROJECT), Some(&"proj-1".to_string()));
    assert!(attrs.get(ATTR_TOPIC_PUBLISH_TIME).unwrap().ends_with('Z'));
}

#[test]
fn rfc3339_formatting_is_correct_for_a_known_instant() {
    assert_eq!(format_rfc3339_ms(1_700_000_000_123), "2023-11-14T22:13:20.123Z");
    assert_eq!(format_rfc3339_ms(0), "1970-01-01T00:00:00.000Z");
}

#[test]
fn rfc3339_formatting_knows_leap_days_and_times_before_the_epoch() {
    assert_eq!(format_rfc3339_ms(951_782_400_000), "2000-02-29T00:00:00.000Z");
    assert_eq!(format_rfc3339_ms(-1), "1969-12-31T23:59:59.999Z");
    assert_eq!(format_rfc3339_ms(4_107_542_400_000), "2100-03-01T00:00:00.000Z");
}

// -- retry

fn backoff(attempts: u32, min_secs: i64, max_secs: i64) -> Duration {
    Duration::from_millis(backoff_for_attempts(attempts, min_secs, max_secs) as u64)
}

#[test]
fn backoff_doubles_then_caps_at_max() {
    assert_eq!(backoff(1, 0, 60), Duration::from_millis(100));
    assert_eq!(backoff(2, 1, 60), Duration::from_secs(2));
    assert_eq!(backoff(3, 1, 60), Duration::from_secs(4));
    assert_eq!(backoff(20, 1, 60), Duration::from_secs(60));
}

#[test]
fn next_eligible_at_is_now_plus_backoff() {
    assert_eq!(next_eligible_at_ms(1_000, 1, 1, 60), 2_000);
}

#[test]
fn backoff_never_shrinks_and_stays_between_its_bounds() {
    let mut last = Duration::ZERO;
    for attempts in 0..40 {
        let b = backoff(attempts, 2, 90);
        assert!(b >= last);
        assert!(b >= Duration::from_secs(2) && b <= Duration::from_secs(90));
        last = b;
    }
    assert_eq!(last, Duration::from_secs(90));
    assert_eq!(backoff(5, 30, 10), Duration::from_secs(30));
    assert_eq!(backoff(1, -5, -5), Duration::from_millis(100));
    assert_eq!(next_eligible_at_ms(i64::MAX, 1, 1, 60), i64::MAX);
}

// -- streams

fn info() -> StreamInfo {
    StreamInfo {
        sub_id: 1,
        topic_id: 1,
        ack_deadline_secs: 10,
        max_outstanding_messages: 2,
        max_outstanding_bytes: 100,
    }
}

#[test]
fn budget_shrinks_as_messages_are_leased() {
    let mut reg = StreamRegistry::new();
    let id = reg.open(info());
    assert_eq!(reg.remaining_budget(id), (2, 100));
    reg.record_leased(id, 1, 40);
    assert_eq!(reg.remaining_budget(id), (1, 60));
    reg.record_leased(id, 2, 40);
    assert_eq!(reg.remaining_budget(id), (0, 20));
}

#[test]
fn resolving_a_message_frees_its_budget() {
    let mut reg = StreamRegistry::new();
    let id = reg.open(info());
    reg.record_leased(id, 1, 40);
    reg.record_resolved(id, 1);
    assert_eq!(reg.remaining_budget(id), (2, 100));
}

#[test]
fn unlimited_budget_is_i64_max() {
    let mut reg = StreamRegistry::new();
    let id = reg.open(StreamInfo {
        max_outstanding_messages: 0,
        max_outstanding_bytes: -1,
        ..info()
    });
    assert_eq!(reg.remaining_budget(id), (i64::MAX, i64::MAX));
}

#[test]
fn close_returns_outstanding_seqs_for_release() {
    let mut reg = StreamRegistry::new();
    let id = reg.open(info());
    reg.record_leased(id, 1, 10);
    reg.record_leased(id, 2, 10);
    let (sub_id, mut seqs) = reg.close(id).expect("session should exist");
    seqs.sort_unstable();
    assert_eq!(sub_id, 1);
    assert_eq!(seqs, vec![1, 2]);
    assert!(reg.info(id).is_none());
}

#[test]
fn updating_a_stream_changes_what_is_given_and_nothing_else() {
    let mut reg = StreamRegistry::new();
    let id = reg.open(info());
    reg.update(id, None, Some(5), None);
    let after = reg.info(id).unwrap();
    assert_eq!(after.max_outstanding_messages, 5);
    assert_eq!(after.max_outstanding_bytes, 100);
    assert_eq!(after.ack_deadline_secs, 10);
    reg.update(id, Some(77), None, Some(9));
    let after = reg.info(id).unwrap();
    assert_eq!((after.ack_deadline_secs, after.max_outstanding_bytes), (77, 9));
    assert!(reg.close(id + 1).is_none());
}

// -- errors

#[test]
fn not_found_maps_to_404() {
    let e = Error::NotFound { resource: "projects/p/topics/t".into() };
    assert_eq!(e.code(), ("NOT_FOUND", 404));
}

#[test]
fn already_exists_maps_to_409() {
    let e = Error::AlreadyExists { resource: "projects/p/topics/t".into() };
    assert_eq!(e.code(), ("ALREADY_EXISTS", 409));
}

#[test]
fn invalid_argument_maps_to_400() {
    let e = Error::InvalidArgument { field: "name".into(), message: "bad".into() };
    assert_eq!(e.code(), ("INVALID_ARGUMENT", 400));
}

#[test]
fn failed_precondition_maps_to_400() {
    let e = Error::FailedPrecondition { message: "bad state".into() };
    assert_eq!(e.code(), ("FAILED_PRECONDITION", 400));
}

#[test]
fn resource_exhausted_maps_to_429() {
    let e = Error::ResourceExhausted { message: "disk full".into() };
    assert_eq!(e.code(), ("RESOURCE_EXHAUSTED", 429));
}

#[test]
fn unavailable_maps_to_503() {
    let e = Error::Unavailable { message: "shutting down".into() };
    assert_eq!(e.code(), ("UNAVAILABLE", 503));
}

#[test]
fn unimplemented_maps_to_501() {
    let e = Error::Unimplemented { method: "SetIamPolicy".into() };
    assert_eq!(e.code(), ("UNIMPLEMENTED", 501));
}

#[test]
fn internal_maps_to_500() {
    let e = Error::Internal { message: "boom".into() };
    assert_eq!(e.code(), ("INTERNAL", 500));
}

#[test]
fn display_does_not_panic() {
    let e = Error::Internal { message: "boom".into() };
    assert_eq!(e.to_string(), "internal error");
}

#[test]
fn errors_read_well_in_a_log_and_to_a_client() {
    let e = Error::InvalidArgument { field: "filter".into(), message: "too long".into() };
    assert_eq!(e.to_string(), "invalid argument (filter): too long");
    assert_eq!(e.client_message(), "filter: too long");
    let e = Error::NotFound { resource: "projects/p/topics/t".into() };
    assert_eq!(e.to_string(), "not found: projects/p/topics/t");
    assert_eq!(e.client_message(), "projects/p/topics/t not found");
    let e = Error::Internal { message: "secret".into() };
    assert_eq!(e.client_message(), "internal error");
}

// -- string maps

#[test]
fn string_maps_keep_their_keys_in_order_and_replace_values() {
    let mut m = StringMap::new();
    m.insert("b".to_string(), "1".to_string());
    m.insert("a".to_string(), "2".to_string());
    m.insert("b".to_string(), "3".to_string());
    assert_eq!(m.len(), 2);
    assert_eq!((m.key(0).as_str(), m.value(0).as_str()), ("a", "2"));
    assert_eq!((m.key(1).as_str(), m.value(1).as_str()), ("b", "3"));
    assert!(m.contains_key("a"));
    assert_eq!(m.get("c"), None);
}

#[test]
fn readings_of_the_machines_clock_are_told() {
    assert_eq!(time_told(Some(1_700_000_000_123)), 1_700_000_000_123);
    assert_eq!(time_told(Some(0)), 0);
    assert_eq!(time_told(None), 0);
}

#[test]
fn leasing_a_message_again_does_not_use_up_the_budget() {
    let mut reg = StreamRegistry::new();
    let id = reg.open(info());
    reg.record_leased(id, 1, 40);
    reg.record_leased(id, 1, 40);
    assert_eq!(reg.remaining_budget(id), (1, 60));
    reg.record_resolved(id, 1);
    assert_eq!(reg.remaining_budget(id), (2, 100));
}
