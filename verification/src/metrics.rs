//! The metrics that the server exposes: their names, their descriptions, and what one event adds
//! to them. An exporter counts what this module hands it.

use vstd::prelude::*;
use vstd::string::*;

verus! {

/// The number of topics or subscriptions up to which series are labelled by resource.
pub const CARDINALITY_LIMIT: usize = 1000;

/// Gauge: topics.
pub const TOPICS: &'static str = "open_pubusb_topics";

/// Gauge: subscriptions.
pub const SUBSCRIPTIONS: &'static str = "open_pubusb_subscriptions";

/// Counter by `topic`: messages published.
pub const MESSAGES_PUBLISHED_TOTAL: &'static str = "open_pubusb_messages_published_total";

/// Counter by `subscription` and `mode`: messages delivered, redeliveries included.
pub const MESSAGES_DELIVERED_TOTAL: &'static str = "open_pubusb_messages_delivered_total";

/// Counter by `subscription`: messages acknowledged.
pub const MESSAGES_ACKED_TOTAL: &'static str = "open_pubusb_messages_acked_total";

/// Counter by `subscription`: messages removed because their time was up.
pub const MESSAGES_EXPIRED_TOTAL: &'static str = "open_pubusb_messages_expired_total";

/// Counter by `subscription`: messages forwarded to a dead-letter topic.
pub const MESSAGES_DEAD_LETTERED_TOTAL: &'static str = "open_pubusb_messages_dead_lettered_total";

/// Gauge by `subscription`: messages not acknowledged.
pub const UNACKED_MESSAGES: &'static str = "open_pubusb_unacked_messages";

/// Gauge by `subscription`: age of the oldest message not acknowledged, in seconds.
pub const OLDEST_UNACKED_AGE_SECONDS: &'static str = "open_pubusb_oldest_unacked_age_seconds";

/// Histogram: how long publishing took.
pub const PUBLISH_LATENCY_SECONDS: &'static str = "open_pubusb_publish_latency_seconds";

/// Counter by `method` and `code`: gRPC calls.
pub const GRPC_REQUESTS_TOTAL: &'static str = "open_pubusb_grpc_requests_total";

/// Counter by `subscription` and `result`: push deliveries.
pub const PUSH_REQUESTS_TOTAL: &'static str = "open_pubusb_push_requests_total";

/// Histogram: how long a sync of the store took.
pub const STORAGE_SYNC_DURATION_SECONDS: &'static str = "open_pubusb_storage_sync_duration_seconds";

/// Gauge: disk usage of the data directory.
pub const STORAGE_DISK_BYTES: &'static str = "open_pubusb_storage_disk_bytes";

/// Gauge: open streams.
pub const STREAMING_PULL_STREAMS: &'static str = "open_pubusb_streaming_pull_streams";

/// Gauge: 1 when series are not labelled by resource any more, 0 otherwise.
pub const METRICS_TRUNCATED: &'static str = "open_pubusb_metrics_truncated";

/// The kinds of metrics.
#[derive(Debug, Clone, Copy, PartialEq, Eq, Structural)]
pub enum MetricKind {
    /// Goes up and down.
    Gauge,
    /// Only goes up.
    Counter,
    /// A distribution.
    Histogram,
}

/// The description of a metric.
#[derive(Debug, Clone, Copy)]
pub struct Description {
    /// Its kind.
    pub kind: MetricKind,
    /// Its name.
    pub name: &'static str,
    /// What it tells.
    pub help: &'static str,
}

/// What a [`Description`] holds.
pub open spec fn description_view(d: Description) -> (MetricKind, Seq<char>, Seq<char>) {
    (d.kind, d.name@, d.help@)
}

/// What every metric tells.
pub open spec fn descriptions() -> Seq<(MetricKind, Seq<char>, Seq<char>)> {
    seq![
        (MetricKind::Gauge, TOPICS@, "Number of topics"@),
        (MetricKind::Gauge, SUBSCRIPTIONS@, "Number of subscriptions"@),
        (MetricKind::Counter, MESSAGES_PUBLISHED_TOTAL@, "Number of messages published"@),
        (
            MetricKind::Counter,
            MESSAGES_DELIVERED_TOTAL@,
            "Number of messages delivered (including redeliveries)"@,
        ),
        (MetricKind::Counter, MESSAGES_ACKED_TOTAL@, "Number of messages acknowledged"@),
        (
            MetricKind::Counter,
            MESSAGES_EXPIRED_TOTAL@,
            "Number of messages discarded after their retention period expired"@,
        ),
        (
            MetricKind::Counter,
            MESSAGES_DEAD_LETTERED_TOTAL@,
            "Number of messages forwarded to a dead-letter topic"@,
        ),
        (
            MetricKind::Gauge,
            UNACKED_MESSAGES@,
            "Number of unacknowledged messages (pending delivery plus leased)"@,
        ),
        (
            MetricKind::Gauge,
            OLDEST_UNACKED_AGE_SECONDS@,
            "Age in seconds of the oldest unacknowledged message"@,
        ),
        (MetricKind::Histogram, PUBLISH_LATENCY_SECONDS@, "Publish RPC duration in seconds"@),
        (MetricKind::Counter, GRPC_REQUESTS_TOTAL@, "Number of gRPC requests handled"@),
        (MetricKind::Counter, PUSH_REQUESTS_TOTAL@, "Result of push delivery attempts"@),
        (
            MetricKind::Histogram,
            STORAGE_SYNC_DURATION_SECONDS@,
            "Duration of a group fsync in seconds"@,
        ),
        (MetricKind::Gauge, STORAGE_DISK_BYTES@, "Disk usage of data_dir in bytes"@),
        (
            MetricKind::Gauge,
            STREAMING_PULL_STREAMS@,
            "Number of currently connected StreamingPull streams"@,
        ),
        (
            MetricKind::Gauge,
            METRICS_TRUNCATED@,
            "1 if per-resource-labeled metric series have been truncated due to exceeding the cardinality limit, 0 otherwise"@,
        ),
    ]
}

fn describe(kind: MetricKind, name: &'static str, help: &'static str) -> (d: Description)
    ensures
        description_view(d) == (kind, name@, help@),
{
    Description { kind, name, help }
}

/// The description of every metric.
pub fn describe_all() -> (r: Vec<Description>)
    ensures
        r@.map_values(|d: Description| description_view(d)) == descriptions(),
{
    let r = vec![
        describe(MetricKind::Gauge, TOPICS, "Number of topics"),
        describe(MetricKind::Gauge, SUBSCRIPTIONS, "Number of subscriptions"),
        describe(MetricKind::Counter, MESSAGES_PUBLISHED_TOTAL, "Number of messages published"),
        describe(
            MetricKind::Counter,
            MESSAGES_DELIVERED_TOTAL,
            "Number of messages delivered (including redeliveries)",
        ),
        describe(MetricKind::Counter, MESSAGES_ACKED_TOTAL, "Number of messages acknowledged"),
        describe(
            MetricKind::Counter,
            MESSAGES_EXPIRED_TOTAL,
            "Number of messages discarded after their retention period expired",
        ),
        describe(
            MetricKind::Counter,
            MESSAGES_DEAD_LETTERED_TOTAL,
            "Number of messages forwarded to a dead-letter topic",
        ),
        describe(
            MetricKind::Gauge,
            UNACKED_MESSAGES,
            "Number of unacknowledged messages (pending delivery plus leased)",
        ),
        describe(
            MetricKind::Gauge,
            OLDEST_UNACKED_AGE_SECONDS,
            "Age in seconds of the oldest unacknowledged message",
        ),
        describe(
            MetricKind::Histogram,
            PUBLISH_LATENCY_SECONDS,
            "Publish RPC duration in seconds",
        ),
        describe(MetricKind::Counter, GRPC_REQUESTS_TOTAL, "Number of gRPC requests handled"),
        describe(MetricKind::Counter, PUSH_REQUESTS_TOTAL, "Result of push delivery attempts"),
        describe(
            MetricKind::Histogram,
            STORAGE_SYNC_DURATION_SECONDS,
            "Duration of a group fsync in seconds",
        ),
        describe(MetricKind::Gauge, STORAGE_DISK_BYTES, "Disk usage of data_dir in bytes"),
        describe(
            MetricKind::Gauge,
            STREAMING_PULL_STREAMS,
            "Number of currently connected StreamingPull streams",
        ),
        describe(
            MetricKind::Gauge,
            METRICS_TRUNCATED,
            "1 if per-resource-labeled metric series have been truncated due to exceeding the cardinality limit, 0 otherwise",
        ),
    ];
    assert(r@.map_values(|d: Description| description_view(d)) =~= descriptions());
    r
}

/// Decides whether series are labelled by resource.
#[derive(Debug, Clone, Copy)]
pub struct CardinalityGuard;

impl CardinalityGuard {
    /// A guard.
    pub fn new() -> Self {
        CardinalityGuard
    }

    /// Whether series are labelled by resource when there are this many resources: up to 1000.
    pub fn should_label(&self, resource_count: usize) -> (r: bool)
        ensures
            r == (resource_count <= 1000),
    {
        resource_count <= CARDINALITY_LIMIT
    }

    /// What [`METRICS_TRUNCATED`] shows when there are this many resources.
    pub fn truncated(&self, resource_count: usize) -> (r: u64)
        ensures
            r == if resource_count <= 1000 {
                0int
            } else {
                1int
            },
    {
        if self.should_label(resource_count) {
            0
        } else {
            1
        }
    }
}

/// One event: a counter that goes up by one, with its labels.
#[derive(Debug)]
pub struct Sample {
    /// The counter's name.
    pub name: &'static str,
    /// The labels and their values.
    pub labels: Vec<(&'static str, String)>,
}

/// The counter and the labels of an event.
pub open spec fn sample_view(s: Sample) -> (Seq<char>, Seq<(Seq<char>, Seq<char>)>) {
    (s.name@, s.labels@.map_values(|l: (&'static str, String)| (l.0@, l.1@)))
}

fn one_label(name: &'static str, label: &'static str, value: &str) -> (s: Sample)
    ensures
        sample_view(s) == (name@, seq![(label@, value@)]),
{
    let s = Sample { name, labels: vec![(label, String::from_str(value))] };
    assert(sample_view(s).1 =~= seq![(label@, value@)]);
    s
}

fn two_labels(
    name: &'static str,
    first: &'static str,
    first_value: &str,
    second: &'static str,
    second_value: &str,
) -> (s: Sample)
    ensures
        sample_view(s) == (name@, seq![(first@, first_value@), (second@, second_value@)]),
{
    let s = Sample {
        name,
        labels: vec![
            (first, String::from_str(first_value)),
            (second, String::from_str(second_value)),
        ],
    };
    assert(sample_view(s).1 =~= seq![(first@, first_value@), (second@, second_value@)]);
    s
}

/// Messages were published to a topic.
pub fn record_published(topic: &str) -> (s: Sample)
    ensures
        sample_view(s) == (MESSAGES_PUBLISHED_TOTAL@, seq![("topic"@, topic@)]),
{
    one_label(MESSAGES_PUBLISHED_TOTAL, "topic", topic)
}

/// Messages were delivered to a subscription, by `pull`, `streaming` or `push`.
pub fn record_delivered(subscription: &str, mode: &str) -> (s: Sample)
    ensures
        sample_view(s) == (
            MESSAGES_DELIVERED_TOTAL@,
            seq![("subscription"@, subscription@), ("mode"@, mode@)],
        ),
{
    two_labels(MESSAGES_DELIVERED_TOTAL, "subscription", subscription, "mode", mode)
}

/// Messages were acknowledged on a subscription.
pub fn record_acked(subscription: &str) -> (s: Sample)
    ensures
        sample_view(s) == (MESSAGES_ACKED_TOTAL@, seq![("subscription"@, subscription@)]),
{
    one_label(MESSAGES_ACKED_TOTAL, "subscription", subscription)
}

/// A message of a subscription was removed because its time was up.
pub fn record_expired(subscription: &str) -> (s: Sample)
    ensures
        sample_view(s) == (MESSAGES_EXPIRED_TOTAL@, seq![("subscription"@, subscription@)]),
{
    one_label(MESSAGES_EXPIRED_TOTAL, "subscription", subscription)
}

/// A message of a subscription was forwarded to a dead-letter topic.
pub fn record_dead_lettered(subscription: &str) -> (s: Sample)
    ensures
        sample_view(s) == (MESSAGES_DEAD_LETTERED_TOTAL@, seq![("subscription"@, subscription@)]),
{
    one_label(MESSAGES_DEAD_LETTERED_TOTAL, "subscription", subscription)
}

/// A gRPC call ended with a status.
pub fn record_grpc_request(method: &str, code: &str) -> (s: Sample)
    ensures
        sample_view(s) == (GRPC_REQUESTS_TOTAL@, seq![("method"@, method@), ("code"@, code@)]),
{
    two_labels(GRPC_REQUESTS_TOTAL, "method", method, "code", code)
}

/// A push delivery ended, `ok` or `fail`.
pub fn record_push_request(subscription: &str, result: &str) -> (s: Sample)
    ensures
        sample_view(s) == (
            PUSH_REQUESTS_TOTAL@,
            seq![("subscription"@, subscription@), ("result"@, result@)],
        ),
{
    two_labels(PUSH_REQUESTS_TOTAL, "subscription", subscription, "result", result)
}

} // verus!
