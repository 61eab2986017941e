//! The resources as clients send and see them.

use crate::delivery::lease::Leases;
use crate::grpc::convert;
use crate::grpc::convert::{Duration, Timestamp};
use crate::listing;
use crate::service;
use crate::service::{PulledMessage, PulledView};
use crate::store::codec;
use crate::store::codec::{SnapshotRecord, SnapshotView};
use crate::string_map::{Entries, StringMap};
use crate::subscription;
use crate::subscription::{
    CreateSubscriptionOptions, OptionsView, PushConfigView, SubscriptionRecord, SubscriptionView,
};
use crate::topic;
use crate::topic::{TopicRecord, TopicView};
use vstd::prelude::*;
use vstd::string::*;

verus! {

/// Whether a resource can be used.
#[derive(Debug, Clone, Copy, PartialEq, Eq, Structural)]
pub enum State {
    /// Not said.
    Unspecified,
    /// It can.
    Active,
}

/// A topic.
#[derive(Debug)]
pub struct Topic {
    /// Full resource name.
    pub name: String,
    /// Labels.
    pub labels: StringMap,
    /// How long messages are kept.
    pub message_retention_duration: Option<Duration>,
    /// A key name, which is accepted but not told.
    pub kms_key_name: String,
    /// Whether schema settings are given, which are not supported.
    pub has_schema_settings: bool,
    /// Whether ingestion settings are given, which are not supported.
    pub has_ingestion_data_source_settings: bool,
    /// Whether the topic can be used.
    pub state: State,
}

/// What a [`Topic`] holds.
pub struct TopicMessage {
    pub name: Seq<char>,
    pub labels: Entries,
    pub message_retention_duration: Option<Duration>,
    pub kms_key_name: Seq<char>,
    pub has_schema_settings: bool,
    pub has_ingestion_data_source_settings: bool,
    pub state: State,
}

impl View for Topic {
    type V = TopicMessage;

    open spec fn view(&self) -> TopicMessage {
        TopicMessage {
            name: self.name@,
            labels: self.labels@,
            message_retention_duration: self.message_retention_duration,
            kms_key_name: self.kms_key_name@,
            has_schema_settings: self.has_schema_settings,
            has_ingestion_data_source_settings: self.has_ingestion_data_source_settings,
            state: self.state,
        }
    }
}

/// A topic as clients see it.
pub open spec fn topic_message(t: TopicView) -> TopicMessage {
    TopicMessage {
        name: t.name,
        labels: t.labels,
        message_retention_duration: if t.message_retention_secs > 0 {
            Some(Duration { seconds: t.message_retention_secs, nanos: 0 })
        } else {
            None
        },
        kms_key_name: ""@,
        has_schema_settings: false,
        has_ingestion_data_source_settings: false,
        state: State::Active,
    }
}

/// A topic as clients see it.
pub fn topic_to_proto(record: &TopicRecord) -> (r: Topic)
    ensures
        r@ == topic_message(record@),
{
    Topic {
        name: record.name.clone(),
        labels: record.labels.clone(),
        message_retention_duration: if record.message_retention_secs > 0 {
            Some(convert::secs_to_duration(record.message_retention_secs))
        } else {
            None
        },
        kms_key_name: String::from_str(""),
        has_schema_settings: false,
        has_ingestion_data_source_settings: false,
        state: State::Active,
    }
}

/// How a push endpoint gets a message.
#[derive(Debug, Clone, Copy, PartialEq, Eq, Structural)]
pub enum Wrapper {
    /// Not said, which is wrapped.
    Unset,
    /// Wrapped.
    PubsubWrapper,
    /// Unwrapped.
    NoWrapper {
        /// Whether attributes are sent as headers.
        write_metadata: bool,
    },
}

/// Where and how a push subscription's messages are sent.
#[derive(Debug)]
pub struct PushConfig {
    /// The URL; an empty one is no push.
    pub push_endpoint: String,
    /// Whether an authentication method is given. It is accepted, but no header is sent for it.
    pub has_authentication_method: bool,
    /// The format.
    pub wrapper: Wrapper,
}

/// What a [`PushConfig`] holds.
pub struct PushConfigMessage {
    pub push_endpoint: Seq<char>,
    pub has_authentication_method: bool,
    pub wrapper: Wrapper,
}

impl View for PushConfig {
    type V = PushConfigMessage;

    open spec fn view(&self) -> PushConfigMessage {
        PushConfigMessage {
            push_endpoint: self.push_endpoint@,
            has_authentication_method: self.has_authentication_method,
            wrapper: self.wrapper,
        }
    }
}

/// What an optional push configuration holds.
pub open spec fn opt_push(p: Option<PushConfig>) -> Option<PushConfigMessage> {
    match p {
        Some(c) => Some(c@),
        None => None,
    }
}

/// A push configuration as clients see it.
pub open spec fn push_message(c: PushConfigView) -> PushConfigMessage {
    PushConfigMessage {
        push_endpoint: c.endpoint,
        has_authentication_method: false,
        wrapper: if c.no_wrapper {
            Wrapper::NoWrapper { write_metadata: c.write_metadata }
        } else {
            Wrapper::PubsubWrapper
        },
    }
}

/// A push configuration as clients see it.
pub fn push_config_to_proto(cfg: &subscription::PushConfig) -> (r: PushConfig)
    ensures
        r@ == push_message(cfg@),
{
    PushConfig {
        push_endpoint: cfg.endpoint.clone(),
        has_authentication_method: false,
        wrapper: if cfg.no_wrapper {
            Wrapper::NoWrapper { write_metadata: cfg.write_metadata }
        } else {
            Wrapper::PubsubWrapper
        },
    }
}

/// The push configuration that a client asks for: none where the endpoint is empty.
pub open spec fn push_wanted(p: Option<PushConfigMessage>) -> Option<PushConfigView> {
    match p {
        Some(c) => if c.push_endpoint.len() == 0 {
            None
        } else {
            Some(
                PushConfigView {
                    endpoint: c.push_endpoint,
                    no_wrapper: c.wrapper is NoWrapper,
                    write_metadata: c.wrapper matches Wrapper::NoWrapper { write_metadata }
                        && write_metadata,
                },
            )
        },
        None => None,
    }
}

/// The push configuration that a client asks for: none where the endpoint is empty.
pub fn push_config_from_proto(p: &Option<PushConfig>) -> (r: Option<subscription::PushConfig>)
    ensures
        subscription::opt_push(r) == push_wanted(opt_push(*p)),
{
    match p {
        Some(c) => if c.push_endpoint.as_str().is_empty() {
            None
        } else {
            let (no_wrapper, write_metadata) = match c.wrapper {
                Wrapper::NoWrapper { write_metadata } => (true, write_metadata),
                Wrapper::PubsubWrapper => (false, false),
                Wrapper::Unset => (false, false),
            };
            Some(
                subscription::PushConfig {
                    endpoint: c.push_endpoint.clone(),
                    no_wrapper,
                    write_metadata,
                },
            )
        },
        None => None,
    }
}

/// When a subscription expires.
#[derive(Debug, Clone, Copy, PartialEq, Eq, Structural)]
pub struct ExpirationPolicy {
    /// How long after its last use; none is never.
    pub ttl: Option<Duration>,
}

/// Where messages go that could not be delivered.
#[derive(Debug)]
pub struct DeadLetterPolicy {
    /// The topic.
    pub dead_letter_topic: String,
    /// After how many attempts.
    pub max_delivery_attempts: i32,
}

/// What an optional dead-letter policy holds.
pub open spec fn opt_dead_letter(p: Option<DeadLetterPolicy>) -> Option<(Seq<char>, i32)> {
    match p {
        Some(d) => Some((d.dead_letter_topic@, d.max_delivery_attempts)),
        None => None,
    }
}

/// How long a message waits before it is delivered again.
#[derive(Debug, Clone, Copy, PartialEq, Eq, Structural)]
pub struct RetryPolicy {
    /// The shortest wait.
    pub minimum_backoff: Option<Duration>,
    /// The longest wait.
    pub maximum_backoff: Option<Duration>,
}

/// A subscription.
#[derive(Debug)]
pub struct Subscription {
    /// Full resource name.
    pub name: String,
    /// Full resource name of the topic.
    pub topic: String,
    /// Where messages are pushed.
    pub push_config: Option<PushConfig>,
    /// Whether an export to BigQuery is asked for, which is not supported.
    pub has_bigquery_config: bool,
    /// Whether an export to Cloud Storage is asked for, which is not supported.
    pub has_cloud_storage_config: bool,
    /// The ack deadline; 0 is the default.
    pub ack_deadline_seconds: i32,
    /// Whether acknowledged messages are kept.
    pub retain_acked_messages: bool,
    /// How long messages are kept.
    pub message_retention_duration: Option<Duration>,
    /// Labels.
    pub labels: StringMap,
    /// Whether messages with the same ordering key are delivered in order.
    pub enable_message_ordering: bool,
    /// When the subscription expires.
    pub expiration_policy: Option<ExpirationPolicy>,
    /// Which messages are delivered.
    pub filter: String,
    /// Where messages go that could not be delivered.
    pub dead_letter_policy: Option<DeadLetterPolicy>,
    /// How long a message waits before it is delivered again.
    pub retry_policy: Option<RetryPolicy>,
    /// Whether the subscription is detached from its topic.
    pub detached: bool,
    /// Whether exactly-once delivery is asked for.
    pub enable_exactly_once_delivery: bool,
    /// Whether the subscription can be used.
    pub state: State,
}

/// What a [`Subscription`] holds.
pub struct SubscriptionMessage {
    pub name: Seq<char>,
    pub topic: Seq<char>,
    pub push_config: Option<PushConfigMessage>,
    pub has_bigquery_config: bool,
    pub has_cloud_storage_config: bool,
    pub ack_deadline_seconds: i32,
    pub retain_acked_messages: bool,
    pub message_retention_duration: Option<Duration>,
    pub labels: Entries,
    pub enable_message_ordering: bool,
    pub expiration_policy: Option<ExpirationPolicy>,
    pub filter: Seq<char>,
    pub dead_letter_policy: Option<(Seq<char>, i32)>,
    pub retry_policy: Option<RetryPolicy>,
    pub detached: bool,
    pub enable_exactly_once_delivery: bool,
    pub state: State,
}

impl View for Subscription {
    type V = SubscriptionMessage;

    open spec fn view(&self) -> SubscriptionMessage {
        SubscriptionMessage {
            name: self.name@,
            topic: self.topic@,
            push_config: opt_push(self.push_config),
            has_bigquery_config: self.has_bigquery_config,
            has_cloud_storage_config: self.has_cloud_storage_config,
            ack_deadline_seconds: self.ack_deadline_seconds,
            retain_acked_messages: self.retain_acked_messages,
            message_retention_duration: self.message_retention_duration,
            labels: self.labels@,
            enable_message_ordering: self.enable_message_ordering,
            expiration_policy: self.expiration_policy,
            filter: self.filter@,
            dead_letter_policy: opt_dead_letter(self.dead_letter_policy),
            retry_policy: self.retry_policy,
            detached: self.detached,
            enable_exactly_once_delivery: self.enable_exactly_once_delivery,
            state: self.state,
        }
    }
}

/// Whole seconds as a duration.
pub open spec fn seconds(secs: i64) -> Duration {
    Duration { seconds: secs, nanos: 0 }
}

/// A subscription as clients see it.
pub open spec fn subscription_message(s: SubscriptionView) -> SubscriptionMessage {
    SubscriptionMessage {
        name: s.name,
        topic: s.topic,
        push_config: match s.push_config {
            Some(c) => Some(push_message(c)),
            None => None,
        },
        has_bigquery_config: false,
        has_cloud_storage_config: false,
        ack_deadline_seconds: s.ack_deadline_secs,
        retain_acked_messages: s.retain_acked_messages,
        message_retention_duration: Some(seconds(s.message_retention_secs)),
        labels: s.labels,
        enable_message_ordering: s.enable_message_ordering,
        expiration_policy: Some(
            ExpirationPolicy {
                ttl: match s.expiration_ttl_secs {
                    Some(secs) => Some(seconds(secs)),
                    None => None,
                },
            },
        ),
        filter: s.filter,
        dead_letter_policy: match s.dead_letter_topic {
            Some(t) => Some((t, s.max_delivery_attempts)),
            None => None,
        },
        retry_policy: Some(
            RetryPolicy {
                minimum_backoff: Some(seconds(s.min_retry_backoff_secs)),
                maximum_backoff: Some(seconds(s.max_retry_backoff_secs)),
            },
        ),
        detached: s.detached,
        enable_exactly_once_delivery: s.enable_exactly_once_delivery,
        state: State::Active,
    }
}

/// A subscription as clients see it.
pub fn subscription_to_proto(record: &SubscriptionRecord) -> (r: Subscription)
    ensures
        r@ == subscription_message(record@),
{
    Subscription {
        name: record.name.clone(),
        topic: record.topic.clone(),
        push_config: match &record.push_config {
            Some(c) => Some(push_config_to_proto(c)),
            None => None,
        },
        has_bigquery_config: false,
        has_cloud_storage_config: false,
        ack_deadline_seconds: record.ack_deadline_secs,
        retain_acked_messages: record.retain_acked_messages,
        message_retention_duration: Some(convert::secs_to_duration(record.message_retention_secs)),
        labels: record.labels.clone(),
        enable_message_ordering: record.enable_message_ordering,
        expiration_policy: Some(
            ExpirationPolicy {
                ttl: match record.expiration_ttl_secs {
                    Some(secs) => Some(convert::secs_to_duration(secs)),
                    None => None,
                },
            },
        ),
        filter: record.filter.clone(),
        dead_letter_policy: match &record.dead_letter_topic {
            Some(t) => Some(
                DeadLetterPolicy {
                    dead_letter_topic: t.clone(),
                    max_delivery_attempts: record.max_delivery_attempts,
                },
            ),
            None => None,
        },
        retry_policy: Some(
            RetryPolicy {
                minimum_backoff: Some(convert::secs_to_duration(record.min_retry_backoff_secs)),
                maximum_backoff: Some(convert::secs_to_duration(record.max_retry_backoff_secs)),
            },
        ),
        detached: record.detached,
        enable_exactly_once_delivery: record.enable_exactly_once_delivery,
        state: State::Active,
    }
}

/// The seconds of an optional duration.
pub open spec fn opt_secs(d: Option<Duration>) -> Option<i64> {
    match d {
        Some(d) => Some(d.seconds),
        None => None,
    }
}

/// The seconds of an optional duration.
pub fn duration_secs(d: &Option<Duration>) -> (r: Option<i64>)
    ensures
        r == opt_secs(*d),
{
    match d {
        Some(d) => Some(convert::duration_to_secs(d)),
        None => None,
    }
}

/// What a client asks for when it creates a subscription.
pub open spec fn options_wanted(s: SubscriptionMessage) -> OptionsView {
    OptionsView {
        ack_deadline_secs: if s.ack_deadline_seconds != 0 {
            Some(s.ack_deadline_seconds)
        } else {
            None
        },
        retain_acked_messages: s.retain_acked_messages,
        message_retention_secs: opt_secs(s.message_retention_duration),
        labels: s.labels,
        enable_message_ordering: s.enable_message_ordering,
        expiration_ttl_secs: match s.expiration_policy {
            Some(p) => Some(opt_secs(p.ttl)),
            None => None,
        },
        filter: s.filter,
        dead_letter_topic: match s.dead_letter_policy {
            Some(p) => Some(p.0),
            None => None,
        },
        max_delivery_attempts: match s.dead_letter_policy {
            Some(p) => Some(p.1),
            None => None,
        },
        min_retry_backoff_secs: match s.retry_policy {
            Some(p) => opt_secs(p.minimum_backoff),
            None => None,
        },
        max_retry_backoff_secs: match s.retry_policy {
            Some(p) => opt_secs(p.maximum_backoff),
            None => None,
        },
        enable_exactly_once_delivery: s.enable_exactly_once_delivery,
        push_config: push_wanted(s.push_config),
        has_bigquery_config: s.has_bigquery_config,
        has_cloud_storage_config: s.has_cloud_storage_config,
    }
}

/// What a client asks for when it creates a subscription.
pub fn create_options_from_proto(sub: &Subscription) -> (r: CreateSubscriptionOptions)
    ensures
        r@ == options_wanted(sub@),
{
    CreateSubscriptionOptions {
        ack_deadline_secs: if sub.ack_deadline_seconds != 0 {
            Some(sub.ack_deadline_seconds)
        } else {
            None
        },
        retain_acked_messages: sub.retain_acked_messages,
        message_retention_secs: duration_secs(&sub.message_retention_duration),
        labels: sub.labels.clone(),
        enable_message_ordering: sub.enable_message_ordering,
        expiration_ttl_secs: match &sub.expiration_policy {
            Some(p) => Some(duration_secs(&p.ttl)),
            None => None,
        },
        filter: sub.filter.clone(),
        dead_letter_topic: match &sub.dead_letter_policy {
            Some(p) => Some(p.dead_letter_topic.clone()),
            None => None,
        },
        max_delivery_attempts: match &sub.dead_letter_policy {
            Some(p) => Some(p.max_delivery_attempts),
            None => None,
        },
        min_retry_backoff_secs: match &sub.retry_policy {
            Some(p) => duration_secs(&p.minimum_backoff),
            None => None,
        },
        max_retry_backoff_secs: match &sub.retry_policy {
            Some(p) => duration_secs(&p.maximum_backoff),
            None => None,
        },
        enable_exactly_once_delivery: sub.enable_exactly_once_delivery,
        push_config: push_config_from_proto(&sub.push_config),
        has_bigquery_config: sub.has_bigquery_config,
        has_cloud_storage_config: sub.has_cloud_storage_config,
    }
}

/// A snapshot.
#[derive(Debug)]
pub struct Snapshot {
    /// Full resource name.
    pub name: String,
    /// Full resource name of the topic.
    pub topic: String,
    /// When the snapshot expires.
    pub expire_time: Timestamp,
    /// Labels.
    pub labels: StringMap,
}

/// What a [`Snapshot`] holds.
pub struct SnapshotMessage {
    pub name: Seq<char>,
    pub topic: Seq<char>,
    pub expire_time: Timestamp,
    pub labels: Entries,
}

impl View for Snapshot {
    type V = SnapshotMessage;

    open spec fn view(&self) -> SnapshotMessage {
        SnapshotMessage {
            name: self.name@,
            topic: self.topic@,
            expire_time: self.expire_time,
            labels: self.labels@,
        }
    }
}

/// A snapshot as clients see it.
pub open spec fn snapshot_message(s: SnapshotView) -> SnapshotMessage {
    SnapshotMessage {
        name: s.name,
        topic: s.topic,
        expire_time: convert::timestamp_of(s.expire_at_ms),
        labels: s.labels,
    }
}

/// A snapshot as clients see it.
pub fn snapshot_to_proto(record: &SnapshotRecord) -> (r: Snapshot)
    ensures
        r@ == snapshot_message(record@),
{
    Snapshot {
        name: record.name.clone(),
        topic: record.topic.clone(),
        expire_time: convert::ms_to_timestamp(record.expire_at_ms),
        labels: record.labels.clone(),
    }
}

/// A message as clients see it.
#[derive(Debug)]
pub struct PubsubMessage {
    /// The body.
    pub data: Vec<u8>,
    /// Attributes.
    pub attributes: StringMap,
    /// The id.
    pub message_id: String,
    /// When the message was published.
    pub publish_time: Timestamp,
    /// Ordering key.
    pub ordering_key: String,
}

/// A message that was delivered.
#[derive(Debug)]
pub struct ReceivedMessage {
    /// What the client presents to acknowledge the message.
    pub ack_id: String,
    /// The message.
    pub message: PubsubMessage,
    /// How often the message was delivered, where this is told.
    pub delivery_attempt: i32,
}

/// What a [`ReceivedMessage`] holds.
pub struct ReceivedView {
    pub ack_id: Seq<char>,
    pub data: Seq<u8>,
    pub attributes: Entries,
    pub message_id: Seq<char>,
    pub publish_time: Timestamp,
    pub ordering_key: Seq<char>,
    pub delivery_attempt: i32,
}

impl View for ReceivedMessage {
    type V = ReceivedView;

    open spec fn view(&self) -> ReceivedView {
        ReceivedView {
            ack_id: self.ack_id@,
            data: self.message.data@,
            attributes: self.message.attributes@,
            message_id: self.message.message_id@,
            publish_time: self.message.publish_time,
            ordering_key: self.message.ordering_key@,
            delivery_attempt: self.delivery_attempt,
        }
    }
}

/// A delivery as clients see it.
pub open spec fn received(m: PulledView) -> ReceivedView {
    ReceivedView {
        ack_id: m.ack_id,
        data: m.data,
        attributes: m.attributes,
        message_id: m.message_id,
        publish_time: convert::timestamp_of(m.publish_time_ms),
        ordering_key: m.ordering_key,
        delivery_attempt: m.delivery_attempt as i32,
    }
}

/// Deliveries as clients see them.
pub open spec fn all_received(messages: Seq<PulledView>) -> Seq<ReceivedView> {
    messages.map_values(|m: PulledView| received(m))
}

/// Messages that clients see are out on a subscription, and their ack ids name their leases.
pub open spec fn received_are_out(
    leases: Leases,
    sub_id: u64,
    messages: Seq<ReceivedView>,
) -> bool {
    forall|i: int|
        #![trigger messages[i]]
        0 <= i < messages.len() ==> service::names_message(
            leases,
            sub_id,
            messages[i].ack_id,
            messages[i].message_id,
        )
}

pub(crate) proof fn lemma_received_are_out(
    leases: Leases,
    sub_id: u64,
    messages: Seq<PulledView>,
)
    requires
        service::pulled_are_out(leases, sub_id, messages),
    ensures
        received_are_out(leases, sub_id, all_received(messages)),
{
    assert forall|i: int|
        #![trigger all_received(messages)[i]]
        0 <= i < messages.len() implies service::names_message(
        leases,
        sub_id,
        all_received(messages)[i].ack_id,
        all_received(messages)[i].message_id,
    ) by {
        assert(all_received(messages)[i] == received(messages[i]));
    }
}

/// A delivery as clients see it.
pub fn pulled_to_received_message(m: &PulledMessage) -> (r: ReceivedMessage)
    ensures
        r@ == received(m@),
{
    ReceivedMessage {
        ack_id: m.ack_id.clone(),
        message: PubsubMessage {
            data: codec::copy_bytes(&m.data),
            attributes: m.attributes.clone(),
            message_id: m.message_id.clone(),
            publish_time: convert::ms_to_timestamp(m.publish_time_ms),
            ordering_key: m.ordering_key.clone(),
        },
        delivery_attempt: #[verifier::truncate]
        (m.delivery_attempt as i32),
    }
}

/// Deliveries as clients see them.
pub fn received_messages(messages: &Vec<PulledMessage>) -> (r: Vec<ReceivedMessage>)
    ensures
        listing::views(r@) == all_received(listing::views(messages@)),
{
    let ghost all = listing::views(messages@);
    let mut out: Vec<ReceivedMessage> = Vec::new();
    let mut i: usize = 0;
    assert(listing::views(out@) =~= all_received(all.take(0)));
    while i < messages.len()
        invariant
            i <= messages.len(),
            all == listing::views(messages@),
            listing::views(out@) == all_received(all.take(i as int)),
        decreases messages.len() - i,
    {
        let ghost before = out@;
        let m = pulled_to_received_message(&messages[i]);
        let ghost shown = m@;
        out.push(m);
        assert(all[i as int] == messages@[i as int]@);
        assert(listing::views(out@) =~= listing::views(before).push(shown));
        assert(all_received(all.take(i + 1)) =~= all_received(all.take(i as int)).push(shown));
        i = i + 1;
    }
    assert(all.take(i as int) =~= all);
    out
}

/// What a client sees of a push configuration is what it asked for, but for the authentication
/// method, which is not kept.
pub proof fn law_push_configs_round_trip(c: PushConfigView)
    requires
        c.endpoint.len() > 0,
        c.write_metadata ==> c.no_wrapper,
    ensures
        push_wanted(Some(push_message(c))) == Some(c),
{
}

} // verus!
