//! Subscriptions.

use crate::arith;
use crate::error;
use crate::error::{invalid, not_found, Error, ErrorView};
use crate::limits;
use crate::listing;
use crate::listing::Named;
use crate::names;
use crate::names::{SubscriptionName, TopicName, DELETED_TOPIC};
use crate::store::codec::{CursorRecord, CursorView};
use crate::store::keys;
use crate::store::keys::NameKind;
use crate::store::kv;
use crate::store::kv::{KvStore, KvValue, Rows, Scan, ValueView, Write};
use crate::string_map::{Entries, StringMap};
use crate::text;
use crate::topic;
use std::collections::BTreeSet;
use vstd::prelude::*;
use vstd::string::*;

verus! {

/// Where and how a push subscription's messages are sent.
#[derive(Debug, PartialEq, Eq)]
pub struct PushConfig {
    /// The URL every message is posted to.
    pub endpoint: String,
    /// `false` sends the JSON envelope, `true` the raw message body with metadata headers.
    pub no_wrapper: bool,
    /// With `no_wrapper`, whether attributes are sent as headers too.
    pub write_metadata: bool,
}

/// What a [`PushConfig`] holds.
pub struct PushConfigView {
    pub endpoint: Seq<char>,
    pub no_wrapper: bool,
    pub write_metadata: bool,
}

impl View for PushConfig {
    type V = PushConfigView;

    open spec fn view(&self) -> PushConfigView {
        PushConfigView {
            endpoint: self.endpoint@,
            no_wrapper: self.no_wrapper,
            write_metadata: self.write_metadata,
        }
    }
}

impl Clone for PushConfig {
    fn clone(&self) -> (r: Self)
        ensures
            r@ == self@,
    {
        PushConfig {
            endpoint: self.endpoint.clone(),
            no_wrapper: self.no_wrapper,
            write_metadata: self.write_metadata,
        }
    }
}

/// What an optional push configuration holds.
pub open spec fn opt_push(p: Option<PushConfig>) -> Option<PushConfigView> {
    match p {
        Some(c) => Some(c@),
        None => None,
    }
}

/// A copy of an optional push configuration.
pub fn copy_opt_push(p: &Option<PushConfig>) -> (r: Option<PushConfig>)
    ensures
        opt_push(r) == opt_push(*p),
{
    match p {
        Some(c) => Some(c.clone()),
        None => None,
    }
}

/// A subscription's stored state.
#[derive(Debug, PartialEq)]
pub struct SubscriptionRecord {
    /// Internal id, distinct from the name so that a name can be used again after deletion.
    pub id: u64,
    /// Full resource name: `projects/{project}/subscriptions/{name}`.
    pub name: String,
    /// Full topic name, or the sentinel once the topic was deleted.
    pub topic: String,
    /// Internal id of the topic, kept after the topic was deleted.
    pub topic_id: u64,
    /// Seconds a lease stays out before automatic redelivery.
    pub ack_deadline_secs: i32,
    /// Whether acknowledged messages are kept until they expire.
    pub retain_acked_messages: bool,
    /// How long messages stay in the backlog, in seconds.
    pub message_retention_secs: i64,
    /// User-supplied labels.
    pub labels: StringMap,
    /// Fixed at creation.
    pub enable_message_ordering: bool,
    /// Seconds after the last use when the subscription expires; `None` is never.
    pub expiration_ttl_secs: Option<i64>,
    /// Fixed at creation.
    pub filter: String,
    /// Where messages go once `max_delivery_attempts` is reached; `None` turns this off.
    pub dead_letter_topic: Option<String>,
    /// Counts only with a `dead_letter_topic`; `0` otherwise.
    pub max_delivery_attempts: i32,
    /// Minimum retry backoff, in seconds.
    pub min_retry_backoff_secs: i64,
    /// Maximum retry backoff, in seconds.
    pub max_retry_backoff_secs: i64,
    /// Whether a client set one of the two backoffs, as opposed to their defaults.
    pub retry_policy_explicit: bool,
    /// Set once the subscription is detached or its topic deleted; pull and streaming pull then
    /// fail.
    pub detached: bool,
    /// Accepted and stored; delivery stays at-least-once.
    pub enable_exactly_once_delivery: bool,
    /// `None` is pull, `Some` is push.
    pub push_config: Option<PushConfig>,
    /// Last use, milliseconds since the Unix epoch.
    pub last_activity_ts_ms: i64,
}

/// What a [`SubscriptionRecord`] holds.
pub struct SubscriptionView {
    pub id: u64,
    pub name: Seq<char>,
    pub topic: Seq<char>,
    pub topic_id: u64,
    pub ack_deadline_secs: i32,
    pub retain_acked_messages: bool,
    pub message_retention_secs: i64,
    pub labels: Entries,
    pub enable_message_ordering: bool,
    pub expiration_ttl_secs: Option<i64>,
    pub filter: Seq<char>,
    pub dead_letter_topic: Option<Seq<char>>,
    pub max_delivery_attempts: i32,
    pub min_retry_backoff_secs: i64,
    pub max_retry_backoff_secs: i64,
    pub retry_policy_explicit: bool,
    pub detached: bool,
    pub enable_exactly_once_delivery: bool,
    pub push_config: Option<PushConfigView>,
    pub last_activity_ts_ms: i64,
}

impl View for SubscriptionRecord {
    type V = SubscriptionView;

    open spec fn view(&self) -> SubscriptionView {
        SubscriptionView {
            id: self.id,
            name: self.name@,
            topic: self.topic@,
            topic_id: self.topic_id,
            ack_deadline_secs: self.ack_deadline_secs,
            retain_acked_messages: self.retain_acked_messages,
            message_retention_secs: self.message_retention_secs,
            labels: self.labels@,
            enable_message_ordering: self.enable_message_ordering,
            expiration_ttl_secs: self.expiration_ttl_secs,
            filter: self.filter@,
            dead_letter_topic: topic::opt_text(self.dead_letter_topic),
            max_delivery_attempts: self.max_delivery_attempts,
            min_retry_backoff_secs: self.min_retry_backoff_secs,
            max_retry_backoff_secs: self.max_retry_backoff_secs,
            retry_policy_explicit: self.retry_policy_explicit,
            detached: self.detached,
            enable_exactly_once_delivery: self.enable_exactly_once_delivery,
            push_config: opt_push(self.push_config),
            last_activity_ts_ms: self.last_activity_ts_ms,
        }
    }
}

impl Clone for SubscriptionRecord {
    fn clone(&self) -> (r: Self)
        ensures
            r@ == self@,
    {
        SubscriptionRecord {
            id: self.id,
            name: self.name.clone(),
            topic: self.topic.clone(),
            topic_id: self.topic_id,
            ack_deadline_secs: self.ack_deadline_secs,
            retain_acked_messages: self.retain_acked_messages,
            message_retention_secs: self.message_retention_secs,
            labels: self.labels.clone(),
            enable_message_ordering: self.enable_message_ordering,
            expiration_ttl_secs: self.expiration_ttl_secs,
            filter: self.filter.clone(),
            dead_letter_topic: topic::copy_opt_text(&self.dead_letter_topic),
            max_delivery_attempts: self.max_delivery_attempts,
            min_retry_backoff_secs: self.min_retry_backoff_secs,
            max_retry_backoff_secs: self.max_retry_backoff_secs,
            retry_policy_explicit: self.retry_policy_explicit,
            detached: self.detached,
            enable_exactly_once_delivery: self.enable_exactly_once_delivery,
            push_config: copy_opt_push(&self.push_config),
            last_activity_ts_ms: self.last_activity_ts_ms,
        }
    }
}

/// What a client may set when it creates a subscription.
#[derive(Debug)]
pub struct CreateSubscriptionOptions {
    /// `None` is 10 seconds.
    pub ack_deadline_secs: Option<i32>,
    /// See [`SubscriptionRecord::retain_acked_messages`].
    pub retain_acked_messages: bool,
    /// `None` is 7 days.
    pub message_retention_secs: Option<i64>,
    /// User-supplied labels.
    pub labels: StringMap,
    /// Fixed once set.
    pub enable_message_ordering: bool,
    /// `None` is 31 days, `Some(None)` is never.
    pub expiration_ttl_secs: Option<Option<i64>>,
    /// Fixed once set.
    pub filter: String,
    /// See [`SubscriptionRecord::dead_letter_topic`].
    pub dead_letter_topic: Option<String>,
    /// Counts only with a `dead_letter_topic`; `0` or `None` is 5.
    pub max_delivery_attempts: Option<i32>,
    /// `None` is 10 seconds.
    pub min_retry_backoff_secs: Option<i64>,
    /// `None` is 600 seconds.
    pub max_retry_backoff_secs: Option<i64>,
    /// See [`SubscriptionRecord::enable_exactly_once_delivery`].
    pub enable_exactly_once_delivery: bool,
    /// `None` is pull, `Some` is push.
    pub push_config: Option<PushConfig>,
    /// Not supported: creating fails when this is set.
    pub has_bigquery_config: bool,
    /// Not supported: creating fails when this is set.
    pub has_cloud_storage_config: bool,
}

/// What [`CreateSubscriptionOptions`] hold.
pub struct OptionsView {
    pub ack_deadline_secs: Option<i32>,
    pub retain_acked_messages: bool,
    pub message_retention_secs: Option<i64>,
    pub labels: Entries,
    pub enable_message_ordering: bool,
    pub expiration_ttl_secs: Option<Option<i64>>,
    pub filter: Seq<char>,
    pub dead_letter_topic: Option<Seq<char>>,
    pub max_delivery_attempts: Option<i32>,
    pub min_retry_backoff_secs: Option<i64>,
    pub max_retry_backoff_secs: Option<i64>,
    pub enable_exactly_once_delivery: bool,
    pub push_config: Option<PushConfigView>,
    pub has_bigquery_config: bool,
    pub has_cloud_storage_config: bool,
}

impl View for CreateSubscriptionOptions {
    type V = OptionsView;

    open spec fn view(&self) -> OptionsView {
        OptionsView {
            ack_deadline_secs: self.ack_deadline_secs,
            retain_acked_messages: self.retain_acked_messages,
            message_retention_secs: self.message_retention_secs,
            labels: self.labels@,
            enable_message_ordering: self.enable_message_ordering,
            expiration_ttl_secs: self.expiration_ttl_secs,
            filter: self.filter@,
            dead_letter_topic: topic::opt_text(self.dead_letter_topic),
            max_delivery_attempts: self.max_delivery_attempts,
            min_retry_backoff_secs: self.min_retry_backoff_secs,
            max_retry_backoff_secs: self.max_retry_backoff_secs,
            enable_exactly_once_delivery: self.enable_exactly_once_delivery,
            push_config: opt_push(self.push_config),
            has_bigquery_config: self.has_bigquery_config,
            has_cloud_storage_config: self.has_cloud_storage_config,
        }
    }
}

/// Options of which nothing is set.
pub open spec fn no_options() -> OptionsView {
    OptionsView {
        ack_deadline_secs: None,
        retain_acked_messages: false,
        message_retention_secs: None,
        labels: Seq::empty(),
        enable_message_ordering: false,
        expiration_ttl_secs: None,
        filter: Seq::empty(),
        dead_letter_topic: None,
        max_delivery_attempts: None,
        min_retry_backoff_secs: None,
        max_retry_backoff_secs: None,
        enable_exactly_once_delivery: false,
        push_config: None,
        has_bigquery_config: false,
        has_cloud_storage_config: false,
    }
}

impl Default for CreateSubscriptionOptions {
    fn default() -> (r: Self)
        ensures
            r@ == no_options(),
    {
        proof {
            reveal_strlit("");
            assert(""@ =~= Seq::<char>::empty());
        }
        CreateSubscriptionOptions {
            ack_deadline_secs: None,
            retain_acked_messages: false,
            message_retention_secs: None,
            labels: StringMap::new(),
            enable_message_ordering: false,
            expiration_ttl_secs: None,
            filter: String::from_str(""),
            dead_letter_topic: None,
            max_delivery_attempts: None,
            min_retry_backoff_secs: None,
            max_retry_backoff_secs: None,
            enable_exactly_once_delivery: false,
            push_config: None,
            has_bigquery_config: false,
            has_cloud_storage_config: false,
        }
    }
}

/// New values for the fields of a subscription that can change. The name, the topic, message
/// ordering and the filter cannot.
#[derive(Debug)]
pub struct SubscriptionUpdatePatch {
    /// A new ack deadline.
    pub ack_deadline_secs: Option<i32>,
    /// A new [`SubscriptionRecord::retain_acked_messages`].
    pub retain_acked_messages: Option<bool>,
    /// A new retention.
    pub message_retention_secs: Option<i64>,
    /// New labels.
    pub labels: Option<StringMap>,
    /// A new expiration; `Some(None)` is never.
    pub expiration_ttl_secs: Option<Option<i64>>,
    /// A new dead-letter topic; `Some(None)` takes it away.
    pub dead_letter_topic: Option<Option<String>>,
    /// A new number of attempts before dead-lettering.
    pub max_delivery_attempts: Option<i32>,
    /// A new minimum retry backoff.
    pub min_retry_backoff_secs: Option<i64>,
    /// A new maximum retry backoff.
    pub max_retry_backoff_secs: Option<i64>,
    /// A new detached flag.
    pub detached: Option<bool>,
    /// A new [`SubscriptionRecord::enable_exactly_once_delivery`].
    pub enable_exactly_once_delivery: Option<bool>,
    /// A new push configuration; `Some(None)` is pull.
    pub push_config: Option<Option<PushConfig>>,
}

/// What a [`SubscriptionUpdatePatch`] holds.
pub struct PatchView {
    pub ack_deadline_secs: Option<i32>,
    pub retain_acked_messages: Option<bool>,
    pub message_retention_secs: Option<i64>,
    pub labels: Option<Entries>,
    pub expiration_ttl_secs: Option<Option<i64>>,
    pub dead_letter_topic: Option<Option<Seq<char>>>,
    pub max_delivery_attempts: Option<i32>,
    pub min_retry_backoff_secs: Option<i64>,
    pub max_retry_backoff_secs: Option<i64>,
    pub detached: Option<bool>,
    pub enable_exactly_once_delivery: Option<bool>,
    pub push_config: Option<Option<PushConfigView>>,
}

/// What an optional replacement of an optional push configuration holds.
pub open spec fn opt_opt_push(p: Option<Option<PushConfig>>) -> Option<Option<PushConfigView>> {
    match p {
        Some(x) => Some(opt_push(x)),
        None => None,
    }
}

impl View for SubscriptionUpdatePatch {
    type V = PatchView;

    open spec fn view(&self) -> PatchView {
        PatchView {
            ack_deadline_secs: self.ack_deadline_secs,
            retain_acked_messages: self.retain_acked_messages,
            message_retention_secs: self.message_retention_secs,
            labels: topic::opt_entries(self.labels),
            expiration_ttl_secs: self.expiration_ttl_secs,
            dead_letter_topic: topic::opt_opt_text(self.dead_letter_topic),
            max_delivery_attempts: self.max_delivery_attempts,
            min_retry_backoff_secs: self.min_retry_backoff_secs,
            max_retry_backoff_secs: self.max_retry_backoff_secs,
            detached: self.detached,
            enable_exactly_once_delivery: self.enable_exactly_once_delivery,
            push_config: opt_opt_push(self.push_config),
        }
    }
}

/// A patch that changes nothing.
pub open spec fn no_patch() -> PatchView {
    PatchView {
        ack_deadline_secs: None,
        retain_acked_messages: None,
        message_retention_secs: None,
        labels: None,
        expiration_ttl_secs: None,
        dead_letter_topic: None,
        max_delivery_attempts: None,
        min_retry_backoff_secs: None,
        max_retry_backoff_secs: None,
        detached: None,
        enable_exactly_once_delivery: None,
        push_config: None,
    }
}

impl Default for SubscriptionUpdatePatch {
    fn default() -> (r: Self)
        ensures
            r@ == no_patch(),
    {
        SubscriptionUpdatePatch {
            ack_deadline_secs: None,
            retain_acked_messages: None,
            message_retention_secs: None,
            labels: None,
            expiration_ttl_secs: None,
            dead_letter_topic: None,
            max_delivery_attempts: None,
            min_retry_backoff_secs: None,
            max_retry_backoff_secs: None,
            detached: None,
            enable_exactly_once_delivery: None,
            push_config: None,
        }
    }
}

/// The subscription stored under an id. `resource` is what the error names when there is none.
pub open spec fn stored_subscription(rows: Rows, id: u64, resource: Seq<char>) -> Result<
    SubscriptionView,
    ErrorView,
> {
    match kv::fetch(rows, "meta"@, keys::sub_key_bytes(id)) {
        None => Err(ErrorView::NotFound { resource }),
        Some(ValueView::Subscription(s)) => Ok(s),
        Some(v) => Err(kv::undecodable("failed to decode subscription record"@, v)),
    }
}

/// The id that a stored value holds. `resource` is what the error names when it holds none.
pub open spec fn id_in(value: ValueView, resource: Seq<char>) -> Result<u64, ErrorView> {
    match value {
        ValueView::Bytes(b) => match keys::from_be64(b) {
            Some(id) => Ok(id),
            None => Err(ErrorView::Internal { message: "corrupt id bytes for "@ + resource }),
        },
        _ => Err(ErrorView::Internal { message: "corrupt id bytes for "@ + resource }),
    }
}

/// The subscription with a name.
pub open spec fn subscription_named(rows: Rows, name: Seq<char>) -> Result<
    SubscriptionView,
    ErrorView,
> {
    match kv::fetch(rows, "meta"@, keys::name_key_bytes(NameKind::Subscription, name)) {
        None => Err(ErrorView::NotFound { resource: name }),
        Some(v) => match id_in(v, name) {
            Ok(id) => stored_subscription(rows, id, name),
            Err(e) => Err(e),
        },
    }
}

/// The id that the next subscription gets, if there is one left.
pub open spec fn next_subscription_id(rows: Rows) -> Result<u64, ErrorView> {
    let last = match kv::fetch(rows, "meta"@, keys::id_seq_key_bytes()) {
        Some(v) => id_in(v, "id_seq"@),
        None => Ok(0),
    };
    match last {
        Ok(n) => if n < u64::MAX {
            Ok((n + 1) as u64)
        } else {
            Err(ErrorView::ResourceExhausted { message: "subscription id space exhausted"@ })
        },
        Err(e) => Err(e),
    }
}

/// `value`, or a default.
pub open spec fn or_default<T>(value: Option<T>, default_value: T) -> T {
    match value {
        Some(v) => v,
        None => default_value,
    }
}

/// What is wrong with an optional value, if anything is.
pub open spec fn opt_error<T>(
    value: Option<T>,
    error_of: spec_fn(T) -> Option<ErrorView>,
) -> Option<ErrorView> {
    match value {
        Some(v) => error_of(v),
        None => None,
    }
}

/// What is wrong with the options, if anything is.
pub open spec fn options_error(opts: OptionsView) -> Option<ErrorView> {
    let ack_deadline = limits::ack_deadline_error(or_default(opts.ack_deadline_secs, 10) as int);
    let retention = limits::subscription_retention_error(
        or_default(opts.message_retention_secs, 604_800) as int,
    );
    let attempts = if opts.dead_letter_topic is Some {
        limits::dead_letter_attempts_error(or_default(opts.max_delivery_attempts, 0) as int)
    } else {
        None
    };
    let min_backoff = opt_error(
        opts.min_retry_backoff_secs,
        |v: i64| limits::retry_backoff_error(v as int),
    );
    let max_backoff = opt_error(
        opts.max_retry_backoff_secs,
        |v: i64| limits::retry_backoff_error(v as int),
    );
    if opts.has_bigquery_config {
        Some(
            error::invalid_argument(
                "bigquery_config"@,
                "bigquery_config is not supported by this server"@,
            ),
        )
    } else if opts.has_cloud_storage_config {
        Some(
            error::invalid_argument(
                "cloud_storage_config"@,
                "cloud_storage_config is not supported by this server"@,
            ),
        )
    } else if ack_deadline is Some {
        ack_deadline
    } else if retention is Some {
        retention
    } else if limits::filter_len_error(opts.filter) is Some {
        limits::filter_len_error(opts.filter)
    } else if attempts is Some {
        attempts
    } else if min_backoff is Some {
        min_backoff
    } else {
        max_backoff
    }
}

/// What stands in the way of creating a subscription, if anything does.
pub open spec fn create_error(
    rows: Rows,
    name: Seq<char>,
    topic_name: Seq<char>,
    opts: OptionsView,
) -> Option<ErrorView> {
    if names::subscription_name_error(name) is Some {
        names::subscription_name_error(name)
    } else if names::topic_name_error(topic_name) is Some {
        names::topic_name_error(topic_name)
    } else if options_error(opts) is Some {
        options_error(opts)
    } else if kv::fetch(rows, "meta"@, keys::name_key_bytes(NameKind::Subscription, name)) is Some {
        Some(ErrorView::AlreadyExists { resource: name })
    } else {
        match next_subscription_id(rows) {
            Ok(_) => None,
            Err(e) => Some(e),
        }
    }
}

/// The subscription that is created.
pub open spec fn new_subscription(
    rows: Rows,
    name: Seq<char>,
    topic_name: Seq<char>,
    topic_id: u64,
    now_ms: i64,
    opts: OptionsView,
) -> SubscriptionView {
    SubscriptionView {
        id: next_subscription_id(rows)->Ok_0,
        name,
        topic: topic_name,
        topic_id,
        ack_deadline_secs: or_default(opts.ack_deadline_secs, 10),
        retain_acked_messages: opts.retain_acked_messages,
        message_retention_secs: or_default(opts.message_retention_secs, 604_800),
        labels: opts.labels,
        enable_message_ordering: opts.enable_message_ordering,
        expiration_ttl_secs: or_default(opts.expiration_ttl_secs, Some(2_678_400)),
        filter: opts.filter,
        dead_letter_topic: opts.dead_letter_topic,
        max_delivery_attempts: if opts.dead_letter_topic is None {
            0
        } else if or_default(opts.max_delivery_attempts, 0) == 0 {
            5
        } else {
            or_default(opts.max_delivery_attempts, 0)
        },
        min_retry_backoff_secs: or_default(opts.min_retry_backoff_secs, 10),
        max_retry_backoff_secs: or_default(opts.max_retry_backoff_secs, 600),
        retry_policy_explicit: opts.min_retry_backoff_secs is Some || opts.max_retry_backoff_secs is Some,
        detached: false,
        enable_exactly_once_delivery: opts.enable_exactly_once_delivery,
        push_config: opts.push_config,
        last_activity_ts_ms: now_ms,
    }
}

/// Where a subscription stands that was attached to its topic's log at `attach_seq`: everything up
/// to there is done, nothing above is.
pub open spec fn new_cursor(attach_seq: u64) -> CursorView {
    CursorView { attach_seq, acked_floor: attach_seq, acked_above_floor: Set::empty() }
}

/// What storing a subscription writes: the record and the name's id.
pub open spec fn persist_writes(subscription: SubscriptionView) -> Seq<Write> {
    seq![
        Write::Put(
            "meta"@,
            keys::sub_key_bytes(subscription.id),
            ValueView::Subscription(subscription),
        ),
        Write::Put(
            "meta"@,
            keys::name_key_bytes(NameKind::Subscription, subscription.name),
            ValueView::Bytes(keys::be64(subscription.id)),
        ),
    ]
}

/// What creating a subscription writes: the id counter, the record, the name's id, the cursor, and
/// the index row that leads from the topic to the subscription.
pub open spec fn create_writes(subscription: SubscriptionView, attach_seq: u64) -> Seq<Write> {
    seq![
        Write::Put(
            "meta"@,
            keys::id_seq_key_bytes(),
            ValueView::Bytes(keys::be64(subscription.id)),
        ),
    ] + persist_writes(subscription) + seq![
        Write::Put(
            "sub"@,
            keys::be64(subscription.id),
            ValueView::Cursor(new_cursor(attach_seq)),
        ),
        Write::Put(
            "idx"@,
            keys::pair_key(subscription.topic_id, subscription.id),
            ValueView::Bytes(Seq::empty()),
        ),
    ]
}

/// What deleting a subscription removes.
pub open spec fn delete_writes(subscription: SubscriptionView) -> Seq<Write> {
    seq![
        Write::Delete("meta"@, keys::sub_key_bytes(subscription.id)),
        Write::Delete(
            "meta"@,
            keys::name_key_bytes(NameKind::Subscription, subscription.name),
        ),
        Write::Delete("sub"@, keys::be64(subscription.id)),
        Write::Delete("idx"@, keys::pair_key(subscription.topic_id, subscription.id)),
    ]
}

/// What deleting the subscription with a name comes to: all of it is removed, unless a write fails;
/// when it is not found, that is the error and nothing changes.
pub open spec fn deleted<K: KvStore>(
    before: Rows,
    after: Rows,
    name: Seq<char>,
    r: Result<(), Error>,
) -> bool {
    match subscription_named(before, name) {
        Ok(found) => kv::stored::<(), K>(r, before, after, None, (), delete_writes(found)),
        Err(e) => r is Err && r->Err_0@ == e && after == before,
    }
}

/// What is wrong with a patch, if anything is.
pub open spec fn patch_error(patch: PatchView) -> Option<ErrorView> {
    let ack_deadline = opt_error(
        patch.ack_deadline_secs,
        |v: i32| limits::ack_deadline_error(v as int),
    );
    let retention = opt_error(
        patch.message_retention_secs,
        |v: i64| limits::subscription_retention_error(v as int),
    );
    let attempts = opt_error(
        patch.max_delivery_attempts,
        |v: i32| limits::dead_letter_attempts_error(v as int),
    );
    let min_backoff = opt_error(
        patch.min_retry_backoff_secs,
        |v: i64| limits::retry_backoff_error(v as int),
    );
    let max_backoff = opt_error(
        patch.max_retry_backoff_secs,
        |v: i64| limits::retry_backoff_error(v as int),
    );
    if ack_deadline is Some {
        ack_deadline
    } else if retention is Some {
        retention
    } else if attempts is Some {
        attempts
    } else if min_backoff is Some {
        min_backoff
    } else {
        max_backoff
    }
}

/// A subscription with those fields replaced that the patch gives. Without a dead-letter topic there
/// is no number of attempts.
pub open spec fn patched(subscription: SubscriptionView, patch: PatchView) -> SubscriptionView {
    SubscriptionView {
        ack_deadline_secs: or_default(patch.ack_deadline_secs, subscription.ack_deadline_secs),
        retain_acked_messages: or_default(
            patch.retain_acked_messages,
            subscription.retain_acked_messages,
        ),
        message_retention_secs: or_default(
            patch.message_retention_secs,
            subscription.message_retention_secs,
        ),
        labels: or_default(patch.labels, subscription.labels),
        expiration_ttl_secs: or_default(
            patch.expiration_ttl_secs,
            subscription.expiration_ttl_secs,
        ),
        dead_letter_topic: or_default(patch.dead_letter_topic, subscription.dead_letter_topic),
        max_delivery_attempts: if or_default(
            patch.dead_letter_topic,
            subscription.dead_letter_topic,
        ) is None {
            0
        } else {
            match patch.max_delivery_attempts {
                Some(v) => if v == 0 {
                    5
                } else {
                    v
                },
                None => subscription.max_delivery_attempts,
            }
        },
        min_retry_backoff_secs: or_default(
            patch.min_retry_backoff_secs,
            subscription.min_retry_backoff_secs,
        ),
        max_retry_backoff_secs: or_default(
            patch.max_retry_backoff_secs,
            subscription.max_retry_backoff_secs,
        ),
        retry_policy_explicit: subscription.retry_policy_explicit
            || patch.min_retry_backoff_secs is Some || patch.max_retry_backoff_secs is Some,
        detached: or_default(patch.detached, subscription.detached),
        enable_exactly_once_delivery: or_default(
            patch.enable_exactly_once_delivery,
            subscription.enable_exactly_once_delivery,
        ),
        push_config: or_default(patch.push_config, subscription.push_config),
        ..subscription
    }
}

/// Without a dead-letter topic a subscription has no number of attempts.
pub open spec fn threshold_has_topic(subscription: SubscriptionView) -> bool {
    subscription.dead_letter_topic is None ==> subscription.max_delivery_attempts == 0
}

/// A subscription has a number of attempts only with a dead-letter topic, when it is created and
/// whatever it is changed to.
pub proof fn law_threshold_needs_a_topic(
    rows: Rows,
    name: Seq<char>,
    topic_name: Seq<char>,
    topic_id: u64,
    now_ms: i64,
    opts: OptionsView,
    subscription: SubscriptionView,
    patch: PatchView,
)
    ensures
        threshold_has_topic(new_subscription(rows, name, topic_name, topic_id, now_ms, opts)),
        threshold_has_topic(patched(subscription, patch)),
{
}

/// Every subscription record among scanned rows.
pub open spec fn subscriptions_in(scan: Scan) -> Seq<SubscriptionView>
    decreases scan.len(),
{
    if scan.len() == 0 {
        Seq::empty()
    } else {
        match scan.last().1 {
            ValueView::Subscription(s) => subscriptions_in(scan.drop_last()).push(s),
            _ => subscriptions_in(scan.drop_last()),
        }
    }
}

/// Every subscription.
pub open spec fn all_subscriptions(rows: Rows) -> Seq<SubscriptionView> {
    subscriptions_in(kv::scan_of(rows, "meta"@, vstd::utf8::encode_utf8("s/"@)))
}

/// The subscription ids in index rows.
pub open spec fn ids_in(scan: Scan) -> Seq<u64>
    decreases scan.len(),
{
    if scan.len() == 0 {
        Seq::empty()
    } else {
        match keys::from_pair_key(scan.last().0) {
            Some((_, sub_id)) => ids_in(scan.drop_last()).push(sub_id),
            None => ids_in(scan.drop_last()),
        }
    }
}

/// The ids of the subscriptions of a topic.
pub open spec fn attached_ids(rows: Rows, topic_id: u64) -> Seq<u64> {
    ids_in(kv::scan_of(rows, "idx"@, keys::be64(topic_id)))
}

impl Named for String {
    open spec fn name_of(v: Seq<char>) -> Seq<char> {
        v
    }

    fn name_text(&self) -> (r: &str) {
        self.as_str()
    }
}

/// The names in name-index rows, without the first `skip` bytes of the key, that start with
/// `project_prefix`.
pub open spec fn names_in(scan: Scan, skip: int, project_prefix: Seq<char>) -> Seq<Seq<char>>
    decreases scan.len(),
{
    if scan.len() == 0 {
        Seq::empty()
    } else {
        let rest = names_in(scan.drop_last(), skip, project_prefix);
        match text::text_in(scan.last().0.skip(skip)) {
            Some(name) => if text::has_prefix(name, project_prefix) {
                rest.push(name)
            } else {
                rest
            },
            None => rest,
        }
    }
}

/// The names of the subscriptions of a project, sorted.
pub open spec fn project_names(rows: Rows, project_id: Seq<char>) -> Seq<Seq<char>> {
    let prefix = keys::name_key_bytes(NameKind::Subscription, ""@);
    listing::sorted_by_name::<String>(
        names_in(
            kv::scan_of(rows, "meta"@, prefix),
            prefix.len() as int,
            "projects/"@ + project_id + "/subscriptions/"@,
        ),
    )
}

/// The subscriptions with the given names.
pub open spec fn subscriptions_named(rows: Rows, names: Seq<Seq<char>>) -> Result<
    Seq<SubscriptionView>,
    ErrorView,
>
    decreases names.len(),
{
    if names.len() == 0 {
        Ok(Seq::empty())
    } else {
        match subscriptions_named(rows, names.drop_last()) {
            Err(e) => Err(e),
            Ok(found) => match subscription_named(rows, names.last()) {
                Ok(s) => Ok(found.push(s)),
                Err(e) => Err(e),
            },
        }
    }
}

/// How many entries a page holds; a size of 0 is no limit.
pub open spec fn page_limit(page_size: usize) -> nat {
    if page_size == 0 {
        usize::MAX as nat
    } else {
        page_size as nat
    }
}

/// A subscription was unused for as long as its expiration allows.
pub open spec fn has_expired(subscription: SubscriptionView, now_ms: i64) -> bool {
    subscription.expiration_ttl_secs matches Some(ttl) && now_ms >= arith::clamp_i64(
        subscription.last_activity_ts_ms + arith::clamp_i64(ttl * 1000),
    )
}

/// How far a sweep has come.
pub struct Sweep {
    pub writes: Seq<Write>,
    pub removed: Seq<Seq<char>>,
    pub failure: Option<ErrorView>,
}

/// What a sweep does to the first `n` of `subscriptions`: it deletes those that have expired, by
/// their names, up to the first that it does not find.
pub open spec fn swept(
    rows: Rows,
    subscriptions: Seq<SubscriptionView>,
    now_ms: i64,
    n: int,
) -> Sweep
    decreases n,
{
    if n <= 0 {
        Sweep { writes: Seq::empty(), removed: Seq::empty(), failure: None }
    } else {
        let before = swept(rows, subscriptions, now_ms, n - 1);
        let s = subscriptions[n - 1];
        if before.failure is Some || !has_expired(s, now_ms) {
            before
        } else {
            match subscription_named(kv::after_writes(rows, before.writes), s.name) {
                Ok(found) => Sweep {
                    writes: before.writes + delete_writes(found),
                    removed: before.removed.push(s.name),
                    failure: None,
                },
                Err(e) => Sweep { failure: Some(e), ..before },
            }
        }
    }
}

/// How a sweep ends.
pub open spec fn sweep_outcome(sweep: Sweep) -> Result<Seq<Seq<char>>, ErrorView> {
    match sweep.failure {
        Some(e) => Err(e),
        None => Ok(sweep.removed),
    }
}

/// What a list of texts holds.
pub open spec fn texts_result(r: Result<Vec<String>, Error>) -> Result<Seq<Seq<char>>, ErrorView> {
    match r {
        Ok(v) => Ok(text::texts(v@)),
        Err(e) => Err(e@),
    }
}

/// Subscriptions, in a [`KvStore`].
#[derive(Debug, Clone, Copy)]
pub struct SubscriptionStore;

fn decode_id(value: &KvValue, resource: &str) -> (r: Result<u64, Error>)
    ensures
        match id_in(value@, resource@) {
            Ok(id) => r is Ok && r->Ok_0 == id,
            Err(e) => r is Err && r->Err_0@ == e,
        },
{
    match value {
        KvValue::Bytes(b) => match keys::decode_u64(b.as_slice()) {
            Some(id) => Ok(id),
            None => Err(
                Error::Internal { message: text::cat2("corrupt id bytes for ", resource) },
            ),
        },
        _ => Err(Error::Internal { message: text::cat2("corrupt id bytes for ", resource) }),
    }
}

fn check_options(opts: &CreateSubscriptionOptions) -> (r: Result<(), Error>)
    ensures
        error::checked(r, options_error(opts@)),
{
    if opts.has_bigquery_config {
        return Err(
            invalid(
                "bigquery_config",
                String::from_str("bigquery_config is not supported by this server"),
            ),
        );
    }
    if opts.has_cloud_storage_config {
        return Err(
            invalid(
                "cloud_storage_config",
                String::from_str("cloud_storage_config is not supported by this server"),
            ),
        );
    }
    match limits::validate_ack_deadline_secs(
        match opts.ack_deadline_secs {
            Some(v) => v,
            None => 10,
        },
    ) {
        Ok(_) => {},
        Err(e) => {
            return Err(e);
        },
    }
    match limits::validate_subscription_retention_secs(
        match opts.message_retention_secs {
            Some(v) => v,
            None => 604_800,
        },
    ) {
        Ok(_) => {},
        Err(e) => {
            return Err(e);
        },
    }
    match limits::validate_filter_len(opts.filter.as_str()) {
        Ok(_) => {},
        Err(e) => {
            return Err(e);
        },
    }
    if opts.dead_letter_topic.is_some() {
        match limits::validate_dead_letter_max_attempts(
            match opts.max_delivery_attempts {
                Some(v) => v,
                None => 0,
            },
        ) {
            Ok(_) => {},
            Err(e) => {
                return Err(e);
            },
        }
    }
    if let Some(v) = opts.min_retry_backoff_secs {
        match limits::validate_retry_backoff_secs(v) {
            Ok(_) => {},
            Err(e) => {
                return Err(e);
            },
        }
    }
    if let Some(v) = opts.max_retry_backoff_secs {
        match limits::validate_retry_backoff_secs(v) {
            Ok(_) => {},
            Err(e) => {
                return Err(e);
            },
        }
    }
    Ok(())
}

fn check_patch(patch: &SubscriptionUpdatePatch) -> (r: Result<(), Error>)
    ensures
        error::checked(r, patch_error(patch@)),
{
    if let Some(v) = patch.ack_deadline_secs {
        match limits::validate_ack_deadline_secs(v) {
            Ok(_) => {},
            Err(e) => {
                return Err(e);
            },
        }
    }
    if let Some(v) = patch.message_retention_secs {
        match limits::validate_subscription_retention_secs(v) {
            Ok(_) => {},
            Err(e) => {
                return Err(e);
            },
        }
    }
    if let Some(v) = patch.max_delivery_attempts {
        match limits::validate_dead_letter_max_attempts(v) {
            Ok(_) => {},
            Err(e) => {
                return Err(e);
            },
        }
    }
    if let Some(v) = patch.min_retry_backoff_secs {
        match limits::validate_retry_backoff_secs(v) {
            Ok(_) => {},
            Err(e) => {
                return Err(e);
            },
        }
    }
    if let Some(v) = patch.max_retry_backoff_secs {
        match limits::validate_retry_backoff_secs(v) {
            Ok(_) => {},
            Err(e) => {
                return Err(e);
            },
        }
    }
    Ok(())
}

fn apply_patch(record: SubscriptionRecord, patch: SubscriptionUpdatePatch) -> (r: SubscriptionRecord)
    ensures
        r@ == patched(record@, patch@),
{
    let explicit = record.retry_policy_explicit || patch.min_retry_backoff_secs.is_some()
        || patch.max_retry_backoff_secs.is_some();
    let dead_letter_topic = match patch.dead_letter_topic {
        Some(v) => v,
        None => record.dead_letter_topic,
    };
    let max_delivery_attempts: i32 = if dead_letter_topic.is_none() {
        0
    } else {
        match patch.max_delivery_attempts {
            Some(v) => if v == 0 {
                5
            } else {
                v
            },
            None => record.max_delivery_attempts,
        }
    };
    SubscriptionRecord {
        id: record.id,
        name: record.name,
        topic: record.topic,
        topic_id: record.topic_id,
        ack_deadline_secs: match patch.ack_deadline_secs {
            Some(v) => v,
            None => record.ack_deadline_secs,
        },
        retain_acked_messages: match patch.retain_acked_messages {
            Some(v) => v,
            None => record.retain_acked_messages,
        },
        message_retention_secs: match patch.message_retention_secs {
            Some(v) => v,
            None => record.message_retention_secs,
        },
        labels: match patch.labels {
            Some(v) => v,
            None => record.labels,
        },
        enable_message_ordering: record.enable_message_ordering,
        expiration_ttl_secs: match patch.expiration_ttl_secs {
            Some(v) => v,
            None => record.expiration_ttl_secs,
        },
        filter: record.filter,
        dead_letter_topic,
        max_delivery_attempts,
        min_retry_backoff_secs: match patch.min_retry_backoff_secs {
            Some(v) => v,
            None => record.min_retry_backoff_secs,
        },
        max_retry_backoff_secs: match patch.max_retry_backoff_secs {
            Some(v) => v,
            None => record.max_retry_backoff_secs,
        },
        retry_policy_explicit: explicit,
        detached: match patch.detached {
            Some(v) => v,
            None => record.detached,
        },
        enable_exactly_once_delivery: match patch.enable_exactly_once_delivery {
            Some(v) => v,
            None => record.enable_exactly_once_delivery,
        },
        push_config: match patch.push_config {
            Some(v) => v,
            None => record.push_config,
        },
        last_activity_ts_ms: record.last_activity_ts_ms,
    }
}

impl SubscriptionStore {
    /// A subscription store.
    pub fn new() -> Self {
        SubscriptionStore
    }

    fn next_id<K: KvStore>(&self, kv: &K) -> (r: Result<u64, Error>)
        ensures
            match next_subscription_id(kv.rows()) {
                Ok(id) => r is Ok && r->Ok_0 == id,
                Err(e) => r is Err && r->Err_0@ == e,
            },
    {
        let last: u64 = match kv.get("meta", keys::id_seq_key().as_slice()) {
            Some(v) => match decode_id(&v, "id_seq") {
                Ok(n) => n,
                Err(e) => {
                    return Err(e);
                },
            },
            None => 0,
        };
        if last == u64::MAX {
            return Err(
                Error::ResourceExhausted {
                    message: String::from_str("subscription id space exhausted"),
                },
            );
        }
        Ok(last + 1)
    }

    fn persist_step<K: KvStore>(
        &self,
        kv: &mut K,
        record: &SubscriptionRecord,
        Ghost(before): Ghost<Rows>,
        Ghost(writes): Ghost<Seq<Write>>,
        Ghost(n): Ghost<int>,
    ) -> (r: Result<(), Error>)
        requires
            0 <= n,
            n + 2 <= writes.len(),
            writes[n] == persist_writes(record@)[0],
            writes[n + 1] == persist_writes(record@)[1],
            old(kv).rows() == kv::after_writes(before, writes.take(n)),
        ensures
            match r {
                Ok(_) => final(kv).rows() == kv::after_writes(before, writes.take(n + 2)),
                Err(e) => {
                    &&& !K::reliable()
                    &&& K::may_fail(e@)
                    &&& kv::torn(before, writes, final(kv).rows())
                },
            },
    {
        match kv::put_step(
            kv,
            "meta",
            keys::sub_key(record.id),
            KvValue::Subscription(record.clone()),
            Ghost(before),
            Ghost(writes),
            Ghost(n),
        ) {
            Ok(_) => {},
            Err(e) => {
                return Err(e);
            },
        }
        kv::put_step(
            kv,
            "meta",
            keys::name_key(NameKind::Subscription, record.name.as_str()),
            KvValue::Bytes(keys::u64_bytes(record.id)),
            Ghost(before),
            Ghost(writes),
            Ghost(n + 1),
        )
    }

    fn persist<K: KvStore>(&self, kv: &mut K, record: &SubscriptionRecord) -> (r: Result<(), Error>)
        ensures
            kv::stored::<(), K>(
                r,
                old(kv).rows(),
                final(kv).rows(),
                None,
                (),
                persist_writes(record@),
            ),
    {
        let ghost before = kv.rows();
        let ghost writes = persist_writes(record@);
        assert(writes.take(0) =~= Seq::<Write>::empty());
        assert(writes.take(2) =~= writes);
        self.persist_step(kv, record, Ghost(before), Ghost(writes), Ghost(0))
    }

    /// Creates a subscription on the topic with the given name and id, attached behind
    /// `attach_seq` in the topic's log.
    pub fn create<K: KvStore>(
        &self,
        kv: &mut K,
        full_name: &str,
        topic_full_name: &str,
        topic_id: u64,
        attach_seq: u64,
        now_ms: i64,
        opts: CreateSubscriptionOptions,
    ) -> (r: Result<SubscriptionRecord, Error>)
        ensures
            ({
                let new = new_subscription(
                    old(kv).rows(),
                    full_name@,
                    topic_full_name@,
                    topic_id,
                    now_ms,
                    opts@,
                );
                kv::stored::<SubscriptionRecord, K>(
                    r,
                    old(kv).rows(),
                    final(kv).rows(),
                    create_error(old(kv).rows(), full_name@, topic_full_name@, opts@),
                    new,
                    create_writes(new, attach_seq),
                )
            }),
    {
        match SubscriptionName::parse(full_name) {
            Ok(_) => {},
            Err(e) => {
                return Err(e);
            },
        }
        match TopicName::parse(topic_full_name) {
            Ok(_) => {},
            Err(e) => {
                return Err(e);
            },
        }
        match check_options(&opts) {
            Ok(_) => {},
            Err(e) => {
                return Err(e);
            },
        }
        let name_key = keys::name_key(NameKind::Subscription, full_name);
        if kv.get("meta", name_key.as_slice()).is_some() {
            return Err(Error::AlreadyExists { resource: String::from_str(full_name) });
        }
        let id: u64 = match self.next_id(kv) {
            Ok(id) => id,
            Err(e) => {
                return Err(e);
            },
        };
        let ghost options = opts@;
        let max_delivery_attempts: i32 = if opts.dead_letter_topic.is_some() {
            match opts.max_delivery_attempts {
                Some(v) => if v == 0 {
                    5
                } else {
                    v
                },
                None => 5,
            }
        } else {
            0
        };
        let record = SubscriptionRecord {
            id,
            name: String::from_str(full_name),
            topic: String::from_str(topic_full_name),
            topic_id,
            ack_deadline_secs: match opts.ack_deadline_secs {
                Some(v) => v,
                None => 10,
            },
            retain_acked_messages: opts.retain_acked_messages,
            message_retention_secs: match opts.message_retention_secs {
                Some(v) => v,
                None => 604_800,
            },
            labels: opts.labels,
            enable_message_ordering: opts.enable_message_ordering,
            expiration_ttl_secs: match opts.expiration_ttl_secs {
                Some(v) => v,
                None => Some(2_678_400),
            },
            filter: opts.filter,
            dead_letter_topic: opts.dead_letter_topic,
            max_delivery_attempts,
            min_retry_backoff_secs: match opts.min_retry_backoff_secs {
                Some(v) => v,
                None => 10,
            },
            max_retry_backoff_secs: match opts.max_retry_backoff_secs {
                Some(v) => v,
                None => 600,
            },
            retry_policy_explicit: opts.min_retry_backoff_secs.is_some()
                || opts.max_retry_backoff_secs.is_some(),
            detached: false,
            enable_exactly_once_delivery: opts.enable_exactly_once_delivery,
            push_config: opts.push_config,
            last_activity_ts_ms: now_ms,
        };
        let ghost before = kv.rows();
        assert(record@ == new_subscription(
            before,
            full_name@,
            topic_full_name@,
            topic_id,
            now_ms,
            options,
        ));
        let ghost writes = create_writes(record@, attach_seq);
        assert(writes.take(0) =~= Seq::<Write>::empty());
        match kv::put_step(
            kv,
            "meta",
            keys::id_seq_key(),
            KvValue::Bytes(keys::u64_bytes(id)),
            Ghost(before),
            Ghost(writes),
            Ghost(0),
        ) {
            Ok(_) => {},
            Err(e) => {
                return Err(e);
            },
        }
        match self.persist_step(kv, &record, Ghost(before), Ghost(writes), Ghost(1)) {
            Ok(_) => {},
            Err(e) => {
                return Err(e);
            },
        }
        let cursor = CursorRecord {
            attach_seq,
            acked_floor: attach_seq,
            acked_above_floor: BTreeSet::new(),
        };
        assert(cursor@ == new_cursor(attach_seq)) by {
            assert(cursor@.acked_above_floor =~= Set::<u64>::empty());
        }
        match kv::put_step(
            kv,
            "sub",
            keys::cursor_key(id),
            KvValue::Cursor(cursor),
            Ghost(before),
            Ghost(writes),
            Ghost(3),
        ) {
            Ok(_) => {},
            Err(e) => {
                return Err(e);
            },
        }
        match kv::put_step(
            kv,
            "idx",
            keys::topic_sub_idx_key(topic_id, id),
            KvValue::Bytes(Vec::new()),
            Ghost(before),
            Ghost(writes),
            Ghost(4),
        ) {
            Ok(_) => {},
            Err(e) => {
                return Err(e);
            },
        }
        assert(writes.take(5) =~= writes);
        Ok(record)
    }

    fn load<K: KvStore>(&self, kv: &K, id: u64, resource: &str) -> (r: Result<
        SubscriptionRecord,
        Error,
    >)
        ensures
            error::result_view(r) == stored_subscription(kv.rows(), id, resource@),
    {
        match kv.get("meta", keys::sub_key(id).as_slice()) {
            None => Err(not_found(resource)),
            Some(KvValue::Subscription(s)) => Ok(s),
            Some(v) => Err(kv::not_decoded("failed to decode subscription record", &v)),
        }
    }

    /// The subscription with a name.
    pub fn get<K: KvStore>(&self, kv: &K, full_name: &str) -> (r: Result<SubscriptionRecord, Error>)
        ensures
            error::result_view(r) == subscription_named(kv.rows(), full_name@),
    {
        match kv.get("meta", keys::name_key(NameKind::Subscription, full_name).as_slice()) {
            None => Err(not_found(full_name)),
            Some(v) => match decode_id(&v, full_name) {
                Ok(id) => self.load(kv, id, full_name),
                Err(e) => Err(e),
            },
        }
    }

    /// The subscription with an id.
    pub fn get_by_id<K: KvStore>(&self, kv: &K, id: u64) -> (r: Result<SubscriptionRecord, Error>)
        ensures
            error::result_view(r) == stored_subscription(
                kv.rows(),
                id,
                "subscription id="@ + text::dec(id as nat),
            ),
    {
        self.load(kv, id, text::cat2("subscription id=", text::u64_text(id).as_str()).as_str())
    }

    /// A page of the subscriptions of a project, sorted by name, and the token for the next page. A
    /// page size of 0 is no limit.
    pub fn list<K: KvStore>(
        &self,
        kv: &K,
        project_id: &str,
        page_size: usize,
        page_token: Option<&str>,
    ) -> (r: Result<(Vec<SubscriptionRecord>, Option<String>), Error>)
        ensures
            ({
                let names = project_names(kv.rows(), project_id@);
                let token = listing::opt_str(page_token);
                match subscriptions_named(
                    kv.rows(),
                    listing::page::<String>(names, page_limit(page_size), token),
                ) {
                    Ok(found) => {
                        &&& r is Ok
                        &&& listing::views((r->Ok_0).0@) == found
                        &&& listing::opt_string((r->Ok_0).1) == listing::next_token::<String>(
                            names,
                            page_limit(page_size),
                            token,
                        )
                    },
                    Err(e) => r is Err && r->Err_0@ == e,
                }
            }),
    {
        let prefix = keys::name_key(NameKind::Subscription, "");
        let skip: usize = prefix.len();
        let project_prefix = text::cat3("projects/", project_id, "/subscriptions/");
        let entries = kv.scan_prefix("meta", prefix.as_slice());
        let ghost scan = kv::scan_view(entries@);
        proof {
            kv::law_scan_is_unique(kv.rows(), "meta"@, prefix@, scan, scan);
        }
        let mut sorted: Vec<String> = Vec::new();
        let ghost mut found: Seq<Seq<char>> = Seq::empty();
        let mut i: usize = 0;
        assert(scan.take(0) =~= Scan::empty());
        assert(listing::views(sorted@) =~= Seq::<Seq<char>>::empty());
        while i < entries.len()
            invariant
                i <= entries.len(),
                scan == kv::scan_view(entries@),
                skip == prefix@.len(),
                kv::is_scan(kv.rows(), "meta"@, prefix@, scan),
                names_in(scan.take(i as int), skip as int, project_prefix@) == found,
                listing::views(sorted@) == listing::sorted_by_name::<String>(found),
            decreases entries.len() - i,
        {
            assert(scan.take(i + 1).drop_last() =~= scan.take(i as int));
            let key: &[u8] = entries[i].0.as_slice();
            assert(scan[i as int].0 == key@);
            let rest: &[u8] = vstd::slice::slice_subrange(key, skip, key.len());
            assert(rest@ =~= key@.skip(skip as int));
            if let Some(name) = text::text_from(rest) {
                if text::str_has_prefix(name.as_str(), project_prefix.as_str()) {
                    proof {
                        assert(found.push(name@).drop_last() =~= found);
                        found = found.push(name@);
                    }
                    listing::insert_sorted(&mut sorted, name);
                }
            }
            i = i + 1;
        }
        assert(scan.take(i as int) =~= scan);
        let limit: usize = if page_size == 0 {
            usize::MAX
        } else {
            page_size
        };
        let (page, token) = listing::take_page(sorted, limit, page_token);
        let ghost names = listing::views(page@);
        let mut records: Vec<SubscriptionRecord> = Vec::new();
        assert(names.take(0) =~= Seq::<Seq<char>>::empty());
        assert(listing::views(records@) =~= Seq::<SubscriptionView>::empty());
        i = 0;
        while i < page.len()
            invariant
                i <= page.len(),
                names == listing::views(page@),
                subscriptions_named(kv.rows(), names.take(i as int)) == Ok::<_, ErrorView>(
                    listing::views(records@),
                ),
                names == listing::page::<String>(
                    project_names(kv.rows(), project_id@),
                    page_limit(page_size),
                    listing::opt_str(page_token),
                ),
            decreases page.len() - i,
        {
            assert(names.take(i + 1).drop_last() =~= names.take(i as int));
            assert(names[i as int] == page@[i as int]@);
            match self.get(kv, page[i].as_str()) {
                Ok(record) => {
                    let ghost earlier = records@;
                    let ghost added = record@;
                    records.push(record);
                    assert(listing::views(records@) =~= listing::views(earlier).push(added));
                },
                Err(e) => {
                    proof {
                        lemma_named_error(kv.rows(), names, i + 1);
                    }
                    return Err(e);
                },
            }
            i = i + 1;
        }
        assert(names.take(i as int) =~= names);
        Ok((records, token))
    }

    /// The ids of the subscriptions of a topic.
    pub fn list_by_topic_id<K: KvStore>(&self, kv: &K, topic_id: u64) -> (r: Result<
        Vec<u64>,
        Error,
    >)
        ensures
            r is Ok,
            r->Ok_0@ == attached_ids(kv.rows(), topic_id),
            kv::has_scan(kv.rows(), "idx"@, keys::be64(topic_id)),
    {
        let entries = kv.scan_prefix("idx", keys::topic_sub_idx_prefix(topic_id).as_slice());
        let ghost scan = kv::scan_view(entries@);
        proof {
            kv::law_scan_is_unique(kv.rows(), "idx"@, keys::be64(topic_id), scan, scan);
        }
        let mut ids: Vec<u64> = Vec::new();
        let mut i: usize = 0;
        assert(scan.take(0) =~= Scan::empty());
        while i < entries.len()
            invariant
                i <= entries.len(),
                scan == kv::scan_view(entries@),
                ids@ == ids_in(scan.take(i as int)),
            decreases entries.len() - i,
        {
            assert(scan.take(i + 1).drop_last() =~= scan.take(i as int));
            assert(scan[i as int].0 == entries@[i as int].0@);
            if let Some((_, sub_id)) = keys::parse_pair(entries[i].0.as_slice()) {
                ids.push(sub_id);
            }
            i = i + 1;
        }
        assert(scan.take(i as int) =~= scan);
        Ok(ids)
    }

    /// Every subscription of every project. Rows that hold no subscription are passed over.
    pub fn list_all<K: KvStore>(&self, kv: &K) -> (r: Vec<SubscriptionRecord>)
        ensures
            listing::views(r@) == all_subscriptions(kv.rows()),
    {
        let rows = kv.scan_prefix("meta", "s/".as_bytes());
        let ghost scan = kv::scan_view(rows@);
        proof {
            kv::law_scan_is_unique(
                kv.rows(),
                "meta"@,
                vstd::utf8::encode_utf8("s/"@),
                scan,
                scan,
            );
        }
        let mut out: Vec<SubscriptionRecord> = Vec::new();
        let mut i: usize = 0;
        assert(scan.take(0) =~= Scan::empty());
        assert(listing::views(out@) =~= Seq::<SubscriptionView>::empty());
        while i < rows.len()
            invariant
                i <= rows.len(),
                scan == kv::scan_view(rows@),
                listing::views(out@) == subscriptions_in(scan.take(i as int)),
            decreases rows.len() - i,
        {
            assert(scan.take(i + 1).drop_last() =~= scan.take(i as int));
            assert(scan[i as int].1 == rows@[i as int].1@);
            match &rows[i].1 {
                KvValue::Subscription(s) => {
                    let ghost before = out@;
                    out.push(s.clone());
                    assert(listing::views(out@) =~= listing::views(before).push(s@));
                },
                _ => {},
            }
            i = i + 1;
        }
        assert(scan.take(i as int) =~= scan);
        out
    }

    /// Replaces those fields of a subscription that the patch gives.
    pub fn update<K: KvStore>(
        &self,
        kv: &mut K,
        full_name: &str,
        patch: SubscriptionUpdatePatch,
    ) -> (r: Result<SubscriptionRecord, Error>)
        ensures
            match subscription_named(old(kv).rows(), full_name@) {
                Ok(found) => kv::stored::<SubscriptionRecord, K>(
                    r,
                    old(kv).rows(),
                    final(kv).rows(),
                    patch_error(patch@),
                    patched(found, patch@),
                    persist_writes(patched(found, patch@)),
                ),
                Err(e) => r is Err && r->Err_0@ == e && final(kv).rows() == old(kv).rows(),
            },
    {
        let record = match self.get(kv, full_name) {
            Ok(record) => record,
            Err(e) => {
                return Err(e);
            },
        };
        match check_patch(&patch) {
            Ok(_) => {},
            Err(e) => {
                return Err(e);
            },
        }
        let changed = apply_patch(record, patch);
        match self.persist(kv, &changed) {
            Ok(_) => Ok(changed),
            Err(e) => Err(e),
        }
    }

    /// Notes on a subscription that its topic was deleted.
    pub fn set_topic_to_deleted<K: KvStore>(&self, kv: &mut K, sub_id: u64) -> (r: Result<
        (),
        Error,
    >)
        ensures
            match stored_subscription(
                old(kv).rows(),
                sub_id,
                "sub_id="@ + text::dec(sub_id as nat),
            ) {
                Ok(found) => kv::stored::<(), K>(
                    r,
                    old(kv).rows(),
                    final(kv).rows(),
                    None,
                    (),
                    persist_writes(orphaned(found)),
                ),
                Err(e) => r is Err && r->Err_0@ == e && final(kv).rows() == old(kv).rows(),
            },
    {
        let mut record = match self.load(
            kv,
            sub_id,
            text::cat2("sub_id=", text::u64_text(sub_id).as_str()).as_str(),
        ) {
            Ok(record) => record,
            Err(e) => {
                return Err(e);
            },
        };
        record.topic = String::from_str(DELETED_TOPIC);
        record.detached = true;
        self.persist(kv, &record)
    }

    /// Notes on a subscription that it was used. Does nothing when there is no such subscription.
    pub fn touch<K: KvStore>(&self, kv: &mut K, sub_id: u64, now_ms: i64) -> (r: Result<(), Error>)
        ensures
            kv::stored::<(), K>(
                r,
                old(kv).rows(),
                final(kv).rows(),
                None,
                (),
                touch_writes(old(kv).rows(), sub_id, now_ms),
            ),
    {
        let mut record = match self.load(
            kv,
            sub_id,
            text::cat2("sub_id=", text::u64_text(sub_id).as_str()).as_str(),
        ) {
            Ok(record) => record,
            Err(_) => {
                return Ok(());
            },
        };
        record.last_activity_ts_ms = now_ms;
        self.persist(kv, &record)
    }

    /// Detaches a subscription.
    pub fn detach<K: KvStore>(&self, kv: &mut K, full_name: &str) -> (r: Result<(), Error>)
        ensures
            match subscription_named(old(kv).rows(), full_name@) {
                Ok(found) => kv::stored::<(), K>(
                    r,
                    old(kv).rows(),
                    final(kv).rows(),
                    None,
                    (),
                    persist_writes(SubscriptionView { detached: true, ..found }),
                ),
                Err(e) => r is Err && r->Err_0@ == e && final(kv).rows() == old(kv).rows(),
            },
    {
        let mut record = match self.get(kv, full_name) {
            Ok(record) => record,
            Err(e) => {
                return Err(e);
            },
        };
        record.detached = true;
        self.persist(kv, &record)
    }

    /// Sets the push configuration of a subscription; `None` makes it a pull subscription.
    pub fn set_push_config<K: KvStore>(
        &self,
        kv: &mut K,
        full_name: &str,
        push_config: Option<PushConfig>,
    ) -> (r: Result<(), Error>)
        ensures
            match subscription_named(old(kv).rows(), full_name@) {
                Ok(found) => kv::stored::<(), K>(
                    r,
                    old(kv).rows(),
                    final(kv).rows(),
                    None,
                    (),
                    persist_writes(
                        SubscriptionView { push_config: opt_push(push_config), ..found },
                    ),
                ),
                Err(e) => r is Err && r->Err_0@ == e && final(kv).rows() == old(kv).rows(),
            },
    {
        let mut record = match self.get(kv, full_name) {
            Ok(record) => record,
            Err(e) => {
                return Err(e);
            },
        };
        record.push_config = push_config;
        self.persist(kv, &record)
    }

    /// Deletes a subscription: the record, the name's id, the cursor and the index row.
    pub fn delete<K: KvStore>(&self, kv: &mut K, full_name: &str) -> (r: Result<(), Error>)
        ensures
            deleted::<K>(old(kv).rows(), final(kv).rows(), full_name@, r),
    {
        let record = match self.get(kv, full_name) {
            Ok(record) => record,
            Err(e) => {
                return Err(e);
            },
        };
        let ghost before = kv.rows();
        let ghost writes = delete_writes(record@);
        assert(writes.take(0) =~= Seq::<Write>::empty());
        match kv::delete_step(
            kv,
            "meta",
            keys::sub_key(record.id).as_slice(),
            Ghost(before),
            Ghost(writes),
            Ghost(0),
        ) {
            Ok(_) => {},
            Err(e) => {
                return Err(e);
            },
        }
        match kv::delete_step(
            kv,
            "meta",
            keys::name_key(NameKind::Subscription, record.name.as_str()).as_slice(),
            Ghost(before),
            Ghost(writes),
            Ghost(1),
        ) {
            Ok(_) => {},
            Err(e) => {
                return Err(e);
            },
        }
        match kv::delete_step(
            kv,
            "sub",
            keys::cursor_key(record.id).as_slice(),
            Ghost(before),
            Ghost(writes),
            Ghost(2),
        ) {
            Ok(_) => {},
            Err(e) => {
                return Err(e);
            },
        }
        match kv::delete_step(
            kv,
            "idx",
            keys::topic_sub_idx_key(record.topic_id, record.id).as_slice(),
            Ghost(before),
            Ghost(writes),
            Ghost(3),
        ) {
            Ok(_) => {},
            Err(e) => {
                return Err(e);
            },
        }
        assert(writes.take(4) =~= writes);
        Ok(())
    }

    /// Deletes the subscriptions that have expired, and returns their names.
    pub fn sweep_expired<K: KvStore>(&self, kv: &mut K, now_ms: i64) -> (r: Result<
        Vec<String>,
        Error,
    >)
        ensures
            ({
                let all = all_subscriptions(old(kv).rows());
                let sweep = swept(old(kv).rows(), all, now_ms, all.len() as int);
                ||| texts_result(r) == sweep_outcome(sweep) && final(kv).rows()
                    == kv::after_writes(old(kv).rows(), sweep.writes)
                ||| r is Err && !K::reliable() && K::may_fail(r->Err_0@) && kv::torn(
                    old(kv).rows(),
                    sweep.writes,
                    final(kv).rows(),
                )
            }),
    {
        let records = self.list_all(kv);
        let ghost before = kv.rows();
        let ghost all = listing::views(records@);
        let mut removed: Vec<String> = Vec::new();
        let mut i: usize = 0;
        assert(text::texts(removed@) =~= Seq::<Seq<char>>::empty());
        while i < records.len()
            invariant
                i <= records.len(),
                all == listing::views(records@),
                before == old(kv).rows(),
                all == all_subscriptions(before),
                swept(before, all, now_ms, i as int).failure is None,
                kv.rows() == kv::after_writes(before, swept(before, all, now_ms, i as int).writes),
                text::texts(removed@) == swept(before, all, now_ms, i as int).removed,
            decreases records.len() - i,
        {
            let record = &records[i];
            assert(all[i as int] == record@);
            let ghost earlier = swept(before, all, now_ms, i as int);
            let ghost now = swept(before, all, now_ms, i + 1);
            if let Some(ttl_secs) = record.expiration_ttl_secs {
                let expires_at_ms: i64 = arith::saturating_add(
                    record.last_activity_ts_ms,
                    arith::saturating_mul(ttl_secs, 1000),
                );
                if now_ms >= expires_at_ms {
                    let ghost mid = kv.rows();
                    match self.delete(kv, record.name.as_str()) {
                        Ok(_) => {},
                        Err(e) => {
                            proof {
                                lemma_sweep_goes_on(before, all, now_ms, i + 1, all.len() as int);
                                if subscription_named(mid, record.name@) is Ok {
                                    let gone = delete_writes(
                                        subscription_named(mid, record.name@)->Ok_0,
                                    );
                                    kv::lemma_torn_after(before, earlier.writes, gone, kv.rows());
                                    let last = swept(before, all, now_ms, all.len() as int).writes;
                                    let more = last.skip(now.writes.len() as int);
                                    assert(last =~= now.writes + more);
                                    kv::lemma_torn_before(before, now.writes, more, kv.rows());
                                }
                            }
                            return Err(e);
                        },
                    }
                    proof {
                        kv::lemma_after_concat(
                            before,
                            earlier.writes,
                            delete_writes(subscription_named(mid, record.name@)->Ok_0),
                        );
                    }
                    let ghost held = removed@;
                    removed.push(record.name.clone());
                    assert(text::texts(removed@) =~= text::texts(held).push(record.name@));
                }
            }
            i = i + 1;
        }
        Ok(removed)
    }
}

/// A subscription whose topic was deleted: it names the sentinel, and is detached.
pub open spec fn orphaned(subscription: SubscriptionView) -> SubscriptionView {
    SubscriptionView { topic: DELETED_TOPIC@, detached: true, ..subscription }
}

/// What noting a use writes: nothing when there is no such subscription.
pub open spec fn touch_writes(rows: Rows, sub_id: u64, now_ms: i64) -> Seq<Write> {
    match stored_subscription(rows, sub_id, Seq::empty()) {
        Ok(found) => persist_writes(SubscriptionView { last_activity_ts_ms: now_ms, ..found }),
        Err(_) => Seq::empty(),
    }
}

proof fn lemma_sweep_goes_on(
    rows: Rows,
    subscriptions: Seq<SubscriptionView>,
    now_ms: i64,
    m: int,
    n: int,
)
    requires
        0 <= m <= n,
    ensures
        text::has_prefix(
            swept(rows, subscriptions, now_ms, n).writes,
            swept(rows, subscriptions, now_ms, m).writes,
        ),
        swept(rows, subscriptions, now_ms, m).failure is Some ==> swept(
            rows,
            subscriptions,
            now_ms,
            n,
        ) == swept(rows, subscriptions, now_ms, m),
    decreases n - m,
{
    if m < n {
        lemma_sweep_goes_on(rows, subscriptions, now_ms, m, n - 1);
        let first = swept(rows, subscriptions, now_ms, m).writes;
        let before = swept(rows, subscriptions, now_ms, n - 1).writes;
        let after = swept(rows, subscriptions, now_ms, n).writes;
        assert(after.take(before.len() as int) =~= before);
        assert(after.take(first.len() as int) =~= before.take(first.len() as int));
    } else {
        let all = swept(rows, subscriptions, now_ms, n).writes;
        assert(all.take(all.len() as int) =~= all);
    }
}

proof fn lemma_named_error(rows: Rows, names: Seq<Seq<char>>, n: int)
    requires
        0 <= n <= names.len(),
        subscriptions_named(rows, names.take(n)) is Err,
    ensures
        subscriptions_named(rows, names) == subscriptions_named(rows, names.take(n)),
    decreases names.len() - n,
{
    if n < names.len() {
        assert(names.take(n + 1).drop_last() =~= names.take(n));
        lemma_named_error(rows, names, n + 1);
    } else {
        assert(names.take(n) =~= names);
    }
}

} // verus!
