//! The one entry point for the transports: topics, subscriptions, publishing, pulling, streams,
//! snapshots and seeking, over one store and one clock.

use crate::clock::{Clock, SystemClock};
use crate::delivery::engine;
use crate::delivery::engine::{Delivered, DeliveredView, DeliveryEngine, EngineView};
use crate::delivery::lease;
use crate::delivery::lease::{AckOutcome, Leases};
use crate::delivery::retention;
use crate::delivery::retention::RetentionStats;
use crate::delivery::snapshot;
use crate::delivery::snapshot::SnapshotStore;
use crate::delivery::stream;
use crate::error;
use crate::error::{invalid, Error, ErrorView};
use crate::limits;
use crate::listing;
use crate::names;
use crate::names::{TopicName, DELETED_TOPIC};
use crate::store::codec::{copy_bytes, CursorRecord, CursorView, SnapshotRecord, SnapshotView};
use crate::store::keys;
use crate::store::kv;
use crate::store::kv::{KvStore, MemKv, Rows, Write};
use crate::string_map::{Entries, StringMap};
use crate::subscription;
use crate::subscription::{
    CreateSubscriptionOptions, OptionsView, PushConfig, SubscriptionRecord, SubscriptionStore,
    SubscriptionUpdatePatch, SubscriptionView,
};
use crate::text;
use crate::topic;
use crate::topic::{NewMessage, TopicRecord, TopicStore};
use std::collections::BTreeSet;
use vstd::prelude::*;
use vstd::string::*;

verus! {

/// A message to be published.
#[derive(Debug)]
pub struct PublishMessage {
    /// The message body.
    pub data: Vec<u8>,
    /// User-supplied attributes.
    pub attributes: StringMap,
    /// Ordering key; empty when the message is unordered.
    pub ordering_key: String,
}

impl View for PublishMessage {
    type V = NewMessage;

    open spec fn view(&self) -> NewMessage {
        NewMessage {
            payload: self.data@,
            attributes: self.attributes@,
            ordering_key: self.ordering_key@,
        }
    }
}

impl Default for PublishMessage {
    fn default() -> (r: Self)
        ensures
            r@ == (NewMessage {
                payload: Seq::empty(),
                attributes: Seq::empty(),
                ordering_key: Seq::empty(),
            }),
    {
        proof {
            reveal_strlit("");
            assert(""@ =~= Seq::<char>::empty());
        }
        PublishMessage {
            data: Vec::new(),
            attributes: StringMap::new(),
            ordering_key: String::from_str(""),
        }
    }
}

/// A message that was pulled.
#[derive(Debug)]
pub struct PulledMessage {
    /// What the client presents to acknowledge this delivery or to change its deadline.
    pub ack_id: String,
    /// The message's position in its topic, in decimal.
    pub message_id: String,
    /// The message body.
    pub data: Vec<u8>,
    /// User-supplied attributes.
    pub attributes: StringMap,
    /// Ordering key; empty when the message is unordered.
    pub ordering_key: String,
    /// When the message was published, milliseconds since the Unix epoch.
    pub publish_time_ms: i64,
    /// How often the message was delivered; 0 when the client is not to see this.
    pub delivery_attempt: u32,
}

/// What a [`PulledMessage`] holds.
pub struct PulledView {
    pub ack_id: Seq<char>,
    pub message_id: Seq<char>,
    pub data: Seq<u8>,
    pub attributes: Entries,
    pub ordering_key: Seq<char>,
    pub publish_time_ms: i64,
    pub delivery_attempt: u32,
}

impl View for PulledMessage {
    type V = PulledView;

    open spec fn view(&self) -> PulledView {
        PulledView {
            ack_id: self.ack_id@,
            message_id: self.message_id@,
            data: self.data@,
            attributes: self.attributes@,
            ordering_key: self.ordering_key@,
            publish_time_ms: self.publish_time_ms,
            delivery_attempt: self.delivery_attempt,
        }
    }
}

/// What a client sees of a delivery; the number of attempts only where it is exposed.
pub open spec fn pulled_of(d: DeliveredView, expose_attempt: bool) -> PulledView {
    PulledView {
        ack_id: d.ack_id,
        message_id: text::dec(d.seq as nat),
        data: d.message.payload,
        attributes: d.message.attributes,
        ordering_key: d.message.ordering_key,
        publish_time_ms: d.message.publish_ts_ms,
        delivery_attempt: if expose_attempt {
            d.delivery_attempt
        } else {
            0
        },
    }
}

/// What a client sees of deliveries.
pub open spec fn pulled(delivered: Seq<DeliveredView>, expose_attempt: bool) -> Seq<PulledView> {
    delivered.map_values(|d: DeliveredView| pulled_of(d, expose_attempt))
}

/// An ack id names the lease of a message that is out on a subscription.
pub open spec fn names_message(
    leases: Leases,
    sub_id: u64,
    ack_id: Seq<char>,
    message_id: Seq<char>,
) -> bool {
    lease::lease_named_by(leases, lease::ack_id_parts(ack_id)) matches AckOutcome::Applied(l)
        && l.sub_id == sub_id && message_id == text::dec(l.seq as nat)
}

/// Pulled messages are out on a subscription, and their ack ids name their leases.
pub open spec fn pulled_are_out(leases: Leases, sub_id: u64, messages: Seq<PulledView>) -> bool {
    forall|i: int|
        #![trigger messages[i]]
        0 <= i < messages.len() ==> names_message(
            leases,
            sub_id,
            messages[i].ack_id,
            messages[i].message_id,
        )
}

proof fn lemma_pulled_are_out(
    leases: Leases,
    sub_id: u64,
    delivered: Seq<DeliveredView>,
    expose_attempt: bool,
)
    requires
        engine::all_out(leases, sub_id, delivered),
    ensures
        pulled_are_out(leases, sub_id, pulled(delivered, expose_attempt)),
{
    let messages = pulled(delivered, expose_attempt);
    assert forall|i: int|
        #![trigger messages[i]]
        0 <= i < messages.len() implies names_message(
        leases,
        sub_id,
        messages[i].ack_id,
        messages[i].message_id,
    ) by {
        assert(engine::is_out(leases, sub_id, delivered[i]));
    }
}

/// The state of a service: its store, its engine and its limit on disk usage.
pub struct ServiceView {
    pub rows: Rows,
    pub engine: EngineView,
    pub max_disk_bytes: u64,
}

/// What an operation changes and returns, unless a write fails. The operation succeeds only if the
/// changes `writes` are made; the changes `note`, which follow them, only record that a subscription
/// was used, and nothing comes of it when they cannot be made.
pub struct Effect<R> {
    pub writes: Seq<Write>,
    pub note: Seq<Write>,
    pub engine: EngineView,
    pub outcome: Result<R, ErrorView>,
}

/// The operation fails and changes nothing.
pub open spec fn refused<R>(s: ServiceView, e: ErrorView) -> Effect<R> {
    Effect { writes: Seq::empty(), note: Seq::empty(), engine: s.engine, outcome: Err(e) }
}

/// The state that an operation leads to when no write fails.
pub open spec fn resulting<R>(before: ServiceView, effect: Effect<R>) -> ServiceView {
    ServiceView {
        rows: kv::after_writes(kv::after_writes(before.rows, effect.writes), effect.note),
        engine: effect.engine,
        ..before
    }
}

/// The operation came to `effect`. If a write failed that it needs, it returned the store's error and
/// only the first of its changes were made. If it failed only to note the use of a subscription, all
/// else is as if it had not.
pub open spec fn performed<K: KvStore, R>(
    before: ServiceView,
    after: ServiceView,
    effect: Effect<R>,
    r: Result<R, ErrorView>,
) -> bool {
    &&& after.max_disk_bytes == before.max_disk_bytes
    &&& {
        ||| r == effect.outcome && after == resulting(before, effect)
        ||| {
            &&& !K::reliable()
            &&& r is Err
            &&& K::may_fail(r->Err_0)
            &&& kv::torn(before.rows, effect.writes, after.rows)
            &&& after.engine == (EngineView {
                leases: after.engine.leases,
                filters: after.engine.filters,
                ..before.engine
            })
        }
        ||| {
            &&& !K::reliable()
            &&& r == effect.outcome
            &&& kv::torn(kv::after_writes(before.rows, effect.writes), effect.note, after.rows)
            &&& after.engine == effect.engine
        }
    }
}

/// What pulled messages, or the error in their place, hold.
pub open spec fn pulled_result(r: Result<Vec<PulledMessage>, Error>) -> Result<
    Seq<PulledView>,
    ErrorView,
> {
    match r {
        Ok(v) => Ok(listing::views(v@)),
        Err(e) => Err(e@),
    }
}

/// The note, made after some changes, that a subscription was used.
pub open spec fn note_of_use(rows: Rows, writes: Seq<Write>, sub_id: u64, now_ms: i64) -> Seq<
    Write,
> {
    subscription::touch_writes(kv::after_writes(rows, writes), sub_id, now_ms)
}

/// The error for a subscription that is detached or whose topic was deleted, if it is.
pub open spec fn detached_error(sub: SubscriptionView, name: Seq<char>) -> Option<ErrorView> {
    if sub.detached || sub.topic == DELETED_TOPIC@ {
        Some(
            ErrorView::FailedPrecondition { message: "subscription "@ + name + " is detached"@ },
        )
    } else {
        None
    }
}

/// What pulling from a subscription does.
pub open spec fn pull_effect(
    s: ServiceView,
    name: Seq<char>,
    max_messages: i32,
    now_ms: i64,
) -> Effect<Seq<PulledView>> {
    let max_error = limits::pull_max_error(
        if max_messages < 1 {
            1
        } else {
            max_messages as int
        },
    );
    if max_error is Some {
        refused(s, max_error->0)
    } else {
        match subscription::subscription_named(s.rows, name) {
            Err(e) => refused(s, e),
            Ok(sub) => match detached_error(sub, name) {
                Some(e) => refused(s, e),
                None => {
                    let end = engine::lease_end(
                        s.rows,
                        s.engine,
                        sub.id,
                        sub.topic_id,
                        max_messages,
                        now_ms,
                        sub.ack_deadline_secs,
                    );
                    match end.outcome {
                        Err(e) => Effect {
                            writes: end.writes,
                            note: Seq::empty(),
                            engine: end.engine,
                            outcome: Err(e),
                        },
                        Ok(delivered) => Effect {
                            writes: end.writes,
                            note: note_of_use(s.rows, end.writes, sub.id, now_ms),
                            engine: end.engine,
                            outcome: Ok(pulled(delivered, sub.dead_letter_topic is Some)),
                        },
                    }
                },
            },
        }
    }
}

/// What acknowledging on a subscription does.
pub open spec fn acknowledge_effect(
    s: ServiceView,
    name: Seq<char>,
    ack_ids: Seq<Seq<char>>,
    now_ms: i64,
) -> Effect<()> {
    match subscription::subscription_named(s.rows, name) {
        Err(e) => refused(s, e),
        Ok(sub) => {
            let end = engine::ack_end(s.rows, s.engine.leases, sub.id, ack_ids);
            Effect {
                writes: end.writes,
                note: if end.outcome is Ok {
                    note_of_use(s.rows, end.writes, sub.id, now_ms)
                } else {
                    Seq::empty()
                },
                engine: EngineView { leases: end.leases, ..s.engine },
                outcome: end.outcome,
            }
        },
    }
}

/// What changing deadlines on a subscription does.
pub open spec fn modify_effect(
    s: ServiceView,
    name: Seq<char>,
    ack_ids: Seq<Seq<char>>,
    seconds: i32,
    now_ms: i64,
) -> Effect<()> {
    match subscription::subscription_named(s.rows, name) {
        Err(e) => refused(s, e),
        Ok(sub) => {
            let (writes, leases) = engine::changing_deadlines(
                s.engine.leases,
                sub.id,
                ack_ids,
                now_ms,
                seconds,
                ack_ids.len() as int,
            );
            Effect {
                writes,
                note: note_of_use(s.rows, writes, sub.id, now_ms),
                engine: EngineView { leases, ..s.engine },
                outcome: Ok(()),
            }
        },
    }
}

/// What acknowledging on a stream does.
pub open spec fn stream_acknowledge_effect(
    s: ServiceView,
    stream_id: u64,
    sub_id: u64,
    ack_ids: Seq<Seq<char>>,
    now_ms: i64,
) -> Effect<()> {
    let end = engine::ack_end(s.rows, s.engine.leases, sub_id, ack_ids);
    if end.outcome is Ok {
        Effect {
            writes: end.writes,
            note: note_of_use(s.rows, end.writes, sub_id, now_ms),
            engine: EngineView {
                leases: end.leases,
                sessions: engine::resolving(
                    s.engine.sessions,
                    stream_id,
                    sub_id,
                    ack_ids,
                    ack_ids.len() as int,
                ),
                ..s.engine
            },
            outcome: Ok(()),
        }
    } else {
        Effect {
            writes: end.writes,
            note: Seq::empty(),
            engine: EngineView { leases: end.leases, ..s.engine },
            outcome: end.outcome,
        }
    }
}

/// What changing deadlines on a stream does.
pub open spec fn stream_modify_effect(
    s: ServiceView,
    stream_id: u64,
    sub_id: u64,
    ack_ids: Seq<Seq<char>>,
    seconds: i32,
    now_ms: i64,
) -> Effect<()> {
    let (writes, leases) = engine::changing_deadlines(
        s.engine.leases,
        sub_id,
        ack_ids,
        now_ms,
        seconds,
        ack_ids.len() as int,
    );
    Effect {
        writes,
        note: note_of_use(s.rows, writes, sub_id, now_ms),
        engine: EngineView {
            leases,
            sessions: if seconds <= 0 {
                engine::resolving(
                    s.engine.sessions,
                    stream_id,
                    sub_id,
                    ack_ids,
                    ack_ids.len() as int,
                )
            } else {
                s.engine.sessions
            },
            ..s.engine
        },
        outcome: Ok(()),
    }
}

/// What a stream's request for messages does. As with a pull, the number of attempts is exposed
/// where the subscription has a dead-letter topic.
pub open spec fn stream_lease_effect(s: ServiceView, stream_id: u64, now_ms: i64) -> Effect<
    Seq<PulledView>,
> {
    let end = engine::stream_lease_end(s.rows, s.engine, stream_id, now_ms);
    let sub_id = engine::stream_subscription(s.engine.sessions, stream_id);
    let policy = engine::policy_of(s.rows, sub_id);
    Effect {
        writes: end.writes,
        note: Seq::empty(),
        engine: end.engine,
        outcome: match end.outcome {
            Ok(delivered) => Ok(pulled(delivered, policy.dead_letter_topic is Some)),
            Err(e) => Err(e),
        },
    }
}

/// The error for a full disk, if it is.
pub open spec fn disk_error(max_disk_bytes: u64, disk_bytes: u64) -> Option<ErrorView> {
    if max_disk_bytes > 0 && disk_bytes >= max_disk_bytes {
        Some(
            ErrorView::ResourceExhausted {
                message: "storage.max_disk_bytes ("@ + text::dec(max_disk_bytes as nat)
                    + ") reached; rejecting new writes"@,
            },
        )
    } else {
        None
    }
}

/// Positions in decimal.
pub open spec fn ids_text(seqs: Seq<u64>) -> Seq<Seq<char>> {
    seqs.map_values(|seq: u64| text::dec(seq as nat))
}

/// What publishing does, when the store takes `disk_bytes` bytes.
pub open spec fn publish_effect(
    s: ServiceView,
    topic_name: Seq<char>,
    messages: Seq<NewMessage>,
    disk_bytes: u64,
    now_ms: i64,
) -> Effect<Seq<Seq<char>>> {
    if disk_error(s.max_disk_bytes, disk_bytes) is Some {
        refused(s, disk_error(s.max_disk_bytes, disk_bytes)->0)
    } else {
        match topic::topic_named(s.rows, topic_name) {
            Err(e) => refused(s, e),
            Ok(t) => match topic::append_error(messages) {
                Some(e) => refused(s, e),
                None => {
                    let tail = topic::tail_of(s.rows, t.id);
                    let writes = topic::append_writes(
                        t.id,
                        tail,
                        messages,
                        now_ms,
                        topic::expiry(
                            now_ms,
                            engine::effective_retention(t.message_retention_secs),
                        ),
                        messages.len() as int,
                    );
                    Effect {
                        writes,
                        note: Seq::empty(),
                        engine: EngineView {
                            wakeups: s.engine.wakeups + subscription::attached_ids(
                                kv::after_writes(s.rows, writes),
                                t.id,
                            ),
                            ..s.engine
                        },
                        outcome: Ok(ids_text(topic::batch_seqs(tail, messages.len()))),
                    }
                },
            },
        }
    }
}

/// The changes, and the failure if there is one, of noting on the first `n` of the subscriptions
/// `ids` that their topic was deleted.
pub open spec fn orphaning(rows: Rows, ids: Seq<u64>, n: int) -> (Seq<Write>, Option<ErrorView>)
    decreases n,
{
    if n <= 0 {
        (Seq::empty(), None)
    } else {
        let (writes, failure) = orphaning(rows, ids, n - 1);
        if failure is Some {
            (writes, failure)
        } else {
            let id = ids[n - 1];
            match subscription::stored_subscription(
                kv::after_writes(rows, writes),
                id,
                "sub_id="@ + text::dec(id as nat),
            ) {
                Ok(sub) => (
                    writes + subscription::persist_writes(subscription::orphaned(sub)),
                    None,
                ),
                Err(e) => (writes, Some(e)),
            }
        }
    }
}

/// What deleting a topic does: its subscriptions are detached first.
pub open spec fn delete_topic_effect(s: ServiceView, name: Seq<char>) -> Effect<()> {
    match topic::topic_named(s.rows, name) {
        Err(e) => refused(s, e),
        Ok(t) => {
            let ids = subscription::attached_ids(s.rows, t.id);
            let (writes, failure) = orphaning(s.rows, ids, ids.len() as int);
            match failure {
                Some(e) => Effect { writes, note: Seq::empty(), engine: s.engine, outcome: Err(e) },
                None => match topic::topic_id_of(kv::after_writes(s.rows, writes), name) {
                    Err(e) => Effect {
                        writes,
                        note: Seq::empty(),
                        engine: s.engine,
                        outcome: Err(e),
                    },
                    Ok(id) => Effect {
                        writes: writes + topic::delete_writes(id, name),
                        note: Seq::empty(),
                        engine: s.engine,
                        outcome: Ok(()),
                    },
                },
            }
        },
    }
}

/// The names of the first `n` of the subscriptions `ids`.
pub open spec fn names_of(rows: Rows, ids: Seq<u64>, n: int) -> Result<Seq<Seq<char>>, ErrorView>
    decreases n,
{
    if n <= 0 {
        Ok(Seq::empty())
    } else {
        match names_of(rows, ids, n - 1) {
            Err(e) => Err(e),
            Ok(found) => {
                let id = ids[n - 1];
                match subscription::stored_subscription(
                    rows,
                    id,
                    "subscription id="@ + text::dec(id as nat),
                ) {
                    Ok(sub) => Ok(found.push(sub.name)),
                    Err(e) => Err(e),
                }
            },
        }
    }
}

/// The names of the subscriptions of a topic, sorted.
pub open spec fn topic_subscriptions(rows: Rows, name: Seq<char>) -> Result<
    Seq<Seq<char>>,
    ErrorView,
> {
    match topic::topic_named(rows, name) {
        Err(e) => Err(e),
        Ok(t) => {
            let ids = subscription::attached_ids(rows, t.id);
            match names_of(rows, ids, ids.len() as int) {
                Ok(found) => Ok(listing::sorted_by_name::<String>(found)),
                Err(e) => Err(e),
            }
        },
    }
}

/// What creating a subscription does.
pub open spec fn create_subscription_effect(
    s: ServiceView,
    name: Seq<char>,
    topic_name: Seq<char>,
    opts: OptionsView,
    now_ms: i64,
) -> Effect<SubscriptionView> {
    match topic::topic_named(s.rows, topic_name) {
        Err(e) => refused(s, e),
        Ok(t) => match subscription::create_error(s.rows, name, topic_name, opts) {
            Some(e) => refused(s, e),
            None => {
                let new = subscription::new_subscription(
                    s.rows,
                    name,
                    topic_name,
                    t.id,
                    now_ms,
                    opts,
                );
                Effect {
                    writes: subscription::create_writes(new, topic::tail_of(s.rows, t.id)),
                    note: Seq::empty(),
                    engine: s.engine,
                    outcome: Ok(new),
                }
            },
        },
    }
}

/// What taking a snapshot of a subscription does.
pub open spec fn create_snapshot_effect(
    s: ServiceView,
    name: Seq<char>,
    subscription_name: Seq<char>,
    labels: Entries,
    now_ms: i64,
) -> Effect<SnapshotView> {
    match subscription::subscription_named(s.rows, subscription_name) {
        Err(e) => refused(s, e),
        Ok(sub) => match engine::stored_cursor(s.rows, sub.id) {
            Err(e) => refused(s, e),
            Ok(cursor) => {
                let oldest = engine::oldest_open(
                    kv::scan_of(s.rows, "msg"@, keys::be64(sub.topic_id)),
                    cursor,
                    0,
                );
                if snapshot::too_short_lived(now_ms, oldest) {
                    refused(
                        s,
                        ErrorView::FailedPrecondition {
                            message: "snapshot's remaining lifetime would be under 1 hour"@,
                        },
                    )
                } else {
                    match snapshot::create_error(s.rows, name) {
                        Some(e) => refused(s, e),
                        None => {
                            let new = SnapshotView {
                                id: topic::fresh_id(s.rows),
                                name,
                                topic: sub.topic,
                                topic_id: sub.topic_id,
                                labels,
                                cursor,
                                expire_at_ms: snapshot::expiry(now_ms, oldest) as i64,
                            };
                            Effect {
                                writes: snapshot::create_writes(new),
                                note: Seq::empty(),
                                engine: s.engine,
                                outcome: Ok(new),
                            }
                        },
                    }
                }
            },
        },
    }
}

/// The names among `snapshots` of those taken from subscriptions of a topic.
pub open spec fn names_for_topic(snapshots: Seq<SnapshotView>, topic_name: Seq<char>) -> Seq<
    Seq<char>,
>
    decreases snapshots.len(),
{
    if snapshots.len() == 0 {
        Seq::empty()
    } else {
        let rest = names_for_topic(snapshots.drop_last(), topic_name);
        if snapshots.last().topic == topic_name {
            rest.push(snapshots.last().name)
        } else {
            rest
        }
    }
}

/// The names of the snapshots taken from subscriptions of a topic, sorted.
pub open spec fn topic_snapshots(rows: Rows, topic_name: Seq<char>) -> Result<
    Seq<Seq<char>>,
    ErrorView,
> {
    match names::topic_name_error(topic_name) {
        Some(e) => Err(e),
        None => match snapshot::project_snapshots(rows, names::topic_project(topic_name)) {
            Ok(all) => Ok(names_for_topic(all, topic_name)),
            Err(e) => Err(e),
        },
    }
}

/// Where seeking to a snapshot puts a subscription, or why it cannot.
pub open spec fn snapshot_target(
    rows: Rows,
    subscription_name: Seq<char>,
    snapshot_name: Seq<char>,
) -> Result<(u64, CursorView), ErrorView> {
    match subscription::subscription_named(rows, subscription_name) {
        Err(e) => Err(e),
        Ok(sub) => match snapshot::snapshot_named(rows, snapshot_name) {
            Err(e) => Err(e),
            Ok(snap) => if snap.topic_id != sub.topic_id {
                Err(
                    error::invalid_argument(
                        "snapshot"@,
                        "snapshot "@ + snapshot_name
                            + " was not captured from a subscription of "@ + subscription_name
                            + "'s topic"@,
                    ),
                )
            } else {
                Ok((sub.id, snap.cursor))
            },
        },
    }
}

/// The cursor of a subscription that was moved so that messages from `boundary` on are open.
pub open spec fn cursor_before(attach_seq: u64, boundary: u64) -> CursorView {
    let last = if boundary == 0 {
        0
    } else {
        (boundary - 1) as u64
    };
    CursorView {
        attach_seq,
        acked_floor: if last < attach_seq {
            attach_seq
        } else {
            last
        },
        acked_above_floor: Set::empty(),
    }
}

/// Where seeking to a time puts a subscription, or why it cannot.
pub open spec fn time_target(rows: Rows, subscription_name: Seq<char>, time_ms: i64) -> Result<
    (u64, CursorView),
    ErrorView,
> {
    match subscription::subscription_named(rows, subscription_name) {
        Err(e) => Err(e),
        Ok(sub) => match engine::stored_cursor(rows, sub.id) {
            Err(e) => Err(e),
            Ok(cursor) => Ok(
                (
                    sub.id,
                    cursor_before(
                        cursor.attach_seq,
                        topic::boundary(rows, sub.topic_id, time_ms),
                    ),
                ),
            ),
        },
    }
}

/// A seek came to its target: the cursor is replaced, and all leases of the subscription ended,
/// stored rows included.
pub open spec fn sought<K: KvStore>(
    before: ServiceView,
    after: ServiceView,
    target: Result<(u64, CursorView), ErrorView>,
    r: Result<(), Error>,
) -> bool {
    &&& after.max_disk_bytes == before.max_disk_bytes
    &&& match target {
        Err(e) => r is Err && r->Err_0@ == e && after == before,
        Ok((sub_id, cursor)) => {
            let gone = engine::rows_of_subscription(before.rows, sub_id);
            &&& after.engine == (EngineView {
                leases: before.engine.leases.remove_keys(
                    lease::keys_of_subscription(before.engine.leases, sub_id),
                ),
                ..before.engine
            })
            &&& match r {
                Ok(_) => after.rows == kv::after_write(
                    before.rows.remove_keys(gone),
                    engine::cursor_write(sub_id, cursor),
                ),
                Err(e) => {
                    &&& !K::reliable()
                    &&& K::may_fail(e@)
                    &&& engine::only_removed(before.rows, after.rows, gone)
                },
            }
        },
    }
}

/// What a sweep of expired subscriptions comes to, whatever it returned.
pub open spec fn subscriptions_swept<K: KvStore>(before: Rows, after: Rows, now_ms: i64) -> bool {
    let all = subscription::all_subscriptions(before);
    let writes = subscription::swept(before, all, now_ms, all.len() as int).writes;
    ||| after == kv::after_writes(before, writes)
    ||| !K::reliable() && kv::torn(before, writes, after)
}

/// What a sweep of expired messages and then of expired subscriptions comes to.
pub open spec fn retention_swept<K: KvStore>(
    before: ServiceView,
    after: ServiceView,
    now_ms: i64,
    stats: RetentionStats,
) -> bool {
    &&& after == (ServiceView { rows: after.rows, ..before })
    &&& exists|mid: Rows| #[trigger]
        retention::is_sweep::<K>(before.rows, mid, now_ms, stats) && subscriptions_swept::<K>(
            mid,
            after.rows,
            now_ms,
        )
}

/// The transport-independent service.
#[derive(Debug)]
pub struct PubSubService<K: KvStore, C: Clock> {
    /// Everything that is stored.
    pub kv: K,
    /// Where "now" comes from.
    pub clock: C,
    /// Leases and streams.
    pub engine: DeliveryEngine,
    /// Publishing fails once the store takes this many bytes; 0 is no limit.
    pub max_disk_bytes: u64,
    /// Topics and their logs.
    pub topics: TopicStore,
    /// Subscriptions.
    pub subs: SubscriptionStore,
    /// Snapshots.
    pub snapshots: SnapshotStore,
}

impl<K: KvStore, C: Clock> View for PubSubService<K, C> {
    type V = ServiceView;

    open spec fn view(&self) -> ServiceView {
        ServiceView {
            rows: self.kv.rows(),
            engine: self.engine@,
            max_disk_bytes: self.max_disk_bytes,
        }
    }
}

fn pulled_from(delivered: Vec<Delivered>, expose_attempt: bool) -> (r: Vec<PulledMessage>)
    ensures
        listing::views(r@) == pulled(engine::delivered_views(delivered@), expose_attempt),
{
    let mut out: Vec<PulledMessage> = Vec::new();
    let ghost all = pulled(engine::delivered_views(delivered@), expose_attempt);
    let mut i: usize = 0;
    assert(listing::views(out@) =~= all.take(0));
    while i < delivered.len()
        invariant
            i <= delivered.len(),
            all == pulled(engine::delivered_views(delivered@), expose_attempt),
            listing::views(out@) == all.take(i as int),
        decreases delivered.len() - i,
    {
        let d = &delivered[i];
        let m = PulledMessage {
            ack_id: d.ack_id.clone(),
            message_id: text::u64_text(d.seq),
            data: copy_bytes(&d.message.payload),
            attributes: d.message.attributes.clone(),
            ordering_key: d.message.ordering_key.clone(),
            publish_time_ms: d.message.publish_ts_ms,
            delivery_attempt: if expose_attempt {
                d.delivery_attempt
            } else {
                0
            },
        };
        let ghost held = out@;
        let ghost added = m@;
        out.push(m);
        i = i + 1;
        assert(listing::views(out@) =~= listing::views(held).push(added));
        assert(added == all[i - 1]);
        assert(listing::views(out@) =~= all.take(i as int));
    }
    assert(all.take(i as int) =~= all);
    out
}

/// A service that was just started: every stored delivery is out again.
pub open spec fn started(rows: Rows) -> ServiceView {
    ServiceView {
        rows,
        engine: EngineView {
            leases: engine::recovered(rows, lease::Leases::empty()),
            sessions: stream::Sessions::empty(),
            last_stream_id: 0,
            filters: Map::empty(),
            wakeups: Seq::empty(),
        },
        max_disk_bytes: 0,
    }
}

impl<C: Clock> PubSubService<MemKv, C> {
    /// A service in memory, with the given clock.
    pub fn new_ephemeral_with_clock(clock: C) -> (r: Self)
        ensures
            r@ == started(Rows::empty()),
            r.clock == clock,
    {
        Self::new(MemKv::new(), clock)
    }
}

impl PubSubService<MemKv, SystemClock> {
    /// A service in memory, with the machine's clock.
    pub fn new_ephemeral() -> (r: Self)
        ensures
            r@ == started(Rows::empty()),
    {
        Self::new(MemKv::new(), SystemClock)
    }
}

impl<K: KvStore, C: Clock> PubSubService<K, C> {
    /// A service over a store, which may hold what an earlier one has stored.
    pub fn new(kv: K, clock: C) -> (r: Self)
        ensures
            r@ == started(kv.rows()),
            r.clock == clock,
    {
        let mut engine = DeliveryEngine::new();
        engine.recover(&kv);
        PubSubService {
            kv,
            clock,
            engine,
            max_disk_bytes: 0,
            topics: TopicStore::new(),
            subs: SubscriptionStore::new(),
            snapshots: SnapshotStore::new(),
        }
    }

    /// The service with a limit on disk usage; 0 is no limit.
    #[must_use]
    pub fn with_max_disk_bytes(self, max_disk_bytes: u64) -> (r: Self)
        ensures
            r@ == (ServiceView { max_disk_bytes, ..self@ }),
            r.clock == self.clock,
            r.kv == self.kv,
    {
        let mut r = self;
        r.max_disk_bytes = max_disk_bytes;
        r
    }

    /// Roughly how many bytes the store takes on disk.
    pub fn disk_usage_bytes(&self) -> (n: u64)
        ensures
            self.kv.may_take(n),
    {
        self.kv.approx_disk_bytes()
    }

    /// Fails when the store takes as many bytes as it may.
    fn check_disk_guard(&self, disk_bytes: u64) -> (r: Result<(), Error>)
        ensures
            error::checked(r, disk_error(self@.max_disk_bytes, disk_bytes)),
    {
        if self.max_disk_bytes > 0 && disk_bytes >= self.max_disk_bytes {
            return Err(
                Error::ResourceExhausted {
                    message: text::cat3(
                        "storage.max_disk_bytes (",
                        text::u64_text(self.max_disk_bytes).as_str(),
                        ") reached; rejecting new writes",
                    ),
                },
            );
        }
        Ok(())
    }

    /// Creates a topic.
    pub fn create_topic(&mut self, full_name: &str, labels: StringMap) -> (r: Result<
        TopicRecord,
        Error,
    >)
        ensures
            final(self)@ == (ServiceView { rows: final(self)@.rows, ..old(self)@ }),
            final(self).clock == old(self).clock,
            ({
                let new = topic::new_topic(old(self)@.rows, full_name@, labels@, None, None);
                kv::stored::<TopicRecord, K>(
                    r,
                    old(self)@.rows,
                    final(self)@.rows,
                    topic::create_error(old(self)@.rows, full_name@, None, false, false),
                    new,
                    topic::create_writes(new),
                )
            }),
    {
        self.topics.create(&mut self.kv, full_name, labels, None, None, false, false)
    }

    /// Creates a topic with everything that a client may set.
    pub fn create_topic_full(
        &mut self,
        full_name: &str,
        labels: StringMap,
        message_retention_secs: Option<i64>,
        kms_key_name: Option<String>,
        has_schema_settings: bool,
        has_ingestion_settings: bool,
    ) -> (r: Result<TopicRecord, Error>)
        ensures
            final(self)@ == (ServiceView { rows: final(self)@.rows, ..old(self)@ }),
            final(self).clock == old(self).clock,
            ({
                let new = topic::new_topic(
                    old(self)@.rows,
                    full_name@,
                    labels@,
                    message_retention_secs,
                    topic::opt_text(kms_key_name),
                );
                kv::stored::<TopicRecord, K>(
                    r,
                    old(self)@.rows,
                    final(self)@.rows,
                    topic::create_error(
                        old(self)@.rows,
                        full_name@,
                        message_retention_secs,
                        has_schema_settings,
                        has_ingestion_settings,
                    ),
                    new,
                    topic::create_writes(new),
                )
            }),
    {
        self.topics.create(
            &mut self.kv,
            full_name,
            labels,
            message_retention_secs,
            kms_key_name,
            has_schema_settings,
            has_ingestion_settings,
        )
    }

    /// The topic with a name.
    pub fn get_topic(&self, full_name: &str) -> (r: Result<TopicRecord, Error>)
        ensures
            error::result_view(r) == topic::topic_named(self@.rows, full_name@),
    {
        self.topics.get(&self.kv, full_name)
    }

    /// A page of the topics of a project, sorted by name, and the token for the next page.
    pub fn list_topics(
        &self,
        project_id: &str,
        page_size: usize,
        page_token: Option<&str>,
    ) -> (r: Result<(Vec<TopicRecord>, Option<String>), Error>)
        ensures
            match topic::project_topics(self@.rows, project_id@) {
                Ok(all) => {
                    &&& r is Ok
                    &&& listing::views((r->Ok_0).0@) == listing::page::<TopicRecord>(
                        all,
                        page_size as nat,
                        listing::opt_str(page_token),
                    )
                    &&& listing::opt_string((r->Ok_0).1) == listing::next_token::<TopicRecord>(
                        all,
                        page_size as nat,
                        listing::opt_str(page_token),
                    )
                },
                Err(e) => r is Err && r->Err_0@ == e,
            },
    {
        self.topics.list(&self.kv, project_id, page_size, page_token)
    }

    /// Every topic of every project.
    pub fn list_all_topics(&self) -> (r: Vec<TopicRecord>)
        ensures
            listing::views(r@) == topic::topics_in(
                kv::scan_of(self@.rows, "meta"@, vstd::utf8::encode_utf8("t/"@)),
            ),
    {
        self.topics.list_all(&self.kv)
    }

    /// Replaces a topic's labels.
    pub fn update_topic_labels(&mut self, full_name: &str, labels: StringMap) -> (r: Result<
        TopicRecord,
        Error,
    >)
        ensures
            final(self)@ == (ServiceView { rows: final(self)@.rows, ..old(self)@ }),
            final(self).clock == old(self).clock,
            ({
                let new = topic::updated_topic(
                    topic::topic_named(old(self)@.rows, full_name@)->Ok_0,
                    Some(labels@),
                    None,
                    None,
                );
                kv::stored::<TopicRecord, K>(
                    r,
                    old(self)@.rows,
                    final(self)@.rows,
                    topic::update_error(old(self)@.rows, full_name@, None),
                    new,
                    topic::update_writes(new),
                )
            }),
    {
        self.topics.update(&mut self.kv, full_name, Some(labels), None, None)
    }

    /// Replaces those fields of a topic that are given.
    pub fn update_topic_full(
        &mut self,
        full_name: &str,
        labels: Option<StringMap>,
        message_retention_secs: Option<Option<i64>>,
        kms_key_name: Option<Option<String>>,
    ) -> (r: Result<TopicRecord, Error>)
        ensures
            final(self)@ == (ServiceView { rows: final(self)@.rows, ..old(self)@ }),
            final(self).clock == old(self).clock,
            ({
                let new = topic::updated_topic(
                    topic::topic_named(old(self)@.rows, full_name@)->Ok_0,
                    topic::opt_entries(labels),
                    message_retention_secs,
                    topic::opt_opt_text(kms_key_name),
                );
                kv::stored::<TopicRecord, K>(
                    r,
                    old(self)@.rows,
                    final(self)@.rows,
                    topic::update_error(old(self)@.rows, full_name@, message_retention_secs),
                    new,
                    topic::update_writes(new),
                )
            }),
    {
        self.topics.update(
            &mut self.kv,
            full_name,
            labels,
            message_retention_secs,
            kms_key_name,
        )
    }

    /// Deletes a topic and detaches its subscriptions.
    pub fn delete_topic(&mut self, full_name: &str) -> (r: Result<(), Error>)
        ensures
            final(self).clock == old(self).clock,
            performed::<K, ()>(
                old(self)@,
                final(self)@,
                delete_topic_effect(old(self)@, full_name@),
                error::result_view(r),
            ),
    {
        let ghost s = self@;
        let ghost effect = delete_topic_effect(s, full_name@);
        let record = match self.topics.get(&self.kv, full_name) {
            Ok(record) => record,
            Err(e) => {
                return Err(e);
            },
        };
        let ids = match self.subs.list_by_topic_id(&self.kv, record.id) {
            Ok(ids) => ids,
            Err(e) => {
                return Err(e);
            },
        };
        let mut i: usize = 0;
        while i < ids.len()
            invariant
                i <= ids.len(),
                s == old(self)@,
                self@ == (ServiceView { rows: self@.rows, ..s }),
                self.clock == old(self).clock,
                topic::topic_named(s.rows, full_name@) is Ok,
                ids@ == subscription::attached_ids(
                    s.rows,
                    (topic::topic_named(s.rows, full_name@)->Ok_0).id,
                ),
                effect == delete_topic_effect(s, full_name@),
                orphaning(s.rows, ids@, i as int).1 is None,
                self@.rows == kv::after_writes(s.rows, orphaning(s.rows, ids@, i as int).0),
            decreases ids.len() - i,
        {
            let ghost made = orphaning(s.rows, ids@, i as int).0;
            let ghost mid = self@.rows;
            let ghost found = subscription::stored_subscription(
                mid,
                ids@[i as int],
                "sub_id="@ + text::dec(ids@[i as int] as nat),
            );
            let ghost step = subscription::persist_writes(subscription::orphaned(found->Ok_0));
            match self.subs.set_topic_to_deleted(&mut self.kv, ids[i]) {
                Ok(_) => {
                    proof {
                        kv::lemma_after_concat(s.rows, made, step);
                    }
                },
                Err(e) => {
                    proof {
                        lemma_orphaning_goes_on(s.rows, ids@, i + 1, ids@.len() as int);
                        if found is Ok {
                            kv::lemma_torn_after(s.rows, made, step, self@.rows);
                            let here = made + step;
                            let end = orphaning(s.rows, ids@, ids@.len() as int).0;
                            assert(text::has_prefix(effect.writes, end)) by {
                                assert(effect.writes.take(end.len() as int) =~= end);
                            }
                            let rest = effect.writes.skip(here.len() as int);
                            assert(effect.writes.take(here.len() as int) =~= end.take(
                                here.len() as int,
                            ));
                            assert(effect.writes =~= here + rest);
                            kv::lemma_torn_before(s.rows, here, rest, self@.rows);
                        }
                    }
                    return Err(e);
                },
            }
            i = i + 1;
        }
        let ghost made = orphaning(s.rows, ids@, i as int).0;
        let ghost mid = self@.rows;
        let r = self.topics.delete(&mut self.kv, full_name);
        proof {
            if let Ok(id) = topic::topic_id_of(mid, full_name@) {
                let gone = topic::delete_writes(id, full_name@);
                kv::lemma_after_concat(s.rows, made, gone);
                if r is Err {
                    kv::lemma_torn_after(s.rows, made, gone, self@.rows);
                }
            }
        }
        r
    }

    /// The names of the subscriptions of a topic, sorted.
    pub fn list_topic_subscriptions(&self, topic_full_name: &str) -> (r: Result<
        Vec<String>,
        Error,
    >)
        ensures
            subscription::texts_result(r) == topic_subscriptions(self@.rows, topic_full_name@),
    {
        let record = match self.topics.get(&self.kv, topic_full_name) {
            Ok(record) => record,
            Err(e) => {
                return Err(e);
            },
        };
        let ids = match self.subs.list_by_topic_id(&self.kv, record.id) {
            Ok(ids) => ids,
            Err(e) => {
                return Err(e);
            },
        };
        let ghost rows = self@.rows;
        let ghost mut found: Seq<Seq<char>> = Seq::empty();
        let mut sorted: Vec<String> = Vec::new();
        let mut i: usize = 0;
        assert(listing::views(sorted@) =~= Seq::<Seq<char>>::empty());
        while i < ids.len()
            invariant
                i <= ids.len(),
                rows == self@.rows,
                topic::topic_named(rows, topic_full_name@) is Ok,
                ids@ == subscription::attached_ids(
                    rows,
                    (topic::topic_named(rows, topic_full_name@)->Ok_0).id,
                ),
                names_of(rows, ids@, i as int) == Ok::<_, ErrorView>(found),
                listing::views(sorted@) == listing::sorted_by_name::<String>(found),
            decreases ids.len() - i,
        {
            match self.subs.get_by_id(&self.kv, ids[i]) {
                Ok(sub) => {
                    proof {
                        assert(found.push(sub.name@).drop_last() =~= found);
                        found = found.push(sub.name@);
                    }
                    listing::insert_sorted(&mut sorted, sub.name);
                },
                Err(e) => {
                    proof {
                        lemma_names_error(rows, ids@, i + 1, ids@.len() as int);
                    }
                    return Err(e);
                },
            }
            i = i + 1;
        }
        assert(text::texts(sorted@) =~= listing::views(sorted@));
        Ok(sorted)
    }

    /// Publishes messages when the store takes `disk_bytes` bytes and it is `now_ms`, and returns
    /// their ids.
    pub fn publish_at(
        &mut self,
        topic_full_name: &str,
        messages: Vec<PublishMessage>,
        disk_bytes: u64,
        now_ms: i64,
    ) -> (r: Result<Vec<String>, Error>)
        ensures
            final(self).clock == old(self).clock,
            performed::<K, Seq<Seq<char>>>(
                old(self)@,
                final(self)@,
                publish_effect(
                    old(self)@,
                    topic_full_name@,
                    listing::views(messages@),
                    disk_bytes,
                    now_ms,
                ),
                subscription::texts_result(r),
            ),
    {
        match self.check_disk_guard(disk_bytes) {
            Ok(_) => {},
            Err(e) => {
                return Err(e);
            },
        }
        let record = match self.topics.get(&self.kv, topic_full_name) {
            Ok(record) => record,
            Err(e) => {
                return Err(e);
            },
        };
        let retention_secs: i64 = if record.message_retention_secs > 0 {
            record.message_retention_secs
        } else {
            limits::MAX_TOPIC_RETENTION_SECS
        };
        let raw = raw_messages(messages);
        let seqs = match self.topics.append(
            &mut self.kv,
            record.id,
            raw,
            now_ms,
            retention_secs,
        ) {
            Ok(seqs) => seqs,
            Err(e) => {
                return Err(e);
            },
        };
        if let Ok(ids) = self.subs.list_by_topic_id(&self.kv, record.id) {
            self.engine.notify_published(ids.as_slice());
        }
        Ok(texts_of(seqs))
    }

    /// Publishes messages to a topic and returns their ids, in order.
    pub fn publish(&mut self, topic_full_name: &str, messages: Vec<PublishMessage>) -> (r: Result<
        Vec<String>,
        Error,
    >)
        ensures
            final(self).clock == old(self).clock,
            exists|disk_bytes: u64, now_ms: i64|
                #![trigger old(self).kv.may_take(disk_bytes), old(self).clock.tells(now_ms)]
                {
                    &&& old(self).kv.may_take(disk_bytes)
                    &&& old(self).clock.tells(now_ms)
                    &&& performed::<K, Seq<Seq<char>>>(
                        old(self)@,
                        final(self)@,
                        publish_effect(
                            old(self)@,
                            topic_full_name@,
                            listing::views(messages@),
                            disk_bytes,
                            now_ms,
                        ),
                        subscription::texts_result(r),
                    )
                },
    {
        let disk_bytes: u64 = self.kv.approx_disk_bytes();
        let now_ms: i64 = self.clock.now_ms();
        self.publish_at(topic_full_name, messages, disk_bytes, now_ms)
    }

    /// Pulls messages when it is `now_ms`.
    pub fn pull_at(&mut self, subscription_full_name: &str, max_messages: i32, now_ms: i64) -> (r:
        Result<Vec<PulledMessage>, Error>)
        ensures
            final(self).clock == old(self).clock,
            performed::<K, Seq<PulledView>>(
                old(self)@,
                final(self)@,
                pull_effect(old(self)@, subscription_full_name@, max_messages, now_ms),
                pulled_result(r),
            ),
            r matches Ok(messages) ==> {
                let sub = subscription::subscription_named(
                    old(self)@.rows,
                    subscription_full_name@,
                );
                &&& sub is Ok
                &&& pulled_are_out(
                    final(self)@.engine.leases,
                    sub->Ok_0.id,
                    listing::views(messages@),
                )
            },
    {
        match limits::validate_pull_max_messages(
            if max_messages < 1 {
                1
            } else {
                max_messages
            },
        ) {
            Ok(_) => {},
            Err(e) => {
                return Err(e);
            },
        }
        let sub = match self.subs.get(&self.kv, subscription_full_name) {
            Ok(sub) => sub,
            Err(e) => {
                return Err(e);
            },
        };
        match check_attached(&sub, subscription_full_name) {
            Ok(_) => {},
            Err(e) => {
                return Err(e);
            },
        }
        let delivered = match self.engine.lease_next(
            &mut self.kv,
            sub.id,
            sub.topic_id,
            max_messages,
            now_ms,
            sub.ack_deadline_secs,
        ) {
            Ok(delivered) => delivered,
            Err(e) => {
                return Err(e);
            },
        };
        let _ = self.subs.touch(&mut self.kv, sub.id, now_ms);
        proof {
            lemma_pulled_are_out(
                self@.engine.leases,
                sub.id,
                engine::delivered_views(delivered@),
                sub.dead_letter_topic is Some,
            );
        }
        Ok(pulled_from(delivered, sub.dead_letter_topic.is_some()))
    }

    /// Pulls up to `max_messages` messages from a subscription. Never waits.
    pub fn pull(&mut self, subscription_full_name: &str, max_messages: i32) -> (r: Result<
        Vec<PulledMessage>,
        Error,
    >)
        ensures
            final(self).clock == old(self).clock,
            exists|now_ms: i64| #[trigger]
                old(self).clock.tells(now_ms) && performed::<K, Seq<PulledView>>(
                    old(self)@,
                    final(self)@,
                    pull_effect(old(self)@, subscription_full_name@, max_messages, now_ms),
                    pulled_result(r),
                ),
            r matches Ok(messages) ==> {
                let sub = subscription::subscription_named(
                    old(self)@.rows,
                    subscription_full_name@,
                );
                &&& sub is Ok
                &&& pulled_are_out(
                    final(self)@.engine.leases,
                    sub->Ok_0.id,
                    listing::views(messages@),
                )
            },
    {
        let now_ms: i64 = self.clock.now_ms();
        self.pull_at(subscription_full_name, max_messages, now_ms)
    }

    /// Acknowledges deliveries when it is `now_ms`.
    pub fn acknowledge_at(
        &mut self,
        subscription_full_name: &str,
        ack_ids: Vec<String>,
        now_ms: i64,
    ) -> (r: Result<(), Error>)
        ensures
            final(self).clock == old(self).clock,
            performed::<K, ()>(
                old(self)@,
                final(self)@,
                acknowledge_effect(
                    old(self)@,
                    subscription_full_name@,
                    text::texts(ack_ids@),
                    now_ms,
                ),
                error::result_view(r),
            ),
    {
        let sub = match self.subs.get(&self.kv, subscription_full_name) {
            Ok(sub) => sub,
            Err(e) => {
                return Err(e);
            },
        };
        match self.engine.acknowledge(&mut self.kv, sub.id, ack_ids.as_slice()) {
            Ok(_) => {},
            Err(e) => {
                return Err(e);
            },
        }
        let _ = self.subs.touch(&mut self.kv, sub.id, now_ms);
        Ok(())
    }

    /// Acknowledges deliveries. An ack id that names none is passed over.
    pub fn acknowledge(&mut self, subscription_full_name: &str, ack_ids: Vec<String>) -> (r: Result<
        (),
        Error,
    >)
        ensures
            final(self).clock == old(self).clock,
            exists|now_ms: i64| #[trigger]
                old(self).clock.tells(now_ms) && performed::<K, ()>(
                    old(self)@,
                    final(self)@,
                    acknowledge_effect(
                        old(self)@,
                        subscription_full_name@,
                        text::texts(ack_ids@),
                        now_ms,
                    ),
                    error::result_view(r),
                ),
    {
        let now_ms: i64 = self.clock.now_ms();
        self.acknowledge_at(subscription_full_name, ack_ids, now_ms)
    }

    /// Changes deadlines when it is `now_ms`.
    pub fn modify_ack_deadline_at(
        &mut self,
        subscription_full_name: &str,
        ack_ids: Vec<String>,
        seconds: i32,
        now_ms: i64,
    ) -> (r: Result<(), Error>)
        ensures
            final(self).clock == old(self).clock,
            performed::<K, ()>(
                old(self)@,
                final(self)@,
                modify_effect(
                    old(self)@,
                    subscription_full_name@,
                    text::texts(ack_ids@),
                    seconds,
                    now_ms,
                ),
                error::result_view(r),
            ),
    {
        let sub = match self.subs.get(&self.kv, subscription_full_name) {
            Ok(sub) => sub,
            Err(e) => {
                return Err(e);
            },
        };
        match self.engine.modify_ack_deadline(
            &mut self.kv,
            sub.id,
            ack_ids.as_slice(),
            now_ms,
            seconds,
        ) {
            Ok(_) => {},
            Err(e) => {
                return Err(e);
            },
        }
        let _ = self.subs.touch(&mut self.kv, sub.id, now_ms);
        Ok(())
    }

    /// Moves the deadlines of deliveries to `seconds` from now; a number that is not positive gives
    /// the messages back.
    pub fn modify_ack_deadline(
        &mut self,
        subscription_full_name: &str,
        ack_ids: Vec<String>,
        seconds: i32,
    ) -> (r: Result<(), Error>)
        ensures
            final(self).clock == old(self).clock,
            exists|now_ms: i64| #[trigger]
                old(self).clock.tells(now_ms) && performed::<K, ()>(
                    old(self)@,
                    final(self)@,
                    modify_effect(
                        old(self)@,
                        subscription_full_name@,
                        text::texts(ack_ids@),
                        seconds,
                        now_ms,
                    ),
                    error::result_view(r),
                ),
    {
        let now_ms: i64 = self.clock.now_ms();
        self.modify_ack_deadline_at(subscription_full_name, ack_ids, seconds, now_ms)
    }

    /// Forgets the leases of a subscription that ran out more than `grace_ms` before `now_ms`.
    pub fn sweep_subscription_at(&mut self, sub_id: u64, grace_ms: i64, now_ms: i64) -> (n: usize)
        ensures
            final(self).clock == old(self).clock,
            subscription_leases_swept(old(self)@, final(self)@, sub_id, grace_ms, now_ms, n),
    {
        self.engine.sweep_expired(sub_id, now_ms, grace_ms)
    }

    /// Forgets the leases of a subscription that ran out more than `grace_ms` ago, and returns how
    /// many.
    pub fn sweep_subscription(&mut self, sub_id: u64, grace_ms: i64) -> (n: usize)
        ensures
            final(self).clock == old(self).clock,
            exists|now_ms: i64| #[trigger]
                old(self).clock.tells(now_ms) && subscription_leases_swept(
                    old(self)@,
                    final(self)@,
                    sub_id,
                    grace_ms,
                    now_ms,
                    n,
                ),
    {
        let now_ms: i64 = self.clock.now_ms();
        self.sweep_subscription_at(sub_id, grace_ms, now_ms)
    }

    /// Removes the messages and then the subscriptions whose time is up at `now_ms`.
    pub fn sweep_retention_at(&mut self, now_ms: i64) -> (stats: RetentionStats)
        ensures
            final(self).clock == old(self).clock,
            retention_swept::<K>(old(self)@, final(self)@, now_ms, stats),
    {
        let ghost s = self@;
        let stats = retention::sweep_expired_messages(&mut self.kv, &self.subs, now_ms);
        let ghost mid = self@.rows;
        let _ = self.subs.sweep_expired(&mut self.kv, now_ms);
        assert(retention::is_sweep::<K>(s.rows, mid, now_ms, stats) && subscriptions_swept::<K>(
            mid,
            self@.rows,
            now_ms,
        ));
        stats
    }

    /// Removes the messages and then the subscriptions whose time is up.
    pub fn sweep_retention(&mut self) -> (stats: RetentionStats)
        ensures
            final(self).clock == old(self).clock,
            exists|now_ms: i64| #[trigger]
                old(self).clock.tells(now_ms) && retention_swept::<K>(
                    old(self)@,
                    final(self)@,
                    now_ms,
                    stats,
                ),
    {
        let now_ms: i64 = self.clock.now_ms();
        self.sweep_retention_at(now_ms)
    }
}

impl<K: KvStore, C: Clock> PubSubService<K, C> {
    /// Creates a subscription when it is `now_ms`.
    pub fn create_subscription_at(
        &mut self,
        full_name: &str,
        topic_full_name: &str,
        opts: CreateSubscriptionOptions,
        now_ms: i64,
    ) -> (r: Result<SubscriptionRecord, Error>)
        ensures
            final(self).clock == old(self).clock,
            performed::<K, SubscriptionView>(
                old(self)@,
                final(self)@,
                create_subscription_effect(
                    old(self)@,
                    full_name@,
                    topic_full_name@,
                    opts@,
                    now_ms,
                ),
                error::result_view(r),
            ),
    {
        let topic = match self.topics.get(&self.kv, topic_full_name) {
            Ok(topic) => topic,
            Err(e) => {
                return Err(e);
            },
        };
        let attach_seq: u64 = self.topics.current_tail(&self.kv, topic.id);
        self.subs.create(
            &mut self.kv,
            full_name,
            topic_full_name,
            topic.id,
            attach_seq,
            now_ms,
            opts,
        )
    }

    /// Creates a subscription on a topic, behind the messages that are there.
    pub fn create_subscription(
        &mut self,
        full_name: &str,
        topic_full_name: &str,
        opts: CreateSubscriptionOptions,
    ) -> (r: Result<SubscriptionRecord, Error>)
        ensures
            final(self).clock == old(self).clock,
            exists|now_ms: i64| #[trigger]
                old(self).clock.tells(now_ms) && performed::<K, SubscriptionView>(
                    old(self)@,
                    final(self)@,
                    create_subscription_effect(
                        old(self)@,
                        full_name@,
                        topic_full_name@,
                        opts@,
                        now_ms,
                    ),
                    error::result_view(r),
                ),
    {
        let now_ms: i64 = self.clock.now_ms();
        self.create_subscription_at(full_name, topic_full_name, opts, now_ms)
    }

    /// The subscription with a name.
    pub fn get_subscription(&self, full_name: &str) -> (r: Result<SubscriptionRecord, Error>)
        ensures
            error::result_view(r) == subscription::subscription_named(self@.rows, full_name@),
    {
        self.subs.get(&self.kv, full_name)
    }

    /// A page of the subscriptions of a project, sorted by name, and the token for the next page. A
    /// page size of 0 is no limit.
    pub fn list_subscriptions(
        &self,
        project_id: &str,
        page_size: usize,
        page_token: Option<&str>,
    ) -> (r: Result<(Vec<SubscriptionRecord>, Option<String>), Error>)
        ensures
            ({
                let names = subscription::project_names(self@.rows, project_id@);
                let limit = subscription::page_limit(page_size);
                let token = listing::opt_str(page_token);
                match subscription::subscriptions_named(
                    self@.rows,
                    listing::page::<String>(names, limit, token),
                ) {
                    Ok(found) => {
                        &&& r is Ok
                        &&& listing::views((r->Ok_0).0@) == found
                        &&& listing::opt_string((r->Ok_0).1) == listing::next_token::<String>(
                            names,
                            limit,
                            token,
                        )
                    },
                    Err(e) => r is Err && r->Err_0@ == e,
                }
            }),
    {
        self.subs.list(&self.kv, project_id, page_size, page_token)
    }

    /// Every subscription of every project.
    pub fn list_all_subscriptions(&self) -> (r: Vec<SubscriptionRecord>)
        ensures
            listing::views(r@) == subscription::all_subscriptions(self@.rows),
    {
        self.subs.list_all(&self.kv)
    }

    /// Replaces those fields of a subscription that the patch gives.
    pub fn update_subscription(&mut self, full_name: &str, patch: SubscriptionUpdatePatch) -> (r:
        Result<SubscriptionRecord, Error>)
        ensures
            final(self)@ == (ServiceView { rows: final(self)@.rows, ..old(self)@ }),
            final(self).clock == old(self).clock,
            match subscription::subscription_named(old(self)@.rows, full_name@) {
                Ok(found) => kv::stored::<SubscriptionRecord, K>(
                    r,
                    old(self)@.rows,
                    final(self)@.rows,
                    subscription::patch_error(patch@),
                    subscription::patched(found, patch@),
                    subscription::persist_writes(subscription::patched(found, patch@)),
                ),
                Err(e) => r is Err && r->Err_0@ == e && final(self)@ == old(self)@,
            },
    {
        self.subs.update(&mut self.kv, full_name, patch)
    }

    /// Deletes a subscription.
    pub fn delete_subscription(&mut self, full_name: &str) -> (r: Result<(), Error>)
        ensures
            final(self)@ == (ServiceView { rows: final(self)@.rows, ..old(self)@ }),
            final(self).clock == old(self).clock,
            subscription::deleted::<K>(old(self)@.rows, final(self)@.rows, full_name@, r),
    {
        self.subs.delete(&mut self.kv, full_name)
    }

    /// Detaches a subscription: pulling from it fails from then on.
    pub fn detach_subscription(&mut self, full_name: &str) -> (r: Result<(), Error>)
        ensures
            final(self)@ == (ServiceView { rows: final(self)@.rows, ..old(self)@ }),
            final(self).clock == old(self).clock,
            match subscription::subscription_named(old(self)@.rows, full_name@) {
                Ok(found) => kv::stored::<(), K>(
                    r,
                    old(self)@.rows,
                    final(self)@.rows,
                    None,
                    (),
                    subscription::persist_writes(SubscriptionView { detached: true, ..found }),
                ),
                Err(e) => r is Err && r->Err_0@ == e && final(self)@ == old(self)@,
            },
    {
        self.subs.detach(&mut self.kv, full_name)
    }

    /// Sets the push configuration of a subscription; `None` makes it a pull subscription.
    pub fn modify_push_config(&mut self, full_name: &str, push_config: Option<PushConfig>) -> (r:
        Result<(), Error>)
        ensures
            final(self)@ == (ServiceView { rows: final(self)@.rows, ..old(self)@ }),
            final(self).clock == old(self).clock,
            match subscription::subscription_named(old(self)@.rows, full_name@) {
                Ok(found) => kv::stored::<(), K>(
                    r,
                    old(self)@.rows,
                    final(self)@.rows,
                    None,
                    (),
                    subscription::persist_writes(
                        SubscriptionView {
                            push_config: subscription::opt_push(push_config),
                            ..found
                        },
                    ),
                ),
                Err(e) => r is Err && r->Err_0@ == e && final(self)@ == old(self)@,
            },
    {
        self.subs.set_push_config(&mut self.kv, full_name, push_config)
    }

    /// Opens a stream on a subscription. Returns the stream's id and the subscription.
    pub fn open_stream(
        &mut self,
        subscription_full_name: &str,
        ack_deadline_secs: i32,
        max_outstanding_messages: i64,
        max_outstanding_bytes: i64,
    ) -> (r: Result<(u64, SubscriptionRecord), Error>)
        ensures
            final(self).clock == old(self).clock,
            match open_error(old(self)@.rows, subscription_full_name@) {
                Some(e) => r is Err && r->Err_0@ == e && final(self)@ == old(self)@,
                None => {
                    let sub = subscription::subscription_named(
                        old(self)@.rows,
                        subscription_full_name@,
                    )->Ok_0;
                    &&& r is Ok
                    &&& (r->Ok_0).0 == stream::next_stream_id(old(self)@.engine.last_stream_id)
                    &&& (r->Ok_0).1@ == sub
                    &&& final(self)@ == stream_opened(
                        old(self)@,
                        sub,
                        ack_deadline_secs,
                        max_outstanding_messages,
                        max_outstanding_bytes,
                    )
                },
            },
    {
        let sub = match self.subs.get(&self.kv, subscription_full_name) {
            Ok(sub) => sub,
            Err(e) => {
                return Err(e);
            },
        };
        match check_attached(&sub, subscription_full_name) {
            Ok(_) => {},
            Err(e) => {
                return Err(e);
            },
        }
        let stream_id: u64 = self.engine.open_stream(
            sub.id,
            sub.topic_id,
            ack_deadline_secs,
            max_outstanding_messages,
            max_outstanding_bytes,
        );
        Ok((stream_id, sub))
    }

    /// Replaces those settings of a stream that are given. Nothing happens when it is not open.
    pub fn update_stream(
        &mut self,
        stream_id: u64,
        ack_deadline_secs: Option<i32>,
        max_outstanding_messages: Option<i64>,
        max_outstanding_bytes: Option<i64>,
    )
        ensures
            final(self).clock == old(self).clock,
            final(self)@ == if old(self)@.engine.sessions.contains_key(stream_id) {
                let session = old(self)@.engine.sessions[stream_id];
                ServiceView {
                    engine: EngineView {
                        sessions: old(self)@.engine.sessions.insert(
                            stream_id,
                            stream::SessionView {
                                info: stream::updated_info(
                                    session.info,
                                    ack_deadline_secs,
                                    max_outstanding_messages,
                                    max_outstanding_bytes,
                                ),
                                ..session
                            },
                        ),
                        ..old(self)@.engine
                    },
                    ..old(self)@
                }
            } else {
                old(self)@
            },
    {
        self.engine.update_stream(
            stream_id,
            ack_deadline_secs,
            max_outstanding_messages,
            max_outstanding_bytes,
        );
    }

    /// Hands out messages on a stream when it is `now_ms`.
    pub fn lease_for_stream_at(&mut self, stream_id: u64, now_ms: i64) -> (r: Result<
        Vec<PulledMessage>,
        Error,
    >)
        ensures
            final(self).clock == old(self).clock,
            performed::<K, Seq<PulledView>>(
                old(self)@,
                final(self)@,
                stream_lease_effect(old(self)@, stream_id, now_ms),
                pulled_result(r),
            ),
            r matches Ok(messages) ==> pulled_are_out(
                final(self)@.engine.leases,
                engine::stream_subscription(old(self)@.engine.sessions, stream_id),
                listing::views(messages@),
            ),
    {
        let ghost sub_id = engine::stream_subscription(self@.engine.sessions, stream_id);
        let expose_attempt = self.engine.exposes_attempts(&self.kv, stream_id);
        match self.engine.lease_for_stream(&mut self.kv, stream_id, now_ms) {
            Ok(delivered) => {
                proof {
                    lemma_pulled_are_out(
                        self@.engine.leases,
                        sub_id,
                        engine::delivered_views(delivered@),
                        expose_attempt,
                    );
                }
                Ok(pulled_from(delivered, expose_attempt))
            },
            Err(e) => Err(e),
        }
    }

    /// Hands out as many messages as a stream may take. Fails when the stream is not open.
    pub fn lease_for_stream(&mut self, stream_id: u64) -> (r: Result<Vec<PulledMessage>, Error>)
        ensures
            final(self).clock == old(self).clock,
            exists|now_ms: i64| #[trigger]
                old(self).clock.tells(now_ms) && performed::<K, Seq<PulledView>>(
                    old(self)@,
                    final(self)@,
                    stream_lease_effect(old(self)@, stream_id, now_ms),
                    pulled_result(r),
                ),
            r matches Ok(messages) ==> pulled_are_out(
                final(self)@.engine.leases,
                engine::stream_subscription(old(self)@.engine.sessions, stream_id),
                listing::views(messages@),
            ),
    {
        let now_ms: i64 = self.clock.now_ms();
        self.lease_for_stream_at(stream_id, now_ms)
    }

    /// Acknowledges deliveries on a stream when it is `now_ms`.
    pub fn stream_acknowledge_at(
        &mut self,
        stream_id: u64,
        sub_id: u64,
        ack_ids: Vec<String>,
        now_ms: i64,
    ) -> (r: Result<(), Error>)
        ensures
            final(self).clock == old(self).clock,
            performed::<K, ()>(
                old(self)@,
                final(self)@,
                stream_acknowledge_effect(
                    old(self)@,
                    stream_id,
                    sub_id,
                    text::texts(ack_ids@),
                    now_ms,
                ),
                error::result_view(r),
            ),
    {
        match self.engine.stream_acknowledge(
            &mut self.kv,
            stream_id,
            sub_id,
            ack_ids.as_slice(),
        ) {
            Ok(_) => {},
            Err(e) => {
                return Err(e);
            },
        }
        let _ = self.subs.touch(&mut self.kv, sub_id, now_ms);
        Ok(())
    }

    /// Acknowledges deliveries on a stream, which frees what they take of its budget.
    pub fn stream_acknowledge(&mut self, stream_id: u64, sub_id: u64, ack_ids: Vec<String>) -> (r:
        Result<(), Error>)
        ensures
            final(self).clock == old(self).clock,
            exists|now_ms: i64| #[trigger]
                old(self).clock.tells(now_ms) && performed::<K, ()>(
                    old(self)@,
                    final(self)@,
                    stream_acknowledge_effect(
                        old(self)@,
                        stream_id,
                        sub_id,
                        text::texts(ack_ids@),
                        now_ms,
                    ),
                    error::result_view(r),
                ),
    {
        let now_ms: i64 = self.clock.now_ms();
        self.stream_acknowledge_at(stream_id, sub_id, ack_ids, now_ms)
    }

    /// Changes deadlines on a stream when it is `now_ms`.
    pub fn stream_modify_ack_deadline_at(
        &mut self,
        stream_id: u64,
        sub_id: u64,
        ack_ids: Vec<String>,
        seconds: i32,
        now_ms: i64,
    ) -> (r: Result<(), Error>)
        ensures
            final(self).clock == old(self).clock,
            performed::<K, ()>(
                old(self)@,
                final(self)@,
                stream_modify_effect(
                    old(self)@,
                    stream_id,
                    sub_id,
                    text::texts(ack_ids@),
                    seconds,
                    now_ms,
                ),
                error::result_view(r),
            ),
    {
        match self.engine.stream_modify_ack_deadline(
            &mut self.kv,
            stream_id,
            sub_id,
            ack_ids.as_slice(),
            now_ms,
            seconds,
        ) {
            Ok(_) => {},
            Err(e) => {
                return Err(e);
            },
        }
        let _ = self.subs.touch(&mut self.kv, sub_id, now_ms);
        Ok(())
    }

    /// Changes deadlines on a stream. Giving messages back frees what they take of its budget.
    pub fn stream_modify_ack_deadline(
        &mut self,
        stream_id: u64,
        sub_id: u64,
        ack_ids: Vec<String>,
        seconds: i32,
    ) -> (r: Result<(), Error>)
        ensures
            final(self).clock == old(self).clock,
            exists|now_ms: i64| #[trigger]
                old(self).clock.tells(now_ms) && performed::<K, ()>(
                    old(self)@,
                    final(self)@,
                    stream_modify_effect(
                        old(self)@,
                        stream_id,
                        sub_id,
                        text::texts(ack_ids@),
                        seconds,
                        now_ms,
                    ),
                    error::result_view(r),
                ),
    {
        let now_ms: i64 = self.clock.now_ms();
        self.stream_modify_ack_deadline_at(stream_id, sub_id, ack_ids, seconds, now_ms)
    }

    /// Closes a stream: what was out on it can be handed out again right away.
    pub fn close_stream(&mut self, stream_id: u64)
        ensures
            final(self).clock == old(self).clock,
            ({
                let gone = engine::stream_leases(
                    old(self)@.engine.leases,
                    old(self)@.engine.sessions,
                    stream_id,
                );
                &&& final(self)@ == (ServiceView {
                    rows: final(self)@.rows,
                    engine: EngineView {
                        leases: old(self)@.engine.leases.remove_keys(gone),
                        sessions: old(self)@.engine.sessions.remove(stream_id),
                        ..old(self)@.engine
                    },
                    ..old(self)@
                })
                &&& engine::only_removed(
                    old(self)@.rows,
                    final(self)@.rows,
                    engine::delivery_rows(gone),
                )
                &&& K::reliable() ==> final(self)@.rows == old(self)@.rows.remove_keys(
                    engine::delivery_rows(gone),
                )
            }),
    {
        self.engine.on_stream_closed(&mut self.kv, stream_id);
    }

    /// Takes a snapshot of a subscription when it is `now_ms`.
    pub fn create_snapshot_at(
        &mut self,
        full_name: &str,
        subscription_full_name: &str,
        labels: StringMap,
        now_ms: i64,
    ) -> (r: Result<SnapshotRecord, Error>)
        ensures
            final(self).clock == old(self).clock,
            performed::<K, SnapshotView>(
                old(self)@,
                final(self)@,
                create_snapshot_effect(
                    old(self)@,
                    full_name@,
                    subscription_full_name@,
                    labels@,
                    now_ms,
                ),
                error::result_view(r),
            ),
    {
        let sub = match self.subs.get(&self.kv, subscription_full_name) {
            Ok(sub) => sub,
            Err(e) => {
                return Err(e);
            },
        };
        let cursor = match self.engine.cursor_snapshot(&self.kv, sub.id) {
            Ok(cursor) => cursor,
            Err(e) => {
                return Err(e);
            },
        };
        let oldest: Option<i64> = match self.engine.oldest_unacked_publish_ts_ms(
            &self.kv,
            sub.id,
            sub.topic_id,
        ) {
            Ok(oldest) => oldest,
            Err(e) => {
                return Err(e);
            },
        };
        let expire_at_ms: i64 = match snapshot::compute_expire_at_ms(now_ms, oldest) {
            Ok(t) => t,
            Err(e) => {
                return Err(e);
            },
        };
        self.snapshots.create(
            &mut self.kv,
            full_name,
            sub.topic.as_str(),
            sub.topic_id,
            labels,
            cursor,
            expire_at_ms,
        )
    }

    /// Takes a snapshot of a subscription: a copy of its cursor.
    pub fn create_snapshot(
        &mut self,
        full_name: &str,
        subscription_full_name: &str,
        labels: StringMap,
    ) -> (r: Result<SnapshotRecord, Error>)
        ensures
            final(self).clock == old(self).clock,
            exists|now_ms: i64| #[trigger]
                old(self).clock.tells(now_ms) && performed::<K, SnapshotView>(
                    old(self)@,
                    final(self)@,
                    create_snapshot_effect(
                        old(self)@,
                        full_name@,
                        subscription_full_name@,
                        labels@,
                        now_ms,
                    ),
                    error::result_view(r),
                ),
    {
        let now_ms: i64 = self.clock.now_ms();
        self.create_snapshot_at(full_name, subscription_full_name, labels, now_ms)
    }

    /// The snapshot with a name.
    pub fn get_snapshot(&self, full_name: &str) -> (r: Result<SnapshotRecord, Error>)
        ensures
            error::result_view(r) == snapshot::snapshot_named(self@.rows, full_name@),
    {
        self.snapshots.get(&self.kv, full_name)
    }

    /// A page of the snapshots of a project, sorted by name, and the token for the next page.
    pub fn list_snapshots(
        &self,
        project_id: &str,
        page_size: usize,
        page_token: Option<&str>,
    ) -> (r: Result<(Vec<SnapshotRecord>, Option<String>), Error>)
        ensures
            match snapshot::project_snapshots(self@.rows, project_id@) {
                Ok(all) => {
                    &&& r is Ok
                    &&& listing::views((r->Ok_0).0@) == listing::page::<SnapshotRecord>(
                        all,
                        page_size as nat,
                        listing::opt_str(page_token),
                    )
                    &&& listing::opt_string((r->Ok_0).1) == listing::next_token::<SnapshotRecord>(
                        all,
                        page_size as nat,
                        listing::opt_str(page_token),
                    )
                },
                Err(e) => r is Err && r->Err_0@ == e,
            },
    {
        self.snapshots.list(&self.kv, project_id, page_size, page_token)
    }

    /// The names of the snapshots taken from subscriptions of a topic, sorted.
    pub fn list_topic_snapshots(&self, topic_full_name: &str) -> (r: Result<Vec<String>, Error>)
        ensures
            subscription::texts_result(r) == topic_snapshots(self@.rows, topic_full_name@),
    {
        let name = match TopicName::parse(topic_full_name) {
            Ok(name) => name,
            Err(e) => {
                return Err(e);
            },
        };
        let all = match self.snapshots.load_project(&self.kv, name.project_id()) {
            Ok(all) => all,
            Err(e) => {
                return Err(e);
            },
        };
        let ghost snaps = listing::views(all@);
        let mut out: Vec<String> = Vec::new();
        let mut i: usize = 0;
        assert(snaps.take(0) =~= Seq::<SnapshotView>::empty());
        assert(text::texts(out@) =~= Seq::<Seq<char>>::empty());
        while i < all.len()
            invariant
                i <= all.len(),
                snaps == listing::views(all@),
                text::texts(out@) == names_for_topic(snaps.take(i as int), topic_full_name@),
            decreases all.len() - i,
        {
            assert(snaps.take(i + 1).drop_last() =~= snaps.take(i as int));
            assert(snaps[i as int] == all@[i as int]@);
            proof {
                text::lemma_utf8_injective(all@[i as int].topic@, topic_full_name@);
            }
            if text::str_equal(all[i].topic.as_str(), topic_full_name) {
                let ghost held = out@;
                out.push(all[i].name.clone());
                assert(text::texts(out@) =~= text::texts(held).push(snaps[i as int].name));
            }
            i = i + 1;
        }
        assert(snaps.take(i as int) =~= snaps);
        Ok(out)
    }

    /// Replaces a snapshot's labels.
    pub fn update_snapshot_labels(&mut self, full_name: &str, labels: StringMap) -> (r: Result<
        SnapshotRecord,
        Error,
    >)
        ensures
            final(self)@ == (ServiceView { rows: final(self)@.rows, ..old(self)@ }),
            final(self).clock == old(self).clock,
            match snapshot::snapshot_named(old(self)@.rows, full_name@) {
                Ok(found) => kv::stored::<SnapshotRecord, K>(
                    r,
                    old(self)@.rows,
                    final(self)@.rows,
                    None,
                    (SnapshotView { labels: labels@, ..found }),
                    snapshot::relabel_writes(found, labels@),
                ),
                Err(e) => r is Err && r->Err_0@ == e && final(self)@ == old(self)@,
            },
    {
        self.snapshots.update_labels(&mut self.kv, full_name, labels)
    }

    /// Deletes a snapshot.
    pub fn delete_snapshot(&mut self, full_name: &str) -> (r: Result<(), Error>)
        ensures
            final(self)@ == (ServiceView { rows: final(self)@.rows, ..old(self)@ }),
            final(self).clock == old(self).clock,
            match snapshot::snapshot_id_of(old(self)@.rows, full_name@) {
                Ok(id) => kv::stored::<(), K>(
                    r,
                    old(self)@.rows,
                    final(self)@.rows,
                    None,
                    (),
                    snapshot::delete_writes(id, full_name@),
                ),
                Err(e) => r is Err && r->Err_0@ == e && final(self)@ == old(self)@,
            },
    {
        self.snapshots.delete(&mut self.kv, full_name)
    }

    /// Deletes the snapshots of a project that have expired at `now_ms`.
    pub fn sweep_expired_snapshots_at(&mut self, project_id: &str, now_ms: i64) -> (r: Result<
        usize,
        Error,
    >)
        ensures
            final(self)@ == (ServiceView { rows: final(self)@.rows, ..old(self)@ }),
            final(self).clock == old(self).clock,
            snapshots_swept::<K>(old(self)@.rows, final(self)@.rows, project_id@, now_ms, r),
    {
        self.snapshots.sweep_expired(&mut self.kv, project_id, now_ms)
    }

    /// Deletes the snapshots of a project that have expired, and returns how many.
    pub fn sweep_expired_snapshots(&mut self, project_id: &str) -> (r: Result<usize, Error>)
        ensures
            final(self)@ == (ServiceView { rows: final(self)@.rows, ..old(self)@ }),
            final(self).clock == old(self).clock,
            exists|now_ms: i64| #[trigger]
                old(self).clock.tells(now_ms) && snapshots_swept::<K>(
                    old(self)@.rows,
                    final(self)@.rows,
                    project_id@,
                    now_ms,
                    r,
                ),
    {
        let now_ms: i64 = self.clock.now_ms();
        self.sweep_expired_snapshots_at(project_id, now_ms)
    }

    /// Puts a subscription back to where it stood when a snapshot was taken.
    pub fn seek_to_snapshot(&mut self, subscription_full_name: &str, snapshot_full_name: &str) -> (r:
        Result<(), Error>)
        ensures
            final(self).clock == old(self).clock,
            sought::<K>(
                old(self)@,
                final(self)@,
                snapshot_target(old(self)@.rows, subscription_full_name@, snapshot_full_name@),
                r,
            ),
    {
        let sub = match self.subs.get(&self.kv, subscription_full_name) {
            Ok(sub) => sub,
            Err(e) => {
                return Err(e);
            },
        };
        let snap = match self.snapshots.get(&self.kv, snapshot_full_name) {
            Ok(snap) => snap,
            Err(e) => {
                return Err(e);
            },
        };
        if snap.topic_id != sub.topic_id {
            return Err(
                invalid(
                    "snapshot",
                    text::cat5(
                        "snapshot ",
                        snapshot_full_name,
                        " was not captured from a subscription of ",
                        subscription_full_name,
                        "'s topic",
                    ),
                ),
            );
        }
        self.engine.restore_cursor(&mut self.kv, sub.id, snap.cursor)
    }

    /// Moves a subscription so that what was published before a time is done and everything from
    /// then on is open, as far back as the subscription was attached.
    pub fn seek_to_time(&mut self, subscription_full_name: &str, time_ms: i64) -> (r: Result<
        (),
        Error,
    >)
        ensures
            final(self).clock == old(self).clock,
            sought::<K>(
                old(self)@,
                final(self)@,
                time_target(old(self)@.rows, subscription_full_name@, time_ms),
                r,
            ),
    {
        let sub = match self.subs.get(&self.kv, subscription_full_name) {
            Ok(sub) => sub,
            Err(e) => {
                return Err(e);
            },
        };
        let attach_seq: u64 = match self.engine.cursor_snapshot(&self.kv, sub.id) {
            Ok(cursor) => cursor.attach_seq,
            Err(e) => {
                return Err(e);
            },
        };
        let boundary: u64 = self.topics.seq_boundary_for_time(&self.kv, sub.topic_id, time_ms);
        let last: u64 = if boundary == 0 {
            0
        } else {
            boundary - 1
        };
        let cursor = CursorRecord {
            attach_seq,
            acked_floor: if last < attach_seq {
                attach_seq
            } else {
                last
            },
            acked_above_floor: BTreeSet::new(),
        };
        assert(cursor@ == cursor_before(attach_seq, boundary)) by {
            assert(cursor@.acked_above_floor =~= Set::<u64>::empty());
        }
        self.engine.restore_cursor(&mut self.kv, sub.id, cursor)
    }
}

/// The service once a stream on a subscription is open.
pub open spec fn stream_opened(
    s: ServiceView,
    sub: SubscriptionView,
    ack_deadline_secs: i32,
    max_outstanding_messages: i64,
    max_outstanding_bytes: i64,
) -> ServiceView {
    let id = stream::next_stream_id(s.engine.last_stream_id);
    ServiceView {
        engine: EngineView {
            last_stream_id: id,
            sessions: s.engine.sessions.insert(
                id,
                stream::SessionView {
                    info: stream::StreamInfo {
                        sub_id: sub.id,
                        topic_id: sub.topic_id,
                        ack_deadline_secs,
                        max_outstanding_messages,
                        max_outstanding_bytes,
                    },
                    outstanding: Map::empty(),
                    generations: Map::empty(),
                    outstanding_bytes: 0,
                },
            ),
            ..s.engine
        },
        ..s
    }
}

/// Why a stream cannot be opened on a subscription, if it cannot.
pub open spec fn open_error(rows: Rows, name: Seq<char>) -> Option<ErrorView> {
    match subscription::subscription_named(rows, name) {
        Err(e) => Some(e),
        Ok(sub) => detached_error(sub, name),
    }
}

/// What a sweep of the expired snapshots of a project comes to.
pub open spec fn snapshots_swept<K: KvStore>(
    before: Rows,
    after: Rows,
    project_id: Seq<char>,
    now_ms: i64,
    r: Result<usize, Error>,
) -> bool {
    let sweep = snapshot::project_sweep(before, project_id, now_ms);
    ||| {
        &&& match r {
            Ok(n) => sweep.failure is None && n == sweep.removed,
            Err(e) => sweep.failure == Some(e@),
        }
        &&& after == kv::after_writes(before, sweep.writes)
    }
    ||| {
        &&& r is Err
        &&& !K::reliable()
        &&& K::may_fail(r->Err_0@)
        &&& kv::torn(before, sweep.writes, after)
    }
}

/// The leases of a subscription that ran out are forgotten and counted.
pub open spec fn subscription_leases_swept(
    before: ServiceView,
    after: ServiceView,
    sub_id: u64,
    grace_ms: i64,
    now_ms: i64,
    n: usize,
) -> bool {
    let limit_ms = crate::arith::clamp_i64(now_ms - grace_ms) as i64;
    &&& after == (ServiceView {
        engine: EngineView {
            leases: engine::swept(before.engine.leases, sub_id, limit_ms),
            ..before.engine
        },
        ..before
    })
    &&& n == lease::keys_of_subscription(before.engine.leases, sub_id).intersect(
        lease::expired_keys(before.engine.leases, limit_ms),
    ).len()
}

fn check_attached(sub: &SubscriptionRecord, name: &str) -> (r: Result<(), Error>)
    ensures
        error::checked(r, detached_error(sub@, name@)),
{
    if sub.detached || text::str_equal(sub.topic.as_str(), DELETED_TOPIC) {
        return Err(
            Error::FailedPrecondition {
                message: text::cat3("subscription ", name, " is detached"),
            },
        );
    }
    Ok(())
}

fn raw_messages(messages: Vec<PublishMessage>) -> (r: Vec<(Vec<u8>, StringMap, String)>)
    ensures
        topic::new_messages(r@) == listing::views(messages@),
{
    let mut out: Vec<(Vec<u8>, StringMap, String)> = Vec::new();
    let ghost all = listing::views(messages@);
    let mut i: usize = 0;
    assert(topic::new_messages(out@) =~= all.take(0));
    while i < messages.len()
        invariant
            i <= messages.len(),
            all == listing::views(messages@),
            topic::new_messages(out@) == all.take(i as int),
        decreases messages.len() - i,
    {
        let m = &messages[i];
        let ghost held = out@;
        let raw = (copy_bytes(&m.data), m.attributes.clone(), m.ordering_key.clone());
        let ghost added = NewMessage {
            payload: raw.0@,
            attributes: raw.1@,
            ordering_key: raw.2@,
        };
        out.push(raw);
        assert(added == all[i as int]);
        assert(topic::new_messages(out@) =~= topic::new_messages(held).push(added));
        i = i + 1;
        assert(topic::new_messages(out@) =~= all.take(i as int));
    }
    assert(all.take(i as int) =~= all);
    out
}

fn texts_of(seqs: Vec<u64>) -> (r: Vec<String>)
    ensures
        text::texts(r@) == ids_text(seqs@),
{
    let mut out: Vec<String> = Vec::new();
    let mut i: usize = 0;
    assert(text::texts(out@) =~= ids_text(seqs@).take(0));
    while i < seqs.len()
        invariant
            i <= seqs.len(),
            text::texts(out@) == ids_text(seqs@).take(i as int),
        decreases seqs.len() - i,
    {
        let ghost held = out@;
        let t = text::u64_text(seqs[i]);
        let ghost added = t@;
        out.push(t);
        assert(text::texts(out@) =~= text::texts(held).push(added));
        i = i + 1;
        assert(text::texts(out@) =~= ids_text(seqs@).take(i as int));
    }
    assert(ids_text(seqs@).take(i as int) =~= ids_text(seqs@));
    out
}

proof fn lemma_orphaning_goes_on(rows: Rows, ids: Seq<u64>, m: int, n: int)
    requires
        0 <= m <= n,
    ensures
        text::has_prefix(orphaning(rows, ids, n).0, orphaning(rows, ids, m).0),
        orphaning(rows, ids, m).1 is Some ==> orphaning(rows, ids, n) == orphaning(rows, ids, m),
    decreases n - m,
{
    if m < n {
        lemma_orphaning_goes_on(rows, ids, m, n - 1);
        let first = orphaning(rows, ids, m).0;
        let before = orphaning(rows, ids, n - 1).0;
        let after = orphaning(rows, ids, n).0;
        assert(after.take(before.len() as int) =~= before);
        assert(after.take(first.len() as int) =~= before.take(first.len() as int));
    } else {
        let all = orphaning(rows, ids, n).0;
        assert(all.take(all.len() as int) =~= all);
    }
}

proof fn lemma_names_error(rows: Rows, ids: Seq<u64>, m: int, n: int)
    requires
        0 <= m <= n,
        names_of(rows, ids, m) is Err,
    ensures
        names_of(rows, ids, n) == names_of(rows, ids, m),
    decreases n - m,
{
    if m < n {
        lemma_names_error(rows, ids, m, n - 1);
    }
}

} // verus!
