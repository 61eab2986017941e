//! Messages come out as they were put in.

use crate::delivery::engine;
use crate::delivery::engine::EngineView;
use crate::delivery::laws;
use crate::encoding;
use crate::filter::ast::ExprView;
use crate::filter::eval;
use crate::error;
use crate::error::{Error, ErrorView};
use crate::grpc::messages;
use crate::grpc::messages::ReceivedMessage;
use crate::grpc::publisher;
use crate::grpc::status;
use crate::grpc::status::Status;
use crate::grpc::streaming;
use crate::grpc::streaming::SendStep;
use crate::grpc::subscriber;
use crate::guarantees::numerals;
use crate::laws as service_laws;
use crate::listing;
use crate::rest::handlers;
use crate::rest::handlers::{PublishBody, PublishResponseBody, PullResponseBody};
use crate::service;
use crate::service::{PublishMessage, PulledMessage, PulledView, ServiceView};
use crate::store::codec::MessageView;
use crate::store::keys;
use crate::store::kv;
use crate::store::kv::{KvStore, Rows, ValueView};
use crate::subscription;
use crate::text;
use crate::topic;
use crate::topic::NewMessage;
use vstd::prelude::*;

verus! {

/// The message at a position of a topic.
pub open spec fn message_at(rows: Rows, topic_id: u64, seq: u64) -> Option<MessageView> {
    match kv::fetch(rows, "msg"@, keys::pair_key(topic_id, seq)) {
        Some(ValueView::Message(m)) => Some(m),
        _ => None,
    }
}

/// What a request for messages hands out is stored in the topic, and on a subscription with a filter
/// satisfies it.
pub(crate) proof fn lemma_handed_out(
    rows: Rows,
    before: EngineView,
    sub_id: u64,
    topic_id: u64,
    max_messages: i32,
    now_ms: i64,
    ack_deadline_secs: i32,
    k: int,
)
    requires
        kv::has_scan(rows, "msg"@, keys::be64(topic_id)),
        ({
            let end = engine::lease_end(
                rows,
                before,
                sub_id,
                topic_id,
                max_messages,
                now_ms,
                ack_deadline_secs,
            );
            end.outcome is Ok && 0 <= k < (end.outcome->Ok_0).len()
        }),
    ensures
        ({
            let end = engine::lease_end(
                rows,
                before,
                sub_id,
                topic_id,
                max_messages,
                now_ms,
                ack_deadline_secs,
            );
            let d = (end.outcome->Ok_0)[k];
            &&& message_at(rows, topic_id, d.seq) == Some(d.message)
            &&& engine::wanted(
                engine::filter_of(before.filters, rows, sub_id),
                d.message.attributes,
            )
        }),
{
    let call = engine::lease_call(
        rows,
        before,
        engine::stored_cursor(rows, sub_id)->Ok_0,
        sub_id,
        max_messages,
        now_ms,
        ack_deadline_secs,
    );
    let log = kv::scan_of(rows, "msg"@, keys::be64(topic_id));
    laws::law_scan_of_topic_is_log(rows, topic_id);
    laws::law_deliveries(call, log);
    let d = engine::leasing(call, log, log.len() as int).out[k];
    assert(laws::is_due(call, log, log.len() as int, d));
    let j = choose|j: int|
        0 <= j < log.len() && #[trigger] laws::seq_in(log, j) == Some(d.seq) && log[j].1
            == ValueView::Message(d.message);
    let key = log[j].0;
    let (t, s) = keys::from_pair_key(key)->0;
    assert(text::has_prefix(key, keys::be64(topic_id)));
    keys::law_pair_key_round_trip(t, s, key);
    keys::lemma_pair_key_prefix(key, topic_id);
}

/// What publishing stores, told in what was published.
pub(crate) proof fn lemma_published<K: KvStore>(
    before: ServiceView,
    after: ServiceView,
    topic_name: Seq<char>,
    batch: Seq<NewMessage>,
    disk_bytes: u64,
    now_ms: i64,
    r: Result<Seq<Seq<char>>, ErrorView>,
    i: int,
)
    requires
        service::performed::<K, Seq<Seq<char>>>(
            before,
            after,
            service::publish_effect(before, topic_name, batch, disk_bytes, now_ms),
            r,
        ),
        r is Ok,
        ({
            let t = topic::topic_named(before.rows, topic_name);
            t is Ok ==> service_laws::well_kept_log(before.rows, (t->Ok_0).id) && topic::tail_of(
                before.rows,
                (t->Ok_0).id,
            ) + batch.len() <= u64::MAX
        }),
        0 <= i < batch.len(),
    ensures
        topic::topic_named(before.rows, topic_name) is Ok,
        (r->Ok_0).len() == batch.len(),
        ({
            let t = topic::topic_named(before.rows, topic_name)->Ok_0;
            let seq = (topic::tail_of(before.rows, t.id) + 1 + i) as u64;
            let m = message_at(after.rows, t.id, seq);
            &&& kv::has_scan(after.rows, "msg"@, keys::be64(t.id))
            &&& (r->Ok_0)[i] == text::dec(seq as nat)
            &&& m is Some
            &&& m->0.payload == batch[i].payload
            &&& m->0.attributes == batch[i].attributes
            &&& m->0.ordering_key == batch[i].ordering_key
            &&& m->0.publish_ts_ms == now_ms
            &&& m->0.expire_at_ms == topic::expiry(
                now_ms,
                engine::effective_retention(t.message_retention_secs),
            )
        }),
{
    let effect = service::publish_effect(before, topic_name, batch, disk_bytes, now_ms);
    service_laws::law_published_is_stored::<K>(
        before,
        after,
        topic_name,
        batch,
        disk_bytes,
        now_ms,
        r,
    );
    let t = topic::topic_named(before.rows, topic_name)->Ok_0;
    let tail = topic::tail_of(before.rows, t.id);
    let expire_at_ms = topic::expiry(
        now_ms,
        engine::effective_retention(t.message_retention_secs),
    );
    service_laws::law_publishing_appends(
        before.rows,
        t.id,
        batch,
        now_ms,
        expire_at_ms,
        batch.len() as int,
    );
    let old_log = kv::scan_of(before.rows, "msg"@, keys::be64(t.id));
    let log = kv::scan_of(after.rows, "msg"@, keys::be64(t.id));
    let new = service_laws::new_rows(t.id, tail, batch, now_ms, expire_at_ms, batch.len());
    assert(after.rows == kv::after_writes(before.rows, effect.writes));
    assert(log[old_log.len() + i] == new[i]);
    let key = log[old_log.len() + i].0;
    assert(after.rows.contains_key(("msg"@, key)));
}

/// What a pull hands out of a position of the topic is what stands there, and satisfies the filter.
proof fn lemma_pulled(s: ServiceView, name: Seq<char>, max_messages: i32, now_ms: i64, k: int)
    requires
        ({
            let pull = service::pull_effect(s, name, max_messages, now_ms);
            let sub = subscription::subscription_named(s.rows, name);
            &&& pull.outcome is Ok
            &&& 0 <= k < (pull.outcome->Ok_0).len()
            &&& sub is Ok ==> kv::has_scan(s.rows, "msg"@, keys::be64((sub->Ok_0).topic_id))
        }),
    ensures
        subscription::subscription_named(s.rows, name) is Ok,
        shows_message(
            s,
            subscription::subscription_named(s.rows, name)->Ok_0.id,
            subscription::subscription_named(s.rows, name)->Ok_0.topic_id,
            (service::pull_effect(s, name, max_messages, now_ms).outcome->Ok_0)[k],
        ),
{
    let sub = subscription::subscription_named(s.rows, name)->Ok_0;
    let end = engine::lease_end(
        s.rows,
        s.engine,
        sub.id,
        sub.topic_id,
        max_messages,
        now_ms,
        sub.ack_deadline_secs,
    );
    lemma_handed_out(
        s.rows,
        s.engine,
        sub.id,
        sub.topic_id,
        max_messages,
        now_ms,
        sub.ack_deadline_secs,
        k,
    );
    let d = (end.outcome->Ok_0)[k];
    assert(stands_at(
        s,
        sub.id,
        sub.topic_id,
        d.seq,
        (service::pull_effect(s, name, max_messages, now_ms).outcome->Ok_0)[k],
    ));
}

/// The same for what a stream's request hands out.
proof fn lemma_leased(s: ServiceView, stream_id: u64, now_ms: i64, k: int)
    requires
        ({
            let lease = service::stream_lease_effect(s, stream_id, now_ms);
            &&& lease.outcome is Ok
            &&& 0 <= k < (lease.outcome->Ok_0).len()
            &&& s.engine.sessions.contains_key(stream_id) ==> kv::has_scan(
                s.rows,
                "msg"@,
                keys::be64(s.engine.sessions[stream_id].info.topic_id),
            )
        }),
    ensures
        s.engine.sessions.contains_key(stream_id),
        shows_message(
            s,
            s.engine.sessions[stream_id].info.sub_id,
            s.engine.sessions[stream_id].info.topic_id,
            (service::stream_lease_effect(s, stream_id, now_ms).outcome->Ok_0)[k],
        ),
{
    let info = s.engine.sessions[stream_id].info;
    let messages = crate::delivery::stream::budget(s.engine.sessions, stream_id).0;
    let size = if messages > i32::MAX {
        i32::MAX
    } else {
        messages as i32
    };
    let end = engine::lease_end(
        s.rows,
        s.engine,
        info.sub_id,
        info.topic_id,
        size,
        now_ms,
        info.ack_deadline_secs,
    );
    lemma_handed_out(
        s.rows,
        s.engine,
        info.sub_id,
        info.topic_id,
        size,
        now_ms,
        info.ack_deadline_secs,
        k,
    );
    let d = (end.outcome->Ok_0)[k];
    assert(stands_at(
        s,
        info.sub_id,
        info.topic_id,
        d.seq,
        (service::stream_lease_effect(s, stream_id, now_ms).outcome->Ok_0)[k],
    ));
}

/// What was handed out stands at a position of the topic, with the same data, attributes, ordering
/// key and time, its id is the numeral of the position, and the subscription wants it.
pub open spec fn stands_at(
    s: ServiceView,
    sub_id: u64,
    topic_id: u64,
    seq: u64,
    m: PulledView,
) -> bool {
    &&& message_at(s.rows, topic_id, seq) matches Some(stored)
    &&& m.message_id == text::dec(seq as nat)
    &&& m.data == stored.payload
    &&& m.attributes == stored.attributes
    &&& m.ordering_key == stored.ordering_key
    &&& m.publish_time_ms == stored.publish_ts_ms
    &&& engine::wanted(engine::filter_of(s.engine.filters, s.rows, sub_id), m.attributes)
}

/// What was handed out stands at some position of the topic.
pub open spec fn shows_message(s: ServiceView, sub_id: u64, topic_id: u64, m: PulledView) -> bool {
    exists|seq: u64| #[trigger] stands_at(s, sub_id, topic_id, seq, m)
}

/// A published message is pulled as it was published.
proof fn lemma_same_message<K: KvStore>(
    before: ServiceView,
    then: ServiceView,
    topic_name: Seq<char>,
    batch: Seq<NewMessage>,
    disk_bytes: u64,
    now_ms: i64,
    ids: Result<Seq<Seq<char>>, ErrorView>,
    i: int,
    sub_id: u64,
    topic_id: u64,
    m: PulledView,
)
    requires
        service::performed::<K, Seq<Seq<char>>>(
            before,
            then,
            service::publish_effect(before, topic_name, batch, disk_bytes, now_ms),
            ids,
        ),
        ids is Ok,
        0 <= i < batch.len(),
        publishable(before.rows, topic_name, topic_id, batch.len()),
        shows_message(then, sub_id, topic_id, m),
        (ids->Ok_0).len() == batch.len() ==> m.message_id == (ids->Ok_0)[i],
    ensures
        (ids->Ok_0).len() == batch.len(),
        m.data == batch[i].payload,
        m.attributes == batch[i].attributes,
        m.ordering_key == batch[i].ordering_key,
        m.publish_time_ms == now_ms,
{
    lemma_published::<K>(before, then, topic_name, batch, disk_bytes, now_ms, ids, i);
    let t = topic::topic_named(before.rows, topic_name)->Ok_0;
    let seq = (topic::tail_of(before.rows, t.id) + 1 + i) as u64;
    let found = choose|found: u64| #[trigger] stands_at(then, sub_id, topic_id, found, m);
    numerals::law_numerals_differ(found as nat, seq as nat);
}

/// The log of a topic is well kept and has room for so many messages more.
pub open spec fn publishable(rows: Rows, topic_name: Seq<char>, topic_id: u64, n: nat) -> bool {
    topic::topic_named(rows, topic_name) matches Ok(t) ==> {
        &&& t.id == topic_id
        &&& service_laws::well_kept_log(rows, t.id)
        &&& topic::tail_of(rows, t.id) + n <= u64::MAX
    }
}

proof fn lemma_log_listed<K: KvStore>(
    before: ServiceView,
    then: ServiceView,
    topic_name: Seq<char>,
    batch: Seq<NewMessage>,
    disk_bytes: u64,
    now_ms: i64,
    ids: Result<Seq<Seq<char>>, ErrorView>,
    topic_id: u64,
)
    requires
        service::performed::<K, Seq<Seq<char>>>(
            before,
            then,
            service::publish_effect(before, topic_name, batch, disk_bytes, now_ms),
            ids,
        ),
        ids is Ok,
        batch.len() > 0,
        publishable(before.rows, topic_name, topic_id, batch.len()),
    ensures
        kv::has_scan(then.rows, "msg"@, keys::be64(topic_id)),
{
    lemma_published::<K>(before, then, topic_name, batch, disk_bytes, now_ms, ids, 0);
}

/// A message that is published and then pulled is handed out as it was published: under the id that
/// publishing returned, with its data, its attributes and its ordering key, and with the time at
/// which it was published.
pub proof fn law_published_is_handed_out<K: KvStore>(
    before: ServiceView,
    then: ServiceView,
    after: ServiceView,
    topic_name: Seq<char>,
    batch: Seq<PublishMessage>,
    disk_bytes: u64,
    now_ms: i64,
    ids: Result<Vec<String>, Error>,
    name: Seq<char>,
    max_messages: i32,
    later_ms: i64,
    r: Result<Vec<PulledMessage>, Error>,
    i: int,
    k: int,
)
    requires
        service::performed::<K, Seq<Seq<char>>>(
            before,
            then,
            service::publish_effect(
                before,
                topic_name,
                listing::views(batch),
                disk_bytes,
                now_ms,
            ),
            subscription::texts_result(ids),
        ),
        service::performed::<K, Seq<PulledView>>(
            then,
            after,
            service::pull_effect(then, name, max_messages, later_ms),
            service::pulled_result(r),
        ),
        ids is Ok,
        r is Ok,
        subscription::subscription_named(then.rows, name) matches Ok(sub) ==> publishable(
            before.rows,
            topic_name,
            sub.topic_id,
            batch.len(),
        ),
        0 <= i < batch.len(),
        0 <= k < (r->Ok_0)@.len(),
        (ids->Ok_0)@.len() == batch.len() ==> (r->Ok_0)@[k].message_id@ == (ids->Ok_0)@[i]@,
    ensures
        (ids->Ok_0)@.len() == batch.len(),
        (r->Ok_0)@[k].data@ == batch[i].data@,
        (r->Ok_0)@[k].attributes@ == batch[i].attributes@,
        (r->Ok_0)@[k].ordering_key@ == batch[i].ordering_key@,
        (r->Ok_0)@[k].publish_time_ms == now_ms,
{
    let new = listing::views(batch);
    let given = subscription::texts_result(ids);
    let pull = service::pull_effect(then, name, max_messages, later_ms);
    assert(new[i] == batch[i]@);
    assert(text::texts((ids->Ok_0)@).len() == (ids->Ok_0)@.len());
    if (ids->Ok_0)@.len() == batch.len() {
        assert(text::texts((ids->Ok_0)@)[i] == (ids->Ok_0)@[i]@);
    }
    assert(listing::views((r->Ok_0)@)[k] == (r->Ok_0)@[k]@);
    service_laws::law_success_is_stored::<K, Seq<PulledView>>(
        then,
        after,
        pull,
        service::pulled_result(r),
    );
    lemma_pull_finds(then, name, max_messages, later_ms);
    let sub = subscription::subscription_named(then.rows, name)->Ok_0;
    lemma_log_listed::<K>(
        before,
        then,
        topic_name,
        new,
        disk_bytes,
        now_ms,
        given,
        sub.topic_id,
    );
    lemma_pulled(then, name, max_messages, later_ms, k);
    lemma_same_message::<K>(
        before,
        then,
        topic_name,
        new,
        disk_bytes,
        now_ms,
        given,
        i,
        sub.id,
        sub.topic_id,
        (pull.outcome->Ok_0)[k],
    );
}

proof fn lemma_pull_finds(s: ServiceView, name: Seq<char>, max_messages: i32, now_ms: i64)
    requires
        service::pull_effect(s, name, max_messages, now_ms).outcome is Ok,
    ensures
        subscription::subscription_named(s.rows, name) is Ok,
{
}

/// What a client sees of what was handed out.
proof fn lemma_wire(pulled: Seq<PulledView>, received: Seq<ReceivedMessage>, k: int)
    requires
        listing::views(received) == messages::all_received(pulled),
        0 <= k < received.len(),
    ensures
        pulled.len() == received.len(),
        received[k].message.message_id@ == pulled[k].message_id,
        received[k].message.data@ == pulled[k].data,
        received[k].message.attributes@ == pulled[k].attributes,
        received[k].message.ordering_key@ == pulled[k].ordering_key,
        received[k].message.publish_time.seconds * 1000
            + received[k].message.publish_time.nanos as int / 1_000_000
            == pulled[k].publish_time_ms,
        0 <= received[k].message.publish_time.nanos < 1_000_000_000,
        received[k].ack_id@ == pulled[k].ack_id,
        pulled[k].delivery_attempt <= i32::MAX ==> received[k].delivery_attempt
            == pulled[k].delivery_attempt,
{
    assert(messages::all_received(pulled).len() == received.len());
    assert(listing::views(received)[k] == received[k]@);
}

/// A message that is published and then pulled is received as it was published: under the id that
/// publishing returned, with its data, its attributes and its ordering key, and with the time at
/// which it was published.
pub proof fn law_published_is_received<K: KvStore>(
    before: ServiceView,
    then: ServiceView,
    after: ServiceView,
    topic_name: Seq<char>,
    batch: Seq<PublishMessage>,
    disk_bytes: u64,
    now_ms: i64,
    ids: Result<Vec<String>, Status>,
    name: Seq<char>,
    max_messages: i32,
    later_ms: i64,
    r: Result<Vec<ReceivedMessage>, Status>,
    i: int,
    k: int,
)
    requires
        publisher::published::<K>(before, then, topic_name, batch, disk_bytes, now_ms, ids),
        subscriber::pulled::<K>(then, after, name, max_messages, later_ms, r),
        ids is Ok,
        r is Ok,
        subscription::subscription_named(then.rows, name) matches Ok(sub) ==> publishable(
            before.rows,
            topic_name,
            sub.topic_id,
            batch.len(),
        ),
        0 <= i < batch.len(),
        0 <= k < (r->Ok_0)@.len(),
        (ids->Ok_0)@.len() == batch.len() ==> (r->Ok_0)@[k].message.message_id@ == (
        ids->Ok_0)@[i]@,
    ensures
        (ids->Ok_0)@.len() == batch.len(),
        ({
            let m = (r->Ok_0)@[k].message;
            &&& m.data@ == batch[i].data@
            &&& m.attributes@ == batch[i].attributes@
            &&& m.ordering_key@ == batch[i].ordering_key@
            &&& m.publish_time.seconds * 1000 + m.publish_time.nanos as int / 1_000_000 == now_ms
        }),
{
    let new = listing::views(batch);
    let size = subscriber::pull_size(max_messages);
    let publish = service::publish_effect(before, topic_name, new, disk_bytes, now_ms);
    let pull = service::pull_effect(then, name, size, later_ms);
    assert(new[i] == batch[i]@);
    assert(text::texts((ids->Ok_0)@).len() == (ids->Ok_0)@.len());
    if (ids->Ok_0)@.len() == batch.len() {
        assert(text::texts((ids->Ok_0)@)[i] == (ids->Ok_0)@[i]@);
    }
    let given = choose|outcome: Result<Seq<Seq<char>>, ErrorView>| #[trigger]
        service::performed::<K, Seq<Seq<char>>>(before, then, publish, outcome)
            && publisher::names_reply(ids) == status::reply(outcome, |ids: Seq<Seq<char>>| ids);
    let pulled = choose|outcome: Result<Seq<PulledView>, ErrorView>| #[trigger]
        service::performed::<K, Seq<PulledView>>(then, after, pull, outcome)
            && subscriber::received_reply(r) == status::reply(
            outcome,
            |m: Seq<PulledView>| messages::all_received(m),
        );
    lemma_received::<K>(
        before,
        then,
        after,
        topic_name,
        new,
        disk_bytes,
        now_ms,
        given,
        name,
        size,
        later_ms,
        pulled,
        (r->Ok_0)@,
        i,
        k,
    );
}

proof fn lemma_received<K: KvStore>(
    before: ServiceView,
    then: ServiceView,
    after: ServiceView,
    topic_name: Seq<char>,
    new: Seq<NewMessage>,
    disk_bytes: u64,
    now_ms: i64,
    given: Result<Seq<Seq<char>>, ErrorView>,
    name: Seq<char>,
    size: i32,
    later_ms: i64,
    pulled: Result<Seq<PulledView>, ErrorView>,
    received: Seq<ReceivedMessage>,
    i: int,
    k: int,
)
    requires
        service::performed::<K, Seq<Seq<char>>>(
            before,
            then,
            service::publish_effect(before, topic_name, new, disk_bytes, now_ms),
            given,
        ),
        service::performed::<K, Seq<PulledView>>(
            then,
            after,
            service::pull_effect(then, name, size, later_ms),
            pulled,
        ),
        given is Ok,
        pulled is Ok,
        listing::views(received) == messages::all_received(pulled->Ok_0),
        subscription::subscription_named(then.rows, name) matches Ok(sub) ==> publishable(
            before.rows,
            topic_name,
            sub.topic_id,
            new.len(),
        ),
        0 <= i < new.len(),
        0 <= k < received.len(),
        (given->Ok_0).len() == new.len() ==> received[k].message.message_id@ == (given->Ok_0)[i],
    ensures
        (given->Ok_0).len() == new.len(),
        received[k].message.data@ == new[i].payload,
        received[k].message.attributes@ == new[i].attributes,
        received[k].message.ordering_key@ == new[i].ordering_key,
        received[k].message.publish_time.seconds * 1000
            + received[k].message.publish_time.nanos as int / 1_000_000 == now_ms,
{
    let pull = service::pull_effect(then, name, size, later_ms);
    service_laws::law_success_is_stored::<K, Seq<PulledView>>(then, after, pull, pulled);
    lemma_pull_finds(then, name, size, later_ms);
    let sub = subscription::subscription_named(then.rows, name)->Ok_0;
    lemma_log_listed::<K>(
        before,
        then,
        topic_name,
        new,
        disk_bytes,
        now_ms,
        given,
        sub.topic_id,
    );
    lemma_wire(pulled->Ok_0, received, k);
    lemma_pulled(then, name, size, later_ms, k);
    lemma_same_message::<K>(
        before,
        then,
        topic_name,
        new,
        disk_bytes,
        now_ms,
        given,
        i,
        sub.id,
        sub.topic_id,
        (pulled->Ok_0)[k],
    );
}

/// A message that is published and then sent on a stream is received as it was published.
pub proof fn law_published_is_streamed<K: KvStore>(
    before: ServiceView,
    then: ServiceView,
    after: ServiceView,
    topic_name: Seq<char>,
    batch: Seq<PublishMessage>,
    disk_bytes: u64,
    now_ms: i64,
    ids: Result<Vec<String>, Error>,
    stream_id: u64,
    later_ms: i64,
    leased: Result<Seq<PulledView>, ErrorView>,
    step: SendStep,
    i: int,
    k: int,
)
    requires
        service::performed::<K, Seq<Seq<char>>>(
            before,
            then,
            service::publish_effect(
                before,
                topic_name,
                listing::views(batch),
                disk_bytes,
                now_ms,
            ),
            subscription::texts_result(ids),
        ),
        streaming::sent::<K>(then, after, stream_id, later_ms, leased, step),
        ids is Ok,
        step is Send,
        then.engine.sessions.contains_key(stream_id) ==> publishable(
            before.rows,
            topic_name,
            then.engine.sessions[stream_id].info.topic_id,
            batch.len(),
        ),
        0 <= i < batch.len(),
        0 <= k < step->Send_0@.len(),
        (ids->Ok_0)@.len() == batch.len() ==> step->Send_0@[k].message.message_id@ == (
        ids->Ok_0)@[i]@,
    ensures
        (ids->Ok_0)@.len() == batch.len(),
        ({
            let m = step->Send_0@[k].message;
            &&& m.data@ == batch[i].data@
            &&& m.attributes@ == batch[i].attributes@
            &&& m.ordering_key@ == batch[i].ordering_key@
            &&& m.publish_time.seconds * 1000 + m.publish_time.nanos as int / 1_000_000 == now_ms
        }),
{
    let new = listing::views(batch);
    let received = step->Send_0@;
    let given = subscription::texts_result(ids);
    let lease = service::stream_lease_effect(then, stream_id, later_ms);
    assert(new[i] == batch[i]@);
    assert(text::texts((ids->Ok_0)@).len() == (ids->Ok_0)@.len());
    if (ids->Ok_0)@.len() == batch.len() {
        assert(text::texts((ids->Ok_0)@)[i] == (ids->Ok_0)@[i]@);
    }
    service_laws::law_success_is_stored::<K, Seq<PulledView>>(then, after, lease, leased);
    lemma_wire(leased->Ok_0, received, k);
    lemma_stream_is_open(then, stream_id, later_ms);
    let info = then.engine.sessions[stream_id].info;
    lemma_log_listed::<K>(
        before,
        then,
        topic_name,
        new,
        disk_bytes,
        now_ms,
        given,
        info.topic_id,
    );
    lemma_leased(then, stream_id, later_ms, k);
    lemma_same_message::<K>(
        before,
        then,
        topic_name,
        new,
        disk_bytes,
        now_ms,
        given,
        i,
        info.sub_id,
        info.topic_id,
        (leased->Ok_0)[k],
    );
}

proof fn lemma_stream_is_open(s: ServiceView, stream_id: u64, now_ms: i64)
    requires
        service::stream_lease_effect(s, stream_id, now_ms).outcome is Ok,
    ensures
        s.engine.sessions.contains_key(stream_id),
{
}

/// What a REST client publishes: the data is what the Base64 text stands for, and the attributes and
/// the ordering key are those of the body.
proof fn lemma_decoded(body: Seq<handlers::PublishMessageBody>, n: int, i: int)
    requires
        0 <= i < n <= body.len(),
        handlers::decoded(body, n) is Ok,
    ensures
        (handlers::decoded(body, n)->Ok_0).len() == n,
        encoding::base64_decoded(body[i].data@) == Ok::<Seq<u8>, Seq<char>>(
            (handlers::decoded(body, n)->Ok_0)[i].payload,
        ),
        (handlers::decoded(body, n)->Ok_0)[i].attributes == body[i].attributes@,
        (handlers::decoded(body, n)->Ok_0)[i].ordering_key == body[i].ordering_key@,
    decreases n,
{
    if i < n - 1 {
        lemma_decoded(body, n - 1, i);
    } else if n > 1 {
        lemma_decoded(body, n - 1, 0);
    }
    reveal_with_fuel(handlers::decoded, 2);
}

/// A message that is published by REST and then pulled by REST is received as it was published.
pub proof fn law_published_is_received_by_rest<K: KvStore>(
    before: ServiceView,
    then: ServiceView,
    after: ServiceView,
    topic_name: Seq<char>,
    body: PublishBody,
    disk_bytes: u64,
    now_ms: i64,
    ids: Result<PublishResponseBody, Error>,
    name: Seq<char>,
    size: i32,
    later_ms: i64,
    r: Result<PullResponseBody, Error>,
    i: int,
    k: int,
)
    requires
        handlers::published::<K>(before, then, topic_name, body, disk_bytes, now_ms, ids),
        handlers::pulled::<K>(then, after, name, size, later_ms, r),
        ids is Ok,
        r is Ok,
        subscription::subscription_named(then.rows, name) matches Ok(sub) ==> publishable(
            before.rows,
            topic_name,
            sub.topic_id,
            body.messages@.len(),
        ),
        0 <= i < body.messages@.len(),
        0 <= k < r->Ok_0.received_messages@.len(),
        ids->Ok_0.message_ids@.len() == body.messages@.len()
            ==> r->Ok_0.received_messages@[k].message.message_id@ == ids->Ok_0.message_ids@[i]@,
    ensures
        ids->Ok_0.message_ids@.len() == body.messages@.len(),
        ({
            let m = r->Ok_0.received_messages@[k].message;
            &&& encoding::base64_decoded(body.messages@[i].data@) == Ok::<Seq<u8>, Seq<char>>(
                m.data@,
            )
            &&& m.attributes@ == body.messages@[i].attributes@
            &&& m.ordering_key@ == body.messages@[i].ordering_key@
            &&& m.publish_time.seconds * 1000 + m.publish_time.nanos as int / 1_000_000 == now_ms
        }),
{
    let all = body.messages@;
    let batch = handlers::decoded(all, all.len() as int)->Ok_0;
    lemma_decoded(all, all.len() as int, i);
    let pull = service::pull_effect(then, name, size, later_ms);
    let pulled = choose|outcome: Result<Seq<PulledView>, ErrorView>| #[trigger]
        service::performed::<K, Seq<PulledView>>(then, after, pull, outcome)
            && error::result_view(r) == handlers::shown(
            outcome,
            |m: Seq<PulledView>| messages::all_received(m),
        );
    assert(text::texts(ids->Ok_0.message_ids@).len() == ids->Ok_0.message_ids@.len());
    if ids->Ok_0.message_ids@.len() == all.len() {
        assert(text::texts(ids->Ok_0.message_ids@)[i] == ids->Ok_0.message_ids@[i]@);
    }
    lemma_received::<K>(
        before,
        then,
        after,
        topic_name,
        batch,
        disk_bytes,
        now_ms,
        error::result_view(ids),
        name,
        size,
        later_ms,
        pulled,
        r->Ok_0.received_messages@,
        i,
        k,
    );
}

proof fn lemma_all_first(
    sub_id: u64,
    taken: u64,
    tail: u64,
    batch: Seq<NewMessage>,
    now_ms: i64,
    expire_at_ms: i64,
    n: int,
    filter: Option<ExprView>,
    i: int,
)
    requires
        0 <= i < n <= batch.len(),
        tail + batch.len() <= u64::MAX,
        forall|j: int|
            0 <= j < batch.len() ==> (filter matches Some(e) ==> eval::satisfies(
                e,
                (#[trigger] batch[j]).attributes,
            )),
    ensures
        ({
            let out = service_laws::first_deliveries(
                filter,
                sub_id,
                taken,
                tail,
                batch,
                now_ms,
                expire_at_ms,
                n,
            );
            &&& out.len() == n
            &&& out[i].seq == tail + 1 + i
            &&& out[i].delivery_attempt == 1
            &&& out[i].message.payload == batch[i].payload
            &&& out[i].message.attributes == batch[i].attributes
            &&& out[i].message.ordering_key == batch[i].ordering_key
            &&& out[i].message.publish_ts_ms == now_ms
        }),
    decreases n,
{
    assert(filter matches Some(e) ==> eval::satisfies(e, batch[n - 1].attributes));
    reveal_with_fuel(service_laws::first_deliveries, 2);
    if i < n - 1 {
        lemma_all_first(
            sub_id,
            taken,
            tail,
            batch,
            now_ms,
            expire_at_ms,
            n - 1,
            filter,
            i,
        );
    } else if n > 1 {
        lemma_all_first(
            sub_id,
            taken,
            tail,
            batch,
            now_ms,
            expire_at_ms,
            n - 1,
            filter,
            0,
        );
    }
}

/// Every message reaches a subscription that has done all that was published before, and that wants
/// it: a pull right after the publication hands out all of them, in the order in which they were
/// published, each under the id that publishing returned, and as it was published. With a
/// dead-letter topic each is told to be delivered for the first time.
pub proof fn law_every_message_is_handed_out(
    s: ServiceView,
    topic_name: Seq<char>,
    batch: Seq<NewMessage>,
    disk_bytes: u64,
    now_ms: i64,
    subscription_name: Seq<char>,
    max_messages: i32,
    later_ms: i64,
    cursor: crate::store::codec::CursorView,
    i: int,
)
    requires
        ({
            let t = topic::topic_named(s.rows, topic_name);
            let sub = subscription::subscription_named(s.rows, subscription_name);
            let tail = topic::tail_of(s.rows, (t->Ok_0).id);
            &&& t is Ok
            &&& sub is Ok
            &&& (sub->Ok_0).topic_id == (t->Ok_0).id
            &&& service::detached_error(sub->Ok_0, subscription_name) is None
            &&& service::publish_effect(s, topic_name, batch, disk_bytes, now_ms).outcome is Ok
            &&& service_laws::well_kept_log(s.rows, (t->Ok_0).id)
            &&& tail + batch.len() <= u64::MAX
            &&& service_laws::caught_up(
                s.rows,
                s.engine.leases,
                (sub->Ok_0).id,
                cursor,
                tail,
            )
            &&& engine::filter_of(
                s.engine.filters,
                s.rows,
                (sub->Ok_0).id,
            ) matches Some(e) ==> forall|j: int|
                0 <= j < batch.len() ==> eval::satisfies(e, (#[trigger] batch[j]).attributes)
        }),
        1 <= max_messages <= 1000,
        batch.len() <= max_messages,
        0 <= i < batch.len(),
    ensures
        ({
            let sub = subscription::subscription_named(s.rows, subscription_name)->Ok_0;
            let publish = service::publish_effect(s, topic_name, batch, disk_bytes, now_ms);
            let then = service::resulting(s, publish);
            let pull = service::pull_effect(then, subscription_name, max_messages, later_ms);
            let m = (pull.outcome->Ok_0)[i];
            &&& pull.outcome is Ok
            &&& (pull.outcome->Ok_0).len() == batch.len()
            &&& (publish.outcome->Ok_0).len() == batch.len()
            &&& m.message_id == (publish.outcome->Ok_0)[i]
            &&& m.data == batch[i].payload
            &&& m.attributes == batch[i].attributes
            &&& m.ordering_key == batch[i].ordering_key
            &&& m.publish_time_ms == now_ms
            &&& m.delivery_attempt == if sub.dead_letter_topic is Some {
                1u32
            } else {
                0
            }
        }),
{
    service_laws::law_published_is_pulled(
        s,
        topic_name,
        subscription_name,
        batch,
        disk_bytes,
        now_ms,
        later_ms,
        max_messages,
        cursor,
    );
    let t = topic::topic_named(s.rows, topic_name)->Ok_0;
    let sub = subscription::subscription_named(s.rows, subscription_name)->Ok_0;
    lemma_all_first(
        sub.id,
        engine::leases_taken(s.rows),
        topic::tail_of(s.rows, t.id),
        batch,
        now_ms,
        topic::expiry(now_ms, engine::effective_retention(t.message_retention_secs)),
        batch.len() as int,
        engine::filter_of(s.engine.filters, s.rows, sub.id),
        i,
    );
}

} // verus!
