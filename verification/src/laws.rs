//! What holds across the operations of a service.

use crate::delivery::cursor;
use crate::delivery::engine;
use crate::delivery::engine::{DeliveredView, LeaseCall};
use crate::delivery::laws;
use crate::delivery::lease;
use crate::delivery::snapshot;
use crate::error::{Error, ErrorView};
use crate::filter::ast::ExprView;
use crate::name_index;
use crate::names;
use crate::service;
use crate::service::{Effect, ServiceView};
use crate::store::codec::CursorView;
use crate::store::keys;
use crate::store::keys::NameKind;
use crate::store::kv;
use crate::store::kv::{KvStore, Rows, Scan, ValueView, Write};
use crate::string_map::Entries;
use crate::subscription;
use crate::subscription::{OptionsView, SubscriptionView};
use crate::text;
use crate::topic;
use crate::topic::{NewMessage, TopicView};
use crate::topic_index;
use vstd::prelude::*;

verus! {

/// The log of a topic can be listed, and every message in it has a position that was counted.
pub open spec fn well_kept_log(rows: Rows, topic_id: u64) -> bool {
    &&& kv::has_scan(rows, "msg"@, keys::be64(topic_id))
    &&& forall|key: Seq<u8>| #[trigger]
        rows.contains_key(("msg"@, key)) && text::has_prefix(key, keys::be64(topic_id)) ==> {
            &&& keys::from_pair_key(key) is Some
            &&& (keys::from_pair_key(key)->0).1 <= topic::tail_of(rows, topic_id)
        }
}

/// The rows that publishing adds to a log.
pub open spec fn new_rows(
    topic_id: u64,
    tail: u64,
    messages: Seq<NewMessage>,
    now_ms: i64,
    expire_at_ms: i64,
    n: nat,
) -> Scan {
    Seq::new(
        n,
        |i: int|
            (
                keys::pair_key(topic_id, (tail + 1 + i) as u64),
                ValueView::Message(topic::stored_message(messages[i], now_ms, expire_at_ms)),
            ),
    )
}

/// Publishing appends: the log is what it was, followed by the new messages in order, each one
/// position further than the last, and the positions stay counted.
pub proof fn law_publishing_appends(
    rows: Rows,
    topic_id: u64,
    messages: Seq<NewMessage>,
    now_ms: i64,
    expire_at_ms: i64,
    n: int,
)
    requires
        well_kept_log(rows, topic_id),
        0 <= n <= messages.len(),
        topic::tail_of(rows, topic_id) + n <= u64::MAX,
    ensures
        ({
            let tail = topic::tail_of(rows, topic_id);
            let after = kv::after_writes(
                rows,
                topic::append_writes(topic_id, tail, messages, now_ms, expire_at_ms, n),
            );
            &&& topic::tail_of(after, topic_id) == tail + n
            &&& well_kept_log(after, topic_id)
            &&& kv::scan_of(after, "msg"@, keys::be64(topic_id)) == kv::scan_of(
                rows,
                "msg"@,
                keys::be64(topic_id),
            ) + new_rows(topic_id, tail, messages, now_ms, expire_at_ms, n as nat)
        }),
    decreases n,
{
    let tail = topic::tail_of(rows, topic_id);
    let prefix = keys::be64(topic_id);
    let log = kv::scan_of(rows, "msg"@, prefix);
    if n == 0 {
        assert(log + new_rows(topic_id, tail, messages, now_ms, expire_at_ms, 0) =~= log);
    } else {
        law_publishing_appends(rows, topic_id, messages, now_ms, expire_at_ms, n - 1);
        let writes = topic::append_writes(topic_id, tail, messages, now_ms, expire_at_ms, n - 1);
        let before = kv::after_writes(rows, writes);
        let seq = topic::batch_seq(tail, n - 1);
        let key = keys::pair_key(topic_id, seq);
        let counter_key = keys::topic_seq_counter_key_bytes(topic_id);
        let counter = Write::Put("meta"@, counter_key, ValueView::Bytes(keys::be64(seq)));
        let value = ValueView::Message(
            topic::stored_message(messages[n - 1], now_ms, expire_at_ms),
        );
        let put = Write::Put("msg"@, key, value);
        kv::law_keyspaces_differ();
        kv::lemma_after_push(rows, writes, counter);
        kv::lemma_after_push(rows, writes.push(counter), put);
        let counted = kv::after_write(before, counter);
        let after = kv::after_write(counted, put);
        assert(after == kv::after_writes(
            rows,
            topic::append_writes(topic_id, tail, messages, now_ms, expire_at_ms, n),
        ));
        assert forall|k: Seq<u8>| text::has_prefix(k, prefix) implies #[trigger] kv::fetch(
            before,
            "msg"@,
            k,
        ) == kv::fetch(counted, "msg"@, k) by {}
        kv::lemma_scan_same(before, counted, "msg"@, prefix);
        let scan = kv::scan_of(counted, "msg"@, prefix);
        assert forall|i: int| 0 <= i < scan.len() implies text::bytes_lt(
            (#[trigger] scan[i]).0,
            key,
        ) by {
            assert(before.contains_key(("msg"@, scan[i].0)));
            lemma_key_of_topic(scan[i].0, topic_id);
            let s = (keys::from_pair_key(scan[i].0)->0).1;
            keys::law_pair_key_order(topic_id, s, topic_id, seq);
        }
        keys::law_pair_key_round_trip(topic_id, seq, key);
        kv::lemma_scan_append(counted, "msg"@, prefix, key, value);
        keys::law_be64_round_trip(seq, keys::be64(seq));
        assert(kv::fetch(after, "meta"@, counter_key) == Some(
            ValueView::Bytes(keys::be64(seq)),
        ));
        assert(topic::tail_of(after, topic_id) == seq);
        assert forall|k: Seq<u8>| #[trigger]
            after.contains_key(("msg"@, k)) && text::has_prefix(k, prefix) implies {
            &&& keys::from_pair_key(k) is Some
            &&& (keys::from_pair_key(k)->0).1 <= seq
        } by {
            if k != key {
                assert(before.contains_key(("msg"@, k)));
            }
        }
        let old_rows = new_rows(
            topic_id,
            tail,
            messages,
            now_ms,
            expire_at_ms,
            (n - 1) as nat,
        );
        let all_rows = new_rows(topic_id, tail, messages, now_ms, expire_at_ms, n as nat);
        assert(all_rows =~= old_rows.push((key, value)));
        assert((log + old_rows).push((key, value)) =~= log + all_rows);
    }
}

proof fn lemma_key_of_topic(key: Seq<u8>, topic_id: u64)
    requires
        keys::from_pair_key(key) is Some,
        text::has_prefix(key, keys::be64(topic_id)),
    ensures
        key == keys::pair_key(topic_id, (keys::from_pair_key(key)->0).1),
{
    let (t, s) = keys::from_pair_key(key)->0;
    keys::law_pair_key_round_trip(t, s, key);
    keys::lemma_pair_key_prefix(key, topic_id);
}

/// Publishing touches nothing but the topic's counter and the messages of its log.
pub proof fn law_publishing_is_local(
    topic_id: u64,
    tail: u64,
    messages: Seq<NewMessage>,
    now_ms: i64,
    expire_at_ms: i64,
    n: int,
    keyspace: Seq<char>,
    key: Seq<u8>,
)
    requires
        0 <= n,
        keyspace != "msg"@,
        keyspace != "meta"@ || key != keys::topic_seq_counter_key_bytes(topic_id),
    ensures
        kv::spares(
            topic::append_writes(topic_id, tail, messages, now_ms, expire_at_ms, n),
            keyspace,
            key,
        ),
    decreases n,
{
    if n > 0 {
        law_publishing_is_local(
            topic_id,
            tail,
            messages,
            now_ms,
            expire_at_ms,
            n - 1,
            keyspace,
            key,
        );
    }
}

/// The first deliveries of those among the first `n` of some new messages that a filter wants, when
/// `taken` leases were taken before.
pub open spec fn first_deliveries(
    filter: Option<ExprView>,
    sub_id: u64,
    taken: u64,
    tail: u64,
    messages: Seq<NewMessage>,
    now_ms: i64,
    expire_at_ms: i64,
    n: int,
) -> Seq<DeliveredView>
    decreases n,
{
    if n <= 0 {
        Seq::empty()
    } else {
        let before = first_deliveries(
            filter,
            sub_id,
            taken,
            tail,
            messages,
            now_ms,
            expire_at_ms,
            n - 1,
        );
        if engine::wanted(filter, messages[n - 1].attributes) {
            let seq = (tail + n) as u64;
            let message = topic::stored_message(messages[n - 1], now_ms, expire_at_ms);
            let generation = laws::generation_after(taken, before.len() + 1);
            before.push(first_delivery(sub_id, seq, message, generation))
        } else {
            before
        }
    }
}

/// The first delivery of a message.
pub open spec fn first_delivery(
    sub_id: u64,
    seq: u64,
    message: crate::store::codec::MessageView,
    generation: u64,
) -> DeliveredView {
    DeliveredView {
        seq,
        ack_id: lease::ack_id_text(sub_id, seq, generation),
        message,
        delivery_attempt: 1,
        generation,
    }
}

/// A subscription has done exactly what its topic's log holds, and nothing beyond was ever
/// delivered to it.
pub open spec fn caught_up(
    rows: Rows,
    leases: lease::Leases,
    sub_id: u64,
    cursor: CursorView,
    tail: u64,
) -> bool {
    &&& engine::stored_cursor(rows, sub_id) == Ok::<_, ErrorView>(cursor)
    &&& forall|seq: u64| #[trigger] cursor::is_done(cursor, seq) <==> seq <= tail
    &&& forall|seq: u64|
        seq > tail ==> #[trigger] engine::earlier_delivery(rows, leases, sub_id, seq) is None
}

proof fn lemma_skips_old_rows(call: LeaseCall, log: Scan, n: int)
    requires
        0 <= n <= log.len(),
        forall|j: int|
            0 <= j < n ==> #[trigger] laws::seq_in(log, j) is Some && cursor::is_done(
                call.cursor,
                laws::seq_in(log, j)->0,
            ),
    ensures
        engine::leasing(call, log, n) == engine::leasing(call, log, 0),
    decreases n,
{
    if n > 0 {
        lemma_skips_old_rows(call, log, n - 1);
        assert(laws::seq_in(log, n - 1) is Some);
    }
}

proof fn lemma_fresh_row(
    call: LeaseCall,
    s: engine::Leasing,
    key: Seq<u8>,
    seq: u64,
    message: crate::store::codec::MessageView,
)
    requires
        keys::from_pair_key(key) is Some,
        (keys::from_pair_key(key)->0).1 == seq,
        s.failure is None,
        s.out.len() < call.max_messages,
        !cursor::is_done(s.cursor, seq),
        engine::earlier_delivery(
            kv::after_writes(call.rows, s.writes),
            s.leases,
            call.sub_id,
            seq,
        ) is None,
    ensures
        ({
            let after = engine::row_step(call, s, (key, ValueView::Message(message)));
            let taken = engine::leases_taken(kv::after_writes(call.rows, s.writes));
            &&& after.failure is None
            &&& after.out == if engine::wanted(call.filter, message.attributes) {
                s.out.push(first_delivery(call.sub_id, seq, message, topic::successor(taken)))
            } else {
                s.out
            }
        }),
{
}

/// Exactly the messages up to `tail` are done, and nothing beyond was ever delivered.
#[verifier::opaque]
spec fn open_above(call: LeaseCall, tail: u64) -> bool {
    &&& forall|seq: u64| #[trigger] cursor::is_done(call.cursor, seq) <==> seq <= tail
    &&& forall|seq: u64|
        seq > tail ==> #[trigger] engine::earlier_delivery(
            call.rows,
            call.leases,
            call.sub_id,
            seq,
        ) is None
}

#[verifier::opaque]
spec fn progress(call: LeaseCall, log: Scan, n: int) -> engine::Leasing {
    engine::leasing(call, log, n)
}

proof fn lemma_new_row(
    call: LeaseCall,
    log: Scan,
    j: int,
    tail: u64,
    topic_id: u64,
    seq: u64,
    message: crate::store::codec::MessageView,
)
    requires
        laws::is_log(log),
        0 <= j < log.len(),
        open_above(call, tail),
        seq > tail,
        log[j] == (keys::pair_key(topic_id, seq), ValueView::Message(message)),
        progress(call, log, j).failure is None,
        progress(call, log, j).out.len() < call.max_messages,
    ensures
        ({
            let before = progress(call, log, j);
            let after = progress(call, log, j + 1);
            let taken = engine::leases_taken(call.rows);
            &&& after.failure is None
            &&& after.out == if engine::wanted(call.filter, message.attributes) {
                before.out.push(
                    first_delivery(
                        call.sub_id,
                        seq,
                        message,
                        laws::generation_after(taken, before.out.len() + 1),
                    ),
                )
            } else {
                before.out
            }
        }),
{
    reveal(open_above);
    reveal(progress);
    keys::law_pair_key_round_trip(topic_id, seq, log[j].0);
    assert(laws::seq_in(log, j) == Some(seq));
    laws::lemma_row(call, log, j);
    laws::lemma_generations(call, log, j);
    let s = progress(call, log, j);
    assert(engine::earlier_delivery(call.rows, call.leases, call.sub_id, seq) is None);
    assert(!cursor::is_done(call.cursor, seq));
    lemma_fresh_row(call, s, log[j].0, seq, message);
}

proof fn lemma_delivers_new_rows(
    call: LeaseCall,
    log: Scan,
    old_len: int,
    topic_id: u64,
    tail: u64,
    messages: Seq<NewMessage>,
    now_ms: i64,
    expire_at_ms: i64,
    n: int,
)
    requires
        laws::is_log(log),
        0 <= old_len <= log.len(),
        0 <= n <= messages.len(),
        tail + messages.len() <= u64::MAX,
        log.skip(old_len) == new_rows(
            topic_id,
            tail,
            messages,
            now_ms,
            expire_at_ms,
            messages.len(),
        ),
        progress(call, log, old_len).failure is None,
        progress(call, log, old_len).out.len() == 0,
        messages.len() <= call.max_messages,
        open_above(call, tail),
    ensures
        progress(call, log, old_len + n).failure is None,
        progress(call, log, old_len + n).out == first_deliveries(
            call.filter,
            call.sub_id,
            engine::leases_taken(call.rows),
            tail,
            messages,
            now_ms,
            expire_at_ms,
            n,
        ),
        progress(call, log, old_len + n).out.len() <= n,
    decreases n,
{
    if n > 0 {
        lemma_delivers_new_rows(
            call,
            log,
            old_len,
            topic_id,
            tail,
            messages,
            now_ms,
            expire_at_ms,
            n - 1,
        );
        let j = old_len + n - 1;
        let seq = (tail + n) as u64;
        let message = topic::stored_message(messages[n - 1], now_ms, expire_at_ms);
        assert(log.skip(old_len).len() == messages.len());
        assert(log[j] == log.skip(old_len)[n - 1]);
        assert(log[j] == (keys::pair_key(topic_id, seq), ValueView::Message(message)));
        lemma_new_row(call, log, j, tail, topic_id, seq, message);
    }
}

/// What a read gives back of a write: a subscription that has caught up is handed, by the next
/// request that asks for enough, exactly the messages published since that its filter wants: in
/// order, with their bodies, attributes and ordering keys, their time, the ids that publishing
/// returned, and as first deliveries.
pub proof fn law_published_is_pulled(
    s: ServiceView,
    topic_name: Seq<char>,
    subscription_name: Seq<char>,
    messages: Seq<NewMessage>,
    disk_bytes: u64,
    now_ms: i64,
    later_ms: i64,
    max_messages: i32,
    cursor: CursorView,
)
    requires
        ({
            let t = topic::topic_named(s.rows, topic_name);
            let sub = subscription::subscription_named(s.rows, subscription_name);
            let tail = topic::tail_of(s.rows, (t->Ok_0).id);
            &&& t is Ok
            &&& sub is Ok
            &&& (sub->Ok_0).topic_id == (t->Ok_0).id
            &&& service::detached_error(sub->Ok_0, subscription_name) is None
            &&& service::publish_effect(s, topic_name, messages, disk_bytes, now_ms).outcome is Ok
            &&& well_kept_log(s.rows, (t->Ok_0).id)
            &&& tail + messages.len() <= u64::MAX
            &&& caught_up(s.rows, s.engine.leases, (sub->Ok_0).id, cursor, tail)
        }),
        1 <= max_messages <= 1000,
        messages.len() <= max_messages,
    ensures
        ({
            let t = topic::topic_named(s.rows, topic_name)->Ok_0;
            let sub = subscription::subscription_named(s.rows, subscription_name)->Ok_0;
            let tail = topic::tail_of(s.rows, t.id);
            let published = service::publish_effect(
                s,
                topic_name,
                messages,
                disk_bytes,
                now_ms,
            );
            let then = service::resulting(s, published);
            let pull = service::pull_effect(then, subscription_name, max_messages, later_ms);
            &&& published.outcome == Ok::<_, ErrorView>(
                service::ids_text(
                    Seq::new(messages.len(), |i: int| (tail + 1 + i) as u64),
                ),
            )
            &&& pull.outcome == Ok::<_, ErrorView>(
                service::pulled(
                    first_deliveries(
                        engine::filter_of(s.engine.filters, s.rows, sub.id),
                        sub.id,
                        engine::leases_taken(s.rows),
                        tail,
                        messages,
                        now_ms,
                        topic::expiry(
                            now_ms,
                            engine::effective_retention(t.message_retention_secs),
                        ),
                        messages.len() as int,
                    ),
                    sub.dead_letter_topic is Some,
                ),
            )
        }),
{
    let t = topic::topic_named(s.rows, topic_name)->Ok_0;
    let sub = subscription::subscription_named(s.rows, subscription_name)->Ok_0;
    let tail = topic::tail_of(s.rows, t.id);
    let n = messages.len() as int;
    let expire_at_ms = topic::expiry(
        now_ms,
        engine::effective_retention(t.message_retention_secs),
    );
    let published = service::publish_effect(s, topic_name, messages, disk_bytes, now_ms);
    let writes = published.writes;
    let rows = kv::after_writes(s.rows, writes);
    let then = ServiceView { rows, engine: published.engine, ..s };
    assert(topic::batch_seqs(tail, messages.len()) =~= Seq::new(
        messages.len(),
        |i: int| (tail + 1 + i) as u64,
    ));
    law_publishing_appends(s.rows, t.id, messages, now_ms, expire_at_ms, n);
    let log = kv::scan_of(rows, "msg"@, keys::be64(t.id));
    let old_log = kv::scan_of(s.rows, "msg"@, keys::be64(t.id));
    kv::law_keyspaces_differ();
    let name_key = keys::name_key_bytes(NameKind::Subscription, subscription_name);
    keys::law_kinds_of_keys_differ(t.id, t.id, NameKind::Subscription, subscription_name);
    keys::law_kinds_of_keys_differ(sub_row_id(s.rows, subscription_name), t.id, NameKind::Topic, Seq::empty());
    keys::law_kinds_of_keys_differ(sub.id, t.id, NameKind::Topic, Seq::empty());
    lemma_publish_spares(s.rows, t.id, tail, messages, now_ms, expire_at_ms, "meta"@, name_key);
    lemma_publish_spares(
        s.rows,
        t.id,
        tail,
        messages,
        now_ms,
        expire_at_ms,
        "meta"@,
        keys::lease_seq_key_bytes(),
    );
    lemma_publish_spares(
        s.rows,
        t.id,
        tail,
        messages,
        now_ms,
        expire_at_ms,
        "meta"@,
        keys::sub_key_bytes(sub_row_id(s.rows, subscription_name)),
    );
    lemma_publish_spares(
        s.rows,
        t.id,
        tail,
        messages,
        now_ms,
        expire_at_ms,
        "meta"@,
        keys::sub_key_bytes(sub.id),
    );
    lemma_publish_spares(
        s.rows,
        t.id,
        tail,
        messages,
        now_ms,
        expire_at_ms,
        "sub"@,
        keys::be64(sub.id),
    );
    assert(subscription::subscription_named(rows, subscription_name) == Ok::<_, ErrorView>(sub));
    let call = engine::lease_call(
        rows,
        then.engine,
        cursor,
        sub.id,
        max_messages,
        later_ms,
        sub.ack_deadline_secs,
    );
    assert forall|seq: u64| seq > tail implies #[trigger] engine::earlier_delivery(
        rows,
        call.leases,
        sub.id,
        seq,
    ) is None by {
        lemma_publish_spares(
            s.rows,
            t.id,
            tail,
            messages,
            now_ms,
            expire_at_ms,
            "dlv"@,
            keys::pair_key(sub.id, seq),
        );
        assert(engine::earlier_delivery(s.rows, s.engine.leases, sub.id, seq) is None);
    }
    laws::law_scan_of_topic_is_log(rows, t.id);
    assert(log.take(old_log.len() as int) =~= old_log);
    assert forall|j: int| 0 <= j < old_log.len() implies #[trigger] laws::seq_in(log, j) is Some
        && cursor::is_done(cursor, laws::seq_in(log, j)->0) by {
        assert(log[j] == old_log[j]);
        assert(s.rows.contains_key(("msg"@, old_log[j].0)));
        assert(cursor::is_done(cursor, laws::seq_in(log, j)->0));
    }
    lemma_skips_old_rows(call, log, old_log.len() as int);
    reveal(open_above);
    reveal(progress);
    assert(log.skip(old_log.len() as int) =~= new_rows(
        t.id,
        tail,
        messages,
        now_ms,
        expire_at_ms,
        messages.len(),
    ));
    lemma_delivers_new_rows(
        call,
        log,
        old_log.len() as int,
        t.id,
        tail,
        messages,
        now_ms,
        expire_at_ms,
        n,
    );
}

spec fn sub_row_id(rows: Rows, name: Seq<char>) -> u64 {
    match kv::fetch(rows, "meta"@, keys::name_key_bytes(NameKind::Subscription, name)) {
        Some(v) => match subscription::id_in(v, name) {
            Ok(id) => id,
            Err(_) => 0,
        },
        None => 0,
    }
}

proof fn lemma_publish_spares(
    rows: Rows,
    topic_id: u64,
    tail: u64,
    messages: Seq<NewMessage>,
    now_ms: i64,
    expire_at_ms: i64,
    keyspace: Seq<char>,
    key: Seq<u8>,
)
    requires
        keyspace != "msg"@,
        keyspace != "meta"@ || key != keys::topic_seq_counter_key_bytes(topic_id),
    ensures
        ({
            let n = messages.len() as int;
            let writes = topic::append_writes(topic_id, tail, messages, now_ms, expire_at_ms, n);
            kv::fetch(kv::after_writes(rows, writes), keyspace, key) == kv::fetch(
                rows,
                keyspace,
                key,
            )
        }),
{
    let n = messages.len() as int;
    law_publishing_is_local(
        topic_id,
        tail,
        messages,
        now_ms,
        expire_at_ms,
        n,
        keyspace,
        key,
    );
    kv::law_spared_row_stays(
        rows,
        topic::append_writes(topic_id, tail, messages, now_ms, expire_at_ms, n),
        keyspace,
        key,
    );
}

/// A subscription is stored under the id and the name that its record holds.
pub open spec fn well_kept_subscription(rows: Rows, name: Seq<char>) -> bool {
    &&& subscription::subscription_named(rows, name) matches Ok(sub)
    &&& sub.name == name
    &&& kv::fetch(rows, "meta"@, keys::name_key_bytes(NameKind::Subscription, name)) == Some(
        ValueView::Bytes(keys::be64(sub.id)),
    )
}

/// A request for messages changes no row of `meta` but counters, and no cursor.
pub(crate) proof fn lemma_leasing_spares(call: LeaseCall, log: Scan, n: int, key: Seq<u8>, other: Seq<u8>)
    requires
        0 <= n <= log.len(),
        forall|topic_id: u64| #[trigger] keys::topic_seq_counter_key_bytes(topic_id) != key,
        keys::lease_seq_key_bytes() != key,
    ensures
        kv::spares(engine::leasing(call, log, n).writes, "meta"@, key),
        kv::spares(engine::leasing(call, log, n).writes, "sub"@, other),
    decreases n,
{
    if n > 0 {
        lemma_leasing_spares(call, log, n - 1, key, other);
        let before = engine::leasing(call, log, n - 1);
        let after = engine::leasing(call, log, n);
        kv::law_keyspaces_differ();
        if after.writes != before.writes {
            let rows = kv::after_writes(call.rows, before.writes);
            let seq = (keys::from_pair_key(log[n - 1].0)->0).1;
            let message = log[n - 1].1->Message_0;
            let step = engine::message_step(
                rows,
                before.leases,
                before.cursor,
                call.filter,
                call.sub_id,
                seq,
                message,
                call.now_ms,
                call.ack_deadline_secs,
            );
            laws::lemma_changes_of_step(
                rows,
                before.leases,
                before.cursor,
                call.filter,
                call.sub_id,
                seq,
                message,
                call.now_ms,
                call.ack_deadline_secs,
            );
            assert forall|i: int| 0 <= i < step.writes.len() implies {
                let write = #[trigger] step.writes[i];
                &&& !kv::concerns(write, "meta"@, key)
                &&& !kv::concerns(write, "sub"@, other)
            } by {
                assert(laws::is_change(step.writes[i], call.sub_id, seq));
            }
            assert(after.writes == before.writes + step.writes);
        }
    }
}

/// A well-kept subscription is still there, and well kept, after a note of its last use.
proof fn lemma_touch_keeps(rows: Rows, name: Seq<char>, now_ms: i64)
    requires
        well_kept_subscription(rows, name),
    ensures
        ({
            let sub = subscription::subscription_named(rows, name)->Ok_0;
            let touch = subscription::touch_writes(rows, sub.id, now_ms);
            let now = kv::after_writes(rows, touch);
            &&& well_kept_subscription(now, name)
            &&& subscription::subscription_named(now, name) == Ok::<_, ErrorView>(
                SubscriptionView { last_activity_ts_ms: now_ms, ..sub },
            )
        }),
{
    let sub = subscription::subscription_named(rows, name)->Ok_0;
    let touch = subscription::touch_writes(rows, sub.id, now_ms);
    let name_key = keys::name_key_bytes(NameKind::Subscription, name);
    keys::law_be64_round_trip(sub.id, Seq::empty());
    keys::law_kinds_of_keys_differ(sub.id, sub.id, NameKind::Subscription, name);
    kv::law_keyspaces_differ();
    assert(subscription::stored_subscription(rows, sub.id, name) == Ok::<_, ErrorView>(sub));
    assert(touch == subscription::persist_writes(
        SubscriptionView { last_activity_ts_ms: now_ms, ..sub },
    ));
    assert(touch.len() == 2);
    kv::law_last_write_is_read(rows, touch, 0, "meta"@, keys::sub_key_bytes(sub.id));
    kv::law_last_write_is_read(rows, touch, 1, "meta"@, name_key);
}

/// What a request for messages leaves of the subscription: its record, and a cursor.
proof fn lemma_leasing_keeps(call: LeaseCall, log: Scan, name: Seq<char>)
    requires
        well_kept_subscription(call.rows, name),
        call.sub_id == (subscription::subscription_named(call.rows, name)->Ok_0).id,
        engine::stored_cursor(call.rows, call.sub_id) is Ok,
    ensures
        ({
            let rows = kv::after_writes(call.rows, engine::lease_writes(call, log));
            &&& well_kept_subscription(rows, name)
            &&& subscription::subscription_named(rows, name) == subscription::subscription_named(
                call.rows,
                name,
            )
            &&& engine::stored_cursor(rows, call.sub_id) is Ok
        }),
{
    let sub_id = call.sub_id;
    let end = engine::leasing(call, log, log.len() as int);
    let writes = engine::lease_writes(call, log);
    let name_key = keys::name_key_bytes(NameKind::Subscription, name);
    let sub_key = keys::sub_key_bytes(sub_id);
    let own = keys::be64(sub_id);
    kv::law_keyspaces_differ();
    keys::law_be64_round_trip(sub_id, Seq::empty());
    assert forall|topic_id: u64|
        #[trigger] keys::topic_seq_counter_key_bytes(topic_id) != name_key
            && keys::topic_seq_counter_key_bytes(topic_id) != sub_key by {
        keys::law_kinds_of_keys_differ(topic_id, topic_id, NameKind::Subscription, name);
        keys::law_kinds_of_keys_differ(sub_id, topic_id, NameKind::Subscription, name);
    }
    keys::law_kinds_of_keys_differ(sub_id, sub_id, NameKind::Subscription, name);
    lemma_leasing_spares(call, log, log.len() as int, name_key, own);
    lemma_leasing_spares(call, log, log.len() as int, sub_key, own);
    assert(kv::spares(writes, "meta"@, name_key));
    assert(kv::spares(writes, "meta"@, sub_key));
    kv::law_spared_row_stays(call.rows, writes, "meta"@, name_key);
    kv::law_spared_row_stays(call.rows, writes, "meta"@, sub_key);
    if writes != end.writes {
        assert(writes.skip(writes.len() as int) =~= Seq::<Write>::empty());
        kv::law_last_write_is_read(call.rows, writes, writes.len() - 1, "sub"@, own);
    } else {
        kv::law_spared_row_stays(call.rows, writes, "sub"@, own);
    }
}

/// A note of the last use leaves all cursors as they are.
proof fn lemma_touch_spares_cursors(rows: Rows, sub_id: u64, now_ms: i64, other: u64)
    ensures
        engine::stored_cursor(
            kv::after_writes(rows, subscription::touch_writes(rows, sub_id, now_ms)),
            other,
        ) == engine::stored_cursor(rows, other),
{
    kv::law_keyspaces_differ();
    let touch = subscription::touch_writes(rows, sub_id, now_ms);
    assert(kv::spares(touch, "sub"@, keys::be64(other)));
    kv::law_spared_row_stays(rows, touch, "sub"@, keys::be64(other));
}

/// Pulling leaves the subscription in its place.
pub proof fn law_pulling_keeps_the_subscription(
    s: ServiceView,
    name: Seq<char>,
    max_messages: i32,
    now_ms: i64,
)
    requires
        well_kept_subscription(s.rows, name),
        max_messages > 0,
        service::pull_effect(s, name, max_messages, now_ms).outcome is Ok,
    ensures
        ({
            let sub = subscription::subscription_named(s.rows, name)->Ok_0;
            let pull = service::pull_effect(s, name, max_messages, now_ms);
            let rows = service::resulting(s, pull).rows;
            &&& well_kept_subscription(rows, name)
            &&& subscription::subscription_named(rows, name) == Ok::<_, ErrorView>(
                SubscriptionView { last_activity_ts_ms: now_ms, ..sub },
            )
            &&& engine::stored_cursor(rows, sub.id) is Ok
        }),
{
    let sub = subscription::subscription_named(s.rows, name)->Ok_0;
    let call = engine::lease_call(
        s.rows,
        s.engine,
        engine::stored_cursor(s.rows, sub.id)->Ok_0,
        sub.id,
        max_messages,
        now_ms,
        sub.ack_deadline_secs,
    );
    let log = kv::scan_of(s.rows, "msg"@, keys::be64(sub.topic_id));
    let leased = engine::lease_writes(call, log);
    let rows = kv::after_writes(s.rows, leased);
    lemma_leasing_keeps(call, log, name);
    lemma_touch_keeps(rows, name, now_ms);
    lemma_touch_spares_cursors(rows, sub.id, now_ms, sub.id);
}

/// A pulled message can be acknowledged: the acknowledgement succeeds, and then the message is done
/// and its lease has ended.
pub proof fn law_pulled_is_acknowledged(
    s: ServiceView,
    name: Seq<char>,
    max_messages: i32,
    now_ms: i64,
    later_ms: i64,
    j: int,
    ack_ids: Seq<Seq<char>>,
    i: int,
)
    requires
        well_kept_subscription(s.rows, name),
        max_messages > 0,
        ({
            let sub = subscription::subscription_named(s.rows, name)->Ok_0;
            let pull = service::pull_effect(s, name, max_messages, now_ms);
            &&& pull.outcome matches Ok(messages)
            &&& lease::filed_by_key(pull.engine.leases)
            &&& service::pulled_are_out(pull.engine.leases, sub.id, messages)
            &&& 0 <= j < messages.len()
            &&& 0 <= i < ack_ids.len()
            &&& ack_ids[i] == messages[j].ack_id
        }),
    ensures
        ({
            let sub = subscription::subscription_named(s.rows, name)->Ok_0;
            let pull = service::pull_effect(s, name, max_messages, now_ms);
            let l = lease::lease_named_by(
                pull.engine.leases,
                lease::ack_id_parts(ack_ids[i]),
            )->Applied_0;
            let pulled = service::resulting(s, pull);
            let ack = service::acknowledge_effect(pulled, name, ack_ids, later_ms);
            let cursor = engine::stored_cursor(service::resulting(pulled, ack).rows, sub.id);
            &&& text::dec(l.seq as nat) == pull.outcome->Ok_0[j].message_id
            &&& ack.outcome is Ok
            &&& cursor is Ok
            &&& cursor::is_done(cursor->Ok_0, l.seq)
            &&& !ack.engine.leases.contains_key((sub.id, l.seq))
        }),
{
    let sub = subscription::subscription_named(s.rows, name)->Ok_0;
    let pull = service::pull_effect(s, name, max_messages, now_ms);
    let messages = pull.outcome->Ok_0;
    let rows = service::resulting(s, pull).rows;
    law_pulling_keeps_the_subscription(s, name, max_messages, now_ms);
    lemma_acknowledges(
        rows,
        pull.engine.leases,
        sub.id,
        ack_ids,
        i,
        messages[j].message_id,
        later_ms,
    );
}

proof fn lemma_acknowledges(
    rows: Rows,
    leases: lease::Leases,
    sub_id: u64,
    ack_ids: Seq<Seq<char>>,
    i: int,
    message_id: Seq<char>,
    now_ms: i64,
)
    requires
        lease::filed_by_key(leases),
        engine::stored_cursor(rows, sub_id) is Ok,
        0 <= i < ack_ids.len(),
        service::names_message(leases, sub_id, ack_ids[i], message_id),
    ensures
        ({
            let l = lease::lease_named_by(leases, lease::ack_id_parts(ack_ids[i]))->Applied_0;
            let end = engine::ack_end(rows, leases, sub_id, ack_ids);
            let acked = kv::after_writes(rows, end.writes);
            let note = service::note_of_use(rows, end.writes, sub_id, now_ms);
            let cursor = engine::stored_cursor(kv::after_writes(acked, note), sub_id);
            &&& text::dec(l.seq as nat) == message_id
            &&& end.outcome is Ok
            &&& cursor is Ok
            &&& cursor::is_done(cursor->Ok_0, l.seq)
            &&& !end.leases.contains_key((sub_id, l.seq))
        }),
{
    let l = lease::lease_named_by(leases, lease::ack_id_parts(ack_ids[i]))->Applied_0;
    let k = (sub_id, l.seq);
    assert(leases.contains_key(k) && leases[k] == l);
    assert(laws::acked(leases, ack_ids, ack_ids.len() as int, k));
    laws::law_acknowledged_is_done(rows, leases, sub_id, ack_ids, k, l.seq);
    let end = engine::ack_end(rows, leases, sub_id, ack_ids);
    let after = kv::after_writes(rows, end.writes);
    lemma_touch_spares_cursors(after, sub_id, now_ms, sub_id);
}

/// A topic that was created is found under its name, and the name is taken.
pub proof fn law_created_topic_is_found(
    rows: Rows,
    name: Seq<char>,
    labels: Entries,
    retention_secs: Option<i64>,
    kms_key_name: Option<Seq<char>>,
)
    requires
        topic::create_error(rows, name, retention_secs, false, false) is None,
    ensures
        ({
            let new = topic::new_topic(rows, name, labels, retention_secs, kms_key_name);
            let after = kv::after_writes(rows, topic::create_writes(new));
            &&& topic::topic_named(after, name) == Ok::<_, ErrorView>(new)
            &&& topic::create_error(after, name, retention_secs, false, false) == Some(
                ErrorView::AlreadyExists { resource: name },
            )
        }),
{
    let new = topic::new_topic(rows, name, labels, retention_secs, kms_key_name);
    let writes = topic::create_writes(new);
    let name_key = keys::name_key_bytes(NameKind::Topic, name);
    keys::law_kinds_of_keys_differ(new.id, new.id, NameKind::Topic, name);
    keys::law_be64_round_trip(new.id, keys::be64(new.id));
    assert(writes.skip(3) =~= Seq::<Write>::empty());
    kv::law_last_write_is_read(rows, writes, 2, "meta"@, name_key);
    kv::law_last_write_is_read(rows, writes, 1, "meta"@, keys::topic_key_bytes(new.id));
}

/// A topic that was deleted is not found under its name.
pub proof fn law_deleted_topic_is_gone(rows: Rows, name: Seq<char>, id: u64)
    requires
        topic::topic_id_of(rows, name) == Ok::<_, ErrorView>(id),
    ensures
        topic::topic_named(kv::after_writes(rows, topic::delete_writes(id, name)), name) == Err::<
            TopicView,
            _,
        >(ErrorView::NotFound { resource: name }),
{
    let writes = topic::delete_writes(id, name);
    assert(writes.skip(2) =~= Seq::<Write>::empty());
    kv::law_last_write_is_read(
        rows,
        writes,
        1,
        "meta"@,
        keys::name_key_bytes(NameKind::Topic, name),
    );
}

/// A subscription that was created is found under its name, stands behind everything published
/// before, and nothing published before is open.
pub proof fn law_created_subscription_is_found(
    rows: Rows,
    name: Seq<char>,
    topic_name: Seq<char>,
    topic_id: u64,
    attach_seq: u64,
    now_ms: i64,
    opts: OptionsView,
)
    requires
        subscription::create_error(rows, name, topic_name, opts) is None,
    ensures
        ({
            let new = subscription::new_subscription(
                rows,
                name,
                topic_name,
                topic_id,
                now_ms,
                opts,
            );
            let after = kv::after_writes(rows, subscription::create_writes(new, attach_seq));
            let cursor = subscription::new_cursor(attach_seq);
            &&& subscription::subscription_named(after, name) == Ok::<_, ErrorView>(new)
            &&& well_kept_subscription(after, name)
            &&& engine::stored_cursor(after, new.id) == Ok::<_, ErrorView>(cursor)
            &&& forall|seq: u64| #[trigger] cursor::is_done(cursor, seq) <==> seq <= attach_seq
        }),
{
    let new = subscription::new_subscription(rows, name, topic_name, topic_id, now_ms, opts);
    let writes = subscription::create_writes(new, attach_seq);
    kv::law_keyspaces_differ();
    keys::law_kinds_of_keys_differ(new.id, new.id, NameKind::Subscription, name);
    keys::law_be64_round_trip(new.id, keys::be64(new.id));
    let name_key = keys::name_key_bytes(NameKind::Subscription, name);
    assert(writes.len() == 5);
    kv::law_last_write_is_read(rows, writes, 1, "meta"@, keys::sub_key_bytes(new.id));
    kv::law_last_write_is_read(rows, writes, 2, "meta"@, name_key);
    kv::law_last_write_is_read(rows, writes, 3, "sub"@, keys::be64(new.id));
}

/// A new subscription has caught up with its topic, so that it is handed what is published from then
/// on, and nothing else. Its id is new: nothing was delivered under it before.
pub proof fn law_new_subscription_is_caught_up(
    s: ServiceView,
    name: Seq<char>,
    topic_name: Seq<char>,
    opts: OptionsView,
    now_ms: i64,
)
    requires
        ({
            let created = service::create_subscription_effect(s, name, topic_name, opts, now_ms);
            &&& created.outcome matches Ok(new)
            &&& forall|seq: u64| #[trigger]
                engine::earlier_delivery(s.rows, s.engine.leases, new.id, seq) is None
        }),
    ensures
        ({
            let created = service::create_subscription_effect(s, name, topic_name, opts, now_ms);
            let new = created.outcome->Ok_0;
            let tail = topic::tail_of(s.rows, new.topic_id);
            let rows = kv::after_writes(s.rows, created.writes);
            &&& well_kept_subscription(rows, name)
            &&& topic::tail_of(rows, new.topic_id) == tail
            &&& caught_up(
                rows,
                created.engine.leases,
                new.id,
                subscription::new_cursor(tail),
                tail,
            )
        }),
{
    let created = service::create_subscription_effect(s, name, topic_name, opts, now_ms);
    let new = created.outcome->Ok_0;
    let tail = topic::tail_of(s.rows, new.topic_id);
    let rows = kv::after_writes(s.rows, created.writes);
    law_created_subscription_is_found(
        s.rows,
        name,
        topic_name,
        new.topic_id,
        tail,
        now_ms,
        opts,
    );
    kv::law_keyspaces_differ();
    keys::law_kinds_of_keys_differ(new.id, new.topic_id, NameKind::Subscription, name);
    keys::law_kinds_of_keys_differ(new.topic_id, new.id, NameKind::Subscription, name);
    let counter_key = keys::topic_seq_counter_key_bytes(new.topic_id);
    assert(created.writes.len() == 5);
    kv::law_spared_row_stays(s.rows, created.writes, "meta"@, counter_key);
    assert forall|seq: u64| #[trigger]
        engine::earlier_delivery(rows, created.engine.leases, new.id, seq) is None by {
        kv::law_spared_row_stays(
            s.rows,
            created.writes,
            "dlv"@,
            keys::pair_key(new.id, seq),
        );
        assert(engine::earlier_delivery(s.rows, s.engine.leases, new.id, seq) is None);
    }
}

/// The rows of a subscription: its record, its name's id, its cursor, and the row that leads to it
/// from its topic.
pub open spec fn subscription_rows(s: SubscriptionView) -> Set<(Seq<char>, Seq<u8>)> {
    set![
        ("meta"@, keys::sub_key_bytes(s.id)),
        ("meta"@, keys::name_key_bytes(NameKind::Subscription, s.name)),
        ("sub"@, keys::be64(s.id)),
        ("idx"@, keys::pair_key(s.topic_id, s.id)),
    ]
}

/// Deleting a subscription removes it and nothing else. Once that has succeeded, it is found neither
/// under its name nor under its id, its topic does not list it, its cursor is gone, and every row of
/// anything else is as it was; deleting it again finds nothing and changes nothing. Deleting what
/// is not there finds nothing and changes nothing, and deleting what is there succeeds where writes
/// do.
pub proof fn law_deleted_subscription_is_gone<K: KvStore>(
    rows: Rows,
    name: Seq<char>,
    after: Rows,
    r: Result<(), Error>,
    last: Rows,
    again: Result<(), Error>,
    resource: Seq<char>,
)
    requires
        name_index::well_kept(rows),
        topic_index::agrees(rows),
        subscription::deleted::<K>(rows, after, name, r),
        subscription::deleted::<K>(after, last, name, again),
    ensures
        r is Ok ==> {
            let found = subscription::subscription_named(rows, name)->Ok_0;
            &&& subscription::subscription_named(rows, name) is Ok
            &&& found.name == name
            &&& subscription::subscription_named(after, name) == Err::<SubscriptionView, _>(
                ErrorView::NotFound { resource: name },
            )
            &&& subscription::stored_subscription(after, found.id, resource) == Err::<
                SubscriptionView,
                _,
            >(ErrorView::NotFound { resource })
            &&& kv::has_scan(after, "idx"@, keys::be64(found.topic_id))
                ==> !subscription::attached_ids(after, found.topic_id).contains(found.id)
            &&& engine::stored_cursor(after, found.id) == Err::<CursorView, _>(
                ErrorView::NotFound {
                    resource: "subscription cursor for id "@ + text::dec(found.id as nat),
                },
            )
            &&& after == rows.remove_keys(subscription_rows(found))
            &&& again is Err
            &&& again->Err_0@ == (ErrorView::NotFound { resource: name })
            &&& last == after
        },
        !name_index::is_named(rows, NameKind::Subscription, name) ==> {
            &&& r is Err
            &&& r->Err_0@ == (ErrorView::NotFound { resource: name })
            &&& after == rows
        },
        name_index::is_named(rows, NameKind::Subscription, name) && K::reliable() ==> r is Ok,
{
    name_index::law_found_has_the_name(rows, name);
    if r is Ok {
        let found = subscription::subscription_named(rows, name)->Ok_0;
        let writes = subscription::delete_writes(found);
        kv::law_keyspaces_differ();
        assert(writes.len() == 4);
        topic_index::law_deleting_a_subscription_keeps_agreement(rows, name);
        if kv::has_scan(after, "idx"@, keys::be64(found.topic_id)) {
            topic_index::law_listed_subscriptions_belong(after, found.topic_id, found.id);
        }
        kv::law_last_write_is_read(
            rows,
            writes,
            1,
            "meta"@,
            keys::name_key_bytes(NameKind::Subscription, name),
        );
        keys::law_kinds_of_keys_differ(found.id, found.id, NameKind::Subscription, name);
        kv::law_last_write_is_read(rows, writes, 0, "meta"@, keys::sub_key_bytes(found.id));
        kv::law_last_write_is_read(rows, writes, 2, "sub"@, keys::be64(found.id));
        kv::law_last_write_is_read(
            rows,
            writes,
            3,
            "idx"@,
            keys::pair_key(found.topic_id, found.id),
        );
        let left = rows.remove_keys(subscription_rows(found));
        assert forall|row: (Seq<char>, Seq<u8>)|
            kv::fetch(after, row.0, row.1) == #[trigger] kv::fetch(left, row.0, row.1) by {
            if !subscription_rows(found).contains(row) {
                kv::law_spared_row_stays(rows, writes, row.0, row.1);
            }
        }
        assert forall|row: (Seq<char>, Seq<u8>)| #[trigger]
            after.contains_key(row) <==> left.contains_key(row) by {
            assert(kv::fetch(after, row.0, row.1) == kv::fetch(left, row.0, row.1));
            assert((row.0, row.1) == row);
        }
        assert forall|row: (Seq<char>, Seq<u8>)| after.contains_key(row) implies #[trigger] after[row]
            == left[row] by {
            assert(kv::fetch(after, row.0, row.1) == kv::fetch(left, row.0, row.1));
            assert((row.0, row.1) == row);
        }
        assert(after =~= left);
    }
}

/// What an operation reports as done is stored: it succeeds only with what it is to return, only if
/// every change that it needs was made, and with the engine as it is to be. Of the note that follows,
/// perhaps only a part was made.
pub proof fn law_success_is_stored<K: KvStore, R>(
    before: ServiceView,
    after: ServiceView,
    effect: Effect<R>,
    r: Result<R, ErrorView>,
)
    requires
        service::performed::<K, R>(before, after, effect, r),
        r is Ok,
    ensures
        r == effect.outcome,
        after.engine == effect.engine,
        exists|n: int|
            0 <= n <= effect.note.len() && after.rows == #[trigger] kv::after_writes(
                kv::after_writes(before.rows, effect.writes),
                effect.note.take(n),
            ),
{
    let made = kv::after_writes(before.rows, effect.writes);
    if after.rows == kv::after_writes(made, effect.note) {
        assert(effect.note.take(effect.note.len() as int) =~= effect.note);
    }
}

/// An operation that fails does so for its own reason, with all that this changes, or with an error
/// of the store, and then it had a change to make that was not made.
pub proof fn law_failure_is_reported<K: KvStore, R>(
    before: ServiceView,
    after: ServiceView,
    effect: Effect<R>,
    r: Result<R, ErrorView>,
)
    requires
        service::performed::<K, R>(before, after, effect, r),
        r is Err,
        effect.outcome is Ok,
    ensures
        !K::reliable(),
        K::may_fail(r->Err_0),
        effect.writes.len() > 0,
        kv::torn(before.rows, effect.writes, after.rows),
        after.engine.sessions == before.engine.sessions,
        after.engine.wakeups == before.engine.wakeups,
{
}

/// Published messages are stored: whenever publishing returns ids, on whatever store, the log is what
/// it was followed by every one of the messages, under the ids that were returned.
pub proof fn law_published_is_stored<K: KvStore>(
    before: ServiceView,
    after: ServiceView,
    topic_name: Seq<char>,
    messages: Seq<NewMessage>,
    disk_bytes: u64,
    now_ms: i64,
    r: Result<Seq<Seq<char>>, ErrorView>,
)
    requires
        ({
            let t = topic::topic_named(before.rows, topic_name);
            &&& service::performed::<K, Seq<Seq<char>>>(
                before,
                after,
                service::publish_effect(before, topic_name, messages, disk_bytes, now_ms),
                r,
            )
            &&& r is Ok
            &&& t is Ok ==> well_kept_log(before.rows, (t->Ok_0).id) && topic::tail_of(
                before.rows,
                (t->Ok_0).id,
            ) + messages.len() <= u64::MAX
        }),
    ensures
        ({
            let t = topic::topic_named(before.rows, topic_name)->Ok_0;
            let tail = topic::tail_of(before.rows, t.id);
            &&& topic::topic_named(before.rows, topic_name) is Ok
            &&& r == Ok::<_, ErrorView>(
                service::ids_text(Seq::new(messages.len(), |i: int| (tail + 1 + i) as u64)),
            )
            &&& kv::scan_of(after.rows, "msg"@, keys::be64(t.id)) == kv::scan_of(
                before.rows,
                "msg"@,
                keys::be64(t.id),
            ) + new_rows(
                t.id,
                tail,
                messages,
                now_ms,
                topic::expiry(now_ms, engine::effective_retention(t.message_retention_secs)),
                messages.len(),
            )
        }),
{
    let effect = service::publish_effect(before, topic_name, messages, disk_bytes, now_ms);
    assert(effect.outcome is Ok);
    let t = topic::topic_named(before.rows, topic_name)->Ok_0;
    let tail = topic::tail_of(before.rows, t.id);
    law_publishing_appends(
        before.rows,
        t.id,
        messages,
        now_ms,
        topic::expiry(now_ms, engine::effective_retention(t.message_retention_secs)),
        messages.len() as int,
    );
    assert(topic::batch_seqs(tail, messages.len()) =~= Seq::new(
        messages.len(),
        |i: int| (tail + 1 + i) as u64,
    ));
}

/// The id that the name index holds for a name of any kind.
pub open spec fn indexed_id(rows: Rows, kind: NameKind, name: Seq<char>) -> Option<u64> {
    match kv::fetch(rows, "meta"@, keys::name_key_bytes(kind, name)) {
        Some(ValueView::Bytes(b)) => keys::from_be64(b),
        _ => None,
    }
}

/// No name of any kind has an id beyond the id counter.
pub open spec fn ids_counted(rows: Rows) -> bool {
    forall|kind: NameKind, name: Seq<char>| #[trigger]
        indexed_id(rows, kind, name) matches Some(id) ==> id <= topic::counter(
            rows,
            keys::id_seq_key_bytes(),
        )
}

/// A new resource of any kind gets an id that no resource of any kind has, and the ids stay
/// counted.
pub proof fn law_new_ids_are_unused(
    rows: Rows,
    kind: NameKind,
    name: Seq<char>,
    record_key: Seq<u8>,
    record: ValueView,
    other_kind: NameKind,
    other: Seq<char>,
)
    requires
        ids_counted(rows),
        topic::counter(rows, keys::id_seq_key_bytes()) < u64::MAX,
        record_key == keys::topic_key_bytes(topic::fresh_id(rows)) || record_key
            == keys::sub_key_bytes(topic::fresh_id(rows)) || record_key
            == keys::snapshot_key_bytes(topic::fresh_id(rows)),
    ensures
        ({
            let id = topic::fresh_id(rows);
            let after = kv::after_writes(
                rows,
                seq![
                    Write::Put("meta"@, keys::id_seq_key_bytes(), ValueView::Bytes(keys::be64(id))),
                    Write::Put("meta"@, record_key, record),
                    Write::Put(
                        "meta"@,
                        keys::name_key_bytes(kind, name),
                        ValueView::Bytes(keys::be64(id)),
                    ),
                ],
            );
            &&& indexed_id(rows, other_kind, other) != Some(id)
            &&& indexed_id(after, kind, name) == Some(id)
            &&& ids_counted(after)
        }),
{
    let id = topic::fresh_id(rows);
    let writes = seq![
        Write::Put("meta"@, keys::id_seq_key_bytes(), ValueView::Bytes(keys::be64(id))),
        Write::Put("meta"@, record_key, record),
        Write::Put("meta"@, keys::name_key_bytes(kind, name), ValueView::Bytes(keys::be64(id))),
    ];
    let after = kv::after_writes(rows, writes);
    keys::law_be64_round_trip(id, keys::be64(id));
    keys::law_kinds_of_keys_differ(id, id, kind, name);
    kv::law_last_write_is_read(rows, writes, 0, "meta"@, keys::id_seq_key_bytes());
    assert(writes.skip(3) =~= Seq::<Write>::empty());
    kv::law_last_write_is_read(rows, writes, 2, "meta"@, keys::name_key_bytes(kind, name));
    assert(topic::counter(after, keys::id_seq_key_bytes()) == id);
    assert forall|k: NameKind, m: Seq<char>| #[trigger] indexed_id(after, k, m) matches Some(
        found,
    ) implies indexed_id(after, k, m)->0 <= id by {
        let key = keys::name_key_bytes(k, m);
        keys::law_kinds_of_keys_differ(id, id, k, m);
        if key != keys::name_key_bytes(kind, name) {
            kv::law_spared_row_stays(rows, writes, "meta"@, key);
            assert(indexed_id(rows, k, m) == indexed_id(after, k, m));
        }
    }
}

/// A snapshot that was taken is found under its name, with the cursor that the subscription had.
pub proof fn law_taken_snapshot_is_found(
    s: ServiceView,
    name: Seq<char>,
    subscription_name: Seq<char>,
    labels: Entries,
    now_ms: i64,
)
    requires
        service::create_snapshot_effect(s, name, subscription_name, labels, now_ms).outcome is Ok,
    ensures
        ({
            let effect = service::create_snapshot_effect(
                s,
                name,
                subscription_name,
                labels,
                now_ms,
            );
            let sub = subscription::subscription_named(s.rows, subscription_name)->Ok_0;
            let after = kv::after_writes(s.rows, effect.writes);
            &&& snapshot::snapshot_named(after, name) == effect.outcome
            &&& engine::stored_cursor(s.rows, sub.id) == Ok::<_, ErrorView>(
                (effect.outcome->Ok_0).cursor,
            )
            &&& (effect.outcome->Ok_0).topic_id == sub.topic_id
        }),
{
    let effect = service::create_snapshot_effect(s, name, subscription_name, labels, now_ms);
    let new = effect.outcome->Ok_0;
    let writes = effect.writes;
    keys::law_kinds_of_keys_differ(new.id, new.id, NameKind::Snapshot, name);
    keys::law_be64_round_trip(new.id, keys::be64(new.id));
    assert(writes.skip(3) =~= Seq::<Write>::empty());
    kv::law_last_write_is_read(
        s.rows,
        writes,
        2,
        "meta"@,
        keys::name_key_bytes(NameKind::Snapshot, name),
    );
    kv::law_last_write_is_read(s.rows, writes, 1, "meta"@, keys::snapshot_key_bytes(new.id));
}

/// After a seek the subscription stands at the cursor that it was moved to, and no message counts
/// as delivered to it: whatever the cursor leaves open is free to be handed out, as a first
/// delivery.
pub proof fn law_seek_starts_over<K: KvStore>(
    before: ServiceView,
    after: ServiceView,
    sub_id: u64,
    cursor: CursorView,
    seq: u64,
)
    requires
        service::sought::<K>(before, after, Ok((sub_id, cursor)), Ok(())),
    ensures
        engine::stored_cursor(after.rows, sub_id) == Ok::<_, ErrorView>(cursor),
        !after.engine.leases.contains_key((sub_id, seq)),
        engine::earlier_delivery(after.rows, after.engine.leases, sub_id, seq) is None,
{
    kv::law_keyspaces_differ();
    let key = keys::pair_key(sub_id, seq);
    keys::law_pair_key_round_trip(sub_id, seq, key);
    assert(text::has_prefix(key, keys::be64(sub_id)));
}

/// Seeking to a snapshot takes a subscription back to when the snapshot was taken: the same messages
/// are done as then, and whatever was not is free to be handed out, as a first delivery.
pub proof fn law_snapshot_takes_back<K: KvStore>(
    s: ServiceView,
    name: Seq<char>,
    subscription_name: Seq<char>,
    labels: Entries,
    now_ms: i64,
    before: ServiceView,
    after: ServiceView,
    seq: u64,
)
    requires
        ({
            let taken = service::create_snapshot_effect(
                s,
                name,
                subscription_name,
                labels,
                now_ms,
            ).outcome;
            let then = subscription::subscription_named(s.rows, subscription_name);
            let now = subscription::subscription_named(before.rows, subscription_name);
            &&& taken is Ok
            &&& snapshot::snapshot_named(before.rows, name) == taken
            &&& now is Ok
            &&& (now->Ok_0).id == (then->Ok_0).id
            &&& (now->Ok_0).topic_id == (then->Ok_0).topic_id
        }),
        service::sought::<K>(
            before,
            after,
            service::snapshot_target(before.rows, subscription_name, name),
            Ok(()),
        ),
    ensures
        ({
            let sub = subscription::subscription_named(s.rows, subscription_name)->Ok_0;
            &&& engine::stored_cursor(after.rows, sub.id) == engine::stored_cursor(s.rows, sub.id)
            &&& engine::earlier_delivery(after.rows, after.engine.leases, sub.id, seq) is None
        }),
{
    law_taken_snapshot_is_found(s, name, subscription_name, labels, now_ms);
    let sub = subscription::subscription_named(s.rows, subscription_name)->Ok_0;
    let cursor = engine::stored_cursor(s.rows, sub.id)->Ok_0;
    law_seek_starts_over::<K>(before, after, sub.id, cursor, seq);
}

/// Seeking to a time opens every message that was published at the time or later, unless the
/// subscription was attached behind it, as a first delivery. Where no message stands behind one that
/// was published later, all messages that were published before the time are done.
pub proof fn law_seek_to_time_parts_the_log<K: KvStore>(
    before: ServiceView,
    after: ServiceView,
    name: Seq<char>,
    time_ms: i64,
    seq: u64,
)
    requires
        ({
            let sub = subscription::subscription_named(before.rows, name);
            let end = topic::successor(topic::tail_of(before.rows, (sub->Ok_0).topic_id));
            &&& sub is Ok
            &&& engine::stored_cursor(before.rows, (sub->Ok_0).id) is Ok
            &&& 1 <= seq < end
        }),
        service::sought::<K>(
            before,
            after,
            service::time_target(before.rows, name, time_ms),
            Ok(()),
        ),
    ensures
        ({
            let sub = subscription::subscription_named(before.rows, name)->Ok_0;
            let attach_seq = (engine::stored_cursor(before.rows, sub.id)->Ok_0).attach_seq;
            let cursor = engine::stored_cursor(after.rows, sub.id);
            &&& cursor is Ok
            &&& seq <= attach_seq ==> cursor::is_done(cursor->Ok_0, seq)
            &&& topic::published_since(before.rows, sub.topic_id, time_ms, seq) && seq > attach_seq
                ==> !cursor::is_done(cursor->Ok_0, seq)
            &&& topic::published_before(before.rows, sub.topic_id, time_ms, seq)
                && published_in_order(before.rows, sub.topic_id) ==> cursor::is_done(
                cursor->Ok_0,
                seq,
            )
            &&& engine::earlier_delivery(after.rows, after.engine.leases, sub.id, seq) is None
        }),
{
    let sub = subscription::subscription_named(before.rows, name)->Ok_0;
    let n = topic::boundary(before.rows, sub.topic_id, time_ms);
    topic::law_boundary(before.rows, sub.topic_id, time_ms, n);
    let cursor = (service::time_target(before.rows, name, time_ms)->Ok_0).1;
    law_seek_starts_over::<K>(before, after, sub.id, cursor, seq);
    if topic::published_since(before.rows, sub.topic_id, time_ms, seq) {
        assert(n <= seq);
    }
    if published_in_order(before.rows, sub.topic_id) && topic::published_before(
        before.rows,
        sub.topic_id,
        time_ms,
        seq,
    ) && n <= seq {
        assert(topic::published_since(before.rows, sub.topic_id, time_ms, n));
        assert(n != seq);
        assert(publish_time(before.rows, sub.topic_id, n) <= publish_time(
            before.rows,
            sub.topic_id,
            seq,
        ));
    }
}

/// When a message of a topic was published, if it is stored.
pub open spec fn publish_time(rows: Rows, topic_id: u64, seq: u64) -> int {
    match kv::fetch(rows, "msg"@, keys::pair_key(topic_id, seq)) {
        Some(ValueView::Message(m)) => m.publish_ts_ms as int,
        _ => 0,
    }
}

/// The message number `seq` of a topic is stored.
pub open spec fn is_message(rows: Rows, topic_id: u64, seq: u64) -> bool {
    kv::fetch(rows, "msg"@, keys::pair_key(topic_id, seq)) matches Some(ValueView::Message(_))
}

/// No message of a topic stands behind one that was published later.
pub open spec fn published_in_order(rows: Rows, topic_id: u64) -> bool {
    forall|a: u64, b: u64|
        #![trigger publish_time(rows, topic_id, a), publish_time(rows, topic_id, b)]
        a < b && is_message(rows, topic_id, a) && is_message(rows, topic_id, b) ==> publish_time(
            rows,
            topic_id,
            a,
        ) <= publish_time(rows, topic_id, b)
}

/// A seek leaves all other subscriptions as they are.
pub proof fn law_seek_is_local<K: KvStore>(
    before: ServiceView,
    after: ServiceView,
    sub_id: u64,
    cursor: CursorView,
    other_sub: u64,
    seq: u64,
)
    requires
        service::sought::<K>(before, after, Ok((sub_id, cursor)), Ok(())),
        other_sub != sub_id,
    ensures
        engine::stored_cursor(after.rows, other_sub) == engine::stored_cursor(
            before.rows,
            other_sub,
        ),
        engine::earlier_delivery(after.rows, after.engine.leases, other_sub, seq)
            == engine::earlier_delivery(before.rows, before.engine.leases, other_sub, seq),
{
    kv::law_keyspaces_differ();
    keys::law_record_keys_injective(sub_id, other_sub);
    let key = keys::pair_key(other_sub, seq);
    keys::law_pair_key_round_trip(other_sub, seq, key);
    if text::has_prefix(key, keys::be64(sub_id)) {
        keys::lemma_pair_key_prefix(key, sub_id);
    }
}

/// Records are stored under their own ids.
pub open spec fn stored_under_own_id(rows: Rows, id: u64) -> bool {
    subscription::stored_subscription(rows, id, Seq::empty()) matches Ok(sub) ==> sub.id == id
}

proof fn lemma_orphaning(rows: Rows, ids: Seq<u64>, n: int, i: int)
    requires
        0 <= i < ids.len(),
        0 <= n <= ids.len(),
        service::orphaning(rows, ids, n).1 is None,
        forall|id: u64| #[trigger] stored_under_own_id(rows, id),
    ensures
        ({
            let after = kv::after_writes(rows, service::orphaning(rows, ids, n).0);
            let found = subscription::stored_subscription(after, ids[i], Seq::empty());
            &&& forall|id: u64| #[trigger] stored_under_own_id(after, id)
            &&& i < n ==> {
                &&& found is Ok
                &&& (found->Ok_0).topic == names::DELETED_TOPIC@
                &&& (found->Ok_0).detached
            }
        }),
    decreases n,
{
    if n > 0 {
        let (writes, failure) = service::orphaning(rows, ids, n - 1);
        lemma_orphaning(rows, ids, n - 1, i);
        let before = kv::after_writes(rows, writes);
        let id = ids[n - 1];
        assert(stored_under_own_id(before, id));
        let sub = subscription::stored_subscription(before, id, Seq::empty())->Ok_0;
        let gone = subscription::orphaned(sub);
        let step = subscription::persist_writes(gone);
        kv::lemma_after_concat(rows, writes, step);
        let after = kv::after_writes(before, step);
        keys::law_kinds_of_keys_differ(id, id, NameKind::Subscription, gone.name);
        kv::law_last_write_is_read(before, step, 0, "meta"@, keys::sub_key_bytes(id));
        assert forall|other: u64| #[trigger] stored_under_own_id(after, other) by {
            if other != id {
                keys::law_record_keys_injective(other, id);
                keys::law_kinds_of_keys_differ(other, id, NameKind::Subscription, gone.name);
                kv::law_spared_row_stays(before, step, "meta"@, keys::sub_key_bytes(other));
                assert(stored_under_own_id(before, other));
            }
        }
        if ids[i] != id {
            keys::law_record_keys_injective(ids[i], id);
            keys::law_kinds_of_keys_differ(ids[i], id, NameKind::Subscription, gone.name);
            kv::law_spared_row_stays(before, step, "meta"@, keys::sub_key_bytes(ids[i]));
        }
    }
}

/// Deleting a topic detaches its subscriptions: each names the sentinel in place of the topic, and
/// pulling from it fails.
pub proof fn law_deleting_topic_detaches(s: ServiceView, name: Seq<char>, i: int)
    requires
        service::delete_topic_effect(s, name).outcome is Ok,
        forall|id: u64| #[trigger] stored_under_own_id(s.rows, id),
        0 <= i < subscription::attached_ids(
            s.rows,
            (topic::topic_named(s.rows, name)->Ok_0).id,
        ).len(),
    ensures
        ({
            let ids = subscription::attached_ids(
                s.rows,
                (topic::topic_named(s.rows, name)->Ok_0).id,
            );
            let after = kv::after_writes(s.rows, service::delete_topic_effect(s, name).writes);
            let found = subscription::stored_subscription(after, ids[i], Seq::empty());
            &&& found is Ok
            &&& (found->Ok_0).topic == names::DELETED_TOPIC@
            &&& service::detached_error(found->Ok_0, (found->Ok_0).name) is Some
            &&& topic::topic_named(after, name) == Err::<TopicView, _>(
                ErrorView::NotFound { resource: name },
            )
        }),
{
    let t = topic::topic_named(s.rows, name)->Ok_0;
    let ids = subscription::attached_ids(s.rows, t.id);
    let (writes, failure) = service::orphaning(s.rows, ids, ids.len() as int);
    lemma_orphaning(s.rows, ids, ids.len() as int, i);
    let mid = kv::after_writes(s.rows, writes);
    let id = topic::topic_id_of(mid, name)->Ok_0;
    let gone = topic::delete_writes(id, name);
    kv::lemma_after_concat(s.rows, writes, gone);
    keys::law_kinds_of_keys_differ(id, ids[i], NameKind::Topic, name);
    keys::law_kinds_of_keys_differ(ids[i], id, NameKind::Topic, name);
    kv::law_spared_row_stays(mid, gone, "meta"@, keys::sub_key_bytes(ids[i]));
    law_deleted_topic_is_gone(mid, name, id);
}

} // verus!
