//! Acknowledgements and changes of deadline: what they change, and that they count as use.

use crate::delivery::cursor;
use crate::delivery::engine;
use crate::delivery::engine::LeaseCall;
use crate::delivery::laws;
use crate::delivery::lease;
use crate::delivery::lease::{AckOutcome, Leases};
use crate::delivery::stream;
use crate::delivery::stream::Sessions;
use crate::error::ErrorView;
use crate::filter::ast::ExprView;
use crate::filter::eval;
use crate::laws as service_laws;
use crate::service;
use crate::service::ServiceView;
use crate::store::keys;
use crate::store::keys::NameKind;
use crate::store::kv;
use crate::store::kv::{Rows, Scan, ValueView};
use crate::subscription;
use crate::subscription::SubscriptionView;
use crate::text;
use vstd::prelude::*;

verus! {

/// One of the first `n` ack ids stands for the lease of a message on a subscription.
pub open spec fn is_named(
    leases: Leases,
    sub_id: u64,
    ack_ids: Seq<Seq<char>>,
    n: int,
    seq: u64,
) -> bool {
    exists|i: int|
        0 <= i < n && leases.contains_key((sub_id, seq)) && lease::ack_id_parts(
            #[trigger] ack_ids[i],
        ) == Some((sub_id, seq, leases[(sub_id, seq)].generation))
}

/// When a change of deadline lets a lease run out.
pub open spec fn moved_to(now_ms: i64, secs: i32) -> int {
    if secs > 0 {
        now_ms + secs * 1000
    } else {
        now_ms as int
    }
}

proof fn lemma_changes(
    rows: Rows,
    leases: Leases,
    sub_id: u64,
    ack_ids: Seq<Seq<char>>,
    now_ms: i64,
    secs: i32,
    n: int,
    k: (u64, u64),
)
    requires
        lease::filed_by_key(leases),
        now_ms + secs * 1000 <= i64::MAX,
        0 <= n <= ack_ids.len(),
    ensures
        ({
            let (writes, after) = engine::changing_deadlines(
                leases,
                sub_id,
                ack_ids,
                now_ms,
                secs,
                n,
            );
            let named = k.0 == sub_id && is_named(leases, sub_id, ack_ids, n, k.1);
            let row = kv::fetch(kv::after_writes(rows, writes), "dlv"@, keys::pair_key(k.0, k.1));
            &&& after.contains_key(k) <==> leases.contains_key(k)
            &&& leases.contains_key(k) ==> {
                &&& after[k].generation == leases[k].generation
                &&& after[k].attempts == leases[k].attempts
                &&& after[k].sub_id == leases[k].sub_id
                &&& after[k].seq == leases[k].seq
            }
            &&& leases.contains_key(k) && !named ==> after[k] == leases[k]
            &&& named ==> {
                &&& after[k].deadline_ms == moved_to(now_ms, secs)
                &&& after[k].given_back <==> secs <= 0
                &&& row matches Some(ValueView::Delivery(d))
                &&& d.deadline_ms == after[k].deadline_ms
                &&& d.attempts == after[k].attempts
                &&& d.generation == after[k].generation
                &&& d.given_back == after[k].given_back
            }
            &&& !named ==> row == kv::fetch(rows, "dlv"@, keys::pair_key(k.0, k.1))
        }),
    decreases n,
{
    if n > 0 {
        lemma_changes(rows, leases, sub_id, ack_ids, now_ms, secs, n - 1, k);
        let (writes, now) = engine::changing_deadlines(
            leases,
            sub_id,
            ack_ids,
            now_ms,
            secs,
            n - 1,
        );
        let named = k.0 == sub_id && is_named(leases, sub_id, ack_ids, n, k.1);
        let before = k.0 == sub_id && is_named(leases, sub_id, ack_ids, n - 1, k.1);
        let parts = lease::ack_id_parts(ack_ids[n - 1]);
        if before {
            let i = choose|i: int|
                0 <= i < n - 1 && lease::ack_id_parts(#[trigger] ack_ids[i]) == Some(
                    (sub_id, k.1, leases[(sub_id, k.1)].generation),
                );
            assert(lease::ack_id_parts(ack_ids[i]) == Some(
                (sub_id, k.1, leases[(sub_id, k.1)].generation),
            ));
        }
        match lease::lease_on(now, sub_id, parts) {
            AckOutcome::Applied(l) => {
                let (a, b, generation) = parts->0;
                lemma_changes(rows, leases, sub_id, ack_ids, now_ms, secs, n - 1, (a, b));
                assert(leases[(a, b)].sub_id == a && leases[(a, b)].seq == b);
                let moved = engine::with_deadline(l, now_ms, secs);
                kv::lemma_after_push(rows, writes, engine::lease_write(sub_id, moved));
                keys::law_pair_key_order(k.0, k.1, a, b);
                if (a, b) == k {
                    assert(lease::ack_id_parts(ack_ids[n - 1]) == Some(
                        (sub_id, k.1, leases[(sub_id, k.1)].generation),
                    ));
                    assert(named);
                } else {
                    assert(named == before);
                }
            },
            _ => {
                assert(named == before);
            },
        }
    }
}

/// Changing deadlines on a subscription succeeds, and moves the deadlines of the leases that the ack
/// ids stand for to so many seconds from now, or to now, which gives the messages back; that is
/// stored. Nothing else of these leases changes, and no other lease, whatever else the ack ids are.
pub proof fn law_deadlines_are_changed(
    s: ServiceView,
    name: Seq<char>,
    ack_ids: Seq<Seq<char>>,
    secs: i32,
    now_ms: i64,
    stream_id: u64,
    k: (u64, u64),
)
    requires
        lease::filed_by_key(s.engine.leases),
        now_ms + secs * 1000 <= i64::MAX,
        subscription::subscription_named(s.rows, name) is Ok,
    ensures
        ({
            let sub = subscription::subscription_named(s.rows, name)->Ok_0;
            let plain = service::modify_effect(s, name, ack_ids, secs, now_ms);
            let streamed = service::stream_modify_effect(
                s,
                stream_id,
                sub.id,
                ack_ids,
                secs,
                now_ms,
            );
            let was = s.engine.leases;
            let after = plain.engine.leases;
            let row = kv::fetch(
                kv::after_writes(s.rows, plain.writes),
                "dlv"@,
                keys::pair_key(k.0, k.1),
            );
            let named = k.0 == sub.id && is_named(was, sub.id, ack_ids, ack_ids.len() as int, k.1);
            &&& plain.outcome is Ok
            &&& streamed.outcome is Ok
            &&& streamed.engine.leases == after
            &&& streamed.writes == plain.writes
            &&& after.contains_key(k) <==> was.contains_key(k)
            &&& was.contains_key(k) && !named ==> after[k] == was[k]
            &&& named ==> {
                &&& after[k].deadline_ms == moved_to(now_ms, secs)
                &&& after[k].given_back <==> secs <= 0
                &&& after[k].attempts == was[k].attempts
                &&& after[k].generation == was[k].generation
                &&& row matches Some(ValueView::Delivery(d))
                &&& d.deadline_ms == moved_to(now_ms, secs)
                &&& d.attempts == was[k].attempts
                &&& d.generation == was[k].generation
            }
        }),
{
    let sub = subscription::subscription_named(s.rows, name)->Ok_0;
    lemma_changes(
        s.rows,
        s.engine.leases,
        sub.id,
        ack_ids,
        now_ms,
        secs,
        ack_ids.len() as int,
        k,
    );
}

/// The time of the last use that is stored for a subscription.
pub open spec fn last_use(rows: Rows, sub_id: u64) -> Option<i64> {
    match kv::fetch(rows, "meta"@, keys::sub_key_bytes(sub_id)) {
        Some(ValueView::Subscription(s)) => Some(s.last_activity_ts_ms),
        _ => None,
    }
}

proof fn lemma_noted(rows: Rows, sub_id: u64, now_ms: i64)
    requires
        subscription::stored_subscription(rows, sub_id, Seq::empty()) matches Ok(found) && found.id
            == sub_id,
    ensures
        last_use(
            kv::after_writes(rows, subscription::touch_writes(rows, sub_id, now_ms)),
            sub_id,
        ) == Some(now_ms),
{
    let found = subscription::stored_subscription(rows, sub_id, Seq::empty())->Ok_0;
    let changed = SubscriptionView { last_activity_ts_ms: now_ms, ..found };
    let writes = subscription::persist_writes(changed);
    keys::law_kinds_of_keys_differ(sub_id, sub_id, NameKind::Subscription, changed.name);
    assert(writes.len() == 2);
    kv::law_last_write_is_read(rows, writes, 0, "meta"@, keys::sub_key_bytes(sub_id));
}

/// Acknowledging and changing deadlines count as use of the subscription, on streams too.
pub proof fn law_acknowledging_is_use(
    s: ServiceView,
    name: Seq<char>,
    ack_ids: Seq<Seq<char>>,
    secs: i32,
    now_ms: i64,
    stream_id: u64,
)
    requires
        subscription::subscription_named(s.rows, name) is Ok,
        ({
            let sub = subscription::subscription_named(s.rows, name)->Ok_0;
            &&& kv::fetch(s.rows, "meta"@, keys::sub_key_bytes(sub.id)) == Some(
                ValueView::Subscription(sub),
            )
            &&& engine::ack_end(s.rows, s.engine.leases, sub.id, ack_ids).outcome is Ok
        }),
    ensures
        ({
            let sub = subscription::subscription_named(s.rows, name)->Ok_0;
            let ack = service::acknowledge_effect(s, name, ack_ids, now_ms);
            let modify = service::modify_effect(s, name, ack_ids, secs, now_ms);
            let stream_ack = service::stream_acknowledge_effect(
                s,
                stream_id,
                sub.id,
                ack_ids,
                now_ms,
            );
            let stream_modify = service::stream_modify_effect(
                s,
                stream_id,
                sub.id,
                ack_ids,
                secs,
                now_ms,
            );
            &&& last_use(service::resulting(s, ack).rows, sub.id) == Some(now_ms)
            &&& last_use(service::resulting(s, modify).rows, sub.id) == Some(now_ms)
            &&& last_use(service::resulting(s, stream_ack).rows, sub.id) == Some(now_ms)
            &&& last_use(service::resulting(s, stream_modify).rows, sub.id) == Some(now_ms)
        }),
{
    let sub = subscription::subscription_named(s.rows, name)->Ok_0;
    let key = keys::sub_key_bytes(sub.id);
    let n = ack_ids.len() as int;
    let start = engine::stored_cursor(s.rows, sub.id)->Ok_0;
    let acks = engine::ack_end(s.rows, s.engine.leases, sub.id, ack_ids).writes;
    let changes = engine::changing_deadlines(
        s.engine.leases,
        sub.id,
        ack_ids,
        now_ms,
        secs,
        n,
    ).0;
    kv::law_keyspaces_differ();
    laws::lemma_acking_spares(s.engine.leases, start, sub.id, ack_ids, n, key);
    laws::lemma_changing_spares(s.engine.leases, sub.id, ack_ids, now_ms, secs, n, key);
    assert(kv::spares(acks, "meta"@, key));
    kv::law_spared_row_stays(s.rows, acks, "meta"@, key);
    kv::law_spared_row_stays(s.rows, changes, "meta"@, key);
    lemma_noted(kv::after_writes(s.rows, acks), sub.id, now_ms);
    lemma_noted(kv::after_writes(s.rows, changes), sub.id, now_ms);
}

proof fn lemma_resolving(
    sessions: Sessions,
    stream_id: u64,
    sub_id: u64,
    ack_ids: Seq<Seq<char>>,
    n: int,
    seq: u64,
)
    requires
        sessions.contains_key(stream_id),
        0 <= n <= ack_ids.len(),
    ensures
        ({
            let after = engine::resolving(sessions, stream_id, sub_id, ack_ids, n);
            let resolved = exists|i: int|
                0 <= i < n && (lease::ack_id_parts(#[trigger] ack_ids[i]) matches Some((a, b, _))
                    && a == sub_id && b == seq);
            &&& after.contains_key(stream_id)
            &&& after[stream_id].info == sessions[stream_id].info
            &&& after[stream_id].outstanding.contains_key(seq) <==> !resolved
                && sessions[stream_id].outstanding.contains_key(seq)
        }),
    decreases n,
{
    if n > 0 {
        lemma_resolving(sessions, stream_id, sub_id, ack_ids, n - 1, seq);
        let hit = lease::ack_id_parts(ack_ids[n - 1]) matches Some((a, b, _)) && a == sub_id && b
            == seq;
        let before = exists|i: int|
            0 <= i < n - 1 && (lease::ack_id_parts(#[trigger] ack_ids[i]) matches Some((a, b, _))
                && a == sub_id && b == seq);
        let resolved = exists|i: int|
            0 <= i < n && (lease::ack_id_parts(#[trigger] ack_ids[i]) matches Some((a, b, _)) && a
                == sub_id && b == seq);
        assert(resolved <==> before || hit) by {
            if hit {
                assert(lease::ack_id_parts(ack_ids[n - 1]) is Some);
            }
        }
    }
}

/// A message that is acknowledged on a stream, or given back, does not count against the limits of the
/// stream any more; any other does as before.
pub proof fn law_resolved_leaves_the_stream(
    s: ServiceView,
    stream_id: u64,
    sub_id: u64,
    ack_ids: Seq<Seq<char>>,
    secs: i32,
    now_ms: i64,
    seq: u64,
)
    requires
        s.engine.sessions.contains_key(stream_id),
        engine::ack_end(s.rows, s.engine.leases, sub_id, ack_ids).outcome is Ok,
    ensures
        ({
            let acked = service::stream_acknowledge_effect(
                s,
                stream_id,
                sub_id,
                ack_ids,
                now_ms,
            ).engine.sessions;
            let changed = service::stream_modify_effect(
                s,
                stream_id,
                sub_id,
                ack_ids,
                secs,
                now_ms,
            ).engine.sessions;
            let resolved = exists|i: int|
                0 <= i < ack_ids.len() && (lease::ack_id_parts(#[trigger] ack_ids[i]) matches Some(
                    (a, b, _),
                ) && a == sub_id && b == seq);
            let was = s.engine.sessions[stream_id].outstanding.contains_key(seq);
            &&& acked.contains_key(stream_id)
            &&& acked[stream_id].outstanding.contains_key(seq) <==> was && !resolved
            &&& changed.contains_key(stream_id)
            &&& changed[stream_id].outstanding.contains_key(seq) <==> was && !(resolved && secs
                <= 0)
        }),
{
    lemma_resolving(
        s.engine.sessions,
        stream_id,
        sub_id,
        ack_ids,
        ack_ids.len() as int,
        seq,
    );
}

/// A stream leases its messages for its own ack deadline, and tells how often they were delivered
/// exactly if the subscription has a dead-letter topic.
pub proof fn law_streamed_on_the_terms_of_the_stream(
    s: ServiceView,
    stream_id: u64,
    now_ms: i64,
    sub: SubscriptionView,
    k: int,
)
    requires
        s.engine.sessions.contains_key(stream_id),
        ({
            let info = s.engine.sessions[stream_id].info;
            let lease = service::stream_lease_effect(s, stream_id, now_ms);
            &&& kv::fetch(s.rows, "meta"@, keys::sub_key_bytes(info.sub_id)) == Some(
                ValueView::Subscription(sub),
            )
            &&& laws::leases_stored(s.rows, s.engine.leases)
            &&& kv::has_scan(s.rows, "msg"@, keys::be64(info.topic_id))
            &&& 0 <= info.ack_deadline_secs
            &&& now_ms + info.ack_deadline_secs * 1000 <= i64::MAX
            &&& lease.outcome is Ok
            &&& 0 <= k < (lease.outcome->Ok_0).len()
        }),
    ensures
        ({
            let info = s.engine.sessions[stream_id].info;
            let lease = service::stream_lease_effect(s, stream_id, now_ms);
            let m = (lease.outcome->Ok_0)[k];
            exists|seq: u64|
                {
                    &&& m.message_id == text::dec(seq as nat)
                    &&& #[trigger] lease.engine.leases.contains_key((info.sub_id, seq))
                    &&& lease.engine.leases[(info.sub_id, seq)].deadline_ms == now_ms
                        + info.ack_deadline_secs * 1000
                    &&& m.delivery_attempt == if sub.dead_letter_topic is Some {
                        lease.engine.leases[(info.sub_id, seq)].attempts as int
                    } else {
                        0
                    }
                }
        }),
{
    let info = s.engine.sessions[stream_id].info;
    let messages = stream::budget(s.engine.sessions, stream_id).0;
    let size = if messages > i32::MAX {
        i32::MAX
    } else {
        messages as i32
    };
    let call = engine::lease_call(
        s.rows,
        s.engine,
        engine::stored_cursor(s.rows, info.sub_id)->Ok_0,
        info.sub_id,
        size,
        now_ms,
        info.ack_deadline_secs,
    );
    let log = kv::scan_of(s.rows, "msg"@, keys::be64(info.topic_id));
    laws::law_scan_of_topic_is_log(s.rows, info.topic_id);
    crate::guarantees::delivery::law_leases_run_for_the_deadline(call, log, k);
    let d = engine::leasing(call, log, log.len() as int).out[k];
    let lease = service::stream_lease_effect(s, stream_id, now_ms);
    assert(lease.engine.leases.contains_key((info.sub_id, d.seq)));
}

/// What an ack id stands for, and what acknowledging it or changing its deadline does: the lease of
/// exactly that delivery ends, or is moved; an ack id of no lease, of an earlier delivery, or that is
/// none, changes nothing.
pub proof fn law_ack_ids_stand_for_deliveries(
    leases: Leases,
    parts: Option<(u64, u64, u64)>,
    now_ms: i64,
    secs: i32,
    k: (u64, u64),
)
    requires
        lease::filed_by_key(leases),
        now_ms + secs * 1000 <= i64::MAX,
    ensures
        ({
            let acked = lease::leases_after_ack(leases, parts);
            let moved = lease::leases_after_extend(leases, parts, now_ms, secs);
            let outcome = lease::lease_named_by(leases, parts);
            let hit = leases.contains_key(k) && parts == Some(
                (k.0, k.1, leases[k].generation),
            );
            &&& hit ==> outcome == AckOutcome::Applied(leases[k])
            &&& parts is None <==> outcome == AckOutcome::Malformed
            &&& parts matches Some((a, b, generation)) ==> {
                &&& outcome == AckOutcome::Unknown <==> !leases.contains_key((a, b))
                &&& outcome == AckOutcome::StaleGeneration <==> leases.contains_key((a, b))
                    && leases[(a, b)].generation != generation
            }
            &&& acked.contains_key(k) <==> leases.contains_key(k) && !hit
            &&& acked.contains_key(k) ==> acked[k] == leases[k]
            &&& moved.contains_key(k) <==> leases.contains_key(k)
            &&& leases.contains_key(k) && !hit ==> moved[k] == leases[k]
            &&& hit ==> {
                &&& moved[k].deadline_ms == moved_to(now_ms, secs)
                &&& moved[k].given_back <==> secs <= 0
                &&& moved[k].attempts == leases[k].attempts
                &&& moved[k].generation == leases[k].generation
            }
        }),
{
    if let Some((a, b, _)) = parts {
        if leases.contains_key((a, b)) {
            assert(leases[(a, b)].sub_id == a && leases[(a, b)].seq == b);
        }
    }
}

/// The leases that are reported as run out are exactly those whose deadline is not after now, each with
/// how often its message was delivered.
pub proof fn law_expired_leases(
    leases: Leases,
    now_ms: i64,
    r: Seq<lease::ExpiredLease>,
    k: (u64, u64),
)
    requires
        lease::filed_by_key(leases),
        lease::is_expiry(leases, now_ms, r),
    ensures
        leases.contains_key(k) && leases[k].deadline_ms <= now_ms <==> exists|i: int|
            0 <= i < r.len() && (#[trigger] r[i]).sub_id == k.0 && r[i].seq == k.1,
        forall|i: int|
            0 <= i < r.len() && (#[trigger] r[i]).sub_id == k.0 && r[i].seq == k.1 ==> {
                &&& r[i].attempts == leases[k].attempts
                &&& r[i].generation == leases[k].generation
            },
{
    assert forall|i: int|
        0 <= i < r.len() && (#[trigger] r[i]).sub_id == k.0 && r[i].seq == k.1 implies {
        &&& lease::expired_keys(leases, now_ms).contains(k)
        &&& r[i] == lease::expired_of(leases[k])
    } by {
        assert((r[i].sub_id, r[i].seq) == k);
    }
    if leases.contains_key(k) && leases[k].deadline_ms <= now_ms {
        assert(lease::expired_keys(leases, now_ms).contains(k));
    }
}

proof fn lemma_unchanged(call: LeaseCall, log: Scan, n: int)
    requires
        0 <= n <= log.len(),
    ensures
        !engine::leasing(call, log, n).cursor_changed ==> engine::leasing(call, log, n).cursor
            == call.cursor,
        forall|seq: u64| #[trigger]
            cursor::is_done(call.cursor, seq) ==> cursor::is_done(
                engine::leasing(call, log, n).cursor,
                seq,
            ),
    decreases n,
{
    if n > 0 {
        lemma_unchanged(call, log, n - 1);
        let before = engine::leasing(call, log, n - 1);
        let after = engine::leasing(call, log, n);
        if let Some((_, own)) = keys::from_pair_key(log[n - 1].0) {
            assert forall|seq: u64| #[trigger] cursor::is_done(
                call.cursor,
                seq,
            ) implies cursor::is_done(after.cursor, seq) by {
                assert(cursor::is_done(before.cursor, seq));
                cursor::law_marking_adds_one_message(before.cursor, own, seq);
            }
        }
    }
}

proof fn lemma_passed_over(call: LeaseCall, log: Scan, e: ExprView, n: int, j: int)
    requires
        0 <= j < n <= log.len(),
        keys::from_pair_key(log[j].0) is Some,
        log[j].1 is Message,
        call.filter == Some(e),
        !eval::satisfies(e, log[j].1->Message_0.attributes),
        engine::leasing(call, log, n).failure is None,
        engine::leasing(call, log, n).out.len() < call.max_messages,
    ensures
        cursor::is_done(
            engine::leasing(call, log, n).cursor,
            (keys::from_pair_key(log[j].0)->0).1,
        ),
    decreases n,
{
    let before = engine::leasing(call, log, n - 1);
    let after = engine::leasing(call, log, n);
    let seq = (keys::from_pair_key(log[j].0)->0).1;
    if j < n - 1 {
        lemma_passed_over(call, log, e, n - 1, j);
    }
    if let Some((_, own)) = keys::from_pair_key(log[n - 1].0) {
        cursor::law_marking_adds_one_message(before.cursor, own, seq);
    }
}

/// What a request has done with is stored, and stays done with: after a request that looked at the
/// whole log, every message that the filter does not want is done, whatever was done before is, and
/// so the stored cursor says.
pub proof fn law_progress_is_stored(call: LeaseCall, log: Scan, e: ExprView, j: int)
    requires
        engine::stored_cursor(call.rows, call.sub_id) == Ok::<_, ErrorView>(call.cursor),
        0 <= j < log.len(),
        keys::from_pair_key(log[j].0) is Some,
        log[j].1 is Message,
        engine::leasing(call, log, log.len() as int).failure is None,
        engine::leasing(call, log, log.len() as int).out.len() < call.max_messages,
    ensures
        ({
            let seq = (keys::from_pair_key(log[j].0)->0).1;
            let after = kv::after_writes(call.rows, engine::lease_writes(call, log));
            let now = engine::stored_cursor(after, call.sub_id);
            &&& now is Ok
            &&& now->Ok_0 == engine::leasing(call, log, log.len() as int).cursor
            &&& cursor::is_done(call.cursor, seq) ==> cursor::is_done(now->Ok_0, seq)
            &&& call.filter == Some(e) && !eval::satisfies(e, log[j].1->Message_0.attributes)
                ==> cursor::is_done(now->Ok_0, seq)
        }),
{
    let n = log.len() as int;
    let seq = (keys::from_pair_key(log[j].0)->0).1;
    let end = engine::leasing(call, log, n);
    lemma_unchanged(call, log, n);
    assert forall|topic_id: u64| #[trigger]
        keys::topic_seq_counter_key_bytes(topic_id) != keys::id_seq_key_bytes() by {
        keys::law_kinds_of_keys_differ(topic_id, topic_id, NameKind::Topic, Seq::empty());
    }
    keys::law_kinds_of_keys_differ(0, 0, NameKind::Topic, Seq::empty());
    service_laws::lemma_leasing_spares(
        call,
        log,
        n,
        keys::id_seq_key_bytes(),
        keys::be64(call.sub_id),
    );
    kv::law_spared_row_stays(call.rows, end.writes, "sub"@, keys::be64(call.sub_id));
    if end.cursor_changed {
        kv::lemma_after_push(
            call.rows,
            end.writes,
            engine::cursor_write(call.sub_id, end.cursor),
        );
    }
    if call.filter == Some(e) && !eval::satisfies(e, log[j].1->Message_0.attributes) {
        lemma_passed_over(call, log, e, n, j);
    }
    if cursor::is_done(call.cursor, seq) {
        assert(cursor::is_done(end.cursor, seq));
    }
}

} // verus!
