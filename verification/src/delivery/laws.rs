//! What holds of every delivery.

use crate::delivery::cursor;
use crate::delivery::dead_letter;
use crate::delivery::engine;
use crate::delivery::engine::{DeliveredView, EngineView, LeaseCall};
use crate::delivery::lease;
use crate::delivery::lease::{AckOutcome, Lease, Leases};
use crate::delivery::stream;
use crate::delivery::stream::Sessions;
use crate::filter::ast::ExprView;
use crate::store::codec::{CursorView, MessageView};
use crate::store::keys;
use crate::store::kv;
use crate::store::kv::{Rows, Scan, ValueView, Write};
use crate::text;
use crate::topic;
use vstd::prelude::*;

verus! {

/// The position of the message in a row of a log.
pub open spec fn seq_in(log: Scan, j: int) -> Option<u64> {
    match keys::from_pair_key(log[j].0) {
        Some((_, seq)) => Some(seq),
        None => None,
    }
}

/// The messages of a log stand in the order of their positions.
pub open spec fn is_log(log: Scan) -> bool {
    forall|i: int, j: int|
        #![trigger seq_in(log, i), seq_in(log, j)]
        0 <= i < j < log.len() && seq_in(log, i) is Some && seq_in(log, j) is Some ==> seq_in(
            log,
            i,
        )->0 < seq_in(log, j)->0
}

/// What a scan of a topic's messages returns is a log.
pub proof fn law_scan_of_topic_is_log(rows: Rows, topic_id: u64)
    requires
        kv::has_scan(rows, "msg"@, keys::be64(topic_id)),
    ensures
        is_log(kv::scan_of(rows, "msg"@, keys::be64(topic_id))),
{
    let log = kv::scan_of(rows, "msg"@, keys::be64(topic_id));
    assert forall|i: int, j: int|
        #![trigger seq_in(log, i), seq_in(log, j)]
        0 <= i < j < log.len() && seq_in(log, i) is Some && seq_in(log, j) is Some implies seq_in(
        log,
        i,
    )->0 < seq_in(log, j)->0 by {
        let a = keys::from_pair_key(log[i].0)->0;
        let b = keys::from_pair_key(log[j].0)->0;
        keys::law_pair_key_round_trip(a.0, a.1, log[i].0);
        keys::law_pair_key_round_trip(b.0, b.1, log[j].0);
        assert(text::has_prefix(log[i].0, keys::be64(topic_id)));
        assert(text::has_prefix(log[j].0, keys::be64(topic_id)));
        keys::lemma_pair_key_prefix(log[i].0, topic_id);
        keys::lemma_pair_key_prefix(log[j].0, topic_id);
        assert(text::bytes_lt(log[i].0, log[j].0));
        keys::law_pair_key_order(a.0, a.1, b.0, b.1);
    }
}

/// Looking at a message on a subscription may make this change: to the message's delivery, to a
/// counter, or to a log.
pub open spec fn is_change(write: Write, sub_id: u64, seq: u64) -> bool {
    match write {
        Write::Put(keyspace, key, _) => {
            ||| keyspace == "dlv"@ && key == keys::pair_key(sub_id, seq)
            ||| keyspace == "meta"@ && key == keys::lease_seq_key_bytes()
            ||| keyspace == "meta"@ && exists|topic_id: u64| #[trigger]
                keys::topic_seq_counter_key_bytes(topic_id) == key
            ||| keyspace == "msg"@
        },
        Write::Delete(keyspace, key) => keyspace == "dlv"@ && key == keys::pair_key(sub_id, seq),
    }
}

pub(crate) proof fn lemma_changes_of_step(
    rows: Rows,
    leases: Leases,
    cursor: CursorView,
    filter: Option<ExprView>,
    sub_id: u64,
    seq: u64,
    message: MessageView,
    now_ms: i64,
    ack_deadline_secs: i32,
)
    ensures
        ({
            let step = engine::message_step(
                rows,
                leases,
                cursor,
                filter,
                sub_id,
                seq,
                message,
                now_ms,
                ack_deadline_secs,
            );
            forall|i: int|
                0 <= i < step.writes.len() ==> is_change(#[trigger] step.writes[i], sub_id, seq)
        }),
{
    let step = engine::message_step(
        rows,
        leases,
        cursor,
        filter,
        sub_id,
        seq,
        message,
        now_ms,
        ack_deadline_secs,
    );
    let policy = engine::policy_of(rows, sub_id);
    let attempts = match engine::earlier_delivery(rows, leases, sub_id, seq) {
        Some(e) => e.attempts,
        None => 0,
    };
    let sent = engine::forwarding(
        rows,
        policy.dead_letter_topic->0,
        message,
        policy,
        attempts,
        now_ms,
    );
    if step.delivered is Some {
        assert(step.writes.len() == 2);
    } else if let engine::Forwarding::Sent(writes) = sent {
        let t = topic::topic_named(rows, policy.dead_letter_topic->0)->Ok_0;
        reveal_with_fuel(topic::append_writes, 3);
        assert(writes.len() == 2);
        let key = keys::topic_seq_counter_key_bytes(t.id);
        assert(is_change(writes[0], sub_id, seq)) by {
            assert(keys::topic_seq_counter_key_bytes(t.id) == key);
        }
        assert(is_change(writes[1], sub_id, seq));
        if step.writes.len() > 0 {
            assert(step.writes =~= writes.push(
                Write::Delete("dlv"@, keys::pair_key(sub_id, seq)),
            ));
        }
    }
}

/// What looking at one message leaves alone: the deliveries of all other messages and of all other
/// subscriptions, whether other messages are done, and all records.
pub proof fn law_step_is_local(
    rows: Rows,
    leases: Leases,
    cursor: CursorView,
    filter: Option<ExprView>,
    sub_id: u64,
    seq: u64,
    message: MessageView,
    now_ms: i64,
    ack_deadline_secs: i32,
    other_sub: u64,
    other: u64,
)
    requires
        (other_sub, other) != (sub_id, seq),
    ensures
        ({
            let step = engine::message_step(
                rows,
                leases,
                cursor,
                filter,
                sub_id,
                seq,
                message,
                now_ms,
                ack_deadline_secs,
            );
            &&& step.leases.contains_key((other_sub, other)) <==> leases.contains_key(
                (other_sub, other),
            )
            &&& leases.contains_key((other_sub, other)) ==> step.leases[(other_sub, other)]
                == leases[(other_sub, other)]
            &&& kv::spares(step.writes, "dlv"@, keys::pair_key(other_sub, other))
            &&& kv::spares(step.writes, "meta"@, keys::sub_key_bytes(other_sub))
            &&& kv::spares(step.writes, "meta"@, keys::sub_key_bytes(sub_id))
            &&& kv::spares(step.writes, "sub"@, keys::be64(other_sub))
            &&& other != seq ==> (cursor::is_done(step.cursor, other) <==> cursor::is_done(
                cursor,
                other,
            ))
        }),
{
    let step = engine::message_step(
        rows,
        leases,
        cursor,
        filter,
        sub_id,
        seq,
        message,
        now_ms,
        ack_deadline_secs,
    );
    kv::law_keyspaces_differ();
    cursor::law_marking_adds_one_message(cursor, seq, other);
    keys::law_pair_key_round_trip(sub_id, seq, keys::pair_key(other_sub, other));
    keys::law_pair_key_round_trip(other_sub, other, keys::pair_key(sub_id, seq));
    lemma_changes_of_step(
        rows,
        leases,
        cursor,
        filter,
        sub_id,
        seq,
        message,
        now_ms,
        ack_deadline_secs,
    );
    assert forall|i: int| 0 <= i < step.writes.len() implies {
        let write = #[trigger] step.writes[i];
        &&& !kv::concerns(write, "dlv"@, keys::pair_key(other_sub, other))
        &&& !kv::concerns(write, "meta"@, keys::sub_key_bytes(other_sub))
        &&& !kv::concerns(write, "meta"@, keys::sub_key_bytes(sub_id))
        &&& !kv::concerns(write, "sub"@, keys::be64(other_sub))
    } by {
        assert(is_change(step.writes[i], sub_id, seq));
        lemma_changes_spare_records(step.writes[i], sub_id, seq, other_sub);
        lemma_changes_spare_records(step.writes[i], sub_id, seq, sub_id);
    }
}

proof fn lemma_changes_spare_records(write: Write, sub_id: u64, seq: u64, other_sub: u64)
    requires
        is_change(write, sub_id, seq),
    ensures
        !kv::concerns(write, "meta"@, keys::sub_key_bytes(other_sub)),
{
    kv::law_keyspaces_differ();
    assert forall|topic_id: u64|
        #[trigger] keys::topic_seq_counter_key_bytes(topic_id) != keys::sub_key_bytes(other_sub) by {
        keys::law_kinds_of_keys_differ(other_sub, topic_id, keys::NameKind::Topic, Seq::empty());
    }
    keys::law_kinds_of_keys_differ(other_sub, other_sub, keys::NameKind::Topic, Seq::empty());
}

/// One of the first `n` rows of a log has this position.
pub open spec fn seen(log: Scan, n: int, seq: u64) -> bool {
    exists|j: int| 0 <= j < n && #[trigger] seq_in(log, j) == Some(seq)
}

proof fn lemma_unseen(log: Scan, n: int, j: int)
    requires
        is_log(log),
        0 <= n <= j < log.len(),
        seq_in(log, j) is Some,
    ensures
        !seen(log, n, seq_in(log, j)->0),
{
}

/// A request for messages leaves the deliveries of a message on a subscription as they are when it
/// does not come by that message, and it never changes subscription records.
proof fn lemma_leasing_is_local(call: LeaseCall, log: Scan, n: int, sub_id: u64, seq: u64)
    requires
        0 <= n <= log.len(),
        sub_id != call.sub_id || !seen(log, n, seq),
    ensures
        ({
            let s = engine::leasing(call, log, n);
            &&& s.leases.contains_key((sub_id, seq)) <==> call.leases.contains_key((sub_id, seq))
            &&& call.leases.contains_key((sub_id, seq)) ==> s.leases[(sub_id, seq)]
                == call.leases[(sub_id, seq)]
            &&& kv::spares(s.writes, "dlv"@, keys::pair_key(sub_id, seq))
            &&& kv::spares(s.writes, "meta"@, keys::sub_key_bytes(sub_id))
            &&& kv::spares(s.writes, "sub"@, keys::be64(sub_id))
            &&& !seen(log, n, seq) ==> (cursor::is_done(s.cursor, seq) <==> cursor::is_done(
                call.cursor,
                seq,
            ))
        }),
    decreases n,
{
    if n > 0 {
        assert(seen(log, n - 1, seq) ==> seen(log, n, seq));
        lemma_leasing_is_local(call, log, n - 1, sub_id, seq);
        let before = engine::leasing(call, log, n - 1);
        let after = engine::leasing(call, log, n);
        if after.writes != before.writes || after.leases != before.leases || after.cursor
            != before.cursor {
            let here = seq_in(log, n - 1)->0;
            assert(seq_in(log, n - 1) == Some(here));
            assert(seen(log, n, here));
            if sub_id != call.sub_id || seq != here {
                law_step_is_local(
                    kv::after_writes(call.rows, before.writes),
                    before.leases,
                    before.cursor,
                    call.filter,
                    call.sub_id,
                    here,
                    log[n - 1].1->Message_0,
                    call.now_ms,
                    call.ack_deadline_secs,
                    sub_id,
                    seq,
                );
                if seq == here {
                    assert(seen(log, n, seq));
                }
            }
        }
    }
}

/// A message may be handed out: the subscription wants it, it is not done, and no earlier delivery
/// of it is in flight or backing off.
pub open spec fn is_free(call: LeaseCall, seq: u64, message: MessageView) -> bool {
    &&& engine::wanted(call.filter, message.attributes)
    &&& !cursor::is_done(call.cursor, seq)
    &&& !engine::in_flight(call.leases, call.sub_id, seq, call.now_ms)
    &&& engine::earlier_delivery(call.rows, call.leases, call.sub_id, seq) matches Some(earlier)
        ==> !engine::backing_off(
        earlier,
        engine::policy_of(call.rows, call.sub_id),
        call.now_ms,
    )
}

/// How often a message will have been delivered once it is handed out now.
pub open spec fn attempt_due(call: LeaseCall, seq: u64) -> u32 {
    match engine::earlier_delivery(call.rows, call.leases, call.sub_id, seq) {
        Some(earlier) => engine::next_attempt(earlier.attempts),
        None => 1,
    }
}

/// The delivery of a message, with the generation that its lease gets.
pub open spec fn delivery_of(
    call: LeaseCall,
    seq: u64,
    message: MessageView,
    generation: u64,
) -> DeliveredView {
    DeliveredView {
        seq,
        ack_id: lease::ack_id_text(call.sub_id, seq, generation),
        message,
        delivery_attempt: attempt_due(call, seq),
        generation,
    }
}

/// A delivery is that of a message among the first `n` rows of the log that may be handed out.
pub open spec fn is_due(call: LeaseCall, log: Scan, n: int, d: DeliveredView) -> bool {
    exists|j: int|
        {
            &&& 0 <= j < n
            &&& #[trigger] seq_in(log, j) == Some(d.seq)
            &&& log[j].1 == ValueView::Message(d.message)
            &&& is_free(call, d.seq, d.message)
            &&& d == delivery_of(call, d.seq, d.message, d.generation)
        }
}

/// What looking at a row comes to depends only on the state that the request found.
pub proof fn lemma_row(call: LeaseCall, log: Scan, n: int)
    requires
        is_log(log),
        0 <= n < log.len(),
        seq_in(log, n) is Some,
        log[n].1 is Message,
    ensures
        ({
            let seq = seq_in(log, n)->0;
            let s = engine::leasing(call, log, n);
            let rows = kv::after_writes(call.rows, s.writes);
            &&& engine::earlier_delivery(rows, s.leases, call.sub_id, seq)
                == engine::earlier_delivery(call.rows, call.leases, call.sub_id, seq)
            &&& engine::policy_of(rows, call.sub_id) == engine::policy_of(call.rows, call.sub_id)
            &&& engine::in_flight(s.leases, call.sub_id, seq, call.now_ms) <==> engine::in_flight(
                call.leases,
                call.sub_id,
                seq,
                call.now_ms,
            )
            &&& cursor::is_done(s.cursor, seq) <==> cursor::is_done(call.cursor, seq)
        }),
{
    let seq = seq_in(log, n)->0;
    let s = engine::leasing(call, log, n);
    lemma_unseen(log, n, n);
    lemma_leasing_is_local(call, log, n, call.sub_id, seq);
    kv::law_spared_row_stays(
        call.rows,
        s.writes,
        "dlv"@,
        keys::pair_key(call.sub_id, seq),
    );
    kv::law_spared_row_stays(call.rows, s.writes, "meta"@, keys::sub_key_bytes(call.sub_id));
}

proof fn lemma_deliveries(call: LeaseCall, log: Scan, n: int)
    requires
        is_log(log),
        0 <= n <= log.len(),
        0 <= call.max_messages,
    ensures
        ({
            let out = engine::leasing(call, log, n).out;
            &&& out.len() <= call.max_messages
            &&& forall|k: int| 0 <= k < out.len() ==> is_due(call, log, n, #[trigger] out[k])
            &&& forall|i: int, j: int|
                0 <= i < j < out.len() ==> (#[trigger] out[i]).seq < (#[trigger] out[j]).seq
        }),
    decreases n,
{
    if n > 0 {
        lemma_deliveries(call, log, n - 1);
        let before = engine::leasing(call, log, n - 1).out;
        let after = engine::leasing(call, log, n).out;
        assert forall|k: int| 0 <= k < before.len() implies is_due(
            call,
            log,
            n,
            #[trigger] before[k],
        ) by {
            let d = before[k];
            assert(is_due(call, log, n - 1, d));
            let j = choose|j: int|
                {
                    &&& 0 <= j < n - 1
                    &&& #[trigger] seq_in(log, j) == Some(d.seq)
                    &&& log[j].1 == ValueView::Message(d.message)
                    &&& is_free(call, d.seq, d.message)
                    &&& d == delivery_of(call, d.seq, d.message, d.generation)
                };
            assert(seq_in(log, j) == Some(d.seq));
        }
        if after != before {
            let seq = seq_in(log, n - 1)->0;
            lemma_row(call, log, n - 1);
            let d = after.last();
            assert(seq_in(log, n - 1) == Some(d.seq));
            assert(is_due(call, log, n, d));
            assert forall|i: int| 0 <= i < before.len() implies (#[trigger] before[i]).seq < seq by {
                assert(is_due(call, log, n - 1, before[i]));
                let j = choose|j: int|
                    0 <= j < n - 1 && #[trigger] seq_in(log, j) == Some(before[i].seq);
                assert(seq_in(log, j) is Some && seq_in(log, n - 1) is Some);
            }
        }
    }
}

/// Every message handed out is in the log, is wanted, is not done, and is neither in flight nor
/// backing off; its attempt counts one more than the last. Messages come in the order of the log,
/// each at most once, and no more than were asked for.
pub proof fn law_deliveries(call: LeaseCall, log: Scan)
    requires
        is_log(log),
        0 <= call.max_messages,
    ensures
        ({
            let out = engine::leasing(call, log, log.len() as int).out;
            &&& out.len() <= call.max_messages
            &&& forall|k: int|
                0 <= k < out.len() ==> is_due(call, log, log.len() as int, #[trigger] out[k])
            &&& forall|i: int, j: int|
                0 <= i < j < out.len() ==> (#[trigger] out[i]).seq < (#[trigger] out[j]).seq
        }),
{
    lemma_deliveries(call, log, log.len() as int);
}

proof fn lemma_delivered_is_leased(call: LeaseCall, log: Scan, n: int, k: int)
    requires
        is_log(log),
        0 <= n <= log.len(),
        0 <= call.max_messages,
        0 <= k < engine::leasing(call, log, n).out.len(),
    ensures
        ({
            let s = engine::leasing(call, log, n);
            let d = s.out[k];
            &&& s.leases.contains_key((call.sub_id, d.seq))
            &&& s.leases[(call.sub_id, d.seq)] == lease_taken(call, d)
        }),
    decreases n,
{
    if n > 0 {
        let before = engine::leasing(call, log, n - 1);
        let after = engine::leasing(call, log, n);
        if k < before.out.len() {
            lemma_delivered_is_leased(call, log, n - 1, k);
            let d = before.out[k];
            assert(after.out[k] == d);
            if after.leases != before.leases {
                let here = seq_in(log, n - 1)->0;
                assert(d.seq != here) by {
                    lemma_deliveries(call, log, n - 1);
                    assert(is_due(call, log, n - 1, d));
                    let j = choose|j: int|
                        0 <= j < n - 1 && #[trigger] seq_in(log, j) == Some(d.seq);
                    assert(seq_in(log, j) is Some && seq_in(log, n - 1) is Some);
                }
                law_step_is_local(
                    kv::after_writes(call.rows, before.writes),
                    before.leases,
                    before.cursor,
                    call.filter,
                    call.sub_id,
                    here,
                    log[n - 1].1->Message_0,
                    call.now_ms,
                    call.ack_deadline_secs,
                    call.sub_id,
                    d.seq,
                );
            }
        }
    }
}

/// The lease that is taken for a delivery.
pub open spec fn lease_taken(call: LeaseCall, d: DeliveredView) -> Lease {
    Lease {
        sub_id: call.sub_id,
        seq: d.seq,
        deadline_ms: engine::lease_deadline(call.now_ms, call.ack_deadline_secs),
        attempts: d.delivery_attempt,
        generation: d.generation,
        given_back: false,
    }
}

/// The generation of the `k`-th lease after `taken` of them, up to the largest number.
pub open spec fn generation_after(taken: u64, k: nat) -> u64 {
    if taken + k > u64::MAX {
        u64::MAX
    } else {
        (taken + k) as u64
    }
}

/// A request for messages counts each lease that it takes, and the number is the generation.
pub(crate) proof fn lemma_generations(call: LeaseCall, log: Scan, n: int)
    requires
        0 <= n <= log.len(),
    ensures
        ({
            let s = engine::leasing(call, log, n);
            let taken = engine::leases_taken(call.rows);
            &&& engine::leases_taken(kv::after_writes(call.rows, s.writes)) == generation_after(
                taken,
                s.out.len(),
            )
            &&& forall|k: int|
                0 <= k < s.out.len() ==> (#[trigger] s.out[k]).generation == generation_after(
                    taken,
                    (k + 1) as nat,
                )
        }),
    decreases n,
{
    if n > 0 {
        lemma_generations(call, log, n - 1);
        let before = engine::leasing(call, log, n - 1);
        let after = engine::leasing(call, log, n);
        if after.writes != before.writes || after.out != before.out {
            let rows = kv::after_writes(call.rows, before.writes);
            let seq = seq_in(log, n - 1)->0;
            let message = log[n - 1].1->Message_0;
            lemma_step_counts(
                rows,
                before.leases,
                before.cursor,
                call.filter,
                call.sub_id,
                seq,
                message,
                call.now_ms,
                call.ack_deadline_secs,
            );
            let step = engine::message_step(
                rows,
                before.leases,
                before.cursor,
                call.filter,
                call.sub_id,
                seq,
                message,
                call.now_ms,
                call.ack_deadline_secs,
            );
            kv::lemma_after_concat(call.rows, before.writes, step.writes);
            if step.delivered is Some {
                assert(after.out == before.out.push(step.delivered->0));
            } else {
                assert(after.out == before.out);
            }
        }
    }
}

proof fn lemma_step_counts(
    rows: Rows,
    leases: Leases,
    cursor: CursorView,
    filter: Option<ExprView>,
    sub_id: u64,
    seq: u64,
    message: MessageView,
    now_ms: i64,
    ack_deadline_secs: i32,
)
    ensures
        ({
            let step = engine::message_step(
                rows,
                leases,
                cursor,
                filter,
                sub_id,
                seq,
                message,
                now_ms,
                ack_deadline_secs,
            );
            let taken = engine::leases_taken(rows);
            let now = engine::leases_taken(kv::after_writes(rows, step.writes));
            match step.delivered {
                Some(d) => now == topic::successor(taken) && d.generation == now,
                None => now == taken,
            }
        }),
{
    let step = engine::message_step(
        rows,
        leases,
        cursor,
        filter,
        sub_id,
        seq,
        message,
        now_ms,
        ack_deadline_secs,
    );
    let key = keys::lease_seq_key_bytes();
    kv::law_keyspaces_differ();
    if step.delivered is Some {
        let generation = (step.delivered->0).generation;
        assert(step.writes.len() == 2);
        kv::law_last_write_is_read(rows, step.writes, 0, "meta"@, key);
        keys::law_be64_round_trip(generation, Seq::empty());
    } else {
        let policy = engine::policy_of(rows, sub_id);
        let attempts = match engine::earlier_delivery(rows, leases, sub_id, seq) {
            Some(e) => e.attempts,
            None => 0,
        };
        let sent = engine::forwarding(
            rows,
            policy.dead_letter_topic->0,
            message,
            policy,
            attempts,
            now_ms,
        );
        if let engine::Forwarding::Sent(writes) = sent {
            let t = topic::topic_named(rows, policy.dead_letter_topic->0)->Ok_0;
            reveal_with_fuel(topic::append_writes, 3);
            assert(writes.len() == 2);
            keys::law_kinds_of_keys_differ(t.id, t.id, keys::NameKind::Topic, Seq::empty());
        }
        assert(kv::spares(step.writes, "meta"@, key));
        kv::law_spared_row_stays(rows, step.writes, "meta"@, key);
    }
}

/// No ack id is used twice: a lease that is taken has another ack id than any delivery of any message
/// before it, also after the earlier lease was dropped and nothing is stored of it any more. The
/// requirement leaves out the largest generation, beyond which there is none.
pub proof fn law_no_ack_id_is_used_twice(
    call: LeaseCall,
    log: Scan,
    k: int,
    other_sub: u64,
    earlier: DeliveredView,
)
    requires
        ({
            let out = engine::leasing(call, log, log.len() as int).out;
            &&& 0 <= k < out.len()
            &&& engine::id_stands(call.sub_id, out[k])
            &&& engine::leases_taken(call.rows) < u64::MAX
            &&& engine::id_stands(other_sub, earlier)
            &&& earlier.generation <= engine::leases_taken(call.rows)
        }),
    ensures
        engine::leasing(call, log, log.len() as int).out[k].ack_id != earlier.ack_id,
{
    lemma_generations(call, log, log.len() as int);
}

/// Within one request, too, no ack id is used twice.
pub proof fn law_ack_ids_of_a_request_differ(call: LeaseCall, log: Scan, i: int, j: int)
    requires
        ({
            let out = engine::leasing(call, log, log.len() as int).out;
            &&& 0 <= i < j < out.len()
            &&& engine::id_stands(call.sub_id, out[i])
            &&& engine::id_stands(call.sub_id, out[j])
            &&& engine::leases_taken(call.rows) + out.len() <= u64::MAX
        }),
    ensures
        engine::leasing(call, log, log.len() as int).out[i].ack_id != engine::leasing(
            call,
            log,
            log.len() as int,
        ).out[j].ack_id,
{
    lemma_generations(call, log, log.len() as int);
}

/// A delivery stays counted: a request for messages counts every lease that it takes and forgets
/// none.
pub proof fn law_leases_stay_counted(call: LeaseCall, log: Scan)
    ensures
        ({
            let out = engine::leasing(call, log, log.len() as int).out;
            let now = engine::leases_taken(
                kv::after_writes(call.rows, engine::lease_writes(call, log)),
            );
            &&& engine::leases_taken(call.rows) <= now
            &&& forall|k: int| 0 <= k < out.len() ==> (#[trigger] out[k]).generation <= now
        }),
{
    lemma_generations(call, log, log.len() as int);
    let end = engine::leasing(call, log, log.len() as int);
    let writes = engine::lease_writes(call, log);
    kv::law_keyspaces_differ();
    if writes != end.writes {
        kv::lemma_after_push(call.rows, end.writes, engine::cursor_write(call.sub_id, end.cursor));
    }
}

/// What takes no lease leaves the count of leases as it is: acknowledgements, changes of deadline,
/// and whatever removes deliveries.
pub proof fn law_only_leases_are_counted(
    rows: Rows,
    leases: Leases,
    sub_id: u64,
    ack_ids: Seq<Seq<char>>,
    now_ms: i64,
    secs: i32,
    after: Rows,
    gone: Set<(Seq<char>, Seq<u8>)>,
)
    requires
        engine::only_removed(rows, after, gone),
        forall|row: (Seq<char>, Seq<u8>)| #[trigger] gone.contains(row) ==> row.0 == "dlv"@,
    ensures
        engine::leases_taken(
            kv::after_writes(rows, engine::ack_end(rows, leases, sub_id, ack_ids).writes),
        ) == engine::leases_taken(rows),
        engine::leases_taken(
            kv::after_writes(
                rows,
                engine::changing_deadlines(
                    leases,
                    sub_id,
                    ack_ids,
                    now_ms,
                    secs,
                    ack_ids.len() as int,
                ).0,
            ),
        ) == engine::leases_taken(rows),
        engine::leases_taken(after) == engine::leases_taken(rows),
{
    kv::law_keyspaces_differ();
    let key = keys::lease_seq_key_bytes();
    let n = ack_ids.len() as int;
    let start = engine::stored_cursor(rows, sub_id)->Ok_0;
    lemma_acking_spares(leases, start, sub_id, ack_ids, n, key);
    lemma_changing_spares(leases, sub_id, ack_ids, now_ms, secs, n, key);
    let acks = engine::ack_end(rows, leases, sub_id, ack_ids).writes;
    assert(kv::spares(acks, "meta"@, key));
    kv::law_spared_row_stays(rows, acks, "meta"@, key);
    let changes = engine::changing_deadlines(leases, sub_id, ack_ids, now_ms, secs, n).0;
    kv::law_spared_row_stays(rows, changes, "meta"@, key);
    assert(rows.contains_key(("meta"@, key)) <==> after.contains_key(("meta"@, key)));
}

pub(crate) proof fn lemma_acking_spares(
    leases: Leases,
    start: CursorView,
    sub_id: u64,
    ack_ids: Seq<Seq<char>>,
    n: int,
    key: Seq<u8>,
)
    requires
        0 <= n <= ack_ids.len(),
    ensures
        kv::spares(engine::acking(leases, start, sub_id, ack_ids, n).writes, "meta"@, key),
    decreases n,
{
    kv::law_keyspaces_differ();
    if n > 0 {
        lemma_acking_spares(leases, start, sub_id, ack_ids, n - 1, key);
    }
}

pub(crate) proof fn lemma_changing_spares(
    leases: Leases,
    sub_id: u64,
    ack_ids: Seq<Seq<char>>,
    now_ms: i64,
    secs: i32,
    n: int,
    key: Seq<u8>,
)
    requires
        0 <= n <= ack_ids.len(),
    ensures
        kv::spares(
            engine::changing_deadlines(leases, sub_id, ack_ids, now_ms, secs, n).0,
            "meta"@,
            key,
        ),
    decreases n,
{
    kv::law_keyspaces_differ();
    if n > 0 {
        lemma_changing_spares(leases, sub_id, ack_ids, now_ms, secs, n - 1, key);
    }
}

/// Every message handed out is leased, until the deadline that was asked for.
pub proof fn law_delivered_is_leased(call: LeaseCall, log: Scan, k: int)
    requires
        is_log(log),
        0 <= call.max_messages,
        0 <= k < engine::leasing(call, log, log.len() as int).out.len(),
    ensures
        ({
            let end = engine::leasing(call, log, log.len() as int);
            let d = end.out[k];
            &&& end.leases.contains_key((call.sub_id, d.seq))
            &&& end.leases[(call.sub_id, d.seq)] == lease_taken(call, d)
        }),
{
    lemma_delivered_is_leased(call, log, log.len() as int, k);
}

/// An acknowledged message is not handed out again, and neither is one from before the
/// subscription was attached.
pub proof fn law_done_is_never_delivered(call: LeaseCall, log: Scan, seq: u64)
    requires
        is_log(log),
        0 <= call.max_messages,
        cursor::is_done(call.cursor, seq),
    ensures
        forall|k: int|
            0 <= k < engine::leasing(call, log, log.len() as int).out.len() ==> (
            #[trigger] engine::leasing(call, log, log.len() as int).out[k]).seq != seq,
{
    law_deliveries(call, log);
    let out = engine::leasing(call, log, log.len() as int).out;
    assert forall|k: int| 0 <= k < out.len() implies (#[trigger] out[k]).seq != seq by {
        assert(is_due(call, log, log.len() as int, out[k]));
    }
}

/// A message that is out with a client is not handed out again before its deadline.
pub proof fn law_in_flight_is_not_delivered(call: LeaseCall, log: Scan, seq: u64)
    requires
        is_log(log),
        0 <= call.max_messages,
        engine::in_flight(call.leases, call.sub_id, seq, call.now_ms),
    ensures
        forall|k: int|
            0 <= k < engine::leasing(call, log, log.len() as int).out.len() ==> (
            #[trigger] engine::leasing(call, log, log.len() as int).out[k]).seq != seq,
{
    law_deliveries(call, log);
    let out = engine::leasing(call, log, log.len() as int).out;
    assert forall|k: int| 0 <= k < out.len() implies (#[trigger] out[k]).seq != seq by {
        assert(is_due(call, log, log.len() as int, out[k]));
    }
}

/// A message is due for the dead-letter topic instead of another delivery.
pub open spec fn is_dead(call: LeaseCall, seq: u64) -> bool {
    let policy = engine::policy_of(call.rows, call.sub_id);
    engine::earlier_delivery(call.rows, call.leases, call.sub_id, seq) matches Some(earlier)
        && dead_letter::dead_letter_due(
        earlier.attempts,
        policy.dead_letter_topic is Some,
        policy.max_delivery_attempts,
    )
}

/// A message is among those that are handed out.
pub open spec fn delivered_in(
    call: LeaseCall,
    out: Seq<DeliveredView>,
    seq: u64,
    message: MessageView,
) -> bool {
    exists|k: int|
        0 <= k < out.len() && #[trigger] out[k] == delivery_of(
            call,
            seq,
            message,
            out[k].generation,
        )
}

proof fn lemma_nothing_held_back(call: LeaseCall, log: Scan, n: int, j: int)
    requires
        is_log(log),
        0 <= j < n <= log.len(),
        seq_in(log, j) is Some,
        log[j].1 is Message,
        is_free(call, seq_in(log, j)->0, log[j].1->Message_0),
        !is_dead(call, seq_in(log, j)->0),
        engine::leasing(call, log, n).failure is None,
        engine::leasing(call, log, n).out.len() < call.max_messages,
    ensures
        delivered_in(
            call,
            engine::leasing(call, log, n).out,
            seq_in(log, j)->0,
            log[j].1->Message_0,
        ),
    decreases n,
{
    let before = engine::leasing(call, log, n - 1);
    let after = engine::leasing(call, log, n);
    let seq = seq_in(log, j)->0;
    let message = log[j].1->Message_0;
    if j < n - 1 {
        lemma_nothing_held_back(call, log, n - 1, j);
        let k = choose|k: int|
            0 <= k < before.out.len() && #[trigger] before.out[k] == delivery_of(
                call,
                seq,
                message,
                before.out[k].generation,
            );
        assert(after.out[k] == before.out[k]);
    } else {
        lemma_row(call, log, j);
        let d = after.out.last();
        assert(after.out == before.out.push(d));
        assert(after.out[before.out.len() as int] == delivery_of(call, seq, message, d.generation));
    }
}

/// Nothing is held back: when a request succeeds and hands out less than it was asked for, it hands
/// out every message of the log that may be handed out and is not due for the dead-letter topic.
pub proof fn law_nothing_is_held_back(call: LeaseCall, log: Scan, j: int)
    requires
        is_log(log),
        0 <= j < log.len(),
        seq_in(log, j) is Some,
        log[j].1 is Message,
        is_free(call, seq_in(log, j)->0, log[j].1->Message_0),
        !is_dead(call, seq_in(log, j)->0),
        engine::leasing(call, log, log.len() as int).failure is None,
        engine::leasing(call, log, log.len() as int).out.len() < call.max_messages,
    ensures
        delivered_in(
            call,
            engine::leasing(call, log, log.len() as int).out,
            seq_in(log, j)->0,
            log[j].1->Message_0,
        ),
{
    lemma_nothing_held_back(call, log, log.len() as int, j);
}

/// Subscriptions do not disturb each other: a request for messages of one leaves the leases, the
/// stored deliveries, the record and the cursor of any other as they are.
pub proof fn law_subscriptions_are_independent(
    call: LeaseCall,
    log: Scan,
    other_sub: u64,
    seq: u64,
)
    requires
        other_sub != call.sub_id,
    ensures
        ({
            let end = engine::leasing(call, log, log.len() as int);
            let rows = kv::after_writes(call.rows, engine::lease_writes(call, log));
            &&& end.leases.contains_key((other_sub, seq)) <==> call.leases.contains_key(
                (other_sub, seq),
            )
            &&& call.leases.contains_key((other_sub, seq)) ==> end.leases[(other_sub, seq)]
                == call.leases[(other_sub, seq)]
            &&& engine::stored_lease(rows, other_sub, seq) == engine::stored_lease(
                call.rows,
                other_sub,
                seq,
            )
            &&& engine::stored_cursor(rows, other_sub) == engine::stored_cursor(
                call.rows,
                other_sub,
            )
            &&& kv::fetch(rows, "meta"@, keys::sub_key_bytes(other_sub)) == kv::fetch(
                call.rows,
                "meta"@,
                keys::sub_key_bytes(other_sub),
            )
        }),
{
    lemma_leasing_is_local(call, log, log.len() as int, other_sub, seq);
    kv::law_keyspaces_differ();
    keys::law_record_keys_injective(call.sub_id, other_sub);
    let writes = engine::lease_writes(call, log);
    kv::law_spared_row_stays(call.rows, writes, "dlv"@, keys::pair_key(other_sub, seq));
    kv::law_spared_row_stays(call.rows, writes, "sub"@, keys::be64(other_sub));
    kv::law_spared_row_stays(call.rows, writes, "meta"@, keys::sub_key_bytes(other_sub));
}

/// No message is lost: looking at one makes it done only if the subscription does not want it, or
/// if it is now stored in the dead-letter topic. Without a dead-letter topic of that name it is
/// handed out instead.
pub proof fn law_no_message_is_lost(
    rows: Rows,
    leases: Leases,
    cursor: CursorView,
    filter: Option<ExprView>,
    sub_id: u64,
    seq: u64,
    message: MessageView,
    now_ms: i64,
    ack_deadline_secs: i32,
)
    requires
        engine::wanted(filter, message.attributes),
    ensures
        ({
            let step = engine::message_step(
                rows,
                leases,
                cursor,
                filter,
                sub_id,
                seq,
                message,
                now_ms,
                ack_deadline_secs,
            );
            let policy = engine::policy_of(rows, sub_id);
            let earlier = engine::earlier_delivery(rows, leases, sub_id, seq)->0;
            let dead_letter_topic = policy.dead_letter_topic->0;
            let t = topic::topic_named(rows, dead_letter_topic)->Ok_0;
            &&& step.cursor != cursor ==> {
                &&& topic::topic_named(rows, dead_letter_topic) is Ok
                &&& kv::fetch(
                    kv::after_writes(rows, step.writes),
                    "msg"@,
                    keys::pair_key(t.id, topic::batch_seq(topic::tail_of(rows, t.id), 0)),
                ) == Some(
                    ValueView::Message(
                        topic::stored_message(
                            engine::forwarded_message(message, policy, earlier.attempts),
                            now_ms,
                            topic::expiry(
                                now_ms,
                                engine::effective_retention(t.message_retention_secs),
                            ),
                        ),
                    ),
                )
            }
            &&& topic::topic_named(rows, dead_letter_topic) matches Err(
                crate::error::ErrorView::NotFound { .. },
            ) ==> step.cursor == cursor && step.failure is None
        }),
{
    let step = engine::message_step(
        rows,
        leases,
        cursor,
        filter,
        sub_id,
        seq,
        message,
        now_ms,
        ack_deadline_secs,
    );
    let policy = engine::policy_of(rows, sub_id);
    if step.cursor != cursor {
        let earlier = engine::earlier_delivery(rows, leases, sub_id, seq)->0;
        let t = topic::topic_named(rows, policy.dead_letter_topic->0)->Ok_0;
        reveal_with_fuel(topic::append_writes, 3);
        kv::law_keyspaces_differ();
        assert(step.writes.len() == 3);
        kv::law_last_write_is_read(
            rows,
            step.writes,
            1,
            "msg"@,
            keys::pair_key(t.id, topic::batch_seq(topic::tail_of(rows, t.id), 0)),
        );
    }
}

/// One of the first `n` ack ids names the lease of a message on a subscription.
pub open spec fn acked(leases: Leases, ack_ids: Seq<Seq<char>>, n: int, k: (u64, u64)) -> bool {
    exists|i: int|
        0 <= i < n && leases.contains_key(k) && #[trigger] lease::lease_named_by(
            leases,
            lease::ack_id_parts(ack_ids[i]),
        ) == AckOutcome::Applied(leases[k])
}

proof fn lemma_acking(
    leases: Leases,
    start: CursorView,
    sub_id: u64,
    ack_ids: Seq<Seq<char>>,
    n: int,
    k: (u64, u64),
)
    requires
        lease::filed_by_key(leases),
        0 <= n <= ack_ids.len(),
    ensures
        ({
            let s = engine::acking(leases, start, sub_id, ack_ids, n);
            &&& s.leases.contains_key(k) <==> leases.contains_key(k) && !(k.0 == sub_id && acked(
                leases,
                ack_ids,
                n,
                k,
            ))
            &&& s.leases.contains_key(k) ==> s.leases[k] == leases[k]
        }),
    decreases n,
{
    if n > 0 {
        let before = engine::acking(leases, start, sub_id, ack_ids, n - 1);
        lemma_acking(leases, start, sub_id, ack_ids, n - 1, k);
        let parts = lease::ack_id_parts(ack_ids[n - 1]);
        if acked(leases, ack_ids, n - 1, k) {
            let i = choose|i: int|
                0 <= i < n - 1 && leases.contains_key(k) && #[trigger] lease::lease_named_by(
                    leases,
                    lease::ack_id_parts(ack_ids[i]),
                ) == AckOutcome::Applied(leases[k]);
            assert(lease::lease_named_by(leases, lease::ack_id_parts(ack_ids[i]))
                == AckOutcome::Applied(leases[k]));
        }
        if let Some((a, b, generation)) = parts {
            lemma_acking(leases, start, sub_id, ack_ids, n - 1, (a, b));
            if leases.contains_key((a, b)) && leases[(a, b)].generation == generation {
                assert(lease::lease_named_by(leases, parts) == AckOutcome::Applied(
                    leases[(a, b)],
                ));
                assert(acked(leases, ack_ids, n, (a, b)));
            }
        }
        if acked(leases, ack_ids, n, k) && !acked(leases, ack_ids, n - 1, k) {
            assert(lease::lease_named_by(leases, parts) == AckOutcome::Applied(leases[k]));
        }
    }
}

proof fn lemma_acking_cursor(
    leases: Leases,
    start: CursorView,
    sub_id: u64,
    ack_ids: Seq<Seq<char>>,
    n: int,
    seq: u64,
)
    requires
        lease::filed_by_key(leases),
        0 <= n <= ack_ids.len(),
    ensures
        cursor::is_done(engine::acking(leases, start, sub_id, ack_ids, n).cursor, seq)
            <==> cursor::is_done(start, seq) || acked(leases, ack_ids, n, (sub_id, seq)),
    decreases n,
{
    if n > 0 {
        let m = n - 1;
        let before = engine::acking(leases, start, sub_id, ack_ids, m);
        lemma_acking_cursor(leases, start, sub_id, ack_ids, n - 1, seq);
        let parts = lease::ack_id_parts(ack_ids[n - 1]);
        assert forall|k: (u64, u64)| #[trigger] acked(leases, ack_ids, m, k) implies acked(
            leases,
            ack_ids,
            n,
            k,
        ) by {
            let i = choose|i: int|
                0 <= i < n - 1 && leases.contains_key(k) && #[trigger] lease::lease_named_by(
                    leases,
                    lease::ack_id_parts(ack_ids[i]),
                ) == AckOutcome::Applied(leases[k]);
            assert(lease::lease_named_by(leases, lease::ack_id_parts(ack_ids[i]))
                == AckOutcome::Applied(leases[k]));
        }
        match lease::lease_on(before.leases, sub_id, parts) {
            AckOutcome::Applied(l) => {
                let (a, b, generation) = parts->0;
                lemma_acking(leases, start, sub_id, ack_ids, n - 1, (a, b));
                assert(lease::lease_named_by(leases, parts) == AckOutcome::Applied(
                    leases[(a, b)],
                ));
                assert(acked(leases, ack_ids, n, (a, b)));
                cursor::law_marking_adds_one_message(before.cursor, l.seq, seq);
                assert forall|k: (u64, u64)| #[trigger] acked(leases, ack_ids, n, k) && !acked(
                    leases,
                    ack_ids,
                    m,
                    k,
                ) implies k == (a, b) by {
                    lemma_newly_acked(leases, ack_ids, n, k);
                }
            },
            _ => {
                let k = (sub_id, seq);
                if acked(leases, ack_ids, n, k) && !acked(leases, ack_ids, m, k) {
                    lemma_newly_acked(leases, ack_ids, n, k);
                    lemma_acking(leases, start, sub_id, ack_ids, n - 1, k);
                }
            },
        }
    }
}

proof fn lemma_newly_acked(leases: Leases, ack_ids: Seq<Seq<char>>, n: int, k: (u64, u64))
    requires
        lease::filed_by_key(leases),
        0 < n <= ack_ids.len(),
        acked(leases, ack_ids, n, k),
        !acked(leases, ack_ids, n - 1, k),
    ensures
        lease::lease_named_by(leases, lease::ack_id_parts(ack_ids[n - 1])) == AckOutcome::Applied(
            leases[k],
        ),
        lease::ack_id_parts(ack_ids[n - 1]) is Some,
        ((lease::ack_id_parts(ack_ids[n - 1])->0).0, (lease::ack_id_parts(ack_ids[n - 1])->0).1)
            == k,
{
    let i = choose|i: int|
        0 <= i < n && leases.contains_key(k) && #[trigger] lease::lease_named_by(
            leases,
            lease::ack_id_parts(ack_ids[i]),
        ) == AckOutcome::Applied(leases[k]);
    assert(i == n - 1);
}

/// Acknowledging on a subscription makes exactly those of its messages done whose leases are named,
/// and ends exactly these leases. Ack ids that name no lease of the subscription, such as those of
/// another one, change nothing, and are no error.
pub proof fn law_acknowledged_is_done(
    rows: Rows,
    leases: Leases,
    sub_id: u64,
    ack_ids: Seq<Seq<char>>,
    k: (u64, u64),
    seq: u64,
)
    requires
        lease::filed_by_key(leases),
        engine::stored_cursor(rows, sub_id) is Ok,
    ensures
        ({
            let start = engine::stored_cursor(rows, sub_id)->Ok_0;
            let end = engine::ack_end(rows, leases, sub_id, ack_ids);
            let now = engine::stored_cursor(kv::after_writes(rows, end.writes), sub_id);
            let n = ack_ids.len() as int;
            &&& end.outcome is Ok
            &&& now is Ok
            &&& cursor::is_done(now->Ok_0, seq) <==> cursor::is_done(start, seq) || acked(
                leases,
                ack_ids,
                n,
                (sub_id, seq),
            )
            &&& end.leases.contains_key(k) <==> leases.contains_key(k) && !(k.0 == sub_id && acked(
                leases,
                ack_ids,
                n,
                k,
            ))
            &&& end.leases.contains_key(k) ==> end.leases[k] == leases[k]
        }),
{
    let start = engine::stored_cursor(rows, sub_id)->Ok_0;
    let n = ack_ids.len() as int;
    let s = engine::acking(leases, start, sub_id, ack_ids, n);
    let end = engine::ack_end(rows, leases, sub_id, ack_ids);
    lemma_acking(leases, start, sub_id, ack_ids, n, k);
    lemma_acking_cursor(leases, start, sub_id, ack_ids, n, seq);
    kv::law_keyspaces_differ();
    lemma_acking_writes(leases, start, sub_id, ack_ids, n);
    if s.cursor_changed {
        assert(end.writes.skip(s.writes.len() as int + 1) =~= Seq::<Write>::empty());
        kv::law_last_write_is_read(
            rows,
            end.writes,
            s.writes.len() as int,
            "sub"@,
            keys::be64(sub_id),
        );
    } else {
        kv::law_spared_row_stays(rows, end.writes, "sub"@, keys::be64(sub_id));
    }
}

/// A delivery that is out can be acknowledged with its ack id: its message is then done on the
/// subscription, and its lease has ended.
pub proof fn law_delivery_can_be_acknowledged(
    rows: Rows,
    leases: Leases,
    sub_id: u64,
    d: DeliveredView,
    ack_ids: Seq<Seq<char>>,
    i: int,
)
    requires
        lease::filed_by_key(leases),
        engine::stored_cursor(rows, sub_id) is Ok,
        engine::is_out(leases, sub_id, d),
        0 <= i < ack_ids.len(),
        ack_ids[i] == d.ack_id,
    ensures
        ({
            let end = engine::ack_end(rows, leases, sub_id, ack_ids);
            let now = engine::stored_cursor(kv::after_writes(rows, end.writes), sub_id);
            &&& end.outcome is Ok
            &&& now is Ok
            &&& cursor::is_done(now->Ok_0, d.seq)
            &&& !end.leases.contains_key((sub_id, d.seq))
        }),
{
    let k = (sub_id, d.seq);
    assert(lease::lease_named_by(leases, lease::ack_id_parts(ack_ids[i])) == AckOutcome::Applied(
        leases[k],
    ));
    assert(acked(leases, ack_ids, ack_ids.len() as int, k));
    law_acknowledged_is_done(rows, leases, sub_id, ack_ids, k, d.seq);
}

proof fn lemma_acking_writes(
    leases: Leases,
    start: CursorView,
    sub_id: u64,
    ack_ids: Seq<Seq<char>>,
    n: int,
)
    requires
        0 <= n <= ack_ids.len(),
    ensures
        ({
            let s = engine::acking(leases, start, sub_id, ack_ids, n);
            &&& kv::spares(s.writes, "sub"@, keys::be64(sub_id))
            &&& !s.cursor_changed ==> s.cursor == start && s.writes.len() == 0
        }),
    decreases n,
{
    kv::law_keyspaces_differ();
    if n > 0 {
        lemma_acking_writes(leases, start, sub_id, ack_ids, n - 1);
    }
}

/// A message that its client gave back may be handed out again at once, at any time and whatever
/// the retry policy says.
pub proof fn law_given_back_is_free(call: LeaseCall, seq: u64, message: MessageView)
    requires
        call.leases.contains_key((call.sub_id, seq)),
        call.leases[(call.sub_id, seq)].given_back,
        call.leases[(call.sub_id, seq)].deadline_ms <= call.now_ms,
        engine::wanted(call.filter, message.attributes),
        !cursor::is_done(call.cursor, seq),
    ensures
        is_free(call, seq, message),
        attempt_due(call, seq) == engine::next_attempt(
            call.leases[(call.sub_id, seq)].attempts,
        ),
{
}

/// A change of deadline to no seconds gives back every lease that it names.
pub proof fn law_no_seconds_gives_back(
    leases: Leases,
    sub_id: u64,
    ack_ids: Seq<Seq<char>>,
    now_ms: i64,
    secs: i32,
    i: int,
)
    requires
        lease::filed_by_key(leases),
        secs <= 0,
        0 <= i < ack_ids.len(),
        lease::lease_on(leases, sub_id, lease::ack_id_parts(ack_ids[i])) is Applied,
    ensures
        ({
            let l = lease::lease_on(leases, sub_id, lease::ack_id_parts(ack_ids[i]))->Applied_0;
            let (_, after) = engine::changing_deadlines(
                leases,
                sub_id,
                ack_ids,
                now_ms,
                secs,
                ack_ids.len() as int,
            );
            &&& after.contains_key((l.sub_id, l.seq))
            &&& after[(l.sub_id, l.seq)] == (Lease {
                deadline_ms: now_ms,
                given_back: true,
                ..l
            })
        }),
{
    lemma_giving_back(leases, sub_id, ack_ids, now_ms, secs, i, ack_ids.len() as int);
}

proof fn lemma_giving_back(
    leases: Leases,
    sub_id: u64,
    ack_ids: Seq<Seq<char>>,
    now_ms: i64,
    secs: i32,
    i: int,
    n: int,
)
    requires
        lease::filed_by_key(leases),
        secs <= 0,
        0 <= i < ack_ids.len(),
        0 <= n <= ack_ids.len(),
        lease::lease_on(leases, sub_id, lease::ack_id_parts(ack_ids[i])) is Applied,
    ensures
        ({
            let l = lease::lease_on(leases, sub_id, lease::ack_id_parts(ack_ids[i]))->Applied_0;
            let (_, after) = engine::changing_deadlines(
                leases,
                sub_id,
                ack_ids,
                now_ms,
                secs,
                n,
            );
            &&& lease::filed_by_key(after)
            &&& after.contains_key((l.sub_id, l.seq))
            &&& after[(l.sub_id, l.seq)] == l || after[(l.sub_id, l.seq)] == (Lease {
                deadline_ms: now_ms,
                given_back: true,
                ..l
            })
            &&& i < n ==> after[(l.sub_id, l.seq)] == (Lease {
                deadline_ms: now_ms,
                given_back: true,
                ..l
            })
        }),
    decreases n,
{
    if n > 0 {
        lemma_giving_back(leases, sub_id, ack_ids, now_ms, secs, i, n - 1);
    }
}

/// A lease that ran out may be handed out again, unless a client has set a retry policy.
pub proof fn law_expired_is_free(call: LeaseCall, seq: u64, message: MessageView)
    requires
        call.leases.contains_key((call.sub_id, seq)),
        call.leases[(call.sub_id, seq)].deadline_ms <= call.now_ms,
        !engine::policy_of(call.rows, call.sub_id).retry_policy_explicit,
        engine::wanted(call.filter, message.attributes),
        !cursor::is_done(call.cursor, seq),
    ensures
        is_free(call, seq, message),
        attempt_due(call, seq) == engine::next_attempt(
            call.leases[(call.sub_id, seq)].attempts,
        ),
{
}

/// Every lease is stored, with all that is known of it.
pub open spec fn leases_stored(rows: Rows, leases: Leases) -> bool {
    forall|k: (u64, u64)| #[trigger]
        leases.contains_key(k) ==> engine::stored_lease(rows, k.0, k.1) == Some(leases[k])
}

/// Forgetting leases that ran out changes nothing for the subscription: the same messages may be
/// handed out as before, counted as the same attempts, and a backoff is still waited for.
pub proof fn law_sweep_changes_no_delivery(
    call: LeaseCall,
    limit_ms: i64,
    seq: u64,
    message: MessageView,
)
    requires
        leases_stored(call.rows, call.leases),
        limit_ms <= call.now_ms,
    ensures
        ({
            let after = LeaseCall {
                leases: engine::swept(call.leases, call.sub_id, limit_ms),
                ..call
            };
            &&& is_free(after, seq, message) == is_free(call, seq, message)
            &&& attempt_due(after, seq) == attempt_due(call, seq)
        }),
{
    if call.leases.contains_key((call.sub_id, seq)) {
        assert(engine::stored_lease(call.rows, call.sub_id, seq) == Some(
            call.leases[(call.sub_id, seq)],
        ));
    }
}

/// A restart keeps every lease that is stored.
pub proof fn law_restart_keeps_leases(rows: Rows, leases: Leases, k: (u64, u64))
    requires
        leases_stored(rows, leases),
        leases.contains_key(k),
    ensures
        engine::recovered(rows, Leases::empty()).contains_key(k),
        engine::recovered(rows, Leases::empty())[k] == leases[k],
{
}

/// A request for messages stores every lease that it takes: if all were stored before, all are
/// stored after.
pub proof fn law_leases_stay_stored(call: LeaseCall, log: Scan)
    requires
        leases_stored(call.rows, call.leases),
    ensures
        leases_stored(
            kv::after_writes(call.rows, engine::lease_writes(call, log)),
            engine::leasing(call, log, log.len() as int).leases,
        ),
{
    let n = log.len() as int;
    lemma_leases_stay_stored(call, log, n);
    let end = engine::leasing(call, log, n);
    let writes = engine::lease_writes(call, log);
    kv::law_keyspaces_differ();
    if writes != end.writes {
        kv::lemma_after_push(call.rows, end.writes, engine::cursor_write(call.sub_id, end.cursor));
    }
    let rows = kv::after_writes(call.rows, end.writes);
    assert forall|k: (u64, u64)| #[trigger] end.leases.contains_key(k) implies engine::stored_lease(
        kv::after_writes(call.rows, writes),
        k.0,
        k.1,
    ) == Some(end.leases[k]) by {
        assert(engine::stored_lease(rows, k.0, k.1) == Some(end.leases[k]));
    }
}

proof fn lemma_leases_stay_stored(call: LeaseCall, log: Scan, n: int)
    requires
        leases_stored(call.rows, call.leases),
        0 <= n <= log.len(),
    ensures
        leases_stored(
            kv::after_writes(call.rows, engine::leasing(call, log, n).writes),
            engine::leasing(call, log, n).leases,
        ),
    decreases n,
{
    if n > 0 {
        lemma_leases_stay_stored(call, log, n - 1);
        let before = engine::leasing(call, log, n - 1);
        let after = engine::leasing(call, log, n);
        let rows = kv::after_writes(call.rows, before.writes);
        if after.writes != before.writes || after.leases != before.leases {
            let seq = seq_in(log, n - 1)->0;
            let message = log[n - 1].1->Message_0;
            let step = engine::message_step(
                rows,
                before.leases,
                before.cursor,
                call.filter,
                call.sub_id,
                seq,
                message,
                call.now_ms,
                call.ack_deadline_secs,
            );
            kv::lemma_after_concat(call.rows, before.writes, step.writes);
            let now = kv::after_writes(rows, step.writes);
            assert forall|k: (u64, u64)| #[trigger]
                after.leases.contains_key(k) implies engine::stored_lease(now, k.0, k.1) == Some(
                after.leases[k],
            ) by {
                if k != (call.sub_id, seq) {
                    law_step_is_local(
                        rows,
                        before.leases,
                        before.cursor,
                        call.filter,
                        call.sub_id,
                        seq,
                        message,
                        call.now_ms,
                        call.ack_deadline_secs,
                        k.0,
                        k.1,
                    );
                    kv::law_spared_row_stays(
                        rows,
                        step.writes,
                        "dlv"@,
                        keys::pair_key(k.0, k.1),
                    );
                    assert(engine::stored_lease(rows, k.0, k.1) == Some(before.leases[k]));
                } else if step.delivered is Some {
                    assert(step.writes.skip(2) =~= Seq::<Write>::empty());
                    kv::law_last_write_is_read(
                        rows,
                        step.writes,
                        1,
                        "dlv"@,
                        keys::pair_key(k.0, k.1),
                    );
                }
            }
        }
    }
}

/// Forgetting the leases of one subscription that ran out leaves those of any other as they are.
pub proof fn law_sweep_is_local(leases: Leases, sub_id: u64, limit_ms: i64, k: (u64, u64))
    requires
        k.0 != sub_id,
    ensures
        engine::swept(leases, sub_id, limit_ms).contains_key(k) <==> leases.contains_key(k),
        leases.contains_key(k) ==> engine::swept(leases, sub_id, limit_ms)[k] == leases[k],
{
}

/// Changing deadlines on one subscription leaves the leases of any other as they are, whatever the
/// ack ids name.
pub proof fn law_deadline_changes_are_local(
    leases: Leases,
    sub_id: u64,
    ack_ids: Seq<Seq<char>>,
    now_ms: i64,
    secs: i32,
    k: (u64, u64),
)
    requires
        lease::filed_by_key(leases),
        k.0 != sub_id,
    ensures
        ({
            let (_, after) = engine::changing_deadlines(
                leases,
                sub_id,
                ack_ids,
                now_ms,
                secs,
                ack_ids.len() as int,
            );
            &&& after.contains_key(k) <==> leases.contains_key(k)
            &&& leases.contains_key(k) ==> after[k] == leases[k]
        }),
{
    lemma_deadline_changes_are_local(leases, sub_id, ack_ids, now_ms, secs, k, ack_ids.len() as int);
}

proof fn lemma_deadline_changes_are_local(
    leases: Leases,
    sub_id: u64,
    ack_ids: Seq<Seq<char>>,
    now_ms: i64,
    secs: i32,
    k: (u64, u64),
    n: int,
)
    requires
        lease::filed_by_key(leases),
        k.0 != sub_id,
        0 <= n <= ack_ids.len(),
    ensures
        ({
            let (_, after) = engine::changing_deadlines(
                leases,
                sub_id,
                ack_ids,
                now_ms,
                secs,
                n,
            );
            &&& lease::filed_by_key(after)
            &&& after.contains_key(k) <==> leases.contains_key(k)
            &&& leases.contains_key(k) ==> after[k] == leases[k]
        }),
    decreases n,
{
    if n > 0 {
        lemma_deadline_changes_are_local(leases, sub_id, ack_ids, now_ms, secs, k, n - 1);
    }
}

/// A row of a log holds a message that is not done.
pub open spec fn is_open(log: Scan, cursor: CursorView, j: int) -> bool {
    &&& seq_in(log, j) is Some
    &&& log[j].1 is Message
    &&& !cursor::is_done(cursor, seq_in(log, j)->0)
}

/// The messages among the first `n` rows of a log that are not done, with their positions.
pub open spec fn open_messages(log: Scan, cursor: CursorView, n: int) -> Seq<(u64, MessageView)>
    decreases n,
{
    if n <= 0 {
        Seq::empty()
    } else {
        let before = open_messages(log, cursor, n - 1);
        if is_open(log, cursor, n - 1) {
            before.push((seq_in(log, n - 1)->0, log[n - 1].1->Message_0))
        } else {
            before
        }
    }
}

/// A message that is not done is among those that are not done.
pub open spec fn among(open: Seq<(u64, MessageView)>, log: Scan, j: int) -> bool {
    exists|k: int|
        0 <= k < open.len() && #[trigger] open[k] == (seq_in(log, j)->0, log[j].1->Message_0)
}

/// The messages that are not done are those of the log, each once, the smallest position first.
pub proof fn law_open_messages(log: Scan, cursor: CursorView)
    requires
        is_log(log),
    ensures
        ({
            let open = open_messages(log, cursor, log.len() as int);
            &&& forall|a: int, b: int|
                0 <= a < b < open.len() ==> (#[trigger] open[a]).0 < (#[trigger] open[b]).0
            &&& forall|j: int|
                0 <= j < log.len() && #[trigger] is_open(log, cursor, j) ==> among(open, log, j)
            &&& forall|k: int|
                0 <= k < open.len() ==> !cursor::is_done(cursor, (#[trigger] open[k]).0)
        }),
{
    lemma_open_messages(log, cursor, log.len() as int);
}

proof fn lemma_open_messages(log: Scan, cursor: CursorView, n: int)
    requires
        is_log(log),
        0 <= n <= log.len(),
    ensures
        ({
            let open = open_messages(log, cursor, n);
            &&& forall|a: int, b: int|
                0 <= a < b < open.len() ==> (#[trigger] open[a]).0 < (#[trigger] open[b]).0
            &&& forall|j: int|
                0 <= j < n && #[trigger] is_open(log, cursor, j) ==> among(open, log, j)
            &&& forall|k: int|
                0 <= k < open.len() ==> {
                    &&& !cursor::is_done(cursor, (#[trigger] open[k]).0)
                    &&& seen(log, n, open[k].0)
                }
        }),
    decreases n,
{
    if n > 0 {
        lemma_open_messages(log, cursor, n - 1);
        let before = open_messages(log, cursor, n - 1);
        let open = open_messages(log, cursor, n);
        assert forall|j: int| 0 <= j < n && #[trigger] is_open(log, cursor, j) implies among(
            open,
            log,
            j,
        ) by {
            if j < n - 1 {
                assert(among(before, log, j));
                let k = choose|k: int|
                    0 <= k < before.len() && #[trigger] before[k] == (
                        seq_in(log, j)->0,
                        log[j].1->Message_0,
                    );
                assert(open[k] == before[k]);
            } else {
                assert(open[before.len() as int] == (seq_in(log, j)->0, log[j].1->Message_0));
            }
        }
        assert forall|k: int| 0 <= k < open.len() implies {
            &&& !cursor::is_done(cursor, (#[trigger] open[k]).0)
            &&& seen(log, n, open[k].0)
        } by {
            if k < before.len() {
                assert(open[k] == before[k]);
                assert(seen(log, n - 1, before[k].0));
                let j = choose|j: int| 0 <= j < n - 1 && #[trigger] seq_in(log, j) == Some(
                    before[k].0,
                );
                assert(seq_in(log, j) == Some(open[k].0));
            } else {
                assert(seq_in(log, n - 1) == Some(open[k].0));
            }
        }
        assert forall|a: int, b: int| 0 <= a < b < open.len() implies (#[trigger] open[a]).0 < (
        #[trigger] open[b]).0 by {
            assert(open[a] == before[a]);
            if b < before.len() {
                assert(open[b] == before[b]);
            } else {
                assert(seen(log, n - 1, before[a].0));
                lemma_unseen(log, n - 1, n - 1);
                let j = choose|j: int| 0 <= j < n - 1 && #[trigger] seq_in(log, j) == Some(
                    before[a].0,
                );
                assert(seq_in(log, j) is Some && seq_in(log, n - 1) is Some);
            }
        }
    }
}

/// A subscription has no filter, none of its messages is leased, and no delivery of it is stored.
pub open spec fn is_fresh(call: LeaseCall) -> bool {
    &&& call.filter is None
    &&& forall|seq: u64| !#[trigger] call.leases.contains_key((call.sub_id, seq))
    &&& forall|seq: u64|
        kv::fetch(call.rows, "dlv"@, #[trigger] keys::pair_key(call.sub_id, seq)) is None
}

proof fn lemma_first_lease(call: LeaseCall, log: Scan, n: int)
    requires
        is_log(log),
        is_fresh(call),
        0 <= n <= log.len(),
        0 <= call.max_messages,
    ensures
        ({
            let s = engine::leasing(call, log, n);
            let open = open_messages(log, call.cursor, n);
            &&& s.failure is None
            &&& s.cursor == call.cursor
            &&& !s.cursor_changed
            &&& s.out.len() == if open.len() < call.max_messages {
                open.len() as int
            } else {
                call.max_messages as int
            }
            &&& forall|k: int|
                0 <= k < s.out.len() ==> {
                    &&& (#[trigger] s.out[k]).seq == open[k].0
                    &&& s.out[k].message == open[k].1
                    &&& s.out[k].delivery_attempt == 1
                }
        }),
    decreases n,
{
    if n > 0 {
        lemma_first_lease(call, log, n - 1);
        let before = engine::leasing(call, log, n - 1);
        if is_open(log, call.cursor, n - 1) {
            let seq = seq_in(log, n - 1)->0;
            lemma_row(call, log, n - 1);
            assert(!call.leases.contains_key((call.sub_id, seq)));
            assert(kv::fetch(call.rows, "dlv"@, keys::pair_key(call.sub_id, seq)) is None);
            assert(engine::earlier_delivery(call.rows, call.leases, call.sub_id, seq) is None);
            if before.out.len() < call.max_messages {
                let after = engine::leasing(call, log, n);
                assert(after.out == before.out.push(after.out.last()));
            }
        }
    }
}

/// The first request for messages on a subscription without a filter hands out, of the messages that
/// are not done, those with the smallest positions: as many as were asked for, or all. Each counts as
/// the first attempt and is leased until the deadline. The cursor stays.
pub proof fn law_first_lease(call: LeaseCall, log: Scan)
    requires
        is_log(log),
        is_fresh(call),
        0 <= call.max_messages,
    ensures
        ({
            let end = engine::leasing(call, log, log.len() as int);
            let open = open_messages(log, call.cursor, log.len() as int);
            &&& end.failure is None
            &&& end.cursor == call.cursor && !end.cursor_changed
            &&& end.out.len() == if open.len() < call.max_messages {
                open.len() as int
            } else {
                call.max_messages as int
            }
            &&& forall|k: int|
                0 <= k < end.out.len() ==> {
                    let d = #[trigger] end.out[k];
                    &&& d.seq == open[k].0
                    &&& d.message == open[k].1
                    &&& d.delivery_attempt == 1
                    &&& end.leases.contains_key((call.sub_id, d.seq))
                    &&& end.leases[(call.sub_id, d.seq)] == lease_taken(call, d)
                }
        }),
{
    let end = engine::leasing(call, log, log.len() as int);
    lemma_first_lease(call, log, log.len() as int);
    assert forall|k: int| 0 <= k < end.out.len() implies {
        let d = #[trigger] end.out[k];
        &&& end.leases.contains_key((call.sub_id, d.seq))
        &&& end.leases[(call.sub_id, d.seq)] == lease_taken(call, d)
    } by {
        law_delivered_is_leased(call, log, k);
    }
}

/// What a request for messages hands out does not come again, whatever later requests ask for, while
/// its lease stands and the deadline has not been reached.
pub proof fn law_leased_does_not_come_again(
    call: LeaseCall,
    log: Scan,
    later: LeaseCall,
    later_log: Scan,
    k: int,
)
    requires
        is_log(log),
        0 <= call.max_messages,
        is_log(later_log),
        0 <= later.max_messages,
        0 <= k < engine::leasing(call, log, log.len() as int).out.len(),
        ({
            let end = engine::leasing(call, log, log.len() as int);
            let key = (call.sub_id, end.out[k].seq);
            &&& later.sub_id == call.sub_id
            &&& later.leases.contains_key(key)
            &&& later.leases[key] == end.leases[key]
            &&& later.now_ms < engine::lease_deadline(call.now_ms, call.ack_deadline_secs)
        }),
    ensures
        ({
            let d = engine::leasing(call, log, log.len() as int).out[k];
            let again = engine::leasing(later, later_log, later_log.len() as int).out;
            forall|i: int| 0 <= i < again.len() ==> (#[trigger] again[i]).seq != d.seq
        }),
{
    law_delivered_is_leased(call, log, k);
    let d = engine::leasing(call, log, log.len() as int).out[k];
    law_in_flight_is_not_delivered(later, later_log, d.seq);
}

/// Closing a stream ends the leases that it holds and no other. A message that went out on it, but
/// whose lease has ended since, or was taken anew by someone else, is left to them.
pub proof fn law_closing_ends_what_is_held(
    leases: Leases,
    sessions: Sessions,
    stream_id: u64,
    k: (u64, u64),
)
    ensures
        ({
            let after = leases.remove_keys(engine::stream_leases(leases, sessions, stream_id));
            &&& after.contains_key(k) <==> leases.contains_key(k) && !engine::is_held(
                leases,
                sessions,
                stream_id,
                k,
            )
            &&& after.contains_key(k) ==> after[k] == leases[k]
        }),
{
}

proof fn lemma_sending(
    sessions: Sessions,
    stream_id: u64,
    delivered: Seq<DeliveredView>,
    n: int,
)
    requires
        sessions.contains_key(stream_id),
        0 <= n <= delivered.len(),
        forall|i: int, j: int|
            0 <= i < j < delivered.len() ==> (#[trigger] delivered[i]).seq < (
            #[trigger] delivered[j]).seq,
    ensures
        ({
            let after = engine::sending(sessions, stream_id, delivered, n);
            &&& after.contains_key(stream_id)
            &&& after[stream_id].info == sessions[stream_id].info
            &&& forall|k: int|
                0 <= k < n ==> {
                    let d = #[trigger] delivered[k];
                    &&& after[stream_id].generations.contains_key(d.seq)
                    &&& after[stream_id].generations[d.seq] == d.generation
                }
        }),
    decreases n,
{
    if n > 0 {
        lemma_sending(sessions, stream_id, delivered, n - 1);
        let after = engine::sending(sessions, stream_id, delivered, n);
        assert forall|k: int| 0 <= k < n implies {
            let d = #[trigger] delivered[k];
            &&& after[stream_id].generations.contains_key(d.seq)
            &&& after[stream_id].generations[d.seq] == d.generation
        } by {
            if k < n - 1 {
                assert(delivered[k].seq < delivered[n - 1].seq);
            }
        }
    }
}

/// A stream holds what it is handed: if it is closed then, all of that can be handed out again at
/// once.
pub proof fn law_stream_holds_what_it_is_handed(
    call: LeaseCall,
    log: Scan,
    sessions: Sessions,
    stream_id: u64,
    k: int,
)
    requires
        is_log(log),
        0 <= call.max_messages,
        sessions.contains_key(stream_id),
        sessions[stream_id].info.sub_id == call.sub_id,
        0 <= k < engine::leasing(call, log, log.len() as int).out.len(),
    ensures
        ({
            let end = engine::leasing(call, log, log.len() as int);
            let now = engine::sending(sessions, stream_id, end.out, end.out.len() as int);
            engine::is_held(end.leases, now, stream_id, (call.sub_id, end.out[k].seq))
        }),
{
    let end = engine::leasing(call, log, log.len() as int);
    law_deliveries(call, log);
    law_delivered_is_leased(call, log, k);
    lemma_sending(sessions, stream_id, end.out, end.out.len() as int);
    assert(end.out[k].seq == end.out[k].seq);
}

proof fn lemma_out_stands(
    rows: Rows,
    before: EngineView,
    sub_id: u64,
    topic_id: u64,
    max_messages: i32,
    now_ms: i64,
    ack_deadline_secs: i32,
    k: int,
)
    requires
        ({
            let end = engine::lease_end(
                rows,
                before,
                sub_id,
                topic_id,
                max_messages,
                now_ms,
                ack_deadline_secs,
            );
            &&& end.outcome matches Ok(out)
            &&& 0 <= k < out.len()
            &&& lease::filed_by_key(end.engine.leases)
            &&& engine::is_out(end.engine.leases, sub_id, out[k])
        }),
        kv::has_scan(rows, "msg"@, keys::be64(topic_id)),
    ensures
        ({
            let end = engine::lease_end(
                rows,
                before,
                sub_id,
                topic_id,
                max_messages,
                now_ms,
                ack_deadline_secs,
            );
            let d = (end.outcome->Ok_0)[k];
            &&& engine::id_stands(sub_id, d)
            &&& engine::leases_taken(rows) < u64::MAX ==> engine::leases_taken(rows) < d.generation
            &&& d.generation <= engine::leases_taken(kv::after_writes(rows, end.writes))
            &&& end.engine.leases.contains_key((sub_id, d.seq))
            &&& end.engine.leases[(sub_id, d.seq)].generation == d.generation
        }),
{
    let call = engine::lease_call(
        rows,
        before,
        engine::stored_cursor(rows, sub_id)->Ok_0,
        sub_id,
        max_messages,
        now_ms,
        ack_deadline_secs,
    );
    let log = kv::scan_of(rows, "msg"@, keys::be64(topic_id));
    law_scan_of_topic_is_log(rows, topic_id);
    law_delivered_is_leased(call, log, k);
    law_leases_stay_counted(call, log);
    lemma_generations(call, log, log.len() as int);
}

/// What went out on a stream gets another ack id when it is handed out again after the stream was
/// closed, and so does any other message: no ack id of the stream is used again, whoever asks next.
/// The lease on which a message went out has ended with the stream. The requirement leaves out the
/// largest generation, beyond which there is none.
pub proof fn law_closed_stream_leaves_no_ack_id(
    rows: Rows,
    before: EngineView,
    stream_id: u64,
    now_ms: i64,
    j: int,
    closed: Rows,
    later: EngineView,
    next_stream: u64,
    later_ms: i64,
    k: int,
)
    requires
        ({
            let first = engine::stream_lease_end(rows, before, stream_id, now_ms);
            let gone = engine::stream_leases(first.engine.leases, first.engine.sessions, stream_id);
            let handed_out = kv::after_writes(rows, first.writes);
            let next = engine::stream_lease_end(closed, later, next_stream, later_ms);
            &&& first.outcome matches Ok(out)
            &&& 0 <= j < out.len()
            &&& lease::filed_by_key(first.engine.leases)
            &&& engine::all_out(
                first.engine.leases,
                engine::stream_subscription(before.sessions, stream_id),
                out,
            )
            &&& kv::has_scan(
                rows,
                "msg"@,
                keys::be64(before.sessions[stream_id].info.topic_id),
            )
            &&& engine::only_removed(handed_out, closed, engine::delivery_rows(gone))
            &&& engine::leases_taken(handed_out) < u64::MAX
            &&& next.outcome matches Ok(again)
            &&& 0 <= k < again.len()
            &&& lease::filed_by_key(next.engine.leases)
            &&& engine::all_out(
                next.engine.leases,
                engine::stream_subscription(later.sessions, next_stream),
                again,
            )
            &&& kv::has_scan(
                closed,
                "msg"@,
                keys::be64(later.sessions[next_stream].info.topic_id),
            )
        }),
    ensures
        ({
            let first = engine::stream_lease_end(rows, before, stream_id, now_ms);
            let gone = engine::stream_leases(first.engine.leases, first.engine.sessions, stream_id);
            let next = engine::stream_lease_end(closed, later, next_stream, later_ms);
            let sub_id = engine::stream_subscription(before.sessions, stream_id);
            let d = (first.outcome->Ok_0)[j];
            &&& !first.engine.leases.remove_keys(gone).contains_key((sub_id, d.seq))
            &&& (next.outcome->Ok_0)[k].ack_id != d.ack_id
            &&& (next.outcome->Ok_0)[k].generation > d.generation
        }),
{
    let first = engine::stream_lease_end(rows, before, stream_id, now_ms);
    let gone = engine::stream_leases(first.engine.leases, first.engine.sessions, stream_id);
    let handed_out = kv::after_writes(rows, first.writes);
    let next = engine::stream_lease_end(closed, later, next_stream, later_ms);
    let out = first.outcome->Ok_0;
    let info = before.sessions[stream_id].info;
    let asked = capped(stream::budget(before.sessions, stream_id).0);
    assert(engine::is_out(first.engine.leases, info.sub_id, out[j]));
    lemma_out_stands(
        rows,
        before,
        info.sub_id,
        info.topic_id,
        asked,
        now_ms,
        info.ack_deadline_secs,
        j,
    );
    let call = engine::lease_call(
        rows,
        before,
        engine::stored_cursor(rows, info.sub_id)->Ok_0,
        info.sub_id,
        asked,
        now_ms,
        info.ack_deadline_secs,
    );
    let log = kv::scan_of(rows, "msg"@, keys::be64(info.topic_id));
    law_scan_of_topic_is_log(rows, info.topic_id);
    law_stream_holds_what_it_is_handed(call, log, before.sessions, stream_id, j);
    assert(gone.contains((info.sub_id, out[j].seq)));
    assert forall|row: (Seq<char>, Seq<u8>)| #[trigger] engine::delivery_rows(gone).contains(
        row,
    ) implies row.0 == "dlv"@ by {}
    law_only_leases_are_counted(
        handed_out,
        first.engine.leases,
        info.sub_id,
        Seq::empty(),
        now_ms,
        0,
        closed,
        engine::delivery_rows(gone),
    );
    let next_info = later.sessions[next_stream].info;
    let again = next.outcome->Ok_0;
    assert(engine::is_out(next.engine.leases, next_info.sub_id, again[k]));
    lemma_out_stands(
        closed,
        later,
        next_info.sub_id,
        next_info.topic_id,
        capped(stream::budget(later.sessions, next_stream).0),
        later_ms,
        next_info.ack_deadline_secs,
        k,
    );
}

spec fn capped(messages: int) -> i32 {
    if messages > i32::MAX {
        i32::MAX
    } else {
        messages as i32
    }
}

} // verus!
