//! Leases messages out of a topic's log to subscriptions, and applies acknowledgements and changes
//! of deadline to those leases.
//!
//! Whoever asks for messages also finds the leases that have run out: such a message is handed out
//! again on the spot, and the delivery counts as one more attempt. Nothing else counts attempts.

use crate::arith;
use crate::delivery::cursor;
use crate::delivery::dead_letter;
use crate::delivery::dead_letter::DeadLetterPolicy;
use crate::delivery::laws;
use crate::delivery::lease;
use crate::delivery::lease::{AckOutcome, Lease, LeaseTable, Leases};
use crate::delivery::retry;
use crate::delivery::stream;
use crate::delivery::stream::{Sessions, StreamInfo, StreamRegistry};
use crate::error;
use crate::error::{not_found, Error, ErrorView};
use crate::filter;
use crate::filter::ast::ExprView;
use crate::filter::eval;
use crate::filter::CompiledFilter;
use crate::id_map::IdMap;
use crate::limits::MAX_TOPIC_RETENTION_SECS;
use crate::store::codec::{
    copy_bytes, CursorRecord, CursorView, DeliveryRecord, MessageRecord, MessageView,
};
use crate::store::keys;
use crate::store::kv;
use crate::store::kv::{KvStore, KvValue, Rows, Scan, ValueView, Write};
use crate::string_map::{Entries, StringMap};
use crate::text;
use crate::topic;
use crate::topic::{NewMessage, TopicStore};
use vstd::prelude::*;
use vstd::string::*;

verus! {

/// A message handed out.
#[derive(Debug)]
pub struct Delivered {
    /// Position in the topic's log.
    pub seq: u64,
    /// What the client presents to acknowledge this delivery or to change its deadline.
    pub ack_id: String,
    /// The message.
    pub message: MessageRecord,
    /// How often the message was delivered on this subscription, this time included.
    pub delivery_attempt: u32,
    /// The generation of the lease, which no other lease has.
    pub generation: u64,
}

/// What a [`Delivered`] holds.
pub struct DeliveredView {
    pub seq: u64,
    pub ack_id: Seq<char>,
    pub message: MessageView,
    pub delivery_attempt: u32,
    pub generation: u64,
}

impl View for Delivered {
    type V = DeliveredView;

    open spec fn view(&self) -> DeliveredView {
        DeliveredView {
            seq: self.seq,
            ack_id: self.ack_id@,
            message: self.message@,
            delivery_attempt: self.delivery_attempt,
            generation: self.generation,
        }
    }
}

/// The ack id of a delivery on a subscription stands for it.
pub open spec fn id_stands(sub_id: u64, d: DeliveredView) -> bool {
    lease::ack_id_parts(d.ack_id) == Some((sub_id, d.seq, d.generation))
}

/// A delivery is out on a subscription: its ack id names the lease of its message.
pub open spec fn is_out(leases: Leases, sub_id: u64, d: DeliveredView) -> bool {
    &&& leases.contains_key((sub_id, d.seq))
    &&& leases[(sub_id, d.seq)].sub_id == sub_id
    &&& leases[(sub_id, d.seq)].seq == d.seq
    &&& lease::lease_named_by(leases, lease::ack_id_parts(d.ack_id)) == AckOutcome::Applied(
        leases[(sub_id, d.seq)],
    )
}

/// All deliveries are out on a subscription.
pub open spec fn all_out(leases: Leases, sub_id: u64, out: Seq<DeliveredView>) -> bool {
    forall|k: int| 0 <= k < out.len() ==> is_out(leases, sub_id, #[trigger] out[k])
}

/// How many leases were taken so far. The generation of a lease is its number in this count.
pub open spec fn leases_taken(rows: Rows) -> u64 {
    topic::counter(rows, keys::lease_seq_key_bytes())
}

/// What redelivery depends on in a subscription.
pub struct PolicyView {
    pub name: Seq<char>,
    pub min_retry_backoff_secs: i64,
    pub max_retry_backoff_secs: i64,
    pub retry_policy_explicit: bool,
    pub dead_letter_topic: Option<Seq<char>>,
    pub max_delivery_attempts: i32,
}

/// What redelivery depends on in the subscription with an id; the defaults when there is none.
pub open spec fn policy_of(rows: Rows, sub_id: u64) -> PolicyView {
    match kv::fetch(rows, "meta"@, keys::sub_key_bytes(sub_id)) {
        Some(ValueView::Subscription(s)) => PolicyView {
            name: s.name,
            min_retry_backoff_secs: s.min_retry_backoff_secs,
            max_retry_backoff_secs: s.max_retry_backoff_secs,
            retry_policy_explicit: s.retry_policy_explicit,
            dead_letter_topic: s.dead_letter_topic,
            max_delivery_attempts: s.max_delivery_attempts,
        },
        _ => PolicyView {
            name: Seq::empty(),
            min_retry_backoff_secs: 10,
            max_retry_backoff_secs: 600,
            retry_policy_explicit: false,
            dead_letter_topic: None,
            max_delivery_attempts: 0,
        },
    }
}

/// The text of the filter of the subscription with an id; blank when there is none.
pub open spec fn filter_text(rows: Rows, sub_id: u64) -> Seq<char> {
    match kv::fetch(rows, "meta"@, keys::sub_key_bytes(sub_id)) {
        Some(ValueView::Subscription(s)) => s.filter,
        _ => Seq::empty(),
    }
}

/// A subscription wants messages with these attributes.
pub open spec fn wanted(filter: Option<ExprView>, attributes: Entries) -> bool {
    match filter {
        Some(e) => eval::satisfies(e, attributes),
        None => true,
    }
}

/// An earlier delivery of a message: its deadline, how often the message was delivered by then, and
/// whether the client gave it back.
pub struct Earlier {
    pub deadline_ms: i64,
    pub attempts: u32,
    pub given_back: bool,
}

/// The last delivery of a message on a subscription: its lease, or else the stored row.
pub open spec fn earlier_delivery(rows: Rows, leases: Leases, sub_id: u64, seq: u64) -> Option<
    Earlier,
> {
    if leases.contains_key((sub_id, seq)) {
        let l = leases[(sub_id, seq)];
        Some(
            Earlier { deadline_ms: l.deadline_ms, attempts: l.attempts, given_back: l.given_back },
        )
    } else {
        match kv::fetch(rows, "dlv"@, keys::pair_key(sub_id, seq)) {
            Some(ValueView::Delivery(d)) => Some(
                Earlier {
                    deadline_ms: d.deadline_ms,
                    attempts: d.attempts,
                    given_back: d.given_back,
                },
            ),
            _ => None,
        }
    }
}

/// A message is out on a lease that has not run out.
pub open spec fn in_flight(leases: Leases, sub_id: u64, seq: u64, now_ms: i64) -> bool {
    leases.contains_key((sub_id, seq)) && leases[(sub_id, seq)].deadline_ms > now_ms
}

/// A client has set a retry policy, and its backoff since the deadline has not passed yet. A
/// delivery that was given back has no backoff.
pub open spec fn backing_off(earlier: Earlier, policy: PolicyView, now_ms: i64) -> bool {
    &&& policy.retry_policy_explicit
    &&& !earlier.given_back
    &&& now_ms < retry::eligible_at(
        earlier.deadline_ms,
        earlier.attempts,
        policy.min_retry_backoff_secs,
        policy.max_retry_backoff_secs,
    )
}

/// What forwarding a message to a dead-letter topic comes to.
pub enum Forwarding {
    /// There is no such topic.
    NoTopic,
    /// The topic or the message is not valid.
    Failed(ErrorView),
    /// The message is stored in the topic by these changes.
    Sent(Seq<Write>),
}

/// The message as it is forwarded: with the attributes that tell where it came from.
pub open spec fn forwarded_message(
    message: MessageView,
    policy: PolicyView,
    attempts: u32,
) -> NewMessage {
    NewMessage {
        payload: message.payload,
        attributes: dead_letter::dead_letter_attributes(
            message.attributes,
            attempts,
            policy.name,
            message.publish_ts_ms,
        ),
        ordering_key: message.ordering_key,
    }
}

/// The retention of a topic; the longest one when it sets none.
pub open spec fn effective_retention(message_retention_secs: i64) -> i64 {
    if message_retention_secs > 0 {
        message_retention_secs
    } else {
        MAX_TOPIC_RETENTION_SECS
    }
}

/// What forwarding a message to a dead-letter topic comes to.
pub open spec fn forwarding(
    rows: Rows,
    dead_letter_topic: Seq<char>,
    message: MessageView,
    policy: PolicyView,
    attempts: u32,
    now_ms: i64,
) -> Forwarding {
    match topic::topic_named(rows, dead_letter_topic) {
        Err(ErrorView::NotFound { .. }) => Forwarding::NoTopic,
        Err(e) => Forwarding::Failed(e),
        Ok(t) => {
            let batch = seq![forwarded_message(message, policy, attempts)];
            match topic::append_error(batch) {
                Some(e) => Forwarding::Failed(e),
                None => Forwarding::Sent(
                    topic::append_writes(
                        t.id,
                        topic::tail_of(rows, t.id),
                        batch,
                        now_ms,
                        topic::expiry(now_ms, effective_retention(t.message_retention_secs)),
                        1,
                    ),
                ),
            }
        },
    }
}

/// One more delivery, up to the largest number.
pub open spec fn next_attempt(attempts: u32) -> u32 {
    if attempts == u32::MAX {
        u32::MAX
    } else {
        (attempts + 1) as u32
    }
}

/// The deadline of a lease that is taken at `now_ms`.
pub open spec fn lease_deadline(now_ms: i64, ack_deadline_secs: i32) -> i64 {
    let secs = if ack_deadline_secs < 0 {
        0
    } else {
        ack_deadline_secs as int
    };
    arith::clamp_i64(now_ms + secs * 1000) as i64
}

/// What looking at one message changes.
pub struct Step {
    pub writes: Seq<Write>,
    pub leases: Leases,
    pub cursor: CursorView,
    pub cursor_changed: bool,
    pub delivered: Option<DeliveredView>,
    pub failure: Option<ErrorView>,
}

/// Nothing changes.
pub open spec fn no_step(leases: Leases, cursor: CursorView) -> Step {
    Step {
        writes: Seq::empty(),
        leases,
        cursor,
        cursor_changed: false,
        delivered: None,
        failure: None,
    }
}

/// A message is handed out that was delivered `attempts` times before. Its lease is counted, and has
/// its number as generation.
pub open spec fn deliver_step(
    rows: Rows,
    leases: Leases,
    cursor: CursorView,
    sub_id: u64,
    seq: u64,
    message: MessageView,
    attempts: u32,
    now_ms: i64,
    ack_deadline_secs: i32,
) -> Step {
    let attempt = next_attempt(attempts);
    let deadline_ms = lease_deadline(now_ms, ack_deadline_secs);
    let generation = topic::successor(leases_taken(rows));
    let lease = Lease {
        sub_id,
        seq,
        deadline_ms,
        attempts: attempt,
        generation,
        given_back: false,
    };
    Step {
        writes: seq![
            Write::Put(
                "meta"@,
                keys::lease_seq_key_bytes(),
                ValueView::Bytes(keys::be64(generation)),
            ),
            lease_write(sub_id, lease),
        ],
        leases: leases.insert((sub_id, seq), lease),
        delivered: Some(
            DeliveredView {
                seq,
                ack_id: lease::ack_id_text(sub_id, seq, generation),
                message,
                delivery_attempt: attempt,
                generation,
            },
        ),
        ..no_step(leases, cursor)
    }
}

/// What looking at a message that is not done changes. One that the subscription does not want is
/// done. One that is in flight or backing off stays as it is. One that was delivered too often is
/// forwarded to the dead-letter topic, if there is one. Any other is handed out.
pub open spec fn message_step(
    rows: Rows,
    leases: Leases,
    cursor: CursorView,
    filter: Option<ExprView>,
    sub_id: u64,
    seq: u64,
    message: MessageView,
    now_ms: i64,
    ack_deadline_secs: i32,
) -> Step {
    let policy = policy_of(rows, sub_id);
    if !wanted(filter, message.attributes) {
        Step {
            cursor: cursor::marked(cursor, seq),
            cursor_changed: true,
            ..no_step(leases, cursor)
        }
    } else {
        match earlier_delivery(rows, leases, sub_id, seq) {
            None => deliver_step(
                rows,
                leases,
                cursor,
                sub_id,
                seq,
                message,
                0,
                now_ms,
                ack_deadline_secs,
            ),
            Some(earlier) => if in_flight(leases, sub_id, seq, now_ms) || backing_off(
                earlier,
                policy,
                now_ms,
            ) {
                no_step(leases, cursor)
            } else {
                let again = deliver_step(
                    rows,
                    leases,
                    cursor,
                    sub_id,
                    seq,
                    message,
                    earlier.attempts,
                    now_ms,
                    ack_deadline_secs,
                );
                if dead_letter::dead_letter_due(
                    earlier.attempts,
                    policy.dead_letter_topic is Some,
                    policy.max_delivery_attempts,
                ) {
                    match forwarding(
                        rows,
                        policy.dead_letter_topic->0,
                        message,
                        policy,
                        earlier.attempts,
                        now_ms,
                    ) {
                        Forwarding::NoTopic => again,
                        Forwarding::Failed(e) => Step {
                            failure: Some(e),
                            ..no_step(leases, cursor)
                        },
                        Forwarding::Sent(writes) => Step {
                            writes: writes.push(
                                Write::Delete("dlv"@, keys::pair_key(sub_id, seq)),
                            ),
                            leases: leases.remove((sub_id, seq)),
                            cursor: cursor::marked(cursor, seq),
                            cursor_changed: true,
                            ..no_step(leases, cursor)
                        },
                    }
                } else {
                    again
                }
            },
        }
    }
}

/// The leases of all other subscriptions are the same.
pub open spec fn same_for_others(before: Leases, after: Leases, sub_id: u64) -> bool {
    forall|k: (u64, u64)|
        k.0 != sub_id ==> {
            &&& #[trigger] after.contains_key(k) <==> before.contains_key(k)
            &&& after.contains_key(k) ==> after[k] == before[k]
        }
}

/// What an optional delivery holds.
pub open spec fn opt_delivered(d: Option<Delivered>) -> Option<DeliveredView> {
    match d {
        Some(x) => Some(x@),
        None => None,
    }
}

struct ReclaimPolicy {
    name: String,
    min_retry_backoff_secs: i64,
    max_retry_backoff_secs: i64,
    retry_policy_explicit: bool,
    dead_letter: DeadLetterPolicy,
}

impl View for ReclaimPolicy {
    type V = PolicyView;

    closed spec fn view(&self) -> PolicyView {
        PolicyView {
            name: self.name@,
            min_retry_backoff_secs: self.min_retry_backoff_secs,
            max_retry_backoff_secs: self.max_retry_backoff_secs,
            retry_policy_explicit: self.retry_policy_explicit,
            dead_letter_topic: topic::opt_text(self.dead_letter.topic),
            max_delivery_attempts: self.dead_letter.max_delivery_attempts,
        }
    }
}

fn reclaim_policy<K: KvStore>(kv: &K, sub_id: u64) -> (r: ReclaimPolicy)
    ensures
        r@ == policy_of(kv.rows(), sub_id),
{
    match kv.get("meta", keys::sub_key(sub_id).as_slice()) {
        Some(KvValue::Subscription(s)) => ReclaimPolicy {
            name: s.name,
            min_retry_backoff_secs: s.min_retry_backoff_secs,
            max_retry_backoff_secs: s.max_retry_backoff_secs,
            retry_policy_explicit: s.retry_policy_explicit,
            dead_letter: DeadLetterPolicy {
                topic: s.dead_letter_topic,
                max_delivery_attempts: s.max_delivery_attempts,
            },
        },
        _ => {
            proof {
                reveal_strlit("");
                assert(""@ =~= Seq::<char>::empty());
            }
            ReclaimPolicy {
                name: String::from_str(""),
                min_retry_backoff_secs: 10,
                max_retry_backoff_secs: 600,
                retry_policy_explicit: false,
                dead_letter: DeadLetterPolicy { topic: None, max_delivery_attempts: 0 },
            }
        },
    }
}

fn is_backing_off(
    deadline_ms: i64,
    attempts: u32,
    given_back: bool,
    policy: &ReclaimPolicy,
    now_ms: i64,
) -> (r: bool)
    ensures
        r == backing_off(Earlier { deadline_ms, attempts, given_back }, policy@, now_ms),
{
    policy.retry_policy_explicit && !given_back && now_ms
        < retry::next_eligible_at_ms(
        deadline_ms,
        attempts,
        policy.min_retry_backoff_secs,
        policy.max_retry_backoff_secs,
    )
}

/// Forwards a message to a dead-letter topic. Returns whether there is such a topic.
fn forward_to_dead_letter_topic<K: KvStore>(
    kv: &mut K,
    dead_letter_topic: &str,
    message: &MessageRecord,
    policy: &ReclaimPolicy,
    attempts: u32,
    now_ms: i64,
) -> (r: Result<bool, Error>)
    ensures
        match forwarding(
            old(kv).rows(),
            dead_letter_topic@,
            message@,
            policy@,
            attempts,
            now_ms,
        ) {
            Forwarding::NoTopic => r is Ok && !r->Ok_0 && final(kv).rows() == old(kv).rows(),
            Forwarding::Failed(e) => r is Err && r->Err_0@ == e && final(kv).rows() == old(
                kv,
            ).rows(),
            Forwarding::Sent(writes) => match r {
                Ok(sent) => sent && final(kv).rows() == kv::after_writes(old(kv).rows(), writes),
                Err(e) => {
                    &&& !K::reliable()
                    &&& K::may_fail(e@)
                    &&& kv::torn(old(kv).rows(), writes, final(kv).rows())
                },
            },
        },
{
    let topics = TopicStore::new();
    let dlq = match topics.get(kv, dead_letter_topic) {
        Ok(record) => record,
        Err(Error::NotFound { .. }) => {
            return Ok(false);
        },
        Err(e) => {
            return Err(e);
        },
    };
    let attributes = dead_letter::build_attributes(
        &message.attributes,
        attempts,
        policy.name.as_str(),
        message.publish_ts_ms,
    );
    let retention_secs: i64 = if dlq.message_retention_secs > 0 {
        dlq.message_retention_secs
    } else {
        MAX_TOPIC_RETENTION_SECS
    };
    let mut batch: Vec<(Vec<u8>, StringMap, String)> = Vec::new();
    batch.push((copy_bytes(&message.payload), attributes, message.ordering_key.clone()));
    assert(topic::new_messages(batch@) =~= seq![forwarded_message(message@, policy@, attempts)]);
    match topics.append(kv, dlq.id, batch, now_ms, retention_secs) {
        Ok(_) => Ok(true),
        Err(e) => Err(e),
    }
}

fn find_earlier<K: KvStore>(kv: &K, leases: &LeaseTable, sub_id: u64, seq: u64) -> (r: Option<
    (i64, u32, bool),
>)
    ensures
        match earlier_delivery(kv.rows(), leases@, sub_id, seq) {
            Some(earlier) => r == Some(
                (earlier.deadline_ms, earlier.attempts, earlier.given_back),
            ),
            None => r is None,
        },
{
    match leases.get(sub_id, seq) {
        Some(l) => Some((l.deadline_ms, l.attempts, l.given_back)),
        None => match kv.get("dlv", keys::delivery_key(sub_id, seq).as_slice()) {
            Some(KvValue::Delivery(d)) => Some((d.deadline_ms, d.attempts, d.given_back)),
            _ => None,
        },
    }
}

/// Hands out a message that was delivered `attempts` times before.
fn hand_out<K: KvStore>(
    kv: &mut K,
    leases: &mut LeaseTable,
    Ghost(cursor): Ghost<CursorView>,
    sub_id: u64,
    seq: u64,
    message: &MessageRecord,
    attempts: u32,
    now_ms: i64,
    ack_deadline_secs: i32,
) -> (r: Result<Delivered, Error>)
    ensures
        ({
            let step = deliver_step(
                old(kv).rows(),
                old(leases)@,
                cursor,
                sub_id,
                seq,
                message@,
                attempts,
                now_ms,
                ack_deadline_secs,
            );
            &&& final(leases)@ == step.leases
            &&& match r {
                Ok(d) => {
                    &&& final(kv).rows() == kv::after_writes(old(kv).rows(), step.writes)
                    &&& step.delivered == Some(d@)
                    &&& id_stands(sub_id, d@)
                },
                Err(e) => {
                    &&& !K::reliable()
                    &&& K::may_fail(e@)
                    &&& kv::torn(old(kv).rows(), step.writes, final(kv).rows())
                },
            }
        }),
{
    let ghost rows = kv.rows();
    let ghost writes = deliver_step(
        rows,
        leases@,
        cursor,
        sub_id,
        seq,
        message@,
        attempts,
        now_ms,
        ack_deadline_secs,
    ).writes;
    let attempt: u32 = if attempts == u32::MAX {
        u32::MAX
    } else {
        attempts + 1
    };
    let secs: i64 = if ack_deadline_secs < 0 {
        0
    } else {
        ack_deadline_secs as i64
    };
    let deadline_ms: i64 = arith::saturating_add(now_ms, secs * 1000);
    let taken: u64 = topic::read_counter(kv, keys::lease_seq_key().as_slice());
    let generation: u64 = if taken == u64::MAX {
        u64::MAX
    } else {
        taken + 1
    };
    let ack_id = leases.insert(sub_id, seq, deadline_ms, attempt, generation);
    assert(writes.take(0) =~= Seq::<Write>::empty());
    assert(writes.take(1) =~= seq![writes[0]]);
    assert(writes.take(2) =~= writes);
    match kv::put_step(
        kv,
        "meta",
        keys::lease_seq_key(),
        KvValue::Bytes(keys::u64_bytes(generation)),
        Ghost(rows),
        Ghost(writes),
        Ghost(0),
    ) {
        Ok(_) => {},
        Err(e) => {
            return Err(e);
        },
    }
    match kv::put_step(
        kv,
        "dlv",
        keys::delivery_key(sub_id, seq),
        KvValue::Delivery(
            DeliveryRecord { deadline_ms, attempts: attempt, generation, given_back: false },
        ),
        Ghost(rows),
        Ghost(writes),
        Ghost(1),
    ) {
        Ok(_) => {},
        Err(e) => {
            return Err(e);
        },
    }
    Ok(
        Delivered {
            seq,
            ack_id,
            message: message.clone(),
            delivery_attempt: attempt,
            generation,
        },
    )
}

/// Forwards a message that was delivered too often, and takes it off the subscription. Returns
/// whether there is a topic to forward it to.
fn forward_out<K: KvStore>(
    kv: &mut K,
    leases: &mut LeaseTable,
    cursor: &mut CursorRecord,
    dead_letter_topic: &str,
    policy: &ReclaimPolicy,
    sub_id: u64,
    seq: u64,
    message: &MessageRecord,
    attempts: u32,
    now_ms: i64,
) -> (r: Result<bool, Error>)
    ensures
        match forwarding(
            old(kv).rows(),
            dead_letter_topic@,
            message@,
            policy@,
            attempts,
            now_ms,
        ) {
            Forwarding::NoTopic => {
                &&& r is Ok && !r->Ok_0
                &&& final(kv).rows() == old(kv).rows()
                &&& final(leases)@ == old(leases)@
                &&& final(cursor)@ == old(cursor)@
            },
            Forwarding::Failed(e) => {
                &&& r is Err && r->Err_0@ == e
                &&& final(kv).rows() == old(kv).rows()
                &&& final(leases)@ == old(leases)@
                &&& final(cursor)@ == old(cursor)@
            },
            Forwarding::Sent(sent) => {
                let writes = sent.push(Write::Delete("dlv"@, keys::pair_key(sub_id, seq)));
                match r {
                    Ok(done) => {
                        &&& done
                        &&& final(kv).rows() == kv::after_writes(old(kv).rows(), writes)
                        &&& final(leases)@ == old(leases)@.remove((sub_id, seq))
                        &&& final(cursor)@ == cursor::marked(old(cursor)@, seq)
                    },
                    Err(e) => {
                        &&& !K::reliable()
                        &&& K::may_fail(e@)
                        &&& kv::torn(old(kv).rows(), writes, final(kv).rows())
                        &&& same_for_others(old(leases)@, final(leases)@, sub_id)
                    },
                }
            },
        },
{
    let ghost rows = kv.rows();
    let ghost outcome = forwarding(
        rows,
        dead_letter_topic@,
        message@,
        policy@,
        attempts,
        now_ms,
    );
    let ghost sent_writes = match outcome {
        Forwarding::Sent(w) => w,
        _ => Seq::empty(),
    };
    let ghost last = Write::Delete("dlv"@, keys::pair_key(sub_id, seq));
    let ghost writes = sent_writes.push(last);
    match forward_to_dead_letter_topic(
        kv,
        dead_letter_topic,
        message,
        policy,
        attempts,
        now_ms,
    ) {
        Ok(sent) => {
            if !sent {
                return Ok(false);
            }
        },
        Err(e) => {
            proof {
                if outcome is Sent {
                    assert(writes =~= sent_writes + seq![last]);
                    kv::lemma_torn_before(rows, sent_writes, seq![last], kv.rows());
                }
            }
            return Err(e);
        },
    }
    let _ = leases.remove(sub_id, seq);
    assert(writes.take(sent_writes.len() as int) =~= sent_writes);
    assert(writes.take(writes.len() as int) =~= writes);
    match kv::delete_step(
        kv,
        "dlv",
        keys::delivery_key(sub_id, seq).as_slice(),
        Ghost(rows),
        Ghost(writes),
        Ghost(sent_writes.len() as int),
    ) {
        Ok(_) => {},
        Err(e) => {
            return Err(e);
        },
    }
    cursor::mark_done(cursor, seq);
    Ok(true)
}

/// Looks at one message.
fn lease_message<K: KvStore>(
    kv: &mut K,
    leases: &mut LeaseTable,
    cursor: &mut CursorRecord,
    filter: Option<&CompiledFilter>,
    sub_id: u64,
    seq: u64,
    message: &MessageRecord,
    now_ms: i64,
    ack_deadline_secs: i32,
) -> (r: Result<(bool, Option<Delivered>), Error>)
    ensures
        ({
            let step = message_step(
                old(kv).rows(),
                old(leases)@,
                old(cursor)@,
                opt_filter_ref(filter),
                sub_id,
                seq,
                message@,
                now_ms,
                ack_deadline_secs,
            );
            &&& same_for_others(old(leases)@, final(leases)@, sub_id)
            &&& {
                ||| {
                    &&& final(kv).rows() == kv::after_writes(old(kv).rows(), step.writes)
                    &&& final(leases)@ == step.leases
                    &&& final(cursor)@ == step.cursor
                    &&& match r {
                        Ok((changed, d)) => {
                            &&& step.failure is None
                            &&& changed == step.cursor_changed
                            &&& opt_delivered(d) == step.delivered
                            &&& d matches Some(x) ==> id_stands(sub_id, x@)
                        },
                        Err(e) => step.failure == Some(e@),
                    }
                }
                ||| {
                    &&& r is Err
                    &&& !K::reliable()
                    &&& K::may_fail(r->Err_0@)
                    &&& kv::torn(old(kv).rows(), step.writes, final(kv).rows())
                }
            }
        }),
{
    if let Some(f) = filter {
        if !f.matches(&message.attributes) {
            cursor::mark_done(cursor, seq);
            return Ok((true, None));
        }
    }
    let mut attempts: u32 = 0;
    if let Some((deadline_ms, before, given_back)) = find_earlier(kv, leases, sub_id, seq) {
        if let Some(l) = leases.get(sub_id, seq) {
            if l.deadline_ms > now_ms {
                return Ok((false, None));
            }
        }
        let policy = reclaim_policy(kv, sub_id);
        if is_backing_off(deadline_ms, before, given_back, &policy, now_ms) {
            return Ok((false, None));
        }
        if dead_letter::should_dead_letter(before, &policy.dead_letter) {
            if let Some(dead_letter_topic) = &policy.dead_letter.topic {
                match forward_out(
                    kv,
                    leases,
                    cursor,
                    dead_letter_topic.as_str(),
                    &policy,
                    sub_id,
                    seq,
                    message,
                    before,
                    now_ms,
                ) {
                    Ok(sent) => {
                        if sent {
                            return Ok((true, None));
                        }
                    },
                    Err(e) => {
                        return Err(e);
                    },
                }
            }
        }
        attempts = before;
    }
    match hand_out(
        kv,
        leases,
        Ghost(cursor@),
        sub_id,
        seq,
        message,
        attempts,
        now_ms,
        ack_deadline_secs,
    ) {
        Ok(d) => Ok((false, Some(d))),
        Err(e) => Err(e),
    }
}

/// What an optional filter says.
pub open spec fn opt_filter_ref(f: Option<&CompiledFilter>) -> Option<ExprView> {
    match f {
        Some(c) => Some(c@),
        None => None,
    }
}

/// A request for messages: the state that it finds, and what it asks for.
pub struct LeaseCall {
    pub rows: Rows,
    pub leases: Leases,
    pub cursor: CursorView,
    pub filter: Option<ExprView>,
    pub sub_id: u64,
    pub max_messages: int,
    pub now_ms: i64,
    pub ack_deadline_secs: i32,
}

/// How far a request for messages has come.
pub struct Leasing {
    pub writes: Seq<Write>,
    pub leases: Leases,
    pub cursor: CursorView,
    pub cursor_changed: bool,
    pub out: Seq<DeliveredView>,
    pub failure: Option<ErrorView>,
}

/// The state after looking at one row of the log. Once enough is handed out, or after a failure,
/// rows are passed over; so are rows that are done or hold no message.
pub open spec fn row_step(call: LeaseCall, s: Leasing, row: (Seq<u8>, ValueView)) -> Leasing {
    match (keys::from_pair_key(row.0), row.1) {
        (Some((_, seq)), ValueView::Message(message)) => if s.failure is Some || s.out.len()
            >= call.max_messages || cursor::is_done(s.cursor, seq) {
            s
        } else {
            let step = message_step(
                kv::after_writes(call.rows, s.writes),
                s.leases,
                s.cursor,
                call.filter,
                call.sub_id,
                seq,
                message,
                call.now_ms,
                call.ack_deadline_secs,
            );
            Leasing {
                writes: s.writes + step.writes,
                leases: step.leases,
                cursor: step.cursor,
                cursor_changed: s.cursor_changed || step.cursor_changed,
                out: match step.delivered {
                    Some(d) => s.out.push(d),
                    None => s.out,
                },
                failure: step.failure,
            }
        },
        _ => s,
    }
}

/// The state after looking at the first `n` rows of the log.
pub open spec fn leasing(call: LeaseCall, log: Scan, n: int) -> Leasing
    decreases n,
{
    if n <= 0 {
        Leasing {
            writes: Seq::empty(),
            leases: call.leases,
            cursor: call.cursor,
            cursor_changed: false,
            out: Seq::empty(),
            failure: None,
        }
    } else {
        row_step(call, leasing(call, log, n - 1), log[n - 1])
    }
}

/// The change that stores a cursor.
pub open spec fn cursor_write(sub_id: u64, cursor: CursorView) -> Write {
    Write::Put("sub"@, keys::be64(sub_id), ValueView::Cursor(cursor))
}

/// All changes of a request for messages: those of the single messages, and the cursor if it has
/// changed and nothing failed.
pub open spec fn lease_writes(call: LeaseCall, log: Scan) -> Seq<Write> {
    let end = leasing(call, log, log.len() as int);
    if end.cursor_changed && end.failure is None {
        end.writes.push(cursor_write(call.sub_id, end.cursor))
    } else {
        end.writes
    }
}

/// The cursor of a subscription.
pub open spec fn stored_cursor(rows: Rows, sub_id: u64) -> Result<CursorView, ErrorView> {
    match kv::fetch(rows, "sub"@, keys::be64(sub_id)) {
        None => Err(
            ErrorView::NotFound {
                resource: "subscription cursor for id "@ + text::dec(sub_id as nat),
            },
        ),
        Some(ValueView::Cursor(c)) => Ok(c),
        Some(v) => Err(
            kv::undecodable("corrupt cursor record for subscription "@ + text::dec(sub_id as nat), v),
        ),
    }
}

/// The engine's own state: the leases, the open streams and how many were opened, the filters
/// compiled so far, and the subscriptions to wake.
pub struct EngineView {
    pub leases: Leases,
    pub sessions: Sessions,
    pub last_stream_id: u64,
    pub filters: Map<u64, Option<ExprView>>,
    pub wakeups: Seq<u64>,
}

/// The filter of a subscription: the one compiled before, or else that of its record.
pub open spec fn filter_of(filters: Map<u64, Option<ExprView>>, rows: Rows, sub_id: u64) -> Option<
    ExprView,
> {
    if filters.contains_key(sub_id) {
        filters[sub_id]
    } else {
        filter::compiled(filter_text(rows, sub_id))
    }
}

/// What deliveries hold.
pub open spec fn delivered_views(v: Seq<Delivered>) -> Seq<DeliveredView> {
    v.map_values(|d: Delivered| d@)
}

/// Leases messages to subscriptions.
#[derive(Debug)]
pub struct DeliveryEngine {
    leases: LeaseTable,
    streams: StreamRegistry,
    filters: IdMap<Option<CompiledFilter>>,
    wakeups: Vec<u64>,
}

impl View for DeliveryEngine {
    type V = EngineView;

    closed spec fn view(&self) -> EngineView {
        EngineView {
            leases: self.leases@,
            sessions: self.streams@,
            last_stream_id: self.streams.last_id(),
            filters: self.filters@.map_values(|f: Option<CompiledFilter>| filter::opt_filter(f)),
            wakeups: self.wakeups@,
        }
    }
}

/// The request for messages that [`DeliveryEngine::lease_next`] makes of a subscription with a
/// cursor.
pub open spec fn lease_call(
    rows: Rows,
    engine: EngineView,
    cursor: CursorView,
    sub_id: u64,
    max_messages: i32,
    now_ms: i64,
    ack_deadline_secs: i32,
) -> LeaseCall {
    LeaseCall {
        rows,
        leases: engine.leases,
        cursor,
        filter: filter_of(engine.filters, rows, sub_id),
        sub_id,
        max_messages: max_messages as int,
        now_ms,
        ack_deadline_secs,
    }
}

/// What a request for messages leaves and returns, unless a write fails.
pub struct LeaseEnd {
    pub writes: Seq<Write>,
    pub engine: EngineView,
    pub outcome: Result<Seq<DeliveredView>, ErrorView>,
}

/// What a request for messages leaves and returns: nothing changes when none are asked for, or when
/// the subscription has no cursor.
pub open spec fn lease_end(
    rows: Rows,
    engine: EngineView,
    sub_id: u64,
    topic_id: u64,
    max_messages: i32,
    now_ms: i64,
    ack_deadline_secs: i32,
) -> LeaseEnd {
    if max_messages <= 0 {
        LeaseEnd { writes: Seq::empty(), engine, outcome: Ok(Seq::empty()) }
    } else {
        match stored_cursor(rows, sub_id) {
            Err(e) => LeaseEnd { writes: Seq::empty(), engine, outcome: Err(e) },
            Ok(cursor) => {
                let call = lease_call(
                    rows,
                    engine,
                    cursor,
                    sub_id,
                    max_messages,
                    now_ms,
                    ack_deadline_secs,
                );
                let log = kv::scan_of(rows, "msg"@, keys::be64(topic_id));
                let end = leasing(call, log, log.len() as int);
                LeaseEnd {
                    writes: lease_writes(call, log),
                    engine: EngineView {
                        leases: end.leases,
                        filters: engine.filters.insert(sub_id, call.filter),
                        ..engine
                    },
                    outcome: match end.failure {
                        Some(e) => Err(e),
                        None => Ok(end.out),
                    },
                }
            },
        }
    }
}

/// What deliveries, or the error in their place, hold.
pub open spec fn delivered_result(r: Result<Vec<Delivered>, Error>) -> Result<
    Seq<DeliveredView>,
    ErrorView,
> {
    match r {
        Ok(v) => Ok(delivered_views(v@)),
        Err(e) => Err(e@),
    }
}

proof fn lemma_leasing_goes_on(call: LeaseCall, log: Scan, m: int, n: int)
    requires
        0 <= m <= n,
    ensures
        text::has_prefix(leasing(call, log, n).writes, leasing(call, log, m).writes),
        leasing(call, log, m).failure is Some ==> leasing(call, log, n) == leasing(call, log, m),
        leasing(call, log, m).out.len() >= call.max_messages ==> leasing(call, log, n) == leasing(
            call,
            log,
            m,
        ),
    decreases n - m,
{
    if m < n {
        lemma_leasing_goes_on(call, log, m, n - 1);
        let first = leasing(call, log, m).writes;
        let before = leasing(call, log, n - 1).writes;
        let after = leasing(call, log, n).writes;
        assert(after.take(before.len() as int) =~= before);
        assert(after.take(first.len() as int) =~= before.take(first.len() as int));
    } else {
        let all = leasing(call, log, n).writes;
        assert(all.take(all.len() as int) =~= all);
    }
}

/// A store that is torn within the step from row `n` to the next is torn within all changes of the
/// request.
proof fn lemma_torn_in_step(call: LeaseCall, log: Scan, n: int, step: Seq<Write>, after: Rows)
    requires
        0 <= n < log.len(),
        leasing(call, log, n + 1).writes == leasing(call, log, n).writes + step,
        kv::torn(kv::after_writes(call.rows, leasing(call, log, n).writes), step, after),
    ensures
        kv::torn(call.rows, lease_writes(call, log), after),
{
    let first = leasing(call, log, n).writes;
    kv::lemma_torn_after(call.rows, first, step, after);
    lemma_leasing_goes_on(call, log, n + 1, log.len() as int);
    let end = leasing(call, log, log.len() as int).writes;
    let all = lease_writes(call, log);
    assert(text::has_prefix(all, end)) by {
        assert(all.take(end.len() as int) =~= end);
    }
    let here = first + step;
    let rest = all.skip(here.len() as int);
    assert(all.take(here.len() as int) =~= end.take(here.len() as int));
    assert(all =~= here + rest);
    kv::lemma_torn_before(call.rows, here, rest, after);
}

/// How far a list of acknowledgements has come.
pub struct Acking {
    pub writes: Seq<Write>,
    pub leases: Leases,
    pub cursor: CursorView,
    pub cursor_changed: bool,
}

/// The state after the first `n` acknowledgements. One that names a lease of the subscription ends
/// it, removes the stored row, and makes the message done; any other is passed over.
pub open spec fn acking(
    leases: Leases,
    cursor: CursorView,
    sub_id: u64,
    ack_ids: Seq<Seq<char>>,
    n: int,
) -> Acking
    decreases n,
{
    if n <= 0 {
        Acking { writes: Seq::empty(), leases, cursor, cursor_changed: false }
    } else {
        let s = acking(leases, cursor, sub_id, ack_ids, n - 1);
        let parts = lease::ack_id_parts(ack_ids[n - 1]);
        match lease::lease_on(s.leases, sub_id, parts) {
            AckOutcome::Applied(l) => Acking {
                writes: s.writes.push(Write::Delete("dlv"@, keys::pair_key(sub_id, l.seq))),
                leases: lease::leases_after_ack(s.leases, parts),
                cursor: cursor::marked(s.cursor, l.seq),
                cursor_changed: true,
            },
            _ => s,
        }
    }
}

/// What a request on leases leaves and returns, unless a write fails.
pub struct AckEnd {
    pub writes: Seq<Write>,
    pub leases: Leases,
    pub outcome: Result<(), ErrorView>,
}

/// What a list of acknowledgements leaves and returns.
pub open spec fn ack_end(
    rows: Rows,
    leases: Leases,
    sub_id: u64,
    ack_ids: Seq<Seq<char>>,
) -> AckEnd {
    if ack_ids.len() == 0 {
        AckEnd { writes: Seq::empty(), leases, outcome: Ok(()) }
    } else {
        match stored_cursor(rows, sub_id) {
            Err(e) => AckEnd { writes: Seq::empty(), leases, outcome: Err(e) },
            Ok(cursor) => {
                let end = acking(leases, cursor, sub_id, ack_ids, ack_ids.len() as int);
                AckEnd {
                    writes: if end.cursor_changed {
                        end.writes.push(cursor_write(sub_id, end.cursor))
                    } else {
                        end.writes
                    },
                    leases: end.leases,
                    outcome: Ok(()),
                }
            },
        }
    }
}

/// How often the message was delivered for whose delivery an ack id stands; 0 when it names no lease
/// of the subscription.
pub open spec fn attempts_so_far(leases: Leases, sub_id: u64, ack_id: Seq<char>) -> u32 {
    match lease::lease_on(leases, sub_id, lease::ack_id_parts(ack_id)) {
        AckOutcome::Applied(l) => l.attempts,
        _ => 0,
    }
}

/// Every lease that is left was there before.
pub open spec fn only_lost(before: Leases, after: Leases) -> bool {
    forall|k: (u64, u64)| #[trigger]
        after.contains_key(k) ==> before.contains_key(k) && after[k] == before[k]
}

/// A lease with its deadline changed to `secs` seconds from now; not positive gives the message
/// back.
pub open spec fn with_deadline(l: Lease, now_ms: i64, secs: i32) -> Lease {
    Lease { deadline_ms: lease::new_deadline(now_ms, secs), given_back: secs <= 0, ..l }
}

/// The change that stores a lease.
pub open spec fn lease_write(sub_id: u64, l: Lease) -> Write {
    Write::Put(
        "dlv"@,
        keys::pair_key(sub_id, l.seq),
        ValueView::Delivery(
            DeliveryRecord {
                deadline_ms: l.deadline_ms,
                attempts: l.attempts,
                generation: l.generation,
                given_back: l.given_back,
            },
        ),
    )
}

/// The changes and the leases after the first `n` changes of deadline. One that names a lease of the
/// subscription moves its deadline and stores that; any other is passed over.
pub open spec fn changing_deadlines(
    leases: Leases,
    sub_id: u64,
    ack_ids: Seq<Seq<char>>,
    now_ms: i64,
    secs: i32,
    n: int,
) -> (Seq<Write>, Leases)
    decreases n,
{
    if n <= 0 {
        (Seq::empty(), leases)
    } else {
        let (writes, now) = changing_deadlines(leases, sub_id, ack_ids, now_ms, secs, n - 1);
        match lease::lease_on(now, sub_id, lease::ack_id_parts(ack_ids[n - 1])) {
            AckOutcome::Applied(l) => {
                let moved = with_deadline(l, now_ms, secs);
                (writes.push(lease_write(sub_id, moved)), now.insert((l.sub_id, l.seq), moved))
            },
            _ => (writes, now),
        }
    }
}

/// The streams after the first `n` ack ids were resolved on one of them. An ack id of another
/// subscription is passed over.
pub open spec fn resolving(
    sessions: Sessions,
    stream_id: u64,
    sub_id: u64,
    ack_ids: Seq<Seq<char>>,
    n: int,
) -> Sessions
    decreases n,
{
    if n <= 0 {
        sessions
    } else {
        let before = resolving(sessions, stream_id, sub_id, ack_ids, n - 1);
        match lease::ack_id_parts(ack_ids[n - 1]) {
            Some((other, seq, _)) => if other == sub_id {
                stream::after_resolved(before, stream_id, seq)
            } else {
                before
            },
            None => before,
        }
    }
}

/// The streams after the delivery that an ack id stands for was put off on one of them. An ack id of
/// another subscription is passed over.
pub open spec fn putting_off(
    sessions: Sessions,
    stream_id: u64,
    sub_id: u64,
    ack_id: Seq<char>,
) -> Sessions {
    match lease::ack_id_parts(ack_id) {
        Some((other, seq, generation)) => if other == sub_id {
            stream::after_put_off(sessions, stream_id, seq, generation)
        } else {
            sessions
        },
        None => sessions,
    }
}

/// The streams after the first `n` deliveries went out on one of them.
pub open spec fn sending(
    sessions: Sessions,
    stream_id: u64,
    delivered: Seq<DeliveredView>,
    n: int,
) -> Sessions
    decreases n,
{
    if n <= 0 {
        sessions
    } else {
        let d = delivered[n - 1];
        stream::after_delivered(
            sending(sessions, stream_id, delivered, n - 1),
            stream_id,
            d.seq,
            d.message.payload.len() as usize,
            d.generation,
        )
    }
}

/// What a stream's request for messages leaves and returns, unless a write fails.
pub open spec fn stream_lease_end(
    rows: Rows,
    engine: EngineView,
    stream_id: u64,
    now_ms: i64,
) -> LeaseEnd {
    if !engine.sessions.contains_key(stream_id) {
        LeaseEnd {
            writes: Seq::empty(),
            engine,
            outcome: Err(
                ErrorView::NotFound { resource: "stream_id="@ + text::dec(stream_id as nat) },
            ),
        }
    } else {
        let info = engine.sessions[stream_id].info;
        let (messages, bytes) = stream::budget(engine.sessions, stream_id);
        if messages <= 0 || bytes <= 0 {
            LeaseEnd { writes: Seq::empty(), engine, outcome: Ok(Seq::empty()) }
        } else {
            let end = lease_end(
                rows,
                engine,
                info.sub_id,
                info.topic_id,
                if messages > i32::MAX {
                    i32::MAX
                } else {
                    messages as i32
                },
                now_ms,
                info.ack_deadline_secs,
            );
            match end.outcome {
                Ok(delivered) => LeaseEnd {
                    engine: EngineView {
                        sessions: sending(
                            end.engine.sessions,
                            stream_id,
                            delivered,
                            delivered.len() as int,
                        ),
                        ..end.engine
                    },
                    ..end
                },
                Err(_) => end,
            }
        }
    }
}

/// The subscription that a stream pulls from, 0 when it is not open.
pub open spec fn stream_subscription(sessions: Sessions, stream_id: u64) -> u64 {
    if sessions.contains_key(stream_id) {
        sessions[stream_id].info.sub_id
    } else {
        0
    }
}

/// A message is out on a stream: the lease on which it went out there still stands.
pub open spec fn is_held(
    leases: Leases,
    sessions: Sessions,
    stream_id: u64,
    k: (u64, u64),
) -> bool {
    &&& sessions.contains_key(stream_id)
    &&& k.0 == sessions[stream_id].info.sub_id
    &&& sessions[stream_id].generations.contains_key(k.1)
    &&& leases.contains_key(k)
    &&& leases[k].generation == sessions[stream_id].generations[k.1]
}

/// The leases that a stream holds.
pub open spec fn stream_leases(leases: Leases, sessions: Sessions, stream_id: u64) -> Set<
    (u64, u64),
> {
    Set::new(|k: (u64, u64)| is_held(leases, sessions, stream_id, k))
}

/// A lease stands with the generation that one of the first `n` deliveries went out on.
pub open spec fn stands_among(
    leases: Leases,
    deliveries: Seq<(u64, u64)>,
    n: int,
    k: (u64, u64),
) -> bool {
    &&& leases.contains_key(k)
    &&& exists|j: int| 0 <= j < n && #[trigger] deliveries[j] == (k.1, leases[k].generation)
}

/// The stored rows of some leases.
pub open spec fn delivery_rows(leases: Set<(u64, u64)>) -> Set<(Seq<char>, Seq<u8>)> {
    leases.map(|k: (u64, u64)| ("dlv"@, keys::pair_key(k.0, k.1)))
}

/// No rows were changed but for some of `gone`, which were removed.
pub open spec fn only_removed(before: Rows, after: Rows, gone: Set<(Seq<char>, Seq<u8>)>) -> bool {
    &&& forall|k: (Seq<char>, Seq<u8>)| #[trigger]
        after.contains_key(k) ==> before.contains_key(k) && after[k] == before[k]
    &&& forall|k: (Seq<char>, Seq<u8>)|
        before.contains_key(k) && !gone.contains(k) ==> #[trigger] after.contains_key(k)
}

/// The leases after a sweep of a subscription: its leases that ran out at `limit_ms` are gone, and
/// all others are as they were.
pub open spec fn swept(leases: Leases, sub_id: u64, limit_ms: i64) -> Leases {
    leases.remove_keys(
        lease::keys_of_subscription(leases, sub_id).intersect(
            lease::expired_keys(leases, limit_ms),
        ),
    )
}

/// The leases after recovery: every stored delivery is out again, with all that is known of it.
pub open spec fn recovered(rows: Rows, leases: Leases) -> Leases {
    Map::new(
        |k: (u64, u64)|
            leases.contains_key(k) || stored_lease(rows, k.0, k.1) is Some,
        |k: (u64, u64)|
            match stored_lease(rows, k.0, k.1) {
                Some(l) => l,
                None => leases[k],
            },
    )
}

/// The lease that is stored for a message on a subscription.
pub open spec fn stored_lease(rows: Rows, sub_id: u64, seq: u64) -> Option<Lease> {
    match kv::fetch(rows, "dlv"@, keys::pair_key(sub_id, seq)) {
        Some(ValueView::Delivery(d)) => Some(
            Lease {
                sub_id,
                seq,
                deadline_ms: d.deadline_ms,
                attempts: d.attempts,
                generation: d.generation,
                given_back: d.given_back,
            },
        ),
        _ => None,
    }
}

/// When the oldest message was published, from row `from` of the log on, that is not done.
pub open spec fn oldest_open(log: Scan, cursor: CursorView, from: int) -> Option<i64>
    decreases log.len() - from,
{
    if from < 0 || from >= log.len() {
        None
    } else {
        match (keys::from_pair_key(log[from].0), log[from].1) {
            (Some((_, seq)), ValueView::Message(m)) => if cursor::is_done(cursor, seq) {
                oldest_open(log, cursor, from + 1)
            } else {
                Some(m.publish_ts_ms)
            },
            _ => oldest_open(log, cursor, from + 1),
        }
    }
}

/// All stored deliveries of a subscription.
pub open spec fn rows_of_subscription(rows: Rows, sub_id: u64) -> Set<(Seq<char>, Seq<u8>)> {
    Set::new(
        |k: (Seq<char>, Seq<u8>)|
            rows.contains_key(k) && k.0 == "dlv"@ && text::has_prefix(k.1, keys::be64(sub_id)),
    )
}

fn load_cursor<K: KvStore>(kv: &K, sub_id: u64) -> (r: Result<CursorRecord, Error>)
    ensures
        error::result_view(r) == stored_cursor(kv.rows(), sub_id),
{
    match kv.get("sub", keys::cursor_key(sub_id).as_slice()) {
        None => Err(
            not_found(
                text::cat2("subscription cursor for id ", text::u64_text(sub_id).as_str()).as_str(),
            ),
        ),
        Some(KvValue::Cursor(c)) => Ok(c),
        Some(v) => Err(
            kv::not_decoded(
                text::cat2(
                    "corrupt cursor record for subscription ",
                    text::u64_text(sub_id).as_str(),
                ).as_str(),
                &v,
            ),
        ),
    }
}

impl DeliveryEngine {
    /// An engine without leases and streams.
    pub fn new() -> (r: Self)
        ensures
            r@ == (EngineView {
                leases: Leases::empty(),
                sessions: Sessions::empty(),
                last_stream_id: 0,
                filters: Map::empty(),
                wakeups: Seq::empty(),
            }),
    {
        let r = DeliveryEngine {
            leases: LeaseTable::new(),
            streams: StreamRegistry::new(),
            filters: IdMap::new(),
            wakeups: Vec::new(),
        };
        assert(r@.filters =~= Map::empty());
        r
    }

    /// Compiles the filter of a subscription, unless this was done before.
    fn prepare_filter<K: KvStore>(&mut self, kv: &K, sub_id: u64)
        ensures
            final(self)@ == (EngineView {
                filters: old(self)@.filters.insert(
                    sub_id,
                    filter_of(old(self)@.filters, kv.rows(), sub_id),
                ),
                ..old(self)@
            }),
    {
        let ghost before = self@.filters;
        if self.filters.get(sub_id).is_some() {
            assert(before.insert(sub_id, before[sub_id]) =~= before);
            return;
        }
        let text = match kv.get("meta", keys::sub_key(sub_id).as_slice()) {
            Some(KvValue::Subscription(s)) => s.filter,
            _ => String::from_str(""),
        };
        proof {
            reveal_strlit("");
            assert(""@ =~= Seq::<char>::empty());
        }
        let compiled: Option<CompiledFilter> = match filter::compile(text.as_str()) {
            Ok(f) => f,
            Err(_) => None,
        };
        let ghost f = filter::opt_filter(compiled);
        self.filters.insert(sub_id, compiled);
        assert(self@.filters =~= before.insert(sub_id, f));
    }

    /// Hands out up to `max_messages` messages of a topic to a subscription, from behind its
    /// cursor. Never waits: returns what is there.
    #[verifier::rlimit(60)]
    #[verifier::spinoff_prover]
    pub fn lease_next<K: KvStore>(
        &mut self,
        kv: &mut K,
        sub_id: u64,
        topic_id: u64,
        max_messages: i32,
        now_ms: i64,
        ack_deadline_secs: i32,
    ) -> (r: Result<Vec<Delivered>, Error>)
        ensures
            ({
                let end = lease_end(
                    old(kv).rows(),
                    old(self)@,
                    sub_id,
                    topic_id,
                    max_messages,
                    now_ms,
                    ack_deadline_secs,
                );
                ||| {
                    &&& delivered_result(r) == end.outcome
                    &&& final(self)@ == end.engine
                    &&& final(kv).rows() == kv::after_writes(old(kv).rows(), end.writes)
                }
                ||| {
                    &&& r is Err
                    &&& !K::reliable()
                    &&& K::may_fail(r->Err_0@)
                    &&& kv::torn(old(kv).rows(), end.writes, final(kv).rows())
                    &&& same_for_others(old(self)@.leases, final(self)@.leases, sub_id)
                    &&& final(self)@ == (EngineView {
                        leases: final(self)@.leases,
                        ..end.engine
                    })
                }
            }),
            r matches Ok(out) ==> all_out(final(self)@.leases, sub_id, delivered_views(out@)),
    {
        if max_messages <= 0 {
            let none: Vec<Delivered> = Vec::new();
            assert(delivered_views(none@) =~= Seq::<DeliveredView>::empty());
            return Ok(none);
        }
        let mut cursor = match load_cursor(kv, sub_id) {
            Ok(c) => c,
            Err(e) => {
                return Err(e);
            },
        };
        let ghost rows = kv.rows();
        let ghost engine = self@;
        let ghost call = lease_call(
            rows,
            engine,
            cursor@,
            sub_id,
            max_messages,
            now_ms,
            ack_deadline_secs,
        );
        self.prepare_filter(kv, sub_id);
        let ghost prepared = self@;
        let entries = kv.scan_prefix("msg", keys::msg_key_prefix(topic_id).as_slice());
        let ghost log = kv::scan_view(entries@);
        proof {
            kv::law_scan_is_unique(rows, "msg"@, keys::be64(topic_id), log, log);
        }
        let mut out: Vec<Delivered> = Vec::new();
        let mut cursor_changed = false;
        let mut i: usize = 0;
        assert(delivered_views(out@) =~= Seq::<DeliveredView>::empty());
        while i < entries.len() && out.len() < max_messages as usize
            invariant
                i <= entries.len(),
                max_messages > 0,
                log == kv::scan_view(entries@),
                log == kv::scan_of(rows, "msg"@, keys::be64(topic_id)),
                rows == old(kv).rows(),
                engine == old(self)@,
                stored_cursor(rows, sub_id) is Ok,
                call == lease_call(
                    rows,
                    engine,
                    stored_cursor(rows, sub_id)->Ok_0,
                    sub_id,
                    max_messages,
                    now_ms,
                    ack_deadline_secs,
                ),
                prepared == (EngineView {
                    filters: engine.filters.insert(sub_id, call.filter),
                    ..engine
                }),
                self@ == (EngineView { leases: self@.leases, ..prepared }),
                leasing(call, log, i as int).failure is None,
                self@.leases == leasing(call, log, i as int).leases,
                cursor@ == leasing(call, log, i as int).cursor,
                cursor_changed == leasing(call, log, i as int).cursor_changed,
                delivered_views(out@) == leasing(call, log, i as int).out,
                forall|k: int|
                    0 <= k < out.len() ==> id_stands(sub_id, #[trigger] delivered_views(out@)[k]),
                kv.rows() == kv::after_writes(rows, leasing(call, log, i as int).writes),
                same_for_others(engine.leases, self@.leases, sub_id),
            decreases entries.len() - i,
        {
            let ghost s = leasing(call, log, i as int);
            assert(log[i as int] == (entries@[i as int].0@, entries@[i as int].1@));
            if let Some((_, seq)) = keys::parse_msg_key(entries[i].0.as_slice()) {
                if let KvValue::Message(message) = &entries[i].1 {
                    if !cursor::done(&cursor, seq) {
                        let ghost step = message_step(
                            kv.rows(),
                            s.leases,
                            s.cursor,
                            call.filter,
                            sub_id,
                            seq,
                            message@,
                            now_ms,
                            ack_deadline_secs,
                        );
                        let ghost leases_before = self@.leases;
                        let result = self.lease_one(
                            kv,
                            &mut cursor,
                            sub_id,
                            seq,
                            message,
                            now_ms,
                            ack_deadline_secs,
                        );
                        match result {
                            Ok((changed, delivered)) => {
                                proof {
                                    kv::lemma_after_concat(rows, s.writes, step.writes);
                                }
                                cursor_changed = cursor_changed || changed;
                                if let Some(d) = delivered {
                                    let ghost held = out@;
                                    let ghost added = d@;
                                    out.push(d);
                                    assert(delivered_views(out@) =~= delivered_views(held).push(
                                        added,
                                    ));
                                }
                            },
                            Err(e) => {
                                proof {
                                    kv::lemma_after_concat(rows, s.writes, step.writes);
                                    lemma_leasing_goes_on(call, log, i + 1, log.len() as int);
                                    if kv::torn(
                                        kv::after_writes(rows, s.writes),
                                        step.writes,
                                        kv.rows(),
                                    ) {
                                        lemma_torn_in_step(
                                            call,
                                            log,
                                            i as int,
                                            step.writes,
                                            kv.rows(),
                                        );
                                    }
                                }
                                return Err(e);
                            },
                        }
                    }
                }
            }
            i = i + 1;
        }
        proof {
            lemma_leasing_goes_on(call, log, i as int, log.len() as int);
            laws::law_scan_of_topic_is_log(rows, topic_id);
            assert forall|k: int| 0 <= k < out.len() implies is_out(
                self@.leases,
                sub_id,
                #[trigger] delivered_views(out@)[k],
            ) by {
                laws::law_delivered_is_leased(call, log, k);
            }
        }
        if cursor_changed {
            let ghost writes = lease_writes(call, log);
            let ghost made = leasing(call, log, i as int).writes;
            assert(writes.take(made.len() as int) =~= made);
            assert(writes.take(made.len() as int + 1) =~= writes);
            match kv::put_step(
                kv,
                "sub",
                keys::cursor_key(sub_id),
                KvValue::Cursor(cursor),
                Ghost(rows),
                Ghost(writes),
                Ghost(made.len() as int),
            ) {
                Ok(_) => {},
                Err(e) => {
                    return Err(e);
                },
            }
        }
        Ok(out)
    }

    /// Ends the leases that `ack_ids` name and makes their messages done on a subscription. An ack
    /// id that names no lease is passed over.
    pub fn acknowledge<K: KvStore>(&mut self, kv: &mut K, sub_id: u64, ack_ids: &[String]) -> (r:
        Result<(), Error>)
        ensures
            final(self)@ == (EngineView { leases: final(self)@.leases, ..old(self)@ }),
            ({
                let end = ack_end(
                    old(kv).rows(),
                    old(self)@.leases,
                    sub_id,
                    text::texts(ack_ids@),
                );
                ||| {
                    &&& error::result_view(r) == end.outcome
                    &&& final(self)@.leases == end.leases
                    &&& final(kv).rows() == kv::after_writes(old(kv).rows(), end.writes)
                }
                ||| {
                    &&& r is Err
                    &&& !K::reliable()
                    &&& K::may_fail(r->Err_0@)
                    &&& kv::torn(old(kv).rows(), end.writes, final(kv).rows())
                    &&& only_lost(old(self)@.leases, final(self)@.leases)
                }
            }),
    {
        let ghost ids = text::texts(ack_ids@);
        if ack_ids.len() == 0 {
            return Ok(());
        }
        let mut cursor = match load_cursor(kv, sub_id) {
            Ok(c) => c,
            Err(e) => {
                return Err(e);
            },
        };
        let ghost rows = kv.rows();
        let ghost leases = self@.leases;
        let ghost start = cursor@;
        let ghost writes = ack_end(rows, leases, sub_id, ids).writes;
        let mut cursor_changed = false;
        let mut i: usize = 0;
        while i < ack_ids.len()
            invariant
                i <= ack_ids.len(),
                ids == text::texts(ack_ids@),
                ids.len() > 0,
                rows == old(kv).rows(),
                leases == old(self)@.leases,
                stored_cursor(rows, sub_id) == Ok::<_, ErrorView>(start),
                writes == ack_end(rows, leases, sub_id, ids).writes,
                self@ == (EngineView { leases: self@.leases, ..old(self)@ }),
                self@.leases == acking(leases, start, sub_id, ids, i as int).leases,
                cursor@ == acking(leases, start, sub_id, ids, i as int).cursor,
                cursor_changed == acking(leases, start, sub_id, ids, i as int).cursor_changed,
                kv.rows() == kv::after_writes(
                    rows,
                    acking(leases, start, sub_id, ids, i as int).writes,
                ),
                only_lost(leases, self@.leases),
            decreases ack_ids.len() - i,
        {
            assert(ids[i as int] == ack_ids@[i as int]@);
            let ghost made = acking(leases, start, sub_id, ids, i as int).writes;
            let outcome = if lease::is_on(ack_ids[i].as_str(), sub_id) {
                self.leases.ack(ack_ids[i].as_str())
            } else {
                AckOutcome::Unknown
            };
            if let AckOutcome::Applied(l) = outcome {
                proof {
                    lemma_acking_goes_on(
                        leases,
                        start,
                        sub_id,
                        ids,
                        i + 1,
                        ids.len() as int,
                    );
                    let here = acking(leases, start, sub_id, ids, i + 1).writes;
                    let end = acking(leases, start, sub_id, ids, ids.len() as int).writes;
                    assert(writes.take(end.len() as int) =~= end);
                    assert(writes.take(here.len() as int) =~= end.take(here.len() as int));
                    assert(writes.take(made.len() as int) =~= here.take(made.len() as int));
                    assert(here.take(made.len() as int) =~= made);
                    assert(writes[made.len() as int] == here[made.len() as int]) by {
                        assert(writes.take(here.len() as int)[made.len() as int]
                            == here[made.len() as int]);
                    }
                    assert(writes.take(made.len() as int + 1) =~= here);
                }
                match kv::delete_step(
                    kv,
                    "dlv",
                    keys::delivery_key(sub_id, l.seq).as_slice(),
                    Ghost(rows),
                    Ghost(writes),
                    Ghost(made.len() as int),
                ) {
                    Ok(_) => {},
                    Err(e) => {
                        return Err(e);
                    },
                }
                cursor::mark_done(&mut cursor, l.seq);
                cursor_changed = true;
            }
            i = i + 1;
        }
        if cursor_changed {
            let ghost made = acking(leases, start, sub_id, ids, i as int).writes;
            assert(writes.take(made.len() as int) =~= made);
            assert(writes.take(made.len() as int + 1) =~= writes);
            match kv::put_step(
                kv,
                "sub",
                keys::cursor_key(sub_id),
                KvValue::Cursor(cursor),
                Ghost(rows),
                Ghost(writes),
                Ghost(made.len() as int),
            ) {
                Ok(_) => {},
                Err(e) => {
                    return Err(e);
                },
            }
        }
        Ok(())
    }

    /// Moves the deadlines of the leases that `ack_ids` name to `seconds` from now. A number that
    /// is not positive gives the messages back: the next request for messages hands them out again
    /// right away. An ack id that names no lease is passed over.
    pub fn modify_ack_deadline<K: KvStore>(
        &mut self,
        kv: &mut K,
        sub_id: u64,
        ack_ids: &[String],
        now_ms: i64,
        seconds: i32,
    ) -> (r: Result<(), Error>)
        ensures
            final(self)@ == (EngineView { leases: final(self)@.leases, ..old(self)@ }),
            ({
                let ids = text::texts(ack_ids@);
                let (writes, leases) = changing_deadlines(
                    old(self)@.leases,
                    sub_id,
                    ids,
                    now_ms,
                    seconds,
                    ids.len() as int,
                );
                match r {
                    Ok(_) => {
                        &&& final(self)@.leases == leases
                        &&& final(kv).rows() == kv::after_writes(old(kv).rows(), writes)
                    },
                    Err(e) => {
                        &&& !K::reliable()
                        &&& K::may_fail(e@)
                        &&& kv::torn(old(kv).rows(), writes, final(kv).rows())
                        &&& final(self)@.leases.dom() == old(self)@.leases.dom()
                    },
                }
            }),
    {
        let ghost ids = text::texts(ack_ids@);
        let ghost rows = kv.rows();
        let ghost leases = self@.leases;
        let ghost writes = changing_deadlines(
            leases,
            sub_id,
            ids,
            now_ms,
            seconds,
            ids.len() as int,
        ).0;
        let mut i: usize = 0;
        assert(self@.leases.dom() =~= leases.dom());
        while i < ack_ids.len()
            invariant
                i <= ack_ids.len(),
                ids == text::texts(ack_ids@),
                rows == old(kv).rows(),
                leases == old(self)@.leases,
                writes == changing_deadlines(
                    leases,
                    sub_id,
                    ids,
                    now_ms,
                    seconds,
                    ids.len() as int,
                ).0,
                self@ == (EngineView { leases: self@.leases, ..old(self)@ }),
                self@.leases == changing_deadlines(
                    leases,
                    sub_id,
                    ids,
                    now_ms,
                    seconds,
                    i as int,
                ).1,
                kv.rows() == kv::after_writes(
                    rows,
                    changing_deadlines(leases, sub_id, ids, now_ms, seconds, i as int).0,
                ),
                self@.leases.dom() == leases.dom(),
            decreases ack_ids.len() - i,
        {
            assert(ids[i as int] == ack_ids@[i as int]@);
            let ghost made = changing_deadlines(
                leases,
                sub_id,
                ids,
                now_ms,
                seconds,
                i as int,
            ).0;
            let ghost now = self@.leases;
            let outcome = if lease::is_on(ack_ids[i].as_str(), sub_id) {
                self.leases.extend(ack_ids[i].as_str(), now_ms, seconds)
            } else {
                AckOutcome::Unknown
            };
            if let AckOutcome::Applied(l) = outcome {
                let ghost named = lease::lease_named_by(
                    now,
                    lease::ack_id_parts(ids[i as int]),
                )->Applied_0;
                assert(l == with_deadline(named, now_ms, seconds));
                assert(self@.leases =~= now.insert((named.sub_id, named.seq), l));
                assert(self@.leases.dom() =~= now.dom());
                proof {
                    lemma_changing_goes_on(
                        leases,
                        sub_id,
                        ids,
                        now_ms,
                        seconds,
                        i + 1,
                        ids.len() as int,
                    );
                    let here = changing_deadlines(
                        leases,
                        sub_id,
                        ids,
                        now_ms,
                        seconds,
                        i + 1,
                    ).0;
                    assert(here.take(made.len() as int) =~= made);
                    assert(writes.take(made.len() as int) =~= writes.take(here.len() as int).take(
                        made.len() as int,
                    ));
                    assert(writes.take(here.len() as int)[made.len() as int]
                        == here[made.len() as int]);
                    assert(writes.take(made.len() as int + 1) =~= here);
                }
                match kv::put_step(
                    kv,
                    "dlv",
                    keys::delivery_key(sub_id, l.seq),
                    KvValue::Delivery(
                        DeliveryRecord {
                            deadline_ms: l.deadline_ms,
                            attempts: l.attempts,
                            generation: l.generation,
                            given_back: l.given_back,
                        },
                    ),
                    Ghost(rows),
                    Ghost(writes),
                    Ghost(made.len() as int),
                ) {
                    Ok(_) => {},
                    Err(e) => {
                        return Err(e);
                    },
                }
            }
            i = i + 1;
        }
        Ok(())
    }

    /// Notes that messages were published for the given subscriptions.
    pub fn notify_published(&mut self, sub_ids: &[u64])
        ensures
            final(self)@ == (EngineView {
                wakeups: old(self)@.wakeups + sub_ids@,
                ..old(self)@
            }),
    {
        let ghost before = self@.wakeups;
        let mut i: usize = 0;
        assert(before + sub_ids@.take(0) =~= before);
        while i < sub_ids.len()
            invariant
                i <= sub_ids.len(),
                before == old(self)@.wakeups,
                self@ == (EngineView {
                    wakeups: before + sub_ids@.take(i as int),
                    ..old(self)@
                }),
            decreases sub_ids.len() - i,
        {
            self.wakeups.push(sub_ids[i]);
            i = i + 1;
            assert(self@.wakeups =~= before + sub_ids@.take(i as int));
        }
        assert(sub_ids@.take(i as int) =~= sub_ids@);
    }

    /// The subscriptions for which messages were published since the last call, for whoever wakes
    /// those that wait.
    pub fn take_wakeups(&mut self) -> (r: Vec<u64>)
        ensures
            r@ == old(self)@.wakeups,
            final(self)@ == (EngineView { wakeups: Seq::empty(), ..old(self)@ }),
    {
        let mut taken: Vec<u64> = Vec::new();
        core::mem::swap(&mut self.wakeups, &mut taken);
        taken
    }

    /// Opens a stream and returns its id.
    pub fn open_stream(
        &mut self,
        sub_id: u64,
        topic_id: u64,
        ack_deadline_secs: i32,
        max_outstanding_messages: i64,
        max_outstanding_bytes: i64,
    ) -> (id: u64)
        ensures
            id == stream::next_stream_id(old(self)@.last_stream_id),
            final(self)@ == (EngineView {
                last_stream_id: id,
                sessions: old(self)@.sessions.insert(
                    id,
                    stream::SessionView {
                        info: StreamInfo {
                            sub_id,
                            topic_id,
                            ack_deadline_secs,
                            max_outstanding_messages,
                            max_outstanding_bytes,
                        },
                        outstanding: Map::empty(),
                        generations: Map::empty(),
                        outstanding_bytes: 0,
                    },
                ),
                ..old(self)@
            }),
    {
        self.streams.open(
            StreamInfo {
                sub_id,
                topic_id,
                ack_deadline_secs,
                max_outstanding_messages,
                max_outstanding_bytes,
            },
        )
    }

    /// Replaces those settings of a stream that are given. Nothing happens when it is not open.
    pub fn update_stream(
        &mut self,
        stream_id: u64,
        ack_deadline_secs: Option<i32>,
        max_outstanding_messages: Option<i64>,
        max_outstanding_bytes: Option<i64>,
    )
        ensures
            final(self)@ == if old(self)@.sessions.contains_key(stream_id) {
                let session = old(self)@.sessions[stream_id];
                EngineView {
                    sessions: old(self)@.sessions.insert(
                        stream_id,
                        stream::SessionView {
                            info: stream::updated_info(
                                session.info,
                                ack_deadline_secs,
                                max_outstanding_messages,
                                max_outstanding_bytes,
                            ),
                            ..session
                        },
                    ),
                    ..old(self)@
                }
            } else {
                old(self)@
            },
    {
        self.streams.update(
            stream_id,
            ack_deadline_secs,
            max_outstanding_messages,
            max_outstanding_bytes,
        );
    }

    /// Hands out as many messages as a stream may take. Fails when the stream is not open.
    pub fn lease_for_stream<K: KvStore>(&mut self, kv: &mut K, stream_id: u64, now_ms: i64) -> (r:
        Result<Vec<Delivered>, Error>)
        ensures
            ({
                let end = stream_lease_end(old(kv).rows(), old(self)@, stream_id, now_ms);
                ||| {
                    &&& delivered_result(r) == end.outcome
                    &&& final(self)@ == end.engine
                    &&& final(kv).rows() == kv::after_writes(old(kv).rows(), end.writes)
                }
                ||| {
                    &&& r is Err
                    &&& !K::reliable()
                    &&& K::may_fail(r->Err_0@)
                    &&& kv::torn(old(kv).rows(), end.writes, final(kv).rows())
                    &&& final(self)@ == (EngineView {
                        leases: final(self)@.leases,
                        filters: final(self)@.filters,
                        ..old(self)@
                    })
                    &&& same_for_others(
                        old(self)@.leases,
                        final(self)@.leases,
                        stream_subscription(old(self)@.sessions, stream_id),
                    )
                }
            }),
            r matches Ok(out) ==> all_out(
                final(self)@.leases,
                stream_subscription(old(self)@.sessions, stream_id),
                delivered_views(out@),
            ),
    {
        let info = match self.streams.info(stream_id) {
            Some(info) => info,
            None => {
                return Err(
                    not_found(
                        text::cat2("stream_id=", text::u64_text(stream_id).as_str()).as_str(),
                    ),
                );
            },
        };
        let (messages, bytes) = self.streams.remaining_budget(stream_id);
        if messages <= 0 || bytes <= 0 {
            let none: Vec<Delivered> = Vec::new();
            assert(delivered_views(none@) =~= Seq::<DeliveredView>::empty());
            return Ok(none);
        }
        let max_messages: i32 = if messages > i32::MAX as i64 {
            i32::MAX
        } else {
            messages as i32
        };
        let delivered = match self.lease_next(
            kv,
            info.sub_id,
            info.topic_id,
            max_messages,
            now_ms,
            info.ack_deadline_secs,
        ) {
            Ok(d) => d,
            Err(e) => {
                return Err(e);
            },
        };
        let ghost leased = self@;
        let ghost out = delivered_views(delivered@);
        let mut i: usize = 0;
        while i < delivered.len()
            invariant
                i <= delivered.len(),
                out == delivered_views(delivered@),
                self@ == (EngineView {
                    sessions: sending(leased.sessions, stream_id, out, i as int),
                    ..leased
                }),
            decreases delivered.len() - i,
        {
            assert(out[i as int] == delivered@[i as int]@);
            self.streams.record_delivery(
                stream_id,
                delivered[i].seq,
                delivered[i].message.payload.len(),
                delivered[i].generation,
            );
            i = i + 1;
        }
        Ok(delivered)
    }

    /// Whether the subscription of a stream has a dead-letter topic, so that its clients see how
    /// often a message was delivered.
    pub fn exposes_attempts<K: KvStore>(&self, kv: &K, stream_id: u64) -> (r: bool)
        ensures
            r == (policy_of(
                kv.rows(),
                stream_subscription(self@.sessions, stream_id),
            ).dead_letter_topic is Some),
    {
        let sub_id: u64 = match self.streams.info(stream_id) {
            Some(info) => info.sub_id,
            None => 0,
        };
        reclaim_policy(kv, sub_id).dead_letter.topic.is_some()
    }

    /// How often the message was delivered for whose delivery an ack id stands; 0 when it names no
    /// lease of the subscription.
    pub fn attempts_of(&self, sub_id: u64, ack_id: &str) -> (n: u32)
        ensures
            n == attempts_so_far(self@.leases, sub_id, ack_id@),
    {
        match lease::decode_ack_id(ack_id) {
            Some((other, seq, generation)) => match self.leases.get(other, seq) {
                Some(l) => if other == sub_id && l.generation == generation {
                    l.attempts
                } else {
                    0
                },
                None => 0,
            },
            None => 0,
        }
    }

    /// Frees what the messages that `ack_ids` stand for take on a stream.
    fn resolve_on_stream(&mut self, stream_id: u64, sub_id: u64, ack_ids: &[String])
        ensures
            final(self)@ == (EngineView {
                sessions: resolving(
                    old(self)@.sessions,
                    stream_id,
                    sub_id,
                    text::texts(ack_ids@),
                    ack_ids@.len() as int,
                ),
                ..old(self)@
            }),
    {
        let ghost ids = text::texts(ack_ids@);
        let ghost before = self@;
        let mut i: usize = 0;
        while i < ack_ids.len()
            invariant
                i <= ack_ids.len(),
                ids == text::texts(ack_ids@),
                self@ == (EngineView {
                    sessions: resolving(before.sessions, stream_id, sub_id, ids, i as int),
                    ..before
                }),
            decreases ack_ids.len() - i,
        {
            assert(ids[i as int] == ack_ids@[i as int]@);
            if let Some((other, seq, _)) = lease::decode_ack_id(ack_ids[i].as_str()) {
                if other == sub_id {
                    self.streams.record_resolved(stream_id, seq);
                }
            }
            i = i + 1;
        }
    }

    /// Notes that the delivery that an ack id stands for was put off: it does not count against the
    /// budget of its stream any more.
    pub fn put_off_on_stream(&mut self, stream_id: u64, sub_id: u64, ack_id: &str)
        ensures
            final(self)@ == (EngineView {
                sessions: putting_off(old(self)@.sessions, stream_id, sub_id, ack_id@),
                ..old(self)@
            }),
    {
        if let Some((other, seq, generation)) = lease::decode_ack_id(ack_id) {
            if other == sub_id {
                self.streams.record_put_off(stream_id, seq, generation);
            }
        }
    }

    /// [`Self::acknowledge`], and frees what the messages take on a stream.
    pub fn stream_acknowledge<K: KvStore>(
        &mut self,
        kv: &mut K,
        stream_id: u64,
        sub_id: u64,
        ack_ids: &[String],
    ) -> (r: Result<(), Error>)
        ensures
            ({
                let ids = text::texts(ack_ids@);
                let end = ack_end(old(kv).rows(), old(self)@.leases, sub_id, ids);
                ||| {
                    &&& error::result_view(r) == end.outcome
                    &&& final(self)@ == (EngineView {
                        leases: end.leases,
                        sessions: if end.outcome is Ok {
                            resolving(
                                old(self)@.sessions,
                                stream_id,
                                sub_id,
                                ids,
                                ids.len() as int,
                            )
                        } else {
                            old(self)@.sessions
                        },
                        ..old(self)@
                    })
                    &&& final(kv).rows() == kv::after_writes(old(kv).rows(), end.writes)
                }
                ||| {
                    &&& r is Err
                    &&& !K::reliable()
                    &&& K::may_fail(r->Err_0@)
                    &&& kv::torn(old(kv).rows(), end.writes, final(kv).rows())
                    &&& only_lost(old(self)@.leases, final(self)@.leases)
                    &&& final(self)@ == (EngineView { leases: final(self)@.leases, ..old(self)@ })
                }
            }),
    {
        match self.acknowledge(kv, sub_id, ack_ids) {
            Ok(_) => {},
            Err(e) => {
                return Err(e);
            },
        }
        self.resolve_on_stream(stream_id, sub_id, ack_ids);
        Ok(())
    }

    /// [`Self::modify_ack_deadline`]. Giving messages back also frees what they take on a stream.
    pub fn stream_modify_ack_deadline<K: KvStore>(
        &mut self,
        kv: &mut K,
        stream_id: u64,
        sub_id: u64,
        ack_ids: &[String],
        now_ms: i64,
        seconds: i32,
    ) -> (r: Result<(), Error>)
        ensures
            ({
                let ids = text::texts(ack_ids@);
                let (writes, leases) = changing_deadlines(
                    old(self)@.leases,
                    sub_id,
                    ids,
                    now_ms,
                    seconds,
                    ids.len() as int,
                );
                match r {
                    Ok(_) => {
                        &&& final(self)@ == (EngineView {
                            leases,
                            sessions: if seconds <= 0 {
                                resolving(
                                    old(self)@.sessions,
                                    stream_id,
                                    sub_id,
                                    ids,
                                    ids.len() as int,
                                )
                            } else {
                                old(self)@.sessions
                            },
                            ..old(self)@
                        })
                        &&& final(kv).rows() == kv::after_writes(old(kv).rows(), writes)
                    },
                    Err(e) => {
                        &&& !K::reliable()
                        &&& K::may_fail(e@)
                        &&& kv::torn(old(kv).rows(), writes, final(kv).rows())
                        &&& final(self)@.leases.dom() == old(self)@.leases.dom()
                        &&& final(self)@ == (EngineView {
                            leases: final(self)@.leases,
                            ..old(self)@
                        })
                    },
                }
            }),
    {
        match self.modify_ack_deadline(kv, sub_id, ack_ids, now_ms, seconds) {
            Ok(_) => {},
            Err(e) => {
                return Err(e);
            },
        }
        if seconds <= 0 {
            self.resolve_on_stream(stream_id, sub_id, ack_ids);
        }
        Ok(())
    }

    /// Closes a stream and ends the leases that it still holds, stored rows included: their messages
    /// can be handed out again right away. A message that went out on it and was leased anew since
    /// is left to whoever has it now. A row whose removal fails stays. Nothing happens when the
    /// stream is not open.
    pub fn on_stream_closed<K: KvStore>(&mut self, kv: &mut K, stream_id: u64)
        ensures
            ({
                let gone = stream_leases(old(self)@.leases, old(self)@.sessions, stream_id);
                &&& final(self)@ == (EngineView {
                    leases: old(self)@.leases.remove_keys(gone),
                    sessions: old(self)@.sessions.remove(stream_id),
                    ..old(self)@
                })
                &&& only_removed(old(kv).rows(), final(kv).rows(), delivery_rows(gone))
                &&& K::reliable() ==> final(kv).rows() == old(kv).rows().remove_keys(
                    delivery_rows(gone),
                )
            }),
    {
        let ghost rows = kv.rows();
        let ghost before = self@;
        let ghost gone = stream_leases(before.leases, before.sessions, stream_id);
        let held = self.streams.deliveries(stream_id);
        let sub_id: u64 = match self.streams.close(stream_id) {
            Some((sub_id, _)) => sub_id,
            None => {
                assert(gone =~= Set::empty());
                assert(delivery_rows(gone) =~= Set::empty());
                assert(rows.remove_keys(delivery_rows(gone)) =~= rows);
                assert(before.leases.remove_keys(gone) =~= before.leases);
                return;
            },
        };
        let mut i: usize = 0;
        let ghost mut part: Set<(u64, u64)> = Set::empty();
        assert(delivery_rows(part) =~= Set::empty());
        assert(rows.remove_keys(delivery_rows(part)) =~= rows);
        assert(before.leases.remove_keys(part) =~= before.leases);
        while i < held.len()
            invariant
                i <= held.len(),
                forall|a: int, b: int|
                    #![trigger held@[a], held@[b]]
                    0 <= a < b < held@.len() ==> held@[a].0 != held@[b].0,
                forall|k: (u64, u64)| #[trigger]
                    part.contains(k) <==> k.0 == sub_id && stands_among(
                        before.leases,
                        held@,
                        i as int,
                        k,
                    ),
                self@ == (EngineView {
                    leases: before.leases.remove_keys(part),
                    sessions: before.sessions.remove(stream_id),
                    ..before
                }),
                only_removed(rows, kv.rows(), delivery_rows(part)),
                K::reliable() ==> kv.rows() == rows.remove_keys(delivery_rows(part)),
            decreases held.len() - i,
        {
            let (seq, generation) = held[i];
            let stands = match self.leases.get(sub_id, seq) {
                Some(l) => l.generation == generation,
                None => false,
            };
            assert(!part.contains((sub_id, seq))) by {
                if part.contains((sub_id, seq)) {
                    let j = choose|j: int|
                        0 <= j < i && #[trigger] held@[j] == (
                            seq,
                            before.leases[(sub_id, seq)].generation,
                        );
                    assert(held@[j].0 != held@[i as int].0);
                }
            }
            assert forall|k: (u64, u64)| #[trigger]
                stands_among(before.leases, held@, i + 1, k) <==> stands_among(
                    before.leases,
                    held@,
                    i as int,
                    k,
                ) || (before.leases.contains_key(k) && held@[i as int] == (
                    k.1,
                    before.leases[k].generation,
                )) by {
                if stands_among(before.leases, held@, i as int, k) {
                    let j = choose|j: int|
                        0 <= j < i && #[trigger] held@[j] == (k.1, before.leases[k].generation);
                    assert(held@[j] == (k.1, before.leases[k].generation));
                }
            }
            if !stands {
                i = i + 1;
                continue;
            }
            let ghost now = kv.rows();
            let ghost key = ("dlv"@, keys::pair_key(sub_id, seq));
            let ghost more = part.insert((sub_id, seq));
            proof {
                assert(delivery_rows(more) =~= delivery_rows(part).insert(key)) by {
                    lemma_delivery_rows_insert(part, (sub_id, seq));
                }
            }
            let _ = self.leases.remove(sub_id, seq);
            assert(before.leases.remove_keys(part).remove((sub_id, seq))
                =~= before.leases.remove_keys(more));
            let _ = kv.delete("dlv", keys::delivery_key(sub_id, seq).as_slice());
            assert(K::reliable() ==> kv.rows() =~= rows.remove_keys(delivery_rows(more)));
            proof {
                part = more;
            }
            i = i + 1;
        }
        assert forall|k: (u64, u64)| part.contains(k) <==> gone.contains(k) by {
            if part.contains(k) {
                let j = choose|j: int|
                    0 <= j < held@.len() && #[trigger] held@[j] == (
                        k.1,
                        before.leases[k].generation,
                    );
                assert(held@.contains(held@[j]));
            }
            if gone.contains(k) {
                let d = (k.1, before.leases[k].generation);
                assert(held@.contains(d));
                let j = choose|j: int| 0 <= j < held@.len() && held@[j] == d;
                assert(stands_among(before.leases, held@, held@.len() as int, k));
            }
        }
        assert(part =~= gone);
    }

    /// Forgets the leases of a subscription that ran out more than `grace_ms` ago, and returns how
    /// many. Their stored rows stay, so that the messages are handed out again with the right
    /// number of attempts.
    pub fn sweep_expired(&mut self, sub_id: u64, now_ms: i64, grace_ms: i64) -> (n: usize)
        ensures
            ({
                let limit_ms = arith::clamp_i64(now_ms - grace_ms) as i64;
                &&& final(self)@ == (EngineView {
                    leases: swept(old(self)@.leases, sub_id, limit_ms),
                    ..old(self)@
                })
                &&& n == lease::keys_of_subscription(old(self)@.leases, sub_id).intersect(
                    lease::expired_keys(old(self)@.leases, limit_ms),
                ).len()
            }),
    {
        let limit_ms: i64 = arith::saturating_sub(now_ms, grace_ms);
        let ghost leases = self@.leases;
        let due = self.leases.due(limit_ms);
        let ghost out_of_time = lease::expired_keys(leases, limit_ms);
        let ghost mut gone: Set<(u64, u64)> = Set::empty();
        let mut dropped: usize = 0;
        let mut i: usize = 0;
        assert(self@.leases =~= leases.remove_keys(gone));
        while i < due.len()
            invariant
                i <= due.len(),
                dropped <= i,
                leases == old(self)@.leases,
                out_of_time == lease::expired_keys(leases, limit_ms),
                gone.finite(),
                gone.len() == dropped,
                forall|k: (u64, u64)| #[trigger]
                    gone.contains(k) <==> k.0 == sub_id && reported(due@, i as int, k),
                self@ == (EngineView { leases: self@.leases, ..old(self)@ }),
                self@.leases == leases.remove_keys(gone),
                forall|j: int|
                    0 <= j < due@.len() ==> {
                        let k = ((#[trigger] due@[j]).sub_id, due@[j].seq);
                        out_of_time.contains(k) && due@[j] == leases[k]
                    },
                forall|j: int, m: int|
                    #![trigger due@[j], due@[m]]
                    0 <= j < m < due@.len() ==> (due@[j].sub_id, due@[j].seq) != (
                        due@[m].sub_id,
                        due@[m].seq,
                    ),
                forall|k: (u64, u64)| #[trigger]
                    out_of_time.contains(k) ==> reported(due@, due@.len() as int, k),
            decreases due.len() - i,
        {
            let l = due[i];
            let ghost key = (l.sub_id, l.seq);
            proof {
                assert(out_of_time.contains(key) && due@[i as int] == leases[key]);
                assert forall|k: (u64, u64)| #[trigger]
                    reported(due@, i + 1, k) <==> reported(due@, i as int, k) || k == key by {
                    if reported(due@, i as int, k) {
                        let j = choose|j: int|
                            0 <= j < i && ((#[trigger] due@[j]).sub_id, due@[j].seq) == k;
                        assert((due@[j].sub_id, due@[j].seq) == k);
                    }
                    if k == key {
                        assert((due@[i as int].sub_id, due@[i as int].seq) == k);
                    }
                }
                if reported(due@, i as int, key) {
                    let j = choose|j: int|
                        0 <= j < i && ((#[trigger] due@[j]).sub_id, due@[j].seq) == key;
                    assert((due@[j].sub_id, due@[j].seq) != (
                        due@[i as int].sub_id,
                        due@[i as int].seq,
                    ));
                }
            }
            if l.sub_id == sub_id {
                let _ = self.leases.remove(l.sub_id, l.seq);
                dropped = dropped + 1;
                proof {
                    gone = gone.insert(key);
                }
                assert(self@.leases =~= leases.remove_keys(gone));
            }
            i = i + 1;
        }
        proof {
            assert forall|k: (u64, u64)| reported(due@, i as int, k) implies out_of_time.contains(
                k,
            ) by {
                let j = choose|j: int|
                    0 <= j < i && ((#[trigger] due@[j]).sub_id, due@[j].seq) == k;
                assert((due@[j].sub_id, due@[j].seq) == k);
            }
            assert forall|k: (u64, u64)| #[trigger] leases.contains_key(k) implies (reported(
                due@,
                i as int,
                k,
            ) <==> leases[k].deadline_ms <= limit_ms) by {
                assert(out_of_time.contains(k) <==> leases[k].deadline_ms <= limit_ms);
            }
            assert(gone =~= lease::keys_of_subscription(leases, sub_id).intersect(out_of_time));
        }
        dropped
    }

    /// The number of leases. Each is filed under its own subscription and message.
    pub fn lease_count(&self) -> (n: usize)
        ensures
            self@.leases.dom().finite(),
            n == self@.leases.len(),
            lease::filed_by_key(self@.leases),
    {
        self.leases.len()
    }

    /// The cursor of a subscription.
    pub fn cursor_snapshot<K: KvStore>(&self, kv: &K, sub_id: u64) -> (r: Result<
        CursorRecord,
        Error,
    >)
        ensures
            error::result_view(r) == stored_cursor(kv.rows(), sub_id),
    {
        load_cursor(kv, sub_id)
    }

    /// When the oldest message was published that is not done on a subscription, if there is one.
    pub fn oldest_unacked_publish_ts_ms<K: KvStore>(&self, kv: &K, sub_id: u64, topic_id: u64) -> (r:
        Result<Option<i64>, Error>)
        ensures
            match stored_cursor(kv.rows(), sub_id) {
                Ok(cursor) => r is Ok && r->Ok_0 == oldest_open(
                    kv::scan_of(kv.rows(), "msg"@, keys::be64(topic_id)),
                    cursor,
                    0,
                ),
                Err(e) => r is Err && r->Err_0@ == e,
            },
    {
        let cursor = match load_cursor(kv, sub_id) {
            Ok(c) => c,
            Err(e) => {
                return Err(e);
            },
        };
        let entries = kv.scan_prefix("msg", keys::msg_key_prefix(topic_id).as_slice());
        let ghost log = kv::scan_view(entries@);
        proof {
            kv::law_scan_is_unique(kv.rows(), "msg"@, keys::be64(topic_id), log, log);
        }
        let mut i: usize = 0;
        while i < entries.len()
            invariant
                i <= entries.len(),
                log == kv::scan_view(entries@),
                log == kv::scan_of(kv.rows(), "msg"@, keys::be64(topic_id)),
                stored_cursor(kv.rows(), sub_id) == Ok::<_, ErrorView>(cursor@),
                oldest_open(log, cursor@, 0) == oldest_open(log, cursor@, i as int),
            decreases entries.len() - i,
        {
            assert(log[i as int] == (entries@[i as int].0@, entries@[i as int].1@));
            if let Some((_, seq)) = keys::parse_msg_key(entries[i].0.as_slice()) {
                if let KvValue::Message(message) = &entries[i].1 {
                    if !cursor::done(&cursor, seq) {
                        return Ok(Some(message.publish_ts_ms));
                    }
                }
            }
            i = i + 1;
        }
        Ok(None)
    }

    /// Puts every stored delivery back into the leases, after a restart.
    pub fn recover<K: KvStore>(&mut self, kv: &K)
        ensures
            final(self)@ == (EngineView {
                leases: recovered(kv.rows(), old(self)@.leases),
                ..old(self)@
            }),
    {
        let none: Vec<u8> = Vec::new();
        let entries = kv.scan_prefix("dlv", none.as_slice());
        let ghost scan = kv::scan_view(entries@);
        let ghost leases = self@.leases;
        let mut i: usize = 0;
        while i < entries.len()
            invariant
                i <= entries.len(),
                scan == kv::scan_view(entries@),
                leases == old(self)@.leases,
                self@ == (EngineView {
                    leases: recovering(leases, scan, i as int),
                    ..old(self)@
                }),
            decreases entries.len() - i,
        {
            assert(scan[i as int] == (entries@[i as int].0@, entries@[i as int].1@));
            if let Some((sub_id, seq)) = keys::parse_delivery_key(entries[i].0.as_slice()) {
                if let KvValue::Delivery(d) = &entries[i].1 {
                    self.leases.put(
                        Lease {
                            sub_id,
                            seq,
                            deadline_ms: d.deadline_ms,
                            attempts: d.attempts,
                            generation: d.generation,
                            given_back: d.given_back,
                        },
                    );
                }
            }
            i = i + 1;
        }
        proof {
            lemma_recovering_all(kv.rows(), leases, scan);
        }
    }

    /// Replaces the cursor of a subscription. All its leases end, stored rows included, so that
    /// attempts are counted anew.
    pub fn restore_cursor<K: KvStore>(
        &mut self,
        kv: &mut K,
        sub_id: u64,
        cursor: CursorRecord,
    ) -> (r: Result<(), Error>)
        ensures
            final(self)@ == (EngineView {
                leases: old(self)@.leases.remove_keys(
                    lease::keys_of_subscription(old(self)@.leases, sub_id),
                ),
                ..old(self)@
            }),
            ({
                let gone = rows_of_subscription(old(kv).rows(), sub_id);
                match r {
                    Ok(_) => final(kv).rows() == kv::after_write(
                        old(kv).rows().remove_keys(gone),
                        cursor_write(sub_id, cursor@),
                    ),
                    Err(e) => !K::reliable() && K::may_fail(e@) && only_removed(
                        old(kv).rows(),
                        final(kv).rows(),
                        gone,
                    ),
                }
            }),
    {
        let ghost rows = kv.rows();
        let ghost gone = rows_of_subscription(rows, sub_id);
        let seqs = self.leases.remove_all_for_subscription(sub_id);
        let mut i: usize = 0;
        while i < seqs.len()
            invariant
                i <= seqs.len(),
                rows == old(kv).rows(),
                gone == rows_of_subscription(rows, sub_id),
                only_removed(rows, kv.rows(), gone),
                self@ == (EngineView {
                    leases: old(self)@.leases.remove_keys(
                        lease::keys_of_subscription(old(self)@.leases, sub_id),
                    ),
                    ..old(self)@
                }),
            decreases seqs.len() - i,
        {
            let key = keys::delivery_key(sub_id, seqs[i]);
            proof {
                lemma_pair_key_starts(sub_id, seqs@[i as int]);
            }
            match kv.delete("dlv", key.as_slice()) {
                Ok(_) => {},
                Err(e) => {
                    return Err(e);
                },
            }
            i = i + 1;
        }
        let ghost mid = kv.rows();
        let stale = kv.scan_prefix("dlv", keys::delivery_key_prefix(sub_id).as_slice());
        let ghost scan = kv::scan_view(stale@);
        i = 0;
        while i < stale.len()
            invariant
                i <= stale.len(),
                rows == old(kv).rows(),
                gone == rows_of_subscription(rows, sub_id),
                only_removed(rows, kv.rows(), gone),
                only_removed(rows, mid, gone),
                only_removed(mid, kv.rows(), gone),
                scan == kv::scan_view(stale@),
                kv::is_scan(mid, "dlv"@, keys::be64(sub_id), scan),
                forall|j: int|
                    0 <= j < i ==> !kv.rows().contains_key(("dlv"@, (#[trigger] scan[j]).0)),
                self@ == (EngineView {
                    leases: old(self)@.leases.remove_keys(
                        lease::keys_of_subscription(old(self)@.leases, sub_id),
                    ),
                    ..old(self)@
                }),
            decreases stale.len() - i,
        {
            assert(scan[i as int].0 == stale@[i as int].0@);
            match kv.delete("dlv", stale[i].0.as_slice()) {
                Ok(_) => {},
                Err(e) => {
                    return Err(e);
                },
            }
            i = i + 1;
        }
        proof {
            assert forall|k: (Seq<char>, Seq<u8>)| gone.contains(k) implies !kv.rows().contains_key(
                k,
            ) by {
                if kv.rows().contains_key(k) {
                    assert(mid.contains_key(k));
                    assert(kv::scan_has(scan, k.1));
                    let j = choose|j: int| 0 <= j < scan.len() && (#[trigger] scan[j]).0 == k.1;
                    assert(!kv.rows().contains_key(("dlv"@, scan[j].0)));
                }
            }
            assert(kv.rows() =~= rows.remove_keys(gone));
        }
        kv.put("sub", keys::cursor_key(sub_id), KvValue::Cursor(cursor))
    }

    /// Looks at one message, with the filter prepared.
    fn lease_one<K: KvStore>(
        &mut self,
        kv: &mut K,
        cursor: &mut CursorRecord,
        sub_id: u64,
        seq: u64,
        message: &MessageRecord,
        now_ms: i64,
        ack_deadline_secs: i32,
    ) -> (r: Result<(bool, Option<Delivered>), Error>)
        requires
            old(self)@.filters.contains_key(sub_id),
        ensures
            final(self)@ == (EngineView { leases: final(self)@.leases, ..old(self)@ }),
            ({
                let step = message_step(
                    old(kv).rows(),
                    old(self)@.leases,
                    old(cursor)@,
                    old(self)@.filters[sub_id],
                    sub_id,
                    seq,
                    message@,
                    now_ms,
                    ack_deadline_secs,
                );
                &&& same_for_others(old(self)@.leases, final(self)@.leases, sub_id)
                &&& {
                    ||| {
                        &&& final(kv).rows() == kv::after_writes(old(kv).rows(), step.writes)
                        &&& final(self)@.leases == step.leases
                        &&& final(cursor)@ == step.cursor
                        &&& match r {
                            Ok((changed, d)) => {
                                &&& step.failure is None
                                &&& changed == step.cursor_changed
                                &&& opt_delivered(d) == step.delivered
                                &&& d matches Some(x) ==> id_stands(sub_id, x@)
                            },
                            Err(e) => step.failure == Some(e@),
                        }
                    }
                    ||| {
                        &&& r is Err
                        &&& !K::reliable()
                        &&& K::may_fail(r->Err_0@)
                        &&& kv::torn(old(kv).rows(), step.writes, final(kv).rows())
                    }
                }
            }),
    {
        let filter: Option<&CompiledFilter> = match self.filters.get(sub_id) {
            Some(Some(f)) => Some(f),
            _ => None,
        };
        lease_message(
            kv,
            &mut self.leases,
            cursor,
            filter,
            sub_id,
            seq,
            message,
            now_ms,
            ack_deadline_secs,
        )
    }
}

proof fn lemma_acking_goes_on(
    leases: Leases,
    cursor: CursorView,
    sub_id: u64,
    ack_ids: Seq<Seq<char>>,
    m: int,
    n: int,
)
    requires
        0 <= m <= n,
    ensures
        text::has_prefix(
            acking(leases, cursor, sub_id, ack_ids, n).writes,
            acking(leases, cursor, sub_id, ack_ids, m).writes,
        ),
        acking(leases, cursor, sub_id, ack_ids, m).cursor_changed ==> acking(
            leases,
            cursor,
            sub_id,
            ack_ids,
            n,
        ).cursor_changed,
    decreases n - m,
{
    if m < n {
        lemma_acking_goes_on(leases, cursor, sub_id, ack_ids, m, n - 1);
        let first = acking(leases, cursor, sub_id, ack_ids, m).writes;
        let before = acking(leases, cursor, sub_id, ack_ids, n - 1).writes;
        let after = acking(leases, cursor, sub_id, ack_ids, n).writes;
        assert(after.take(before.len() as int) =~= before);
        assert(after.take(first.len() as int) =~= before.take(first.len() as int));
    } else {
        let all = acking(leases, cursor, sub_id, ack_ids, n).writes;
        assert(all.take(all.len() as int) =~= all);
    }
}

proof fn lemma_changing_goes_on(
    leases: Leases,
    sub_id: u64,
    ack_ids: Seq<Seq<char>>,
    now_ms: i64,
    secs: i32,
    m: int,
    n: int,
)
    requires
        0 <= m <= n,
    ensures
        text::has_prefix(
            changing_deadlines(leases, sub_id, ack_ids, now_ms, secs, n).0,
            changing_deadlines(leases, sub_id, ack_ids, now_ms, secs, m).0,
        ),
    decreases n - m,
{
    if m < n {
        lemma_changing_goes_on(leases, sub_id, ack_ids, now_ms, secs, m, n - 1);
        let first = changing_deadlines(leases, sub_id, ack_ids, now_ms, secs, m).0;
        let before = changing_deadlines(leases, sub_id, ack_ids, now_ms, secs, n - 1).0;
        let after = changing_deadlines(leases, sub_id, ack_ids, now_ms, secs, n).0;
        assert(after.take(before.len() as int) =~= before);
        assert(after.take(first.len() as int) =~= before.take(first.len() as int));
    } else {
        let all = changing_deadlines(leases, sub_id, ack_ids, now_ms, secs, n).0;
        assert(all.take(all.len() as int) =~= all);
    }
}

proof fn lemma_delivery_rows_insert(leases: Set<(u64, u64)>, k: (u64, u64))
    ensures
        delivery_rows(leases.insert(k)) == delivery_rows(leases).insert(
            ("dlv"@, keys::pair_key(k.0, k.1)),
        ),
{
    let f = |k: (u64, u64)| ("dlv"@, keys::pair_key(k.0, k.1));
    let more = leases.insert(k);
    assert forall|row: (Seq<char>, Seq<u8>)| delivery_rows(more).contains(row) implies delivery_rows(
        leases,
    ).insert(f(k)).contains(row) by {
        let x = choose|x: (u64, u64)| more.contains(x) && f(x) == row;
        if x != k {
            assert(leases.contains(x) && f(x) == row);
        }
    }
    assert forall|row: (Seq<char>, Seq<u8>)|
        delivery_rows(leases).insert(f(k)).contains(row) implies delivery_rows(more).contains(
        row,
    ) by {
        if row == f(k) {
            assert(more.contains(k) && f(k) == row);
        } else {
            let x = choose|x: (u64, u64)| leases.contains(x) && f(x) == row;
            assert(more.contains(x) && f(x) == row);
        }
    }
    assert(delivery_rows(more) =~= delivery_rows(leases).insert(f(k)));
}

spec fn reported(due: Seq<Lease>, n: int, k: (u64, u64)) -> bool {
    exists|j: int| 0 <= j < n && ((#[trigger] due[j]).sub_id, due[j].seq) == k
}

spec fn recovering(leases: Leases, scan: Scan, n: int) -> Leases
    decreases n,
{
    if n <= 0 {
        leases
    } else {
        let before = recovering(leases, scan, n - 1);
        match (keys::from_pair_key(scan[n - 1].0), scan[n - 1].1) {
            (Some((sub_id, seq)), ValueView::Delivery(d)) => before.insert(
                (sub_id, seq),
                Lease {
                    sub_id,
                    seq,
                    deadline_ms: d.deadline_ms,
                    attempts: d.attempts,
                    generation: d.generation,
                    given_back: d.given_back,
                },
            ),
            _ => before,
        }
    }
}

spec fn noted(scan: Scan, n: int, k: (u64, u64)) -> bool {
    exists|j: int|
        0 <= j < n && (#[trigger] scan[j]).0 == keys::pair_key(k.0, k.1) && scan[j].1 is Delivery
}

proof fn lemma_recovering(rows: Rows, leases: Leases, scan: Scan, n: int, k: (u64, u64))
    requires
        kv::is_scan(rows, "dlv"@, Seq::empty(), scan),
        0 <= n <= scan.len(),
    ensures
        recovering(leases, scan, n).contains_key(k) <==> leases.contains_key(k) || noted(
            scan,
            n,
            k,
        ),
        noted(scan, n, k) ==> stored_lease(rows, k.0, k.1) == Some(recovering(leases, scan, n)[k]),
        leases.contains_key(k) && !noted(scan, n, k) ==> recovering(leases, scan, n)[k]
            == leases[k],
    decreases n,
{
    if n > 0 {
        lemma_recovering(rows, leases, scan, n - 1, k);
        let row = scan[n - 1];
        keys::law_pair_key_round_trip(k.0, k.1, row.0);
        assert(rows[("dlv"@, row.0)] == row.1);
        if noted(scan, n - 1, k) {
            let j = choose|j: int|
                0 <= j < n - 1 && (#[trigger] scan[j]).0 == keys::pair_key(k.0, k.1)
                    && scan[j].1 is Delivery;
            assert(scan[j].0 == keys::pair_key(k.0, k.1));
        }
        if row.0 == keys::pair_key(k.0, k.1) && row.1 is Delivery {
            assert(noted(scan, n, k));
        } else if noted(scan, n, k) {
            let j = choose|j: int|
                0 <= j < n && (#[trigger] scan[j]).0 == keys::pair_key(k.0, k.1)
                    && scan[j].1 is Delivery;
            assert(j < n - 1);
            assert(noted(scan, n - 1, k));
        }
        if let Some((a, b)) = keys::from_pair_key(row.0) {
            keys::law_pair_key_round_trip(a, b, row.0);
        }
    }
}

proof fn lemma_recovering_all(rows: Rows, leases: Leases, scan: Scan)
    requires
        kv::is_scan(rows, "dlv"@, Seq::empty(), scan),
    ensures
        recovering(leases, scan, scan.len() as int) == recovered(rows, leases),
{
    let all = recovering(leases, scan, scan.len() as int);
    let n = scan.len() as int;
    assert forall|k: (u64, u64)| noted(scan, n, k) <==> stored_lease(rows, k.0, k.1) is Some by {
        let key = keys::pair_key(k.0, k.1);
        if stored_lease(rows, k.0, k.1) is Some {
            assert(key.take(0) =~= Seq::<u8>::empty());
            assert(text::has_prefix(key, Seq::<u8>::empty()));
            assert(kv::scan_has(scan, key));
            let j = choose|j: int| 0 <= j < scan.len() && (#[trigger] scan[j]).0 == key;
            assert(rows[("dlv"@, scan[j].0)] == scan[j].1);
        }
        if noted(scan, n, k) {
            lemma_recovering(rows, leases, scan, n, k);
        }
    }
    assert forall|k: (u64, u64)| #[trigger]
        all.contains_key(k) <==> recovered(rows, leases).contains_key(k) by {
        lemma_recovering(rows, leases, scan, n, k);
        assert(noted(scan, n, k) <==> stored_lease(rows, k.0, k.1) is Some);
    }
    assert forall|k: (u64, u64)| #[trigger] all.contains_key(k) implies all[k] == recovered(
        rows,
        leases,
    )[k] by {
        lemma_recovering(rows, leases, scan, n, k);
        assert(noted(scan, n, k) <==> stored_lease(rows, k.0, k.1) is Some);
    }
    assert(all =~= recovered(rows, leases));
}

proof fn lemma_pair_key_starts(a: u64, b: u64)
    ensures
        text::has_prefix(keys::pair_key(a, b), keys::be64(a)),
{
    assert(keys::pair_key(a, b).take(keys::be64(a).len() as int) =~= keys::be64(a));
}

} // verus!
