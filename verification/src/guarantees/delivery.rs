//! Which messages a request hands out, and on which terms.

use crate::delivery::cursor;
use crate::delivery::engine;
use crate::delivery::engine::{DeliveredView, LeaseCall};
use crate::delivery::laws;
use crate::delivery::lease;
use crate::delivery::lease::{AckOutcome, Leases};
use crate::delivery::retry;
use crate::filter;
use crate::filter::ast::ExprView;
use crate::filter::eval;
use crate::filter::parser;
use crate::guarantees::numerals;
use crate::guarantees::transit;
use crate::laws as service_laws;
use crate::service;
use crate::service::ServiceView;
use crate::store::codec::MessageView;
use crate::store::keys;
use crate::store::kv;
use crate::store::kv::{Rows, Scan, ValueView};
use crate::subscription;
use crate::subscription::SubscriptionView;
use crate::text;
use vstd::arithmetic::power2::pow2;
use vstd::prelude::*;

verus! {

/// A number doubled so often.
pub open spec fn doubled(n: int, times: nat) -> int
    decreases times,
{
    if times == 0 {
        n
    } else {
        2 * doubled(n, (times - 1) as nat)
    }
}

proof fn lemma_doubled(n: int, times: nat)
    ensures
        doubled(n, times) == n * pow2(times),
    decreases times,
{
    if times == 0 {
        vstd::arithmetic::power2::lemma2_to64();
    } else {
        lemma_doubled(n, (times - 1) as nat);
        vstd::arithmetic::power2::lemma_pow2_unfold(times);
        let p = pow2((times - 1) as nat) as int;
        assert(2 * (n * p) == n * (2 * p)) by (nonlinear_arith);
    }
}

/// How long a message waits, in milliseconds, after the deadline of its last delivery: for the
/// shortest time that the policy allows, but 100 at least, doubled with each delivery after the
/// first, 20 times at most, and never longer than the longest time.
pub open spec fn wait_ms(attempts: u32, min_secs: i64, max_secs: i64) -> int {
    let shortest = if min_secs < 1 {
        100
    } else {
        min_secs * 1000
    };
    let longest = if max_secs * 1000 < shortest {
        shortest
    } else {
        max_secs * 1000
    };
    let grown = doubled(
        shortest,
        if attempts < 1 {
            0
        } else if attempts - 1 < 20 {
            (attempts - 1) as nat
        } else {
            20
        },
    );
    if grown < longest {
        grown
    } else {
        longest
    }
}

/// The backoff is as long as the policy says, and no time is waited for that is out of the range of
/// the clock.
pub proof fn law_backoff(from_ms: i64, attempts: u32, min_secs: i64, max_secs: i64)
    ensures
        retry::backoff_ms(attempts, min_secs, max_secs) == wait_ms(attempts, min_secs, max_secs),
        0 <= min_secs <= 600 && 0 <= max_secs <= 600 && from_ms + wait_ms(
            attempts,
            min_secs,
            max_secs,
        ) <= i64::MAX ==> retry::eligible_at(from_ms, attempts, min_secs, max_secs) == from_ms
            + wait_ms(attempts, min_secs, max_secs),
{
    let shortest = if min_secs < 1 {
        100
    } else {
        min_secs * 1000
    };
    lemma_doubled(shortest, retry::doublings(attempts));
    retry::law_backoff_grows_within_bounds(attempts, attempts, min_secs, max_secs);
}

/// The last delivery of a message: its deadline, how often the message was delivered by then, and
/// whether it was given back. It is that of the lease, or else the one that is stored.
pub open spec fn last_delivery(rows: Rows, leases: Leases, sub_id: u64, seq: u64) -> Option<
    (i64, u32, bool),
> {
    if leases.contains_key((sub_id, seq)) {
        let l = leases[(sub_id, seq)];
        Some((l.deadline_ms, l.attempts, l.given_back))
    } else {
        match kv::fetch(rows, "dlv"@, keys::pair_key(sub_id, seq)) {
            Some(ValueView::Delivery(d)) => Some((d.deadline_ms, d.attempts, d.given_back)),
            _ => None,
        }
    }
}

/// A message can be handed out: it satisfies the filter, if there is one; it is not done; it is not
/// out on a lease that has not run out; and if it was delivered before and not given back, the
/// backoff has passed, where the subscription's client has set one.
pub open spec fn can_go_out(
    call: LeaseCall,
    s: SubscriptionView,
    seq: u64,
    message: MessageView,
) -> bool {
    let last = last_delivery(call.rows, call.leases, call.sub_id, seq);
    &&& call.filter matches Some(e) ==> eval::satisfies(e, message.attributes)
    &&& seq > call.cursor.acked_floor
    &&& !call.cursor.acked_above_floor.contains(seq)
    &&& call.leases.contains_key((call.sub_id, seq)) ==> call.leases[(
        call.sub_id,
        seq,
    )].deadline_ms <= call.now_ms
    &&& last matches Some((deadline_ms, attempts, given_back)) ==> {
        ||| !s.retry_policy_explicit
        ||| given_back
        ||| call.now_ms >= deadline_ms + wait_ms(
            attempts,
            s.min_retry_backoff_secs,
            s.max_retry_backoff_secs,
        )
    }
}

/// The settings of a request's subscription are as they are stored, and its backoff is in range.
pub open spec fn is_of(call: LeaseCall, s: SubscriptionView) -> bool {
    &&& kv::fetch(call.rows, "meta"@, keys::sub_key_bytes(call.sub_id)) == Some(
        ValueView::Subscription(s),
    )
    &&& 0 <= s.min_retry_backoff_secs <= 600
    &&& 0 <= s.max_retry_backoff_secs <= 600
}

/// Times are so early that a backoff stays within the range of the clock.
pub open spec fn is_early(call: LeaseCall, seq: u64) -> bool {
    last_delivery(call.rows, call.leases, call.sub_id, seq) matches Some((deadline_ms, _, _))
        ==> deadline_ms <= i64::MAX - 600_000
}

proof fn lemma_can_go_out(call: LeaseCall, s: SubscriptionView, seq: u64, message: MessageView)
    requires
        is_of(call, s),
        is_early(call, seq),
    ensures
        laws::is_free(call, seq, message) <==> can_go_out(call, s, seq, message),
{
    if let Some((deadline_ms, attempts, _)) = last_delivery(
        call.rows,
        call.leases,
        call.sub_id,
        seq,
    ) {
        law_backoff(deadline_ms, attempts, s.min_retry_backoff_secs, s.max_retry_backoff_secs);
    }
}

/// A message was delivered as often as its subscription allows.
pub open spec fn is_worn_out(call: LeaseCall, s: SubscriptionView, seq: u64) -> bool {
    &&& s.dead_letter_topic is Some
    &&& s.max_delivery_attempts > 0
    &&& last_delivery(call.rows, call.leases, call.sub_id, seq) matches Some((_, attempts, _))
        && attempts >= s.max_delivery_attempts
}

/// A delivery is that of a message of the log.
pub open spec fn is_delivery_of(
    call: LeaseCall,
    d: DeliveredView,
    seq: u64,
    message: MessageView,
) -> bool {
    &&& d.seq == seq
    &&& d.message == message
    &&& d.ack_id == lease::ack_id_text(call.sub_id, seq, d.generation)
    &&& match last_delivery(call.rows, call.leases, call.sub_id, seq) {
        Some((_, attempts, _)) => attempts < u32::MAX ==> d.delivery_attempt == attempts + 1,
        None => d.delivery_attempt == 1,
    }
}

/// A request hands out messages of the log that can be handed out, and nothing else, in the order of
/// the log, each once, and no more than it asked for; each counts one more delivery than before. A
/// request that hands out less than it asked for has handed out all of them, but for those that were
/// delivered as often as allowed.
pub proof fn law_what_goes_out(call: LeaseCall, log: Scan, s: SubscriptionView, j: int)
    requires
        laws::is_log(log),
        0 <= call.max_messages,
        is_of(call, s),
        forall|seq: u64| is_early(call, seq),
        engine::leasing(call, log, log.len() as int).failure is None,
        0 <= j < log.len(),
        keys::from_pair_key(log[j].0) is Some,
        log[j].1 is Message,
    ensures
        ({
            let out = engine::leasing(call, log, log.len() as int).out;
            let seq = (keys::from_pair_key(log[j].0)->0).1;
            let message = log[j].1->Message_0;
            let goes_out = exists|k: int| 0 <= k < out.len() && (#[trigger] out[k]).seq == seq;
            &&& out.len() <= call.max_messages
            &&& forall|a: int, b: int|
                0 <= a < b < out.len() ==> (#[trigger] out[a]).seq < (#[trigger] out[b]).seq
            &&& forall|k: int|
                0 <= k < out.len() && (#[trigger] out[k]).seq == seq ==> is_delivery_of(
                    call,
                    out[k],
                    seq,
                    message,
                )
            &&& goes_out ==> can_go_out(call, s, seq, message)
            &&& out.len() < call.max_messages && can_go_out(call, s, seq, message)
                && !is_worn_out(call, s, seq) ==> goes_out
        }),
{
    let n = log.len() as int;
    let out = engine::leasing(call, log, n).out;
    let seq = (keys::from_pair_key(log[j].0)->0).1;
    let message = log[j].1->Message_0;
    assert(is_early(call, seq));
    lemma_can_go_out(call, s, seq, message);
    laws::law_deliveries(call, log);
    assert(laws::seq_in(log, j) == Some(seq));
    assert forall|k: int| 0 <= k < out.len() && (#[trigger] out[k]).seq == seq implies {
        &&& is_delivery_of(call, out[k], seq, message)
        &&& laws::is_free(call, seq, message)
    } by {
        assert(laws::is_due(call, log, n, out[k]));
        let i = choose|i: int|
            {
                &&& 0 <= i < n
                &&& #[trigger] laws::seq_in(log, i) == Some(out[k].seq)
                &&& log[i].1 == ValueView::Message(out[k].message)
                &&& laws::is_free(call, out[k].seq, out[k].message)
                &&& out[k] == laws::delivery_of(
                    call,
                    out[k].seq,
                    out[k].message,
                    out[k].generation,
                )
            };
        assert(laws::seq_in(log, i) == Some(seq));
        if i < j {
            assert(laws::seq_in(log, i)->0 < laws::seq_in(log, j)->0);
        } else if j < i {
            assert(laws::seq_in(log, j)->0 < laws::seq_in(log, i)->0);
        }
    }
    if out.len() < call.max_messages && can_go_out(call, s, seq, message) && !is_worn_out(
        call,
        s,
        seq,
    ) {
        laws::law_nothing_is_held_back(call, log, j);
        let k = choose|k: int|
            0 <= k < out.len() && #[trigger] out[k] == laws::delivery_of(
                call,
                seq,
                message,
                out[k].generation,
            );
        assert(out[k].seq == seq);
    }
}

/// A message that is handed out is leased until the ack deadline has passed, counted from now, and the
/// lease is stored with all that is known of it.
pub proof fn law_leases_run_for_the_deadline(call: LeaseCall, log: Scan, k: int)
    requires
        laws::is_log(log),
        laws::leases_stored(call.rows, call.leases),
        0 <= call.max_messages,
        0 <= call.ack_deadline_secs,
        call.now_ms + call.ack_deadline_secs * 1000 <= i64::MAX,
        0 <= k < engine::leasing(call, log, log.len() as int).out.len(),
    ensures
        ({
            let end = engine::leasing(call, log, log.len() as int);
            let d = end.out[k];
            let l = end.leases[(call.sub_id, d.seq)];
            let row = kv::fetch(
                kv::after_writes(call.rows, engine::lease_writes(call, log)),
                "dlv"@,
                keys::pair_key(call.sub_id, d.seq),
            );
            &&& end.leases.contains_key((call.sub_id, d.seq))
            &&& l.sub_id == call.sub_id
            &&& l.seq == d.seq
            &&& l.deadline_ms == call.now_ms + call.ack_deadline_secs * 1000
            &&& l.attempts == d.delivery_attempt
            &&& l.generation == d.generation
            &&& !l.given_back
            &&& row matches Some(ValueView::Delivery(stored))
            &&& stored.deadline_ms == l.deadline_ms
            &&& stored.attempts == l.attempts
            &&& stored.generation == l.generation
            &&& !stored.given_back
        }),
{
    laws::law_delivered_is_leased(call, log, k);
    laws::law_leases_stay_stored(call, log);
    let end = engine::leasing(call, log, log.len() as int);
    let d = end.out[k];
    let rows = kv::after_writes(call.rows, engine::lease_writes(call, log));
    assert(engine::stored_lease(rows, call.sub_id, d.seq) == Some(
        end.leases[(call.sub_id, d.seq)],
    ));
}

/// A pull leases its messages for the ack deadline of the subscription, and tells how often they were
/// delivered exactly if the subscription has a dead-letter topic.
pub proof fn law_pulled_on_the_terms_of_the_subscription(
    s: ServiceView,
    name: Seq<char>,
    max_messages: i32,
    now_ms: i64,
    k: int,
)
    requires
        max_messages > 0,
        subscription::subscription_named(s.rows, name) is Ok,
        ({
            let sub = subscription::subscription_named(s.rows, name)->Ok_0;
            let pull = service::pull_effect(s, name, max_messages, now_ms);
            &&& laws::leases_stored(s.rows, s.engine.leases)
            &&& kv::has_scan(s.rows, "msg"@, keys::be64(sub.topic_id))
            &&& 0 <= sub.ack_deadline_secs
            &&& now_ms + sub.ack_deadline_secs * 1000 <= i64::MAX
            &&& pull.outcome is Ok
            &&& 0 <= k < (pull.outcome->Ok_0).len()
        }),
    ensures
        ({
            let sub = subscription::subscription_named(s.rows, name)->Ok_0;
            let pull = service::pull_effect(s, name, max_messages, now_ms);
            let m = (pull.outcome->Ok_0)[k];
            exists|seq: u64|
                {
                    &&& m.message_id == text::dec(seq as nat)
                    &&& #[trigger] pull.engine.leases.contains_key((sub.id, seq))
                    &&& pull.engine.leases[(sub.id, seq)].deadline_ms == now_ms
                        + sub.ack_deadline_secs * 1000
                    &&& m.delivery_attempt == if sub.dead_letter_topic is Some {
                        pull.engine.leases[(sub.id, seq)].attempts as int
                    } else {
                        0
                    }
                }
        }),
{
    let sub = subscription::subscription_named(s.rows, name)->Ok_0;
    let call = engine::lease_call(
        s.rows,
        s.engine,
        engine::stored_cursor(s.rows, sub.id)->Ok_0,
        sub.id,
        max_messages,
        now_ms,
        sub.ack_deadline_secs,
    );
    let log = kv::scan_of(s.rows, "msg"@, keys::be64(sub.topic_id));
    laws::law_scan_of_topic_is_log(s.rows, sub.topic_id);
    law_leases_run_for_the_deadline(call, log, k);
    let d = engine::leasing(call, log, log.len() as int).out[k];
    let pull = service::pull_effect(s, name, max_messages, now_ms);
    assert(pull.engine.leases.contains_key((sub.id, d.seq)));
}

/// The filter in force is the one that the subscription was created with.
pub open spec fn filter_in_force(s: ServiceView, sub: SubscriptionView, e: ExprView) -> bool {
    &&& kv::fetch(s.rows, "meta"@, keys::sub_key_bytes(sub.id)) == Some(
        ValueView::Subscription(sub),
    )
    &&& parser::parsed(sub.filter) == Ok::<ExprView, int>(e)
    &&& sub.filter.len() <= 256
    &&& s.engine.filters.contains_key(sub.id) ==> s.engine.filters[sub.id] == Some(e)
}

/// A filter is never blank.
proof fn lemma_not_blank(s: Seq<char>)
    requires
        parser::parsed(s) is Ok,
    ensures
        !text::is_blank(s),
{
    reveal_strlit("attributes.");
    reveal_strlit("attributes:");
    reveal_strlit("hasPrefix");
    reveal_strlit("NOT");
    let a = parser::skip_space(s, 0);
    assert(parser::unary_at(s, 0) is Ok);
    let b = if parser::word_at(s, a, "NOT"@) {
        parser::skip_space(s, a + 3)
    } else {
        a
    };
    assert(parser::primary_at(s, b) is Ok);
    if parser::word_at(s, b, "attributes."@) {
        assert(s.subrange(b, b + 11)[0] == 'a');
        assert(s[b] == 'a');
    } else if parser::word_at(s, b, "attributes:"@) {
        assert(s.subrange(b, b + 11)[0] == 'a');
        assert(s[b] == 'a');
    } else if parser::word_at(s, b, "hasPrefix"@) {
        assert(s.subrange(b, b + 9)[0] == 'h');
        assert(s[b] == 'h');
    } else {
        assert(s[b] == '(');
    }
    assert(!text::is_white_space(s[b]));
}

/// Whatever is pulled satisfies the filter of the subscription; and the filter stays in force.
pub proof fn law_pulled_satisfies_the_filter(
    s: ServiceView,
    name: Seq<char>,
    max_messages: i32,
    now_ms: i64,
    e: ExprView,
    k: int,
)
    requires
        subscription::subscription_named(s.rows, name) is Ok,
        ({
            let sub = subscription::subscription_named(s.rows, name)->Ok_0;
            let pull = service::pull_effect(s, name, max_messages, now_ms);
            &&& filter_in_force(s, sub, e)
            &&& kv::has_scan(s.rows, "msg"@, keys::be64(sub.topic_id))
            &&& pull.outcome is Ok
            &&& 0 <= k < (pull.outcome->Ok_0).len()
        }),
    ensures
        ({
            let sub = subscription::subscription_named(s.rows, name)->Ok_0;
            let pull = service::pull_effect(s, name, max_messages, now_ms);
            &&& eval::satisfies(e, (pull.outcome->Ok_0)[k].attributes)
            &&& pull.engine.filters.contains_key(sub.id)
            &&& pull.engine.filters[sub.id] == Some(e)
        }),
{
    let sub = subscription::subscription_named(s.rows, name)->Ok_0;
    let end = engine::lease_end(
        s.rows,
        s.engine,
        sub.id,
        sub.topic_id,
        max_messages,
        now_ms,
        sub.ack_deadline_secs,
    );
    transit::lemma_handed_out(
        s.rows,
        s.engine,
        sub.id,
        sub.topic_id,
        max_messages,
        now_ms,
        sub.ack_deadline_secs,
        k,
    );
    lemma_not_blank(sub.filter);
    assert(parser::filter_error(sub.filter) is None);
    assert(filter::compiled(sub.filter) == Some(e));
    let d = (end.outcome->Ok_0)[k];
    assert((service::pull_effect(s, name, max_messages, now_ms).outcome->Ok_0)[k].attributes
        == d.message.attributes);
}

/// A subscription without a filter wants every message, and so does one whose filter is blank.
pub proof fn law_no_filter_wants_everything(
    s: ServiceView,
    sub: SubscriptionView,
    attributes: crate::string_map::Entries,
)
    requires
        kv::fetch(s.rows, "meta"@, keys::sub_key_bytes(sub.id)) == Some(
            ValueView::Subscription(sub),
        ),
        !s.engine.filters.contains_key(sub.id),
        forall|i: int|
            0 <= i < sub.filter.len() ==> {
                ||| #[trigger] sub.filter[i] == ' '
                ||| sub.filter[i] == '\t'
                ||| sub.filter[i] == '\n'
                ||| sub.filter[i] == '\r'
            },
    ensures
        engine::filter_of(s.engine.filters, s.rows, sub.id) is None,
{
    assert forall|i: int| 0 <= i < sub.filter.len() implies text::is_white_space(
        #[trigger] sub.filter[i],
    ) by {}
}

/// A change of deadline moves the deadlines of the leases that the ack ids name to so many seconds
/// from now, or to now; it changes nothing else of them, and no other lease.
pub proof fn law_deadlines_move(
    leases: Leases,
    sub_id: u64,
    ack_id: Seq<char>,
    now_ms: i64,
    secs: i32,
    k: (u64, u64),
)
    requires
        lease::filed_by_key(leases),
        now_ms + secs * 1000 <= i64::MAX,
    ensures
        ({
            let after = engine::changing_deadlines(leases, sub_id, seq![ack_id], now_ms, secs, 1).1;
            let named = leases.contains_key(k) && k.0 == sub_id && lease::ack_id_parts(ack_id)
                == Some((k.0, k.1, leases[k].generation));
            &&& after.contains_key(k) <==> leases.contains_key(k)
            &&& leases.contains_key(k) && !named ==> after[k] == leases[k]
            &&& named ==> {
                &&& after[k].deadline_ms == now_ms + if secs > 0 {
                    secs * 1000
                } else {
                    0
                }
                &&& after[k].given_back <==> secs <= 0
                &&& after[k].attempts == leases[k].attempts
                &&& after[k].generation == leases[k].generation
                &&& after[k].sub_id == leases[k].sub_id
                &&& after[k].seq == leases[k].seq
            }
        }),
{
    reveal_with_fuel(engine::changing_deadlines, 2);
    if leases.contains_key(k) {
        assert(leases[k].sub_id == k.0 && leases[k].seq == k.1);
    }
    if let AckOutcome::Applied(l) = lease::lease_on(leases, sub_id, lease::ack_id_parts(ack_id)) {
        let other = (l.sub_id, l.seq);
        let parts = lease::ack_id_parts(ack_id)->0;
        assert(leases.contains_key((parts.0, parts.1)));
        assert(leases[(parts.0, parts.1)].sub_id == parts.0);
    }
}

/// A pulled message that is acknowledged never comes again: no later pull from the subscription hands
/// it out, at any time.
pub proof fn law_acknowledged_never_comes_back(
    s: ServiceView,
    name: Seq<char>,
    max_messages: i32,
    now_ms: i64,
    j: int,
    ack_ids: Seq<Seq<char>>,
    i: int,
    later_ms: i64,
    last: ServiceView,
    more: i32,
    last_ms: i64,
    k: int,
)
    requires
        service_laws::well_kept_subscription(s.rows, name),
        max_messages > 0,
        ({
            let sub = subscription::subscription_named(s.rows, name)->Ok_0;
            let pull = service::pull_effect(s, name, max_messages, now_ms);
            let pulled = service::resulting(s, pull);
            let ack = service::acknowledge_effect(pulled, name, ack_ids, later_ms);
            let again = service::pull_effect(last, name, more, last_ms);
            &&& pull.outcome matches Ok(messages)
            &&& lease::filed_by_key(pull.engine.leases)
            &&& service::pulled_are_out(pull.engine.leases, sub.id, messages)
            &&& 0 <= j < messages.len()
            &&& 0 <= i < ack_ids.len()
            &&& ack_ids[i] == messages[j].ack_id
            &&& last == service::resulting(pulled, ack)
            &&& subscription::subscription_named(last.rows, name) matches Ok(found)
            &&& found.id == sub.id
            &&& kv::has_scan(last.rows, "msg"@, keys::be64(found.topic_id))
            &&& again.outcome matches Ok(received)
            &&& 0 <= k < received.len()
        }),
    ensures
        ({
            let pull = service::pull_effect(s, name, max_messages, now_ms);
            let pulled = service::resulting(s, pull);
            let again = service::pull_effect(last, name, more, last_ms);
            &&& service::acknowledge_effect(pulled, name, ack_ids, later_ms).outcome is Ok
            &&& (again.outcome->Ok_0)[k].message_id != (pull.outcome->Ok_0)[j].message_id
        }),
{
    service_laws::law_pulled_is_acknowledged(
        s,
        name,
        max_messages,
        now_ms,
        later_ms,
        j,
        ack_ids,
        i,
    );
    let sub = subscription::subscription_named(s.rows, name)->Ok_0;
    let pull = service::pull_effect(s, name, max_messages, now_ms);
    let l = lease::lease_named_by(
        pull.engine.leases,
        lease::ack_id_parts(ack_ids[i]),
    )->Applied_0;
    lemma_done_stays_out(last, name, more, last_ms, l.seq, k);
}

proof fn lemma_done_stays_out(
    s: ServiceView,
    name: Seq<char>,
    max_messages: i32,
    now_ms: i64,
    seq: u64,
    k: int,
)
    requires
        subscription::subscription_named(s.rows, name) is Ok,
        ({
            let sub = subscription::subscription_named(s.rows, name)->Ok_0;
            let cursor = engine::stored_cursor(s.rows, sub.id);
            let pull = service::pull_effect(s, name, max_messages, now_ms);
            &&& cursor is Ok
            &&& cursor::is_done(cursor->Ok_0, seq)
            &&& kv::has_scan(s.rows, "msg"@, keys::be64(sub.topic_id))
            &&& pull.outcome is Ok
            &&& 0 <= k < (pull.outcome->Ok_0).len()
        }),
    ensures
        (service::pull_effect(s, name, max_messages, now_ms).outcome->Ok_0)[k].message_id
            != text::dec(seq as nat),
{
    let sub = subscription::subscription_named(s.rows, name)->Ok_0;
    let call = engine::lease_call(
        s.rows,
        s.engine,
        engine::stored_cursor(s.rows, sub.id)->Ok_0,
        sub.id,
        max_messages,
        now_ms,
        sub.ack_deadline_secs,
    );
    let log = kv::scan_of(s.rows, "msg"@, keys::be64(sub.topic_id));
    laws::law_scan_of_topic_is_log(s.rows, sub.topic_id);
    laws::law_done_is_never_delivered(call, log, seq);
    let d = engine::leasing(call, log, log.len() as int).out[k];
    numerals::law_numerals_differ(d.seq as nat, seq as nat);
}

/// A message that was pulled and not acknowledged is not handed out again, to anyone, before its
/// deadline.
pub proof fn law_leased_stays_out(
    s: ServiceView,
    name: Seq<char>,
    max_messages: i32,
    now_ms: i64,
    seq: u64,
    k: int,
)
    requires
        subscription::subscription_named(s.rows, name) is Ok,
        ({
            let sub = subscription::subscription_named(s.rows, name)->Ok_0;
            let pull = service::pull_effect(s, name, max_messages, now_ms);
            &&& s.engine.leases.contains_key((sub.id, seq))
            &&& now_ms < s.engine.leases[(sub.id, seq)].deadline_ms
            &&& kv::has_scan(s.rows, "msg"@, keys::be64(sub.topic_id))
            &&& pull.outcome is Ok
            &&& 0 <= k < (pull.outcome->Ok_0).len()
        }),
    ensures
        (service::pull_effect(s, name, max_messages, now_ms).outcome->Ok_0)[k].message_id
            != text::dec(seq as nat),
{
    let sub = subscription::subscription_named(s.rows, name)->Ok_0;
    let call = engine::lease_call(
        s.rows,
        s.engine,
        engine::stored_cursor(s.rows, sub.id)->Ok_0,
        sub.id,
        max_messages,
        now_ms,
        sub.ack_deadline_secs,
    );
    let log = kv::scan_of(s.rows, "msg"@, keys::be64(sub.topic_id));
    laws::law_scan_of_topic_is_log(s.rows, sub.topic_id);
    laws::law_in_flight_is_not_delivered(call, log, seq);
    let d = engine::leasing(call, log, log.len() as int).out[k];
    numerals::law_numerals_differ(d.seq as nat, seq as nat);
}

} // verus!
