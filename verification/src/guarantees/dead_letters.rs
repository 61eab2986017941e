//! Messages that are given up on.

use crate::delivery::cursor;
use crate::delivery::dead_letter;
use crate::delivery::engine;
use crate::delivery::lease::Leases;
use crate::filter::ast::ExprView;
use crate::filter::eval;
use crate::guarantees::numerals;
use crate::guarantees::retention;
use crate::guarantees::transit;
use crate::store::codec::{CursorView, MessageView};
use crate::store::keys;
use crate::store::kv;
use crate::store::kv::{Rows, ValueView, Write};
use crate::string_map;
use crate::string_map::Entries;
use crate::subscription::SubscriptionView;
use crate::text;
use crate::topic;
use vstd::prelude::*;

verus! {

/// The key tells where a forwarded message came from.
pub open spec fn is_source_key(key: Seq<char>) -> bool {
    ||| key == "CloudPubSubDeadLetterSourceDeliveryCount"@
    ||| key == "CloudPubSubDeadLetterSourceSubscription"@
    ||| key == "CloudPubSubDeadLetterSourceSubscriptionProject"@
    ||| key == "CloudPubSubDeadLetterSourceTopicPublishTime"@
}

/// A forwarded message keeps every attribute, but for the four that tell where it came from: how often
/// it was delivered, on which subscription, of which project, and when it was published.
pub proof fn law_forwarded_attributes(
    original: Entries,
    delivery_count: u32,
    project: Seq<char>,
    subscription: Seq<char>,
    publish_ts_ms: i64,
    key: Seq<char>,
)
    requires
        string_map::keys_increase(original),
        text::no_slash(project),
        text::no_slash(subscription),
    ensures
        ({
            let name = "projects/"@ + project + "/subscriptions/"@ + subscription;
            let after = dead_letter::dead_letter_attributes(
                original,
                delivery_count,
                name,
                publish_ts_ms,
            );
            let count = string_map::lookup(after, "CloudPubSubDeadLetterSourceDeliveryCount"@);
            &&& string_map::keys_increase(after)
            &&& !is_source_key(key) ==> string_map::lookup(after, key) == string_map::lookup(
                original,
                key,
            )
            &&& count is Some
            &&& numerals::value(count->0) == delivery_count
            &&& string_map::lookup(after, "CloudPubSubDeadLetterSourceSubscription"@) == Some(name)
            &&& string_map::lookup(after, "CloudPubSubDeadLetterSourceSubscriptionProject"@)
                == Some(project)
            &&& string_map::lookup(after, "CloudPubSubDeadLetterSourceTopicPublishTime"@) == Some(
                dead_letter::rfc3339_ms(publish_ts_ms as int),
            )
        }),
{
    let name = "projects/"@ + project + "/subscriptions/"@ + subscription;
    lemma_inserted(original, delivery_count, name, publish_ts_ms, key);
    numerals::law_numeral(delivery_count as nat);
    reveal_strlit("projects/");
    reveal_strlit("/subscriptions/");
    assert(name.take(9) =~= "projects/"@);
    let rest = name.skip(9);
    let behind = "/subscriptions/"@.skip(1) + subscription;
    assert(rest =~= project.push('/') + behind);
    text::lemma_segments_concat(project, behind);
    text::lemma_segments_of_plain(project);
    assert(text::segments(rest)[0] == project);
}

/// The same for whatever name the subscription has.
proof fn lemma_inserted(
    original: Entries,
    delivery_count: u32,
    name: Seq<char>,
    publish_ts_ms: i64,
    key: Seq<char>,
)
    requires
        string_map::keys_increase(original),
    ensures
        ({
            let after = dead_letter::dead_letter_attributes(
                original,
                delivery_count,
                name,
                publish_ts_ms,
            );
            &&& string_map::keys_increase(after)
            &&& !is_source_key(key) ==> string_map::lookup(after, key) == string_map::lookup(
                original,
                key,
            )
            &&& string_map::lookup(after, "CloudPubSubDeadLetterSourceDeliveryCount"@) == Some(
                text::dec(delivery_count as nat),
            )
            &&& string_map::lookup(after, "CloudPubSubDeadLetterSourceSubscription"@) == Some(name)
            &&& string_map::lookup(after, "CloudPubSubDeadLetterSourceSubscriptionProject"@)
                == Some(dead_letter::project_of(name))
            &&& string_map::lookup(after, "CloudPubSubDeadLetterSourceTopicPublishTime"@) == Some(
                dead_letter::rfc3339_ms(publish_ts_ms as int),
            )
        }),
{
    let ka = "CloudPubSubDeadLetterSourceDeliveryCount"@;
    let kb = "CloudPubSubDeadLetterSourceSubscription"@;
    let kc = "CloudPubSubDeadLetterSourceSubscriptionProject"@;
    let kd = "CloudPubSubDeadLetterSourceTopicPublishTime"@;
    reveal_strlit("CloudPubSubDeadLetterSourceDeliveryCount");
    reveal_strlit("CloudPubSubDeadLetterSourceSubscription");
    reveal_strlit("CloudPubSubDeadLetterSourceSubscriptionProject");
    reveal_strlit("CloudPubSubDeadLetterSourceTopicPublishTime");
    assert(ka.len() == 40);
    assert(kb.len() == 39);
    assert(kc.len() == 46);
    assert(kd.len() == 43);
    let a = string_map::entries_insert(original, ka, text::dec(delivery_count as nat));
    let b = string_map::entries_insert(a, kb, name);
    let c = string_map::entries_insert(b, kc, dead_letter::project_of(name));
    let time = dead_letter::rfc3339_ms(publish_ts_ms as int);
    let d = string_map::entries_insert(c, kd, time);
    string_map::lemma_entries_insert(original, ka, text::dec(delivery_count as nat));
    string_map::lemma_entries_insert(a, kb, name);
    string_map::lemma_entries_insert(b, kc, dead_letter::project_of(name));
    string_map::lemma_entries_insert(c, kd, time);
    assert(string_map::lookup(b, ka) == string_map::lookup(a, ka));
    assert(string_map::lookup(c, ka) == string_map::lookup(b, ka));
    assert(string_map::lookup(d, ka) == string_map::lookup(c, ka));
    assert(string_map::lookup(c, kb) == string_map::lookup(b, kb));
    assert(string_map::lookup(d, kb) == string_map::lookup(c, kb));
    assert(string_map::lookup(d, kc) == string_map::lookup(c, kc));
    if !is_source_key(key) {
        assert(string_map::lookup(a, key) == string_map::lookup(original, key));
        assert(string_map::lookup(b, key) == string_map::lookup(a, key));
        assert(string_map::lookup(c, key) == string_map::lookup(b, key));
        assert(string_map::lookup(d, key) == string_map::lookup(c, key));
    }
}

/// A message was delivered so often, the last time until a deadline, and is due again.
pub open spec fn is_due_again(
    leases: Leases,
    sub_id: u64,
    seq: u64,
    attempts: u32,
    now_ms: i64,
) -> bool {
    &&& leases.contains_key((sub_id, seq))
    &&& leases[(sub_id, seq)].deadline_ms <= now_ms
    &&& leases[(sub_id, seq)].attempts == attempts
}

/// A message that was delivered as often as its subscription allows, and is due again, is forwarded
/// to the dead-letter topic in place of being delivered: it is stored there behind all others, with
/// its data, its ordering key and its attributes, but for the four that tell where it came from; it
/// is done on the subscription, its lease has ended, and nothing is stored of its delivery. One that
/// was delivered less often is delivered once more.
pub proof fn law_given_up_is_forwarded(
    rows: Rows,
    leases: Leases,
    cursor: CursorView,
    filter: Option<ExprView>,
    s: SubscriptionView,
    seq: u64,
    message: MessageView,
    now_ms: i64,
    ack_deadline_secs: i32,
    attempts: u32,
    key: Seq<char>,
)
    requires
        kv::fetch(rows, "meta"@, keys::sub_key_bytes(s.id)) == Some(ValueView::Subscription(s)),
        filter matches Some(e) ==> eval::satisfies(e, message.attributes),
        is_due_again(leases, s.id, seq, attempts, now_ms),
        s.retry_policy_explicit ==> leases[(s.id, seq)].given_back,
        string_map::keys_increase(message.attributes),
        s.dead_letter_topic is Some,
        s.max_delivery_attempts > 0,
        topic::topic_named(rows, s.dead_letter_topic->0) is Ok,
        topic::tail_of(rows, (topic::topic_named(rows, s.dead_letter_topic->0)->Ok_0).id)
            < u64::MAX,
    ensures
        ({
            let t = topic::topic_named(rows, s.dead_letter_topic->0)->Ok_0;
            let at = (topic::tail_of(rows, t.id) + 1) as u64;
            let step = engine::message_step(
                rows,
                leases,
                cursor,
                filter,
                s.id,
                seq,
                message,
                now_ms,
                ack_deadline_secs,
            );
            let after = kv::after_writes(rows, step.writes);
            let m = transit::message_at(after, t.id, at);
            &&& attempts >= s.max_delivery_attempts && step.failure is None ==> {
                &&& step.delivered is None
                &&& topic::tail_of(after, t.id) == at
                &&& m is Some
                &&& m->0.payload == message.payload
                &&& m->0.ordering_key == message.ordering_key
                &&& !is_source_key(key) ==> string_map::lookup(m->0.attributes, key)
                    == string_map::lookup(message.attributes, key)
                &&& string_map::lookup(
                    m->0.attributes,
                    "CloudPubSubDeadLetterSourceDeliveryCount"@,
                ) == Some(text::dec(attempts as nat))
                &&& string_map::lookup(
                    m->0.attributes,
                    "CloudPubSubDeadLetterSourceSubscription"@,
                ) == Some(s.name)
                &&& string_map::lookup(
                    m->0.attributes,
                    "CloudPubSubDeadLetterSourceTopicPublishTime"@,
                ) == Some(dead_letter::rfc3339_ms(message.publish_ts_ms as int))
                &&& m->0.publish_ts_ms == now_ms
                &&& retention::in_range(t.message_retention_secs, now_ms) ==> m->0.expire_at_ms == retention::lives_until(
                    t.message_retention_secs,
                    now_ms,
                )
                &&& cursor::is_done(step.cursor, seq)
                &&& !step.leases.contains_key((s.id, seq))
                &&& kv::fetch(after, "dlv"@, keys::pair_key(s.id, seq)) is None
            }
            &&& attempts < s.max_delivery_attempts ==> {
                &&& step.failure is None
                &&& step.delivered matches Some(d)
                &&& d.seq == seq
                &&& d.message == message
                &&& d.delivery_attempt == attempts + 1
                &&& after.contains_key(("msg"@, keys::pair_key(t.id, at))) <==> rows.contains_key(
                    ("msg"@, keys::pair_key(t.id, at)),
                )
            }
        }),
{
    let t = topic::topic_named(rows, s.dead_letter_topic->0)->Ok_0;
    let tail = topic::tail_of(rows, t.id);
    let at = (tail + 1) as u64;
    let policy = engine::policy_of(rows, s.id);
    let step = engine::message_step(
        rows,
        leases,
        cursor,
        filter,
        s.id,
        seq,
        message,
        now_ms,
        ack_deadline_secs,
    );
    kv::law_keyspaces_differ();
    if attempts >= s.max_delivery_attempts && step.failure is None {
        let new = engine::forwarded_message(message, policy, attempts);
        let expire_at_ms = topic::expiry(
            now_ms,
            engine::effective_retention(t.message_retention_secs),
        );
        let writes = topic::append_writes(t.id, tail, seq![new], now_ms, expire_at_ms, 1);
        reveal_with_fuel(topic::append_writes, 2);
        retention::lemma_expiry(t.message_retention_secs, now_ms);
        let counter = keys::topic_seq_counter_key_bytes(t.id);
        assert(step.writes == writes.push(Write::Delete("dlv"@, keys::pair_key(s.id, seq))));
        assert(writes.len() == 2);
        assert(topic::batch_seq(tail, 0) == at);
        kv::law_last_write_is_read(rows, step.writes, 0, "meta"@, counter);
        kv::law_last_write_is_read(rows, step.writes, 1, "msg"@, keys::pair_key(t.id, at));
        kv::law_last_write_is_read(rows, step.writes, 2, "dlv"@, keys::pair_key(s.id, seq));
        keys::law_be64_round_trip(at, keys::be64(at));
        lemma_inserted(message.attributes, attempts, s.name, message.publish_ts_ms, key);
        cursor::law_marking_adds_one_message(cursor, seq, seq);
    }
    if attempts < s.max_delivery_attempts {
        kv::law_spared_row_stays(rows, step.writes, "msg"@, keys::pair_key(t.id, at));
        let after = kv::after_writes(rows, step.writes);
        assert(kv::fetch(after, "msg"@, keys::pair_key(t.id, at)) == kv::fetch(
            rows,
            "msg"@,
            keys::pair_key(t.id, at),
        ));
    }
}

} // verus!
