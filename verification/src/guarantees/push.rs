//! Messages reach push endpoints, and endpoints decide what becomes of them.

use crate::delivery::cursor;
use crate::delivery::engine;
use crate::delivery::laws;
use crate::delivery::lease;
use crate::delivery::lease::AckOutcome;
use crate::encoding;
use crate::encoding::Members;
use crate::guarantees::delivery;
use crate::push::dispatcher;
use crate::push::dispatcher::SettingsView;
use crate::push::envelope;
use crate::push::manager;
use crate::push::manager::{ChangeView, ManagerView};
use crate::push::envelope::PushRequestBody;
use crate::service::{PulledMessage, ServiceView};
use crate::store::kv;
use crate::string_map::Entries;
use crate::subscription::SubscriptionView;
use crate::text;
use vstd::prelude::*;
use vstd::utf8::encode_utf8;

verus! {

/// How JSON objects are written: the members in order, with commas between them, in braces.
pub proof fn law_objects(members: Members, key: Seq<char>, value: Seq<char>)
    ensures
        encoding::object_text(Seq::empty()) == "{}"@,
        encoding::object_text(seq![(key, value)]) == "{"@ + key + ":"@ + value + "}"@,
        members.len() > 0 ==> encoding::members_text(members.push((key, value)))
            == encoding::members_text(members) + ","@ + key + ":"@ + value,
        encoding::object_text(members) == "{"@ + encoding::members_text(members) + "}"@,
{
    reveal_strlit("{");
    reveal_strlit("}");
    reveal_strlit("{}");
    assert(encoding::object_text(Seq::empty()) =~= "{}"@);
    assert(encoding::object_text(seq![(key, value)]) =~= "{"@ + key + ":"@ + value + "}"@);
    let more = members.push((key, value));
    assert(more.drop_last() =~= members);
}

/// A map is written as the object with its keys and its values, as JSON strings.
pub proof fn law_maps(entries: Entries, i: int)
    requires
        0 <= i < entries.len(),
    ensures
        encoding::entry_members(entries).len() == entries.len(),
        encoding::entry_members(entries)[i].0 == encoding::json_quoted(entries[i].0),
        encoding::entry_members(entries)[i].1 == encoding::json_quoted(entries[i].1),
{
}

/// The members of the object for a message: its attributes, its data in Base64, how often it was
/// delivered where that is told, its id, its ordering key if it has one, and when it was published.
pub open spec fn message_object(m: PulledMessage, attempt: Option<u32>) -> Members {
    let entries = Seq::new(
        m.attributes@.len(),
        |i: int|
            (
                encoding::json_quoted(m.attributes@[i].0),
                encoding::json_quoted(m.attributes@[i].1),
            ),
    );
    let time = "\""@ + encoding::rfc3339_text(m.publish_time_ms as int) + "\""@;
    seq![
        ("\"attributes\""@, "{"@ + encoding::members_text(entries) + "}"@),
        ("\"data\""@, "\""@ + encoding::base64_text(m.data@) + "\""@),
    ] + (match attempt {
        Some(n) => seq![
            ("\"deliveryAttempt\""@, text::dec(n as nat)),
            ("\"delivery_attempt\""@, text::dec(n as nat)),
        ],
        None => Seq::empty(),
    }) + seq![
        ("\"messageId\""@, encoding::json_quoted(m.message_id@)),
        ("\"message_id\""@, encoding::json_quoted(m.message_id@)),
    ] + (if m.ordering_key@.len() > 0 {
        seq![
            ("\"orderingKey\""@, encoding::json_quoted(m.ordering_key@)),
            ("\"ordering_key\""@, encoding::json_quoted(m.ordering_key@)),
        ]
    } else {
        Seq::empty()
    }) + seq![("\"publishTime\""@, time), ("\"publish_time\""@, time)]
}

/// A wrapped message is sent as `{"message":{..},"subscription":".."}`, with all that is known of it.
pub proof fn law_wrapped_message(
    subscription: Seq<char>,
    m: PulledMessage,
    attempt: Option<u32>,
    r: PushRequestBody,
)
    requires
        r@ == envelope::wrapped(subscription, m@, attempt),
    ensures
        r.content_type@ == "application/json"@,
        r.extra_headers@.len() == 0,
        r.body@ == encode_utf8(
            "{\"message\":{"@ + encoding::members_text(message_object(m, attempt))
                + "},\"subscription\":"@ + encoding::json_quoted(subscription) + "}"@,
        ),
{
    reveal_strlit("{");
    reveal_strlit("}");
    reveal_strlit(":");
    reveal_strlit(",");
    reveal_strlit("\"message\"");
    reveal_strlit("\"subscription\"");
    reveal_strlit("{\"message\":{");
    reveal_strlit("},\"subscription\":");
    let entries = Seq::new(
        m.attributes@.len(),
        |i: int|
            (
                encoding::json_quoted(m.attributes@[i].0),
                encoding::json_quoted(m.attributes@[i].1),
            ),
    );
    assert(encoding::entry_members(m.attributes@) =~= entries);
    assert(envelope::message_members(m@, attempt) =~= message_object(m, attempt));
    let object = encoding::object_text(message_object(m, attempt));
    let quoted = encoding::json_quoted(subscription);
    let one: Members = seq![("\"message\""@, object)];
    let two: Members = seq![("\"message\""@, object), ("\"subscription\""@, quoted)];
    assert(two.drop_last() =~= one);
    assert(encoding::members_text(one) == "\"message\""@ + ":"@ + object);
    assert(encoding::members_text(two) == encoding::members_text(one) + ","@
        + "\"subscription\""@ + ":"@ + quoted);
    assert(encoding::object_text(two) =~= "{\"message\":{"@ + encoding::members_text(
        message_object(m, attempt),
    ) + "},\"subscription\":"@ + quoted + "}"@);
    assert(encoding::members_of(r.extra_headers@).len() == r.extra_headers@.len());
}

/// An unwrapped message is sent as it is, with what is known of it in headers; its attributes are
/// among these exactly if that is asked for.
pub proof fn law_unwrapped_message(
    subscription: Seq<char>,
    m: PulledMessage,
    write_metadata: bool,
    r: PushRequestBody,
    i: int,
)
    requires
        r@ == envelope::unwrapped(subscription, m@, write_metadata),
        0 <= i < m.attributes@.len(),
    ensures
        r.content_type@ == "application/octet-stream"@,
        r.body@ == m.data@,
        ({
            let h = encoding::members_of(r.extra_headers@);
            let keys = if m.ordering_key@.len() > 0 {
                1int
            } else {
                0
            };
            &&& h.len() == 3 + keys + if write_metadata {
                m.attributes@.len() as int
            } else {
                0
            }
            &&& h[0] == ("x-goog-pubsub-subscription-name"@, subscription)
            &&& h[1] == ("x-goog-pubsub-message-id"@, m.message_id@)
            &&& h[2] == (
                "x-goog-pubsub-publish-time"@,
                encoding::rfc3339_text(m.publish_time_ms as int),
            )
            &&& keys == 1 ==> h[3] == ("x-goog-pubsub-ordering-key"@, m.ordering_key@)
            &&& write_metadata ==> h[3 + keys + i] == m.attributes@[i]
        }),
{
}

/// An endpoint takes a message by the statuses 102, 200, 201, 202 and 204, and by no other: the message
/// is then done, and its lease has ended. A message that it does not take, or on which it does not
/// answer, stays open, and is put off for the backoff of the subscription, in whole seconds, but at
/// least for one.
pub proof fn law_endpoints_decide(
    s: ServiceView,
    settings: SettingsView,
    stream_id: u64,
    ack_id: Seq<char>,
    status: Option<u16>,
    now_ms: i64,
    seq: u64,
)
    requires
        lease::filed_by_key(s.engine.leases),
        engine::stored_cursor(s.rows, settings.sub_id) is Ok,
        s.engine.leases.contains_key((settings.sub_id, seq)),
        lease::ack_id_parts(ack_id) == Some(
            (
                settings.sub_id,
                seq,
                s.engine.leases[(settings.sub_id, seq)].generation,
            ),
        ),
        settings.min_retry_backoff_secs <= 600,
        settings.max_retry_backoff_secs <= 600,
        now_ms <= i64::MAX - 600_000,
    ensures
        ({
            let effect = dispatcher::settle_effect(
                s,
                settings,
                stream_id,
                ack_id,
                status,
                now_ms,
            );
            let rows = kv::after_writes(s.rows, effect.writes);
            let cursor = engine::stored_cursor(rows, settings.sub_id);
            let k = (settings.sub_id, seq);
            let taken = status == Some(102u16) || status == Some(200u16) || status == Some(201u16)
                || status == Some(202u16) || status == Some(204u16);
            let wait = delivery::wait_ms(
                s.engine.leases[k].attempts,
                settings.min_retry_backoff_secs,
                settings.max_retry_backoff_secs,
            ) / 1000;
            &&& effect.outcome is Ok
            &&& taken ==> {
                &&& cursor is Ok
                &&& cursor::is_done(cursor->Ok_0, seq)
                &&& !effect.engine.leases.contains_key(k)
            }
            &&& !taken ==> {
                &&& effect.engine.leases.contains_key(k)
                &&& effect.engine.leases[k].deadline_ms == now_ms + 1000 * if wait < 1 {
                    1
                } else {
                    wait
                }
                &&& effect.engine.leases[k].attempts == s.engine.leases[k].attempts
                &&& !effect.engine.leases[k].given_back
                &&& cursor == engine::stored_cursor(s.rows, settings.sub_id)
            }
        }),
{
    let k = (settings.sub_id, seq);
    let ids = seq![ack_id];
    let l = s.engine.leases[k];
    assert(l.sub_id == settings.sub_id && l.seq == seq);
    assert(lease::lease_named_by(s.engine.leases, lease::ack_id_parts(ids[0]))
        == AckOutcome::Applied(l));
    if dispatcher::is_taken(status) {
        assert(laws::acked(s.engine.leases, ids, 1, k));
        laws::law_acknowledged_is_done(s.rows, s.engine.leases, settings.sub_id, ids, k, seq);
    } else {
        let secs = dispatcher::retry_secs(
            l.attempts,
            settings.min_retry_backoff_secs,
            settings.max_retry_backoff_secs,
        );
        delivery::law_backoff(
            now_ms,
            l.attempts,
            settings.min_retry_backoff_secs,
            settings.max_retry_backoff_secs,
        );
        dispatcher::law_retry_is_never_immediate(
            l.attempts,
            settings.min_retry_backoff_secs,
            settings.max_retry_backoff_secs,
        );
        crate::delivery::retry::law_backoff_grows_within_bounds(
            l.attempts,
            l.attempts,
            settings.min_retry_backoff_secs,
            settings.max_retry_backoff_secs,
        );
        delivery::law_deadlines_move(
            s.engine.leases,
            settings.sub_id,
            ack_id,
            now_ms,
            secs,
            k,
        );
        let writes = engine::changing_deadlines(
            s.engine.leases,
            settings.sub_id,
            ids,
            now_ms,
            secs,
            1,
        ).0;
        reveal_with_fuel(engine::changing_deadlines, 2);
        kv::law_keyspaces_differ();
        kv::law_spared_row_stays(
            s.rows,
            writes,
            "sub"@,
            crate::store::keys::be64(settings.sub_id),
        );
    }
}

/// The dispatcher of a subscription is started with the settings of the subscription.
pub proof fn law_dispatchers_are_started_as_configured(m: ManagerView, sub: SubscriptionView)
    requires
        sub.push_config is Some,
    ensures
        ({
            let settings = manager::settings_for(m, sub);
            &&& settings.subscription == sub.name
            &&& settings.sub_id == sub.id
            &&& settings.ack_deadline_secs == sub.ack_deadline_secs
            &&& settings.min_retry_backoff_secs == sub.min_retry_backoff_secs
            &&& settings.max_retry_backoff_secs == sub.max_retry_backoff_secs
            &&& settings.dead_letter_configured <==> sub.dead_letter_topic is Some
            &&& settings.push_config == sub.push_config->0
            &&& settings.push_timeout_secs == m.push_timeout_secs
            &&& settings.max_concurrency == m.push_max_concurrency_per_sub
        }),
{
}

/// What is done for a subscription: nothing where its dispatcher runs with its configuration, or none
/// runs and it has none; otherwise the one that runs is stopped, and one is started with the
/// configuration, where there is one.
pub proof fn law_dispatchers_follow_configurations(m: ManagerView, sub: SubscriptionView)
    ensures
        ({
            let changes = manager::changes_for(m, sub);
            let running = m.running.contains_key(sub.id);
            match sub.push_config {
                Some(config) => {
                    &&& running && m.running[sub.id] == config ==> changes.len() == 0
                    &&& running && m.running[sub.id] != config ==> changes.len() == 2 && changes[0]
                        == ChangeView::Stop(sub.id) && changes[1] is Start
                    &&& !running ==> changes.len() == 1 && changes[0] is Start
                    &&& changes.len() > 0 ==> (changes.last()->Start_0).push_config == config && (
                    changes.last()->Start_0).sub_id == sub.id
                },
                None => {
                    &&& running ==> changes == seq![ChangeView::Stop(sub.id)]
                    &&& !running ==> changes.len() == 0
                },
            }
        }),
{
    let changes = manager::changes_for(m, sub);
    if sub.push_config is None && m.running.contains_key(sub.id) {
        assert(changes =~= seq![ChangeView::Stop(sub.id)]);
    }
}

/// After a round a dispatcher runs for exactly the subscriptions that have a push configuration, with
/// this configuration.
pub proof fn law_dispatchers_match_subscriptions(
    running: Map<u64, crate::subscription::PushConfigView>,
    subs: Seq<SubscriptionView>,
    id: u64,
)
    requires
        forall|i: int, j: int|
            #![trigger subs[i], subs[j]]
            0 <= i < j < subs.len() ==> subs[i].id != subs[j].id,
    ensures
        ({
            let after = manager::reconciled(running, subs);
            &&& after.contains_key(id) <==> exists|i: int|
                0 <= i < subs.len() && (#[trigger] subs[i]).id == id && subs[i].push_config is Some
            &&& forall|i: int|
                0 <= i < subs.len() && (#[trigger] subs[i]).id == id && subs[i].push_config is Some
                    ==> after[id] == subs[i].push_config->0
        }),
{
    manager::law_reconciling_matches_configurations(running, subs);
    let after = manager::reconciled(running, subs);
    assert forall|i: int| 0 <= i < subs.len() && (#[trigger] subs[i]).id == id implies (
    subs[i].push_config is Some <==> after.contains_key(id)) by {
        assert(manager::is_settled(after, subs[i]));
    }
    if after.contains_key(id) {
        assert(manager::has_id(subs, id));
        let i = choose|i: int| 0 <= i < subs.len() && (#[trigger] subs[i]).id == id;
        assert(subs[i].push_config is Some);
    }
}

/// A message that an endpoint did not take does not count against the dispatcher's limit any more, once
/// its answer was dealt with.
pub proof fn law_put_off_makes_room(
    s: ServiceView,
    settings: SettingsView,
    stream_id: u64,
    ack_id: Seq<char>,
    seq: u64,
    generation: u64,
)
    requires
        s.engine.sessions.contains_key(stream_id),
        s.engine.sessions[stream_id].generations.contains_key(seq),
        s.engine.sessions[stream_id].generations[seq] == generation,
        lease::ack_id_parts(ack_id) == Some((settings.sub_id, seq, generation)),
    ensures
        ({
            let after = dispatcher::slot_freed(s, settings, stream_id, ack_id);
            &&& after.engine.sessions.contains_key(stream_id)
            &&& !after.engine.sessions[stream_id].outstanding.contains_key(seq)
            &&& after.engine.leases == s.engine.leases
            &&& after.rows == s.rows
        }),
{
}

} // verus!
