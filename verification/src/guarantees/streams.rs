//! Streams: what opens them, and how much is sent on them.

use crate::clock::Clock;
use crate::delivery::engine;
use crate::delivery::laws;
use crate::delivery::lease;
use crate::delivery::stream;
use crate::error::ErrorView;
use crate::grpc::status::{Code, StatusView};
use crate::grpc::streaming;
use crate::grpc::streaming::{SendView, StreamingPullRequest};
use crate::guarantees::effects;
use crate::service;
use crate::service::{PulledView, ServiceView};
use crate::store::keys;
use crate::store::kv;
use crate::store::kv::KvStore;
use crate::subscription::SubscriptionView;
use crate::text;
use vstd::prelude::*;

verus! {

/// The first request opens a stream exactly if it names a subscription and asks for 10 to 600 seconds
/// to acknowledge. Any other is refused as invalid.
pub proof fn law_first_requests(first: Option<StreamingPullRequest>)
    ensures
        streaming::first_request_error(first) is None <==> {
            &&& first matches Some(req)
            &&& req.subscription@.len() > 0
            &&& 10 <= req.stream_ack_deadline_seconds <= 600
        },
        streaming::first_request_error(first) matches Some(e) ==> e.code == Code::InvalidArgument,
{
}

/// A stream can be opened on a subscription exactly if it exists, is not detached, and its topic was
/// not deleted.
pub proof fn law_streams_need_a_topic(s: ServiceView, name: Seq<char>)
    ensures
        match crate::subscription::subscription_named(s.rows, name) {
            Err(e) => service::open_error(s.rows, name) == Some(e),
            Ok(sub) => {
                let gone = sub.detached || sub.topic == "_deleted-topic_"@;
                &&& service::open_error(s.rows, name) is None <==> !gone
                &&& gone ==> service::open_error(s.rows, name)->0 is FailedPrecondition
            },
        },
{
}

/// A stream that is opened pulls from its subscription, with the deadline and the limits that were
/// asked for, and nothing is out on it. All other streams are as they were, and so is all else.
pub proof fn law_opened_as_requested(
    s: ServiceView,
    sub: SubscriptionView,
    ack_deadline_secs: i32,
    max_messages: i64,
    max_bytes: i64,
    other: u64,
)
    requires
        !s.engine.sessions.contains_key(stream::next_stream_id(s.engine.last_stream_id)),
    ensures
        ({
            let after = service::stream_opened(s, sub, ack_deadline_secs, max_messages, max_bytes);
            let id = after.engine.last_stream_id;
            let session = after.engine.sessions[id];
            &&& !s.engine.sessions.contains_key(id)
            &&& after.engine.sessions.contains_key(id)
            &&& session.info.sub_id == sub.id
            &&& session.info.topic_id == sub.topic_id
            &&& session.info.ack_deadline_secs == ack_deadline_secs
            &&& session.info.max_outstanding_messages == max_messages
            &&& session.info.max_outstanding_bytes == max_bytes
            &&& session.outstanding.len() == 0
            &&& session.outstanding_bytes == 0
            &&& other != id ==> (after.engine.sessions.contains_key(other)
                <==> s.engine.sessions.contains_key(other))
            &&& other != id && s.engine.sessions.contains_key(other)
                ==> after.engine.sessions[other] == s.engine.sessions[other]
            &&& after.rows == s.rows
            &&& after.engine.leases == s.engine.leases
        }),
{
}

/// A stream is sent no more messages than its limit leaves room for, and nothing at all once as many
/// bytes are out as it allows. A stream without limits is not held back.
pub proof fn law_streams_keep_their_limits(s: ServiceView, stream_id: u64, now_ms: i64)
    requires
        s.engine.sessions.contains_key(stream_id),
        kv::has_scan(
            s.rows,
            "msg"@,
            keys::be64(s.engine.sessions[stream_id].info.topic_id),
        ),
    ensures
        ({
            let session = s.engine.sessions[stream_id];
            let lease = service::stream_lease_effect(s, stream_id, now_ms);
            let most = session.info.max_outstanding_messages;
            let bytes = session.info.max_outstanding_bytes;
            lease.outcome matches Ok(sent) ==> {
                &&& most > 0 ==> sent.len() <= if session.outstanding.len() < most {
                    most - session.outstanding.len()
                } else {
                    0
                }
                &&& bytes > 0 && session.outstanding_bytes >= bytes ==> sent.len() == 0
            }
        }),
{
    let info = s.engine.sessions[stream_id].info;
    let (messages, bytes) = stream::budget(s.engine.sessions, stream_id);
    if messages > 0 && bytes > 0 {
        let size = if messages > i32::MAX {
            i32::MAX
        } else {
            messages as i32
        };
        let end = engine::lease_end(
            s.rows,
            s.engine,
            info.sub_id,
            info.topic_id,
            size,
            now_ms,
            info.ack_deadline_secs,
        );
        if end.outcome is Ok {
            let call = engine::lease_call(
                s.rows,
                s.engine,
                engine::stored_cursor(s.rows, info.sub_id)->Ok_0,
                info.sub_id,
                size,
                now_ms,
                info.ack_deadline_secs,
            );
            let log = kv::scan_of(s.rows, "msg"@, keys::be64(info.topic_id));
            laws::law_scan_of_topic_is_log(s.rows, info.topic_id);
            laws::law_deliveries(call, log);
        }
    }
}

/// What is leased to a stream is sent, all of it; a stream for which there is nothing waits, and one
/// for which leasing failed is closed with the reason.
pub proof fn law_leased_is_sent(leased: Result<Seq<PulledView>, ErrorView>)
    ensures
        match leased {
            Ok(m) => {
                &&& m.len() == 0 <==> streaming::step_after(leased) == SendView::Wait
                &&& m.len() > 0 ==> (streaming::step_after(leased) matches SendView::Send(sent)
                    && sent.len() == m.len())
            },
            Err(e) => streaming::step_after(leased) matches SendView::Close(Some(_)),
        },
{
}

/// A request whose lists of deadlines and of ack ids are not of one length is refused, and changes
/// nothing.
pub proof fn law_uneven_requests_change_nothing<K: KvStore, C: Clock>(
    clock: C,
    before: ServiceView,
    after: ServiceView,
    stream_id: u64,
    sub_id: u64,
    req: StreamingPullRequest,
    r: Result<(), StatusView>,
)
    requires
        streaming::applied::<K, C>(clock, before, after, stream_id, sub_id, req, r),
        req.modify_deadline_seconds@.len() != req.modify_deadline_ack_ids@.len(),
    ensures
        after == before,
        r is Err,
        r->Err_0.code == Code::InvalidArgument,
{
    assert(text::texts(req.modify_deadline_ack_ids@).len() == req.modify_deadline_ack_ids@.len());
}

/// A request on a stream acknowledges what it names: each lease that one of its ack ids stands for has
/// ended, and its message is done; no other lease has changed.
pub proof fn law_stream_requests_acknowledge<K: KvStore, C: Clock>(
    clock: C,
    before: ServiceView,
    after: ServiceView,
    stream_id: u64,
    sub_id: u64,
    req: StreamingPullRequest,
    r: Result<(), StatusView>,
    k: (u64, u64),
)
    requires
        streaming::applied::<K, C>(clock, before, after, stream_id, sub_id, req, r),
        r is Ok,
        req.ack_ids@.len() > 0,
        req.modify_deadline_ack_ids@.len() == 0,
        lease::filed_by_key(before.engine.leases),
        engine::stored_cursor(before.rows, sub_id) is Ok,
    ensures
        ({
            let was = before.engine.leases;
            let ids = text::texts(req.ack_ids@);
            let named = k.0 == sub_id && effects::is_named(was, sub_id, ids, ids.len() as int, k.1);
            &&& after.engine.leases.contains_key(k) <==> was.contains_key(k) && !named
            &&& after.engine.leases.contains_key(k) ==> after.engine.leases[k] == was[k]
        }),
{
    let ids = text::texts(req.ack_ids@);
    assert(text::texts(req.modify_deadline_ack_ids@).len() == 0);
    let (mid, acked) = choose|mid: ServiceView, acked: Result<(), ErrorView>| #[trigger]
        streaming::acknowledged::<K, C>(clock, before, mid, stream_id, sub_id, ids, acked)
            && match acked {
            Err(e) => after == mid && r == Err::<(), StatusView>(
                crate::grpc::status::status_of(e),
            ),
            Ok(_) => exists|outcome: Result<(), ErrorView>| #[trigger]
                streaming::modified::<K, C>(
                    clock,
                    mid,
                    after,
                    stream_id,
                    sub_id,
                    streaming::deadline_changes(
                        text::texts(req.modify_deadline_ack_ids@),
                        req.modify_deadline_seconds@,
                    ),
                    outcome,
                ) && r == crate::grpc::status::reply(outcome, |u: ()| u),
        };
    assert(after == mid);
    let now_ms = choose|now_ms: i64| #[trigger]
        clock.tells(now_ms) && service::performed::<K, ()>(
            before,
            mid,
            service::stream_acknowledge_effect(before, stream_id, sub_id, ids, now_ms),
            acked,
        );
    let effect = service::stream_acknowledge_effect(before, stream_id, sub_id, ids, now_ms);
    crate::laws::law_success_is_stored::<K, ()>(before, mid, effect, acked);
    laws::law_acknowledged_is_done(before.rows, before.engine.leases, sub_id, ids, k, k.1);
    lemma_named(before.engine.leases, sub_id, ids, k);
}

proof fn lemma_named(leases: lease::Leases, sub_id: u64, ids: Seq<Seq<char>>, k: (u64, u64))
    requires
        lease::filed_by_key(leases),
    ensures
        k.0 == sub_id ==> (laws::acked(leases, ids, ids.len() as int, k) <==> effects::is_named(
            leases,
            sub_id,
            ids,
            ids.len() as int,
            k.1,
        )),
{
    if k.0 == sub_id && laws::acked(leases, ids, ids.len() as int, k) {
        let i = choose|i: int|
            0 <= i < ids.len() && leases.contains_key(k) && #[trigger] lease::lease_named_by(
                leases,
                lease::ack_id_parts(ids[i]),
            ) == lease::AckOutcome::Applied(leases[k]);
        let parts = lease::ack_id_parts(ids[i])->0;
        assert(leases[(parts.0, parts.1)].sub_id == parts.0);
        assert(lease::ack_id_parts(ids[i]) == Some((sub_id, k.1, leases[k].generation)));
    }
    if k.0 == sub_id && effects::is_named(leases, sub_id, ids, ids.len() as int, k.1) {
        let i = choose|i: int|
            0 <= i < ids.len() && leases.contains_key((sub_id, k.1)) && lease::ack_id_parts(
                #[trigger] ids[i],
            ) == Some((sub_id, k.1, leases[(sub_id, k.1)].generation));
        assert(lease::lease_named_by(leases, lease::ack_id_parts(ids[i]))
            == lease::AckOutcome::Applied(leases[k]));
    }
}

/// Changing a deadline on a stream moves the lease that the ack id stands for.
pub proof fn law_stream_requests_change_deadlines<K: KvStore, C: Clock>(
    clock: C,
    before: ServiceView,
    after: ServiceView,
    stream_id: u64,
    sub_id: u64,
    ack_id: Seq<char>,
    secs: i32,
    r: Result<(), ErrorView>,
    seq: u64,
)
    requires
        streaming::modified_one::<K, C>(
            clock,
            before,
            after,
            stream_id,
            sub_id,
            ack_id,
            secs,
            r,
        ),
        r is Ok,
        lease::filed_by_key(before.engine.leases),
        forall|now_ms: i64| #[trigger] clock.tells(now_ms) ==> now_ms + secs * 1000 <= i64::MAX,
        before.engine.leases.contains_key((sub_id, seq)),
        lease::ack_id_parts(ack_id) == Some(
            (sub_id, seq, before.engine.leases[(sub_id, seq)].generation),
        ),
    ensures
        after.engine.leases.contains_key((sub_id, seq)),
        exists|now_ms: i64| #[trigger]
            clock.tells(now_ms) && after.engine.leases[(sub_id, seq)].deadline_ms
                == effects::moved_to(now_ms, secs),
        after.engine.leases[(sub_id, seq)].given_back <==> secs <= 0,
{
    let now_ms = choose|now_ms: i64| #[trigger]
        clock.tells(now_ms) && service::performed::<K, ()>(
            before,
            after,
            service::stream_modify_effect(
                before,
                stream_id,
                sub_id,
                seq![ack_id],
                secs,
                now_ms,
            ),
            r,
        );
    let effect = service::stream_modify_effect(
        before,
        stream_id,
        sub_id,
        seq![ack_id],
        secs,
        now_ms,
    );
    crate::laws::law_success_is_stored::<K, ()>(before, after, effect, r);
    crate::guarantees::delivery::law_deadlines_move(
        before.engine.leases,
        sub_id,
        ack_id,
        now_ms,
        secs,
        (sub_id, seq),
    );
}

/// A stream that is closed is gone, and what was out on it is free: the leases on which its messages
/// went out have ended, as far as they still stood, and every other lease is as it was.
pub proof fn law_closed_streams_give_back(
    before: ServiceView,
    after: ServiceView,
    stream_id: u64,
    k: (u64, u64),
)
    requires
        streaming::closed(before, after, stream_id),
        before.engine.sessions.contains_key(stream_id),
    ensures
        ({
            let session = before.engine.sessions[stream_id];
            let held = session.info.sub_id == k.0 && session.generations.contains_key(k.1)
                && before.engine.leases.contains_key(k) && before.engine.leases[k].generation
                == session.generations[k.1];
            &&& !after.engine.sessions.contains_key(stream_id)
            &&& after.engine.leases.contains_key(k) <==> before.engine.leases.contains_key(k)
                && !held
            &&& after.engine.leases.contains_key(k) ==> after.engine.leases[k]
                == before.engine.leases[k]
        }),
{
}

/// Changing the settings of a stream sets those that are given, and leaves the others, the subscription
/// and its topic as they are.
pub proof fn law_stream_settings_are_changed(
    info: stream::StreamInfo,
    ack_deadline_secs: Option<i32>,
    max_messages: Option<i64>,
    max_bytes: Option<i64>,
)
    ensures
        ({
            let after = stream::updated_info(info, ack_deadline_secs, max_messages, max_bytes);
            &&& ack_deadline_secs matches Some(v) ==> after.ack_deadline_secs == v
            &&& ack_deadline_secs is None ==> after.ack_deadline_secs == info.ack_deadline_secs
            &&& max_messages matches Some(v) ==> after.max_outstanding_messages == v
            &&& max_messages is None ==> after.max_outstanding_messages
                == info.max_outstanding_messages
            &&& max_bytes matches Some(v) ==> after.max_outstanding_bytes == v
            &&& max_bytes is None ==> after.max_outstanding_bytes == info.max_outstanding_bytes
            &&& after.sub_id == info.sub_id
            &&& after.topic_id == info.topic_id
        }),
{
}

} // verus!
