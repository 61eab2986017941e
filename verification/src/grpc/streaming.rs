//! `StreamingPull`: the stream of deliveries to a client, and of acknowledgements from it.
//!
//! The transport runs two tasks for a stream. One reads requests and hands each to
//! [`apply_request`]; the other asks [`next`] what to send. The stream ends when either of them
//! does, and is then closed, which gives back what was out on it.

use crate::clock::Clock;
use crate::error;
use crate::error::{Error, ErrorView};
use crate::grpc::messages;
use crate::grpc::messages::{ReceivedMessage, ReceivedView};
use crate::grpc::status;
use crate::grpc::status::{to_status, Code, Status, StatusView};
use crate::delivery::engine;
use crate::delivery::stream;
use crate::listing;
use crate::service;
use crate::service::{PubSubService, PulledView, ServiceView};
use crate::store::kv::KvStore;
use crate::subscription;
use crate::text;
use vstd::prelude::*;
use vstd::string::*;

verus! {

/// How long a stream that has nothing to send waits before it looks again, unless it is told of new
/// messages.
pub const POLL_INTERVAL_ON_EMPTY_MS: u64 = 200;

/// A request on a stream.
#[derive(Debug)]
pub struct StreamingPullRequest {
    /// The subscription; given with the first request.
    pub subscription: String,
    /// What is acknowledged.
    pub ack_ids: Vec<String>,
    /// The new deadlines, one for each of `modify_deadline_ack_ids`.
    pub modify_deadline_seconds: Vec<i32>,
    /// Whose deadlines change.
    pub modify_deadline_ack_ids: Vec<String>,
    /// How long messages are leased to the stream; given with the first request.
    pub stream_ack_deadline_seconds: i32,
    /// How many messages may be out on the stream; 0 and less is no limit.
    pub max_outstanding_messages: i64,
    /// How many bytes may be out on the stream; 0 and less is no limit.
    pub max_outstanding_bytes: i64,
}

/// A stream that is open, and what its client is told first.
#[derive(Debug, Clone, Copy, PartialEq, Eq, Structural)]
pub struct OpenStream {
    /// The stream.
    pub stream_id: u64,
    /// The subscription.
    pub sub_id: u64,
    /// Whether the subscription asks for exactly-once delivery.
    pub exactly_once_delivery_enabled: bool,
    /// Whether the subscription orders its messages.
    pub message_ordering_enabled: bool,
}

/// A request that is not valid.
pub open spec fn not_valid(message: Seq<char>) -> StatusView {
    StatusView { code: Code::InvalidArgument, message }
}

/// What is wrong with the first request, if anything is.
pub open spec fn first_request_error(first: Option<StreamingPullRequest>) -> Option<StatusView> {
    match first {
        None => Some(not_valid("stream closed before any request"@)),
        Some(req) => if req.subscription@.len() == 0 {
            Some(not_valid("the first request must set `subscription`"@))
        } else if !(10 <= req.stream_ack_deadline_seconds <= 600) {
            Some(not_valid("stream_ack_deadline_seconds must be between 10 and 600"@))
        } else {
            None
        },
    }
}

/// The status for two lists that should be equally long.
pub open spec fn lengths_error() -> StatusView {
    not_valid("modify_deadline_seconds and modify_deadline_ack_ids must have the same length"@)
}

/// Acknowledging on a stream, at a time that the clock tells, came to `r`.
pub open spec fn acknowledged<K: KvStore, C: Clock>(
    clock: C,
    before: ServiceView,
    after: ServiceView,
    stream_id: u64,
    sub_id: u64,
    ack_ids: Seq<Seq<char>>,
    r: Result<(), ErrorView>,
) -> bool {
    if ack_ids.len() == 0 {
        after == before && r == Ok::<(), ErrorView>(())
    } else {
        exists|now_ms: i64| #[trigger]
            clock.tells(now_ms) && service::performed::<K, ()>(
                before,
                after,
                service::stream_acknowledge_effect(before, stream_id, sub_id, ack_ids, now_ms),
                r,
            )
    }
}

/// Changing one deadline on a stream, at a time that the clock tells, came to `r`.
pub open spec fn modified_one<K: KvStore, C: Clock>(
    clock: C,
    before: ServiceView,
    after: ServiceView,
    stream_id: u64,
    sub_id: u64,
    ack_id: Seq<char>,
    secs: i32,
    r: Result<(), ErrorView>,
) -> bool {
    exists|now_ms: i64| #[trigger]
        clock.tells(now_ms) && service::performed::<K, ()>(
            before,
            after,
            service::stream_modify_effect(
                before,
                stream_id,
                sub_id,
                seq![ack_id],
                secs,
                now_ms,
            ),
            r,
        )
}

/// The deadlines that change: for each id its new one.
pub open spec fn deadline_changes(ack_ids: Seq<Seq<char>>, secs: Seq<i32>) -> Seq<
    (Seq<char>, i32),
> {
    Seq::new(ack_ids.len(), |i: int| (ack_ids[i], secs[i]))
}

/// Changing one more deadline after others, unless one of those failed, came to `r`.
pub open spec fn modified_next<K: KvStore, C: Clock>(
    clock: C,
    mid: ServiceView,
    so_far: Result<(), ErrorView>,
    after: ServiceView,
    stream_id: u64,
    sub_id: u64,
    change: (Seq<char>, i32),
    r: Result<(), ErrorView>,
) -> bool {
    match so_far {
        Err(_) => after == mid && r == so_far,
        Ok(_) => modified_one::<K, C>(
            clock,
            mid,
            after,
            stream_id,
            sub_id,
            change.0,
            change.1,
            r,
        ),
    }
}

/// Changing deadlines, one after the other until one fails, came to `r`.
pub open spec fn modified<K: KvStore, C: Clock>(
    clock: C,
    before: ServiceView,
    after: ServiceView,
    stream_id: u64,
    sub_id: u64,
    changes: Seq<(Seq<char>, i32)>,
    r: Result<(), ErrorView>,
) -> bool
    decreases changes.len(),
{
    if changes.len() == 0 {
        after == before && r == Ok::<(), ErrorView>(())
    } else {
        exists|mid: ServiceView, so_far: Result<(), ErrorView>| #[trigger]
            modified_next::<K, C>(
                clock,
                mid,
                so_far,
                after,
                stream_id,
                sub_id,
                changes.last(),
                r,
            ) && modified::<K, C>(
                clock,
                before,
                mid,
                stream_id,
                sub_id,
                changes.drop_last(),
                so_far,
            )
    }
}

/// Applying a request came to `r`: first its acknowledgements, then its deadlines.
pub open spec fn applied<K: KvStore, C: Clock>(
    clock: C,
    before: ServiceView,
    after: ServiceView,
    stream_id: u64,
    sub_id: u64,
    req: StreamingPullRequest,
    r: Result<(), StatusView>,
) -> bool {
    let ids = text::texts(req.modify_deadline_ack_ids@);
    let secs = req.modify_deadline_seconds@;
    if secs.len() != ids.len() {
        after == before && r == Err::<(), StatusView>(lengths_error())
    } else {
        exists|mid: ServiceView, acked: Result<(), ErrorView>| #[trigger]
            acknowledged::<K, C>(
                clock,
                before,
                mid,
                stream_id,
                sub_id,
                text::texts(req.ack_ids@),
                acked,
            ) && match acked {
                Err(e) => after == mid && r == Err::<(), StatusView>(status::status_of(e)),
                Ok(_) => exists|outcome: Result<(), ErrorView>| #[trigger]
                    modified::<K, C>(
                        clock,
                        mid,
                        after,
                        stream_id,
                        sub_id,
                        deadline_changes(ids, secs),
                        outcome,
                    ) && r == status::reply(outcome, |u: ()| u),
            }
    }
}

proof fn lemma_modified_error<K: KvStore, C: Clock>(
    clock: C,
    before: ServiceView,
    after: ServiceView,
    stream_id: u64,
    sub_id: u64,
    changes: Seq<(Seq<char>, i32)>,
    n: int,
    r: Result<(), ErrorView>,
)
    requires
        0 <= n <= changes.len(),
        r is Err,
        modified::<K, C>(clock, before, after, stream_id, sub_id, changes.take(n), r),
    ensures
        modified::<K, C>(clock, before, after, stream_id, sub_id, changes, r),
    decreases changes.len() - n,
{
    if n < changes.len() {
        let next = changes.take(n + 1);
        assert(next.drop_last() =~= changes.take(n));
        assert(modified::<K, C>(
            clock,
            before,
            after,
            stream_id,
            sub_id,
            next.drop_last(),
            r,
        ));
        assert(modified_next::<K, C>(
            clock,
            after,
            r,
            after,
            stream_id,
            sub_id,
            next.last(),
            r,
        ));
        assert(modified::<K, C>(clock, before, after, stream_id, sub_id, next, r));
        lemma_modified_error::<K, C>(
            clock,
            before,
            after,
            stream_id,
            sub_id,
            changes,
            n + 1,
            r,
        );
    } else {
        assert(changes.take(n) =~= changes);
    }
}

fn modify_deadlines<K: KvStore, C: Clock>(
    svc: &mut PubSubService<K, C>,
    stream_id: u64,
    sub_id: u64,
    ack_ids: &Vec<String>,
    secs: &Vec<i32>,
) -> (r: Result<(), Error>)
    requires
        ack_ids@.len() == secs@.len(),
    ensures
        final(svc).clock == old(svc).clock,
        modified::<K, C>(
            old(svc).clock,
            old(svc)@,
            final(svc)@,
            stream_id,
            sub_id,
            deadline_changes(text::texts(ack_ids@), secs@),
            error::result_view(r),
        ),
{
    let ghost clock = svc.clock;
    let ghost before = svc@;
    let ghost changes = deadline_changes(text::texts(ack_ids@), secs@);
    let mut i: usize = 0;
    while i < ack_ids.len()
        invariant
            i <= ack_ids.len(),
            ack_ids@.len() == secs@.len(),
            changes == deadline_changes(text::texts(ack_ids@), secs@),
            clock == old(svc).clock,
            before == old(svc)@,
            svc.clock == clock,
            modified::<K, C>(
                clock,
                before,
                svc@,
                stream_id,
                sub_id,
                changes.take(i as int),
                Ok(()),
            ),
        decreases ack_ids.len() - i,
    {
        let ghost mid = svc@;
        let one = vec![ack_ids[i].clone()];
        assert(text::texts(one@) =~= seq![changes[i as int].0]);
        let r = svc.stream_modify_ack_deadline(stream_id, sub_id, one, secs[i]);
        let ghost outcome = error::result_view(r);
        let ghost next = changes.take(i + 1);
        proof {
            assert(modified_one::<K, C>(
                clock,
                mid,
                svc@,
                stream_id,
                sub_id,
                changes[i as int].0,
                changes[i as int].1,
                outcome,
            ));
            assert(next.drop_last() =~= changes.take(i as int));
            assert(modified::<K, C>(
                clock,
                before,
                mid,
                stream_id,
                sub_id,
                next.drop_last(),
                Ok(()),
            ));
            assert(modified_next::<K, C>(
                clock,
                mid,
                Ok(()),
                svc@,
                stream_id,
                sub_id,
                next.last(),
                outcome,
            ));
            assert(modified::<K, C>(clock, before, svc@, stream_id, sub_id, next, outcome));
        }
        if let Err(e) = r {
            proof {
                lemma_modified_error::<K, C>(
                    clock,
                    before,
                    svc@,
                    stream_id,
                    sub_id,
                    changes,
                    i + 1,
                    outcome,
                );
            }
            return Err(e);
        }
        assert(outcome == Ok::<(), ErrorView>(()));
        i = i + 1;
    }
    assert(changes.take(i as int) =~= changes);
    Ok(())
}

/// Applies a request on a stream: acknowledges what it acknowledges, then changes the deadlines
/// that it changes. Stops at the first failure. Fails when there is not one deadline for each id.
pub fn apply_request<K: KvStore, C: Clock>(
    svc: &mut PubSubService<K, C>,
    stream_id: u64,
    sub_id: u64,
    req: &StreamingPullRequest,
) -> (r: Result<(), Status>)
    ensures
        final(svc).clock == old(svc).clock,
        applied::<K, C>(
            old(svc).clock,
            old(svc)@,
            final(svc)@,
            stream_id,
            sub_id,
            *req,
            status::reply_view(r),
        ),
{
    if req.modify_deadline_seconds.len() != req.modify_deadline_ack_ids.len() {
        return Err(
            Status::invalid_argument(
                "modify_deadline_seconds and modify_deadline_ack_ids must have the same length",
            ),
        );
    }
    let ghost clock = svc.clock;
    let ghost before = svc@;
    let ghost acks = text::texts(req.ack_ids@);
    if req.ack_ids.len() > 0 {
        let acked = svc.stream_acknowledge(stream_id, sub_id, copies(&req.ack_ids));
        assert(acknowledged::<K, C>(
            clock,
            before,
            svc@,
            stream_id,
            sub_id,
            acks,
            error::result_view(acked),
        ));
        if let Err(e) = acked {
            return Err(to_status(e));
        }
    }
    let ghost mid = svc@;
    assert(acknowledged::<K, C>(clock, before, mid, stream_id, sub_id, acks, Ok(())));
    let outcome = modify_deadlines(
        svc,
        stream_id,
        sub_id,
        &req.modify_deadline_ack_ids,
        &req.modify_deadline_seconds,
    );
    assert(modified::<K, C>(
        clock,
        mid,
        svc@,
        stream_id,
        sub_id,
        deadline_changes(
            text::texts(req.modify_deadline_ack_ids@),
            req.modify_deadline_seconds@,
        ),
        error::result_view(outcome),
    ));
    match outcome {
        Ok(_) => Ok(()),
        Err(e) => Err(to_status(e)),
    }
}

fn copies(v: &Vec<String>) -> (r: Vec<String>)
    ensures
        text::texts(r@) == text::texts(v@),
{
    let mut out: Vec<String> = Vec::new();
    let mut i: usize = 0;
    assert(text::texts(out@) =~= text::texts(v@).take(0));
    while i < v.len()
        invariant
            i <= v.len(),
            text::texts(out@) == text::texts(v@).take(i as int),
        decreases v.len() - i,
    {
        let ghost before = out@;
        out.push(v[i].clone());
        assert(text::texts(out@) =~= text::texts(before).push(v@[i as int]@));
        assert(text::texts(v@).take(i + 1) =~= text::texts(v@).take(i as int).push(
            v@[i as int]@,
        ));
        i = i + 1;
    }
    assert(text::texts(v@).take(i as int) =~= text::texts(v@));
    out
}

/// A stream was closed: what was out on it is given back.
pub open spec fn closed(before: ServiceView, after: ServiceView, stream_id: u64) -> bool {
    let gone = engine::stream_leases(before.engine.leases, before.engine.sessions, stream_id);
    &&& after == (ServiceView {
        rows: after.rows,
        engine: engine::EngineView {
            leases: before.engine.leases.remove_keys(gone),
            sessions: before.engine.sessions.remove(stream_id),
            ..before.engine
        },
        ..before
    })
    &&& engine::only_removed(before.rows, after.rows, engine::delivery_rows(gone))
}

/// Opens a stream by its first request, and applies what else the request holds. A stream on which
/// that fails is closed again.
pub fn open<K: KvStore, C: Clock>(
    svc: &mut PubSubService<K, C>,
    first: &Option<StreamingPullRequest>,
) -> (r: Result<OpenStream, Status>)
    ensures
        final(svc).clock == old(svc).clock,
        match first_request_error(*first) {
            Some(s) => r is Err && r->Err_0@ == s && final(svc)@ == old(svc)@,
            None => {
                let req = first->Some_0;
                match service::open_error(old(svc)@.rows, req.subscription@) {
                    Some(e) => r is Err && r->Err_0@ == status::status_of(e) && final(svc)@
                        == old(svc)@,
                    None => {
                        let sub = subscription::subscription_named(
                            old(svc)@.rows,
                            req.subscription@,
                        )->Ok_0;
                        let id = stream::next_stream_id(old(svc)@.engine.last_stream_id);
                        let opened = service::stream_opened(
                            old(svc)@,
                            sub,
                            req.stream_ack_deadline_seconds,
                            req.max_outstanding_messages,
                            req.max_outstanding_bytes,
                        );
                        exists|mid: ServiceView, outcome: Result<(), StatusView>|
                            #![trigger applied::<K, C>(
                                old(svc).clock,
                                opened,
                                mid,
                                id,
                                sub.id,
                                req,
                                outcome,
                            )]
                            applied::<K, C>(
                                old(svc).clock,
                                opened,
                                mid,
                                id,
                                sub.id,
                                req,
                                outcome,
                            ) && match outcome {
                                Ok(_) => {
                                    &&& final(svc)@ == mid
                                    &&& r is Ok
                                    &&& r->Ok_0 == (OpenStream {
                                        stream_id: id,
                                        sub_id: sub.id,
                                        exactly_once_delivery_enabled:
                                            sub.enable_exactly_once_delivery,
                                        message_ordering_enabled: sub.enable_message_ordering,
                                    })
                                },
                                Err(s) => r is Err && r->Err_0@ == s && closed(
                                    mid,
                                    final(svc)@,
                                    id,
                                ),
                            }
                    },
                }
            },
        },
{
    let req = match first {
        Some(req) => req,
        None => {
            return Err(Status::invalid_argument("stream closed before any request"));
        },
    };
    if req.subscription.as_str().is_empty() {
        return Err(Status::invalid_argument("the first request must set `subscription`"));
    }
    if req.stream_ack_deadline_seconds < 10 || req.stream_ack_deadline_seconds > 600 {
        return Err(
            Status::invalid_argument("stream_ack_deadline_seconds must be between 10 and 600"),
        );
    }
    let (stream_id, sub) = match svc.open_stream(
        req.subscription.as_str(),
        req.stream_ack_deadline_seconds,
        req.max_outstanding_messages,
        req.max_outstanding_bytes,
    ) {
        Ok(opened) => opened,
        Err(e) => {
            return Err(to_status(e));
        },
    };
    let ghost opened = svc@;
    let outcome = apply_request(svc, stream_id, sub.id, req);
    let ghost mid = svc@;
    assert(applied::<K, C>(
        old(svc).clock,
        opened,
        mid,
        stream_id,
        sub.id,
        *req,
        status::reply_view(outcome),
    ));
    if let Err(s) = outcome {
        svc.close_stream(stream_id);
        return Err(s);
    }
    Ok(
        OpenStream {
            stream_id,
            sub_id: sub.id,
            exactly_once_delivery_enabled: sub.enable_exactly_once_delivery,
            message_ordering_enabled: sub.enable_message_ordering,
        },
    )
}

/// Why a stream may have to end.
#[derive(Debug, Clone, Copy, PartialEq, Eq, Structural)]
pub enum Signal {
    /// It has not.
    Continue,
    /// The client is gone or has said its last.
    Cancelled,
    /// The server shuts down.
    ShuttingDown,
    /// The stream was open for as long as it may be.
    LifetimeElapsed,
}

/// What the sender of a stream does next.
#[derive(Debug)]
pub enum SendStep {
    /// Send these messages.
    Send(Vec<ReceivedMessage>),
    /// Wait for new messages, or for a while.
    Wait,
    /// Close the stream, after sending the status where there is one.
    Close(Option<Status>),
}

/// What a [`SendStep`] holds.
pub enum SendView {
    Send(Seq<ReceivedView>),
    Wait,
    Close(Option<StatusView>),
}

impl View for SendStep {
    type V = SendView;

    open spec fn view(&self) -> SendView {
        match self {
            SendStep::Send(messages) => SendView::Send(listing::views(messages@)),
            SendStep::Wait => SendView::Wait,
            SendStep::Close(Some(s)) => SendView::Close(Some(s@)),
            SendStep::Close(None) => SendView::Close(None),
        }
    }
}

/// A server that cannot serve a stream any more.
pub open spec fn not_available(message: Seq<char>) -> StatusView {
    StatusView { code: Code::Unavailable, message }
}

/// What the sender does when leasing came to this.
pub open spec fn step_after(leased: Result<Seq<PulledView>, ErrorView>) -> SendView {
    match leased {
        Ok(m) => if m.len() > 0 {
            SendView::Send(messages::all_received(m))
        } else {
            SendView::Wait
        },
        Err(e) => SendView::Close(Some(status::status_of(e))),
    }
}

/// Leasing for a stream came to `leased`, and `r` is what follows.
pub open spec fn sent<K: KvStore>(
    before: ServiceView,
    after: ServiceView,
    stream_id: u64,
    now_ms: i64,
    leased: Result<Seq<PulledView>, ErrorView>,
    r: SendStep,
) -> bool {
    &&& service::performed::<K, Seq<PulledView>>(
        before,
        after,
        service::stream_lease_effect(before, stream_id, now_ms),
        leased,
    )
    &&& r@ == step_after(leased)
}

/// Leases what can be sent, and says what to do. A stream that has to end leases nothing any more.
pub fn next<K: KvStore, C: Clock>(
    svc: &mut PubSubService<K, C>,
    stream_id: u64,
    signal: Signal,
) -> (r: SendStep)
    ensures
        final(svc).clock == old(svc).clock,
        signal != Signal::Continue ==> final(svc)@ == old(svc)@,
        signal == Signal::Cancelled ==> r@ == SendView::Close(None),
        signal == Signal::ShuttingDown ==> r@ == SendView::Close(
            Some(not_available("server is shutting down"@)),
        ),
        signal == Signal::LifetimeElapsed ==> r@ == SendView::Close(
            Some(not_available("StreamingPull stream lifetime elapsed; reconnect"@)),
        ),
        signal == Signal::Continue ==> exists|now_ms: i64, leased: Result<
            Seq<PulledView>,
            ErrorView,
        >|
            #![trigger old(svc).clock.tells(now_ms), step_after(leased)]
            old(svc).clock.tells(now_ms) && sent::<K>(
                old(svc)@,
                final(svc)@,
                stream_id,
                now_ms,
                leased,
                r,
            ),
        r@ matches SendView::Send(sent) ==> messages::received_are_out(
            final(svc)@.engine.leases,
            engine::stream_subscription(old(svc)@.engine.sessions, stream_id),
            sent,
        ),
{
    let ghost sub_id = engine::stream_subscription(svc@.engine.sessions, stream_id);
    match signal {
        Signal::Cancelled => SendStep::Close(None),
        Signal::ShuttingDown => SendStep::Close(
            Some(Status::unavailable("server is shutting down")),
        ),
        Signal::LifetimeElapsed => SendStep::Close(
            Some(Status::unavailable("StreamingPull stream lifetime elapsed; reconnect")),
        ),
        Signal::Continue => {
            let leased = svc.lease_for_stream(stream_id);
            let ghost outcome = service::pulled_result(leased);
            let step = match leased {
                Ok(pulled) => if pulled.len() == 0 {
                    SendStep::Wait
                } else {
                    proof {
                        messages::lemma_received_are_out(
                            svc@.engine.leases,
                            sub_id,
                            listing::views(pulled@),
                        );
                    }
                    SendStep::Send(messages::received_messages(&pulled))
                },
                Err(e) => SendStep::Close(Some(to_status(e))),
            };
            assert(step@ == step_after(outcome));
            step
        },
    }
}

/// A request that holds nothing, by which a client only shows that it is there, changes nothing.
pub proof fn law_keepalive_changes_nothing<K: KvStore, C: Clock>(
    clock: C,
    before: ServiceView,
    after: ServiceView,
    stream_id: u64,
    sub_id: u64,
    req: StreamingPullRequest,
    r: Result<(), StatusView>,
)
    requires
        applied::<K, C>(clock, before, after, stream_id, sub_id, req, r),
        req.ack_ids@.len() == 0,
        req.modify_deadline_seconds@.len() == 0,
        req.modify_deadline_ack_ids@.len() == 0,
    ensures
        after == before,
        r == Ok::<(), StatusView>(()),
{
}

} // verus!
