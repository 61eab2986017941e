//! The dispatcher of a push subscription: it leases messages on a stream of its own, posts each to
//! the subscription's endpoint, acknowledges those that the endpoint takes, and puts off those that
//! it does not.
//!
//! The task that runs it asks [`Dispatcher::next`] what to do, sends what [`Dispatcher::request`]
//! builds, and hands the endpoint's answer to [`Dispatcher::settle`].

use crate::clock::Clock;
use crate::delivery::engine;
use crate::delivery::retry;
use crate::delivery::stream;
use crate::error::{Error, ErrorView};
use crate::listing;
use crate::metrics;
use crate::metrics::Sample;
use crate::push::envelope;
use crate::push::envelope::PushRequestBody;
use crate::service;
use crate::service::{Effect, PubSubService, PulledMessage, PulledView, ServiceView};
use crate::store::kv::KvStore;
use crate::subscription;
use crate::subscription::{PushConfig, PushConfigView};
use crate::text;
use vstd::prelude::*;
use vstd::string::*;

verus! {

/// How long a dispatcher that has nothing to send waits before it looks again, unless it is told
/// of new messages.
pub const POLL_INTERVAL_ON_EMPTY_MS: u64 = 200;

/// The statuses by which an endpoint takes a message. This is not every 2xx status.
pub open spec fn is_success_code(status: u16) -> bool {
    status == 102 || status == 200 || status == 201 || status == 202 || status == 204
}

/// Whether an endpoint takes a message by this status.
pub fn is_success(status: u16) -> (r: bool)
    ensures
        r == is_success_code(status),
{
    status == 102 || status == 200 || status == 201 || status == 202 || status == 204
}

/// The endpoint took the message: it answered, with one of the statuses for it.
pub open spec fn is_taken(status: Option<u16>) -> bool {
    match status {
        Some(code) => is_success_code(code),
        None => false,
    }
}

/// The whole seconds for which a message is put off after it was sent `attempt` times in vain. They
/// are at least 1, because 0 would give the message back at once.
pub open spec fn retry_secs(attempt: u32, min_backoff_secs: i64, max_backoff_secs: i64) -> i32 {
    let secs = retry::backoff_ms(attempt, min_backoff_secs, max_backoff_secs) / 1000;
    (if secs < 1 {
        1
    } else {
        secs
    }) as i32
}

/// See [`retry_secs`].
fn retry_delay(attempt: u32, min_backoff_secs: i64, max_backoff_secs: i64) -> (r: i32)
    ensures
        r == retry_secs(attempt, min_backoff_secs, max_backoff_secs),
{
    let secs: u128 = retry::backoff_for_attempts(attempt, min_backoff_secs, max_backoff_secs)
        / 1000;
    if secs < 1 {
        1
    } else {
        #[verifier::truncate]
        (secs as i32)
    }
}

/// With backoffs of up to ten minutes, which is what subscriptions can have, a message that an
/// endpoint did not take is put off by at least a second, never given back at once, and by at most
/// ten minutes.
pub proof fn law_retry_is_never_immediate(
    attempt: u32,
    min_backoff_secs: i64,
    max_backoff_secs: i64,
)
    requires
        min_backoff_secs <= 600,
        max_backoff_secs <= 600,
    ensures
        1 <= retry_secs(attempt, min_backoff_secs, max_backoff_secs) <= 600,
{
    retry::law_backoff_grows_within_bounds(attempt, attempt, min_backoff_secs, max_backoff_secs);
}

/// What a dispatcher is started with.
#[derive(Debug)]
pub struct DispatcherSettings {
    /// The subscription's name.
    pub subscription: String,
    /// The subscription's id.
    pub sub_id: u64,
    /// How long a message is leased while it is sent.
    pub ack_deadline_secs: i32,
    /// The shortest backoff after a failure.
    pub min_retry_backoff_secs: i64,
    /// The longest backoff after a failure.
    pub max_retry_backoff_secs: i64,
    /// Whether the subscription has a dead-letter policy; if so the endpoint is told how often a
    /// message was sent.
    pub dead_letter_configured: bool,
    /// Where and how messages are sent.
    pub push_config: PushConfig,
    /// How long an endpoint may take to answer.
    pub push_timeout_secs: u64,
    /// How many messages may be out at once.
    pub max_concurrency: u32,
}

/// What a [`DispatcherSettings`] holds.
pub struct SettingsView {
    pub subscription: Seq<char>,
    pub sub_id: u64,
    pub ack_deadline_secs: i32,
    pub min_retry_backoff_secs: i64,
    pub max_retry_backoff_secs: i64,
    pub dead_letter_configured: bool,
    pub push_config: PushConfigView,
    pub push_timeout_secs: u64,
    pub max_concurrency: u32,
}

impl View for DispatcherSettings {
    type V = SettingsView;

    open spec fn view(&self) -> SettingsView {
        SettingsView {
            subscription: self.subscription@,
            sub_id: self.sub_id,
            ack_deadline_secs: self.ack_deadline_secs,
            min_retry_backoff_secs: self.min_retry_backoff_secs,
            max_retry_backoff_secs: self.max_retry_backoff_secs,
            dead_letter_configured: self.dead_letter_configured,
            push_config: self.push_config@,
            push_timeout_secs: self.push_timeout_secs,
            max_concurrency: self.max_concurrency,
        }
    }
}

impl DispatcherSettings {
    /// How many messages may be out at once, at least one.
    pub open spec fn room(&self) -> u32 {
        if self.max_concurrency == 0 {
            1
        } else {
            self.max_concurrency
        }
    }

    /// How many messages may be out at once, at least one.
    pub fn concurrency(&self) -> (n: u32)
        ensures
            n == self.room(),
    {
        if self.max_concurrency == 0 {
            1
        } else {
            self.max_concurrency
        }
    }

    /// How many seconds an endpoint may take to answer, at least one.
    pub fn timeout_secs(&self) -> (n: u64)
        ensures
            n == if self.push_timeout_secs == 0 {
                1
            } else {
                self.push_timeout_secs
            },
    {
        if self.push_timeout_secs == 0 {
            1
        } else {
            self.push_timeout_secs
        }
    }
}

/// What a dispatcher does next.
#[derive(Debug)]
pub enum Step {
    /// Send these messages.
    Deliver(Vec<PulledMessage>),
    /// Wait for new messages, or for a while.
    Wait,
    /// Let the deliveries that are under way end, then close the stream. The error says why, unless
    /// the dispatcher was told to stop.
    Stop(Option<Error>),
}

/// What a [`Step`] holds.
pub enum StepView {
    Deliver(Seq<PulledView>),
    Wait,
    Stop(Option<ErrorView>),
}

impl View for Step {
    type V = StepView;

    open spec fn view(&self) -> StepView {
        match self {
            Step::Deliver(messages) => StepView::Deliver(listing::views(messages@)),
            Step::Wait => StepView::Wait,
            Step::Stop(Some(e)) => StepView::Stop(Some(e@)),
            Step::Stop(None) => StepView::Stop(None),
        }
    }
}

/// What follows when leasing came to this.
pub open spec fn step_after(leased: Result<Seq<PulledView>, ErrorView>) -> StepView {
    match leased {
        Ok(messages) => if messages.len() > 0 {
            StepView::Deliver(messages)
        } else {
            StepView::Wait
        },
        Err(e) => StepView::Stop(Some(e)),
    }
}

/// What an endpoint's answer to a message comes to: it is acknowledged, or put off for longer the
/// more often it was delivered.
pub open spec fn settle_effect(
    s: ServiceView,
    settings: SettingsView,
    stream_id: u64,
    ack_id: Seq<char>,
    status: Option<u16>,
    now_ms: i64,
) -> Effect<()> {
    if is_taken(status) {
        service::stream_acknowledge_effect(s, stream_id, settings.sub_id, seq![ack_id], now_ms)
    } else {
        service::stream_modify_effect(
            s,
            stream_id,
            settings.sub_id,
            seq![ack_id],
            retry_secs(
                engine::attempts_so_far(s.engine.leases, settings.sub_id, ack_id),
                settings.min_retry_backoff_secs,
                settings.max_retry_backoff_secs,
            ),
            now_ms,
        )
    }
}

/// The service once a message that was put off does not count on a stream any more.
pub open spec fn slot_freed(
    s: ServiceView,
    settings: SettingsView,
    stream_id: u64,
    ack_id: Seq<char>,
) -> ServiceView {
    ServiceView {
        engine: engine::EngineView {
            sessions: engine::putting_off(
                s.engine.sessions,
                stream_id,
                settings.sub_id,
                ack_id,
            ),
            ..s.engine
        },
        ..s
    }
}

/// An endpoint's answer to a message was dealt with. A message that was put off makes room for
/// others, and for its own next attempt.
pub open spec fn settled<K: KvStore>(
    before: ServiceView,
    after: ServiceView,
    settings: SettingsView,
    stream_id: u64,
    ack_id: Seq<char>,
    status: Option<u16>,
    now_ms: i64,
) -> bool {
    exists|mid: ServiceView, r: Result<(), ErrorView>|
        #[trigger] service::performed::<K, ()>(
            before,
            mid,
            settle_effect(before, settings, stream_id, ack_id, status, now_ms),
            r,
        ) && after == if is_taken(status) {
            mid
        } else {
            slot_freed(mid, settings, stream_id, ack_id)
        }
}

/// A dispatcher with its stream.
#[derive(Debug)]
pub struct Dispatcher {
    /// What it was started with.
    pub settings: DispatcherSettings,
    /// The stream that it leases on.
    pub stream_id: u64,
}

impl Dispatcher {
    /// Opens the stream of a dispatcher. It may have as many messages out as the settings say,
    /// whatever their size.
    pub fn open<K: KvStore, C: Clock>(
        svc: &mut PubSubService<K, C>,
        settings: DispatcherSettings,
    ) -> (r: Result<Dispatcher, Error>)
        ensures
            final(svc).clock == old(svc).clock,
            match r {
                Ok(d) => {
                    &&& service::open_error(old(svc)@.rows, settings.subscription@) is None
                    &&& d.settings == settings
                    &&& d.stream_id == stream::next_stream_id(old(svc)@.engine.last_stream_id)
                    &&& final(svc)@ == service::stream_opened(
                        old(svc)@,
                        subscription::subscription_named(
                            old(svc)@.rows,
                            settings.subscription@,
                        )->Ok_0,
                        settings.ack_deadline_secs,
                        settings.room() as i64,
                        0,
                    )
                },
                Err(e) => service::open_error(old(svc)@.rows, settings.subscription@) == Some(e@)
                    && final(svc)@ == old(svc)@,
            },
    {
        match svc.open_stream(
            settings.subscription.as_str(),
            settings.ack_deadline_secs,
            settings.concurrency() as i64,
            0,
        ) {
            Ok((stream_id, _)) => Ok(Dispatcher { settings, stream_id }),
            Err(e) => Err(e),
        }
    }

    /// Leases what can be sent, when it is `now_ms`, and says what to do. A dispatcher that is told
    /// to stop leases nothing any more.
    pub fn next<K: KvStore, C: Clock>(
        &self,
        svc: &mut PubSubService<K, C>,
        cancelled: bool,
        now_ms: i64,
    ) -> (r: Step)
        ensures
            final(svc).clock == old(svc).clock,
            cancelled ==> r@ == StepView::Stop(None) && final(svc)@ == old(svc)@,
            !cancelled ==> exists|leased: Result<Seq<PulledView>, ErrorView>|
                r@ == step_after(leased) && #[trigger] service::performed::<K, Seq<PulledView>>(
                    old(svc)@,
                    final(svc)@,
                    service::stream_lease_effect(old(svc)@, self.stream_id, now_ms),
                    leased,
                ),
            r@ matches StepView::Deliver(messages) ==> service::pulled_are_out(
                final(svc)@.engine.leases,
                engine::stream_subscription(old(svc)@.engine.sessions, self.stream_id),
                messages,
            ),
    {
        if cancelled {
            return Step::Stop(None);
        }
        let leased = svc.lease_for_stream_at(self.stream_id, now_ms);
        let ghost outcome = service::pulled_result(leased);
        match leased {
            Ok(messages) => {
                if messages.len() == 0 {
                    Step::Wait
                } else {
                    Step::Deliver(messages)
                }
            },
            Err(e) => Step::Stop(Some(e)),
        }
    }

    /// The request that carries a message to the endpoint.
    pub fn request(&self, msg: &PulledMessage) -> (r: PushRequestBody)
        requires
            self.settings.push_config.no_wrapper || msg.data@.len() <= isize::MAX / 2,
        ensures
            r@ == if self.settings.push_config.no_wrapper {
                envelope::unwrapped(
                    self.settings.subscription@,
                    msg@,
                    self.settings.push_config.write_metadata,
                )
            } else {
                envelope::wrapped(
                    self.settings.subscription@,
                    msg@,
                    if self.settings.dead_letter_configured {
                        Some(msg.delivery_attempt)
                    } else {
                        None
                    },
                )
            },
    {
        let attempt = if self.settings.dead_letter_configured {
            Some(msg.delivery_attempt)
        } else {
            None
        };
        envelope::build(
            self.settings.subscription.as_str(),
            msg,
            attempt,
            self.settings.push_config.no_wrapper,
            self.settings.push_config.write_metadata,
        )
    }

    /// Acknowledges a message that the endpoint took, and puts off one that it did not, or to which
    /// it did not answer. Either way the message does not count as out any more, so that it cannot
    /// keep itself or others from being sent. Returns what is counted.
    pub fn settle<K: KvStore, C: Clock>(
        &self,
        svc: &mut PubSubService<K, C>,
        ack_id: String,
        status: Option<u16>,
        now_ms: i64,
    ) -> (s: Sample)
        ensures
            final(svc).clock == old(svc).clock,
            settled::<K>(
                old(svc)@,
                final(svc)@,
                self.settings@,
                self.stream_id,
                ack_id@,
                status,
                now_ms,
            ),
            metrics::sample_view(s) == (
                metrics::PUSH_REQUESTS_TOTAL@,
                seq![
                    ("subscription"@, self.settings.subscription@),
                    (
                        "result"@,
                        if is_taken(status) {
                            "ok"@
                        } else {
                            "fail"@
                        },
                    ),
                ],
            ),
    {
        let taken = match status {
            Some(code) => is_success(code),
            None => false,
        };
        let ghost id = ack_id@;
        let attempt: u32 = svc.engine.attempts_of(self.settings.sub_id, ack_id.as_str());
        let own = ack_id.clone();
        let ids = vec![ack_id];
        assert(text::texts(ids@) =~= seq![id]);
        if taken {
            let _ = svc.stream_acknowledge_at(self.stream_id, self.settings.sub_id, ids, now_ms);
            metrics::record_push_request(self.settings.subscription.as_str(), "ok")
        } else {
            let seconds: i32 = retry_delay(
                attempt,
                self.settings.min_retry_backoff_secs,
                self.settings.max_retry_backoff_secs,
            );
            let _ = svc.stream_modify_ack_deadline_at(
                self.stream_id,
                self.settings.sub_id,
                ids,
                seconds,
                now_ms,
            );
            let ghost mid = svc@;
            svc.engine.put_off_on_stream(self.stream_id, self.settings.sub_id, own.as_str());
            assert(svc@ == slot_freed(mid, self.settings@, self.stream_id, id));
            metrics::record_push_request(self.settings.subscription.as_str(), "fail")
        }
    }
}

} // verus!
