//! Subscriptions are what clients make of them.

use crate::error;
use crate::error::{Error, ErrorView};
use crate::grpc::messages;
use crate::grpc::messages::{PushConfig, Subscription, SubscriptionMessage, Wrapper};
use crate::grpc::status;
use crate::grpc::status::Status;
use crate::grpc::subscriber;
use crate::grpc::subscriber::UpdateSubscriptionRequest;
use crate::guarantees::bounds;
use crate::laws as service_laws;
use crate::rest::handlers;
use crate::service;
use crate::service::ServiceView;
use crate::store::keys;
use crate::store::keys::NameKind;
use crate::store::kv;
use crate::store::kv::{KvStore, Rows};
use crate::subscription;
use crate::subscription::{SubscriptionRecord, SubscriptionView};
use crate::text;
use crate::topic;
use vstd::prelude::*;

verus! {

/// The seconds of an optional duration, or a default.
pub open spec fn secs_or(d: Option<crate::grpc::convert::Duration>, default_secs: i64) -> i64 {
    match d {
        Some(d) => d.seconds,
        None => default_secs,
    }
}

/// A shown duration is so many whole seconds.
pub open spec fn is_secs(d: Option<crate::grpc::convert::Duration>, secs: i64) -> bool {
    d matches Some(d) && d.seconds == secs && d.nanos == 0
}

/// The push configuration that is shown is the one that was asked for: none, where no endpoint was
/// given.
pub open spec fn same_push(shown: Option<PushConfig>, wanted: Option<PushConfig>) -> bool {
    match wanted {
        Some(w) => if w.push_endpoint@.len() == 0 {
            shown is None
        } else {
            &&& shown matches Some(c)
            &&& c.push_endpoint@ == w.push_endpoint@
            &&& match w.wrapper {
                Wrapper::NoWrapper { write_metadata } => c.wrapper == (Wrapper::NoWrapper {
                    write_metadata,
                }),
                _ => c.wrapper == Wrapper::PubsubWrapper,
            }
        },
        None => shown is None,
    }
}

/// The expiration that is shown is the one that was asked for: never, where none is set.
pub open spec fn same_expiration(
    shown: Option<messages::ExpirationPolicy>,
    ttl: Option<crate::grpc::convert::Duration>,
) -> bool {
    &&& shown matches Some(p)
    &&& match ttl {
        Some(d) => is_secs(p.ttl, d.seconds),
        None => p.ttl is None,
    }
}

/// The dead-letter policy that is shown is the one that was asked for; no number of attempts is 5.
pub open spec fn same_dead_letter(
    shown: Option<messages::DeadLetterPolicy>,
    wanted: Option<messages::DeadLetterPolicy>,
) -> bool {
    match wanted {
        Some(w) => {
            &&& shown matches Some(p)
            &&& p.dead_letter_topic@ == w.dead_letter_topic@
            &&& p.max_delivery_attempts == if w.max_delivery_attempts == 0 {
                5
            } else {
                w.max_delivery_attempts
            }
        },
        None => shown is None,
    }
}

/// What is shown of a new subscription is what was asked for, with the defaults where nothing was
/// said: 10 seconds to acknowledge, 7 days of retention, expiration after 31 days without use, and
/// 10 to 600 seconds of backoff.
pub open spec fn is_as_requested(shown: Subscription, request: Subscription) -> bool {
    &&& shown.topic@ == request.topic@
    &&& shown.labels@ == request.labels@
    &&& shown.filter@ == request.filter@
    &&& shown.enable_message_ordering == request.enable_message_ordering
    &&& shown.enable_exactly_once_delivery == request.enable_exactly_once_delivery
    &&& shown.retain_acked_messages == request.retain_acked_messages
    &&& shown.ack_deadline_seconds == if request.ack_deadline_seconds == 0 {
        10
    } else {
        request.ack_deadline_seconds
    }
    &&& is_secs(
        shown.message_retention_duration,
        secs_or(request.message_retention_duration, 604_800),
    )
    &&& match request.expiration_policy {
        Some(p) => same_expiration(shown.expiration_policy, p.ttl),
        None => shown.expiration_policy matches Some(p) && is_secs(p.ttl, 2_678_400),
    }
    &&& same_dead_letter(shown.dead_letter_policy, request.dead_letter_policy)
    &&& shown.retry_policy matches Some(p)
    &&& match request.retry_policy {
        Some(w) => {
            &&& is_secs(p.minimum_backoff, secs_or(w.minimum_backoff, 10))
            &&& is_secs(p.maximum_backoff, secs_or(w.maximum_backoff, 600))
        },
        None => is_secs(p.minimum_backoff, 10) && is_secs(p.maximum_backoff, 600),
    }
    &&& same_push(shown.push_config, request.push_config)
    &&& !shown.detached
    &&& shown.state == messages::State::Active
}

proof fn lemma_new_is_as_requested(
    rows: Rows,
    name: Seq<char>,
    topic_id: u64,
    now_ms: i64,
    request: Subscription,
    shown: Subscription,
)
    requires
        shown@ == messages::subscription_message(
            subscription::new_subscription(
                rows,
                name,
                request.topic@,
                topic_id,
                now_ms,
                messages::options_wanted(request@),
            ),
        ),
    ensures
        shown.name@ == name,
        is_as_requested(shown, request),
{
    let v = shown@;
    assert(v.push_config == messages::opt_push(shown.push_config));
    assert(v.dead_letter_policy == messages::opt_dead_letter(shown.dead_letter_policy));
    assert(request@.push_config == messages::opt_push(request.push_config));
    assert(request@.dead_letter_policy == messages::opt_dead_letter(request.dead_letter_policy));
}

proof fn lemma_created<K: KvStore>(
    before: ServiceView,
    after: ServiceView,
    name: Seq<char>,
    request: Subscription,
    now_ms: i64,
    made: Result<SubscriptionView, ErrorView>,
)
    requires
        service::performed::<K, SubscriptionView>(
            before,
            after,
            service::create_subscription_effect(
                before,
                name,
                request.topic@,
                messages::options_wanted(request@),
                now_ms,
            ),
            made,
        ),
        made is Ok,
    ensures
        topic::topic_named(before.rows, request.topic@) is Ok,
        ({
            let t = topic::topic_named(before.rows, request.topic@)->Ok_0;
            &&& made->Ok_0 == subscription::new_subscription(
                before.rows,
                name,
                request.topic@,
                t.id,
                now_ms,
                messages::options_wanted(request@),
            )
            &&& subscription::subscription_named(after.rows, name) == made
        }),
{
    let opts = messages::options_wanted(request@);
    let effect = service::create_subscription_effect(
        before,
        name,
        request.topic@,
        opts,
        now_ms,
    );
    let t = topic::topic_named(before.rows, request.topic@)->Ok_0;
    service_laws::law_success_is_stored::<K, SubscriptionView>(before, after, effect, made);
    service_laws::law_created_subscription_is_found(
        before.rows,
        name,
        request.topic@,
        t.id,
        topic::tail_of(before.rows, t.id),
        now_ms,
        opts,
    );
    assert(effect.note =~= Seq::empty());
}

/// A subscription that is created is what was asked for: the reply shows it, and so does getting it.
pub proof fn law_created_subscription_is_as_requested<K: KvStore>(
    before: ServiceView,
    after: ServiceView,
    request: Subscription,
    now_ms: i64,
    r: Result<Subscription, Status>,
    got: Result<Subscription, Status>,
)
    requires
        subscriber::subscription_created::<K>(before, after, request, now_ms, r),
        r is Ok,
        subscriber::subscription_got(after.rows, request.name@, got),
    ensures
        (r->Ok_0).name@ == request.name@,
        is_as_requested(r->Ok_0, request),
        got is Ok,
        (got->Ok_0).name@ == request.name@,
        is_as_requested(got->Ok_0, request),
{
    let effect = service::create_subscription_effect(
        before,
        request.name@,
        request.topic@,
        messages::options_wanted(request@),
        now_ms,
    );
    let made = choose|outcome: Result<SubscriptionView, ErrorView>| #[trigger]
        service::performed::<K, SubscriptionView>(before, after, effect, outcome)
            && status::reply_view(r) == status::reply(
            outcome,
            |s: SubscriptionView| messages::subscription_message(s),
        );
    lemma_created::<K>(before, after, request.name@, request, now_ms, made);
    let t = topic::topic_named(before.rows, request.topic@)->Ok_0;
    lemma_new_is_as_requested(before.rows, request.name@, t.id, now_ms, request, r->Ok_0);
    lemma_new_is_as_requested(before.rows, request.name@, t.id, now_ms, request, got->Ok_0);
}

/// The same by REST, where the name is that of the project and of the path.
pub proof fn law_subscription_created_by_rest_is_as_requested<K: KvStore>(
    before: ServiceView,
    after: ServiceView,
    project: Seq<char>,
    sub: Seq<char>,
    request: Subscription,
    now_ms: i64,
    r: Result<Subscription, Error>,
    got: Result<Subscription, Error>,
)
    requires
        handlers::subscription_created::<K>(before, after, project, sub, request, now_ms, r),
        r is Ok,
        handlers::subscription_got(after.rows, project, sub, got),
    ensures
        (r->Ok_0).name@ == "projects/"@ + project + "/subscriptions/"@ + sub,
        is_as_requested(r->Ok_0, request),
        got is Ok,
        (got->Ok_0).name@ == (r->Ok_0).name@,
        is_as_requested(got->Ok_0, request),
{
    let name = handlers::sub_full_name(project, sub);
    let effect = service::create_subscription_effect(
        before,
        name,
        request.topic@,
        messages::options_wanted(request@),
        now_ms,
    );
    let made = choose|outcome: Result<SubscriptionView, ErrorView>| #[trigger]
        service::performed::<K, SubscriptionView>(before, after, effect, outcome)
            && error::result_view(r) == handlers::shown(
            outcome,
            |s: SubscriptionView| messages::subscription_message(s),
        );
    lemma_created::<K>(before, after, name, request, now_ms, made);
    let t = topic::topic_named(before.rows, request.topic@)->Ok_0;
    lemma_new_is_as_requested(before.rows, name, t.id, now_ms, request, r->Ok_0);
    lemma_new_is_as_requested(before.rows, name, t.id, now_ms, request, got->Ok_0);
}

/// An update names a field.
pub open spec fn names(paths: Seq<String>, path: Seq<char>) -> bool {
    exists|i: int| 0 <= i < paths.len() && (#[trigger] paths[i])@ == path
}

/// What is shown of a subscription after an update: each field that the update names is as the request
/// gives it, and every other is as it was.
pub open spec fn is_updated(
    shown: Subscription,
    was: Subscription,
    request: Subscription,
    paths: Seq<String>,
) -> bool {
    &&& shown.name@ == was.name@
    &&& shown.topic@ == was.topic@
    &&& shown.filter@ == was.filter@
    &&& shown.enable_message_ordering == was.enable_message_ordering
    &&& shown.detached == was.detached
    &&& shown.labels@ == if names(paths, "labels"@) {
        request.labels@
    } else {
        was.labels@
    }
    &&& shown.ack_deadline_seconds == if names(paths, "ack_deadline_seconds"@) {
        request.ack_deadline_seconds
    } else {
        was.ack_deadline_seconds
    }
    &&& shown.retain_acked_messages == if names(paths, "retain_acked_messages"@) {
        request.retain_acked_messages
    } else {
        was.retain_acked_messages
    }
    &&& shown.enable_exactly_once_delivery == if names(paths, "enable_exactly_once_delivery"@) {
        request.enable_exactly_once_delivery
    } else {
        was.enable_exactly_once_delivery
    }
    &&& if names(paths, "message_retention_duration"@) && request.message_retention_duration is Some {
        is_secs(
            shown.message_retention_duration,
            request.message_retention_duration->0.seconds,
        )
    } else {
        shown.message_retention_duration == was.message_retention_duration
    }
    &&& if names(paths, "expiration_policy"@) {
        same_expiration(
            shown.expiration_policy,
            match request.expiration_policy {
                Some(p) => p.ttl,
                None => None,
            },
        )
    } else {
        shown.expiration_policy == was.expiration_policy
    }
    &&& if names(paths, "dead_letter_policy"@) {
        same_dead_letter(shown.dead_letter_policy, request.dead_letter_policy)
    } else {
        messages::opt_dead_letter(shown.dead_letter_policy) == messages::opt_dead_letter(
            was.dead_letter_policy,
        )
    }
    &&& if names(paths, "retry_policy"@) && request.retry_policy is Some {
        &&& shown.retry_policy is Some
        &&& was.retry_policy is Some
        &&& if request.retry_policy->0.minimum_backoff is Some {
            is_secs(
                shown.retry_policy->0.minimum_backoff,
                request.retry_policy->0.minimum_backoff->0.seconds,
            )
        } else {
            shown.retry_policy->0.minimum_backoff == was.retry_policy->0.minimum_backoff
        }
        &&& if request.retry_policy->0.maximum_backoff is Some {
            is_secs(
                shown.retry_policy->0.maximum_backoff,
                request.retry_policy->0.maximum_backoff->0.seconds,
            )
        } else {
            shown.retry_policy->0.maximum_backoff == was.retry_policy->0.maximum_backoff
        }
    } else {
        shown.retry_policy == was.retry_policy
    }
    &&& if names(paths, "push_config"@) {
        same_push(shown.push_config, request.push_config)
    } else {
        messages::opt_push(shown.push_config) == messages::opt_push(was.push_config)
    }
}

pub(crate) proof fn lemma_names(paths: Seq<String>, path: Seq<char>)
    ensures
        crate::grpc::publisher::names_path(text::texts(paths), path) <==> names(paths, path),
{
    let all = text::texts(paths);
    if all.contains(path) {
        let i = choose|i: int| 0 <= i < all.len() && all[i] == path;
        assert(paths[i]@ == path);
    }
    if names(paths, path) {
        let i = choose|i: int| 0 <= i < paths.len() && (#[trigger] paths[i])@ == path;
        assert(all[i] == path);
    }
}

proof fn lemma_patched_is_updated(
    found: SubscriptionView,
    was: Subscription,
    shown: Subscription,
    request: Subscription,
    paths: Seq<String>,
)
    requires
        was@ == messages::subscription_message(found),
        shown@ == messages::subscription_message(
            subscription::patched(found, subscriber::patch_wanted(request@, text::texts(paths))),
        ),
    ensures
        is_updated(shown, was, request, paths),
{
    lemma_names(paths, "labels"@);
    lemma_names(paths, "ack_deadline_seconds"@);
    lemma_names(paths, "retain_acked_messages"@);
    lemma_names(paths, "enable_exactly_once_delivery"@);
    lemma_names(paths, "message_retention_duration"@);
    lemma_names(paths, "expiration_policy"@);
    lemma_names(paths, "dead_letter_policy"@);
    lemma_names(paths, "retry_policy"@);
    lemma_names(paths, "push_config"@);
    let v = shown@;
    let w = was@;
    assert(v.push_config == messages::opt_push(shown.push_config));
    assert(v.dead_letter_policy == messages::opt_dead_letter(shown.dead_letter_policy));
    assert(w.push_config == messages::opt_push(was.push_config));
    assert(w.dead_letter_policy == messages::opt_dead_letter(was.dead_letter_policy));
    assert(request@.push_config == messages::opt_push(request.push_config));
    assert(request@.dead_letter_policy == messages::opt_dead_letter(request.dead_letter_policy));
}

/// A subscription that was changed is found under its name.
pub(crate) proof fn lemma_persisted_is_found(rows: Rows, name: Seq<char>, changed: SubscriptionView)
    requires
        subscription::subscription_named(rows, name) is Ok,
        (subscription::subscription_named(rows, name)->Ok_0).id == changed.id,
        changed.name == name,
    ensures
        subscription::subscription_named(
            kv::after_writes(rows, subscription::persist_writes(changed)),
            name,
        ) == Ok::<SubscriptionView, ErrorView>(changed),
{
    let writes = subscription::persist_writes(changed);
    let key = keys::name_key_bytes(NameKind::Subscription, name);
    keys::law_kinds_of_keys_differ(changed.id, changed.id, NameKind::Subscription, name);
    keys::law_be64_round_trip(changed.id, keys::be64(changed.id));
    assert(writes.len() == 2);
    kv::law_last_write_is_read(rows, writes, 0, "meta"@, keys::sub_key_bytes(changed.id));
    kv::law_last_write_is_read(rows, writes, 1, "meta"@, key);
}

/// After an update succeeds, each field that the update names has the value that the request gives,
/// and every other has the value from before; the reply shows this, and so does getting the
/// subscription.
pub proof fn law_update_sets_what_it_names<K: KvStore>(
    before: Rows,
    after: Rows,
    update: UpdateSubscriptionRequest,
    was: Result<Subscription, Status>,
    r: Result<Subscription, Status>,
    got: Result<Subscription, Status>,
)
    requires
        update.subscription is Some,
        subscriber::subscription_got(before, update.subscription->0.name@, was),
        was is Ok,
        (was->Ok_0).name@ == update.subscription->0.name@,
        subscriber::subscription_updated::<K>(before, after, update, r),
        r is Ok,
        subscriber::subscription_got(after, update.subscription->0.name@, got),
    ensures
        is_updated(r->Ok_0, was->Ok_0, update.subscription->0, update.paths@),
        got is Ok,
        is_updated(got->Ok_0, was->Ok_0, update.subscription->0, update.paths@),
{
    let request = update.subscription->0;
    let paths = update.paths@;
    let found = subscription::subscription_named(before, request.name@)->Ok_0;
    let patch = subscriber::patch_wanted(request@, text::texts(paths));
    let changed = subscription::patched(found, patch);
    let made = choose|outcome: Result<SubscriptionRecord, Error>| #[trigger]
        kv::stored::<SubscriptionRecord, K>(
            outcome,
            before,
            after,
            subscription::patch_error(patch),
            changed,
            subscription::persist_writes(changed),
        ) && status::reply_view(r) == status::reply(
            error::result_view(outcome),
            |s: SubscriptionView| messages::subscription_message(s),
        );
    assert(made is Ok);
    lemma_persisted_is_found(before, request.name@, changed);
    lemma_patched_is_updated(found, was->Ok_0, r->Ok_0, request, paths);
    lemma_patched_is_updated(found, was->Ok_0, got->Ok_0, request, paths);
}

/// A subscription that is detached is shown as such, is otherwise as it was, and cannot be pulled from
/// any more.
pub proof fn law_detached_cannot_be_pulled<K: KvStore>(
    before: ServiceView,
    after: ServiceView,
    name: Seq<char>,
    r: Result<(), Error>,
    max_messages: i32,
    now_ms: i64,
)
    requires
        subscription::subscription_named(before.rows, name) is Ok,
        ({
            let found = subscription::subscription_named(before.rows, name)->Ok_0;
            &&& found.name == name
            &&& kv::stored::<(), K>(
                r,
                before.rows,
                after.rows,
                None,
                (),
                subscription::persist_writes(SubscriptionView { detached: true, ..found }),
            )
        }),
        r is Ok,
        max_messages <= 1000,
    ensures
        ({
            let found = subscription::subscription_named(before.rows, name)->Ok_0;
            let now = subscription::subscription_named(after.rows, name);
            let pull = service::pull_effect(after, name, max_messages, now_ms);
            &&& now is Ok
            &&& (now->Ok_0).detached
            &&& (now->Ok_0).topic == found.topic
            &&& (now->Ok_0).labels == found.labels
            &&& (now->Ok_0).filter == found.filter
            &&& (now->Ok_0).id == found.id
            &&& pull.outcome is Err
            &&& pull.outcome->Err_0 is FailedPrecondition
        }),
{
    let found = subscription::subscription_named(before.rows, name)->Ok_0;
    lemma_persisted_is_found(
        before.rows,
        name,
        SubscriptionView { detached: true, ..found },
    );
}

/// A push configuration that is set is shown from then on, and nothing else of the subscription has
/// changed.
pub proof fn law_push_config_is_set<K: KvStore>(
    before: Rows,
    after: Rows,
    name: Seq<char>,
    wanted: Option<PushConfig>,
    r: Result<(), Status>,
    was: Result<Subscription, Status>,
    got: Result<Subscription, Status>,
)
    requires
        subscriber::subscription_got(before, name, was),
        was is Ok,
        (was->Ok_0).name@ == name,
        subscriber::push_config_set::<K>(before, after, name, wanted, r),
        r is Ok,
        subscriber::subscription_got(after, name, got),
    ensures
        got is Ok,
        same_push((got->Ok_0).push_config, wanted),
        (got->Ok_0)@ == (SubscriptionMessage {
            push_config: (got->Ok_0)@.push_config,
            ..(was->Ok_0)@
        }),
{
    let found = subscription::subscription_named(before, name)->Ok_0;
    let new = SubscriptionView {
        push_config: messages::push_wanted(messages::opt_push(wanted)),
        ..found
    };
    let made = choose|outcome: Result<(), Error>| #[trigger]
        kv::stored::<(), K>(
            outcome,
            before,
            after,
            None,
            (),
            subscription::persist_writes(new),
        ) && status::reply_view(r) == status::reply(error::result_view(outcome), |u: ()| u);
    assert(made is Ok);
    lemma_persisted_is_found(before, name, new);
    let shown = got->Ok_0;
    assert(shown@ == messages::subscription_message(new));
    assert(shown@.push_config == messages::opt_push(shown.push_config));
    assert((was->Ok_0)@ == messages::subscription_message(found));
}

/// A subscription can be created exactly if its topic exists, its name is that of a subscription and is
/// not taken, its settings are in range, and there is an id left for it.
pub proof fn law_subscriptions_can_be_created(
    s: ServiceView,
    request: Subscription,
    now_ms: i64,
)
    requires
        request.topic@ != "_deleted-topic_"@,
        subscription::next_subscription_id(s.rows) is Ok,
    ensures
        ({
            let r = service::create_subscription_effect(
                s,
                request.name@,
                request.topic@,
                messages::options_wanted(request@),
                now_ms,
            ).outcome;
            let t = topic::topic_named(s.rows, request.topic@);
            let taken = s.rows.contains_key(
                ("meta"@, keys::name_key_bytes(NameKind::Subscription, request.name@)),
            );
            &&& r is Ok <==> {
                &&& t is Ok
                &&& bounds::is_name(request.name@, "subscriptions"@)
                &&& bounds::settings_fit(request)
                &&& !taken
            }
            &&& t is Err ==> r is Err && r->Err_0 == t->Err_0
            &&& t is Ok && r is Err ==> r->Err_0 is InvalidArgument || (r->Err_0 is AlreadyExists
                && taken)
        }),
{
    bounds::law_names_of_kinds(request.name@);
    reveal_strlit("topics");
    reveal_strlit("subscriptions");
    bounds::law_names(request.name@, "subscriptions"@);
    bounds::law_names(request.topic@, "topics"@);
    bounds::law_settings(request);
}

/// Where nothing is asked for, nothing is set.
pub proof fn law_no_options(o: crate::subscription::OptionsView)
    requires
        o == subscription::no_options(),
    ensures
        o.ack_deadline_secs is None,
        o.message_retention_secs is None,
        o.expiration_ttl_secs is None,
        o.dead_letter_topic is None,
        o.max_delivery_attempts is None,
        o.min_retry_backoff_secs is None,
        o.max_retry_backoff_secs is None,
        o.push_config is None,
        o.labels.len() == 0,
        o.filter.len() == 0,
        !o.enable_message_ordering,
        !o.enable_exactly_once_delivery,
        !o.retain_acked_messages,
        !o.has_bigquery_config,
        !o.has_cloud_storage_config,
{
}

} // verus!
