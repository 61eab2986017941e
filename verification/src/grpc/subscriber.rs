//! `google.pubsub.v1.Subscriber`, but for its stream.

use crate::clock::Clock;
use crate::error;
use crate::error::{Error, ErrorView};
use crate::grpc::convert;
use crate::grpc::convert::Timestamp;
use crate::grpc::messages;
use crate::grpc::messages::{
    PushConfig, ReceivedMessage, ReceivedView, Snapshot, SnapshotMessage, Subscription,
    SubscriptionMessage,
};
use crate::grpc::publisher;
use crate::grpc::publisher::{
    has_path, page_size_of, strip_projects_prefix, token_of, token_text,
};
use crate::grpc::status;
use crate::grpc::status::{to_status, Code, Status, StatusView};
use crate::listing;
use crate::service;
use crate::service::{PubSubService, PulledView, ServiceView};
use crate::store::codec::{CursorView, SnapshotRecord, SnapshotView};
use crate::store::kv::{KvStore, Rows};
use crate::string_map::{Entries, StringMap};
use crate::subscription;
use crate::subscription::{PatchView, SubscriptionRecord, SubscriptionUpdatePatch, SubscriptionView};
use crate::text;
use crate::delivery::snapshot;
use vstd::prelude::*;
use vstd::string::*;

verus! {

/// How long a pull that found nothing waits for a message before it tries once more.
pub const PULL_WAIT_MS: u64 = 200;

/// A request to change a subscription.
#[derive(Debug)]
pub struct UpdateSubscriptionRequest {
    /// The subscription with its new values.
    pub subscription: Option<Subscription>,
    /// Which of them to take.
    pub paths: Vec<String>,
}

/// A request to change a snapshot.
#[derive(Debug)]
pub struct UpdateSnapshotRequest {
    /// The snapshot with its new values.
    pub snapshot: Option<Snapshot>,
    /// Which of them to take.
    pub paths: Vec<String>,
}

/// Where a seek goes.
#[derive(Debug)]
pub enum SeekTarget {
    /// Not said.
    Unset,
    /// To a time.
    Time(Timestamp),
    /// To a snapshot.
    Snapshot(String),
}

/// A page of subscriptions.
#[derive(Debug)]
pub struct SubscriptionsPage {
    /// The subscriptions.
    pub subscriptions: Vec<Subscription>,
    /// The token for the next page; empty on the last one.
    pub next_page_token: String,
}

impl View for SubscriptionsPage {
    type V = (Seq<SubscriptionMessage>, Seq<char>);

    open spec fn view(&self) -> (Seq<SubscriptionMessage>, Seq<char>) {
        (listing::views(self.subscriptions@), self.next_page_token@)
    }
}

/// A page of snapshots.
#[derive(Debug)]
pub struct SnapshotsPage {
    /// The snapshots.
    pub snapshots: Vec<Snapshot>,
    /// The token for the next page; empty on the last one.
    pub next_page_token: String,
}

impl View for SnapshotsPage {
    type V = (Seq<SnapshotMessage>, Seq<char>);

    open spec fn view(&self) -> (Seq<SnapshotMessage>, Seq<char>) {
        (listing::views(self.snapshots@), self.next_page_token@)
    }
}

/// Subscriptions as clients see them.
pub open spec fn subscription_messages(subs: Seq<SubscriptionView>) -> Seq<SubscriptionMessage> {
    subs.map_values(|s: SubscriptionView| messages::subscription_message(s))
}

/// Snapshots as clients see them.
pub open spec fn snapshot_messages(snaps: Seq<SnapshotView>) -> Seq<SnapshotMessage> {
    snaps.map_values(|s: SnapshotView| messages::snapshot_message(s))
}

/// The page of snapshots that a client gets.
pub open spec fn snapshots_page(
    all: Seq<SnapshotView>,
    page_size: i32,
    page_token: Seq<char>,
) -> (Seq<SnapshotMessage>, Seq<char>) {
    let size = publisher::page_size_wanted(page_size);
    let token = publisher::token_wanted(page_token);
    (
        snapshot_messages(listing::page::<SnapshotRecord>(all, size, token)),
        publisher::token_shown(listing::next_token::<SnapshotRecord>(all, size, token)),
    )
}

/// The field that an update names but cannot change, if there is one.
pub open spec fn immutable_path(paths: Seq<Seq<char>>) -> Option<Seq<char>> {
    if publisher::names_path(paths, "name"@) {
        Some("name"@)
    } else if publisher::names_path(paths, "topic"@) {
        Some("topic"@)
    } else if publisher::names_path(paths, "enable_message_ordering"@) {
        Some("enable_message_ordering"@)
    } else if publisher::names_path(paths, "filter"@) {
        Some("filter"@)
    } else {
        None
    }
}

/// The error for an update of a field that cannot change.
pub open spec fn immutable_error(field: Seq<char>) -> ErrorView {
    error::invalid_argument(field, field + " is immutable after creation"@)
}

/// What an update takes over: the fields that it names, as far as they can change. Whether a
/// subscription is detached is not among them.
pub open spec fn patch_wanted(s: SubscriptionMessage, paths: Seq<Seq<char>>) -> PatchView {
    let dead_letter = publisher::names_path(paths, "dead_letter_policy"@);
    let retry = publisher::names_path(paths, "retry_policy"@);
    PatchView {
        ack_deadline_secs: if publisher::names_path(paths, "ack_deadline_seconds"@) {
            Some(s.ack_deadline_seconds)
        } else {
            None
        },
        retain_acked_messages: if publisher::names_path(paths, "retain_acked_messages"@) {
            Some(s.retain_acked_messages)
        } else {
            None
        },
        message_retention_secs: if publisher::names_path(paths, "message_retention_duration"@) {
            messages::opt_secs(s.message_retention_duration)
        } else {
            None
        },
        labels: if publisher::names_path(paths, "labels"@) {
            Some(s.labels)
        } else {
            None
        },
        expiration_ttl_secs: if publisher::names_path(paths, "expiration_policy"@) {
            Some(
                match s.expiration_policy {
                    Some(p) => messages::opt_secs(p.ttl),
                    None => None,
                },
            )
        } else {
            None
        },
        dead_letter_topic: if dead_letter {
            Some(
                match s.dead_letter_policy {
                    Some(p) => Some(p.0),
                    None => None,
                },
            )
        } else {
            None
        },
        max_delivery_attempts: match s.dead_letter_policy {
            Some(p) => if dead_letter {
                Some(p.1)
            } else {
                None
            },
            None => None,
        },
        min_retry_backoff_secs: match s.retry_policy {
            Some(p) => if retry {
                messages::opt_secs(p.minimum_backoff)
            } else {
                None
            },
            None => None,
        },
        max_retry_backoff_secs: match s.retry_policy {
            Some(p) => if retry {
                messages::opt_secs(p.maximum_backoff)
            } else {
                None
            },
            None => None,
        },
        detached: None,
        enable_exactly_once_delivery: if publisher::names_path(
            paths,
            "enable_exactly_once_delivery"@,
        ) {
            Some(s.enable_exactly_once_delivery)
        } else {
            None
        },
        push_config: if publisher::names_path(paths, "push_config"@) {
            Some(messages::push_wanted(s.push_config))
        } else {
            None
        },
    }
}

/// How many messages a pull asks for; a client that does not say gets one.
pub open spec fn pull_size(max_messages: i32) -> i32 {
    if max_messages > 0 {
        max_messages
    } else {
        1
    }
}

/// The seek came to its target, and `r` is the reply for what it returned.
pub open spec fn sought<K: KvStore>(
    before: ServiceView,
    after: ServiceView,
    target: Result<(u64, CursorView), ErrorView>,
    r: Result<(), StatusView>,
) -> bool {
    exists|outcome: Result<(), Error>| #[trigger]
        service::sought::<K>(before, after, target, outcome) && r == status::reply(
            error::result_view(outcome),
            |u: ()| u,
        )
}

fn shown_subscription(r: Result<SubscriptionRecord, Error>) -> (shown: Result<
    Subscription,
    Status,
>)
    ensures
        status::reply_view(shown) == status::reply(
            error::result_view(r),
            |s: SubscriptionView| messages::subscription_message(s),
        ),
{
    match r {
        Ok(record) => Ok(messages::subscription_to_proto(&record)),
        Err(e) => Err(to_status(e)),
    }
}

fn shown_snapshot(r: Result<SnapshotRecord, Error>) -> (shown: Result<Snapshot, Status>)
    ensures
        status::reply_view(shown) == status::reply(
            error::result_view(r),
            |s: SnapshotView| messages::snapshot_message(s),
        ),
{
    match r {
        Ok(record) => Ok(messages::snapshot_to_proto(&record)),
        Err(e) => Err(to_status(e)),
    }
}

fn done(r: Result<(), Error>) -> (shown: Result<(), Status>)
    ensures
        status::reply_view(shown) == status::reply(error::result_view(r), |u: ()| u),
{
    match r {
        Ok(_) => Ok(()),
        Err(e) => Err(to_status(e)),
    }
}

/// Subscriptions as clients see them.
pub fn shown_subscriptions(records: &Vec<SubscriptionRecord>) -> (r: Vec<Subscription>)
    ensures
        listing::views(r@) == subscription_messages(listing::views(records@)),
{
    let ghost all = listing::views(records@);
    let mut out: Vec<Subscription> = Vec::new();
    let mut i: usize = 0;
    assert(listing::views(out@) =~= subscription_messages(all.take(0)));
    while i < records.len()
        invariant
            i <= records.len(),
            all == listing::views(records@),
            listing::views(out@) == subscription_messages(all.take(i as int)),
        decreases records.len() - i,
    {
        let ghost before = out@;
        let s = messages::subscription_to_proto(&records[i]);
        let ghost shown = s@;
        out.push(s);
        assert(all[i as int] == records@[i as int]@);
        assert(listing::views(out@) =~= listing::views(before).push(shown));
        assert(subscription_messages(all.take(i + 1)) =~= subscription_messages(
            all.take(i as int),
        ).push(shown));
        i = i + 1;
    }
    assert(all.take(i as int) =~= all);
    out
}

fn shown_snapshots(records: &Vec<SnapshotRecord>) -> (r: Vec<Snapshot>)
    ensures
        listing::views(r@) == snapshot_messages(listing::views(records@)),
{
    let ghost all = listing::views(records@);
    let mut out: Vec<Snapshot> = Vec::new();
    let mut i: usize = 0;
    assert(listing::views(out@) =~= snapshot_messages(all.take(0)));
    while i < records.len()
        invariant
            i <= records.len(),
            all == listing::views(records@),
            listing::views(out@) == snapshot_messages(all.take(i as int)),
        decreases records.len() - i,
    {
        let ghost before = out@;
        let s = messages::snapshot_to_proto(&records[i]);
        let ghost shown = s@;
        out.push(s);
        assert(all[i as int] == records@[i as int]@);
        assert(listing::views(out@) =~= listing::views(before).push(shown));
        assert(snapshot_messages(all.take(i + 1)) =~= snapshot_messages(all.take(i as int)).push(
            shown,
        ));
        i = i + 1;
    }
    assert(all.take(i as int) =~= all);
    out
}

fn immutable_in(paths: &Vec<String>) -> (r: Option<&'static str>)
    ensures
        listing::opt_str(r) == immutable_path(text::texts(paths@)),
{
    if has_path(paths, "name") {
        Some("name")
    } else if has_path(paths, "topic") {
        Some("topic")
    } else if has_path(paths, "enable_message_ordering") {
        Some("enable_message_ordering")
    } else if has_path(paths, "filter") {
        Some("filter")
    } else {
        None
    }
}

fn patch_of(sub: &Subscription, paths: &Vec<String>) -> (r: SubscriptionUpdatePatch)
    ensures
        r@ == patch_wanted(sub@, text::texts(paths@)),
{
    let dead_letter = has_path(paths, "dead_letter_policy");
    let retry = has_path(paths, "retry_policy");
    SubscriptionUpdatePatch {
        ack_deadline_secs: if has_path(paths, "ack_deadline_seconds") {
            Some(sub.ack_deadline_seconds)
        } else {
            None
        },
        retain_acked_messages: if has_path(paths, "retain_acked_messages") {
            Some(sub.retain_acked_messages)
        } else {
            None
        },
        message_retention_secs: if has_path(paths, "message_retention_duration") {
            messages::duration_secs(&sub.message_retention_duration)
        } else {
            None
        },
        labels: if has_path(paths, "labels") {
            Some(sub.labels.clone())
        } else {
            None
        },
        expiration_ttl_secs: if has_path(paths, "expiration_policy") {
            Some(
                match &sub.expiration_policy {
                    Some(p) => messages::duration_secs(&p.ttl),
                    None => None,
                },
            )
        } else {
            None
        },
        dead_letter_topic: if dead_letter {
            Some(
                match &sub.dead_letter_policy {
                    Some(p) => Some(p.dead_letter_topic.clone()),
                    None => None,
                },
            )
        } else {
            None
        },
        max_delivery_attempts: match &sub.dead_letter_policy {
            Some(p) => if dead_letter {
                Some(p.max_delivery_attempts)
            } else {
                None
            },
            None => None,
        },
        min_retry_backoff_secs: match &sub.retry_policy {
            Some(p) => if retry {
                messages::duration_secs(&p.minimum_backoff)
            } else {
                None
            },
            None => None,
        },
        max_retry_backoff_secs: match &sub.retry_policy {
            Some(p) => if retry {
                messages::duration_secs(&p.maximum_backoff)
            } else {
                None
            },
            None => None,
        },
        detached: None,
        enable_exactly_once_delivery: if has_path(paths, "enable_exactly_once_delivery") {
            Some(sub.enable_exactly_once_delivery)
        } else {
            None
        },
        push_config: if has_path(paths, "push_config") {
            Some(messages::push_config_from_proto(&sub.push_config))
        } else {
            None
        },
    }
}

/// What the reply to a pull holds.
pub open spec fn received_reply(r: Result<Vec<ReceivedMessage>, Status>) -> Result<
    Seq<ReceivedView>,
    StatusView,
> {
    match r {
        Ok(v) => Ok(listing::views(v@)),
        Err(s) => Err(s@),
    }
}

/// Creating a subscription came to the reply `r`.
pub open spec fn subscription_created<K: KvStore>(
    before: ServiceView,
    after: ServiceView,
    request: Subscription,
    now_ms: i64,
    r: Result<Subscription, Status>,
) -> bool {
    status::served::<K, SubscriptionView, SubscriptionMessage>(
        before,
        after,
        service::create_subscription_effect(
            before,
            request.name@,
            request.topic@,
            messages::options_wanted(request@),
            now_ms,
        ),
        |s: SubscriptionView| messages::subscription_message(s),
        status::reply_view(r),
    )
}

/// Getting a subscription came to the reply `r`.
pub open spec fn subscription_got(
    rows: Rows,
    name: Seq<char>,
    r: Result<Subscription, Status>,
) -> bool {
    status::reply_view(r) == status::reply(
        subscription::subscription_named(rows, name),
        |s: SubscriptionView| messages::subscription_message(s),
    )
}

/// Changing a subscription came to the reply `r`.
pub open spec fn subscription_updated<K: KvStore>(
    before: Rows,
    after: Rows,
    request: UpdateSubscriptionRequest,
    r: Result<Subscription, Status>,
) -> bool {
    match request.subscription {
        None => after == before && status::reply_view(r) == Err::<SubscriptionMessage, _>(
            StatusView { code: Code::InvalidArgument, message: "subscription is required"@ },
        ),
        Some(sub) => match immutable_path(text::texts(request.paths@)) {
            Some(field) => after == before && status::reply_view(r) == Err::<
                SubscriptionMessage,
                _,
            >(status::status_of(immutable_error(field))),
            None => {
                let patch = patch_wanted(sub@, text::texts(request.paths@));
                match subscription::subscription_named(before, sub.name@) {
                    Ok(found) => status::stored::<SubscriptionRecord, K, SubscriptionMessage>(
                        before,
                        after,
                        subscription::patch_error(patch),
                        subscription::patched(found, patch),
                        subscription::persist_writes(subscription::patched(found, patch)),
                        |s: SubscriptionView| messages::subscription_message(s),
                        status::reply_view(r),
                    ),
                    Err(e) => after == before && status::reply_view(r) == Err::<
                        SubscriptionMessage,
                        _,
                    >(status::status_of(e)),
                }
            },
        },
    }
}

/// Pulling messages came to the reply `r`.
pub open spec fn pulled<K: KvStore>(
    before: ServiceView,
    after: ServiceView,
    name: Seq<char>,
    max_messages: i32,
    now_ms: i64,
    r: Result<Vec<ReceivedMessage>, Status>,
) -> bool {
    status::served::<K, Seq<PulledView>, Seq<ReceivedView>>(
        before,
        after,
        service::pull_effect(before, name, pull_size(max_messages), now_ms),
        |m: Seq<PulledView>| messages::all_received(m),
        received_reply(r),
    )
}

/// Setting a push configuration came to the reply `r`.
pub open spec fn push_config_set<K: KvStore>(
    before: Rows,
    after: Rows,
    name: Seq<char>,
    push_config: Option<PushConfig>,
    r: Result<(), Status>,
) -> bool {
    match subscription::subscription_named(before, name) {
        Ok(found) => status::stored::<(), K, ()>(
            before,
            after,
            None,
            (),
            subscription::persist_writes(
                SubscriptionView {
                    push_config: messages::push_wanted(messages::opt_push(push_config)),
                    ..found
                },
            ),
            |u: ()| u,
            status::reply_view(r),
        ),
        Err(e) => after == before && status::reply_view(r) == Err::<(), _>(status::status_of(e)),
    }
}

/// Taking a snapshot came to the reply `r`.
pub open spec fn snapshot_created<K: KvStore>(
    before: ServiceView,
    after: ServiceView,
    name: Seq<char>,
    subscription_name: Seq<char>,
    labels: Entries,
    now_ms: i64,
    r: Result<Snapshot, Status>,
) -> bool {
    status::served::<K, SnapshotView, SnapshotMessage>(
        before,
        after,
        service::create_snapshot_effect(before, name, subscription_name, labels, now_ms),
        |s: SnapshotView| messages::snapshot_message(s),
        status::reply_view(r),
    )
}

/// Getting a snapshot came to the reply `r`.
pub open spec fn snapshot_got(rows: Rows, name: Seq<char>, r: Result<Snapshot, Status>) -> bool {
    status::reply_view(r) == status::reply(
        snapshot::snapshot_named(rows, name),
        |s: SnapshotView| messages::snapshot_message(s),
    )
}

/// Changing a snapshot came to the reply `r`.
pub open spec fn snapshot_updated<K: KvStore>(
    before: Rows,
    after: Rows,
    request: UpdateSnapshotRequest,
    r: Result<Snapshot, Status>,
) -> bool {
    match request.snapshot {
        None => after == before && status::reply_view(r) == Err::<SnapshotMessage, _>(
            StatusView { code: Code::InvalidArgument, message: "snapshot is required"@ },
        ),
        Some(snap) => {
            let paths = text::texts(request.paths@);
            if publisher::names_path(paths, "name"@) || publisher::names_path(paths, "topic"@) {
                after == before && status::reply_view(r) == Err::<SnapshotMessage, _>(
                    status::status_of(
                        error::invalid_argument(
                            "name/topic"@,
                            "name and topic are immutable after creation"@,
                        ),
                    ),
                )
            } else if paths.len() == 0 || publisher::names_path(paths, "labels"@) {
                match snapshot::snapshot_named(before, snap.name@) {
                    Ok(found) => status::stored::<SnapshotRecord, K, SnapshotMessage>(
                        before,
                        after,
                        None,
                        (SnapshotView { labels: snap.labels@, ..found }),
                        snapshot::relabel_writes(found, snap.labels@),
                        |s: SnapshotView| messages::snapshot_message(s),
                        status::reply_view(r),
                    ),
                    Err(e) => after == before && status::reply_view(r) == Err::<
                        SnapshotMessage,
                        _,
                    >(status::status_of(e)),
                }
            } else {
                after == before && snapshot_got(before, snap.name@, r)
            }
        },
    }
}

/// Seeking came to the reply `r`.
pub open spec fn sought_to<K: KvStore>(
    before: ServiceView,
    after: ServiceView,
    name: Seq<char>,
    target: SeekTarget,
    r: Result<(), Status>,
) -> bool {
    match target {
        SeekTarget::Unset => after == before && status::reply_view(r) == Err::<(), _>(
            StatusView {
                code: Code::InvalidArgument,
                message: "seek requires either time or snapshot"@,
            },
        ),
        SeekTarget::Time(ts) => sought::<K>(
            before,
            after,
            service::time_target(before.rows, name, convert::ms_of(ts) as i64),
            status::reply_view(r),
        ),
        SeekTarget::Snapshot(snap) => sought::<K>(
            before,
            after,
            service::snapshot_target(before.rows, name, snap@),
            status::reply_view(r),
        ),
    }
}

/// The subscriber service.
#[derive(Debug)]
pub struct SubscriberService {
    /// How long a stream may stay open.
    pub streaming_pull_max_lifetime_secs: u64,
}

impl SubscriberService {
    /// A subscriber service.
    pub fn new(streaming_pull_max_lifetime_secs: u64) -> (r: Self)
        ensures
            r.streaming_pull_max_lifetime_secs == streaming_pull_max_lifetime_secs,
    {
        SubscriberService { streaming_pull_max_lifetime_secs }
    }

    /// `CreateSubscription`
    pub fn create_subscription<K: KvStore, C: Clock>(
        &self,
        svc: &mut PubSubService<K, C>,
        request: Subscription,
    ) -> (r: Result<Subscription, Status>)
        ensures
            final(svc).clock == old(svc).clock,
            exists|now_ms: i64| #[trigger]
                old(svc).clock.tells(now_ms) && subscription_created::<K>(
                    old(svc)@,
                    final(svc)@,
                    request,
                    now_ms,
                    r,
                ),
    {
        let opts = messages::create_options_from_proto(&request);
        let outcome = svc.create_subscription(
            request.name.as_str(),
            request.topic.as_str(),
            opts,
        );
        shown_subscription(outcome)
    }

    /// `GetSubscription`
    pub fn get_subscription<K: KvStore, C: Clock>(
        &self,
        svc: &PubSubService<K, C>,
        name: &str,
    ) -> (r: Result<Subscription, Status>)
        ensures
            subscription_got(svc@.rows, name@, r),
    {
        shown_subscription(svc.get_subscription(name))
    }

    /// `UpdateSubscription`: fails when the update names a field that cannot change.
    pub fn update_subscription<K: KvStore, C: Clock>(
        &self,
        svc: &mut PubSubService<K, C>,
        request: UpdateSubscriptionRequest,
    ) -> (r: Result<Subscription, Status>)
        ensures
            final(svc)@ == (ServiceView { rows: final(svc)@.rows, ..old(svc)@ }),
            final(svc).clock == old(svc).clock,
            subscription_updated::<K>(old(svc)@.rows, final(svc)@.rows, request, r),
    {
        let sub = match request.subscription {
            Some(sub) => sub,
            None => {
                return Err(Status::invalid_argument("subscription is required"));
            },
        };
        if let Some(field) = immutable_in(&request.paths) {
            return Err(
                to_status(
                    error::invalid(field, text::cat2(field, " is immutable after creation")),
                ),
            );
        }
        let patch = patch_of(&sub, &request.paths);
        let outcome = svc.update_subscription(sub.name.as_str(), patch);
        shown_subscription(outcome)
    }

    /// `ListSubscriptions`
    pub fn list_subscriptions<K: KvStore, C: Clock>(
        &self,
        svc: &PubSubService<K, C>,
        project: &str,
        page_size: i32,
        page_token: &str,
    ) -> (r: Result<SubscriptionsPage, Status>)
        ensures
            ({
                let names = subscription::project_names(
                    svc@.rows,
                    publisher::project_wanted(project@),
                );
                let size = publisher::page_size_wanted(page_size);
                let token = publisher::token_wanted(page_token@);
                status::reply_view(r) == status::reply(
                    subscription::subscriptions_named(
                        svc@.rows,
                        listing::page::<String>(names, size, token),
                    ),
                    |found: Seq<SubscriptionView>|
                        (
                            subscription_messages(found),
                            publisher::token_shown(
                                listing::next_token::<String>(names, size, token),
                            ),
                        ),
                )
            }),
    {
        let project_id = strip_projects_prefix(project);
        match svc.list_subscriptions(
            project_id.as_str(),
            page_size_of(page_size),
            token_of(page_token),
        ) {
            Ok((records, next)) => Ok(
                SubscriptionsPage {
                    subscriptions: shown_subscriptions(&records),
                    next_page_token: token_text(next),
                },
            ),
            Err(e) => Err(to_status(e)),
        }
    }

    /// `DeleteSubscription`
    pub fn delete_subscription<K: KvStore, C: Clock>(
        &self,
        svc: &mut PubSubService<K, C>,
        name: &str,
    ) -> (r: Result<(), Status>)
        ensures
            final(svc)@ == (ServiceView { rows: final(svc)@.rows, ..old(svc)@ }),
            final(svc).clock == old(svc).clock,
            match subscription::subscription_named(old(svc)@.rows, name@) {
                Ok(found) => status::stored::<(), K, ()>(
                    old(svc)@.rows,
                    final(svc)@.rows,
                    None,
                    (),
                    subscription::delete_writes(found),
                    |u: ()| u,
                    status::reply_view(r),
                ),
                Err(e) => final(svc)@ == old(svc)@ && status::reply_view(r) == Err::<(), _>(
                    status::status_of(e),
                ),
            },
    {
        let outcome = svc.delete_subscription(name);
        done(outcome)
    }

    /// `ModifyAckDeadline`
    pub fn modify_ack_deadline<K: KvStore, C: Clock>(
        &self,
        svc: &mut PubSubService<K, C>,
        name: &str,
        ack_ids: Vec<String>,
        ack_deadline_seconds: i32,
    ) -> (r: Result<(), Status>)
        ensures
            final(svc).clock == old(svc).clock,
            exists|now_ms: i64| #[trigger]
                old(svc).clock.tells(now_ms) && status::served::<K, (), ()>(
                    old(svc)@,
                    final(svc)@,
                    service::modify_effect(
                        old(svc)@,
                        name@,
                        text::texts(ack_ids@),
                        ack_deadline_seconds,
                        now_ms,
                    ),
                    |u: ()| u,
                    status::reply_view(r),
                ),
    {
        let outcome = svc.modify_ack_deadline(name, ack_ids, ack_deadline_seconds);
        done(outcome)
    }

    /// `Acknowledge`
    pub fn acknowledge<K: KvStore, C: Clock>(
        &self,
        svc: &mut PubSubService<K, C>,
        name: &str,
        ack_ids: Vec<String>,
    ) -> (r: Result<(), Status>)
        ensures
            final(svc).clock == old(svc).clock,
            exists|now_ms: i64| #[trigger]
                old(svc).clock.tells(now_ms) && status::served::<K, (), ()>(
                    old(svc)@,
                    final(svc)@,
                    service::acknowledge_effect(
                        old(svc)@,
                        name@,
                        text::texts(ack_ids@),
                        now_ms,
                    ),
                    |u: ()| u,
                    status::reply_view(r),
                ),
    {
        let outcome = svc.acknowledge(name, ack_ids);
        done(outcome)
    }

    /// `Pull`, without the wait of a pull that finds nothing.
    pub fn pull<K: KvStore, C: Clock>(
        &self,
        svc: &mut PubSubService<K, C>,
        name: &str,
        max_messages: i32,
    ) -> (r: Result<Vec<ReceivedMessage>, Status>)
        ensures
            final(svc).clock == old(svc).clock,
            exists|now_ms: i64| #[trigger]
                old(svc).clock.tells(now_ms) && pulled::<K>(
                    old(svc)@,
                    final(svc)@,
                    name@,
                    max_messages,
                    now_ms,
                    r,
                ),
            r matches Ok(received) ==> {
                let sub = subscription::subscription_named(old(svc)@.rows, name@);
                &&& sub is Ok
                &&& messages::received_are_out(
                    final(svc)@.engine.leases,
                    sub->Ok_0.id,
                    listing::views(received@),
                )
            },
    {
        let ghost sub = subscription::subscription_named(svc@.rows, name@);
        let wanted: i32 = if max_messages > 0 {
            max_messages
        } else {
            1
        };
        match svc.pull(name, wanted) {
            Ok(pulled) => {
                proof {
                    messages::lemma_received_are_out(
                        svc@.engine.leases,
                        sub->Ok_0.id,
                        listing::views(pulled@),
                    );
                }
                Ok(messages::received_messages(&pulled))
            },
            Err(e) => Err(to_status(e)),
        }
    }

    /// Whether a pull waits for a message and then tries once more: when it found nothing.
    pub fn waits(&self, first: &Result<Vec<ReceivedMessage>, Status>) -> (r: bool)
        ensures
            r == match *first {
                Ok(messages) => messages@.len() == 0,
                Err(_) => false,
            },
    {
        match first {
            Ok(messages) => messages.len() == 0,
            Err(_) => false,
        }
    }

    /// `ModifyPushConfig`: an empty endpoint, like no configuration, makes the subscription one
    /// for pull.
    pub fn modify_push_config<K: KvStore, C: Clock>(
        &self,
        svc: &mut PubSubService<K, C>,
        name: &str,
        push_config: Option<PushConfig>,
    ) -> (r: Result<(), Status>)
        ensures
            final(svc)@ == (ServiceView { rows: final(svc)@.rows, ..old(svc)@ }),
            final(svc).clock == old(svc).clock,
            push_config_set::<K>(old(svc)@.rows, final(svc)@.rows, name@, push_config, r),
    {
        let wanted = messages::push_config_from_proto(&push_config);
        let outcome = svc.modify_push_config(name, wanted);
        done(outcome)
    }

    /// `GetSnapshot`
    pub fn get_snapshot<K: KvStore, C: Clock>(&self, svc: &PubSubService<K, C>, name: &str) -> (r:
        Result<Snapshot, Status>)
        ensures
            snapshot_got(svc@.rows, name@, r),
    {
        shown_snapshot(svc.get_snapshot(name))
    }

    /// `ListSnapshots`
    pub fn list_snapshots<K: KvStore, C: Clock>(
        &self,
        svc: &PubSubService<K, C>,
        project: &str,
        page_size: i32,
        page_token: &str,
    ) -> (r: Result<SnapshotsPage, Status>)
        ensures
            status::reply_view(r) == status::reply(
                snapshot::project_snapshots(svc@.rows, publisher::project_wanted(project@)),
                |all: Seq<SnapshotView>| snapshots_page(all, page_size, page_token@),
            ),
    {
        let project_id = strip_projects_prefix(project);
        match svc.list_snapshots(
            project_id.as_str(),
            page_size_of(page_size),
            token_of(page_token),
        ) {
            Ok((records, next)) => Ok(
                SnapshotsPage {
                    snapshots: shown_snapshots(&records),
                    next_page_token: token_text(next),
                },
            ),
            Err(e) => Err(to_status(e)),
        }
    }

    /// `CreateSnapshot`
    pub fn create_snapshot<K: KvStore, C: Clock>(
        &self,
        svc: &mut PubSubService<K, C>,
        name: &str,
        subscription_name: &str,
        labels: StringMap,
    ) -> (r: Result<Snapshot, Status>)
        ensures
            final(svc).clock == old(svc).clock,
            exists|now_ms: i64| #[trigger]
                old(svc).clock.tells(now_ms) && snapshot_created::<K>(
                    old(svc)@,
                    final(svc)@,
                    name@,
                    subscription_name@,
                    labels@,
                    now_ms,
                    r,
                ),
    {
        let outcome = svc.create_snapshot(name, subscription_name, labels);
        shown_snapshot(outcome)
    }

    /// `UpdateSnapshot`: replaces the labels when the update names them or names nothing, and fails
    /// when it names what cannot change.
    pub fn update_snapshot<K: KvStore, C: Clock>(
        &self,
        svc: &mut PubSubService<K, C>,
        request: UpdateSnapshotRequest,
    ) -> (r: Result<Snapshot, Status>)
        ensures
            final(svc)@ == (ServiceView { rows: final(svc)@.rows, ..old(svc)@ }),
            final(svc).clock == old(svc).clock,
            snapshot_updated::<K>(old(svc)@.rows, final(svc)@.rows, request, r),
    {
        let snap = match request.snapshot {
            Some(snap) => snap,
            None => {
                return Err(Status::invalid_argument("snapshot is required"));
            },
        };
        if has_path(&request.paths, "name") || has_path(&request.paths, "topic") {
            return Err(
                to_status(
                    error::invalid(
                        "name/topic",
                        String::from_str("name and topic are immutable after creation"),
                    ),
                ),
            );
        }
        let outcome = if request.paths.len() == 0 || has_path(&request.paths, "labels") {
            svc.update_snapshot_labels(snap.name.as_str(), snap.labels)
        } else {
            svc.get_snapshot(snap.name.as_str())
        };
        shown_snapshot(outcome)
    }

    /// `DeleteSnapshot`
    pub fn delete_snapshot<K: KvStore, C: Clock>(
        &self,
        svc: &mut PubSubService<K, C>,
        name: &str,
    ) -> (r: Result<(), Status>)
        ensures
            final(svc)@ == (ServiceView { rows: final(svc)@.rows, ..old(svc)@ }),
            final(svc).clock == old(svc).clock,
            match snapshot::snapshot_id_of(old(svc)@.rows, name@) {
                Ok(id) => status::stored::<(), K, ()>(
                    old(svc)@.rows,
                    final(svc)@.rows,
                    None,
                    (),
                    snapshot::delete_writes(id, name@),
                    |u: ()| u,
                    status::reply_view(r),
                ),
                Err(e) => final(svc)@ == old(svc)@ && status::reply_view(r) == Err::<(), _>(
                    status::status_of(e),
                ),
            },
    {
        let outcome = svc.delete_snapshot(name);
        done(outcome)
    }

    /// `Seek`
    pub fn seek<K: KvStore, C: Clock>(
        &self,
        svc: &mut PubSubService<K, C>,
        name: &str,
        target: SeekTarget,
    ) -> (r: Result<(), Status>)
        ensures
            final(svc).clock == old(svc).clock,
            sought_to::<K>(old(svc)@, final(svc)@, name@, target, r),
    {
        let outcome = match target {
            SeekTarget::Unset => {
                return Err(Status::invalid_argument("seek requires either time or snapshot"));
            },
            SeekTarget::Time(ts) => svc.seek_to_time(name, convert::timestamp_to_ms(&ts)),
            SeekTarget::Snapshot(snap) => svc.seek_to_snapshot(name, snap.as_str()),
        };
        done(outcome)
    }
}

/// An update never changes a subscription's name, topic, ordering, filter, or whether it is
/// detached.
pub proof fn law_updates_keep_what_is_fixed(
    found: SubscriptionView,
    s: SubscriptionMessage,
    paths: Seq<Seq<char>>,
)
    ensures
        ({
            let after = subscription::patched(found, patch_wanted(s, paths));
            &&& after.id == found.id
            &&& after.name == found.name
            &&& after.topic == found.topic
            &&& after.topic_id == found.topic_id
            &&& after.enable_message_ordering == found.enable_message_ordering
            &&& after.filter == found.filter
            &&& after.detached == found.detached
        }),
{
}

/// An update that names nothing changes nothing.
pub proof fn law_empty_update_changes_nothing(
    found: SubscriptionView,
    s: SubscriptionMessage,
    paths: Seq<Seq<char>>,
)
    requires
        paths.len() == 0,
        subscription::threshold_has_topic(found),
    ensures
        subscription::patched(found, patch_wanted(s, paths)) == found,
        subscription::patch_error(patch_wanted(s, paths)) is None,
{
}

} // verus!
