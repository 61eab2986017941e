//! Topics are what clients make of them.

use crate::error;
use crate::error::{Error, ErrorView};
use crate::grpc::messages;
use crate::grpc::messages::Topic;
use crate::grpc::publisher;
use crate::grpc::publisher::UpdateTopicRequest;
use crate::grpc::status;
use crate::grpc::status::Status;
use crate::guarantees::subscriptions;
use crate::laws as service_laws;
use crate::name_index;
use crate::rest::handlers;
use crate::rest::handlers::CreateTopicBody;
use crate::service;
use crate::service::ServiceView;
use crate::store::keys;
use crate::store::keys::NameKind;
use crate::store::kv;
use crate::store::kv::{KvStore, Rows};
use crate::subscription;
use crate::text;
use crate::topic;
use crate::topic::{TopicRecord, TopicView};
use crate::topic_index;
use vstd::prelude::*;

verus! {

/// What is shown of a new topic is what was asked for. The key name is not told.
pub open spec fn is_as_requested(shown: Topic, request: Topic) -> bool {
    &&& shown.name@ == request.name@
    &&& shown.labels@ == request.labels@
    &&& match request.message_retention_duration {
        Some(d) => subscriptions::is_secs(shown.message_retention_duration, d.seconds),
        None => shown.message_retention_duration is None,
    }
    &&& shown.kms_key_name@.len() == 0
    &&& shown.state == messages::State::Active
}

/// A topic that is created is what was asked for: the reply shows it, and so does getting it.
pub proof fn law_created_topic_is_as_requested<K: KvStore>(
    before: Rows,
    after: Rows,
    request: Topic,
    r: Result<Topic, Status>,
    got: Result<Topic, Status>,
)
    requires
        publisher::topic_created::<K>(before, after, request, r),
        r is Ok,
        publisher::topic_got(after, request.name@, got),
    ensures
        !request.has_schema_settings,
        !request.has_ingestion_data_source_settings,
        is_as_requested(r->Ok_0, request),
        got is Ok,
        is_as_requested(got->Ok_0, request),
{
    let retention = messages::opt_secs(request.message_retention_duration);
    let kms = publisher::kms_wanted(request.kms_key_name@);
    let new = topic::new_topic(before, request.name@, request.labels@, retention, kms);
    let failure = topic::create_error(
        before,
        request.name@,
        retention,
        request.has_schema_settings,
        request.has_ingestion_data_source_settings,
    );
    let made = choose|outcome: Result<TopicRecord, Error>| #[trigger]
        kv::stored::<TopicRecord, K>(
            outcome,
            before,
            after,
            failure,
            new,
            topic::create_writes(new),
        ) && status::reply_view(r) == status::reply(
            error::result_view(outcome),
            |t: TopicView| messages::topic_message(t),
        );
    assert(made is Ok);
    assert(failure is None);
    service_laws::law_created_topic_is_found(
        before,
        request.name@,
        request.labels@,
        retention,
        kms,
    );
    reveal_strlit("");
    assert((r->Ok_0)@ == messages::topic_message(new));
    assert((got->Ok_0)@ == messages::topic_message(new));
}

/// A topic can be created exactly if its name is that of a topic and is not taken, its retention is
/// in range, and no settings are asked for that are not supported.
pub proof fn law_topics_can_be_created(rows: Rows, request: Topic)
    requires
        request.name@ != "_deleted-topic_"@,
    ensures
        ({
            let e = topic::create_error(
                rows,
                request.name@,
                messages::opt_secs(request.message_retention_duration),
                request.has_schema_settings,
                request.has_ingestion_data_source_settings,
            );
            let taken = rows.contains_key(
                ("meta"@, keys::name_key_bytes(NameKind::Topic, request.name@)),
            );
            &&& e is None <==> {
                &&& crate::guarantees::bounds::is_name(request.name@, "topics"@)
                &&& !taken
                &&& request.message_retention_duration matches Some(d) ==> 600 <= d.seconds
                    <= 2_678_400
                &&& !request.has_schema_settings
                &&& !request.has_ingestion_data_source_settings
            }
            &&& e matches Some(e) ==> e is InvalidArgument || (e is AlreadyExists && taken)
        }),
{
    reveal_strlit("topics");
    crate::guarantees::bounds::law_names(request.name@, "topics"@);
}

/// What is shown of a topic after an update: the labels and the retention are as the request gives
/// them where the update names them, and as they were where it does not.
pub open spec fn is_updated(
    shown: Topic,
    was: Topic,
    request: Topic,
    paths: Seq<String>,
) -> bool {
    &&& shown.name@ == was.name@
    &&& shown.labels@ == if subscriptions::names(paths, "labels"@) {
        request.labels@
    } else {
        was.labels@
    }
    &&& if subscriptions::names(paths, "message_retention_duration"@) {
        match request.message_retention_duration {
            Some(d) => subscriptions::is_secs(shown.message_retention_duration, d.seconds),
            None => shown.message_retention_duration is None,
        }
    } else {
        shown.message_retention_duration == was.message_retention_duration
    }
}

/// After an update of a topic succeeds, each field that the update names has the value that the request
/// gives, and every other has the value from before; the reply shows this, and so does getting the
/// topic.
pub proof fn law_update_sets_what_it_names<K: KvStore>(
    before: Rows,
    after: Rows,
    update: UpdateTopicRequest,
    was: Result<Topic, Status>,
    r: Result<Topic, Status>,
    got: Result<Topic, Status>,
)
    requires
        name_index::well_kept(before),
        update.topic is Some,
        publisher::topic_got(before, update.topic->0.name@, was),
        was is Ok,
        publisher::topic_updated::<K>(before, after, update, r),
        r is Ok,
        publisher::topic_got(after, update.topic->0.name@, got),
    ensures
        is_updated(r->Ok_0, was->Ok_0, update.topic->0, update.paths@),
        got is Ok,
        is_updated(got->Ok_0, was->Ok_0, update.topic->0, update.paths@),
{
    let request = update.topic->0;
    let paths = update.paths@;
    name_index::law_found_has_the_name(before, request.name@);
    let found = topic::topic_named(before, request.name@)->Ok_0;
    let all = text::texts(paths);
    let retention = if publisher::names_path(all, "message_retention_duration"@) {
        Some(messages::opt_secs(request.message_retention_duration))
    } else {
        None
    };
    let labels = if publisher::names_path(all, "labels"@) {
        Some(request.labels@)
    } else {
        None
    };
    let kms = if publisher::names_path(all, "kms_key_name"@) {
        Some(publisher::kms_wanted(request.kms_key_name@))
    } else {
        None
    };
    let new = topic::updated_topic(found, labels, retention, kms);
    let failure = topic::update_error(before, request.name@, retention);
    let made = choose|outcome: Result<TopicRecord, Error>| #[trigger]
        kv::stored::<TopicRecord, K>(
            outcome,
            before,
            after,
            failure,
            new,
            topic::update_writes(new),
        ) && status::reply_view(r) == status::reply(
            error::result_view(outcome),
            |t: TopicView| messages::topic_message(t),
        );
    assert(made is Ok);
    subscriptions::lemma_names(paths, "labels"@);
    subscriptions::lemma_names(paths, "message_retention_duration"@);
    let key = keys::name_key_bytes(NameKind::Topic, request.name@);
    let writes = topic::update_writes(new);
    keys::law_kinds_of_keys_differ(new.id, new.id, NameKind::Topic, request.name@);
    keys::law_be64_round_trip(new.id, keys::be64(new.id));
    kv::law_last_write_is_read(before, writes, 0, "meta"@, keys::topic_key_bytes(new.id));
    kv::law_spared_row_stays(before, writes, "meta"@, key);
    assert(topic::topic_named(after, request.name@) == Ok::<TopicView, ErrorView>(new));
    assert((r->Ok_0)@ == messages::topic_message(new));
    assert((got->Ok_0)@ == messages::topic_message(new));
    assert((was->Ok_0)@ == messages::topic_message(found));
}

/// Publishing wakes exactly the subscriptions of the topic.
pub proof fn law_publishing_wakes_the_subscriptions(
    s: ServiceView,
    topic_name: Seq<char>,
    batch: Seq<crate::topic::NewMessage>,
    disk_bytes: u64,
    now_ms: i64,
    sub_id: u64,
)
    requires
        service::publish_effect(s, topic_name, batch, disk_bytes, now_ms).outcome is Ok,
        topic_index::agrees(s.rows),
        s.engine.wakeups.len() == 0,
        ({
            let t = topic::topic_named(s.rows, topic_name)->Ok_0;
            let publish = service::publish_effect(s, topic_name, batch, disk_bytes, now_ms);
            kv::has_scan(kv::after_writes(s.rows, publish.writes), "idx"@, keys::be64(t.id))
        }),
    ensures
        ({
            let t = topic::topic_named(s.rows, topic_name)->Ok_0;
            let publish = service::publish_effect(s, topic_name, batch, disk_bytes, now_ms);
            publish.engine.wakeups.contains(sub_id) <==> topic_index::belongs(
                kv::after_writes(s.rows, publish.writes),
                t.id,
                sub_id,
            )
        }),
{
    let t = topic::topic_named(s.rows, topic_name)->Ok_0;
    let publish = service::publish_effect(s, topic_name, batch, disk_bytes, now_ms);
    let after = kv::after_writes(s.rows, publish.writes);
    topic_index::law_publishing_keeps_agreement(
        s.rows,
        t.id,
        topic::tail_of(s.rows, t.id),
        batch,
        now_ms,
        topic::expiry(
            now_ms,
            crate::delivery::engine::effective_retention(t.message_retention_secs),
        ),
    );
    topic_index::law_listed_subscriptions_belong(after, t.id, sub_id);
    assert(publish.engine.wakeups =~= subscription::attached_ids(after, t.id));
}

/// Deleting a topic removes it: it is not found, and each of its subscriptions names the sentinel in
/// its place, is detached, and cannot be pulled from any more.
pub proof fn law_deleted_topic_leaves_its_subscriptions(
    s: ServiceView,
    name: Seq<char>,
    sub_id: u64,
    subscription_name: Seq<char>,
    max_messages: i32,
    now_ms: i64,
)
    requires
        service::delete_topic_effect(s, name).outcome is Ok,
        topic_index::agrees(s.rows),
        ({
            let t = topic::topic_named(s.rows, name)->Ok_0;
            let after = service::resulting(s, service::delete_topic_effect(s, name));
            &&& kv::has_scan(s.rows, "idx"@, keys::be64(t.id))
            &&& topic_index::belongs(s.rows, t.id, sub_id)
            &&& subscription::subscription_named(after.rows, subscription_name) matches Ok(found)
            &&& found.id == sub_id
            &&& subscription::stored_subscription(after.rows, sub_id, Seq::empty()) == Ok::<
                subscription::SubscriptionView,
                ErrorView,
            >(found)
        }),
        max_messages <= 1000,
    ensures
        ({
            let after = service::resulting(s, service::delete_topic_effect(s, name));
            let found = subscription::subscription_named(after.rows, subscription_name)->Ok_0;
            let pull = service::pull_effect(after, subscription_name, max_messages, now_ms);
            &&& topic::topic_named(after.rows, name) == Err::<TopicView, ErrorView>(
                ErrorView::NotFound { resource: name },
            )
            &&& found.topic == "_deleted-topic_"@
            &&& pull.outcome is Err
            &&& pull.outcome->Err_0 is FailedPrecondition
        }),
{
    let t = topic::topic_named(s.rows, name)->Ok_0;
    let ids = subscription::attached_ids(s.rows, t.id);
    topic_index::law_listed_subscriptions_belong(s.rows, t.id, sub_id);
    let i = choose|i: int| 0 <= i < ids.len() && ids[i] == sub_id;
    assert forall|id: u64| #[trigger] service_laws::stored_under_own_id(s.rows, id) by {
        assert(topic_index::record_at(s.rows, id) is Some ==> (topic_index::record_at(
            s.rows,
            id,
        )->0).id == id);
    }
    service_laws::law_deleting_topic_detaches(s, name, i);
    let effect = service::delete_topic_effect(s, name);
    let after = service::resulting(s, effect);
    assert(effect.note =~= Seq::empty());
    assert(after.rows == kv::after_writes(s.rows, effect.writes));
}

/// A topic that is created by REST has the name of its path and the labels of the body, and is found
/// under its name.
pub proof fn law_topic_created_by_rest_is_as_requested<K: KvStore>(
    before: Rows,
    after: Rows,
    project: Seq<char>,
    id: Seq<char>,
    body: Option<CreateTopicBody>,
    r: Result<Topic, Error>,
)
    requires
        handlers::topic_created::<K>(before, after, project, id, body, r),
        r is Ok,
    ensures
        ({
            let name = "projects/"@ + project + "/topics/"@ + id;
            let found = topic::topic_named(after, name);
            &&& (r->Ok_0).name@ == name
            &&& body is None ==> (r->Ok_0).labels@.len() == 0
            &&& body is Some ==> (r->Ok_0).labels@ == body->0.labels@
            &&& (r->Ok_0).message_retention_duration is None
            &&& found is Ok
            &&& (found->Ok_0).name == name
            &&& (found->Ok_0).labels == (r->Ok_0).labels@
        }),
{
    let name = handlers::topic_full_name(project, id);
    let labels = match body {
        Some(b) => b.labels@,
        None => Seq::empty(),
    };
    let new = topic::new_topic(before, name, labels, None, None);
    let made = choose|outcome: Result<TopicRecord, Error>| #[trigger]
        kv::stored::<TopicRecord, K>(
            outcome,
            before,
            after,
            topic::create_error(before, name, None, false, false),
            new,
            topic::create_writes(new),
        ) && error::result_view(r) == handlers::shown(
            error::result_view(outcome),
            |t: TopicView| messages::topic_message(t),
        );
    assert(made is Ok);
    service_laws::law_created_topic_is_found(before, name, labels, None, None);
    assert((r->Ok_0)@ == messages::topic_message(new));
}

} // verus!
