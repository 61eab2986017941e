//! `google.pubsub.v1.Publisher`.

use crate::clock::Clock;
use crate::error;
use crate::error::Error;
use crate::grpc::messages;
use crate::grpc::messages::{Topic, TopicMessage};
use crate::grpc::status;
use crate::grpc::status::{to_status, Code, Status, StatusView};
use crate::listing;
use crate::service;
use crate::service::{PubSubService, PublishMessage, ServiceView};
use crate::store::kv::{KvStore, Rows};
use crate::subscription;
use crate::subscription::SubscriptionView;
use crate::text;
use crate::topic;
use crate::topic::{TopicRecord, TopicView};
use vstd::prelude::*;
use vstd::string::*;

verus! {

/// The size of a page for a client that does not say.
pub const DEFAULT_PAGE_SIZE: usize = 100;

/// The size of the page that a client asks for.
pub open spec fn page_size_wanted(page_size: i32) -> nat {
    if page_size > 0 {
        page_size as nat
    } else {
        100
    }
}

/// The size of the page that a client asks for.
pub fn page_size_of(page_size: i32) -> (r: usize)
    ensures
        r == page_size_wanted(page_size),
{
    if page_size > 0 {
        page_size as usize
    } else {
        DEFAULT_PAGE_SIZE
    }
}

/// The page token that a client gives; an empty one is none.
pub open spec fn token_wanted(page_token: Seq<char>) -> Option<Seq<char>> {
    if page_token.len() == 0 {
        None
    } else {
        Some(page_token)
    }
}

/// The page token that a client gives; an empty one is none.
pub fn token_of(page_token: &str) -> (r: Option<&str>)
    ensures
        listing::opt_str(r) == token_wanted(page_token@),
{
    if page_token.is_empty() {
        None
    } else {
        Some(page_token)
    }
}

/// The text of the next page token; empty where there is none.
pub open spec fn token_shown(token: Option<Seq<char>>) -> Seq<char> {
    match token {
        Some(t) => t,
        None => ""@,
    }
}

/// The text of the next page token; empty where there is none.
pub fn token_text(token: Option<String>) -> (r: String)
    ensures
        r@ == token_shown(listing::opt_string(token)),
{
    match token {
        Some(t) => t,
        None => String::from_str(""),
    }
}

/// The project's id, of which clients give the full name.
pub open spec fn project_wanted(project: Seq<char>) -> Seq<char> {
    if text::has_prefix(project, "projects/"@) {
        project.skip("projects/"@.len() as int)
    } else {
        project
    }
}

/// The project's id, of which clients give the full name.
pub fn strip_projects_prefix(project: &str) -> (r: String)
    ensures
        r@ == project_wanted(project@),
{
    match text::strip_prefix(project, "projects/") {
        Some(id) => id,
        None => String::from_str(project),
    }
}

/// An update names this path.
pub open spec fn names_path(paths: Seq<Seq<char>>, path: Seq<char>) -> bool {
    paths.contains(path)
}

/// Whether an update names a path.
pub fn has_path(paths: &Vec<String>, path: &str) -> (r: bool)
    ensures
        r == names_path(text::texts(paths@), path@),
{
    let ghost all = text::texts(paths@);
    let mut i: usize = 0;
    while i < paths.len()
        invariant
            i <= paths.len(),
            all == text::texts(paths@),
            forall|j: int| 0 <= j < i ==> #[trigger] all[j] != path@,
        decreases paths.len() - i,
    {
        assert(all[i as int] == paths@[i as int]@);
        if text::str_equal(paths[i].as_str(), path) {
            return true;
        }
        i = i + 1;
    }
    false
}

/// A request to change a topic.
#[derive(Debug)]
pub struct UpdateTopicRequest {
    /// The topic with its new values.
    pub topic: Option<Topic>,
    /// Which of them to take.
    pub paths: Vec<String>,
}

/// A page of topics.
#[derive(Debug)]
pub struct TopicsPage {
    /// The topics.
    pub topics: Vec<Topic>,
    /// The token for the next page; empty on the last one.
    pub next_page_token: String,
}

impl View for TopicsPage {
    type V = (Seq<TopicMessage>, Seq<char>);

    open spec fn view(&self) -> (Seq<TopicMessage>, Seq<char>) {
        (listing::views(self.topics@), self.next_page_token@)
    }
}

/// The reply to a request for names.
pub open spec fn names_reply(r: Result<Vec<String>, Status>) -> Result<
    Seq<Seq<char>>,
    StatusView,
> {
    match r {
        Ok(v) => Ok(text::texts(v@)),
        Err(s) => Err(s@),
    }
}

/// Topics as clients see them.
pub open spec fn topic_messages(topics: Seq<TopicView>) -> Seq<TopicMessage> {
    topics.map_values(|t: TopicView| messages::topic_message(t))
}

/// The page of topics that a client gets.
pub open spec fn topics_page(
    all: Seq<TopicView>,
    page_size: i32,
    page_token: Seq<char>,
) -> (Seq<TopicMessage>, Seq<char>) {
    let size = page_size_wanted(page_size);
    let token = token_wanted(page_token);
    (
        topic_messages(listing::page::<TopicRecord>(all, size, token)),
        token_shown(listing::next_token::<TopicRecord>(all, size, token)),
    )
}

/// The key name that a client gives; an empty one is none.
pub open spec fn kms_wanted(kms_key_name: Seq<char>) -> Option<Seq<char>> {
    if kms_key_name.len() == 0 {
        None
    } else {
        Some(kms_key_name)
    }
}

fn kms_of(kms_key_name: &String) -> (r: Option<String>)
    ensures
        topic::opt_text(r) == kms_wanted(kms_key_name@),
{
    if kms_key_name.as_str().is_empty() {
        None
    } else {
        Some(kms_key_name.clone())
    }
}

/// Topics as clients see them.
pub fn shown_topics(records: &Vec<TopicRecord>) -> (r: Vec<Topic>)
    ensures
        listing::views(r@) == topic_messages(listing::views(records@)),
{
    let ghost all = listing::views(records@);
    let mut out: Vec<Topic> = Vec::new();
    let mut i: usize = 0;
    assert(listing::views(out@) =~= topic_messages(all.take(0)));
    while i < records.len()
        invariant
            i <= records.len(),
            all == listing::views(records@),
            listing::views(out@) == topic_messages(all.take(i as int)),
        decreases records.len() - i,
    {
        let ghost before = out@;
        let t = messages::topic_to_proto(&records[i]);
        let ghost shown = t@;
        out.push(t);
        assert(all[i as int] == records@[i as int]@);
        assert(listing::views(out@) =~= listing::views(before).push(shown));
        assert(topic_messages(all.take(i + 1)) =~= topic_messages(all.take(i as int)).push(shown));
        i = i + 1;
    }
    assert(all.take(i as int) =~= all);
    out
}

fn shown_topic(r: Result<TopicRecord, Error>) -> (shown: Result<Topic, Status>)
    ensures
        status::reply_view(shown) == status::reply(
            error::result_view(r),
            |t: TopicView| messages::topic_message(t),
        ),
{
    match r {
        Ok(record) => Ok(messages::topic_to_proto(&record)),
        Err(e) => Err(to_status(e)),
    }
}

/// Creating a topic came to the reply `r`.
pub open spec fn topic_created<K: KvStore>(
    before: Rows,
    after: Rows,
    request: Topic,
    r: Result<Topic, Status>,
) -> bool {
    let retention = messages::opt_secs(request.message_retention_duration);
    let new = topic::new_topic(
        before,
        request.name@,
        request.labels@,
        retention,
        kms_wanted(request.kms_key_name@),
    );
    status::stored::<TopicRecord, K, TopicMessage>(
        before,
        after,
        topic::create_error(
            before,
            request.name@,
            retention,
            request.has_schema_settings,
            request.has_ingestion_data_source_settings,
        ),
        new,
        topic::create_writes(new),
        |t: TopicView| messages::topic_message(t),
        status::reply_view(r),
    )
}

/// Changing a topic came to the reply `r`.
pub open spec fn topic_updated<K: KvStore>(
    before: Rows,
    after: Rows,
    request: UpdateTopicRequest,
    r: Result<Topic, Status>,
) -> bool {
    match request.topic {
        None => after == before && status::reply_view(r) == Err::<TopicMessage, _>(
            StatusView { code: Code::InvalidArgument, message: "topic is required"@ },
        ),
        Some(t) => {
            let paths = text::texts(request.paths@);
            let retention = if names_path(paths, "message_retention_duration"@) {
                Some(messages::opt_secs(t.message_retention_duration))
            } else {
                None
            };
            let new = topic::updated_topic(
                topic::topic_named(before, t.name@)->Ok_0,
                if names_path(paths, "labels"@) {
                    Some(t.labels@)
                } else {
                    None
                },
                retention,
                if names_path(paths, "kms_key_name"@) {
                    Some(kms_wanted(t.kms_key_name@))
                } else {
                    None
                },
            );
            status::stored::<TopicRecord, K, TopicMessage>(
                before,
                after,
                topic::update_error(before, t.name@, retention),
                new,
                topic::update_writes(new),
                |t: TopicView| messages::topic_message(t),
                status::reply_view(r),
            )
        },
    }
}

/// Getting a topic came to the reply `r`.
pub open spec fn topic_got(rows: Rows, name: Seq<char>, r: Result<Topic, Status>) -> bool {
    status::reply_view(r) == status::reply(
        topic::topic_named(rows, name),
        |t: TopicView| messages::topic_message(t),
    )
}

/// Publishing messages came to the reply `r`.
pub open spec fn published<K: KvStore>(
    before: ServiceView,
    after: ServiceView,
    topic: Seq<char>,
    messages: Seq<PublishMessage>,
    disk_bytes: u64,
    now_ms: i64,
    r: Result<Vec<String>, Status>,
) -> bool {
    status::served::<K, Seq<Seq<char>>, Seq<Seq<char>>>(
        before,
        after,
        service::publish_effect(before, topic, listing::views(messages), disk_bytes, now_ms),
        |ids: Seq<Seq<char>>| ids,
        names_reply(r),
    )
}

/// The publisher service.
#[derive(Debug)]
pub struct PublisherService;

impl PublisherService {
    /// A publisher service.
    pub fn new() -> Self {
        PublisherService
    }

    /// `CreateTopic`
    pub fn create_topic<K: KvStore, C: Clock>(
        &self,
        svc: &mut PubSubService<K, C>,
        request: Topic,
    ) -> (r: Result<Topic, Status>)
        ensures
            final(svc)@ == (ServiceView { rows: final(svc)@.rows, ..old(svc)@ }),
            final(svc).clock == old(svc).clock,
            topic_created::<K>(old(svc)@.rows, final(svc)@.rows, request, r),
    {
        let retention = messages::duration_secs(&request.message_retention_duration);
        let kms = kms_of(&request.kms_key_name);
        let outcome = svc.create_topic_full(
            request.name.as_str(),
            request.labels,
            retention,
            kms,
            request.has_schema_settings,
            request.has_ingestion_data_source_settings,
        );
        shown_topic(outcome)
    }

    /// `UpdateTopic`: takes over the labels, the retention and the key name that the update names.
    pub fn update_topic<K: KvStore, C: Clock>(
        &self,
        svc: &mut PubSubService<K, C>,
        request: UpdateTopicRequest,
    ) -> (r: Result<Topic, Status>)
        ensures
            final(svc)@ == (ServiceView { rows: final(svc)@.rows, ..old(svc)@ }),
            final(svc).clock == old(svc).clock,
            topic_updated::<K>(old(svc)@.rows, final(svc)@.rows, request, r),
    {
        let topic = match request.topic {
            Some(topic) => topic,
            None => {
                return Err(Status::invalid_argument("topic is required"));
            },
        };
        let labels = if has_path(&request.paths, "labels") {
            Some(topic.labels.clone())
        } else {
            None
        };
        let retention = if has_path(&request.paths, "message_retention_duration") {
            Some(messages::duration_secs(&topic.message_retention_duration))
        } else {
            None
        };
        let kms = if has_path(&request.paths, "kms_key_name") {
            Some(kms_of(&topic.kms_key_name))
        } else {
            None
        };
        let outcome = svc.update_topic_full(topic.name.as_str(), labels, retention, kms);
        shown_topic(outcome)
    }

    /// `Publish`
    pub fn publish<K: KvStore, C: Clock>(
        &self,
        svc: &mut PubSubService<K, C>,
        topic: &str,
        messages: Vec<PublishMessage>,
    ) -> (r: Result<Vec<String>, Status>)
        ensures
            final(svc).clock == old(svc).clock,
            exists|disk_bytes: u64, now_ms: i64|
                #![trigger old(svc).kv.may_take(disk_bytes), old(svc).clock.tells(now_ms)]
                {
                    &&& old(svc).kv.may_take(disk_bytes)
                    &&& old(svc).clock.tells(now_ms)
                    &&& published::<K>(
                        old(svc)@,
                        final(svc)@,
                        topic@,
                        messages@,
                        disk_bytes,
                        now_ms,
                        r,
                    )
                },
    {
        let outcome = svc.publish(topic, messages);
        match outcome {
            Ok(ids) => Ok(ids),
            Err(e) => Err(to_status(e)),
        }
    }

    /// `GetTopic`
    pub fn get_topic<K: KvStore, C: Clock>(&self, svc: &PubSubService<K, C>, topic: &str) -> (r:
        Result<Topic, Status>)
        ensures
            topic_got(svc@.rows, topic@, r),
    {
        shown_topic(svc.get_topic(topic))
    }

    /// `ListTopics`
    pub fn list_topics<K: KvStore, C: Clock>(
        &self,
        svc: &PubSubService<K, C>,
        project: &str,
        page_size: i32,
        page_token: &str,
    ) -> (r: Result<TopicsPage, Status>)
        ensures
            status::reply_view(r) == status::reply(
                topic::project_topics(svc@.rows, project_wanted(project@)),
                |all: Seq<TopicView>| topics_page(all, page_size, page_token@),
            ),
    {
        let project_id = strip_projects_prefix(project);
        match svc.list_topics(project_id.as_str(), page_size_of(page_size), token_of(page_token)) {
            Ok((records, next)) => Ok(
                TopicsPage { topics: shown_topics(&records), next_page_token: token_text(next) },
            ),
            Err(e) => Err(to_status(e)),
        }
    }

    /// `ListTopicSubscriptions`
    pub fn list_topic_subscriptions<K: KvStore, C: Clock>(
        &self,
        svc: &PubSubService<K, C>,
        topic: &str,
    ) -> (r: Result<Vec<String>, Status>)
        ensures
            names_reply(r) == status::reply(
                service::topic_subscriptions(svc@.rows, topic@),
                |names: Seq<Seq<char>>| names,
            ),
    {
        match svc.list_topic_subscriptions(topic) {
            Ok(names) => Ok(names),
            Err(e) => Err(to_status(e)),
        }
    }

    /// `ListTopicSnapshots`: fails when there is no such topic.
    pub fn list_topic_snapshots<K: KvStore, C: Clock>(
        &self,
        svc: &PubSubService<K, C>,
        topic: &str,
    ) -> (r: Result<Vec<String>, Status>)
        ensures
            names_reply(r) == match topic::topic_named(svc@.rows, topic@) {
                Err(e) => Err(status::status_of(e)),
                Ok(_) => status::reply(
                    service::topic_snapshots(svc@.rows, topic@),
                    |names: Seq<Seq<char>>| names,
                ),
            },
    {
        match svc.get_topic(topic) {
            Ok(_) => {},
            Err(e) => {
                return Err(to_status(e));
            },
        }
        match svc.list_topic_snapshots(topic) {
            Ok(names) => Ok(names),
            Err(e) => Err(to_status(e)),
        }
    }

    /// `DeleteTopic`
    pub fn delete_topic<K: KvStore, C: Clock>(
        &self,
        svc: &mut PubSubService<K, C>,
        topic: &str,
    ) -> (r: Result<(), Status>)
        ensures
            final(svc).clock == old(svc).clock,
            status::served::<K, (), ()>(
                old(svc)@,
                final(svc)@,
                service::delete_topic_effect(old(svc)@, topic@),
                |u: ()| u,
                status::reply_view(r),
            ),
    {
        let outcome = svc.delete_topic(topic);
        match outcome {
            Ok(_) => Ok(()),
            Err(e) => Err(to_status(e)),
        }
    }

    /// `DetachSubscription`
    pub fn detach_subscription<K: KvStore, C: Clock>(
        &self,
        svc: &mut PubSubService<K, C>,
        name: &str,
    ) -> (r: Result<(), Status>)
        ensures
            final(svc)@ == (ServiceView { rows: final(svc)@.rows, ..old(svc)@ }),
            final(svc).clock == old(svc).clock,
            match subscription::subscription_named(old(svc)@.rows, name@) {
                Ok(found) => status::stored::<(), K, ()>(
                    old(svc)@.rows,
                    final(svc)@.rows,
                    None,
                    (),
                    subscription::persist_writes(SubscriptionView { detached: true, ..found }),
                    |u: ()| u,
                    status::reply_view(r),
                ),
                Err(e) => final(svc)@ == old(svc)@ && status::reply_view(r) == Err::<(), _>(
                    status::status_of(e),
                ),
            },
    {
        let outcome = svc.detach_subscription(name);
        match outcome {
            Ok(_) => Ok(()),
            Err(e) => Err(to_status(e)),
        }
    }
}

} // verus!
