//! The REST handlers.
//!
//! `POST .../{resource}:{verb}` arrives with the last segment in one piece, so the verb is split
//! off here. A verb is looked at before the body, so that an unknown one is answered as such
//! whatever the body holds.

use crate::clock::Clock;
use crate::encoding;
use crate::error;
use crate::error::invalid;
use crate::error::{Error, ErrorView};
use crate::grpc::messages;
use crate::grpc::messages::{
    PushConfig, ReceivedMessage, ReceivedView, Subscription, SubscriptionMessage, Topic,
    TopicMessage,
};
use crate::grpc::publisher;
use crate::grpc::subscriber;
use crate::listing;
use crate::rest::error::{RestError, RestErrorView};
use crate::service;
use crate::service::{Effect, PubSubService, PublishMessage, PulledView, ServiceView};
use crate::store::kv;
use crate::store::kv::{KvStore, Rows, Write};
use crate::string_map::StringMap;
use crate::subscription;
use crate::subscription::{SubscriptionRecord, SubscriptionView};
use crate::text;
use crate::topic;
use crate::topic::{NewMessage, TopicRecord, TopicView};
use vstd::prelude::*;
use vstd::string::*;

verus! {

/// The full name of a topic.
pub open spec fn topic_full_name(project: Seq<char>, topic: Seq<char>) -> Seq<char> {
    "projects/"@ + project + "/topics/"@ + topic
}

/// The full name of a topic.
pub fn topic_name(project: &str, topic: &str) -> (r: String)
    ensures
        r@ == topic_full_name(project@, topic@),
{
    text::cat4("projects/", project, "/topics/", topic)
}

/// The full name of a subscription.
pub open spec fn sub_full_name(project: Seq<char>, sub: Seq<char>) -> Seq<char> {
    "projects/"@ + project + "/subscriptions/"@ + sub
}

/// The full name of a subscription.
pub fn sub_name(project: &str, sub: &str) -> (r: String)
    ensures
        r@ == sub_full_name(project@, sub@),
{
    text::cat4("projects/", project, "/subscriptions/", sub)
}

/// `raw` is `id:verb`, split at its first colon, or `id` alone where there is none.
pub open spec fn is_split(raw: Seq<char>, id: Seq<char>, verb: Option<Seq<char>>) -> bool {
    &&& !id.contains(':')
    &&& match verb {
        Some(v) => raw == id + seq![':'] + v,
        None => raw == id,
    }
}

/// A segment can be split in one way only.
pub proof fn law_split_is_unique(
    raw: Seq<char>,
    id: Seq<char>,
    verb: Option<Seq<char>>,
    other_id: Seq<char>,
    other_verb: Option<Seq<char>>,
)
    requires
        is_split(raw, id, verb),
        is_split(raw, other_id, other_verb),
    ensures
        id == other_id,
        verb == other_verb,
{
    if verb is Some {
        assert(raw[id.len() as int] == ':');
    }
    if other_verb is Some {
        assert(raw[other_id.len() as int] == ':');
    }
    if id.len() < other_id.len() {
        if verb is Some {
            assert(raw[id.len() as int] == other_id[id.len() as int]);
        }
    } else if other_id.len() < id.len() {
        if other_verb is Some {
            assert(raw[other_id.len() as int] == id[other_id.len() as int]);
        }
    }
    assert(id.len() == other_id.len());
    assert(id =~= raw.take(id.len() as int));
    assert(other_id =~= raw.take(id.len() as int));
    if verb is Some {
        assert(verb->0 =~= raw.skip((id.len() + 1) as int));
    }
    if other_verb is Some {
        assert(other_verb->0 =~= raw.skip((id.len() + 1) as int));
    }
}

/// Splits a verb off a path segment, at the first colon.
pub fn split_verb(raw: &str) -> (r: (String, Option<String>))
    ensures
        is_split(raw@, r.0@, topic::opt_text(r.1)),
{
    let chars = text::chars_of(raw);
    let mut i: usize = 0;
    while i < chars.len()
        invariant
            i <= chars.len(),
            chars@ == raw@,
            forall|j: int| 0 <= j < i ==> chars@[j] != ':',
        decreases chars.len() - i,
    {
        if chars[i] == ':' {
            let id = text::text_of(&chars, 0, i);
            let verb = text::text_of(&chars, i + 1, chars.len());
            assert(raw@ =~= id@ + seq![':'] + verb@);
            return (id, Some(verb));
        }
        i = i + 1;
    }
    (String::from_str(raw), None)
}

/// The methods of subscriptions.
#[derive(Debug, Clone, Copy, PartialEq, Eq, Structural)]
pub enum SubscriptionMethod {
    /// `:pull`
    Pull,
    /// `:acknowledge`
    Acknowledge,
    /// `:modifyAckDeadline`
    ModifyAckDeadline,
    /// `:modifyPushConfig`
    ModifyPushConfig,
}

/// The method with this verb, if there is one.
pub open spec fn method_of(verb: Option<Seq<char>>) -> Option<SubscriptionMethod> {
    match verb {
        Some(v) => if v == "pull"@ {
            Some(SubscriptionMethod::Pull)
        } else if v == "acknowledge"@ {
            Some(SubscriptionMethod::Acknowledge)
        } else if v == "modifyAckDeadline"@ {
            Some(SubscriptionMethod::ModifyAckDeadline)
        } else if v == "modifyPushConfig"@ {
            Some(SubscriptionMethod::ModifyPushConfig)
        } else {
            None
        },
        None => None,
    }
}

/// The error for a resource that has no such method.
pub open spec fn no_such_method(raw: Seq<char>) -> RestErrorView {
    RestErrorView::Unimplemented {
        message: "no such method on this resource: "@ + text::debug_text(raw),
    }
}

fn no_method(raw: &str) -> (r: RestError)
    ensures
        r@ == no_such_method(raw@),
{
    RestError::Unimplemented {
        message: text::cat2("no such method on this resource: ", text::quoted(raw).as_str()),
    }
}

/// Which topic a `POST` publishes to. Publishing is the only method of topics.
pub fn topic_post(project: &str, topic_and_verb: &str) -> (r: Result<String, RestError>)
    ensures
        exists|id: Seq<char>, verb: Option<Seq<char>>| #[trigger]
            is_split(topic_and_verb@, id, verb) && if verb == Some("publish"@) {
                r is Ok && r->Ok_0@ == topic_full_name(project@, id)
            } else {
                r is Err && r->Err_0@ == no_such_method(topic_and_verb@)
            },
{
    let (id, verb) = split_verb(topic_and_verb);
    assert(is_split(topic_and_verb@, id@, topic::opt_text(verb)));
    let publishes = match &verb {
        Some(v) => text::str_equal(v.as_str(), "publish"),
        None => false,
    };
    if publishes {
        Ok(topic_name(project, id.as_str()))
    } else {
        Err(no_method(topic_and_verb))
    }
}

/// Which method of which subscription a `POST` calls.
pub fn subscription_post(project: &str, sub_and_verb: &str) -> (r: Result<
    (SubscriptionMethod, String),
    RestError,
>)
    ensures
        exists|id: Seq<char>, verb: Option<Seq<char>>| #[trigger]
            is_split(sub_and_verb@, id, verb) && match method_of(verb) {
                Some(method) => r is Ok && (r->Ok_0).0 == method && (r->Ok_0).1@ == sub_full_name(
                    project@,
                    id,
                ),
                None => r is Err && r->Err_0@ == no_such_method(sub_and_verb@),
            },
{
    let (id, verb) = split_verb(sub_and_verb);
    assert(is_split(sub_and_verb@, id@, topic::opt_text(verb)));
    let method = match &verb {
        Some(v) => if text::str_equal(v.as_str(), "pull") {
            Some(SubscriptionMethod::Pull)
        } else if text::str_equal(v.as_str(), "acknowledge") {
            Some(SubscriptionMethod::Acknowledge)
        } else if text::str_equal(v.as_str(), "modifyAckDeadline") {
            Some(SubscriptionMethod::ModifyAckDeadline)
        } else if text::str_equal(v.as_str(), "modifyPushConfig") {
            Some(SubscriptionMethod::ModifyPushConfig)
        } else {
            None
        },
        None => None,
    };
    assert(method == method_of(topic::opt_text(verb)));
    match method {
        Some(method) => Ok((method, sub_name(project, id.as_str()))),
        None => Err(no_method(sub_and_verb)),
    }
}

/// The error for a body that cannot be read.
pub fn bad_body(message: String) -> (r: RestError)
    ensures
        r@ == RestErrorView::Domain(error::invalid_argument("body"@, message@)),
{
    RestError::Domain(invalid("body", message))
}

/// The error for a body that is not JSON.
pub fn bad_json(why: &str) -> (r: RestError)
    ensures
        r@ == RestErrorView::Domain(
            error::invalid_argument("body"@, "invalid JSON: "@ + why@),
        ),
{
    bad_body(text::cat2("invalid JSON: ", why))
}

/// What is shown for what an operation returned.
pub open spec fn shown<A, B>(outcome: Result<A, ErrorView>, wire: spec_fn(A) -> B) -> Result<
    B,
    ErrorView,
> {
    match outcome {
        Ok(v) => Ok(wire(v)),
        Err(e) => Err(e),
    }
}

/// The operation changed the store as [`kv::stored`] says, and `r` is what is shown for what it
/// returned.
pub open spec fn stored<T: View, K: KvStore, B>(
    before: Rows,
    after: Rows,
    failure: Option<ErrorView>,
    value: T::V,
    writes: Seq<Write>,
    wire: spec_fn(T::V) -> B,
    r: Result<B, ErrorView>,
) -> bool {
    exists|outcome: Result<T, Error>| #[trigger]
        kv::stored::<T, K>(outcome, before, after, failure, value, writes) && r == shown(
            error::result_view(outcome),
            wire,
        )
}

/// The operation came to `effect`, and `r` is what is shown for what it returned.
pub open spec fn served<K: KvStore, A, B>(
    before: ServiceView,
    after: ServiceView,
    effect: Effect<A>,
    wire: spec_fn(A) -> B,
    r: Result<B, ErrorView>,
) -> bool {
    exists|outcome: Result<A, ErrorView>| #[trigger]
        service::performed::<K, A>(before, after, effect, outcome) && r == shown(outcome, wire)
}

/// The body of `PUT .../topics/{topic}`.
#[derive(Debug)]
pub struct CreateTopicBody {
    /// Labels.
    pub labels: StringMap,
}

/// A page of topics.
#[derive(Debug)]
pub struct ListTopicsResponseBody {
    /// The topics.
    pub topics: Vec<Topic>,
    /// The token for the next page; empty on the last one.
    pub next_page_token: String,
}

impl View for ListTopicsResponseBody {
    type V = (Seq<TopicMessage>, Seq<char>);

    open spec fn view(&self) -> (Seq<TopicMessage>, Seq<char>) {
        (listing::views(self.topics@), self.next_page_token@)
    }
}

/// The body of `POST .../topics/{topic}:publish`.
#[derive(Debug)]
pub struct PublishBody {
    /// The messages.
    pub messages: Vec<PublishMessageBody>,
}

/// A message to publish.
#[derive(Debug)]
pub struct PublishMessageBody {
    /// The data, in Base64.
    pub data: String,
    /// Attributes.
    pub attributes: StringMap,
    /// Ordering key.
    pub ordering_key: String,
}

/// The answer to a publish.
#[derive(Debug)]
pub struct PublishResponseBody {
    /// The ids of the messages.
    pub message_ids: Vec<String>,
}

impl View for PublishResponseBody {
    type V = Seq<Seq<char>>;

    open spec fn view(&self) -> Seq<Seq<char>> {
        text::texts(self.message_ids@)
    }
}

/// The body of `PUT .../subscriptions/{sub}`: a subscription, whose name comes from the path.
#[derive(Debug)]
pub struct CreateSubscriptionBody {
    /// The subscription.
    pub subscription: Subscription,
}

/// A page of subscriptions.
#[derive(Debug)]
pub struct ListSubscriptionsResponseBody {
    /// The subscriptions.
    pub subscriptions: Vec<Subscription>,
    /// The token for the next page; empty on the last one.
    pub next_page_token: String,
}

impl View for ListSubscriptionsResponseBody {
    type V = (Seq<SubscriptionMessage>, Seq<char>);

    open spec fn view(&self) -> (Seq<SubscriptionMessage>, Seq<char>) {
        (listing::views(self.subscriptions@), self.next_page_token@)
    }
}

/// The body of `POST .../subscriptions/{sub}:pull`.
#[derive(Debug)]
pub struct PullBody {
    /// How many messages at most.
    pub max_messages: i32,
}

/// The answer to a pull.
#[derive(Debug)]
pub struct PullResponseBody {
    /// The messages.
    pub received_messages: Vec<ReceivedMessage>,
}

impl View for PullResponseBody {
    type V = Seq<ReceivedView>;

    open spec fn view(&self) -> Seq<ReceivedView> {
        listing::views(self.received_messages@)
    }
}

/// The body of `POST .../subscriptions/{sub}:acknowledge`.
#[derive(Debug)]
pub struct AckIdsBody {
    /// What is acknowledged.
    pub ack_ids: Vec<String>,
}

/// The body of `POST .../subscriptions/{sub}:modifyAckDeadline`.
#[derive(Debug)]
pub struct ModifyAckDeadlineBody {
    /// Whose deadlines change.
    pub ack_ids: Vec<String>,
    /// The new deadline.
    pub ack_deadline_seconds: i32,
}

/// The body of `POST .../subscriptions/{sub}:modifyPushConfig`.
#[derive(Debug)]
pub struct ModifyPushConfigBody {
    /// The new configuration; none makes the subscription one for pull.
    pub push_config: Option<PushConfig>,
}

fn shown_topic(r: Result<TopicRecord, Error>) -> (s: Result<Topic, Error>)
    ensures
        error::result_view(s) == shown(
            error::result_view(r),
            |t: TopicView| messages::topic_message(t),
        ),
{
    match r {
        Ok(record) => Ok(messages::topic_to_proto(&record)),
        Err(e) => Err(e),
    }
}

fn shown_subscription(r: Result<SubscriptionRecord, Error>) -> (s: Result<Subscription, Error>)
    ensures
        error::result_view(s) == shown(
            error::result_view(r),
            |s: SubscriptionView| messages::subscription_message(s),
        ),
{
    match r {
        Ok(record) => Ok(messages::subscription_to_proto(&record)),
        Err(e) => Err(e),
    }
}

/// Creating a topic came to `r`.
pub open spec fn topic_created<K: KvStore>(
    before: Rows,
    after: Rows,
    project: Seq<char>,
    topic: Seq<char>,
    body: Option<CreateTopicBody>,
    r: Result<Topic, Error>,
) -> bool {
    let name = topic_full_name(project, topic);
    let new = topic::new_topic(
        before,
        name,
        match body {
            Some(b) => b.labels@,
            None => Seq::empty(),
        },
        None,
        None,
    );
    stored::<TopicRecord, K, TopicMessage>(
        before,
        after,
        topic::create_error(before, name, None, false, false),
        new,
        topic::create_writes(new),
        |t: TopicView| messages::topic_message(t),
        error::result_view(r),
    )
}

/// Publishing messages, as far as they can be decoded, came to `r`.
pub open spec fn published<K: KvStore>(
    before: ServiceView,
    after: ServiceView,
    topic: Seq<char>,
    body: PublishBody,
    disk_bytes: u64,
    now_ms: i64,
    r: Result<PublishResponseBody, Error>,
) -> bool {
    decoded(body.messages@, body.messages@.len() as int) matches Ok(batch) && service::performed::<
        K,
        Seq<Seq<char>>,
    >(
        before,
        after,
        service::publish_effect(before, topic, batch, disk_bytes, now_ms),
        error::result_view(r),
    )
}

/// Pulling messages came to `r`.
pub open spec fn pulled<K: KvStore>(
    before: ServiceView,
    after: ServiceView,
    name: Seq<char>,
    max_messages: i32,
    now_ms: i64,
    r: Result<PullResponseBody, Error>,
) -> bool {
    served::<K, Seq<PulledView>, Seq<ReceivedView>>(
        before,
        after,
        service::pull_effect(before, name, max_messages, now_ms),
        |m: Seq<PulledView>| messages::all_received(m),
        error::result_view(r),
    )
}

/// Creating a subscription came to `r`.
pub open spec fn subscription_created<K: KvStore>(
    before: ServiceView,
    after: ServiceView,
    project: Seq<char>,
    sub: Seq<char>,
    request: Subscription,
    now_ms: i64,
    r: Result<Subscription, Error>,
) -> bool {
    served::<K, SubscriptionView, SubscriptionMessage>(
        before,
        after,
        service::create_subscription_effect(
            before,
            sub_full_name(project, sub),
            request.topic@,
            messages::options_wanted(request@),
            now_ms,
        ),
        |s: SubscriptionView| messages::subscription_message(s),
        error::result_view(r),
    )
}

/// Getting a subscription came to `r`.
pub open spec fn subscription_got(
    rows: Rows,
    project: Seq<char>,
    sub: Seq<char>,
    r: Result<Subscription, Error>,
) -> bool {
    error::result_view(r) == shown(
        subscription::subscription_named(rows, sub_full_name(project, sub)),
        |s: SubscriptionView| messages::subscription_message(s),
    )
}

/// `PUT .../topics/{topic}`
pub fn create_topic<K: KvStore, C: Clock>(
    svc: &mut PubSubService<K, C>,
    project: &str,
    topic: &str,
    body: Option<CreateTopicBody>,
) -> (r: Result<Topic, Error>)
    ensures
        final(svc)@ == (ServiceView { rows: final(svc)@.rows, ..old(svc)@ }),
        final(svc).clock == old(svc).clock,
        topic_created::<K>(old(svc)@.rows, final(svc)@.rows, project@, topic@, body, r),
{
    let labels = match body {
        Some(b) => b.labels,
        None => StringMap::new(),
    };
    let name = topic_name(project, topic);
    let outcome = svc.create_topic(name.as_str(), labels);
    shown_topic(outcome)
}

/// `GET .../topics/{topic}`
pub fn get_topic<K: KvStore, C: Clock>(
    svc: &PubSubService<K, C>,
    project: &str,
    topic: &str,
) -> (r: Result<Topic, Error>)
    ensures
        error::result_view(r) == shown(
            topic::topic_named(svc@.rows, topic_full_name(project@, topic@)),
            |t: TopicView| messages::topic_message(t),
        ),
{
    let name = topic_name(project, topic);
    shown_topic(svc.get_topic(name.as_str()))
}

/// `GET .../topics`: the first page, of up to a hundred topics.
pub fn list_topics<K: KvStore, C: Clock>(svc: &PubSubService<K, C>, project: &str) -> (r: Result<
    ListTopicsResponseBody,
    Error,
>)
    ensures
        error::result_view(r) == shown(
            topic::project_topics(svc@.rows, project@),
            |all: Seq<TopicView>|
                (
                    publisher::topic_messages(listing::page::<TopicRecord>(all, 100, None)),
                    publisher::token_shown(listing::next_token::<TopicRecord>(all, 100, None)),
                ),
        ),
{
    match svc.list_topics(project, 100, None) {
        Ok((records, next)) => Ok(
            ListTopicsResponseBody {
                topics: publisher::shown_topics(&records),
                next_page_token: publisher::token_text(next),
            },
        ),
        Err(e) => Err(e),
    }
}

/// `DELETE .../topics/{topic}`
pub fn delete_topic<K: KvStore, C: Clock>(
    svc: &mut PubSubService<K, C>,
    project: &str,
    topic: &str,
) -> (r: Result<(), Error>)
    ensures
        final(svc).clock == old(svc).clock,
        service::performed::<K, ()>(
            old(svc)@,
            final(svc)@,
            service::delete_topic_effect(old(svc)@, topic_full_name(project@, topic@)),
            error::result_view(r),
        ),
{
    let name = topic_name(project, topic);
    svc.delete_topic(name.as_str())
}

/// The first `n` messages of a body, or the error for the first that is not Base64.
pub open spec fn decoded(messages: Seq<PublishMessageBody>, n: int) -> Result<
    Seq<NewMessage>,
    ErrorView,
>
    decreases n,
{
    if n <= 0 {
        Ok(Seq::empty())
    } else {
        match decoded(messages, n - 1) {
            Err(e) => Err(e),
            Ok(before) => match encoding::base64_decoded(messages[n - 1].data@) {
                Ok(data) => Ok(
                    before.push(
                        NewMessage {
                            payload: data,
                            attributes: messages[n - 1].attributes@,
                            ordering_key: messages[n - 1].ordering_key@,
                        },
                    ),
                ),
                Err(why) => Err(error::invalid_argument("data"@, "invalid base64: "@ + why)),
            },
        }
    }
}

proof fn lemma_decoded_error(messages: Seq<PublishMessageBody>, n: int, m: int)
    requires
        n <= m,
        decoded(messages, n) is Err,
    ensures
        decoded(messages, m) == decoded(messages, n),
    decreases m - n,
{
    if n < m {
        lemma_decoded_error(messages, n, m - 1);
    }
}

/// The messages of a body, with their data decoded. The first whose data is not Base64 is an error.
pub fn decode_messages(body: PublishBody) -> (r: Result<Vec<PublishMessage>, Error>)
    ensures
        match r {
            Ok(v) => decoded(body.messages@, body.messages@.len() as int) == Ok::<
                Seq<NewMessage>,
                ErrorView,
            >(listing::views(v@)),
            Err(e) => decoded(body.messages@, body.messages@.len() as int) == Err::<
                Seq<NewMessage>,
                ErrorView,
            >(e@),
        },
{
    let mut out: Vec<PublishMessage> = Vec::new();
    let mut i: usize = 0;
    assert(listing::views(out@) =~= Seq::<NewMessage>::empty());
    while i < body.messages.len()
        invariant
            i <= body.messages.len(),
            decoded(body.messages@, i as int) == Ok::<Seq<NewMessage>, ErrorView>(
                listing::views(out@),
            ),
        decreases body.messages.len() - i,
    {
        match encoding::base64_decode(body.messages[i].data.as_str()) {
            Ok(data) => {
                let ghost before = out@;
                let m = PublishMessage {
                    data,
                    attributes: body.messages[i].attributes.clone(),
                    ordering_key: body.messages[i].ordering_key.clone(),
                };
                let ghost new = m@;
                out.push(m);
                assert(listing::views(out@) =~= listing::views(before).push(new));
            },
            Err(why) => {
                proof {
                    lemma_decoded_error(body.messages@, i + 1, body.messages@.len() as int);
                }
                return Err(invalid("data", text::cat2("invalid base64: ", why.as_str())));
            },
        }
        i = i + 1;
    }
    Ok(out)
}

/// `POST .../topics/{topic}:publish`, to the topic with this full name.
pub fn publish<K: KvStore, C: Clock>(
    svc: &mut PubSubService<K, C>,
    full_name: &str,
    body: PublishBody,
) -> (r: Result<PublishResponseBody, Error>)
    ensures
        final(svc).clock == old(svc).clock,
        match decoded(body.messages@, body.messages@.len() as int) {
            Err(e) => r is Err && r->Err_0@ == e && final(svc)@ == old(svc)@,
            Ok(_) => exists|disk_bytes: u64, now_ms: i64|
                #![trigger old(svc).kv.may_take(disk_bytes), old(svc).clock.tells(now_ms)]
                {
                    &&& old(svc).kv.may_take(disk_bytes)
                    &&& old(svc).clock.tells(now_ms)
                    &&& published::<K>(
                        old(svc)@,
                        final(svc)@,
                        full_name@,
                        body,
                        disk_bytes,
                        now_ms,
                        r,
                    )
                },
        },
{
    let messages = match decode_messages(body) {
        Ok(messages) => messages,
        Err(e) => {
            return Err(e);
        },
    };
    match svc.publish(full_name, messages) {
        Ok(message_ids) => Ok(PublishResponseBody { message_ids }),
        Err(e) => Err(e),
    }
}

/// `PUT .../subscriptions/{sub}`: the subscription is created as by gRPC, under the name in the
/// path.
pub fn create_subscription<K: KvStore, C: Clock>(
    svc: &mut PubSubService<K, C>,
    project: &str,
    sub: &str,
    body: CreateSubscriptionBody,
) -> (r: Result<Subscription, Error>)
    ensures
        final(svc).clock == old(svc).clock,
        exists|now_ms: i64| #[trigger]
            old(svc).clock.tells(now_ms) && subscription_created::<K>(
                old(svc)@,
                final(svc)@,
                project@,
                sub@,
                body.subscription,
                now_ms,
                r,
            ),
{
    let opts = messages::create_options_from_proto(&body.subscription);
    let name = sub_name(project, sub);
    let outcome = svc.create_subscription(name.as_str(), body.subscription.topic.as_str(), opts);
    shown_subscription(outcome)
}

/// `GET .../subscriptions/{sub}`
pub fn get_subscription<K: KvStore, C: Clock>(
    svc: &PubSubService<K, C>,
    project: &str,
    sub: &str,
) -> (r: Result<Subscription, Error>)
    ensures
        subscription_got(svc@.rows, project@, sub@, r),
{
    let name = sub_name(project, sub);
    shown_subscription(svc.get_subscription(name.as_str()))
}

/// `GET .../subscriptions`: the first page, of up to a hundred subscriptions.
pub fn list_subscriptions<K: KvStore, C: Clock>(svc: &PubSubService<K, C>, project: &str) -> (r:
    Result<ListSubscriptionsResponseBody, Error>)
    ensures
        ({
            let names = subscription::project_names(svc@.rows, project@);
            error::result_view(r) == shown(
                subscription::subscriptions_named(
                    svc@.rows,
                    listing::page::<String>(names, 100, None),
                ),
                |found: Seq<SubscriptionView>|
                    (
                        subscriber::subscription_messages(found),
                        publisher::token_shown(listing::next_token::<String>(names, 100, None)),
                    ),
            )
        }),
{
    match svc.list_subscriptions(project, 100, None) {
        Ok((records, next)) => Ok(
            ListSubscriptionsResponseBody {
                subscriptions: subscriber::shown_subscriptions(&records),
                next_page_token: publisher::token_text(next),
            },
        ),
        Err(e) => Err(e),
    }
}

/// `DELETE .../subscriptions/{sub}`
pub fn delete_subscription<K: KvStore, C: Clock>(
    svc: &mut PubSubService<K, C>,
    project: &str,
    sub: &str,
) -> (r: Result<(), Error>)
    ensures
        final(svc)@ == (ServiceView { rows: final(svc)@.rows, ..old(svc)@ }),
        final(svc).clock == old(svc).clock,
        match subscription::subscription_named(
            old(svc)@.rows,
            sub_full_name(project@, sub@),
        ) {
            Ok(found) => kv::stored::<(), K>(
                r,
                old(svc)@.rows,
                final(svc)@.rows,
                None,
                (),
                subscription::delete_writes(found),
            ),
            Err(e) => r is Err && r->Err_0@ == e && final(svc)@ == old(svc)@,
        },
{
    let name = sub_name(project, sub);
    svc.delete_subscription(name.as_str())
}

/// `POST .../subscriptions/{sub}:pull`. A body that cannot be read, like one that does not say how
/// many messages, asks for one. Never waits.
pub fn pull<K: KvStore, C: Clock>(
    svc: &mut PubSubService<K, C>,
    full_name: &str,
    body: Option<PullBody>,
) -> (r: Result<PullResponseBody, Error>)
    ensures
        final(svc).clock == old(svc).clock,
        ({
            let max_messages = match body {
                Some(b) => subscriber::pull_size(b.max_messages),
                None => 1,
            };
            exists|now_ms: i64| #[trigger]
                old(svc).clock.tells(now_ms) && pulled::<K>(
                    old(svc)@,
                    final(svc)@,
                    full_name@,
                    max_messages,
                    now_ms,
                    r,
                )
        }),
        r matches Ok(reply) ==> {
            let sub = subscription::subscription_named(old(svc)@.rows, full_name@);
            &&& sub is Ok
            &&& messages::received_are_out(final(svc)@.engine.leases, sub->Ok_0.id, reply@)
        },
{
    let ghost sub = subscription::subscription_named(svc@.rows, full_name@);
    let max_messages: i32 = match body {
        Some(b) => if b.max_messages > 0 {
            b.max_messages
        } else {
            1
        },
        None => 1,
    };
    match svc.pull(full_name, max_messages) {
        Ok(pulled) => {
            proof {
                messages::lemma_received_are_out(
                    svc@.engine.leases,
                    sub->Ok_0.id,
                    listing::views(pulled@),
                );
            }
            Ok(PullResponseBody { received_messages: messages::received_messages(&pulled) })
        },
        Err(e) => Err(e),
    }
}

/// `POST .../subscriptions/{sub}:acknowledge`. A body that cannot be read acknowledges nothing.
pub fn acknowledge<K: KvStore, C: Clock>(
    svc: &mut PubSubService<K, C>,
    full_name: &str,
    body: Option<AckIdsBody>,
) -> (r: Result<(), Error>)
    ensures
        final(svc).clock == old(svc).clock,
        ({
            let ack_ids = match body {
                Some(b) => text::texts(b.ack_ids@),
                None => Seq::empty(),
            };
            exists|now_ms: i64| #[trigger]
                old(svc).clock.tells(now_ms) && service::performed::<K, ()>(
                    old(svc)@,
                    final(svc)@,
                    service::acknowledge_effect(old(svc)@, full_name@, ack_ids, now_ms),
                    error::result_view(r),
                )
        }),
{
    let ack_ids = match body {
        Some(b) => b.ack_ids,
        None => Vec::new(),
    };
    proof {
        if body is None {
            assert(text::texts(ack_ids@) =~= Seq::<Seq<char>>::empty());
        }
    }
    svc.acknowledge(full_name, ack_ids)
}

/// `POST .../subscriptions/{sub}:modifyAckDeadline`
pub fn modify_ack_deadline<K: KvStore, C: Clock>(
    svc: &mut PubSubService<K, C>,
    full_name: &str,
    body: ModifyAckDeadlineBody,
) -> (r: Result<(), Error>)
    ensures
        final(svc).clock == old(svc).clock,
        exists|now_ms: i64| #[trigger]
            old(svc).clock.tells(now_ms) && service::performed::<K, ()>(
                old(svc)@,
                final(svc)@,
                service::modify_effect(
                    old(svc)@,
                    full_name@,
                    text::texts(body.ack_ids@),
                    body.ack_deadline_seconds,
                    now_ms,
                ),
                error::result_view(r),
            ),
{
    svc.modify_ack_deadline(full_name, body.ack_ids, body.ack_deadline_seconds)
}

/// `POST .../subscriptions/{sub}:modifyPushConfig`
pub fn modify_push_config<K: KvStore, C: Clock>(
    svc: &mut PubSubService<K, C>,
    full_name: &str,
    body: ModifyPushConfigBody,
) -> (r: Result<(), Error>)
    ensures
        final(svc)@ == (ServiceView { rows: final(svc)@.rows, ..old(svc)@ }),
        final(svc).clock == old(svc).clock,
        match subscription::subscription_named(old(svc)@.rows, full_name@) {
            Ok(found) => kv::stored::<(), K>(
                r,
                old(svc)@.rows,
                final(svc)@.rows,
                None,
                (),
                subscription::persist_writes(
                    SubscriptionView {
                        push_config: messages::push_wanted(messages::opt_push(body.push_config)),
                        ..found
                    },
                ),
            ),
            Err(e) => r is Err && r->Err_0@ == e && final(svc)@ == old(svc)@,
        },
{
    let wanted = messages::push_config_from_proto(&body.push_config);
    svc.modify_push_config(full_name, wanted)
}

/// What is published over REST as the Base64 of some bytes is published as these bytes.
pub proof fn law_rest_publishes_the_data(messages: Seq<PublishMessageBody>, n: int, data: Seq<u8>)
    requires
        0 < n <= messages.len(),
        decoded(messages, n) is Ok,
        encoding::base64_decoded(messages[n - 1].data@) matches Ok(d) && d == data,
    ensures
        (decoded(messages, n)->Ok_0)[n - 1].payload == data,
        (decoded(messages, n)->Ok_0).len() == n,
{
    lemma_decoded_len(messages, n);
}

proof fn lemma_decoded_len(messages: Seq<PublishMessageBody>, n: int)
    requires
        0 <= n,
        decoded(messages, n) is Ok,
    ensures
        (decoded(messages, n)->Ok_0).len() == n,
        n > 0 ==> decoded(messages, n - 1) is Ok && (decoded(messages, n - 1)->Ok_0).len() == n - 1,
    decreases n,
{
    if n > 0 {
        lemma_decoded_len(messages, n - 1);
    }
}

} // verus!
