//! Which requests are accepted.

use crate::grpc::messages;
use crate::grpc::messages::Subscription;
use crate::grpc::publisher;
use crate::grpc::subscriber;
use crate::guarantees::subscriptions;
use crate::limits;
use crate::names;
use crate::service;
use crate::service::ServiceView;
use crate::string_map::Entries;
use crate::subscription;
use crate::text;
use crate::topic;
use crate::topic::NewMessage;
use vstd::prelude::*;
use vstd::utf8::*;

verus! {

/// The bytes of the first `n` attributes.
pub open spec fn bytes_of(attributes: Entries, n: nat) -> nat
    decreases n,
{
    if n == 0 {
        0
    } else {
        bytes_of(attributes, (n - 1) as nat) + encode_utf8(attributes[n - 1].0).len() + encode_utf8(
            attributes[n - 1].1,
        ).len()
    }
}

/// The bytes of the data and the attributes of the first `n` messages.
pub open spec fn bytes_of_batch(batch: Seq<NewMessage>, n: nat) -> nat
    decreases n,
{
    if n == 0 {
        0
    } else {
        bytes_of_batch(batch, (n - 1) as nat) + batch[n - 1].payload.len() + bytes_of(
            batch[n - 1].attributes,
            batch[n - 1].attributes.len(),
        )
    }
}

/// An attribute can be published: its key has up to 256 bytes and does not start with `goog`, and its
/// value has up to 1024.
pub open spec fn attribute_fits(key: Seq<char>, value: Seq<char>) -> bool {
    &&& encode_utf8(key).len() <= 256
    &&& encode_utf8(value).len() <= 1024
    &&& !(key.len() >= 4 && key[0] == 'g' && key[1] == 'o' && key[2] == 'o' && key[3] == 'g')
}

/// A message can be published: up to 100 attributes, all of which can, up to 10 MiB of data and
/// attributes, and an ordering key of up to 1024 bytes.
pub open spec fn message_fits(m: NewMessage) -> bool {
    &&& m.attributes.len() <= 100
    &&& forall|i: int|
        0 <= i < m.attributes.len() ==> attribute_fits(
            (#[trigger] m.attributes[i]).0,
            m.attributes[i].1,
        )
    &&& m.payload.len() + bytes_of(m.attributes, m.attributes.len()) <= 10_485_760
    &&& encode_utf8(m.ordering_key).len() <= 1024
}

proof fn lemma_attributes_bytes(attributes: Entries, n: nat)
    requires
        n <= attributes.len(),
    ensures
        limits::attributes_bytes(attributes.take(n as int)) == bytes_of(attributes, n),
    decreases n,
{
    if n > 0 {
        lemma_attributes_bytes(attributes, (n - 1) as nat);
        assert(attributes.take(n as int).drop_last() =~= attributes.take(n - 1));
    }
}

proof fn lemma_attribute(key: Seq<char>, value: Seq<char>)
    ensures
        limits::attribute_error(key, value) is None <==> attribute_fits(key, value),
        limits::attribute_error(key, value) matches Some(e) ==> e is InvalidArgument,
{
    reveal_strlit("goog");
    let word = "goog"@;
    if text::has_prefix(key, word) {
        let start = key.take(4);
        assert(start[0] == word[0] && start[1] == word[1] && start[2] == word[2] && start[3]
            == word[3]);
        assert(start[0] == key[0] && start[1] == key[1] && start[2] == key[2] && start[3]
            == key[3]);
    } else if key.len() >= 4 && key[0] == 'g' && key[1] == 'o' && key[2] == 'o' && key[3] == 'g' {
        assert(key.take(4) =~= word);
    }
}

proof fn lemma_attributes(attributes: Entries, from: int)
    requires
        0 <= from <= attributes.len(),
    ensures
        limits::first_attribute_error(attributes, from) is None <==> forall|i: int|
            from <= i < attributes.len() ==> attribute_fits(
                (#[trigger] attributes[i]).0,
                attributes[i].1,
            ),
        limits::first_attribute_error(attributes, from) matches Some(e) ==> e is InvalidArgument,
    decreases attributes.len() - from,
{
    if from < attributes.len() {
        lemma_attribute(attributes[from].0, attributes[from].1);
        lemma_attributes(attributes, from + 1);
    }
}

proof fn lemma_message(m: NewMessage)
    ensures
        limits::message_error(m.payload.len(), m.attributes, m.ordering_key) is None
            <==> message_fits(m),
        limits::message_error(m.payload.len(), m.attributes, m.ordering_key) matches Some(e)
            ==> e is InvalidArgument,
{
    lemma_attributes(m.attributes, 0);
    lemma_attributes_bytes(m.attributes, m.attributes.len());
    assert(m.attributes.take(m.attributes.len() as int) =~= m.attributes);
}

proof fn lemma_messages(batch: Seq<NewMessage>, from: int)
    requires
        0 <= from <= batch.len(),
    ensures
        topic::first_message_error(batch, from) is None <==> forall|i: int|
            from <= i < batch.len() ==> message_fits(#[trigger] batch[i]),
        topic::first_message_error(batch, from) matches Some(e) ==> e is InvalidArgument,
    decreases batch.len() - from,
{
    if from < batch.len() {
        lemma_message(batch[from]);
        lemma_messages(batch, from + 1);
    }
}

proof fn lemma_batch_bytes(batch: Seq<NewMessage>, n: nat)
    requires
        n <= batch.len(),
    ensures
        topic::batch_bytes(batch.take(n as int)) == bytes_of_batch(batch, n),
    decreases n,
{
    if n > 0 {
        let m = batch[n - 1];
        lemma_batch_bytes(batch, (n - 1) as nat);
        lemma_attributes_bytes(m.attributes, m.attributes.len());
        assert(m.attributes.take(m.attributes.len() as int) =~= m.attributes);
        assert(batch.take(n as int).drop_last() =~= batch.take(n - 1));
    }
}

/// A batch can be published exactly if every message can, there are up to 1000 of them, and all
/// together have up to 10 MiB of data and attributes. Any other is refused as invalid.
pub proof fn law_publishable_batches(batch: Seq<NewMessage>)
    ensures
        topic::append_error(batch) is None <==> {
            &&& batch.len() <= 1000
            &&& forall|i: int| 0 <= i < batch.len() ==> message_fits(#[trigger] batch[i])
            &&& bytes_of_batch(batch, batch.len()) <= 10_485_760
        },
        topic::append_error(batch) matches Some(e) ==> e is InvalidArgument,
{
    lemma_messages(batch, 0);
    lemma_batch_bytes(batch, batch.len());
    assert(batch.take(batch.len() as int) =~= batch);
}

/// Publishing to a topic succeeds exactly if the topic exists, the batch can be published, and the
/// store is below its limit, where it has one.
pub proof fn law_publishing_succeeds(
    s: ServiceView,
    topic_name: Seq<char>,
    batch: Seq<NewMessage>,
    disk_bytes: u64,
    now_ms: i64,
)
    ensures
        ({
            let r = service::publish_effect(s, topic_name, batch, disk_bytes, now_ms).outcome;
            let full = s.max_disk_bytes != 0 && disk_bytes >= s.max_disk_bytes;
            let t = topic::topic_named(s.rows, topic_name);
            &&& r is Ok <==> {
                &&& !full
                &&& t is Ok
                &&& batch.len() <= 1000
                &&& forall|i: int| 0 <= i < batch.len() ==> message_fits(#[trigger] batch[i])
                &&& bytes_of_batch(batch, batch.len()) <= 10_485_760
            }
            &&& full ==> r is Err && r->Err_0 is ResourceExhausted
            &&& !full && t is Err ==> r is Err && r->Err_0 == t->Err_0
            &&& !full && t is Ok && r is Err ==> r->Err_0 is InvalidArgument
        }),
{
    law_publishable_batches(batch);
}

/// A pull may ask for up to 1000 messages.
pub proof fn law_pull_sizes(s: ServiceView, name: Seq<char>, max_messages: i32, now_ms: i64)
    ensures
        max_messages > 1000 ==> {
            let r = service::pull_effect(s, name, max_messages, now_ms).outcome;
            r is Err && r->Err_0 is InvalidArgument
        },
        subscriber::pull_size(max_messages) == if max_messages > 0 {
            max_messages
        } else {
            1
        },
{
}

/// A pull from a subscription that is detached, or whose topic was deleted, fails; from one that does
/// not exist, too.
pub proof fn law_pulling_needs_a_topic(
    s: ServiceView,
    name: Seq<char>,
    max_messages: i32,
    now_ms: i64,
)
    requires
        max_messages <= 1000,
    ensures
        ({
            let r = service::pull_effect(s, name, max_messages, now_ms).outcome;
            match subscription::subscription_named(s.rows, name) {
                Err(e) => r is Err && r->Err_0 == e,
                Ok(sub) => sub.detached || sub.topic == "_deleted-topic_"@ ==> r is Err
                    && r->Err_0 is FailedPrecondition,
            }
        }),
{
}

/// A name is that of a resource of a kind: `projects/{project}/{kind}/{id}`, with an id of 3 to 255
/// letters, digits and `-_.~+%` that starts with a letter, but not with `goog`.
pub open spec fn is_name(name: Seq<char>, kind: Seq<char>) -> bool {
    exists|project: Seq<char>, id: Seq<char>| #[trigger] has_parts(name, kind, project, id)
}

/// See [`is_name`].
pub open spec fn has_parts(
    name: Seq<char>,
    kind: Seq<char>,
    project: Seq<char>,
    id: Seq<char>,
) -> bool {
    &&& name == "projects/"@ + project + "/"@ + kind + "/"@ + id
    &&& project.len() > 0
    &&& text::no_slash(project)
    &&& 3 <= id.len() <= 255
    &&& ('a' <= id[0] && id[0] <= 'z') || ('A' <= id[0] && id[0] <= 'Z')
    &&& forall|i: int|
        0 <= i < id.len() ==> {
            ||| 'a' <= #[trigger] id[i] && id[i] <= 'z'
            ||| 'A' <= id[i] && id[i] <= 'Z'
            ||| '0' <= id[i] && id[i] <= '9'
            ||| id[i] == '-'
            ||| id[i] == '_'
            ||| id[i] == '.'
            ||| id[i] == '~'
            ||| id[i] == '+'
            ||| id[i] == '%'
        }
    &&& !(id.len() >= 4 && id[0] == 'g' && id[1] == 'o' && id[2] == 'o' && id[3] == 'g')
}

proof fn lemma_id(id: Seq<char>, kind: Seq<char>, project: Seq<char>)
    requires
        project.len() > 0,
        text::no_slash(project),
    ensures
        names::id_error(id) is None <==> has_parts(
            names::full_name(project, kind, id),
            kind,
            project,
            id,
        ),
        names::id_error(id) matches Some(e) ==> e is InvalidArgument,
{
    reveal_strlit("goog");
    let word = "goog"@;
    if text::has_prefix(id, word) {
        let start = id.take(4);
        assert(start[0] == word[0] && start[1] == word[1] && start[2] == word[2] && start[3]
            == word[3]);
        assert(start[0] == id[0] && start[1] == id[1] && start[2] == id[2] && start[3] == id[3]);
    } else if id.len() >= 4 && id[0] == 'g' && id[1] == 'o' && id[2] == 'o' && id[3] == 'g' {
        assert(id.take(4) =~= word);
    }
    if names::id_error(id) is None {
        assert forall|i: int| 0 <= i < id.len() implies {
            ||| 'a' <= #[trigger] id[i] && id[i] <= 'z'
            ||| 'A' <= id[i] && id[i] <= 'Z'
            ||| '0' <= id[i] && id[i] <= '9'
            ||| id[i] == '-'
            ||| id[i] == '_'
            ||| id[i] == '.'
            ||| id[i] == '~'
            ||| id[i] == '+'
            ||| id[i] == '%'
        } by {
            assert(names::is_id_char(id[i]));
        }
    }
}

/// Names of a kind are accepted exactly if they are of the form that is asked for; others are refused
/// as invalid.
pub proof fn law_names(name: Seq<char>, kind: Seq<char>)
    requires
        text::no_slash(kind),
    ensures
        names::name_error(name, kind) is None <==> is_name(name, kind),
        names::name_error(name, kind) matches Some(e) ==> e is InvalidArgument,
{
    let parts = text::segments(name);
    if parts.len() == 4 && parts[1].len() > 0 {
        lemma_no_slash(name, 1);
        lemma_id(parts[3], kind, parts[1]);
    }
    if names::name_error(name, kind) is None {
        lemma_id(parts[3], kind, parts[1]);
        text::lemma_join_segments(name);
        lemma_four(parts);
        assert(names::full_name(parts[1], kind, parts[3]) == name);
        assert(has_parts(name, kind, parts[1], parts[3]));
    }
    if is_name(name, kind) {
        let (project, id) = choose|project: Seq<char>, id: Seq<char>| #[trigger]
            has_parts(name, kind, project, id);
        lemma_id(id, kind, project);
        names::law_full_name_round_trip(project, kind, id);
    }
}

proof fn lemma_four(p: Seq<Seq<char>>)
    requires
        p.len() == 4,
        p[0] == "projects"@,
    ensures
        text::join_segments(p) == "projects/"@ + p[1] + "/"@ + p[2] + "/"@ + p[3],
{
    reveal_strlit("projects/");
    reveal_strlit("projects");
    reveal_strlit("/");
    let p3 = p.drop_last();
    let p2 = p3.drop_last();
    let p1 = p2.drop_last();
    assert(text::join_segments(p1) == p[0]);
    let j2 = p[0].push('/') + p[1];
    let j3 = j2.push('/') + p[2];
    assert(text::join_segments(p2) == j2);
    assert(text::join_segments(p3) == j3);
    assert(j3.push('/') + p[3] =~= "projects/"@ + p[1] + "/"@ + p[2] + "/"@ + p[3]);
}

proof fn lemma_no_slash(s: Seq<char>, i: int)
    requires
        0 <= i < text::segments(s).len(),
    ensures
        text::no_slash(text::segments(s)[i]),
    decreases s.len(),
{
    if s.len() > 0 {
        let init = s.drop_last();
        let head = text::segments(init);
        text::lemma_join_segments(init);
        if s.last() == '/' {
            if i < head.len() {
                lemma_no_slash(init, i);
            }
        } else {
            if i < head.len() - 1 {
                lemma_no_slash(init, i);
            } else {
                lemma_no_slash(init, head.len() - 1);
                let last = text::segments(s)[i];
                assert(last == head.last().push(s.last()));
                assert forall|k: int| 0 <= k < last.len() implies #[trigger] last[k] != '/' by {
                    if k < last.len() - 1 {
                        assert(last[k] == head.last()[k]);
                    }
                }
            }
        }
    }
}

/// The names of topics, subscriptions and snapshots, and the mark in place of a deleted topic.
pub proof fn law_names_of_kinds(name: Seq<char>)
    ensures
        names::topic_name_error(name) is None <==> name == "_deleted-topic_"@ || is_name(
            name,
            "topics"@,
        ),
        names::subscription_name_error(name) is None <==> is_name(name, "subscriptions"@),
        names::snapshot_name_error(name) is None <==> is_name(name, "snapshots"@),
{
    reveal_strlit("topics");
    reveal_strlit("subscriptions");
    reveal_strlit("snapshots");
    law_names(name, "topics"@);
    law_names(name, "subscriptions"@);
    law_names(name, "snapshots"@);
}

/// The settings of a subscription are in range.
pub open spec fn settings_fit(request: Subscription) -> bool {
    &&& request.ack_deadline_seconds == 0 || 10 <= request.ack_deadline_seconds <= 600
    &&& request.message_retention_duration matches Some(d) ==> 600 <= d.seconds <= 604_800
    &&& request.filter@.len() <= 256
    &&& request.dead_letter_policy matches Some(p) ==> p.max_delivery_attempts == 0 || 5
        <= p.max_delivery_attempts <= 100
    &&& request.retry_policy matches Some(p) ==> {
        &&& p.minimum_backoff matches Some(d) ==> 0 <= d.seconds <= 600
        &&& p.maximum_backoff matches Some(d) ==> 0 <= d.seconds <= 600
    }
    &&& !request.has_bigquery_config
    &&& !request.has_cloud_storage_config
}

/// A subscription's settings are accepted exactly if they are in range: 10 to 600 seconds to
/// acknowledge, 10 minutes to 7 days of retention, a filter of up to 256 characters, 5 to 100
/// attempts, up to 600 seconds of backoff, and no export. Others are refused as invalid.
pub proof fn law_settings(request: Subscription)
    ensures
        subscription::options_error(messages::options_wanted(request@)) is None <==> settings_fit(
            request,
        ),
        subscription::options_error(messages::options_wanted(request@)) matches Some(e)
            ==> e is InvalidArgument,
{
    assert(request@.dead_letter_policy == messages::opt_dead_letter(request.dead_letter_policy));
}

/// An update is accepted exactly if the values of the fields that it names are in range.
pub proof fn law_updates(request: Subscription, paths: Seq<String>)
    ensures
        ({
            let patch = subscriber::patch_wanted(request@, text::texts(paths));
            let e = subscription::patch_error(patch);
            &&& e is None <==> {
                &&& subscriptions::names(paths, "ack_deadline_seconds"@) ==> 10
                    <= request.ack_deadline_seconds <= 600
                &&& subscriptions::names(paths, "message_retention_duration"@)
                    && request.message_retention_duration is Some ==> 600
                    <= request.message_retention_duration->0.seconds <= 604_800
                &&& subscriptions::names(paths, "dead_letter_policy"@)
                    && request.dead_letter_policy is Some ==> {
                    let n = request.dead_letter_policy->0.max_delivery_attempts;
                    n == 0 || 5 <= n <= 100
                }
                &&& subscriptions::names(paths, "retry_policy"@) && request.retry_policy is Some
                    ==> {
                    let p = request.retry_policy->0;
                    &&& p.minimum_backoff matches Some(d) ==> 0 <= d.seconds <= 600
                    &&& p.maximum_backoff matches Some(d) ==> 0 <= d.seconds <= 600
                }
            }
            &&& e matches Some(e) ==> e is InvalidArgument
        }),
{
    subscriptions::lemma_names(paths, "ack_deadline_seconds"@);
    subscriptions::lemma_names(paths, "message_retention_duration"@);
    subscriptions::lemma_names(paths, "dead_letter_policy"@);
    subscriptions::lemma_names(paths, "retry_policy"@);
    assert(request@.dead_letter_policy == messages::opt_dead_letter(request.dead_letter_policy));
}

/// The fields that an update cannot change are the name, the topic, the ordering and the filter; an
/// update that names one of them is refused.
pub proof fn law_fixed_fields(paths: Seq<String>)
    ensures
        subscriber::immutable_path(text::texts(paths)) is Some <==> {
            ||| subscriptions::names(paths, "name"@)
            ||| subscriptions::names(paths, "topic"@)
            ||| subscriptions::names(paths, "enable_message_ordering"@)
            ||| subscriptions::names(paths, "filter"@)
        },
        subscriber::immutable_path(text::texts(paths)) matches Some(field)
            ==> subscriptions::names(paths, field) && subscriber::immutable_error(
            field,
        ) is InvalidArgument,
{
    subscriptions::lemma_names(paths, "name"@);
    subscriptions::lemma_names(paths, "topic"@);
    subscriptions::lemma_names(paths, "enable_message_ordering"@);
    subscriptions::lemma_names(paths, "filter"@);
}

/// A topic can keep messages for 10 minutes to 31 days.
pub proof fn law_topic_retention(secs: i64)
    ensures
        limits::topic_retention_error(secs as int) is None <==> 600 <= secs <= 2_678_400,
        limits::topic_retention_error(secs as int) matches Some(e) ==> e is InvalidArgument,
{
}

/// How clients ask for pages: a size that is not positive is 100, an empty token is none, and a
/// project may be given by its id or by its full name.
pub proof fn law_page_requests(page_size: i32, token: Seq<char>, project: Seq<char>)
    ensures
        publisher::page_size_wanted(page_size) == if page_size > 0 {
            page_size as int
        } else {
            100
        },
        token.len() == 0 ==> publisher::token_wanted(token) is None,
        token.len() > 0 ==> publisher::token_wanted(token) == Some(token),
        token.len() > 0 ==> publisher::token_shown(Some(token)) == token,
        publisher::token_shown(None).len() == 0,
        publisher::project_wanted("projects/"@ + project) == project,
        text::no_slash(project) ==> publisher::project_wanted(project) == project,
{
    reveal_strlit("");
    reveal_strlit("projects/");
    let full = "projects/"@ + project;
    assert(full.take(9) =~= "projects/"@);
    assert(full.skip(9) =~= project);
    if text::no_slash(project) && text::has_prefix(project, "projects/"@) {
        assert(project.take(9)[8] == "projects/"@[8]);
        assert(project[8] == '/');
    }
}

/// A project is named `projects/{project}`.
pub proof fn law_project_names(project: Seq<char>)
    requires
        text::no_slash(project),
    ensures
        names::project_error("projects/"@ + project) is None <==> project.len() > 0,
{
    reveal_strlit("projects/");
    reveal_strlit("projects");
    let name = "projects/"@ + project;
    assert(name =~= "projects"@.push('/') + project);
    text::lemma_segments_concat("projects"@, project);
    text::lemma_segments_of_plain("projects"@);
    text::lemma_segments_of_plain(project);
    assert(text::segments(name) =~= seq!["projects"@, project]);
}

/// The parts of a name are those that it was put together from.
pub proof fn law_name_parts(project: Seq<char>, id: Seq<char>)
    requires
        has_parts("projects/"@ + project + "/topics/"@ + id, "topics"@, project, id),
    ensures
        names::topic_project("projects/"@ + project + "/topics/"@ + id) == project,
        names::topic_id_part("projects/"@ + project + "/topics/"@ + id) == id,
{
    reveal_strlit("projects/");
    reveal_strlit("topics");
    reveal_strlit("/topics/");
    reveal_strlit("/");
    reveal_strlit("_deleted-topic_");
    let name = "projects/"@ + project + "/topics/"@ + id;
    assert(name =~= names::full_name(project, "topics"@, id));
    lemma_id(id, "topics"@, project);
    names::law_full_name_round_trip(project, "topics"@, id);
    assert(name[0] == 'p');
    assert("_deleted-topic_"@[0] == '_');
}

} // verus!
