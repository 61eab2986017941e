//! Lists, as clients see them.

use crate::grpc::publisher;
use crate::grpc::subscriber;
use crate::listing;
use crate::service;
use crate::store::codec::{SnapshotRecord, SnapshotView};
use crate::store::kv::Rows;
use crate::subscription;
use crate::subscription::SubscriptionView;
use crate::text;
use crate::topic;
use crate::topic::{TopicRecord, TopicView};
use vstd::prelude::*;

verus! {

/// A page of topics shows, from the one behind the token on, the names and the labels of as many as
/// were asked for, or of all that are left; and the token for the next page is the last name, if
/// more follow, or else empty.
pub proof fn law_topic_page(all: Seq<TopicView>, page_size: i32, token: Seq<char>, i: int)
    requires
        page_size > 0,
        0 <= i < publisher::topics_page(all, page_size, token).0.len(),
    ensures
        ({
            let (shown, next) = publisher::topics_page(all, page_size, token);
            let start = if token.len() == 0 {
                0
            } else {
                listing::place_of::<TopicRecord>(all, token)
            };
            &&& 0 <= start <= all.len()
            &&& shown.len() == if all.len() - start < page_size {
                all.len() - start
            } else {
                page_size as int
            }
            &&& shown[i].name == all[start + i].name
            &&& shown[i].labels == all[start + i].labels
            &&& start + shown.len() < all.len() ==> next == shown.last().name
            &&& start + shown.len() == all.len() ==> next.len() == 0
        }),
{
    reveal_strlit("");
    listing::lemma_place_of::<TopicRecord>(all, token);
}

/// The same for snapshots.
pub proof fn law_snapshot_page(all: Seq<SnapshotView>, page_size: i32, token: Seq<char>, i: int)
    requires
        page_size > 0,
        0 <= i < subscriber::snapshots_page(all, page_size, token).0.len(),
    ensures
        ({
            let (shown, next) = subscriber::snapshots_page(all, page_size, token);
            let start = if token.len() == 0 {
                0
            } else {
                listing::place_of::<SnapshotRecord>(all, token)
            };
            &&& 0 <= start <= all.len()
            &&& shown.len() == if all.len() - start < page_size {
                all.len() - start
            } else {
                page_size as int
            }
            &&& shown[i].name == all[start + i].name
            &&& shown[i].labels == all[start + i].labels
            &&& shown[i].topic == all[start + i].topic
            &&& start + shown.len() < all.len() ==> next == shown.last().name
            &&& start + shown.len() == all.len() ==> next.len() == 0
        }),
{
    reveal_strlit("");
    listing::lemma_place_of::<SnapshotRecord>(all, token);
}

/// Subscriptions are shown one for one.
pub proof fn law_subscriptions_shown(subs: Seq<SubscriptionView>, i: int)
    requires
        0 <= i < subs.len(),
    ensures
        subscriber::subscription_messages(subs).len() == subs.len(),
        subscriber::subscription_messages(subs)[i].name == subs[i].name,
        subscriber::subscription_messages(subs)[i].topic == subs[i].topic,
        subscriber::subscription_messages(subs)[i].labels == subs[i].labels,
        subscriber::subscription_messages(subs)[i].filter == subs[i].filter,
{
}

/// A page starts behind the token: every name up to it is before the page, and every later one is on it
/// or behind it.
pub proof fn law_pages_start_behind_the_token(names: Seq<Seq<char>>, token: Seq<char>, i: int)
    requires
        listing::names_increase::<String>(names),
        0 <= i < names.len(),
    ensures
        i < listing::place_of::<String>(names, token) <==> !text::text_lt(token, names[i]),
{
    listing::lemma_place_of::<String>(names, token);
    let start = listing::place_of::<String>(names, token);
    if start <= i {
        if start < i {
            assert(text::text_lt(
                <String as listing::Named>::name_of(names[start]),
                <String as listing::Named>::name_of(names[i]),
            ));
            text::lemma_bytes_lt_transitive(
                vstd::utf8::encode_utf8(token),
                vstd::utf8::encode_utf8(names[start]),
                vstd::utf8::encode_utf8(names[i]),
            );
        }
    }
}

/// The snapshots that are listed for a topic are exactly those that were taken of it.
pub proof fn law_snapshots_of_a_topic(
    all: Seq<SnapshotView>,
    topic_name: Seq<char>,
    name: Seq<char>,
)
    ensures
        service::names_for_topic(all, topic_name).contains(name) <==> exists|i: int|
            0 <= i < all.len() && (#[trigger] all[i]).name == name && all[i].topic == topic_name,
    decreases all.len(),
{
    let found = service::names_for_topic(all, topic_name);
    if all.len() > 0 {
        let init = all.drop_last();
        let last = all.len() - 1;
        law_snapshots_of_a_topic(init, topic_name, name);
        let rest = service::names_for_topic(init, topic_name);
        if rest.contains(name) {
            let i = choose|i: int|
                0 <= i < init.len() && (#[trigger] init[i]).name == name && init[i].topic
                    == topic_name;
            assert(all[i].name == name);
            let k = choose|k: int| 0 <= k < rest.len() && rest[k] == name;
            assert(found[k] == name);
        }
        if all[last].topic == topic_name && all[last].name == name {
            assert(found[rest.len() as int] == name);
        }
        if exists|i: int|
            0 <= i < all.len() && (#[trigger] all[i]).name == name && all[i].topic == topic_name {
            let i = choose|i: int|
                0 <= i < all.len() && (#[trigger] all[i]).name == name && all[i].topic
                    == topic_name;
            if i < last {
                assert(init[i].name == name);
            }
        }
        if found.contains(name) && !rest.contains(name) {
            let k = choose|k: int| 0 <= k < found.len() && found[k] == name;
            if k < rest.len() {
                assert(rest[k] == name);
            }
            assert(all[last].name == name);
        }
    }
}

/// The subscriptions that are listed for a topic are those with the ids that its index holds, by their
/// names.
pub proof fn law_subscriptions_of_a_topic(rows: Rows, topic_name: Seq<char>, i: int)
    requires
        topic::topic_named(rows, topic_name) is Ok,
        service::topic_subscriptions(rows, topic_name) is Ok,
        0 <= i < subscription::attached_ids(
            rows,
            (topic::topic_named(rows, topic_name)->Ok_0).id,
        ).len(),
    ensures
        ({
            let t = topic::topic_named(rows, topic_name)->Ok_0;
            let ids = subscription::attached_ids(rows, t.id);
            let listed = service::topic_subscriptions(rows, topic_name)->Ok_0;
            let s = subscription::stored_subscription(rows, ids[i], Seq::empty());
            &&& listed.len() == ids.len()
            &&& s is Ok
            &&& listed.contains((s->Ok_0).name)
        }),
{
    let t = topic::topic_named(rows, topic_name)->Ok_0;
    let ids = subscription::attached_ids(rows, t.id);
    lemma_names_of(rows, ids, ids.len() as int, i);
    let found = service::names_of(rows, ids, ids.len() as int)->Ok_0;
    listing::law_sorting_keeps_the_values::<String>(found);
    assert(found.contains(found[i]));
}

proof fn lemma_names_of(rows: Rows, ids: Seq<u64>, n: int, i: int)
    requires
        0 <= i < n <= ids.len(),
        service::names_of(rows, ids, n) is Ok,
    ensures
        (service::names_of(rows, ids, n)->Ok_0).len() == n,
        subscription::stored_subscription(rows, ids[i], Seq::empty()) is Ok,
        (service::names_of(rows, ids, n)->Ok_0)[i] == (subscription::stored_subscription(
            rows,
            ids[i],
            Seq::empty(),
        )->Ok_0).name,
    decreases n,
{
    reveal_with_fuel(service::names_of, 2);
    if i < n - 1 {
        lemma_names_of(rows, ids, n - 1, i);
    } else if n > 1 {
        lemma_names_of(rows, ids, n - 1, 0);
    }
}

} // verus!
