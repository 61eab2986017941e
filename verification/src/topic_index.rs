//! The index from topics to subscriptions agrees with the subscriptions that are stored.

use crate::delivery::engine;
use crate::delivery::engine::LeaseCall;
use crate::delivery::laws;
use crate::delivery::lease::Leases;
use crate::delivery::snapshot;
use crate::store::codec::{CursorView, SnapshotView};
use crate::store::keys;
use crate::store::keys::NameKind;
use crate::store::kv;
use crate::store::kv::{Rows, Scan, ValueView, Write};
use crate::subscription;
use crate::subscription::{OptionsView, PatchView, PushConfigView, SubscriptionView};
use crate::text;
use crate::topic;
use crate::topic::{NewMessage, TopicView};
use vstd::prelude::*;

verus! {

/// The subscription record that is stored under an id.
pub open spec fn record_at(rows: Rows, sub_id: u64) -> Option<SubscriptionView> {
    match kv::fetch(rows, "meta"@, keys::sub_key_bytes(sub_id)) {
        Some(ValueView::Subscription(s)) => Some(s),
        _ => None,
    }
}

/// A subscription of this id is stored and belongs to this topic.
pub open spec fn belongs(rows: Rows, topic_id: u64, sub_id: u64) -> bool {
    record_at(rows, sub_id) matches Some(s) && s.topic_id == topic_id
}

/// The index leads from a topic to a subscription.
pub open spec fn leads_to(rows: Rows, topic_id: u64, sub_id: u64) -> bool {
    rows.contains_key(("idx"@, keys::pair_key(topic_id, sub_id)))
}

/// The index leads from a topic to exactly the subscriptions that are stored and belong to it. Every
/// subscription is stored under its own id, and no id is above the id counter.
pub open spec fn agrees(rows: Rows) -> bool {
    &&& forall|topic_id: u64, sub_id: u64| #[trigger]
        leads_to(rows, topic_id, sub_id) <==> belongs(rows, topic_id, sub_id)
    &&& forall|sub_id: u64|
        (#[trigger] record_at(rows, sub_id)) matches Some(s) ==> s.id == sub_id && sub_id
            <= topic::counter(rows, keys::id_seq_key_bytes())
}

/// An empty store agrees.
pub proof fn law_empty_store_agrees()
    ensures
        agrees(Rows::empty()),
{
}

proof fn lemma_ids_in(scan: Scan, topic_id: u64, sub_id: u64)
    requires
        forall|i: int|
            0 <= i < scan.len() ==> text::has_prefix((#[trigger] scan[i]).0, keys::be64(topic_id)),
    ensures
        subscription::ids_in(scan).contains(sub_id) <==> kv::scan_has(
            scan,
            keys::pair_key(topic_id, sub_id),
        ),
    decreases scan.len(),
{
    let key = keys::pair_key(topic_id, sub_id);
    if scan.len() > 0 {
        let init = scan.drop_last();
        let last = scan.len() - 1;
        assert forall|i: int| 0 <= i < init.len() implies text::has_prefix(
            (#[trigger] init[i]).0,
            keys::be64(topic_id),
        ) by {
            assert(init[i] == scan[i]);
        }
        lemma_ids_in(init, topic_id, sub_id);
        let before = subscription::ids_in(init);
        let ids = subscription::ids_in(scan);
        assert(kv::scan_has(scan, key) <==> kv::scan_has(init, key) || scan[last].0 == key) by {
            if kv::scan_has(scan, key) {
                let i = choose|i: int| 0 <= i < scan.len() && (#[trigger] scan[i]).0 == key;
                if i < last {
                    assert(init[i].0 == key);
                }
            }
            if kv::scan_has(init, key) {
                let i = choose|i: int| 0 <= i < init.len() && (#[trigger] init[i]).0 == key;
                assert(scan[i].0 == key);
            }
        }
        assert(text::has_prefix(scan[last].0, keys::be64(topic_id)));
        keys::law_pair_key_round_trip(topic_id, sub_id, scan[last].0);
        match keys::from_pair_key(scan[last].0) {
            Some((a, b)) => {
                keys::law_pair_key_round_trip(a, b, scan[last].0);
                keys::lemma_pair_key_prefix(scan[last].0, topic_id);
                assert(ids == before.push(b));
                assert(ids.contains(sub_id) <==> before.contains(sub_id) || b == sub_id) by {
                    if before.contains(sub_id) {
                        let i = choose|i: int| 0 <= i < before.len() && before[i] == sub_id;
                        assert(ids[i] == sub_id);
                    }
                    if b == sub_id {
                        assert(ids[before.len() as int] == sub_id);
                    }
                }
            },
            None => {
                assert(ids == before);
            },
        }
    } else {
        assert(!kv::scan_has(scan, key));
    }
}

/// The subscriptions that are listed for a topic are those that are stored and belong to it.
pub proof fn law_listed_subscriptions_belong(rows: Rows, topic_id: u64, sub_id: u64)
    requires
        agrees(rows),
        kv::has_scan(rows, "idx"@, keys::be64(topic_id)),
    ensures
        subscription::attached_ids(rows, topic_id).contains(sub_id) <==> belongs(
            rows,
            topic_id,
            sub_id,
        ),
{
    let scan = kv::scan_of(rows, "idx"@, keys::be64(topic_id));
    let key = keys::pair_key(topic_id, sub_id);
    lemma_ids_in(scan, topic_id, sub_id);
    keys::lemma_be_bytes_len(topic_id as nat, 8);
    assert(key.take(8) =~= keys::be64(topic_id));
    assert(text::has_prefix(key, keys::be64(topic_id)));
    assert(leads_to(rows, topic_id, sub_id) <==> belongs(rows, topic_id, sub_id));
    if kv::scan_has(scan, key) {
        let i = choose|i: int| 0 <= i < scan.len() && (#[trigger] scan[i]).0 == key;
        assert(rows.contains_key(("idx"@, scan[i].0)));
    }
}

/// What a change of one subscription's rows leaves of the others.
proof fn lemma_one_changes(rows: Rows, after: Rows, topic_id: u64, id: u64)
    requires
        agrees(rows),
        forall|key: Seq<u8>|
            key != keys::pair_key(topic_id, id) ==> #[trigger] kv::fetch(after, "idx"@, key)
                == kv::fetch(rows, "idx"@, key),
        forall|sub_id: u64|
            sub_id != id ==> #[trigger] record_at(after, sub_id) == record_at(rows, sub_id),
        topic::counter(rows, keys::id_seq_key_bytes()) <= topic::counter(
            after,
            keys::id_seq_key_bytes(),
        ),
        record_at(rows, id) matches Some(s) ==> s.topic_id == topic_id,
        leads_to(after, topic_id, id) <==> belongs(after, topic_id, id),
        record_at(after, id) matches Some(s) ==> s.id == id && s.topic_id == topic_id && id
            <= topic::counter(after, keys::id_seq_key_bytes()),
    ensures
        agrees(after),
{
    assert forall|t: u64, s: u64| #[trigger] leads_to(after, t, s) <==> belongs(after, t, s) by {
        if (t, s) != (topic_id, id) {
            let key = keys::pair_key(t, s);
            keys::law_pair_key_round_trip(t, s, key);
            keys::law_pair_key_round_trip(topic_id, id, keys::pair_key(topic_id, id));
            assert(kv::fetch(after, "idx"@, key) == kv::fetch(rows, "idx"@, key));
            assert(leads_to(rows, t, s) <==> belongs(rows, t, s));
            if s != id {
                assert(record_at(after, s) == record_at(rows, s));
            }
        }
    }
    assert forall|sub_id: u64| (#[trigger] record_at(after, sub_id)) is Some implies (record_at(
        after,
        sub_id,
    )->0).id == sub_id && sub_id <= topic::counter(after, keys::id_seq_key_bytes()) by {
        if sub_id != id {
            assert(record_at(after, sub_id) == record_at(rows, sub_id));
        }
    }
}

/// Creating a subscription keeps the index in agreement.
pub proof fn law_creating_a_subscription_keeps_agreement(
    rows: Rows,
    name: Seq<char>,
    topic_name: Seq<char>,
    topic_id: u64,
    now_ms: i64,
    opts: OptionsView,
    attach_seq: u64,
)
    requires
        agrees(rows),
        subscription::create_error(rows, name, topic_name, opts) is None,
    ensures
        ({
            let new = subscription::new_subscription(
                rows,
                name,
                topic_name,
                topic_id,
                now_ms,
                opts,
            );
            let after = kv::after_writes(rows, subscription::create_writes(new, attach_seq));
            agrees(after) && record_at(after, new.id) == Some(new) && leads_to(
                after,
                topic_id,
                new.id,
            )
        }),
{
    let new = subscription::new_subscription(rows, name, topic_name, topic_id, now_ms, opts);
    let writes = subscription::create_writes(new, attach_seq);
    let after = kv::after_writes(rows, writes);
    let counter = keys::id_seq_key_bytes();
    let record = keys::sub_key_bytes(new.id);
    let name_key = keys::name_key_bytes(NameKind::Subscription, name);
    let row = keys::pair_key(topic_id, new.id);
    assert(writes.len() == 5);
    kv::law_keyspaces_differ();
    keys::law_kinds_of_keys_differ(new.id, new.id, NameKind::Subscription, name);
    keys::law_be64_round_trip(new.id, keys::be64(new.id));
    kv::law_last_write_is_read(rows, writes, 0, "meta"@, counter);
    kv::law_last_write_is_read(rows, writes, 1, "meta"@, record);
    kv::law_last_write_is_read(rows, writes, 4, "idx"@, row);
    assert(record_at(rows, new.id) is None);
    assert forall|key: Seq<u8>| key != row implies #[trigger] kv::fetch(after, "idx"@, key)
        == kv::fetch(rows, "idx"@, key) by {
        kv::law_spared_row_stays(rows, writes, "idx"@, key);
    }
    assert forall|sub_id: u64| sub_id != new.id implies #[trigger] record_at(after, sub_id)
        == record_at(rows, sub_id) by {
        keys::law_record_keys_injective(sub_id, new.id);
        keys::law_kinds_of_keys_differ(sub_id, sub_id, NameKind::Subscription, name);
        kv::law_spared_row_stays(rows, writes, "meta"@, keys::sub_key_bytes(sub_id));
    }
    assert(kv::fetch(after, "idx"@, row) is Some);
    lemma_one_changes(rows, after, topic_id, new.id);
}

proof fn lemma_persisting(rows: Rows, found: SubscriptionView, changed: SubscriptionView)
    requires
        agrees(rows),
        record_at(rows, found.id) == Some(found),
        changed.id == found.id,
        changed.topic_id == found.topic_id,
    ensures
        agrees(kv::after_writes(rows, subscription::persist_writes(changed))),
        record_at(kv::after_writes(rows, subscription::persist_writes(changed)), found.id) == Some(
            changed,
        ),
{
    let writes = subscription::persist_writes(changed);
    let after = kv::after_writes(rows, writes);
    let id = found.id;
    let counter = keys::id_seq_key_bytes();
    kv::law_keyspaces_differ();
    keys::law_kinds_of_keys_differ(id, id, NameKind::Subscription, changed.name);
    kv::law_last_write_is_read(rows, writes, 0, "meta"@, keys::sub_key_bytes(id));
    kv::law_spared_row_stays(rows, writes, "meta"@, counter);
    assert forall|key: Seq<u8>| #[trigger] kv::fetch(after, "idx"@, key) == kv::fetch(
        rows,
        "idx"@,
        key,
    ) by {
        kv::law_spared_row_stays(rows, writes, "idx"@, key);
    }
    assert forall|sub_id: u64| sub_id != id implies #[trigger] record_at(after, sub_id)
        == record_at(rows, sub_id) by {
        keys::law_record_keys_injective(sub_id, id);
        keys::law_kinds_of_keys_differ(sub_id, sub_id, NameKind::Subscription, changed.name);
        kv::law_spared_row_stays(rows, writes, "meta"@, keys::sub_key_bytes(sub_id));
    }
    let row = keys::pair_key(found.topic_id, id);
    assert(kv::fetch(after, "idx"@, row) == kv::fetch(rows, "idx"@, row));
    assert(leads_to(rows, found.topic_id, id) <==> belongs(rows, found.topic_id, id));
    lemma_one_changes(rows, after, found.topic_id, id);
}

proof fn lemma_found(rows: Rows, name: Seq<char>)
    requires
        agrees(rows),
        subscription::subscription_named(rows, name) is Ok,
    ensures
        ({
            let found = subscription::subscription_named(rows, name)->Ok_0;
            record_at(rows, found.id) == Some(found)
        }),
{
    let value = kv::fetch(
        rows,
        "meta"@,
        keys::name_key_bytes(NameKind::Subscription, name),
    )->0;
    let id = subscription::id_in(value, name)->Ok_0;
    assert(record_at(rows, id) == Some(subscription::subscription_named(rows, name)->Ok_0));
}

/// Changing a subscription in any way keeps the index in agreement: patching it, detaching it,
/// setting its push configuration, and noting that it was used or that its topic was deleted.
pub proof fn law_changing_a_subscription_keeps_agreement(
    rows: Rows,
    name: Seq<char>,
    sub_id: u64,
    patch: PatchView,
    push_config: Option<PushConfigView>,
    now_ms: i64,
)
    requires
        agrees(rows),
    ensures
        subscription::subscription_named(rows, name) matches Ok(found) ==> {
            let changes = seq![
                subscription::patched(found, patch),
                SubscriptionView { detached: true, ..found },
                SubscriptionView { push_config, ..found },
            ];
            forall|i: int|
                0 <= i < changes.len() ==> agrees(
                    kv::after_writes(rows, subscription::persist_writes(#[trigger] changes[i])),
                )
        },
        subscription::stored_subscription(rows, sub_id, name) matches Ok(found) ==> agrees(
            kv::after_writes(
                rows,
                subscription::persist_writes(subscription::orphaned(found)),
            ),
        ),
        agrees(kv::after_writes(rows, subscription::touch_writes(rows, sub_id, now_ms))),
{
    if let Ok(found) = subscription::subscription_named(rows, name) {
        lemma_found(rows, name);
        let changes = seq![
            subscription::patched(found, patch),
            SubscriptionView { detached: true, ..found },
            SubscriptionView { push_config, ..found },
        ];
        assert forall|i: int| 0 <= i < changes.len() implies agrees(
            kv::after_writes(rows, subscription::persist_writes(#[trigger] changes[i])),
        ) by {
            lemma_persisting(rows, found, changes[i]);
        }
    }
    if let Ok(found) = subscription::stored_subscription(rows, sub_id, name) {
        assert(record_at(rows, sub_id) == Some(found));
        lemma_persisting(rows, found, subscription::orphaned(found));
    }
    if let Ok(found) = subscription::stored_subscription(rows, sub_id, Seq::empty()) {
        assert(record_at(rows, sub_id) == Some(found));
        lemma_persisting(
            rows,
            found,
            SubscriptionView { last_activity_ts_ms: now_ms, ..found },
        );
    }
}

/// Deleting a subscription keeps the index in agreement.
pub proof fn law_deleting_a_subscription_keeps_agreement(rows: Rows, name: Seq<char>)
    requires
        agrees(rows),
        subscription::subscription_named(rows, name) is Ok,
    ensures
        ({
            let found = subscription::subscription_named(rows, name)->Ok_0;
            let after = kv::after_writes(rows, subscription::delete_writes(found));
            agrees(after) && record_at(after, found.id) is None && !leads_to(
                after,
                found.topic_id,
                found.id,
            )
        }),
{
    let found = subscription::subscription_named(rows, name)->Ok_0;
    let writes = subscription::delete_writes(found);
    let after = kv::after_writes(rows, writes);
    let id = found.id;
    let row = keys::pair_key(found.topic_id, id);
    lemma_found(rows, name);
    assert(writes.len() == 4);
    kv::law_keyspaces_differ();
    keys::law_kinds_of_keys_differ(id, id, NameKind::Subscription, found.name);
    kv::law_last_write_is_read(rows, writes, 0, "meta"@, keys::sub_key_bytes(id));
    kv::law_last_write_is_read(rows, writes, 3, "idx"@, row);
    kv::law_spared_row_stays(rows, writes, "meta"@, keys::id_seq_key_bytes());
    assert forall|key: Seq<u8>| key != row implies #[trigger] kv::fetch(after, "idx"@, key)
        == kv::fetch(rows, "idx"@, key) by {
        kv::law_spared_row_stays(rows, writes, "idx"@, key);
    }
    assert forall|sub_id: u64| sub_id != id implies #[trigger] record_at(after, sub_id)
        == record_at(rows, sub_id) by {
        keys::law_record_keys_injective(sub_id, id);
        keys::law_kinds_of_keys_differ(sub_id, sub_id, NameKind::Subscription, found.name);
        kv::law_spared_row_stays(rows, writes, "meta"@, keys::sub_key_bytes(sub_id));
    }
    assert(kv::fetch(after, "idx"@, row) is None);
    lemma_one_changes(rows, after, found.topic_id, id);
}

/// A sweep of expired subscriptions keeps the index in agreement, however far it comes.
pub proof fn law_sweep_keeps_agreement(
    rows: Rows,
    subscriptions: Seq<SubscriptionView>,
    now_ms: i64,
    n: int,
)
    requires
        agrees(rows),
        0 <= n <= subscriptions.len(),
    ensures
        agrees(
            kv::after_writes(rows, subscription::swept(rows, subscriptions, now_ms, n).writes),
        ),
    decreases n,
{
    if n > 0 {
        law_sweep_keeps_agreement(rows, subscriptions, now_ms, n - 1);
        let before = subscription::swept(rows, subscriptions, now_ms, n - 1);
        let mid = kv::after_writes(rows, before.writes);
        let name = subscriptions[n - 1].name;
        if subscription::subscription_named(mid, name) is Ok {
            law_deleting_a_subscription_keeps_agreement(mid, name);
            kv::lemma_after_concat(
                rows,
                before.writes,
                subscription::delete_writes(subscription::subscription_named(mid, name)->Ok_0),
            );
        }
    }
}

/// A change concerns neither the index, nor a subscription record, nor the id counter.
pub open spec fn is_apart(write: Write) -> bool {
    let (keyspace, key) = match write {
        Write::Put(keyspace, key, _) => (keyspace, key),
        Write::Delete(keyspace, key) => (keyspace, key),
    };
    &&& keyspace != "idx"@
    &&& keyspace == "meta"@ ==> key != keys::id_seq_key_bytes() && forall|sub_id: u64|
        key != #[trigger] keys::sub_key_bytes(sub_id)
}

proof fn lemma_apart(rows: Rows, writes: Seq<Write>)
    requires
        agrees(rows),
        forall|i: int| 0 <= i < writes.len() ==> is_apart(#[trigger] writes[i]),
    ensures
        agrees(kv::after_writes(rows, writes)),
{
    let after = kv::after_writes(rows, writes);
    kv::law_spared_row_stays(rows, writes, "meta"@, keys::id_seq_key_bytes());
    assert forall|t: u64, s: u64| #[trigger] leads_to(after, t, s) <==> belongs(after, t, s) by {
        let key = keys::pair_key(t, s);
        kv::law_spared_row_stays(rows, writes, "idx"@, key);
        kv::law_spared_row_stays(rows, writes, "meta"@, keys::sub_key_bytes(s));
        assert(kv::fetch(after, "idx"@, key) == kv::fetch(rows, "idx"@, key));
        assert(leads_to(rows, t, s) <==> belongs(rows, t, s));
    }
    assert forall|sub_id: u64| (#[trigger] record_at(after, sub_id)) is Some implies (record_at(
        after,
        sub_id,
    )->0).id == sub_id && sub_id <= topic::counter(after, keys::id_seq_key_bytes()) by {
        kv::law_spared_row_stays(rows, writes, "meta"@, keys::sub_key_bytes(sub_id));
        assert(record_at(after, sub_id) == record_at(rows, sub_id));
    }
}

proof fn lemma_new_id(rows: Rows, writes: Seq<Write>)
    requires
        agrees(rows),
        writes.len() > 0,
        writes[0] == Write::Put(
            "meta"@,
            keys::id_seq_key_bytes(),
            ValueView::Bytes(keys::be64(topic::fresh_id(rows))),
        ),
        forall|i: int| 0 < i < writes.len() ==> is_apart(#[trigger] writes[i]),
    ensures
        agrees(kv::after_writes(rows, writes)),
{
    let first = writes.take(1);
    let rest = writes.skip(1);
    let counter = keys::id_seq_key_bytes();
    let mid = kv::after_writes(rows, first);
    assert(writes =~= first + rest);
    kv::lemma_after_concat(rows, first, rest);
    kv::law_keyspaces_differ();
    keys::law_be64_round_trip(topic::fresh_id(rows), keys::be64(topic::fresh_id(rows)));
    kv::law_last_write_is_read(rows, first, 0, "meta"@, counter);
    assert forall|t: u64, s: u64| #[trigger] leads_to(mid, t, s) <==> belongs(mid, t, s) by {
        let key = keys::pair_key(t, s);
        keys::law_kinds_of_keys_differ(s, s, NameKind::Topic, Seq::empty());
        kv::law_spared_row_stays(rows, first, "idx"@, key);
        kv::law_spared_row_stays(rows, first, "meta"@, keys::sub_key_bytes(s));
        assert(kv::fetch(mid, "idx"@, key) == kv::fetch(rows, "idx"@, key));
        assert(leads_to(rows, t, s) <==> belongs(rows, t, s));
    }
    assert forall|sub_id: u64| (#[trigger] record_at(mid, sub_id)) is Some implies (record_at(
        mid,
        sub_id,
    )->0).id == sub_id && sub_id <= topic::counter(mid, counter) by {
        keys::law_kinds_of_keys_differ(sub_id, sub_id, NameKind::Topic, Seq::empty());
        kv::law_spared_row_stays(rows, first, "meta"@, keys::sub_key_bytes(sub_id));
        assert(record_at(mid, sub_id) == record_at(rows, sub_id));
    }
    assert forall|i: int| 0 <= i < rest.len() implies is_apart(#[trigger] rest[i]) by {
        assert(rest[i] == writes[i + 1]);
    }
    lemma_apart(mid, rest);
}

proof fn lemma_keys_apart(id: u64, kind: NameKind, name: Seq<char>)
    ensures
        forall|sub_id: u64|
            {
                let key = #[trigger] keys::sub_key_bytes(sub_id);
                &&& keys::topic_key_bytes(id) != key
                &&& keys::snapshot_key_bytes(id) != key
                &&& keys::topic_seq_counter_key_bytes(id) != key
                &&& keys::name_key_bytes(kind, name) != key
                &&& keys::lease_seq_key_bytes() != key
            },
{
    assert forall|sub_id: u64|
        {
            let key = #[trigger] keys::sub_key_bytes(sub_id);
            &&& keys::topic_key_bytes(id) != key
            &&& keys::snapshot_key_bytes(id) != key
            &&& keys::topic_seq_counter_key_bytes(id) != key
            &&& keys::name_key_bytes(kind, name) != key
            &&& keys::lease_seq_key_bytes() != key
        } by {
        keys::law_kinds_of_keys_differ(id, sub_id, kind, name);
        keys::law_kinds_of_keys_differ(sub_id, id, kind, name);
    }
}

/// Creating, changing and deleting topics and snapshots keeps the index in agreement.
pub proof fn law_other_resources_keep_agreement(
    rows: Rows,
    t: TopicView,
    s: SnapshotView,
    labels: crate::string_map::Entries,
)
    requires
        agrees(rows),
        t.id == topic::fresh_id(rows),
        s.id == topic::fresh_id(rows),
    ensures
        agrees(kv::after_writes(rows, topic::create_writes(t))),
        agrees(kv::after_writes(rows, snapshot::create_writes(s))),
        forall|other: TopicView|
            agrees(kv::after_writes(rows, #[trigger] topic::update_writes(other))),
        forall|id: u64, name: Seq<char>|
            agrees(kv::after_writes(rows, #[trigger] topic::delete_writes(id, name))),
        forall|id: u64, name: Seq<char>|
            agrees(kv::after_writes(rows, #[trigger] snapshot::delete_writes(id, name))),
        forall|other: SnapshotView|
            agrees(kv::after_writes(rows, #[trigger] snapshot::relabel_writes(other, labels))),
{
    kv::law_keyspaces_differ();
    lemma_keys_apart(t.id, NameKind::Topic, t.name);
    lemma_keys_apart(s.id, NameKind::Snapshot, s.name);
    keys::law_kinds_of_keys_differ(t.id, t.id, NameKind::Topic, t.name);
    keys::law_kinds_of_keys_differ(s.id, s.id, NameKind::Snapshot, s.name);
    lemma_new_id(rows, topic::create_writes(t));
    lemma_new_id(rows, snapshot::create_writes(s));
    assert forall|other: TopicView| agrees(
        kv::after_writes(rows, #[trigger] topic::update_writes(other)),
    ) by {
        lemma_keys_apart(other.id, NameKind::Topic, other.name);
        keys::law_kinds_of_keys_differ(other.id, other.id, NameKind::Topic, other.name);
        lemma_apart(rows, topic::update_writes(other));
    }
    assert forall|id: u64, name: Seq<char>| agrees(
        kv::after_writes(rows, #[trigger] topic::delete_writes(id, name)),
    ) by {
        lemma_keys_apart(id, NameKind::Topic, name);
        keys::law_kinds_of_keys_differ(id, id, NameKind::Topic, name);
        lemma_apart(rows, topic::delete_writes(id, name));
    }
    assert forall|id: u64, name: Seq<char>| agrees(
        kv::after_writes(rows, #[trigger] snapshot::delete_writes(id, name)),
    ) by {
        lemma_keys_apart(id, NameKind::Snapshot, name);
        keys::law_kinds_of_keys_differ(id, id, NameKind::Snapshot, name);
        lemma_apart(rows, snapshot::delete_writes(id, name));
    }
    assert forall|other: SnapshotView| agrees(
        kv::after_writes(rows, #[trigger] snapshot::relabel_writes(other, labels)),
    ) by {
        lemma_keys_apart(other.id, NameKind::Snapshot, other.name);
        keys::law_kinds_of_keys_differ(other.id, other.id, NameKind::Snapshot, other.name);
        lemma_apart(rows, snapshot::relabel_writes(other, labels));
    }
}

/// A change is part of publishing or of delivering: it concerns neither the index nor, among what is
/// stored with the records, anything but a topic's message counter and the counter of leases.
pub open spec fn is_traffic(write: Write) -> bool {
    let (keyspace, key) = match write {
        Write::Put(keyspace, key, _) => (keyspace, key),
        Write::Delete(keyspace, key) => (keyspace, key),
    };
    &&& keyspace != "idx"@
    &&& keyspace == "meta"@ ==> key == keys::lease_seq_key_bytes() || exists|topic_id: u64|
        #[trigger] keys::topic_seq_counter_key_bytes(topic_id) == key
}

proof fn lemma_traffic(rows: Rows, writes: Seq<Write>)
    requires
        agrees(rows),
        forall|i: int| 0 <= i < writes.len() ==> is_traffic(#[trigger] writes[i]),
    ensures
        agrees(kv::after_writes(rows, writes)),
{
    lemma_keys_apart(0, NameKind::Topic, Seq::empty());
    keys::law_kinds_of_keys_differ(0, 0, NameKind::Topic, Seq::empty());
    assert forall|i: int| 0 <= i < writes.len() implies is_apart(#[trigger] writes[i]) by {
        let key = match writes[i] {
            Write::Put(_, key, _) => key,
            Write::Delete(_, key) => key,
        };
        if exists|topic_id: u64| #[trigger] keys::topic_seq_counter_key_bytes(topic_id) == key {
            let topic_id = choose|topic_id: u64| #[trigger]
                keys::topic_seq_counter_key_bytes(topic_id) == key;
            lemma_keys_apart(topic_id, NameKind::Topic, Seq::empty());
            keys::law_kinds_of_keys_differ(topic_id, topic_id, NameKind::Topic, Seq::empty());
        }
    }
    lemma_apart(rows, writes);
}

pub(crate) proof fn lemma_append_is_traffic(
    topic_id: u64,
    tail: u64,
    messages: Seq<NewMessage>,
    now_ms: i64,
    expire_at_ms: i64,
    n: int,
)
    requires
        0 <= n <= messages.len(),
    ensures
        ({
            let writes = topic::append_writes(
                topic_id,
                tail,
                messages,
                now_ms,
                expire_at_ms,
                n,
            );
            forall|i: int| 0 <= i < writes.len() ==> is_traffic(#[trigger] writes[i])
        }),
    decreases n,
{
    if n > 0 {
        lemma_append_is_traffic(topic_id, tail, messages, now_ms, expire_at_ms, n - 1);
        kv::law_keyspaces_differ();
        let before = topic::append_writes(
            topic_id,
            tail,
            messages,
            now_ms,
            expire_at_ms,
            n - 1,
        );
        let writes = topic::append_writes(topic_id, tail, messages, now_ms, expire_at_ms, n);
        assert forall|i: int| 0 <= i < writes.len() implies is_traffic(#[trigger] writes[i]) by {
            if i < before.len() {
                assert(writes[i] == before[i]);
            }
        }
    }
}

/// Publishing messages keeps the index in agreement.
pub proof fn law_publishing_keeps_agreement(
    rows: Rows,
    topic_id: u64,
    tail: u64,
    messages: Seq<NewMessage>,
    now_ms: i64,
    expire_at_ms: i64,
)
    requires
        agrees(rows),
    ensures
        agrees(
            kv::after_writes(
                rows,
                topic::append_writes(
                    topic_id,
                    tail,
                    messages,
                    now_ms,
                    expire_at_ms,
                    messages.len() as int,
                ),
            ),
        ),
{
    let n = messages.len() as int;
    lemma_append_is_traffic(topic_id, tail, messages, now_ms, expire_at_ms, n);
    lemma_traffic(rows, topic::append_writes(topic_id, tail, messages, now_ms, expire_at_ms, n));
}

pub(crate) proof fn lemma_leasing_is_traffic(call: LeaseCall, log: Scan, n: int)
    requires
        0 <= n <= log.len(),
    ensures
        ({
            let writes = engine::leasing(call, log, n).writes;
            forall|i: int| 0 <= i < writes.len() ==> is_traffic(#[trigger] writes[i])
        }),
    decreases n,
{
    if n > 0 {
        lemma_leasing_is_traffic(call, log, n - 1);
        let before = engine::leasing(call, log, n - 1);
        let after = engine::leasing(call, log, n);
        if after.writes != before.writes {
            let rows = kv::after_writes(call.rows, before.writes);
            let seq = laws::seq_in(log, n - 1)->0;
            let message = log[n - 1].1->Message_0;
            let step = engine::message_step(
                rows,
                before.leases,
                before.cursor,
                call.filter,
                call.sub_id,
                seq,
                message,
                call.now_ms,
                call.ack_deadline_secs,
            );
            laws::lemma_changes_of_step(
                rows,
                before.leases,
                before.cursor,
                call.filter,
                call.sub_id,
                seq,
                message,
                call.now_ms,
                call.ack_deadline_secs,
            );
            assert forall|i: int| 0 <= i < step.writes.len() implies is_traffic(
                #[trigger] step.writes[i],
            ) by {
                lemma_change_is_traffic(step.writes[i], call.sub_id, seq);
            }
            assert(after.writes == before.writes + step.writes);
        }
    }
}

proof fn lemma_change_is_traffic(write: Write, sub_id: u64, seq: u64)
    requires
        laws::is_change(write, sub_id, seq),
    ensures
        is_traffic(write),
{
    kv::law_keyspaces_differ();
}

pub(crate) proof fn lemma_acking_is_traffic(
    leases: Leases,
    start: CursorView,
    sub_id: u64,
    ack_ids: Seq<Seq<char>>,
    now_ms: i64,
    secs: i32,
    n: int,
)
    requires
        0 <= n <= ack_ids.len(),
    ensures
        ({
            let acks = engine::acking(leases, start, sub_id, ack_ids, n).writes;
            let changes = engine::changing_deadlines(leases, sub_id, ack_ids, now_ms, secs, n).0;
            &&& forall|i: int| 0 <= i < acks.len() ==> is_traffic(#[trigger] acks[i])
            &&& forall|i: int| 0 <= i < changes.len() ==> is_traffic(#[trigger] changes[i])
        }),
    decreases n,
{
    kv::law_keyspaces_differ();
    if n > 0 {
        lemma_acking_is_traffic(leases, start, sub_id, ack_ids, now_ms, secs, n - 1);
        let acked = engine::acking(leases, start, sub_id, ack_ids, n - 1).writes;
        let acks = engine::acking(leases, start, sub_id, ack_ids, n).writes;
        assert forall|i: int| 0 <= i < acks.len() implies is_traffic(#[trigger] acks[i]) by {
            if i < acked.len() {
                assert(acks[i] == acked[i]);
            }
        }
        let changed = engine::changing_deadlines(leases, sub_id, ack_ids, now_ms, secs, n - 1).0;
        let changes = engine::changing_deadlines(leases, sub_id, ack_ids, now_ms, secs, n).0;
        assert forall|i: int| 0 <= i < changes.len() implies is_traffic(#[trigger] changes[i]) by {
            if i < changed.len() {
                assert(changes[i] == changed[i]);
            }
        }
    }
}

/// Handing out messages, acknowledging them and changing their deadlines keeps the index in
/// agreement.
pub proof fn law_delivering_keeps_agreement(
    call: LeaseCall,
    log: Scan,
    leases: Leases,
    sub_id: u64,
    ack_ids: Seq<Seq<char>>,
    now_ms: i64,
    secs: i32,
)
    requires
        agrees(call.rows),
    ensures
        agrees(kv::after_writes(call.rows, engine::lease_writes(call, log))),
        agrees(
            kv::after_writes(
                call.rows,
                engine::ack_end(call.rows, leases, sub_id, ack_ids).writes,
            ),
        ),
        agrees(
            kv::after_writes(
                call.rows,
                engine::changing_deadlines(
                    leases,
                    sub_id,
                    ack_ids,
                    now_ms,
                    secs,
                    ack_ids.len() as int,
                ).0,
            ),
        ),
{
    kv::law_keyspaces_differ();
    let n = ack_ids.len() as int;
    let start = engine::stored_cursor(call.rows, sub_id)->Ok_0;
    lemma_leasing_is_traffic(call, log, log.len() as int);
    lemma_acking_is_traffic(leases, start, sub_id, ack_ids, now_ms, secs, n);
    lemma_traffic(call.rows, engine::lease_writes(call, log));
    lemma_traffic(call.rows, engine::ack_end(call.rows, leases, sub_id, ack_ids).writes);
    lemma_traffic(
        call.rows,
        engine::changing_deadlines(leases, sub_id, ack_ids, now_ms, secs, n).0,
    );
}

/// Removing messages and deliveries keeps the index in agreement.
pub proof fn law_removing_messages_keeps_agreement(
    rows: Rows,
    after: Rows,
    gone: Set<(Seq<char>, Seq<u8>)>,
)
    requires
        agrees(rows),
        engine::only_removed(rows, after, gone),
        forall|row: (Seq<char>, Seq<u8>)| #[trigger]
            gone.contains(row) ==> row.0 == "msg"@ || row.0 == "dlv"@,
    ensures
        agrees(after),
{
    kv::law_keyspaces_differ();
    assert forall|keyspace: Seq<char>, key: Seq<u8>|
        keyspace == "meta"@ || keyspace == "idx"@ implies #[trigger] kv::fetch(after, keyspace, key)
        == kv::fetch(rows, keyspace, key) by {
        assert(!gone.contains((keyspace, key)));
        assert(rows.contains_key((keyspace, key)) <==> after.contains_key((keyspace, key)));
    }
    assert forall|t: u64, s: u64| #[trigger] leads_to(after, t, s) <==> belongs(after, t, s) by {
        let key = keys::pair_key(t, s);
        assert(kv::fetch(after, "idx"@, key) == kv::fetch(rows, "idx"@, key));
        assert(record_at(after, s) == record_at(rows, s));
        assert(leads_to(rows, t, s) <==> belongs(rows, t, s));
    }
    assert forall|sub_id: u64| (#[trigger] record_at(after, sub_id)) is Some implies (record_at(
        after,
        sub_id,
    )->0).id == sub_id && sub_id <= topic::counter(after, keys::id_seq_key_bytes()) by {
        assert(record_at(after, sub_id) == record_at(rows, sub_id));
    }
}

} // verus!
