//! The name index and the records of topics, subscriptions and snapshots lead to each other, and the
//! lists of a project hold exactly what the index leads to.

use crate::delivery::engine;
use crate::delivery::engine::LeaseCall;
use crate::delivery::lease::Leases;
use crate::delivery::snapshot;
use crate::error::ErrorView;
use crate::listing;
use crate::names;
use crate::service;
use crate::service::ServiceView;
use crate::store::codec::SnapshotView;
use crate::store::keys;
use crate::store::keys::NameKind;
use crate::store::kv;
use crate::store::kv::{Rows, Scan, ValueView, Write};
use crate::string_map::Entries;
use crate::subscription;
use crate::subscription::{OptionsView, SubscriptionView};
use crate::text;
use crate::topic;
use crate::topic::{NewMessage, TopicRecord, TopicView};
use crate::topic_index;
use vstd::prelude::*;

verus! {

/// The key under which a record of a kind is stored.
pub open spec fn record_key(kind: NameKind, id: u64) -> Seq<u8> {
    match kind {
        NameKind::Topic => keys::topic_key_bytes(id),
        NameKind::Subscription => keys::sub_key_bytes(id),
        NameKind::Snapshot => keys::snapshot_key_bytes(id),
    }
}

/// The id and the name in a record of a kind.
pub open spec fn identity(kind: NameKind, value: ValueView) -> Option<(u64, Seq<char>)> {
    match (kind, value) {
        (NameKind::Topic, ValueView::Topic(t)) => Some((t.id, t.name)),
        (NameKind::Subscription, ValueView::Subscription(s)) => Some((s.id, s.name)),
        (NameKind::Snapshot, ValueView::Snapshot(s)) => Some((s.id, s.name)),
        _ => None,
    }
}

/// The index leads from a name to an id, and the record with that id has that id and that name. The
/// id is not above the id counter.
pub open spec fn leads(rows: Rows, kind: NameKind, name: Seq<char>, id: u64) -> bool {
    let record = kv::fetch(rows, "meta"@, record_key(kind, id));
    &&& kv::fetch(rows, "meta"@, keys::name_key_bytes(kind, name)) == Some(
        ValueView::Bytes(keys::be64(id)),
    )
    &&& record is Some
    &&& identity(kind, record->0) == Some((id, name))
    &&& id <= topic::counter(rows, keys::id_seq_key_bytes())
}

/// A resource of a kind has this name.
pub open spec fn is_named(rows: Rows, kind: NameKind, name: Seq<char>) -> bool {
    exists|id: u64| leads(rows, kind, name, id)
}

/// A row of the index leads from a name to its record.
pub open spec fn leads_on(rows: Rows, kind: NameKind, key: Seq<u8>) -> bool {
    exists|name: Seq<char>|
        key == keys::name_key_bytes(kind, name) && #[trigger] is_named(rows, kind, name)
}

/// A row is in the name index of a kind.
pub open spec fn in_index(rows: Rows, kind: NameKind, key: Seq<u8>) -> bool {
    rows.contains_key(("meta"@, key)) && text::has_prefix(key, keys::name_prefix(kind))
}

/// A record of a kind is stored under an id.
pub open spec fn has_record(rows: Rows, kind: NameKind, id: u64) -> bool {
    rows.contains_key(("meta"@, record_key(kind, id)))
}

/// The name under which the index leads to the record with an id.
pub open spec fn has_name(rows: Rows, kind: NameKind, id: u64) -> bool {
    exists|name: Seq<char>| leads(rows, kind, name, id)
}

/// Every row of the name index leads to a record of that name, and to every record leads its name.
pub open spec fn well_kept(rows: Rows) -> bool {
    &&& forall|kind: NameKind, key: Seq<u8>| #[trigger]
        in_index(rows, kind, key) ==> leads_on(rows, kind, key)
    &&& forall|kind: NameKind, id: u64| #[trigger]
        has_record(rows, kind, id) ==> has_name(rows, kind, id)
}

/// The index of an empty store is well kept.
pub proof fn law_empty_store_is_well_kept()
    ensures
        well_kept(Rows::empty()),
{
}

proof fn lemma_index_key(kind: NameKind, other: NameKind, name: Seq<char>, key: Seq<u8>, id: u64)
    requires
        text::has_prefix(key, keys::name_prefix(kind)),
    ensures
        key == keys::name_key_bytes(other, name) ==> kind == other,
        key != record_key(other, id),
        key != keys::id_seq_key_bytes(),
{
    keys::lemma_prefix_bytes();
    let prefix = keys::name_prefix(kind);
    let start = key.take(prefix.len() as int);
    assert(start[0] == key[0] && start[5] == key[5] && start[6] == key[6]);
    keys::law_be64_round_trip(id, keys::be64(id));
}

proof fn lemma_record_key(kind: NameKind, other: NameKind, a: u64, b: u64, name: Seq<char>)
    ensures
        record_key(kind, a) == record_key(other, b) <==> kind == other && a == b,
        record_key(kind, a) != keys::name_key_bytes(other, name),
        record_key(kind, a) != keys::id_seq_key_bytes(),
{
    keys::law_record_keys_injective(a, b);
    keys::law_kinds_of_keys_differ(a, b, other, name);
    keys::law_kinds_of_keys_differ(b, a, other, name);
}

/// What a change of one resource's rows leaves of the others.
proof fn lemma_one_changes(rows: Rows, after: Rows, kind: NameKind, name: Seq<char>, id: u64)
    requires
        well_kept(rows),
        topic::counter(rows, keys::id_seq_key_bytes()) <= topic::counter(
            after,
            keys::id_seq_key_bytes(),
        ),
        forall|key: Seq<u8>|
            key != keys::name_key_bytes(kind, name) && key != record_key(kind, id) && key
                != keys::id_seq_key_bytes() ==> #[trigger] kv::fetch(after, "meta"@, key)
                == kv::fetch(rows, "meta"@, key),
        leads(rows, kind, name, id) || kv::fetch(
            rows,
            "meta"@,
            keys::name_key_bytes(kind, name),
        ) is None && !has_record(rows, kind, id),
        leads(after, kind, name, id) || kv::fetch(
            after,
            "meta"@,
            keys::name_key_bytes(kind, name),
        ) is None && !has_record(after, kind, id),
    ensures
        well_kept(after),
{
    let own = keys::name_key_bytes(kind, name);
    assert forall|k: NameKind, m: Seq<char>, i: u64|
        leads(rows, k, m, i) && !(k == kind && m == name && i == id) implies #[trigger] leads(
        after,
        k,
        m,
        i,
    ) by {
        let key = keys::name_key_bytes(k, m);
        assert(key.take(keys::name_prefix(k).len() as int) =~= keys::name_prefix(k));
        lemma_index_key(k, kind, name, key, id);
        lemma_record_key(k, kind, i, id, name);
        keys::law_name_key_injective(kind, m, name);
        if key == own {
            keys::law_record_keys_injective(i, id);
        }
        if record_key(k, i) == record_key(kind, id) {
            assert(has_record(rows, kind, id));
        }
        assert(kv::fetch(after, "meta"@, key) == kv::fetch(rows, "meta"@, key));
        assert(kv::fetch(after, "meta"@, record_key(k, i)) == kv::fetch(
            rows,
            "meta"@,
            record_key(k, i),
        ));
    }
    assert forall|k: NameKind, key: Seq<u8>| #[trigger] in_index(after, k, key) implies leads_on(
        after,
        k,
        key,
    ) by {
        lemma_index_key(k, kind, name, key, id);
        assert(kv::fetch(after, "meta"@, key) is Some);
        if key == own {
            assert(is_named(after, k, name));
        } else {
            assert(kv::fetch(rows, "meta"@, key) is Some);
            assert(in_index(rows, k, key));
            let m = choose|m: Seq<char>|
                key == keys::name_key_bytes(k, m) && #[trigger] is_named(rows, k, m);
            let i = choose|i: u64| leads(rows, k, m, i);
            assert(leads(after, k, m, i));
            assert(is_named(after, k, m));
        }
    }
    assert forall|k: NameKind, i: u64| #[trigger] has_record(after, k, i) implies has_name(
        after,
        k,
        i,
    ) by {
        lemma_record_key(k, kind, i, id, name);
        if k == kind && i == id {
            assert(leads(after, k, name, i));
        } else {
            assert(kv::fetch(after, "meta"@, record_key(k, i)) is Some);
            assert(has_record(rows, k, i));
            let m = choose|m: Seq<char>| leads(rows, k, m, i);
            assert(leads(after, k, m, i));
        }
    }
}

/// Creating a resource: the id counter, the record and the name's id are written, and whatever else
/// is written is not in the same keyspace.
proof fn lemma_created(
    rows: Rows,
    writes: Seq<Write>,
    kind: NameKind,
    name: Seq<char>,
    id: u64,
    value: ValueView,
)
    requires
        well_kept(rows),
        kv::fetch(rows, "meta"@, keys::name_key_bytes(kind, name)) is None,
        topic::counter(rows, keys::id_seq_key_bytes()) < id,
        identity(kind, value) == Some((id, name)),
        writes.len() >= 3,
        writes[0] == Write::Put(
            "meta"@,
            keys::id_seq_key_bytes(),
            ValueView::Bytes(keys::be64(id)),
        ),
        writes[1] == Write::Put("meta"@, record_key(kind, id), value),
        writes[2] == Write::Put(
            "meta"@,
            keys::name_key_bytes(kind, name),
            ValueView::Bytes(keys::be64(id)),
        ),
        forall|i: int, key: Seq<u8>|
            3 <= i < writes.len() ==> !(#[trigger] kv::concerns(writes[i], "meta"@, key)),
    ensures
        well_kept(kv::after_writes(rows, writes)),
        leads(kv::after_writes(rows, writes), kind, name, id),
{
    let after = kv::after_writes(rows, writes);
    let counter = keys::id_seq_key_bytes();
    let own = keys::name_key_bytes(kind, name);
    let record = record_key(kind, id);
    lemma_record_key(kind, kind, id, id, name);
    keys::law_kinds_of_keys_differ(id, id, kind, name);
    keys::law_be64_round_trip(id, keys::be64(id));
    kv::law_last_write_is_read(rows, writes, 0, "meta"@, counter);
    kv::law_last_write_is_read(rows, writes, 1, "meta"@, record);
    kv::law_last_write_is_read(rows, writes, 2, "meta"@, own);
    assert(leads(after, kind, name, id));
    if has_record(rows, kind, id) {
        let other = choose|other: Seq<char>| leads(rows, kind, other, id);
        assert(id <= topic::counter(rows, counter));
    }
    assert forall|key: Seq<u8>| key != own && key != record && key != counter implies #[trigger]
        kv::fetch(after, "meta"@, key) == kv::fetch(rows, "meta"@, key) by {
        assert forall|i: int| 0 <= i < writes.len() implies !kv::concerns(
            #[trigger] writes[i],
            "meta"@,
            key,
        ) by {
            if i >= 3 {
                assert(!kv::concerns(writes[i], "meta"@, key));
            }
        }
        kv::law_spared_row_stays(rows, writes, "meta"@, key);
    }
    lemma_one_changes(rows, after, kind, name, id);
}

/// Creating a topic, a subscription or a snapshot keeps the name index well kept, and the index leads
/// to what was created.
pub proof fn law_creating_keeps_names(
    rows: Rows,
    name: Seq<char>,
    labels: Entries,
    retention_secs: Option<i64>,
    kms_key_name: Option<Seq<char>>,
    topic_name: Seq<char>,
    topic_id: u64,
    now_ms: i64,
    opts: OptionsView,
    attach_seq: u64,
    taken: SnapshotView,
)
    requires
        well_kept(rows),
        topic::counter(rows, keys::id_seq_key_bytes()) < u64::MAX,
        taken.id == topic::fresh_id(rows),
    ensures
        topic::create_error(rows, name, retention_secs, false, false) is None ==> {
            let new = topic::new_topic(rows, name, labels, retention_secs, kms_key_name);
            let after = kv::after_writes(rows, topic::create_writes(new));
            well_kept(after) && leads(after, NameKind::Topic, name, new.id)
        },
        subscription::create_error(rows, name, topic_name, opts) is None ==> {
            let new = subscription::new_subscription(
                rows,
                name,
                topic_name,
                topic_id,
                now_ms,
                opts,
            );
            let after = kv::after_writes(rows, subscription::create_writes(new, attach_seq));
            well_kept(after) && leads(after, NameKind::Subscription, name, new.id)
        },
        snapshot::create_error(rows, taken.name) is None ==> {
            let after = kv::after_writes(rows, snapshot::create_writes(taken));
            well_kept(after) && leads(after, NameKind::Snapshot, taken.name, taken.id)
        },
{
    kv::law_keyspaces_differ();
    if topic::create_error(rows, name, retention_secs, false, false) is None {
        let new = topic::new_topic(rows, name, labels, retention_secs, kms_key_name);
        lemma_created(
            rows,
            topic::create_writes(new),
            NameKind::Topic,
            name,
            new.id,
            ValueView::Topic(new),
        );
    }
    if subscription::create_error(rows, name, topic_name, opts) is None {
        let new = subscription::new_subscription(rows, name, topic_name, topic_id, now_ms, opts);
        lemma_created(
            rows,
            subscription::create_writes(new, attach_seq),
            NameKind::Subscription,
            name,
            new.id,
            ValueView::Subscription(new),
        );
    }
    if snapshot::create_error(rows, taken.name) is None {
        lemma_created(
            rows,
            snapshot::create_writes(taken),
            NameKind::Snapshot,
            taken.name,
            taken.id,
            ValueView::Snapshot(taken),
        );
    }
}

/// Writing a record anew, with the id and the name that it has, and perhaps its name's id.
proof fn lemma_written_anew(
    rows: Rows,
    writes: Seq<Write>,
    kind: NameKind,
    name: Seq<char>,
    id: u64,
    value: ValueView,
)
    requires
        well_kept(rows),
        leads(rows, kind, name, id),
        identity(kind, value) == Some((id, name)),
        1 <= writes.len() <= 2,
        writes[0] == Write::Put("meta"@, record_key(kind, id), value),
        writes.len() == 2 ==> writes[1] == Write::Put(
            "meta"@,
            keys::name_key_bytes(kind, name),
            ValueView::Bytes(keys::be64(id)),
        ),
    ensures
        well_kept(kv::after_writes(rows, writes)),
        leads(kv::after_writes(rows, writes), kind, name, id),
{
    let after = kv::after_writes(rows, writes);
    let own = keys::name_key_bytes(kind, name);
    let record = record_key(kind, id);
    lemma_record_key(kind, kind, id, id, name);
    keys::law_kinds_of_keys_differ(id, id, kind, name);
    kv::law_last_write_is_read(rows, writes, 0, "meta"@, record);
    if writes.len() == 2 {
        kv::law_last_write_is_read(rows, writes, 1, "meta"@, own);
    } else {
        kv::law_spared_row_stays(rows, writes, "meta"@, own);
    }
    kv::law_spared_row_stays(rows, writes, "meta"@, keys::id_seq_key_bytes());
    assert forall|key: Seq<u8>| key != own && key != record implies #[trigger] kv::fetch(
        after,
        "meta"@,
        key,
    ) == kv::fetch(rows, "meta"@, key) by {
        kv::law_spared_row_stays(rows, writes, "meta"@, key);
    }
    lemma_one_changes(rows, after, kind, name, id);
}

/// Changing a topic, a subscription or a snapshot in whatever way, but for its id and its name, keeps
/// the name index well kept, and the index still leads to it.
pub proof fn law_changing_keeps_names(
    rows: Rows,
    t: TopicView,
    s: SubscriptionView,
    taken: SnapshotView,
    labels: Entries,
)
    requires
        well_kept(rows),
    ensures
        leads(rows, NameKind::Topic, t.name, t.id) ==> {
            let after = kv::after_writes(rows, topic::update_writes(t));
            well_kept(after) && leads(after, NameKind::Topic, t.name, t.id)
        },
        leads(rows, NameKind::Subscription, s.name, s.id) ==> {
            let after = kv::after_writes(rows, subscription::persist_writes(s));
            well_kept(after) && leads(after, NameKind::Subscription, s.name, s.id)
        },
        leads(rows, NameKind::Snapshot, taken.name, taken.id) ==> {
            let after = kv::after_writes(rows, snapshot::relabel_writes(taken, labels));
            well_kept(after) && leads(after, NameKind::Snapshot, taken.name, taken.id)
        },
{
    if leads(rows, NameKind::Topic, t.name, t.id) {
        lemma_written_anew(
            rows,
            topic::update_writes(t),
            NameKind::Topic,
            t.name,
            t.id,
            ValueView::Topic(t),
        );
    }
    if leads(rows, NameKind::Subscription, s.name, s.id) {
        lemma_written_anew(
            rows,
            subscription::persist_writes(s),
            NameKind::Subscription,
            s.name,
            s.id,
            ValueView::Subscription(s),
        );
    }
    if leads(rows, NameKind::Snapshot, taken.name, taken.id) {
        lemma_written_anew(
            rows,
            snapshot::relabel_writes(taken, labels),
            NameKind::Snapshot,
            taken.name,
            taken.id,
            ValueView::Snapshot(SnapshotView { labels, ..taken }),
        );
    }
}

/// Removing a record and its name's id, and what is not in the same keyspace.
proof fn lemma_removed(
    rows: Rows,
    writes: Seq<Write>,
    kind: NameKind,
    name: Seq<char>,
    id: u64,
)
    requires
        well_kept(rows),
        leads(rows, kind, name, id),
        writes.len() >= 2,
        writes[0] == Write::Delete("meta"@, record_key(kind, id)),
        writes[1] == Write::Delete("meta"@, keys::name_key_bytes(kind, name)),
        forall|i: int, key: Seq<u8>|
            2 <= i < writes.len() ==> !(#[trigger] kv::concerns(writes[i], "meta"@, key)),
    ensures
        well_kept(kv::after_writes(rows, writes)),
        !is_named(kv::after_writes(rows, writes), kind, name),
        !has_record(kv::after_writes(rows, writes), kind, id),
{
    let after = kv::after_writes(rows, writes);
    let own = keys::name_key_bytes(kind, name);
    let record = record_key(kind, id);
    lemma_record_key(kind, kind, id, id, name);
    keys::law_kinds_of_keys_differ(id, id, kind, name);
    kv::law_last_write_is_read(rows, writes, 0, "meta"@, record);
    kv::law_last_write_is_read(rows, writes, 1, "meta"@, own);
    assert(kv::fetch(after, "meta"@, record) is None);
    assert forall|key: Seq<u8>| key != own && key != record implies #[trigger] kv::fetch(
        after,
        "meta"@,
        key,
    ) == kv::fetch(rows, "meta"@, key) by {
        assert forall|i: int| 0 <= i < writes.len() implies !kv::concerns(
            #[trigger] writes[i],
            "meta"@,
            key,
        ) by {
            if i >= 2 {
                assert(!kv::concerns(writes[i], "meta"@, key));
            }
        }
        kv::law_spared_row_stays(rows, writes, "meta"@, key);
    }
    assert(kv::fetch(after, "meta"@, keys::id_seq_key_bytes()) == kv::fetch(
        rows,
        "meta"@,
        keys::id_seq_key_bytes(),
    ));
    lemma_one_changes(rows, after, kind, name, id);
}

/// Deleting a topic, a subscription or a snapshot keeps the name index well kept, and the name is no
/// longer in it.
pub proof fn law_deleting_keeps_names(rows: Rows, s: SubscriptionView, name: Seq<char>, id: u64)
    requires
        well_kept(rows),
    ensures
        leads(rows, NameKind::Topic, name, id) ==> {
            let after = kv::after_writes(rows, topic::delete_writes(id, name));
            well_kept(after) && !is_named(after, NameKind::Topic, name)
        },
        leads(rows, NameKind::Subscription, s.name, s.id) ==> {
            let after = kv::after_writes(rows, subscription::delete_writes(s));
            well_kept(after) && !is_named(after, NameKind::Subscription, s.name)
        },
        leads(rows, NameKind::Snapshot, name, id) ==> {
            let after = kv::after_writes(rows, snapshot::delete_writes(id, name));
            well_kept(after) && !is_named(after, NameKind::Snapshot, name)
        },
{
    kv::law_keyspaces_differ();
    if leads(rows, NameKind::Topic, name, id) {
        lemma_removed(rows, topic::delete_writes(id, name), NameKind::Topic, name, id);
    }
    if leads(rows, NameKind::Subscription, s.name, s.id) {
        lemma_removed(
            rows,
            subscription::delete_writes(s),
            NameKind::Subscription,
            s.name,
            s.id,
        );
    }
    if leads(rows, NameKind::Snapshot, name, id) {
        lemma_removed(rows, snapshot::delete_writes(id, name), NameKind::Snapshot, name, id);
    }
}

/// A key that the name index is made of: of a row of it, of a record, or of the id counter.
pub open spec fn concerns_names(key: Seq<u8>) -> bool {
    ||| key == keys::id_seq_key_bytes()
    ||| exists|kind: NameKind| text::has_prefix(key, #[trigger] keys::name_prefix(kind))
    ||| exists|kind: NameKind, id: u64| key == #[trigger] record_key(kind, id)
}

proof fn lemma_names_stay(rows: Rows, after: Rows)
    requires
        well_kept(rows),
        forall|key: Seq<u8>| #[trigger]
            concerns_names(key) ==> kv::fetch(after, "meta"@, key) == kv::fetch(rows, "meta"@, key),
    ensures
        well_kept(after),
        forall|kind: NameKind, name: Seq<char>, id: u64| #[trigger]
            leads(after, kind, name, id) <==> leads(rows, kind, name, id),
{
    assert(concerns_names(keys::id_seq_key_bytes()));
    assert forall|kind: NameKind, name: Seq<char>, id: u64| #[trigger]
        leads(after, kind, name, id) <==> leads(rows, kind, name, id) by {
        let key = keys::name_key_bytes(kind, name);
        assert(key.take(keys::name_prefix(kind).len() as int) =~= keys::name_prefix(kind));
        assert(concerns_names(key));
        assert(concerns_names(record_key(kind, id)));
    }
    assert forall|kind: NameKind, key: Seq<u8>| #[trigger]
        in_index(after, kind, key) implies leads_on(after, kind, key) by {
        assert(concerns_names(key));
        assert(kv::fetch(after, "meta"@, key) is Some);
        assert(in_index(rows, kind, key));
        let name = choose|name: Seq<char>|
            key == keys::name_key_bytes(kind, name) && #[trigger] is_named(rows, kind, name);
        let id = choose|id: u64| leads(rows, kind, name, id);
        assert(leads(after, kind, name, id));
        assert(is_named(after, kind, name));
    }
    assert forall|kind: NameKind, id: u64| #[trigger] has_record(after, kind, id) implies has_name(
        after,
        kind,
        id,
    ) by {
        assert(concerns_names(record_key(kind, id)));
        assert(kv::fetch(after, "meta"@, record_key(kind, id)) is Some);
        assert(has_record(rows, kind, id));
        let name = choose|name: Seq<char>| leads(rows, kind, name, id);
        assert(leads(after, kind, name, id));
    }
}

proof fn lemma_traffic(rows: Rows, writes: Seq<Write>)
    requires
        well_kept(rows),
        forall|i: int| 0 <= i < writes.len() ==> topic_index::is_traffic(#[trigger] writes[i]),
    ensures
        well_kept(kv::after_writes(rows, writes)),
{
    let after = kv::after_writes(rows, writes);
    assert forall|key: Seq<u8>| #[trigger] concerns_names(key) implies kv::fetch(
        after,
        "meta"@,
        key,
    ) == kv::fetch(rows, "meta"@, key) by {
        assert forall|i: int| 0 <= i < writes.len() implies !kv::concerns(
            #[trigger] writes[i],
            "meta"@,
            key,
        ) by {
            if kv::concerns(writes[i], "meta"@, key) {
                lemma_counters_apart(key);
            }
        }
        kv::law_spared_row_stays(rows, writes, "meta"@, key);
    }
    lemma_names_stay(rows, after);
}

proof fn lemma_counters_apart(key: Seq<u8>)
    requires
        key == keys::lease_seq_key_bytes() || exists|topic_id: u64| #[trigger]
            keys::topic_seq_counter_key_bytes(topic_id) == key,
    ensures
        !concerns_names(key),
{
    let topic_id = choose|topic_id: u64| #[trigger]
        keys::topic_seq_counter_key_bytes(topic_id) == key;
    keys::lemma_prefix_bytes();
    keys::law_kinds_of_keys_differ(topic_id, topic_id, NameKind::Topic, Seq::empty());
    assert forall|kind: NameKind| !text::has_prefix(key, #[trigger] keys::name_prefix(kind)) by {
        let prefix = keys::name_prefix(kind);
        if text::has_prefix(key, prefix) {
            assert(key.take(prefix.len() as int)[0] == key[0]);
        }
    }
    assert forall|kind: NameKind, id: u64| key != #[trigger] record_key(kind, id) by {
        keys::law_kinds_of_keys_differ(id, topic_id, NameKind::Topic, Seq::empty());
        keys::law_kinds_of_keys_differ(topic_id, id, NameKind::Topic, Seq::empty());
    }
}

/// Publishing messages keeps the name index well kept.
pub proof fn law_publishing_keeps_names(
    rows: Rows,
    topic_id: u64,
    tail: u64,
    messages: Seq<NewMessage>,
    now_ms: i64,
    expire_at_ms: i64,
)
    requires
        well_kept(rows),
    ensures
        well_kept(
            kv::after_writes(
                rows,
                topic::append_writes(
                    topic_id,
                    tail,
                    messages,
                    now_ms,
                    expire_at_ms,
                    messages.len() as int,
                ),
            ),
        ),
{
    let n = messages.len() as int;
    topic_index::lemma_append_is_traffic(topic_id, tail, messages, now_ms, expire_at_ms, n);
    lemma_traffic(rows, topic::append_writes(topic_id, tail, messages, now_ms, expire_at_ms, n));
}

/// Handing out messages, acknowledging them and changing their deadlines keeps the name index well
/// kept.
pub proof fn law_delivering_keeps_names(
    call: LeaseCall,
    log: Scan,
    leases: Leases,
    sub_id: u64,
    ack_ids: Seq<Seq<char>>,
    now_ms: i64,
    secs: i32,
)
    requires
        well_kept(call.rows),
    ensures
        well_kept(kv::after_writes(call.rows, engine::lease_writes(call, log))),
        well_kept(
            kv::after_writes(
                call.rows,
                engine::ack_end(call.rows, leases, sub_id, ack_ids).writes,
            ),
        ),
        well_kept(
            kv::after_writes(
                call.rows,
                engine::changing_deadlines(
                    leases,
                    sub_id,
                    ack_ids,
                    now_ms,
                    secs,
                    ack_ids.len() as int,
                ).0,
            ),
        ),
{
    kv::law_keyspaces_differ();
    let n = ack_ids.len() as int;
    let start = engine::stored_cursor(call.rows, sub_id)->Ok_0;
    topic_index::lemma_leasing_is_traffic(call, log, log.len() as int);
    topic_index::lemma_acking_is_traffic(leases, start, sub_id, ack_ids, now_ms, secs, n);
    lemma_traffic(call.rows, engine::lease_writes(call, log));
    lemma_traffic(call.rows, engine::ack_end(call.rows, leases, sub_id, ack_ids).writes);
    lemma_traffic(
        call.rows,
        engine::changing_deadlines(leases, sub_id, ack_ids, now_ms, secs, n).0,
    );
}

/// Removing messages and deliveries keeps the name index well kept.
pub proof fn law_removing_messages_keeps_names(
    rows: Rows,
    after: Rows,
    gone: Set<(Seq<char>, Seq<u8>)>,
)
    requires
        well_kept(rows),
        engine::only_removed(rows, after, gone),
        forall|row: (Seq<char>, Seq<u8>)| #[trigger]
            gone.contains(row) ==> row.0 == "msg"@ || row.0 == "dlv"@,
    ensures
        well_kept(after),
{
    kv::law_keyspaces_differ();
    assert forall|key: Seq<u8>| #[trigger] concerns_names(key) implies kv::fetch(
        after,
        "meta"@,
        key,
    ) == kv::fetch(rows, "meta"@, key) by {
        assert(!gone.contains(("meta"@, key)));
        assert(rows.contains_key(("meta"@, key)) <==> after.contains_key(("meta"@, key)));
    }
    lemma_names_stay(rows, after);
}

/// In a well-kept store what is found under a name has that name, and a name under which nothing is
/// found is not in the index.
pub proof fn law_found_has_the_name(rows: Rows, name: Seq<char>)
    requires
        well_kept(rows),
    ensures
        match subscription::subscription_named(rows, name) {
            Ok(s) => s.name == name && leads(rows, NameKind::Subscription, name, s.id),
            Err(e) => e == (ErrorView::NotFound { resource: name }) && !is_named(
                rows,
                NameKind::Subscription,
                name,
            ),
        },
        match topic::topic_named(rows, name) {
            Ok(t) => t.name == name && leads(rows, NameKind::Topic, name, t.id),
            Err(e) => Some(e) == names::topic_name_error(name) || e == (ErrorView::NotFound {
                resource: name,
            }) && !is_named(rows, NameKind::Topic, name),
        },
{
    lemma_lookup(rows, NameKind::Subscription, name);
    lemma_lookup(rows, NameKind::Topic, name);
}

pub(crate) proof fn lemma_lookup(rows: Rows, kind: NameKind, name: Seq<char>)
    requires
        well_kept(rows),
    ensures
        match kv::fetch(rows, "meta"@, keys::name_key_bytes(kind, name)) {
            None => !is_named(rows, kind, name),
            Some(v) => {
                &&& v matches ValueView::Bytes(b)
                &&& keys::from_be64(b) is Some
                &&& leads(rows, kind, name, keys::from_be64(b)->0)
            },
        },
{
    let key = keys::name_key_bytes(kind, name);
    assert(key.take(keys::name_prefix(kind).len() as int) =~= keys::name_prefix(kind));
    if kv::fetch(rows, "meta"@, key) is Some {
        assert(in_index(rows, kind, key));
        let m = choose|m: Seq<char>|
            key == keys::name_key_bytes(kind, m) && #[trigger] is_named(rows, kind, m);
        keys::law_name_key_injective(kind, name, m);
        let id = choose|id: u64| leads(rows, kind, m, id);
        keys::law_be64_round_trip(id, keys::be64(id));
    }
}

proof fn lemma_stored_is_named(rows: Rows, sub_id: u64, resource: Seq<char>)
    requires
        well_kept(rows),
        subscription::stored_subscription(rows, sub_id, resource) is Ok,
    ensures
        ({
            let found = subscription::stored_subscription(rows, sub_id, resource)->Ok_0;
            found.id == sub_id && leads(rows, NameKind::Subscription, found.name, sub_id)
        }),
{
    assert(has_record(rows, NameKind::Subscription, sub_id));
    let name = choose|name: Seq<char>| leads(rows, NameKind::Subscription, name, sub_id);
    assert(leads(rows, NameKind::Subscription, name, sub_id));
}

/// Noting that a subscription was used keeps the name index well kept.
pub proof fn law_noting_a_use_keeps_names(rows: Rows, sub_id: u64, now_ms: i64)
    requires
        well_kept(rows),
    ensures
        well_kept(kv::after_writes(rows, subscription::touch_writes(rows, sub_id, now_ms))),
{
    if let Ok(found) = subscription::stored_subscription(rows, sub_id, Seq::empty()) {
        lemma_stored_is_named(rows, sub_id, Seq::empty());
        let changed = SubscriptionView { last_activity_ts_ms: now_ms, ..found };
        lemma_written_anew(
            rows,
            subscription::persist_writes(changed),
            NameKind::Subscription,
            changed.name,
            changed.id,
            ValueView::Subscription(changed),
        );
    }
}

proof fn lemma_orphaning_keeps_names(rows: Rows, ids: Seq<u64>, n: int)
    requires
        well_kept(rows),
        0 <= n <= ids.len(),
    ensures
        well_kept(kv::after_writes(rows, service::orphaning(rows, ids, n).0)),
    decreases n,
{
    if n > 0 {
        lemma_orphaning_keeps_names(rows, ids, n - 1);
        let (writes, failure) = service::orphaning(rows, ids, n - 1);
        let mid = kv::after_writes(rows, writes);
        let id = ids[n - 1];
        let resource = "sub_id="@ + text::dec(id as nat);
        if failure is None && subscription::stored_subscription(mid, id, resource) is Ok {
            lemma_stored_is_named(mid, id, resource);
            let changed = subscription::orphaned(
                subscription::stored_subscription(mid, id, resource)->Ok_0,
            );
            lemma_written_anew(
                mid,
                subscription::persist_writes(changed),
                NameKind::Subscription,
                changed.name,
                changed.id,
                ValueView::Subscription(changed),
            );
            kv::lemma_after_concat(rows, writes, subscription::persist_writes(changed));
        }
    }
}

/// Deleting a topic, with all that this changes in its subscriptions, keeps the name index well kept.
pub proof fn law_deleting_a_topic_keeps_names(s: ServiceView, name: Seq<char>)
    requires
        well_kept(s.rows),
    ensures
        well_kept(kv::after_writes(s.rows, service::delete_topic_effect(s, name).writes)),
{
    if let Ok(t) = topic::topic_named(s.rows, name) {
        let ids = subscription::attached_ids(s.rows, t.id);
        let (writes, failure) = service::orphaning(s.rows, ids, ids.len() as int);
        let mid = kv::after_writes(s.rows, writes);
        lemma_orphaning_keeps_names(s.rows, ids, ids.len() as int);
        if let Ok(id) = topic::topic_id_of(mid, name) {
            lemma_lookup(mid, NameKind::Topic, name);
            lemma_removed(mid, topic::delete_writes(id, name), NameKind::Topic, name, id);
            kv::lemma_after_concat(s.rows, writes, topic::delete_writes(id, name));
        }
    }
}

/// A sweep of expired subscriptions keeps the name index well kept, however far it comes.
pub proof fn law_sweep_keeps_names(
    rows: Rows,
    subscriptions: Seq<SubscriptionView>,
    now_ms: i64,
    n: int,
)
    requires
        well_kept(rows),
        0 <= n <= subscriptions.len(),
    ensures
        well_kept(
            kv::after_writes(rows, subscription::swept(rows, subscriptions, now_ms, n).writes),
        ),
    decreases n,
{
    if n > 0 {
        law_sweep_keeps_names(rows, subscriptions, now_ms, n - 1);
        let before = subscription::swept(rows, subscriptions, now_ms, n - 1);
        let mid = kv::after_writes(rows, before.writes);
        let name = subscriptions[n - 1].name;
        if let Ok(found) = subscription::subscription_named(mid, name) {
            law_found_has_the_name(mid, name);
            law_deleting_keeps_names(mid, found, name, 0);
            kv::lemma_after_concat(rows, before.writes, subscription::delete_writes(found));
        }
    }
}

/// A sweep of expired snapshots keeps the name index well kept, however far it comes.
pub proof fn law_snapshot_sweep_keeps_names(
    rows: Rows,
    snapshots: Seq<SnapshotView>,
    now_ms: i64,
    n: int,
)
    requires
        well_kept(rows),
        0 <= n <= snapshots.len(),
    ensures
        well_kept(kv::after_writes(rows, snapshot::swept(rows, snapshots, now_ms, n).writes)),
    decreases n,
{
    if n > 0 {
        law_snapshot_sweep_keeps_names(rows, snapshots, now_ms, n - 1);
        let before = snapshot::swept(rows, snapshots, now_ms, n - 1);
        let mid = kv::after_writes(rows, before.writes);
        let name = snapshots[n - 1].name;
        if let Ok(id) = snapshot::snapshot_id_of(mid, name) {
            lemma_lookup(mid, NameKind::Snapshot, name);
            lemma_removed(mid, snapshot::delete_writes(id, name), NameKind::Snapshot, name, id);
            kv::lemma_after_concat(rows, before.writes, snapshot::delete_writes(id, name));
        }
    }
}

/// How the name of every topic of a project starts.
pub open spec fn topics_of(project_id: Seq<char>) -> Seq<char> {
    "projects/"@ + project_id + "/topics/"@
}

/// How the name of every subscription of a project starts.
pub open spec fn subscriptions_of(project_id: Seq<char>) -> Seq<char> {
    "projects/"@ + project_id + "/subscriptions/"@
}

/// A name is in one project only, where project ids hold no slash.
pub proof fn law_name_is_in_one_project(name: Seq<char>, a: Seq<char>, b: Seq<char>)
    requires
        !a.contains('/'),
        !b.contains('/'),
        ({
            ||| text::has_prefix(name, topics_of(a)) && text::has_prefix(name, topics_of(b))
            ||| text::has_prefix(name, subscriptions_of(a)) && text::has_prefix(
                name,
                subscriptions_of(b),
            )
        }),
    ensures
        a == b,
{
    reveal_strlit("projects/");
    reveal_strlit("/topics/");
    reveal_strlit("/subscriptions/");
    if text::has_prefix(name, topics_of(a)) && text::has_prefix(name, topics_of(b)) {
        lemma_project_in_name(name, a, b, "/topics/"@);
    } else {
        lemma_project_in_name(name, a, b, "/subscriptions/"@);
    }
}

proof fn lemma_project_in_name(name: Seq<char>, a: Seq<char>, b: Seq<char>, collection: Seq<char>)
    requires
        !a.contains('/'),
        !b.contains('/'),
        collection.len() > 0,
        collection[0] == '/',
        text::has_prefix(name, "projects/"@ + a + collection),
        text::has_prefix(name, "projects/"@ + b + collection),
    ensures
        a == b,
{
    let n = "projects/"@.len() as int;
    let x = "projects/"@ + a + collection;
    let y = "projects/"@ + b + collection;
    assert forall|i: int| 0 <= i < x.len() implies name[i] == #[trigger] x[i] by {
        assert(name.take(x.len() as int)[i] == x[i]);
    }
    assert forall|i: int| 0 <= i < y.len() implies name[i] == #[trigger] y[i] by {
        assert(name.take(y.len() as int)[i] == y[i]);
    }
    assert(x[n + a.len()] == '/');
    assert(y[n + b.len()] == '/');
    if a.len() < b.len() {
        assert(y[n + a.len()] == b[a.len() as int]);
        assert(b.contains('/'));
    } else if b.len() < a.len() {
        assert(x[n + b.len()] == a[b.len() as int]);
        assert(a.contains('/'));
    } else {
        assert forall|i: int| 0 <= i < a.len() implies a[i] == b[i] by {
            assert(x[n + i] == a[i]);
            assert(y[n + i] == b[i]);
        }
        assert(a =~= b);
    }
}

proof fn lemma_names_in(scan: Scan, project_prefix: Seq<char>)
    requires
        kv::scan_increases(scan),
        forall|i: int|
            0 <= i < scan.len() ==> text::has_prefix(
                (#[trigger] scan[i]).0,
                keys::name_prefix(NameKind::Subscription),
            ),
    ensures
        ({
            let skip = keys::name_prefix(NameKind::Subscription).len() as int;
            let found = subscription::names_in(scan, skip, project_prefix);
            &&& listing::names_differ::<String>(found)
            &&& forall|name: Seq<char>| #[trigger]
                found.contains(name) <==> text::has_prefix(name, project_prefix) && kv::scan_has(
                    scan,
                    keys::name_key_bytes(NameKind::Subscription, name),
                )
        }),
    decreases scan.len(),
{
    let kind = NameKind::Subscription;
    let skip = keys::name_prefix(kind).len() as int;
    let found = subscription::names_in(scan, skip, project_prefix);
    if scan.len() == 0 {
        assert forall|name: Seq<char>| !kv::scan_has(scan, keys::name_key_bytes(kind, name)) by {}
    } else {
        let init = scan.drop_last();
        let last = scan.len() - 1;
        let key = scan[last].0;
        assert forall|i: int| 0 <= i < init.len() implies text::has_prefix(
            (#[trigger] init[i]).0,
            keys::name_prefix(kind),
        ) by {
            assert(init[i] == scan[i]);
        }
        assert forall|i: int, j: int| 0 <= i < j < init.len() implies #[trigger] text::bytes_lt(
            init[i].0,
            init[j].0,
        ) by {
            assert(text::bytes_lt(scan[i].0, scan[j].0));
        }
        lemma_names_in(init, project_prefix);
        let before = subscription::names_in(init, skip, project_prefix);
        assert forall|k: Seq<u8>| #[trigger]
            kv::scan_has(scan, k) <==> kv::scan_has(init, k) || k == key by {
            if kv::scan_has(scan, k) {
                let i = choose|i: int| 0 <= i < scan.len() && (#[trigger] scan[i]).0 == k;
                if i < last {
                    assert(init[i].0 == k);
                }
            }
            if kv::scan_has(init, k) {
                let i = choose|i: int| 0 <= i < init.len() && (#[trigger] init[i]).0 == k;
                assert(scan[i].0 == k);
            }
            if k == key {
                assert(scan[last].0 == k);
            }
        }
        assert(!kv::scan_has(init, key)) by {
            if kv::scan_has(init, key) {
                let i = choose|i: int| 0 <= i < init.len() && (#[trigger] init[i]).0 == key;
                assert(text::bytes_lt(scan[i].0, scan[last].0));
                text::lemma_bytes_lt_irreflexive(key);
            }
        }
        assert(text::has_prefix(scan[last].0, keys::name_prefix(kind)));
        let rest = key.skip(skip);
        assert(keys::name_prefix(kind) + rest =~= key);
        assert forall|name: Seq<char>|
            keys::name_key_bytes(kind, name) == key <==> #[trigger] text::text_in(rest) == Some(
                name,
            ) by {
            vstd::utf8::encode_utf8_valid_utf8(name);
            vstd::utf8::encode_utf8_decode_utf8(name);
            assert(keys::name_key_bytes(kind, name).skip(skip) =~= vstd::utf8::encode_utf8(name));
            if vstd::utf8::valid_utf8(rest) {
                vstd::utf8::decode_utf8_encode_utf8(rest);
            }
        }
        match text::text_in(rest) {
            Some(name) => {
                assert(keys::name_key_bytes(kind, name) == key);
                if text::has_prefix(name, project_prefix) {
                    assert(found == before.push(name));
                    assert(!before.contains(name));
                    assert forall|m: Seq<char>| #[trigger]
                        found.contains(m) <==> before.contains(m) || m == name by {
                        if before.contains(m) {
                            let i = choose|i: int| 0 <= i < before.len() && before[i] == m;
                            assert(found[i] == m);
                        }
                        if m == name {
                            assert(found[before.len() as int] == m);
                        }
                    }
                    assert forall|i: int, j: int|
                        #![trigger found[i], found[j]]
                        0 <= i < j < found.len() implies found[i] != found[j] by {
                        if j == before.len() {
                            assert(before.contains(before[i]));
                        } else {
                            assert(found[i] == before[i] && found[j] == before[j]);
                        }
                    }
                } else {
                    assert(found == before);
                }
                assert forall|m: Seq<char>| #[trigger]
                    found.contains(m) <==> text::has_prefix(m, project_prefix) && kv::scan_has(
                        scan,
                        keys::name_key_bytes(kind, m),
                    ) by {
                    assert(kv::scan_has(scan, keys::name_key_bytes(kind, m)) <==> kv::scan_has(
                        init,
                        keys::name_key_bytes(kind, m),
                    ) || keys::name_key_bytes(kind, m) == key);
                    keys::law_name_key_injective(kind, m, name);
                    assert(before.contains(m) <==> text::has_prefix(m, project_prefix)
                        && kv::scan_has(init, keys::name_key_bytes(kind, m)));
                }
            },
            None => {
                assert(found == before);
                assert forall|m: Seq<char>| #[trigger]
                    found.contains(m) <==> text::has_prefix(m, project_prefix) && kv::scan_has(
                        scan,
                        keys::name_key_bytes(kind, m),
                    ) by {
                    assert(keys::name_key_bytes(kind, m) == key <==> text::text_in(rest) == Some(
                        m,
                    ));
                    assert(kv::scan_has(scan, keys::name_key_bytes(kind, m)) <==> kv::scan_has(
                        init,
                        keys::name_key_bytes(kind, m),
                    ) || keys::name_key_bytes(kind, m) == key);
                    assert(before.contains(m) <==> text::has_prefix(m, project_prefix)
                        && kv::scan_has(init, keys::name_key_bytes(kind, m)));
                }
            },
        }
    }
}

/// The names that are listed for a project are those of its subscriptions, each once, in order, and
/// none of another project.
pub proof fn law_project_subscriptions(rows: Rows, project_id: Seq<char>)
    requires
        well_kept(rows),
        kv::has_scan(rows, "meta"@, keys::name_prefix(NameKind::Subscription)),
    ensures
        ({
            let names = subscription::project_names(rows, project_id);
            &&& listing::names_increase::<String>(names)
            &&& forall|name: Seq<char>| #[trigger]
                names.contains(name) <==> is_named(rows, NameKind::Subscription, name)
                    && text::has_prefix(name, subscriptions_of(project_id))
        }),
{
    let kind = NameKind::Subscription;
    let prefix = keys::name_prefix(kind);
    reveal_strlit("");
    assert(""@ =~= Seq::<char>::empty());
    assert(keys::name_key_bytes(kind, ""@) =~= prefix);
    let scan = kv::scan_of(rows, "meta"@, prefix);
    let found = subscription::names_in(
        scan,
        prefix.len() as int,
        subscriptions_of(project_id),
    );
    let names = subscription::project_names(rows, project_id);
    lemma_names_in(scan, subscriptions_of(project_id));
    listing::law_sorting_keeps_the_values::<String>(found);
    listing::law_sorted_names_increase::<String>(found);
    assert forall|name: Seq<char>| #[trigger]
        names.contains(name) <==> is_named(rows, kind, name) && text::has_prefix(
            name,
            subscriptions_of(project_id),
        ) by {
        let key = keys::name_key_bytes(kind, name);
        assert(found.contains(name) <==> names.contains(name));
        assert(key.take(prefix.len() as int) =~= prefix);
        lemma_lookup(rows, kind, name);
        if kv::scan_has(scan, key) {
            let i = choose|i: int| 0 <= i < scan.len() && (#[trigger] scan[i]).0 == key;
            assert(rows.contains_key(("meta"@, scan[i].0)));
        }
        if is_named(rows, kind, name) {
            assert(rows.contains_key(("meta"@, key)));
            assert(kv::scan_has(scan, key));
        }
    }
}

proof fn lemma_found_by_names(rows: Rows, names: Seq<Seq<char>>)
    requires
        well_kept(rows),
        forall|i: int|
            0 <= i < names.len() ==> is_named(rows, NameKind::Subscription, #[trigger] names[i]),
    ensures
        subscription::subscriptions_named(rows, names) is Ok,
        ({
            let found = subscription::subscriptions_named(rows, names)->Ok_0;
            &&& found.len() == names.len()
            &&& forall|i: int|
                0 <= i < names.len() ==> {
                    &&& (#[trigger] found[i]).name == names[i]
                    &&& subscription::subscription_named(rows, names[i]) == Ok::<_, ErrorView>(
                        found[i],
                    )
                }
        }),
    decreases names.len(),
{
    if names.len() > 0 {
        let init = names.drop_last();
        assert forall|i: int| 0 <= i < init.len() implies is_named(
            rows,
            NameKind::Subscription,
            #[trigger] init[i],
        ) by {
            assert(init[i] == names[i]);
        }
        lemma_found_by_names(rows, init);
        let last = names[names.len() - 1];
        assert(is_named(rows, NameKind::Subscription, last));
        law_found_has_the_name(rows, last);
        let before = subscription::subscriptions_named(rows, init)->Ok_0;
        let found = subscription::subscriptions_named(rows, names)->Ok_0;
        assert forall|i: int| 0 <= i < names.len() implies {
            &&& (#[trigger] found[i]).name == names[i]
            &&& subscription::subscription_named(rows, names[i]) == Ok::<_, ErrorView>(found[i])
        } by {
            if i < init.len() {
                assert(found[i] == before[i]);
                assert(init[i] == names[i]);
            }
        }
    }
}

/// Following the page tokens gives every subscription of a project once, in the order of the names,
/// and none of another project. Every page can be read, holds what is found under the names that
/// come next, and gives no token exactly when it is the last; the pages up to the last hold
/// everything. A page size of 0 gives everything on one page.
pub proof fn law_subscription_pages(rows: Rows, project_id: Seq<char>, page_size: usize, n: nat)
    requires
        well_kept(rows),
        kv::has_scan(rows, "meta"@, keys::name_prefix(NameKind::Subscription)),
    ensures
        ({
            let names = subscription::project_names(rows, project_id);
            let limit = subscription::page_limit(page_size);
            &&& listing::names_increase::<String>(names)
            &&& forall|name: Seq<char>| #[trigger]
                names.contains(name) <==> is_named(rows, NameKind::Subscription, name)
                    && text::has_prefix(name, subscriptions_of(project_id))
            &&& listing::token_of_page::<String>(names, limit, n) is Some <==> n == 0 || n * limit
                < names.len()
            &&& listing::token_of_page::<String>(names, limit, n) matches Some(token) ==> {
                let this = listing::page::<String>(names, limit, token);
                let found = subscription::subscriptions_named(rows, this);
                let next = listing::next_token::<String>(names, limit, token);
                &&& found is Ok
                &&& found->Ok_0.len() == this.len()
                &&& forall|i: int|
                    0 <= i < this.len() ==> {
                        &&& (#[trigger] found->Ok_0[i]).name == this[i]
                        &&& subscription::subscription_named(rows, this[i]) == Ok::<_, ErrorView>(
                            found->Ok_0[i],
                        )
                    }
                &&& next is None <==> (n + 1) * limit >= names.len()
                &&& next is None ==> listing::first_pages::<String>(names, limit, n + 1) == names
            }
            &&& page_size == 0 && names.len() <= usize::MAX ==> {
                &&& listing::page::<String>(names, limit, None) == names
                &&& listing::next_token::<String>(names, limit, None) is None
            }
        }),
{
    let names = subscription::project_names(rows, project_id);
    let limit = subscription::page_limit(page_size);
    law_project_subscriptions(rows, project_id);
    listing::law_following_tokens_gives_the_list::<String>(names, limit, n);
    if let Some(token) = listing::token_of_page::<String>(names, limit, n) {
        let this = listing::page::<String>(names, limit, token);
        assert forall|i: int| 0 <= i < this.len() implies is_named(
            rows,
            NameKind::Subscription,
            #[trigger] this[i],
        ) by {
            assert(this[i] == names[n * limit + i]);
            assert(names.contains(this[i]));
        }
        lemma_found_by_names(rows, this);
    }
    if page_size == 0 && names.len() <= usize::MAX {
        assert(listing::page::<String>(names, limit, None) =~= names);
    }
}

/// A topic is stored and its name leads to it.
pub open spec fn is_topic(rows: Rows, t: TopicView) -> bool {
    &&& leads(rows, NameKind::Topic, t.name, t.id)
    &&& kv::fetch(rows, "meta"@, keys::topic_key_bytes(t.id)) == Some(ValueView::Topic(t))
}

/// A row of the index leads to a topic.
pub open spec fn is_topic_at(rows: Rows, t: TopicView, key: Seq<u8>) -> bool {
    is_topic(rows, t) && key == keys::name_key_bytes(NameKind::Topic, t.name)
}

proof fn lemma_indexed_topics(rows: Rows, scan: Scan)
    requires
        well_kept(rows),
        forall|i: int|
            0 <= i < scan.len() ==> {
                &&& in_index(rows, NameKind::Topic, (#[trigger] scan[i]).0)
                &&& kv::fetch(rows, "meta"@, scan[i].0) == Some(scan[i].1)
            },
    ensures
        topic::indexed_topics(rows, scan) is Ok,
        (topic::indexed_topics(rows, scan)->Ok_0).len() == scan.len(),
        forall|i: int|
            0 <= i < scan.len() ==> is_topic_at(
                rows,
                (topic::indexed_topics(rows, scan)->Ok_0)[i],
                (#[trigger] scan[i]).0,
            ),
    decreases scan.len(),
{
    let kind = NameKind::Topic;
    if scan.len() > 0 {
        let init = scan.drop_last();
        assert forall|i: int| 0 <= i < init.len() implies {
            &&& in_index(rows, kind, (#[trigger] init[i]).0)
            &&& kv::fetch(rows, "meta"@, init[i].0) == Some(init[i].1)
        } by {
            assert(init[i] == scan[i]);
        }
        lemma_indexed_topics(rows, init);
        let before = topic::indexed_topics(rows, init)->Ok_0;
        let last = scan[scan.len() - 1];
        assert(in_index(rows, kind, last.0));
        let name = choose|name: Seq<char>|
            last.0 == keys::name_key_bytes(kind, name) && #[trigger] is_named(rows, kind, name);
        let id = choose|id: u64| leads(rows, kind, name, id);
        keys::law_be64_round_trip(id, keys::be64(id));
        let t = kv::fetch(rows, "meta"@, keys::topic_key_bytes(id))->0->Topic_0;
        assert(record_key(kind, id) == keys::topic_key_bytes(id));
        assert(is_topic(rows, t));
        let found = topic::indexed_topics(rows, scan)->Ok_0;
        assert(found == before.push(t));
        assert forall|i: int| 0 <= i < scan.len() implies is_topic_at(
            rows,
            found[i],
            (#[trigger] scan[i]).0,
        ) by {
            if i < init.len() {
                assert(init[i] == scan[i]);
                assert(found[i] == before[i]);
            }
        }
    }
}

/// The topics that are listed for a project are those that are stored and whose names are in it, each
/// once, in the order of the names.
pub proof fn law_project_topics(rows: Rows, project_id: Seq<char>)
    requires
        well_kept(rows),
        kv::has_scan(rows, "meta"@, topic::project_topics_prefix(project_id)),
    ensures
        topic::project_topics(rows, project_id) is Ok,
        ({
            let all = topic::project_topics(rows, project_id)->Ok_0;
            &&& listing::names_increase::<TopicRecord>(all)
            &&& forall|t: TopicView| #[trigger]
                all.contains(t) <==> is_topic(rows, t) && text::has_prefix(
                    t.name,
                    topics_of(project_id),
                )
        }),
{
    let kind = NameKind::Topic;
    let prefix = topic::project_topics_prefix(project_id);
    let scan = kv::scan_of(rows, "meta"@, prefix);
    assert forall|i: int| 0 <= i < scan.len() implies {
        &&& in_index(rows, kind, (#[trigger] scan[i]).0)
        &&& kv::fetch(rows, "meta"@, scan[i].0) == Some(scan[i].1)
    } by {
        let start = keys::name_prefix(kind);
        let key = scan[i].0;
        assert(rows.contains_key(("meta"@, key)));
        assert(prefix.take(start.len() as int) =~= start);
        assert(key.take(start.len() as int) =~= key.take(prefix.len() as int).take(
            start.len() as int,
        ));
    }
    lemma_indexed_topics(rows, scan);
    let found = topic::indexed_topics(rows, scan)->Ok_0;
    let all = topic::project_topics(rows, project_id)->Ok_0;
    assert forall|i: int, j: int|
        #![trigger found[i], found[j]]
        0 <= i < j < found.len() implies found[i].name != found[j].name by {
        assert(is_topic_at(rows, found[i], scan[i].0));
        assert(is_topic_at(rows, found[j], scan[j].0));
        assert(text::bytes_lt(scan[i].0, scan[j].0));
        text::lemma_bytes_lt_irreflexive(scan[i].0);
    }
    assert(listing::names_differ::<TopicRecord>(found));
    listing::law_sorting_keeps_the_values::<TopicRecord>(found);
    listing::law_sorted_names_increase::<TopicRecord>(found);
    assert forall|t: TopicView| #[trigger]
        all.contains(t) <==> is_topic(rows, t) && text::has_prefix(
            t.name,
            topics_of(project_id),
        ) by {
        assert(all.contains(t) <==> found.contains(t));
        let key = keys::name_key_bytes(kind, t.name);
        lemma_key_in_project(t.name, project_id);
        if found.contains(t) {
            let i = choose|i: int| 0 <= i < found.len() && found[i] == t;
            assert(is_topic_at(rows, found[i], scan[i].0));
            assert(text::has_prefix(scan[i].0, prefix));
        }
        if is_topic(rows, t) && text::has_prefix(t.name, topics_of(project_id)) {
            assert(rows.contains_key(("meta"@, key)));
            assert(kv::scan_has(scan, key));
            let i = choose|i: int| 0 <= i < scan.len() && (#[trigger] scan[i]).0 == key;
            assert(is_topic_at(rows, found[i], scan[i].0));
            keys::law_name_key_injective(kind, t.name, found[i].name);
            keys::law_record_keys_injective(t.id, found[i].id);
            assert(found[i] == t);
        }
    }
}

proof fn lemma_key_in_project(name: Seq<char>, project_id: Seq<char>)
    ensures
        text::has_prefix(
            keys::name_key_bytes(NameKind::Topic, name),
            topic::project_topics_prefix(project_id),
        ) <==> text::has_prefix(name, topics_of(project_id)),
{
    let start = keys::name_prefix(NameKind::Topic);
    let key = keys::name_key_bytes(NameKind::Topic, name);
    let prefix = topic::project_topics_prefix(project_id);
    let a = vstd::utf8::encode_utf8(name);
    let p = vstd::utf8::encode_utf8(topics_of(project_id));
    text::law_utf8_prefix(name, topics_of(project_id));
    assert(prefix == start + p);
    if text::has_prefix(a, p) {
        assert(key.take(prefix.len() as int) =~= start + a.take(p.len() as int));
    }
    if text::has_prefix(key, prefix) {
        assert(a.take(p.len() as int) =~= key.take(prefix.len() as int).skip(start.len() as int));
        assert(prefix.skip(start.len() as int) =~= p);
    }
}

/// Following the page tokens gives every topic of a project once, in the order of the names, and none
/// of another project. A page gives no token exactly when it is the last, and the pages up to the
/// last hold everything.
pub proof fn law_topic_pages(rows: Rows, project_id: Seq<char>, page_size: usize, n: nat)
    requires
        well_kept(rows),
        kv::has_scan(rows, "meta"@, topic::project_topics_prefix(project_id)),
        page_size > 0,
    ensures
        topic::project_topics(rows, project_id) is Ok,
        ({
            let all = topic::project_topics(rows, project_id)->Ok_0;
            let limit = page_size as nat;
            &&& listing::names_increase::<TopicRecord>(all)
            &&& forall|t: TopicView| #[trigger]
                all.contains(t) <==> is_topic(rows, t) && text::has_prefix(
                    t.name,
                    topics_of(project_id),
                )
            &&& listing::token_of_page::<TopicRecord>(all, limit, n) is Some <==> n == 0 || n
                * limit < all.len()
            &&& listing::token_of_page::<TopicRecord>(all, limit, n) matches Some(token) ==> {
                let next = listing::next_token::<TopicRecord>(all, limit, token);
                &&& next is None <==> (n + 1) * limit >= all.len()
                &&& next is None ==> listing::first_pages::<TopicRecord>(all, limit, n + 1) == all
            }
        }),
{
    law_project_topics(rows, project_id);
    listing::law_following_tokens_gives_the_list::<TopicRecord>(
        topic::project_topics(rows, project_id)->Ok_0,
        page_size as nat,
        n,
    );
}

} // verus!
