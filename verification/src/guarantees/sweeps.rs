//! What is swept, and what is left.

use crate::delivery::engine;
use crate::delivery::retention;
use crate::error::ErrorView;
use crate::guarantees::transit;
use crate::maintenance;
use crate::name_index;
use crate::service;
use crate::service::ServiceView;
use crate::store::keys;
use crate::store::keys::NameKind;
use crate::store::kv;
use crate::store::kv::{KvStore, Rows, Scan};
use crate::subscription;
use crate::subscription::SubscriptionView;
use vstd::prelude::*;

verus! {

/// A subscription was not used for as long as its expiration allows; without one it never expires.
pub open spec fn is_unused(s: SubscriptionView, now_ms: i64) -> bool {
    s.expiration_ttl_secs matches Some(ttl) && now_ms >= s.last_activity_ts_ms + ttl * 1000
}

/// Times are so early that expirations stay within the range of the clock.
pub open spec fn is_early(s: SubscriptionView) -> bool {
    s.expiration_ttl_secs matches Some(ttl) ==> {
        &&& 0 <= ttl <= 9_000_000_000_000
        &&& 0 <= s.last_activity_ts_ms <= 200_000_000_000_000_000
    }
}

/// One of the first `n` subscriptions that were not used has this name.
pub open spec fn was_unused(
    subscriptions: Seq<SubscriptionView>,
    now_ms: i64,
    n: int,
    name: Seq<char>,
) -> bool {
    exists|i: int|
        0 <= i < n && (#[trigger] subscriptions[i]).name == name && is_unused(
            subscriptions[i],
            now_ms,
        )
}

/// A sweep deletes the subscriptions that were not used for as long as their expiration allows, and no
/// others: unless it fails, it returns exactly their names, none of them is found any more, and
/// every other subscription is found as it was.
pub proof fn law_unused_subscriptions_are_swept(
    rows: Rows,
    subscriptions: Seq<SubscriptionView>,
    now_ms: i64,
    n: int,
    name: Seq<char>,
)
    requires
        0 <= n <= subscriptions.len(),
        name_index::well_kept(rows),
        forall|i: int| 0 <= i < subscriptions.len() ==> is_early(#[trigger] subscriptions[i]),
        subscription::swept(rows, subscriptions, now_ms, n).failure is None,
    ensures
        ({
            let sweep = subscription::swept(rows, subscriptions, now_ms, n);
            let after = kv::after_writes(rows, sweep.writes);
            &&& name_index::well_kept(after)
            &&& sweep.removed.contains(name) <==> was_unused(subscriptions, now_ms, n, name)
            &&& subscription::subscription_named(after, name) == if was_unused(
                subscriptions,
                now_ms,
                n,
                name,
            ) {
                Err(ErrorView::NotFound { resource: name })
            } else {
                subscription::subscription_named(rows, name)
            }
        }),
    decreases n,
{
    name_index::law_sweep_keeps_names(rows, subscriptions, now_ms, n);
    if n > 0 {
        let before = subscription::swept(rows, subscriptions, now_ms, n - 1);
        let sweep = subscription::swept(rows, subscriptions, now_ms, n);
        let s = subscriptions[n - 1];
        assert(is_early(s));
        assert(before.failure is None);
        law_unused_subscriptions_are_swept(rows, subscriptions, now_ms, n - 1, name);
        let mid = kv::after_writes(rows, before.writes);
        assert(was_unused(subscriptions, now_ms, n, name) <==> was_unused(
            subscriptions,
            now_ms,
            n - 1,
            name,
        ) || (s.name == name && is_unused(s, now_ms))) by {
            if s.name == name && is_unused(s, now_ms) {
                assert(subscriptions[n - 1].name == name);
            }
            if was_unused(subscriptions, now_ms, n - 1, name) {
                let i = choose|i: int|
                    0 <= i < n - 1 && (#[trigger] subscriptions[i]).name == name && is_unused(
                        subscriptions[i],
                        now_ms,
                    );
                assert(subscriptions[i].name == name);
            }
        }
        if is_unused(s, now_ms) {
            let found = subscription::subscription_named(mid, s.name)->Ok_0;
            let writes = subscription::delete_writes(found);
            let after = kv::after_writes(mid, writes);
            kv::lemma_after_concat(rows, before.writes, writes);
            name_index::law_found_has_the_name(mid, s.name);
            name_index::law_found_has_the_name(mid, name);
            lemma_deletion(mid, found, name);
            assert(sweep.removed.contains(name) <==> before.removed.contains(name) || s.name
                == name) by {
                let more = before.removed.push(s.name);
                if before.removed.contains(name) {
                    let i = choose|i: int| 0 <= i < before.removed.len() && before.removed[i]
                        == name;
                    assert(more[i] == name);
                }
                if s.name == name {
                    assert(more[before.removed.len() as int] == name);
                }
            }
        }
    }
}

proof fn lemma_deletion(rows: Rows, found: SubscriptionView, name: Seq<char>)
    requires
        name_index::well_kept(rows),
        subscription::subscription_named(rows, found.name) == Ok::<SubscriptionView, ErrorView>(
            found,
        ),
        name_index::leads(rows, NameKind::Subscription, found.name, found.id),
    ensures
        subscription::subscription_named(
            kv::after_writes(rows, subscription::delete_writes(found)),
            name,
        ) == if name == found.name {
            Err(ErrorView::NotFound { resource: name })
        } else {
            subscription::subscription_named(rows, name)
        },
{
    let writes = subscription::delete_writes(found);
    let key = keys::name_key_bytes(NameKind::Subscription, name);
    assert(writes.len() == 4);
    kv::law_keyspaces_differ();
    keys::law_kinds_of_keys_differ(found.id, found.id, NameKind::Subscription, found.name);
    keys::law_name_key_injective(NameKind::Subscription, name, found.name);
    if name == found.name {
        kv::law_last_write_is_read(rows, writes, 1, "meta"@, key);
    } else {
        keys::law_kinds_of_keys_differ(found.id, found.id, NameKind::Subscription, name);
        kv::law_spared_row_stays(rows, writes, "meta"@, key);
        name_index::law_found_has_the_name(rows, name);
        name_index::lemma_lookup(rows, NameKind::Subscription, name);
        if let Ok(other) = subscription::subscription_named(rows, name) {
            keys::law_be64_round_trip(other.id, keys::be64(other.id));
            keys::law_record_keys_injective(other.id, found.id);
            keys::law_kinds_of_keys_differ(
                other.id,
                other.id,
                NameKind::Subscription,
                found.name,
            );
            assert(other.id != found.id);
            kv::law_spared_row_stays(rows, writes, "meta"@, keys::sub_key_bytes(other.id));
        }
    }
}

/// Leases are forgotten exactly if they are of the subscription and ran out at least so long ago.
pub proof fn law_old_leases_are_forgotten(
    before: ServiceView,
    after: ServiceView,
    sub_id: u64,
    grace_ms: i64,
    now_ms: i64,
    n: usize,
    k: (u64, u64),
)
    requires
        service::subscription_leases_swept(before, after, sub_id, grace_ms, now_ms, n),
        0 <= grace_ms,
        i64::MIN <= now_ms - grace_ms,
    ensures
        after.rows == before.rows,
        after.engine.leases.contains_key(k) <==> {
            &&& before.engine.leases.contains_key(k)
            &&& !(k.0 == sub_id && before.engine.leases[k].deadline_ms + grace_ms <= now_ms)
        },
        after.engine.leases.contains_key(k) ==> after.engine.leases[k] == before.engine.leases[k],
{
}

/// A round of maintenance forgets exactly the leases of the subscriptions that ran out an hour ago or
/// earlier.
pub proof fn law_maintenance_forgets_old_leases(
    s: ServiceView,
    subs: Seq<SubscriptionView>,
    n: int,
    now_ms: i64,
    k: (u64, u64),
)
    requires
        0 <= n <= subs.len(),
        i64::MIN + 3_600_000 <= now_ms,
    ensures
        ({
            let after = maintenance::leases_forgotten(s, subs, n, now_ms);
            let listed = exists|i: int| 0 <= i < n && (#[trigger] subs[i]).id == k.0;
            &&& after.rows == s.rows
            &&& after.engine.leases.contains_key(k) <==> s.engine.leases.contains_key(k) && !(listed
                && s.engine.leases[k].deadline_ms + 60 * 60 * 1000 <= now_ms)
            &&& after.engine.leases.contains_key(k) ==> after.engine.leases[k]
                == s.engine.leases[k]
        }),
    decreases n,
{
    if n > 0 {
        law_maintenance_forgets_old_leases(s, subs, n - 1, now_ms, k);
        let before = exists|i: int| 0 <= i < n - 1 && (#[trigger] subs[i]).id == k.0;
        let listed = exists|i: int| 0 <= i < n && (#[trigger] subs[i]).id == k.0;
        assert(listed <==> before || subs[n - 1].id == k.0) by {
            if subs[n - 1].id == k.0 {
                assert(subs[n - 1].id == k.0);
            }
        }
    }
}

/// How the messages that a sweep removed are counted: each one once.
pub proof fn law_removed_messages_are_counted(scan: Scan, after: Rows, n: int)
    requires
        0 <= n < scan.len(),
    ensures
        retention::missing(scan, after, 0) == 0,
        retention::missing(scan, after, n + 1) == retention::missing(scan, after, n)
            + if after.contains_key(("msg"@, scan[n].0)) {
            0int
        } else {
            1
        },
{
}

/// A service that was restarted has every lease that was stored, with all that is known of it, and no
/// other.
pub proof fn law_restart(rows: Rows, k: (u64, u64))
    ensures
        ({
            let s = service::started(rows);
            let row = kv::fetch(rows, "dlv"@, keys::pair_key(k.0, k.1));
            &&& s.rows == rows
            &&& s.engine.leases.contains_key(k) <==> row is Some && row->0 is Delivery
            &&& row is Some && row->0 is Delivery ==> {
                let l = s.engine.leases[k];
                let d = row->0->Delivery_0;
                &&& l.sub_id == k.0
                &&& l.seq == k.1
                &&& l.deadline_ms == d.deadline_ms
                &&& l.attempts == d.attempts
                &&& l.generation == d.generation
                &&& l.given_back == d.given_back
            }
            &&& forall|id: u64| !s.engine.sessions.contains_key(id)
        }),
{
}

proof fn lemma_sweep_spares_messages(
    rows: Rows,
    subscriptions: Seq<SubscriptionView>,
    now_ms: i64,
    n: int,
    key: Seq<u8>,
)
    requires
        0 <= n <= subscriptions.len(),
    ensures
        kv::spares(subscription::swept(rows, subscriptions, now_ms, n).writes, "msg"@, key),
    decreases n,
{
    kv::law_keyspaces_differ();
    if n > 0 {
        lemma_sweep_spares_messages(rows, subscriptions, now_ms, n - 1, key);
    }
}

/// A sweep of the service removes every message whose time is up, and leaves every other as it is.
pub proof fn law_expired_messages_are_swept<K: KvStore>(
    before: ServiceView,
    after: ServiceView,
    now_ms: i64,
    stats: retention::RetentionStats,
    topic_id: u64,
    seq: u64,
)
    requires
        service::retention_swept::<K>(before, after, now_ms, stats),
        K::reliable(),
        transit::message_at(before.rows, topic_id, seq) is Some,
    ensures
        ({
            let m = transit::message_at(before.rows, topic_id, seq)->0;
            transit::message_at(after.rows, topic_id, seq) == if m.expire_at_ms <= now_ms {
                None
            } else {
                Some(m)
            }
        }),
{
    let mid = choose|mid: Rows| #[trigger]
        retention::is_sweep::<K>(before.rows, mid, now_ms, stats)
            && service::subscriptions_swept::<K>(mid, after.rows, now_ms);
    let key = keys::pair_key(topic_id, seq);
    let gone = retention::swept_rows(before.rows, now_ms);
    kv::law_keyspaces_differ();
    if retention::is_expired(before.rows, topic_id, seq, now_ms) {
        assert(gone.contains(("msg"@, key)));
    } else if gone.contains(("msg"@, key)) {
        let (a, b) = choose|a: u64, b: u64|
            key == keys::pair_key(a, b) && #[trigger] retention::is_expired(
                before.rows,
                a,
                b,
                now_ms,
            );
        keys::law_pair_key_order(topic_id, seq, a, b);
    }
    let all = subscription::all_subscriptions(mid);
    lemma_sweep_spares_messages(mid, all, now_ms, all.len() as int, key);
    kv::law_spared_row_stays(
        mid,
        subscription::swept(mid, all, now_ms, all.len() as int).writes,
        "msg"@,
        key,
    );
}

/// A sweep of the service, which first removes messages and comes to `mid`, and then deletes
/// subscriptions, deletes those that were not used for as long as their expiration allows, and no
/// others, unless it stops at one that it does not find: none of them is found any more, and every
/// other is found as it was before the sweep.
pub proof fn law_unused_are_swept_by_the_service<K: KvStore>(
    before: Rows,
    mid: Rows,
    after: Rows,
    now_ms: i64,
    stats: retention::RetentionStats,
    name: Seq<char>,
)
    requires
        retention::is_sweep::<K>(before, mid, now_ms, stats),
        service::subscriptions_swept::<K>(mid, after, now_ms),
        K::reliable(),
        name_index::well_kept(before),
        ({
            let all = subscription::all_subscriptions(mid);
            &&& forall|i: int| 0 <= i < all.len() ==> is_early(#[trigger] all[i])
            &&& subscription::swept(mid, all, now_ms, all.len() as int).failure is None
        }),
    ensures
        ({
            let all = subscription::all_subscriptions(mid);
            subscription::subscription_named(after, name) == if was_unused(
                all,
                now_ms,
                all.len() as int,
                name,
            ) {
                Err(ErrorView::NotFound { resource: name })
            } else {
                subscription::subscription_named(before, name)
            }
        }),
{
    let all = subscription::all_subscriptions(mid);
    let gone = retention::swept_rows(before, now_ms);
    kv::law_keyspaces_differ();
    assert forall|row: (Seq<char>, Seq<u8>)| #[trigger] gone.contains(row) implies row.0 == "msg"@
        || row.0 == "dlv"@ by {}
    name_index::law_removing_messages_keeps_names(before, mid, gone);
    law_unused_subscriptions_are_swept(mid, all, now_ms, all.len() as int, name);
    assert forall|key: Seq<u8>| #[trigger] kv::fetch(mid, "meta"@, key) == kv::fetch(
        before,
        "meta"@,
        key,
    ) by {
        assert(!gone.contains(("meta"@, key)));
        assert(before.contains_key(("meta"@, key)) <==> mid.contains_key(("meta"@, key)));
    }
}

} // verus!
