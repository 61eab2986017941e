//! What is done from time to time, whether or not clients ask for anything.

use crate::arith;
use crate::clock::Clock;
use crate::delivery::engine;
use crate::delivery::engine::EngineView;
use crate::delivery::retention::RetentionStats;
use crate::listing;
use crate::service;
use crate::service::{PubSubService, ServiceView};
use crate::store::kv;
use crate::store::kv::KvStore;
use crate::subscription;
use crate::subscription::SubscriptionView;
use crate::topic;
use vstd::prelude::*;

verus! {

/// How long a lease that ran out is remembered. This outlives every ack deadline and every backoff,
/// so a delivery that is still on its way is never forgotten.
pub const LEASE_GC_GRACE_MS: i64 = 3_600_000;

/// The interval between two comparisons of the dispatchers with the subscriptions.
pub const PUSH_RECONCILE_INTERVAL_SECS: u64 = 3;

/// What a round of maintenance found.
#[derive(Debug)]
pub struct Maintained {
    /// What expired.
    pub stats: RetentionStats,
    /// How many subscriptions there are.
    pub subscriptions: usize,
    /// How many topics there are.
    pub topics: usize,
}

/// The service after the leases of the first `n` subscriptions that ran out too long ago are
/// forgotten.
pub open spec fn leases_forgotten(
    s: ServiceView,
    subs: Seq<SubscriptionView>,
    n: int,
    now_ms: i64,
) -> ServiceView
    decreases n,
{
    if n <= 0 {
        s
    } else {
        let before = leases_forgotten(s, subs, n - 1, now_ms);
        ServiceView {
            engine: EngineView {
                leases: engine::swept(
                    before.engine.leases,
                    subs[n - 1].id,
                    arith::clamp_i64(now_ms - LEASE_GC_GRACE_MS) as i64,
                ),
                ..before.engine
            },
            ..before
        }
    }
}

/// A round of maintenance came to this: what had expired was removed, which led to `mid`, and then
/// old leases were forgotten.
pub open spec fn maintained<K: KvStore>(
    before: ServiceView,
    mid: ServiceView,
    after: ServiceView,
    now_ms: i64,
    r: Maintained,
) -> bool {
    let subs = subscription::all_subscriptions(mid.rows);
    &&& service::retention_swept::<K>(before, mid, now_ms, r.stats)
    &&& after == leases_forgotten(mid, subs, subs.len() as int, now_ms)
    &&& r.subscriptions == subs.len()
    &&& r.topics == topic::topics_in(
        kv::scan_of(mid.rows, "meta"@, vstd::utf8::encode_utf8("t/"@)),
    ).len()
}

/// Removes what has expired at `now_ms`, forgets the leases that ran out more than an hour before,
/// and counts topics and subscriptions.
pub fn maintain<K: KvStore, C: Clock>(svc: &mut PubSubService<K, C>, now_ms: i64) -> (r: Maintained)
    ensures
        final(svc).clock == old(svc).clock,
        exists|mid: ServiceView| #[trigger] maintained::<K>(old(svc)@, mid, final(svc)@, now_ms, r),
{
    let stats = svc.sweep_retention_at(now_ms);
    let ghost mid = svc@;
    let subs = svc.list_all_subscriptions();
    let ghost all = listing::views(subs@);
    assert(leases_forgotten(mid, all, 0, now_ms) == mid);
    let mut i: usize = 0;
    while i < subs.len()
        invariant
            i <= subs.len(),
            all == listing::views(subs@),
            all == subscription::all_subscriptions(mid.rows),
            service::retention_swept::<K>(old(svc)@, mid, now_ms, stats),
            svc.clock == old(svc).clock,
            svc@ == leases_forgotten(mid, all, i as int, now_ms),
            svc@.rows == mid.rows,
        decreases subs.len() - i,
    {
        assert(all[i as int] == subs@[i as int]@);
        let _ = svc.sweep_subscription_at(subs[i].id, LEASE_GC_GRACE_MS, now_ms);
        i = i + 1;
    }
    assert(all.len() == subs@.len());
    let topics = svc.list_all_topics();
    assert(listing::views(topics@).len() == topics@.len());
    let topics: usize = topics.len();
    let r = Maintained { stats, subscriptions: subs.len(), topics };
    assert(maintained::<K>(old(svc)@, mid, svc@, now_ms, r));
    r
}

} // verus!
