//! Messages are kept for the retention of their topic.

use crate::delivery::engine;
use crate::delivery::retention;
use crate::delivery::retention::RetentionStats;
use crate::error::ErrorView;
use crate::guarantees::transit;
use crate::service;
use crate::service::ServiceView;
use crate::store::keys;
use crate::store::kv;
use crate::store::kv::{KvStore, Rows};
use crate::topic;
use crate::topic::NewMessage;
use vstd::prelude::*;

verus! {

/// A retention, and the time until which it keeps a message, are in the range of the clock.
pub open spec fn in_range(message_retention_secs: i64, now_ms: i64) -> bool {
    &&& message_retention_secs * 1000 <= i64::MAX
    &&& lives_until(message_retention_secs, now_ms) <= i64::MAX
}

/// Until when a message is kept that is published at a time: for the retention that the topic sets,
/// or for 31 days if it sets none.
pub open spec fn lives_until(message_retention_secs: i64, now_ms: i64) -> int {
    now_ms + 1000 * if message_retention_secs > 0 {
        message_retention_secs as int
    } else {
        31int * 24 * 60 * 60
    }
}

pub(crate) proof fn lemma_expiry(message_retention_secs: i64, now_ms: i64)
    ensures
        in_range(message_retention_secs, now_ms) ==> topic::expiry(now_ms, engine::effective_retention(message_retention_secs)) == lives_until(
            message_retention_secs,
            now_ms,
        ),
{
}

/// A published message is kept for the retention of its topic, counted from when it was published, and
/// no longer: a sweep before leaves it as it is, and a sweep from then on removes it.
pub proof fn law_messages_live_for_the_retention<K: KvStore>(
    before: ServiceView,
    after: ServiceView,
    topic_name: Seq<char>,
    topic_id: u64,
    batch: Seq<NewMessage>,
    disk_bytes: u64,
    now_ms: i64,
    ids: Result<Seq<Seq<char>>, ErrorView>,
    i: int,
    sweep_ms: i64,
    swept: Rows,
    stats: RetentionStats,
)
    requires
        service::performed::<K, Seq<Seq<char>>>(
            before,
            after,
            service::publish_effect(before, topic_name, batch, disk_bytes, now_ms),
            ids,
        ),
        ids is Ok,
        transit::publishable(before.rows, topic_name, topic_id, batch.len()),
        0 <= i < batch.len(),
        topic::topic_named(before.rows, topic_name) matches Ok(t) ==> in_range(
            t.message_retention_secs,
            now_ms,
        ),
        retention::is_sweep::<K>(after.rows, swept, sweep_ms, stats),
    ensures
        topic::topic_named(before.rows, topic_name) is Ok,
        ({
            let t = topic::topic_named(before.rows, topic_name)->Ok_0;
            let seq = (topic::tail_of(before.rows, topic_id) + 1 + i) as u64;
            let stored = transit::message_at(after.rows, topic_id, seq);
            let left = transit::message_at(swept, topic_id, seq);
            let end_ms = lives_until(t.message_retention_secs, now_ms);
            &&& stored is Some
            &&& stored->0.payload == batch[i].payload
            &&& stored->0.expire_at_ms == end_ms
            &&& sweep_ms < end_ms ==> left == stored
            &&& sweep_ms >= end_ms && K::reliable() ==> left is None
        }),
{
    transit::lemma_published::<K>(
        before,
        after,
        topic_name,
        batch,
        disk_bytes,
        now_ms,
        ids,
        i,
    );
    let t = topic::topic_named(before.rows, topic_name)->Ok_0;
    lemma_expiry(t.message_retention_secs, now_ms);
    let seq = (topic::tail_of(before.rows, topic_id) + 1 + i) as u64;
    let key = keys::pair_key(topic_id, seq);
    let row = ("msg"@, key);
    kv::law_keyspaces_differ();
    let gone = retention::swept_rows(after.rows, sweep_ms);
    if retention::is_expired(after.rows, topic_id, seq, sweep_ms) {
        assert(gone.contains(row));
    } else {
        if gone.contains(row) {
            let (a, b) = choose|a: u64, b: u64|
                key == keys::pair_key(a, b) && #[trigger] retention::is_expired(
                    after.rows,
                    a,
                    b,
                    sweep_ms,
                );
            keys::law_pair_key_order(topic_id, seq, a, b);
        }
        assert(after.rows.contains_key(row));
        assert(swept.contains_key(row));
    }
}

} // verus!
