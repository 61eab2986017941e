//! Removes messages that have expired.

use crate::delivery::engine;
use crate::store::keys;
use crate::store::kv;
use crate::store::kv::{KvStore, KvValue, Rows, Scan, ValueView};
use crate::subscription;
use crate::subscription::SubscriptionStore;
use crate::text;
use vstd::prelude::*;

verus! {

/// What a sweep has done.
#[derive(Debug, Clone, Copy, PartialEq, Eq)]
pub struct RetentionStats {
    /// How many messages were removed.
    pub messages_expired: u64,
}

impl Default for RetentionStats {
    fn default() -> (r: Self)
        ensures
            r.messages_expired == 0,
    {
        RetentionStats { messages_expired: 0 }
    }
}

/// A message with this position is stored in a topic, and its time is up.
pub open spec fn is_expired(rows: Rows, topic_id: u64, seq: u64, now_ms: i64) -> bool {
    kv::fetch(rows, "msg"@, keys::pair_key(topic_id, seq)) matches Some(ValueView::Message(m))
        && m.expire_at_ms <= now_ms
}

/// A sweep removes this row: an expired message, or the delivery of one on a subscription of its
/// topic.
pub open spec fn is_swept(rows: Rows, now_ms: i64, row: (Seq<char>, Seq<u8>)) -> bool {
    ||| row.0 == "msg"@ && exists|topic_id: u64, seq: u64|
        row.1 == keys::pair_key(topic_id, seq) && #[trigger] is_expired(
            rows,
            topic_id,
            seq,
            now_ms,
        )
    ||| row.0 == "dlv"@ && exists|topic_id: u64, sub_id: u64, seq: u64|
        row.1 == keys::pair_key(sub_id, seq) && #[trigger] is_expired(rows, topic_id, seq, now_ms)
            && #[trigger] subscription::attached_ids(rows, topic_id).contains(sub_id)
}

/// The rows that a sweep removes.
pub open spec fn swept_rows(rows: Rows, now_ms: i64) -> Set<(Seq<char>, Seq<u8>)> {
    Set::new(|row: (Seq<char>, Seq<u8>)| is_swept(rows, now_ms, row))
}

/// How many of the first `n` scanned messages are not there any more.
pub open spec fn missing(scan: Scan, rows: Rows, n: int) -> int
    decreases n,
{
    if n <= 0 {
        0
    } else {
        missing(scan, rows, n - 1) + if rows.contains_key(("msg"@, scan[n - 1].0)) {
            0int
        } else {
            1int
        }
    }
}

proof fn lemma_missing_same(scan: Scan, a: Rows, b: Rows, n: int)
    requires
        forall|i: int|
            0 <= i < n ==> (a.contains_key(("msg"@, (#[trigger] scan[i]).0)) <==> b.contains_key(
                ("msg"@, scan[i].0),
            )),
    ensures
        missing(scan, a, n) == missing(scan, b, n),
    decreases n,
{
    if n > 0 {
        lemma_missing_same(scan, a, b, n - 1);
    }
}

/// Rows that were in the same place before, for the index from topics to subscriptions.
spec fn same_index(a: Rows, b: Rows) -> bool {
    forall|key: Seq<u8>|
        #![trigger a.contains_key(("idx"@, key))]
        #![trigger b.contains_key(("idx"@, key))]
        {
            &&& a.contains_key(("idx"@, key)) <==> b.contains_key(("idx"@, key))
            &&& a.contains_key(("idx"@, key)) ==> a[("idx"@, key)] == b[("idx"@, key)]
        }
}

proof fn lemma_scan_moves(a: Rows, b: Rows, prefix: Seq<u8>, scan: Scan)
    requires
        same_index(a, b),
        kv::is_scan(a, "idx"@, prefix, scan),
    ensures
        kv::is_scan(b, "idx"@, prefix, scan),
{
    assert forall|i: int| 0 <= i < scan.len() implies {
        &&& text::has_prefix((#[trigger] scan[i]).0, prefix)
        &&& b.contains_key(("idx"@, scan[i].0))
        &&& b[("idx"@, scan[i].0)] == scan[i].1
    } by {
        assert(a.contains_key(("idx"@, scan[i].0)));
    }
}

proof fn lemma_attached_same(a: Rows, b: Rows, topic_id: u64)
    requires
        same_index(a, b),
        kv::has_scan(a, "idx"@, keys::be64(topic_id)),
    ensures
        subscription::attached_ids(a, topic_id) == subscription::attached_ids(b, topic_id),
{
    let scan = kv::scan_of(a, "idx"@, keys::be64(topic_id));
    lemma_scan_moves(a, b, keys::be64(topic_id), scan);
    kv::law_scan_is_unique(b, "idx"@, keys::be64(topic_id), scan, scan);
}

/// The rows that go with one message: itself, and its deliveries on the subscriptions of its topic.
pub open spec fn rows_of_message(rows: Rows, topic_id: u64, seq: u64) -> Set<
    (Seq<char>, Seq<u8>),
> {
    Set::new(|row: (Seq<char>, Seq<u8>)| goes_with(rows, topic_id, seq, row))
}

/// A row is a message, or one of its deliveries on the subscriptions of its topic.
pub open spec fn goes_with(
    rows: Rows,
    topic_id: u64,
    seq: u64,
    row: (Seq<char>, Seq<u8>),
) -> bool {
    ||| row == ("msg"@, keys::pair_key(topic_id, seq))
    ||| exists|sub_id: u64|
        row == ("dlv"@, keys::pair_key(sub_id, seq)) && #[trigger] subscription::attached_ids(
            rows,
            topic_id,
        ).contains(sub_id)
}

/// Removes a message, and then its deliveries. Returns whether the message was removed; if not,
/// nothing is.
fn remove_message<K: KvStore>(
    kv: &mut K,
    subs: &SubscriptionStore,
    topic_id: u64,
    seq: u64,
    Ghost(base): Ghost<Rows>,
) -> (r: bool)
    requires
        same_index(old(kv).rows(), base),
    ensures
        engine::only_removed(
            old(kv).rows(),
            final(kv).rows(),
            rows_of_message(base, topic_id, seq),
        ),
        r ==> !final(kv).rows().contains_key(("msg"@, keys::pair_key(topic_id, seq))),
        !r ==> final(kv).rows() == old(kv).rows(),
        K::reliable() ==> r && final(kv).rows() == old(kv).rows().remove_keys(
            rows_of_message(base, topic_id, seq),
        ),
{
    let ghost rows = kv.rows();
    let ghost all = rows_of_message(base, topic_id, seq);
    let ghost own = ("msg"@, keys::pair_key(topic_id, seq));
    if kv.delete("msg", keys::msg_key(topic_id, seq).as_slice()).is_err() {
        return false;
    }
    proof {
        kv::law_keyspaces_differ();
        assert(all.contains(own));
    }
    let ghost without = kv.rows();
    let ids = match subs.list_by_topic_id(kv, topic_id) {
        Ok(ids) => ids,
        Err(_) => Vec::new(),
    };
    proof {
        lemma_attached_same(without, base, topic_id);
    }
    let mut i: usize = 0;
    assert(K::reliable() ==> kv.rows() =~= rows.remove(own));
    while i < ids.len()
        invariant
            i <= ids.len(),
            ids@ == subscription::attached_ids(base, topic_id),
            all == rows_of_message(base, topic_id, seq),
            own == ("msg"@, keys::pair_key(topic_id, seq)),
            all.contains(own),
            engine::only_removed(rows, kv.rows(), all),
            !kv.rows().contains_key(own),
            K::reliable() ==> forall|j: int|
                0 <= j < i ==> !kv.rows().contains_key(
                    ("dlv"@, keys::pair_key(#[trigger] ids@[j], seq)),
                ),
        decreases ids.len() - i,
    {
        let ghost row = ("dlv"@, keys::pair_key(ids@[i as int], seq));
        assert(all.contains(row)) by {
            assert(subscription::attached_ids(base, topic_id).contains(ids@[i as int]));
            assert(goes_with(base, topic_id, seq, row));
        }
        let _ = kv.delete("dlv", keys::delivery_key(ids[i], seq).as_slice());
        i = i + 1;
    }
    proof {
        if K::reliable() {
            assert forall|row: (Seq<char>, Seq<u8>)| all.contains(
                row,
            ) implies !kv.rows().contains_key(row) by {
                if row != own {
                    let sub_id = choose|sub_id: u64|
                        row == ("dlv"@, keys::pair_key(sub_id, seq))
                            && #[trigger] subscription::attached_ids(base, topic_id).contains(
                            sub_id,
                        );
                    let j = choose|j: int| 0 <= j < ids@.len() && ids@[j] == sub_id;
                    assert(!kv.rows().contains_key(("dlv"@, keys::pair_key(ids@[j], seq))));
                }
            }
            assert(kv.rows() =~= rows.remove_keys(all));
        }
    }
    true
}

/// A scanned row is a message whose time is up.
pub open spec fn expired_at(scan: Scan, now_ms: i64, j: int) -> bool {
    &&& keys::from_pair_key(scan[j].0) is Some
    &&& scan[j].1 matches ValueView::Message(m) && m.expire_at_ms <= now_ms
}

/// How many of the first `n` scanned rows are messages whose time is up.
pub open spec fn expired_count(scan: Scan, now_ms: i64, n: int) -> int
    decreases n,
{
    if n <= 0 {
        0
    } else {
        expired_count(scan, now_ms, n - 1) + if expired_at(scan, now_ms, n - 1) {
            1int
        } else {
            0int
        }
    }
}

spec fn topic_at(scan: Scan, j: int) -> u64 {
    (keys::from_pair_key(scan[j].0)->0).0
}

spec fn seq_at(scan: Scan, j: int) -> u64 {
    (keys::from_pair_key(scan[j].0)->0).1
}

spec fn swept_at(rows: Rows, scan: Scan, now_ms: i64, j: int, row: (Seq<char>, Seq<u8>)) -> bool {
    expired_at(scan, now_ms, j) && goes_with(rows, topic_at(scan, j), seq_at(scan, j), row)
}

proof fn lemma_swept_is(rows: Rows, scan: Scan, now_ms: i64, row: (Seq<char>, Seq<u8>))
    requires
        kv::is_scan(rows, "msg"@, Seq::empty(), scan),
    ensures
        swept_rows(rows, now_ms).contains(row) <==> exists|j: int|
            0 <= j < scan.len() && #[trigger] swept_at(rows, scan, now_ms, j, row),
{
    kv::law_keyspaces_differ();
    if swept_rows(rows, now_ms).contains(row) {
        if row.0 == "msg"@ {
            let (topic_id, seq) = choose|topic_id: u64, seq: u64|
                row.1 == keys::pair_key(topic_id, seq) && #[trigger] is_expired(
                    rows,
                    topic_id,
                    seq,
                    now_ms,
                );
            let j = lemma_expired_is_scanned(rows, scan, now_ms, topic_id, seq);
            assert(swept_at(rows, scan, now_ms, j, row));
        } else {
            let (topic_id, sub_id, seq) = choose|topic_id: u64, sub_id: u64, seq: u64|
                row.1 == keys::pair_key(sub_id, seq) && #[trigger] is_expired(
                    rows,
                    topic_id,
                    seq,
                    now_ms,
                ) && #[trigger] subscription::attached_ids(rows, topic_id).contains(sub_id);
            let j = lemma_expired_is_scanned(rows, scan, now_ms, topic_id, seq);
            assert(goes_with(rows, topic_id, seq, row));
            assert(swept_at(rows, scan, now_ms, j, row));
        }
    }
    if exists|j: int| 0 <= j < scan.len() && #[trigger] swept_at(rows, scan, now_ms, j, row) {
        let j = choose|j: int| 0 <= j < scan.len() && #[trigger] swept_at(rows, scan, now_ms, j, row);
        let (topic_id, seq) = (topic_at(scan, j), seq_at(scan, j));
        keys::law_pair_key_round_trip(topic_id, seq, scan[j].0);
        assert(rows[("msg"@, scan[j].0)] == scan[j].1);
        assert(is_expired(rows, topic_id, seq, now_ms));
        if row != ("msg"@, keys::pair_key(topic_id, seq)) {
            let sub_id = choose|sub_id: u64|
                row == ("dlv"@, keys::pair_key(sub_id, seq))
                    && #[trigger] subscription::attached_ids(rows, topic_id).contains(sub_id);
            assert(subscription::attached_ids(rows, topic_id).contains(sub_id));
        }
    }
}

proof fn lemma_expired_is_scanned(
    rows: Rows,
    scan: Scan,
    now_ms: i64,
    topic_id: u64,
    seq: u64,
) -> (j: int)
    requires
        kv::is_scan(rows, "msg"@, Seq::empty(), scan),
        is_expired(rows, topic_id, seq, now_ms),
    ensures
        0 <= j < scan.len(),
        expired_at(scan, now_ms, j),
        topic_at(scan, j) == topic_id,
        seq_at(scan, j) == seq,
{
    let key = keys::pair_key(topic_id, seq);
    assert(key.take(0) =~= Seq::<u8>::empty());
    assert(text::has_prefix(key, Seq::<u8>::empty()));
    assert(kv::scan_has(scan, key));
    let j = choose|j: int| 0 <= j < scan.len() && (#[trigger] scan[j]).0 == key;
    keys::law_pair_key_round_trip(topic_id, seq, key);
    assert(rows[("msg"@, scan[j].0)] == scan[j].1);
    j
}

proof fn lemma_index_kept(rows: Rows, now: Rows, now_ms: i64)
    requires
        engine::only_removed(rows, now, swept_rows(rows, now_ms)),
    ensures
        same_index(now, rows),
{
    kv::law_keyspaces_differ();
    assert forall|key: Seq<u8>| rows.contains_key(("idx"@, key)) implies now.contains_key(
        ("idx"@, key),
    ) by {
        assert(!swept_rows(rows, now_ms).contains(("idx"@, key)));
    }
}

proof fn lemma_scan_keys_differ(scan: Scan, i: int, j: int)
    requires
        kv::scan_increases(scan),
        0 <= i < scan.len(),
        0 <= j < scan.len(),
        i != j,
    ensures
        scan[i].0 != scan[j].0,
{
    text::lemma_bytes_lt_irreflexive(scan[i].0);
    if i < j {
        assert(text::bytes_lt(scan[i].0, scan[j].0));
    } else {
        assert(text::bytes_lt(scan[j].0, scan[i].0));
    }
}

/// What a sweep comes to: only rows that are swept are removed, all of them when writes always
/// succeed, and the messages that were removed are counted.
pub open spec fn is_sweep<K: KvStore>(
    before: Rows,
    after: Rows,
    now_ms: i64,
    stats: RetentionStats,
) -> bool {
    let log = kv::scan_of(before, "msg"@, Seq::empty());
    &&& engine::only_removed(before, after, swept_rows(before, now_ms))
    &&& K::reliable() ==> after == before.remove_keys(swept_rows(before, now_ms))
    &&& stats.messages_expired == missing(log, after, log.len() as int)
}

/// Removes every message whose time is up, in every topic, and its deliveries. What cannot be
/// removed is left for the next time.
pub fn sweep_expired_messages<K: KvStore>(
    kv: &mut K,
    subs: &SubscriptionStore,
    now_ms: i64,
) -> (r: RetentionStats)
    ensures
        is_sweep::<K>(old(kv).rows(), final(kv).rows(), now_ms, r),
{
    let ghost rows = kv.rows();
    let ghost swept = swept_rows(rows, now_ms);
    let none: Vec<u8> = Vec::new();
    let entries = kv.scan_prefix("msg", none.as_slice());
    let ghost scan = kv::scan_view(entries@);
    proof {
        kv::law_scan_is_unique(rows, "msg"@, Seq::empty(), scan, scan);
        kv::law_keyspaces_differ();
    }
    let mut expired: u64 = 0;
    let mut i: usize = 0;
    while i < entries.len()
        invariant
            i <= entries.len(),
            expired <= i,
            rows == old(kv).rows(),
            swept == swept_rows(rows, now_ms),
            scan == kv::scan_view(entries@),
            kv::is_scan(rows, "msg"@, Seq::empty(), scan),
            engine::only_removed(rows, kv.rows(), swept),
            expired == missing(scan, kv.rows(), i as int),
            forall|j: int|
                i <= j < scan.len() ==> kv.rows().contains_key(("msg"@, (#[trigger] scan[j]).0)),
            K::reliable() ==> forall|j: int, row: (Seq<char>, Seq<u8>)|
                0 <= j < i && #[trigger] swept_at(rows, scan, now_ms, j, row)
                    ==> !kv.rows().contains_key(row),
            "msg"@ != "dlv"@,
            "msg"@ != "idx"@,
            "dlv"@ != "idx"@,
        decreases entries.len() - i,
    {
        assert(scan[i as int] == (entries@[i as int].0@, entries@[i as int].1@));
        let ghost now = kv.rows();
        if let Some((topic_id, seq)) = keys::parse_msg_key(entries[i].0.as_slice()) {
            if let KvValue::Message(m) = &entries[i].1 {
                if m.expire_at_ms <= now_ms {
                    proof {
                        keys::law_pair_key_round_trip(topic_id, seq, scan[i as int].0);
                        lemma_index_kept(rows, now, now_ms);
                    }
                    let removed = remove_message(kv, subs, topic_id, seq, Ghost(rows));
                    proof {
                        let here = rows_of_message(rows, topic_id, seq);
                        assert forall|j: int| 0 <= j < scan.len() && j != i implies (
                        kv.rows().contains_key(("msg"@, (#[trigger] scan[j]).0))
                            <==> now.contains_key(("msg"@, scan[j].0))) by {
                            lemma_scan_keys_differ(scan, i as int, j);
                            assert(!here.contains(("msg"@, scan[j].0)));
                        }
                        lemma_missing_same(scan, kv.rows(), now, i as int);
                        assert forall|row: (Seq<char>, Seq<u8>)| here.contains(
                            row,
                        ) implies swept.contains(row) by {
                            assert(swept_at(rows, scan, now_ms, i as int, row));
                            lemma_swept_is(rows, scan, now_ms, row);
                        }
                        if K::reliable() {
                            assert forall|j: int, row: (Seq<char>, Seq<u8>)|
                                0 <= j < i + 1 && #[trigger] swept_at(
                                    rows,
                                    scan,
                                    now_ms,
                                    j,
                                    row,
                                ) implies !kv.rows().contains_key(row) by {
                                if j == i {
                                    assert(here.contains(row));
                                }
                            }
                        }
                    }
                    if removed {
                        expired = expired + 1;
                    }
                }
            }
        }
        i = i + 1;
    }
    proof {
        if K::reliable() {
            assert forall|row: (Seq<char>, Seq<u8>)| swept.contains(
                row,
            ) implies !kv.rows().contains_key(row) by {
                lemma_swept_is(rows, scan, now_ms, row);
                let j = choose|j: int|
                    0 <= j < scan.len() && #[trigger] swept_at(rows, scan, now_ms, j, row);
                assert(swept_at(rows, scan, now_ms, j, row));
            }
            assert(kv.rows() =~= rows.remove_keys(swept));
        }
    }
    RetentionStats { messages_expired: expired }
}

proof fn lemma_second_sweep(rows: Rows, now_ms: i64)
    ensures
        ({
            let once = rows.remove_keys(swept_rows(rows, now_ms));
            once.remove_keys(swept_rows(once, now_ms)) == once
        }),
{
    let once = rows.remove_keys(swept_rows(rows, now_ms));
    assert forall|topic_id: u64, seq: u64| !is_expired(once, topic_id, seq, now_ms) by {
        let row = ("msg"@, keys::pair_key(topic_id, seq));
        if is_expired(once, topic_id, seq, now_ms) {
            assert(rows.contains_key(row));
            assert(is_expired(rows, topic_id, seq, now_ms));
            assert(swept_rows(rows, now_ms).contains(row));
        }
    }
    assert forall|row: (Seq<char>, Seq<u8>)| !swept_rows(once, now_ms).contains(row) by {}
    assert(once.remove_keys(swept_rows(once, now_ms)) =~= once);
}

proof fn lemma_sweep_of_message(rows: Rows, now_ms: i64, topic_id: u64, seq: u64)
    ensures
        is_swept(rows, now_ms, ("msg"@, keys::pair_key(topic_id, seq))) <==> is_expired(
            rows,
            topic_id,
            seq,
            now_ms,
        ),
{
    kv::law_keyspaces_differ();
    let own = ("msg"@, keys::pair_key(topic_id, seq));
    if !is_expired(rows, topic_id, seq, now_ms) && is_swept(rows, now_ms, own) {
        let (t, s) = choose|t: u64, s: u64|
            own.1 == keys::pair_key(t, s) && #[trigger] is_expired(rows, t, s, now_ms);
        keys::law_pair_key_round_trip(t, s, own.1);
        keys::law_pair_key_round_trip(topic_id, seq, own.1);
    }
}

proof fn lemma_missing_is_expired(rows: Rows, scan: Scan, now_ms: i64, n: int)
    requires
        kv::is_scan(rows, "msg"@, Seq::empty(), scan),
        0 <= n <= scan.len(),
    ensures
        missing(scan, rows.remove_keys(swept_rows(rows, now_ms)), n) == expired_count(
            scan,
            now_ms,
            n,
        ),
    decreases n,
{
    if n > 0 {
        lemma_missing_is_expired(rows, scan, now_ms, n - 1);
        let row = ("msg"@, scan[n - 1].0);
        assert(rows.contains_key(row) && rows[row] == scan[n - 1].1);
        kv::law_keyspaces_differ();
        if expired_at(scan, now_ms, n - 1) {
            let (topic_id, seq) = (topic_at(scan, n - 1), seq_at(scan, n - 1));
            keys::law_pair_key_round_trip(topic_id, seq, scan[n - 1].0);
            assert(is_expired(rows, topic_id, seq, now_ms));
            assert(is_swept(rows, now_ms, row));
        } else if is_swept(rows, now_ms, row) {
            let (t, s) = choose|t: u64, s: u64|
                row.1 == keys::pair_key(t, s) && #[trigger] is_expired(rows, t, s, now_ms);
            keys::law_pair_key_round_trip(t, s, row.1);
        }
    }
}

proof fn lemma_none_missing(rows: Rows, scan: Scan, n: int)
    requires
        kv::is_scan(rows, "msg"@, Seq::empty(), scan),
        0 <= n <= scan.len(),
    ensures
        missing(scan, rows, n) == 0,
    decreases n,
{
    if n > 0 {
        lemma_none_missing(rows, scan, n - 1);
        assert(rows.contains_key(("msg"@, scan[n - 1].0)));
    }
}

/// A sweep of a store that writes without fail: a message stays, as it is, exactly if its time is
/// not up; its deliveries on the subscriptions of its topic go with it; the messages removed are
/// counted; every other row stays as it is. Sweeping again at the same time changes nothing and
/// counts none.
pub proof fn law_sweep<K: KvStore>(
    before: Rows,
    after: Rows,
    again: Rows,
    now_ms: i64,
    stats: RetentionStats,
    more: RetentionStats,
)
    requires
        K::reliable(),
        kv::has_scan(before, "msg"@, Seq::empty()),
        kv::has_scan(after, "msg"@, Seq::empty()),
        is_sweep::<K>(before, after, now_ms, stats),
        is_sweep::<K>(after, again, now_ms, more),
    ensures
        forall|topic_id: u64, seq: u64|
            kv::fetch(after, "msg"@, #[trigger] keys::pair_key(topic_id, seq)) == if is_expired(
                before,
                topic_id,
                seq,
                now_ms,
            ) {
                None
            } else {
                kv::fetch(before, "msg"@, keys::pair_key(topic_id, seq))
            },
        forall|topic_id: u64, sub_id: u64, seq: u64| #[trigger]
            is_expired(before, topic_id, seq, now_ms) && #[trigger] subscription::attached_ids(
                before,
                topic_id,
            ).contains(sub_id) ==> kv::fetch(after, "dlv"@, keys::pair_key(sub_id, seq)) is None,
        forall|keyspace: Seq<char>, key: Seq<u8>|
            !is_swept(before, now_ms, (keyspace, key)) ==> #[trigger] kv::fetch(
                after,
                keyspace,
                key,
            ) == kv::fetch(before, keyspace, key),
        ({
            let log = kv::scan_of(before, "msg"@, Seq::empty());
            stats.messages_expired == expired_count(log, now_ms, log.len() as int)
        }),
        again == after,
        more.messages_expired == 0,
{
    let log = kv::scan_of(before, "msg"@, Seq::empty());
    let left = kv::scan_of(after, "msg"@, Seq::empty());
    lemma_second_sweep(before, now_ms);
    lemma_missing_is_expired(before, log, now_ms, log.len() as int);
    lemma_none_missing(after, left, left.len() as int);
    assert forall|topic_id: u64, seq: u64| kv::fetch(
        after,
        "msg"@,
        #[trigger] keys::pair_key(topic_id, seq),
    ) == if is_expired(before, topic_id, seq, now_ms) {
        None
    } else {
        kv::fetch(before, "msg"@, keys::pair_key(topic_id, seq))
    } by {
        lemma_sweep_of_message(before, now_ms, topic_id, seq);
    }
    assert forall|topic_id: u64, sub_id: u64, seq: u64| #[trigger]
        is_expired(before, topic_id, seq, now_ms) && #[trigger] subscription::attached_ids(
            before,
            topic_id,
        ).contains(sub_id) implies kv::fetch(after, "dlv"@, keys::pair_key(sub_id, seq)) is None by {
        assert(is_swept(before, now_ms, ("dlv"@, keys::pair_key(sub_id, seq))));
    }
}

} // verus!
