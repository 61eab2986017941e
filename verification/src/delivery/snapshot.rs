//! Snapshots: named copies of a subscription's cursor.

use crate::arith;
use crate::error;
use crate::error::{not_found, Error, ErrorView};
use crate::limits::{MAX_SNAPSHOT_LIFETIME_SECS, MIN_SNAPSHOT_REMAINING_LIFETIME_SECS};
use crate::listing;
use crate::listing::Named;
use crate::names;
use crate::names::SnapshotName;
use crate::store::codec::{CursorRecord, SnapshotRecord, SnapshotView};
use crate::store::keys;
use crate::store::keys::NameKind;
use crate::store::kv;
use crate::store::kv::{KvStore, KvValue, Rows, Scan, ValueView, Write};
use crate::string_map::{Entries, StringMap};
use crate::text;
use crate::topic;
use crate::topic::read_counter;
use vstd::prelude::*;
use vstd::string::*;

verus! {

impl Named for SnapshotRecord {
    open spec fn name_of(v: SnapshotView) -> Seq<char> {
        v.name
    }

    fn name_text(&self) -> (r: &str) {
        self.name.as_str()
    }
}

/// The snapshot stored under an id.
pub open spec fn stored_snapshot(rows: Rows, id: u64) -> Result<SnapshotView, ErrorView> {
    match kv::fetch(rows, "meta"@, keys::snapshot_key_bytes(id)) {
        None => Err(
            ErrorView::Internal {
                message: "missing snapshot record for id "@ + text::dec(id as nat),
            },
        ),
        Some(ValueView::Snapshot(s)) => Ok(s),
        Some(v) => Err(
            kv::undecodable("failed to decode snapshot record for id "@ + text::dec(id as nat), v),
        ),
    }
}

/// The error for a name whose index row is not an id.
pub open spec fn corrupt_index(name: Seq<char>) -> ErrorView {
    ErrorView::Internal {
        message: "corrupt snapshot id index entry for "@ + text::debug_text(name),
    }
}

/// The id that the name index holds for a snapshot name.
pub open spec fn snapshot_id_of(rows: Rows, name: Seq<char>) -> Result<u64, ErrorView> {
    match names::snapshot_name_error(name) {
        Some(e) => Err(e),
        None => match kv::fetch(rows, "meta"@, keys::name_key_bytes(NameKind::Snapshot, name)) {
            None => Err(ErrorView::NotFound { resource: name }),
            Some(ValueView::Bytes(b)) => match keys::from_be64(b) {
                Some(id) => Ok(id),
                None => Err(corrupt_index(name)),
            },
            Some(_) => Err(corrupt_index(name)),
        },
    }
}

/// The snapshot with a name.
pub open spec fn snapshot_named(rows: Rows, name: Seq<char>) -> Result<SnapshotView, ErrorView> {
    match snapshot_id_of(rows, name) {
        Ok(id) => stored_snapshot(rows, id),
        Err(e) => Err(e),
    }
}

/// What stands in the way of creating a snapshot, if anything does.
pub open spec fn create_error(rows: Rows, name: Seq<char>) -> Option<ErrorView> {
    if names::snapshot_name_error(name) is Some {
        names::snapshot_name_error(name)
    } else if kv::fetch(rows, "meta"@, keys::name_key_bytes(NameKind::Snapshot, name)) is Some {
        Some(ErrorView::AlreadyExists { resource: name })
    } else {
        None
    }
}

/// What creating a snapshot stores: the id counter, the record, and the name's id.
pub open spec fn create_writes(snapshot: SnapshotView) -> Seq<Write> {
    seq![
        Write::Put(
            "meta"@,
            keys::id_seq_key_bytes(),
            ValueView::Bytes(keys::be64(snapshot.id)),
        ),
        Write::Put("meta"@, keys::snapshot_key_bytes(snapshot.id), ValueView::Snapshot(snapshot)),
        Write::Put(
            "meta"@,
            keys::name_key_bytes(NameKind::Snapshot, snapshot.name),
            ValueView::Bytes(keys::be64(snapshot.id)),
        ),
    ]
}

/// What deleting a snapshot removes: the record and the name's id.
pub open spec fn delete_writes(id: u64, name: Seq<char>) -> Seq<Write> {
    seq![
        Write::Delete("meta"@, keys::snapshot_key_bytes(id)),
        Write::Delete("meta"@, keys::name_key_bytes(NameKind::Snapshot, name)),
    ]
}

/// The snapshots that name-index rows lead to, in their order.
pub open spec fn indexed_snapshots(rows: Rows, scan: Scan) -> Result<Seq<SnapshotView>, ErrorView>
    decreases scan.len(),
{
    if scan.len() == 0 {
        Ok(Seq::empty())
    } else {
        match indexed_snapshots(rows, scan.drop_last()) {
            Err(e) => Err(e),
            Ok(found) => match scan.last().1 {
                ValueView::Bytes(b) => match keys::from_be64(b) {
                    Some(id) => match stored_snapshot(rows, id) {
                        Ok(s) => Ok(found.push(s)),
                        Err(e) => Err(e),
                    },
                    None => Ok(found),
                },
                _ => Ok(found),
            },
        }
    }
}

/// The start of the index key of every snapshot of a project.
pub open spec fn project_snapshots_prefix(project_id: Seq<char>) -> Seq<u8> {
    keys::name_key_bytes(NameKind::Snapshot, "projects/"@ + project_id + "/snapshots/"@)
}

/// The snapshots of a project, sorted by name.
pub open spec fn project_snapshots(rows: Rows, project_id: Seq<char>) -> Result<
    Seq<SnapshotView>,
    ErrorView,
> {
    match indexed_snapshots(
        rows,
        kv::scan_of(rows, "meta"@, project_snapshots_prefix(project_id)),
    ) {
        Ok(found) => Ok(listing::sorted_by_name::<SnapshotRecord>(found)),
        Err(e) => Err(e),
    }
}

/// How far a sweep has come.
pub struct Sweep {
    pub writes: Seq<Write>,
    pub removed: int,
    pub failure: Option<ErrorView>,
}

/// What a sweep does to the first `n` of `snapshots`: it deletes those that have expired, by their
/// names, up to the first that it does not find.
pub open spec fn swept(rows: Rows, snapshots: Seq<SnapshotView>, now_ms: i64, n: int) -> Sweep
    decreases n,
{
    if n <= 0 {
        Sweep { writes: Seq::empty(), removed: 0, failure: None }
    } else {
        let before = swept(rows, snapshots, now_ms, n - 1);
        let s = snapshots[n - 1];
        if before.failure is Some || s.expire_at_ms > now_ms {
            before
        } else {
            match snapshot_id_of(kv::after_writes(rows, before.writes), s.name) {
                Ok(id) => Sweep {
                    writes: before.writes + delete_writes(id, s.name),
                    removed: before.removed + 1,
                    failure: None,
                },
                Err(e) => Sweep { failure: Some(e), ..before },
            }
        }
    }
}

/// What a sweep does to the snapshots of a project.
pub open spec fn project_sweep(rows: Rows, project_id: Seq<char>, now_ms: i64) -> Sweep {
    match project_snapshots(rows, project_id) {
        Ok(all) => swept(rows, all, now_ms, all.len() as int),
        Err(e) => Sweep { writes: Seq::empty(), removed: 0, failure: Some(e) },
    }
}

/// When a snapshot expires that is taken at `now_ms`: after the longest lifetime, less the age of
/// the oldest message that is not done.
pub open spec fn expiry(now_ms: i64, oldest_unacked_publish_ts_ms: Option<i64>) -> int {
    let age = match oldest_unacked_publish_ts_ms {
        Some(ts) => if now_ms > ts {
            arith::clamp_i64(now_ms - ts)
        } else {
            0
        },
        None => 0,
    };
    arith::clamp_i64(arith::clamp_i64(now_ms + MAX_SNAPSHOT_LIFETIME_SECS * 1000) - age)
}

/// A snapshot that is taken at `now_ms` would live for less than an hour.
pub open spec fn too_short_lived(now_ms: i64, oldest_unacked_publish_ts_ms: Option<i64>) -> bool {
    expiry(now_ms, oldest_unacked_publish_ts_ms) - now_ms < MIN_SNAPSHOT_REMAINING_LIFETIME_SECS
        * 1000
}

/// When a snapshot expires that is taken at `now_ms`. Fails when it would live for less than an
/// hour.
pub fn compute_expire_at_ms(
    now_ms: i64,
    oldest_unacked_publish_ts_ms: Option<i64>,
) -> (r: Result<i64, Error>)
    ensures
        match r {
            Ok(t) => !too_short_lived(now_ms, oldest_unacked_publish_ts_ms) && t == expiry(
                now_ms,
                oldest_unacked_publish_ts_ms,
            ),
            Err(e) => too_short_lived(now_ms, oldest_unacked_publish_ts_ms) && e@ == (
            ErrorView::FailedPrecondition {
                message: "snapshot's remaining lifetime would be under 1 hour"@,
            }),
        },
{
    let max_lifetime_ms: i64 = arith::saturating_mul(MAX_SNAPSHOT_LIFETIME_SECS, 1000);
    let age_ms: i64 = match oldest_unacked_publish_ts_ms {
        Some(ts) => {
            let age: i64 = arith::saturating_sub(now_ms, ts);
            if age > 0 {
                age
            } else {
                0
            }
        },
        None => 0,
    };
    let expire_at_ms: i64 = arith::saturating_sub(
        arith::saturating_add(now_ms, max_lifetime_ms),
        age_ms,
    );
    let remaining_ms: i64 = arith::saturating_sub(expire_at_ms, now_ms);
    if remaining_ms < arith::saturating_mul(MIN_SNAPSHOT_REMAINING_LIFETIME_SECS, 1000) {
        return Err(
            Error::FailedPrecondition {
                message: String::from_str("snapshot's remaining lifetime would be under 1 hour"),
            },
        );
    }
    Ok(expire_at_ms)
}

/// Every snapshot that is taken lives for an hour at least and for seven days at most.
pub proof fn law_snapshot_lifetime(now_ms: i64, oldest_unacked_publish_ts_ms: Option<i64>)
    requires
        !too_short_lived(now_ms, oldest_unacked_publish_ts_ms),
    ensures
        now_ms + 3_600_000 <= expiry(now_ms, oldest_unacked_publish_ts_ms) <= now_ms + 604_800_000,
{
}

/// Snapshots, in a [`KvStore`].
#[derive(Debug, Clone, Copy)]
pub struct SnapshotStore;

impl SnapshotStore {
    /// A snapshot store.
    pub fn new() -> Self {
        SnapshotStore
    }

    /// Creates a snapshot that holds the given cursor.
    pub fn create<K: KvStore>(
        &self,
        kv: &mut K,
        full_name: &str,
        topic_full_name: &str,
        topic_id: u64,
        labels: StringMap,
        cursor: CursorRecord,
        expire_at_ms: i64,
    ) -> (r: Result<SnapshotRecord, Error>)
        ensures
            ({
                let new = (SnapshotView {
                    id: topic::fresh_id(old(kv).rows()),
                    name: full_name@,
                    topic: topic_full_name@,
                    topic_id,
                    labels: labels@,
                    cursor: cursor@,
                    expire_at_ms,
                });
                kv::stored::<SnapshotRecord, K>(
                    r,
                    old(kv).rows(),
                    final(kv).rows(),
                    create_error(old(kv).rows(), full_name@),
                    new,
                    create_writes(new),
                )
            }),
    {
        match SnapshotName::parse(full_name) {
            Ok(_) => {},
            Err(e) => {
                return Err(e);
            },
        }
        let name_key = keys::name_key(NameKind::Snapshot, full_name);
        if kv.get("meta", name_key.as_slice()).is_some() {
            return Err(Error::AlreadyExists { resource: String::from_str(full_name) });
        }
        let ghost before = kv.rows();
        let last: u64 = read_counter(kv, keys::id_seq_key().as_slice());
        let id: u64 = if last == u64::MAX {
            u64::MAX
        } else {
            last + 1
        };
        let record = SnapshotRecord {
            id,
            name: String::from_str(full_name),
            topic: String::from_str(topic_full_name),
            topic_id,
            labels,
            cursor,
            expire_at_ms,
        };
        let ghost writes = create_writes(record@);
        assert(writes.take(0) =~= Seq::<Write>::empty());
        match kv::put_step(
            kv,
            "meta",
            keys::id_seq_key(),
            KvValue::Bytes(keys::u64_bytes(id)),
            Ghost(before),
            Ghost(writes),
            Ghost(0),
        ) {
            Ok(_) => {},
            Err(e) => {
                return Err(e);
            },
        }
        match kv::put_step(
            kv,
            "meta",
            keys::snapshot_key(id),
            KvValue::Snapshot(record.clone()),
            Ghost(before),
            Ghost(writes),
            Ghost(1),
        ) {
            Ok(_) => {},
            Err(e) => {
                return Err(e);
            },
        }
        match kv::put_step(
            kv,
            "meta",
            name_key,
            KvValue::Bytes(keys::u64_bytes(id)),
            Ghost(before),
            Ghost(writes),
            Ghost(2),
        ) {
            Ok(_) => {},
            Err(e) => {
                return Err(e);
            },
        }
        assert(writes.take(3) =~= writes);
        Ok(record)
    }

    fn resolve_id<K: KvStore>(&self, kv: &K, full_name: &str) -> (r: Result<u64, Error>)
        ensures
            match snapshot_id_of(kv.rows(), full_name@) {
                Ok(id) => r is Ok && r->Ok_0 == id,
                Err(e) => r is Err && r->Err_0@ == e,
            },
    {
        match SnapshotName::parse(full_name) {
            Ok(_) => {},
            Err(e) => {
                return Err(e);
            },
        }
        let id: Option<u64> = match kv.get(
            "meta",
            keys::name_key(NameKind::Snapshot, full_name).as_slice(),
        ) {
            None => {
                return Err(not_found(full_name));
            },
            Some(KvValue::Bytes(b)) => keys::decode_u64(b.as_slice()),
            Some(_) => None,
        };
        match id {
            Some(id) => Ok(id),
            None => Err(
                Error::Internal {
                    message: text::cat2(
                        "corrupt snapshot id index entry for ",
                        text::quoted(full_name).as_str(),
                    ),
                },
            ),
        }
    }

    fn load_record<K: KvStore>(&self, kv: &K, id: u64) -> (r: Result<SnapshotRecord, Error>)
        ensures
            error::result_view(r) == stored_snapshot(kv.rows(), id),
    {
        match kv.get("meta", keys::snapshot_key(id).as_slice()) {
            None => Err(
                Error::Internal {
                    message: text::cat2(
                        "missing snapshot record for id ",
                        text::u64_text(id).as_str(),
                    ),
                },
            ),
            Some(KvValue::Snapshot(s)) => Ok(s),
            Some(v) => Err(
                kv::not_decoded(
                    text::cat2(
                        "failed to decode snapshot record for id ",
                        text::u64_text(id).as_str(),
                    ).as_str(),
                    &v,
                ),
            ),
        }
    }

    /// The snapshot with a name.
    pub fn get<K: KvStore>(&self, kv: &K, full_name: &str) -> (r: Result<SnapshotRecord, Error>)
        ensures
            error::result_view(r) == snapshot_named(kv.rows(), full_name@),
    {
        match self.resolve_id(kv, full_name) {
            Ok(id) => self.load_record(kv, id),
            Err(e) => Err(e),
        }
    }

    /// The snapshots of a project, sorted by name.
    pub(crate) fn load_project<K: KvStore>(&self, kv: &K, project_id: &str) -> (r: Result<
        Vec<SnapshotRecord>,
        Error,
    >)
        ensures
            match project_snapshots(kv.rows(), project_id@) {
                Ok(all) => r is Ok && listing::views(r->Ok_0@) == all,
                Err(e) => r is Err && r->Err_0@ == e,
            },
    {
        let prefix = keys::name_key(
            NameKind::Snapshot,
            text::cat3("projects/", project_id, "/snapshots/").as_str(),
        );
        let rows = kv.scan_prefix("meta", prefix.as_slice());
        let ghost scan = kv::scan_view(rows@);
        proof {
            kv::law_scan_is_unique(kv.rows(), "meta"@, prefix@, scan, scan);
        }
        let mut sorted: Vec<SnapshotRecord> = Vec::new();
        let ghost mut found: Seq<SnapshotView> = Seq::empty();
        let mut i: usize = 0;
        assert(scan.take(0) =~= Scan::empty());
        assert(listing::views(sorted@) =~= Seq::<SnapshotView>::empty());
        while i < rows.len()
            invariant
                i <= rows.len(),
                scan == kv::scan_view(rows@),
                indexed_snapshots(kv.rows(), scan.take(i as int)) == Ok::<_, ErrorView>(found),
                listing::views(sorted@) == listing::sorted_by_name::<SnapshotRecord>(found),
                project_snapshots(kv.rows(), project_id@) == match indexed_snapshots(
                    kv.rows(),
                    scan,
                ) {
                    Ok(all) => Ok(listing::sorted_by_name::<SnapshotRecord>(all)),
                    Err(e) => Err(e),
                },
            decreases rows.len() - i,
        {
            assert(scan.take(i + 1).drop_last() =~= scan.take(i as int));
            assert(scan[i as int].1 == rows@[i as int].1@);
            if let KvValue::Bytes(b) = &rows[i].1 {
                if let Some(id) = keys::decode_u64(b.as_slice()) {
                    match self.load_record(kv, id) {
                        Ok(s) => {
                            proof {
                                assert(found.push(s@).drop_last() =~= found);
                                found = found.push(s@);
                            }
                            listing::insert_sorted(&mut sorted, s);
                        },
                        Err(e) => {
                            proof {
                                lemma_indexed_error(kv.rows(), scan, i + 1);
                            }
                            return Err(e);
                        },
                    }
                }
            }
            i = i + 1;
        }
        assert(scan.take(i as int) =~= scan);
        Ok(sorted)
    }

    /// A page of the snapshots of a project, sorted by name, and the token for the next page.
    pub fn list<K: KvStore>(
        &self,
        kv: &K,
        project_id: &str,
        page_size: usize,
        page_token: Option<&str>,
    ) -> (r: Result<(Vec<SnapshotRecord>, Option<String>), Error>)
        ensures
            match project_snapshots(kv.rows(), project_id@) {
                Ok(all) => {
                    &&& r is Ok
                    &&& listing::views((r->Ok_0).0@) == listing::page::<SnapshotRecord>(
                        all,
                        page_size as nat,
                        listing::opt_str(page_token),
                    )
                    &&& listing::opt_string((r->Ok_0).1) == listing::next_token::<SnapshotRecord>(
                        all,
                        page_size as nat,
                        listing::opt_str(page_token),
                    )
                },
                Err(e) => r is Err && r->Err_0@ == e,
            },
    {
        match self.load_project(kv, project_id) {
            Ok(sorted) => Ok(listing::take_page(sorted, page_size, page_token)),
            Err(e) => Err(e),
        }
    }

    /// Replaces a snapshot's labels.
    pub fn update_labels<K: KvStore>(
        &self,
        kv: &mut K,
        full_name: &str,
        labels: StringMap,
    ) -> (r: Result<SnapshotRecord, Error>)
        ensures
            match snapshot_named(old(kv).rows(), full_name@) {
                Ok(found) => kv::stored::<SnapshotRecord, K>(
                    r,
                    old(kv).rows(),
                    final(kv).rows(),
                    None,
                    (SnapshotView { labels: labels@, ..found }),
                    relabel_writes(found, labels@),
                ),
                Err(e) => r is Err && r->Err_0@ == e && final(kv).rows() == old(kv).rows(),
            },
    {
        let mut record = match self.get(kv, full_name) {
            Ok(record) => record,
            Err(e) => {
                return Err(e);
            },
        };
        let ghost found = record@;
        record.labels = labels;
        let ghost before = kv.rows();
        let ghost writes = relabel_writes(found, labels@);
        assert(writes.take(0) =~= Seq::<Write>::empty());
        assert(writes.take(1) =~= writes);
        match kv::put_step(
            kv,
            "meta",
            keys::snapshot_key(record.id),
            KvValue::Snapshot(record.clone()),
            Ghost(before),
            Ghost(writes),
            Ghost(0),
        ) {
            Ok(_) => Ok(record),
            Err(e) => Err(e),
        }
    }

    /// Deletes a snapshot.
    pub fn delete<K: KvStore>(&self, kv: &mut K, full_name: &str) -> (r: Result<(), Error>)
        ensures
            match snapshot_id_of(old(kv).rows(), full_name@) {
                Ok(id) => kv::stored::<(), K>(
                    r,
                    old(kv).rows(),
                    final(kv).rows(),
                    None,
                    (),
                    delete_writes(id, full_name@),
                ),
                Err(e) => r is Err && r->Err_0@ == e && final(kv).rows() == old(kv).rows(),
            },
    {
        let id: u64 = match self.resolve_id(kv, full_name) {
            Ok(id) => id,
            Err(e) => {
                return Err(e);
            },
        };
        let ghost before = kv.rows();
        let ghost writes = delete_writes(id, full_name@);
        assert(writes.take(0) =~= Seq::<Write>::empty());
        match kv::delete_step(
            kv,
            "meta",
            keys::snapshot_key(id).as_slice(),
            Ghost(before),
            Ghost(writes),
            Ghost(0),
        ) {
            Ok(_) => {},
            Err(e) => {
                return Err(e);
            },
        }
        assert(writes.take(2) =~= writes);
        kv::delete_step(
            kv,
            "meta",
            keys::name_key(NameKind::Snapshot, full_name).as_slice(),
            Ghost(before),
            Ghost(writes),
            Ghost(1),
        )
    }

    /// Deletes the snapshots of a project that have expired, and returns how many.
    pub fn sweep_expired<K: KvStore>(&self, kv: &mut K, project_id: &str, now_ms: i64) -> (r:
        Result<usize, Error>)
        ensures
            ({
                let sweep = project_sweep(old(kv).rows(), project_id@, now_ms);
                ||| {
                    &&& match r {
                        Ok(n) => sweep.failure is None && n == sweep.removed,
                        Err(e) => sweep.failure == Some(e@),
                    }
                    &&& final(kv).rows() == kv::after_writes(old(kv).rows(), sweep.writes)
                }
                ||| r is Err && !K::reliable() && K::may_fail(r->Err_0@) && kv::torn(
                    old(kv).rows(),
                    sweep.writes,
                    final(kv).rows(),
                )
            }),
    {
        let records = match self.load_project(kv, project_id) {
            Ok(records) => records,
            Err(e) => {
                return Err(e);
            },
        };
        let ghost before = kv.rows();
        let ghost all = listing::views(records@);
        let mut removed: usize = 0;
        let mut i: usize = 0;
        while i < records.len()
            invariant
                i <= records.len(),
                removed <= i,
                all == listing::views(records@),
                before == old(kv).rows(),
                project_snapshots(before, project_id@) == Ok::<_, ErrorView>(all),
                swept(before, all, now_ms, i as int).failure is None,
                kv.rows() == kv::after_writes(before, swept(before, all, now_ms, i as int).writes),
                removed == swept(before, all, now_ms, i as int).removed,
            decreases records.len() - i,
        {
            let record = &records[i];
            assert(all[i as int] == record@);
            let ghost earlier = swept(before, all, now_ms, i as int);
            let ghost now = swept(before, all, now_ms, i + 1);
            if record.expire_at_ms <= now_ms {
                let ghost mid = kv.rows();
                match self.delete(kv, record.name.as_str()) {
                    Ok(_) => {},
                    Err(e) => {
                        proof {
                            lemma_sweep_goes_on(before, all, now_ms, i + 1, all.len() as int);
                            if snapshot_id_of(mid, record.name@) is Ok {
                                let gone = delete_writes(
                                    snapshot_id_of(mid, record.name@)->Ok_0,
                                    record.name@,
                                );
                                kv::lemma_torn_after(before, earlier.writes, gone, kv.rows());
                                let last = swept(before, all, now_ms, all.len() as int).writes;
                                let more = last.skip(now.writes.len() as int);
                                assert(last =~= now.writes + more);
                                kv::lemma_torn_before(before, now.writes, more, kv.rows());
                            }
                        }
                        return Err(e);
                    },
                }
                proof {
                    kv::lemma_after_concat(
                        before,
                        earlier.writes,
                        delete_writes(snapshot_id_of(mid, record.name@)->Ok_0, record.name@),
                    );
                }
                removed = removed + 1;
            }
            i = i + 1;
        }
        Ok(removed)
    }
}

/// What replacing a snapshot's labels stores.
pub open spec fn relabel_writes(snapshot: SnapshotView, labels: Entries) -> Seq<Write> {
    seq![
        Write::Put(
            "meta"@,
            keys::snapshot_key_bytes(snapshot.id),
            ValueView::Snapshot(SnapshotView { labels, ..snapshot }),
        ),
    ]
}

proof fn lemma_indexed_error(rows: Rows, scan: Scan, n: int)
    requires
        0 <= n <= scan.len(),
        indexed_snapshots(rows, scan.take(n)) is Err,
    ensures
        indexed_snapshots(rows, scan) == indexed_snapshots(rows, scan.take(n)),
    decreases scan.len() - n,
{
    if n < scan.len() {
        assert(scan.take(n + 1).drop_last() =~= scan.take(n));
        lemma_indexed_error(rows, scan, n + 1);
    } else {
        assert(scan.take(n) =~= scan);
    }
}

proof fn lemma_sweep_goes_on(
    rows: Rows,
    snapshots: Seq<SnapshotView>,
    now_ms: i64,
    m: int,
    n: int,
)
    requires
        0 <= m <= n,
    ensures
        text::has_prefix(
            swept(rows, snapshots, now_ms, n).writes,
            swept(rows, snapshots, now_ms, m).writes,
        ),
        swept(rows, snapshots, now_ms, m).failure is Some ==> swept(rows, snapshots, now_ms, n)
            == swept(rows, snapshots, now_ms, m),
    decreases n - m,
{
    if m < n {
        lemma_sweep_goes_on(rows, snapshots, now_ms, m, n - 1);
        let first = swept(rows, snapshots, now_ms, m).writes;
        let before = swept(rows, snapshots, now_ms, n - 1).writes;
        let after = swept(rows, snapshots, now_ms, n).writes;
        assert(after.take(before.len() as int) =~= before);
        assert(after.take(first.len() as int) =~= before.take(first.len() as int));
    } else {
        let all = swept(rows, snapshots, now_ms, n).writes;
        assert(all.take(all.len() as int) =~= all);
    }
}

/// A row of the name index leads to a snapshot of that name.
pub open spec fn is_entry(rows: Rows, key: Seq<u8>, s: SnapshotView) -> bool {
    &&& names::snapshot_name_error(s.name) is None
    &&& key == keys::name_key_bytes(NameKind::Snapshot, s.name)
    &&& kv::fetch(rows, "meta"@, key) == Some(ValueView::Bytes(keys::be64(s.id)))
    &&& stored_snapshot(rows, s.id) == Ok::<SnapshotView, ErrorView>(s)
    &&& s.id <= topic::counter(rows, keys::id_seq_key_bytes())
}

/// A row of the name index leads to a snapshot.
pub open spec fn has_entry(rows: Rows, key: Seq<u8>) -> bool {
    exists|s: SnapshotView| is_entry(rows, key, s)
}

/// Every row of the name index leads to a snapshot.
pub open spec fn well_kept(rows: Rows) -> bool {
    forall|key: Seq<u8>| #[trigger]
        rows.contains_key(("meta"@, key)) && text::has_prefix(
            key,
            keys::name_prefix(NameKind::Snapshot),
        ) ==> has_entry(rows, key)
}

/// Rows that hold one id lead to one snapshot.
proof fn lemma_one_entry(rows: Rows, a: Seq<u8>, s: SnapshotView, b: Seq<u8>, t: SnapshotView)
    requires
        is_entry(rows, a, s),
        is_entry(rows, b, t),
    ensures
        a == b || s.name == t.name || s.id == t.id ==> s == t,
{
    keys::law_name_key_injective(NameKind::Snapshot, s.name, t.name);
    keys::law_record_keys_injective(s.id, t.id);
}

proof fn lemma_indexed(rows: Rows, scan: Scan)
    requires
        forall|i: int|
            0 <= i < scan.len() ==> {
                &&& has_entry(rows, (#[trigger] scan[i]).0)
                &&& kv::fetch(rows, "meta"@, scan[i].0) == Some(scan[i].1)
            },
    ensures
        indexed_snapshots(rows, scan) is Ok,
        (indexed_snapshots(rows, scan)->Ok_0).len() == scan.len(),
        forall|i: int|
            0 <= i < scan.len() ==> is_entry(
                rows,
                (#[trigger] scan[i]).0,
                (indexed_snapshots(rows, scan)->Ok_0)[i],
            ),
    decreases scan.len(),
{
    if scan.len() > 0 {
        let init = scan.drop_last();
        assert forall|i: int| 0 <= i < init.len() implies {
            &&& has_entry(rows, (#[trigger] init[i]).0)
            &&& kv::fetch(rows, "meta"@, init[i].0) == Some(init[i].1)
        } by {
            assert(init[i] == scan[i]);
        }
        lemma_indexed(rows, init);
        let before = indexed_snapshots(rows, init)->Ok_0;
        let last = scan[scan.len() - 1];
        assert(has_entry(rows, last.0));
        let s = choose|s: SnapshotView| is_entry(rows, last.0, s);
        keys::law_be64_round_trip(s.id, keys::be64(s.id));
        assert(indexed_snapshots(rows, scan) == Ok::<_, ErrorView>(before.push(s)));
        assert forall|i: int| 0 <= i < scan.len() implies is_entry(
            rows,
            (#[trigger] scan[i]).0,
            before.push(s)[i],
        ) by {
            if i < init.len() {
                assert(init[i] == scan[i]);
            }
        }
    }
}

proof fn lemma_prefix_of_project(project_id: Seq<char>, key: Seq<u8>)
    requires
        text::has_prefix(key, project_snapshots_prefix(project_id)),
    ensures
        text::has_prefix(key, keys::name_prefix(NameKind::Snapshot)),
{
    let prefix = keys::name_prefix(NameKind::Snapshot);
    let all = project_snapshots_prefix(project_id);
    assert(all.take(prefix.len() as int) =~= prefix);
    assert(key.take(prefix.len() as int) =~= key.take(all.len() as int).take(prefix.len() as int));
}

/// The list of a project's snapshots holds each of them, once, in the order of their names.
pub proof fn law_project_snapshots(rows: Rows, project_id: Seq<char>)
    requires
        well_kept(rows),
        kv::has_scan(rows, "meta"@, project_snapshots_prefix(project_id)),
    ensures
        project_snapshots(rows, project_id) is Ok,
        ({
            let all = project_snapshots(rows, project_id)->Ok_0;
            &&& listing::names_differ::<SnapshotRecord>(all)
            &&& listing::names_increase::<SnapshotRecord>(all)
            &&& forall|i: int|
                0 <= i < all.len() ==> is_entry(
                    rows,
                    keys::name_key_bytes(NameKind::Snapshot, (#[trigger] all[i]).name),
                    all[i],
                )
            &&& forall|key: Seq<u8>, s: SnapshotView| #[trigger]
                is_entry(rows, key, s) && text::has_prefix(
                    key,
                    project_snapshots_prefix(project_id),
                ) ==> all.contains(s)
        }),
{
    let prefix = project_snapshots_prefix(project_id);
    let scan = kv::scan_of(rows, "meta"@, prefix);
    assert forall|i: int| 0 <= i < scan.len() implies {
        &&& has_entry(rows, (#[trigger] scan[i]).0)
        &&& kv::fetch(rows, "meta"@, scan[i].0) == Some(scan[i].1)
    } by {
        lemma_prefix_of_project(project_id, scan[i].0);
        assert(rows.contains_key(("meta"@, scan[i].0)));
    }
    lemma_indexed(rows, scan);
    let found = indexed_snapshots(rows, scan)->Ok_0;
    let all = listing::sorted_by_name::<SnapshotRecord>(found);
    listing::law_sorting_keeps_the_values::<SnapshotRecord>(found);
    assert forall|i: int, j: int|
        #![trigger found[i], found[j]]
        0 <= i < j < found.len() implies SnapshotRecord::name_of(found[i])
        != SnapshotRecord::name_of(found[j]) by {
        assert(is_entry(rows, scan[i].0, found[i]));
        assert(is_entry(rows, scan[j].0, found[j]));
        assert(text::bytes_lt(scan[i].0, scan[j].0));
        text::lemma_bytes_lt_irreflexive(scan[i].0);
    }
    listing::law_sorted_names_increase::<SnapshotRecord>(found);
    assert forall|i: int| 0 <= i < all.len() implies is_entry(
        rows,
        keys::name_key_bytes(NameKind::Snapshot, (#[trigger] all[i]).name),
        all[i],
    ) by {
        assert(all.contains(all[i]));
        let a = choose|a: int| 0 <= a < found.len() && found[a] == all[i];
        assert(is_entry(rows, scan[a].0, found[a]));
    }
    assert forall|key: Seq<u8>, s: SnapshotView| #[trigger]
        is_entry(rows, key, s) && text::has_prefix(key, prefix) implies all.contains(s) by {
        assert(rows.contains_key(("meta"@, key)));
        assert(kv::scan_has(scan, key));
        let a = choose|a: int| 0 <= a < scan.len() && (#[trigger] scan[a]).0 == key;
        assert(is_entry(rows, scan[a].0, found[a]));
        lemma_one_entry(rows, key, s, scan[a].0, found[a]);
        assert(found.contains(s));
    }
}

/// Following the page tokens gives every snapshot of a project once, in the order of the names. A page
/// gives no token exactly when it is the last, and the pages up to the last hold everything.
pub proof fn law_snapshot_pages(rows: Rows, project_id: Seq<char>, page_size: usize, n: nat)
    requires
        well_kept(rows),
        kv::has_scan(rows, "meta"@, project_snapshots_prefix(project_id)),
        page_size > 0,
    ensures
        project_snapshots(rows, project_id) is Ok,
        ({
            let all = project_snapshots(rows, project_id)->Ok_0;
            let limit = page_size as nat;
            &&& listing::names_increase::<SnapshotRecord>(all)
            &&& forall|key: Seq<u8>, s: SnapshotView| #[trigger]
                is_entry(rows, key, s) && text::has_prefix(
                    key,
                    project_snapshots_prefix(project_id),
                ) ==> all.contains(s)
            &&& listing::token_of_page::<SnapshotRecord>(all, limit, n) is Some <==> n == 0 || n
                * limit < all.len()
            &&& listing::token_of_page::<SnapshotRecord>(all, limit, n) matches Some(token) ==> {
                let next = listing::next_token::<SnapshotRecord>(all, limit, token);
                &&& next is None <==> (n + 1) * limit >= all.len()
                &&& next is None ==> listing::first_pages::<SnapshotRecord>(all, limit, n + 1)
                    == all
            }
        }),
{
    law_project_snapshots(rows, project_id);
    listing::law_following_tokens_gives_the_list::<SnapshotRecord>(
        project_snapshots(rows, project_id)->Ok_0,
        page_size as nat,
        n,
    );
}

/// How many of the first `n` snapshots have expired.
pub open spec fn expired_of(snapshots: Seq<SnapshotView>, now_ms: i64, n: int) -> int
    decreases n,
{
    if n <= 0 {
        0
    } else {
        expired_of(snapshots, now_ms, n - 1) + if snapshots[n - 1].expire_at_ms <= now_ms {
            1int
        } else {
            0int
        }
    }
}

/// A row belongs to a snapshot: it is its record or leads to it.
pub open spec fn row_of(s: SnapshotView, key: Seq<u8>) -> bool {
    key == keys::snapshot_key_bytes(s.id) || key == keys::name_key_bytes(
        NameKind::Snapshot,
        s.name,
    )
}

/// A row belongs to one of the first `n` snapshots that have expired.
pub open spec fn gone(snapshots: Seq<SnapshotView>, now_ms: i64, n: int, key: Seq<u8>) -> bool {
    exists|i: int|
        0 <= i < n && #[trigger] row_of(snapshots[i], key) && snapshots[i].expire_at_ms <= now_ms
}

proof fn lemma_swept(rows: Rows, all: Seq<SnapshotView>, now_ms: i64, n: int)
    requires
        0 <= n <= all.len(),
        listing::names_differ::<SnapshotRecord>(all),
        forall|i: int|
            0 <= i < all.len() ==> is_entry(
                rows,
                keys::name_key_bytes(NameKind::Snapshot, (#[trigger] all[i]).name),
                all[i],
            ),
    ensures
        ({
            let sweep = swept(rows, all, now_ms, n);
            let after = kv::after_writes(rows, sweep.writes);
            &&& sweep.failure is None
            &&& sweep.removed == expired_of(all, now_ms, n)
            &&& forall|key: Seq<u8>| #[trigger]
                kv::fetch(after, "meta"@, key) == if gone(all, now_ms, n, key) {
                    None
                } else {
                    kv::fetch(rows, "meta"@, key)
                }
            &&& forall|keyspace: Seq<char>, key: Seq<u8>|
                keyspace != "meta"@ ==> #[trigger] kv::fetch(after, keyspace, key) == kv::fetch(
                    rows,
                    keyspace,
                    key,
                )
        }),
    decreases n,
{
    if n > 0 {
        lemma_swept(rows, all, now_ms, n - 1);
        let m = n - 1;
        let before = swept(rows, all, now_ms, n - 1);
        let mid = kv::after_writes(rows, before.writes);
        let s = all[n - 1];
        let own = keys::name_key_bytes(NameKind::Snapshot, s.name);
        let record = keys::snapshot_key_bytes(s.id);
        assert forall|key: Seq<u8>| #[trigger] gone(all, now_ms, n, key) <==> gone(
            all,
            now_ms,
            m,
            key,
        ) || (s.expire_at_ms <= now_ms && row_of(s, key)) by {
            if gone(all, now_ms, n, key) {
                let i = choose|i: int|
                    0 <= i < n && #[trigger] row_of(all[i], key) && all[i].expire_at_ms <= now_ms;
                if i < m {
                    assert(row_of(all[i], key));
                }
            }
            if gone(all, now_ms, m, key) {
                let i = choose|i: int|
                    0 <= i < m && #[trigger] row_of(all[i], key) && all[i].expire_at_ms <= now_ms;
                assert(row_of(all[i], key));
            }
            if s.expire_at_ms <= now_ms && row_of(s, key) {
                assert(row_of(all[n - 1], key));
            }
        }
        if s.expire_at_ms <= now_ms {
            if gone(all, now_ms, m, own) {
                let i = choose|i: int|
                    0 <= i < m && #[trigger] row_of(all[i], own) && all[i].expire_at_ms <= now_ms;
                keys::law_name_key_injective(NameKind::Snapshot, all[i].name, s.name);
                keys::law_kinds_of_keys_differ(
                    all[i].id,
                    all[i].id,
                    NameKind::Snapshot,
                    s.name,
                );
                assert(SnapshotRecord::name_of(all[i]) != SnapshotRecord::name_of(all[n - 1]));
            }
            keys::law_be64_round_trip(s.id, keys::be64(s.id));
            assert(kv::fetch(mid, "meta"@, own) == Some(ValueView::Bytes(keys::be64(s.id))));
            assert(snapshot_id_of(mid, s.name) == Ok::<u64, ErrorView>(s.id));
            let writes = delete_writes(s.id, s.name);
            kv::lemma_after_concat(rows, before.writes, writes);
            let after = kv::after_writes(mid, writes);
            assert(after == mid.remove(("meta"@, record)).remove(("meta"@, own))) by {
                reveal_with_fuel(kv::after_writes, 3);
                assert(writes.drop_last().drop_last() =~= Seq::<Write>::empty());
                assert(writes.drop_last().last() == writes[0]);
            }
            assert forall|key: Seq<u8>| #[trigger]
                kv::fetch(after, "meta"@, key) == if gone(all, now_ms, n, key) {
                    None
                } else {
                    kv::fetch(rows, "meta"@, key)
                } by {
                assert(kv::fetch(mid, "meta"@, key) == if gone(all, now_ms, m, key) {
                    None
                } else {
                    kv::fetch(rows, "meta"@, key)
                });
            }
            assert forall|keyspace: Seq<char>, key: Seq<u8>|
                keyspace != "meta"@ implies #[trigger] kv::fetch(after, keyspace, key)
                == kv::fetch(rows, keyspace, key) by {
                assert(kv::fetch(mid, keyspace, key) == kv::fetch(rows, keyspace, key));
            }
        }
    }
}

/// What is left when the expired ones of some snapshots are gone.
proof fn lemma_left(rows: Rows, after: Rows, all: Seq<SnapshotView>, now_ms: i64)
    requires
        well_kept(rows),
        forall|i: int|
            0 <= i < all.len() ==> is_entry(
                rows,
                keys::name_key_bytes(NameKind::Snapshot, (#[trigger] all[i]).name),
                all[i],
            ),
        forall|key: Seq<u8>| #[trigger]
            kv::fetch(after, "meta"@, key) == if gone(all, now_ms, all.len() as int, key) {
                None
            } else {
                kv::fetch(rows, "meta"@, key)
            },
    ensures
        well_kept(after),
        forall|key: Seq<u8>, s: SnapshotView| #[trigger]
            is_entry(after, key, s) ==> is_entry(rows, key, s) && !gone(
                all,
                now_ms,
                all.len() as int,
                key,
            ),
        forall|key: Seq<u8>, s: SnapshotView| #[trigger]
            is_entry(rows, key, s) && !gone(all, now_ms, all.len() as int, key) ==> is_entry(
                after,
                key,
                s,
            ),
{
    let n = all.len() as int;
    let counter = keys::id_seq_key_bytes();
    assert(!gone(all, now_ms, n, counter)) by {
        if gone(all, now_ms, n, counter) {
            let i = choose|i: int|
                0 <= i < n && #[trigger] row_of(all[i], counter) && all[i].expire_at_ms <= now_ms;
            keys::law_kinds_of_keys_differ(
                all[i].id,
                all[i].id,
                NameKind::Snapshot,
                all[i].name,
            );
        }
    }
    assert(kv::fetch(after, "meta"@, counter) == kv::fetch(rows, "meta"@, counter));
    assert forall|key: Seq<u8>, s: SnapshotView| #[trigger]
        is_entry(after, key, s) implies is_entry(rows, key, s) && !gone(all, now_ms, n, key) by {
        assert(kv::fetch(after, "meta"@, key) is Some);
        assert(kv::fetch(after, "meta"@, keys::snapshot_key_bytes(s.id)) is Some);
    }
    assert forall|key: Seq<u8>, s: SnapshotView| #[trigger]
        is_entry(rows, key, s) && !gone(all, now_ms, n, key) implies is_entry(after, key, s) by {
        let record = keys::snapshot_key_bytes(s.id);
        if gone(all, now_ms, n, record) {
            let i = choose|i: int|
                0 <= i < n && #[trigger] row_of(all[i], record) && all[i].expire_at_ms <= now_ms;
            keys::law_kinds_of_keys_differ(s.id, s.id, NameKind::Snapshot, all[i].name);
            keys::law_record_keys_injective(all[i].id, s.id);
            let other = keys::name_key_bytes(NameKind::Snapshot, all[i].name);
            lemma_one_entry(rows, key, s, other, all[i]);
            assert(row_of(all[i], key));
        }
        assert(kv::fetch(after, "meta"@, record) == kv::fetch(rows, "meta"@, record));
        assert(kv::fetch(after, "meta"@, key) == kv::fetch(rows, "meta"@, key));
    }
    assert forall|key: Seq<u8>| #[trigger]
        after.contains_key(("meta"@, key)) && text::has_prefix(
            key,
            keys::name_prefix(NameKind::Snapshot),
        ) implies has_entry(after, key) by {
        assert(kv::fetch(after, "meta"@, key) is Some);
        assert(rows.contains_key(("meta"@, key)));
        assert(has_entry(rows, key));
        let s = choose|s: SnapshotView| is_entry(rows, key, s);
        assert(is_entry(after, key, s));
    }
}

/// A sweep of a project's snapshots succeeds and removes as many as have expired. Those are not found
/// any more; every other snapshot, of this project or another, is found as it was. Sweeping again at
/// the same time removes none.
pub proof fn law_sweep(rows: Rows, project_id: Seq<char>, now_ms: i64, name: Seq<char>)
    requires
        well_kept(rows),
        kv::has_scan(rows, "meta"@, project_snapshots_prefix(project_id)),
        kv::has_scan(
            kv::after_writes(rows, project_sweep(rows, project_id, now_ms).writes),
            "meta"@,
            project_snapshots_prefix(project_id),
        ),
    ensures
        project_snapshots(rows, project_id) is Ok,
        ({
            let all = project_snapshots(rows, project_id)->Ok_0;
            let sweep = project_sweep(rows, project_id, now_ms);
            let after = kv::after_writes(rows, sweep.writes);
            let again = project_sweep(after, project_id, now_ms);
            &&& sweep.failure is None
            &&& sweep.removed == expired_of(all, now_ms, all.len() as int)
            &&& snapshot_named(after, name) == if is_expired_in(all, now_ms, name) {
                Err(ErrorView::NotFound { resource: name })
            } else {
                snapshot_named(rows, name)
            }
            &&& well_kept(after)
            &&& again.failure is None
            &&& again.removed == 0
            &&& again.writes.len() == 0
        }),
{
    let all = project_snapshots(rows, project_id)->Ok_0;
    let n = all.len() as int;
    let sweep = project_sweep(rows, project_id, now_ms);
    let after = kv::after_writes(rows, sweep.writes);
    let key = keys::name_key_bytes(NameKind::Snapshot, name);
    law_project_snapshots(rows, project_id);
    lemma_swept(rows, all, now_ms, n);
    lemma_left(rows, after, all, now_ms);
    assert(gone(all, now_ms, n, key) <==> is_expired_in(all, now_ms, name)) by {
        if is_expired_in(all, now_ms, name) {
            let i = choose|i: int|
                0 <= i < n && (#[trigger] all[i]).name == name && all[i].expire_at_ms <= now_ms;
            assert(row_of(all[i], key));
        }
        if gone(all, now_ms, n, key) {
            let i = choose|i: int|
                0 <= i < n && #[trigger] row_of(all[i], key) && all[i].expire_at_ms <= now_ms;
            keys::law_kinds_of_keys_differ(all[i].id, all[i].id, NameKind::Snapshot, name);
            keys::law_name_key_injective(NameKind::Snapshot, all[i].name, name);
            assert(all[i].name == name);
        }
    }
    assert(kv::fetch(after, "meta"@, key) == if gone(all, now_ms, n, key) {
        None
    } else {
        kv::fetch(rows, "meta"@, key)
    });
    if is_expired_in(all, now_ms, name) {
        let i = choose|i: int|
            0 <= i < n && (#[trigger] all[i]).name == name && all[i].expire_at_ms <= now_ms;
        assert(is_entry(rows, keys::name_key_bytes(NameKind::Snapshot, all[i].name), all[i]));
    } else if kv::fetch(rows, "meta"@, key) is Some {
        let prefix = keys::name_prefix(NameKind::Snapshot);
        assert(key.take(prefix.len() as int) =~= prefix);
        assert(rows.contains_key(("meta"@, key)));
        assert(has_entry(rows, key));
        let s = choose|s: SnapshotView| is_entry(rows, key, s);
        assert(is_entry(after, key, s));
        keys::law_be64_round_trip(s.id, keys::be64(s.id));
    }
    law_project_snapshots(after, project_id);
    let left = project_snapshots(after, project_id)->Ok_0;
    assert forall|i: int| 0 <= i < left.len() implies (#[trigger] left[i]).expire_at_ms > now_ms by {
        let at = keys::name_key_bytes(NameKind::Snapshot, left[i].name);
        assert(is_entry(after, at, left[i]));
        assert(is_entry(rows, at, left[i]));
        lemma_listed_has_prefix(after, project_id, i);
        assert(all.contains(left[i]));
        let j = choose|j: int| 0 <= j < all.len() && all[j] == left[i];
        if all[j].expire_at_ms <= now_ms {
            assert(row_of(all[j], at));
        }
    }
    lemma_nothing_to_sweep(after, left, now_ms, left.len() as int);
}

/// A snapshot of this name is among those that have expired.
pub open spec fn is_expired_in(
    snapshots: Seq<SnapshotView>,
    now_ms: i64,
    name: Seq<char>,
) -> bool {
    exists|i: int|
        0 <= i < snapshots.len() && (#[trigger] snapshots[i]).name == name
            && snapshots[i].expire_at_ms <= now_ms
}

proof fn lemma_listed_has_prefix(rows: Rows, project_id: Seq<char>, i: int)
    requires
        well_kept(rows),
        kv::has_scan(rows, "meta"@, project_snapshots_prefix(project_id)),
        project_snapshots(rows, project_id) is Ok,
        0 <= i < (project_snapshots(rows, project_id)->Ok_0).len(),
    ensures
        text::has_prefix(
            keys::name_key_bytes(
                NameKind::Snapshot,
                (project_snapshots(rows, project_id)->Ok_0)[i].name,
            ),
            project_snapshots_prefix(project_id),
        ),
{
    let scan = kv::scan_of(rows, "meta"@, project_snapshots_prefix(project_id));
    assert forall|j: int| 0 <= j < scan.len() implies {
        &&& has_entry(rows, (#[trigger] scan[j]).0)
        &&& kv::fetch(rows, "meta"@, scan[j].0) == Some(scan[j].1)
    } by {
        lemma_prefix_of_project(project_id, scan[j].0);
        assert(rows.contains_key(("meta"@, scan[j].0)));
    }
    lemma_indexed(rows, scan);
    let found = indexed_snapshots(rows, scan)->Ok_0;
    listing::law_sorting_keeps_the_values::<SnapshotRecord>(found);
    let all = project_snapshots(rows, project_id)->Ok_0;
    assert(all.contains(all[i]));
    let a = choose|a: int| 0 <= a < found.len() && found[a] == all[i];
    assert(is_entry(rows, scan[a].0, found[a]));
}

proof fn lemma_nothing_to_sweep(
    rows: Rows,
    snapshots: Seq<SnapshotView>,
    now_ms: i64,
    n: int,
)
    requires
        0 <= n <= snapshots.len(),
        forall|i: int| 0 <= i < n ==> (#[trigger] snapshots[i]).expire_at_ms > now_ms,
    ensures
        swept(rows, snapshots, now_ms, n) == (Sweep {
            writes: Seq::empty(),
            removed: 0,
            failure: None,
        }),
    decreases n,
{
    if n > 0 {
        lemma_nothing_to_sweep(rows, snapshots, now_ms, n - 1);
        assert(snapshots[n - 1].expire_at_ms > now_ms);
    }
}

/// Creating a snapshot keeps every row of the name index leading to a snapshot. The requirement
/// leaves out the largest id, beyond which there is none.
pub proof fn law_creating_keeps_the_index(rows: Rows, new: SnapshotView)
    requires
        well_kept(rows),
        create_error(rows, new.name) is None,
        topic::counter(rows, keys::id_seq_key_bytes()) < u64::MAX,
        new.id == topic::fresh_id(rows),
    ensures
        well_kept(kv::after_writes(rows, create_writes(new))),
        is_entry(
            kv::after_writes(rows, create_writes(new)),
            keys::name_key_bytes(NameKind::Snapshot, new.name),
            new,
        ),
{
    let writes = create_writes(new);
    let after = kv::after_writes(rows, writes);
    let counter = keys::id_seq_key_bytes();
    let record = keys::snapshot_key_bytes(new.id);
    let own = keys::name_key_bytes(NameKind::Snapshot, new.name);
    keys::law_kinds_of_keys_differ(new.id, new.id, NameKind::Snapshot, new.name);
    keys::law_be64_round_trip(new.id, keys::be64(new.id));
    kv::law_last_write_is_read(rows, writes, 0, "meta"@, counter);
    kv::law_last_write_is_read(rows, writes, 1, "meta"@, record);
    kv::law_last_write_is_read(rows, writes, 2, "meta"@, own);
    assert(is_entry(after, own, new));
    assert forall|key: Seq<u8>| #[trigger]
        after.contains_key(("meta"@, key)) && text::has_prefix(
            key,
            keys::name_prefix(NameKind::Snapshot),
        ) implies has_entry(after, key) by {
        if key != own {
            lemma_prefix_is_of_name(key, counter, record, new.id);
            kv::law_spared_row_stays(rows, writes, "meta"@, key);
            assert(kv::fetch(after, "meta"@, key) is Some);
            assert(rows.contains_key(("meta"@, key)));
            assert(has_entry(rows, key));
            let s = choose|s: SnapshotView| is_entry(rows, key, s);
            let other = keys::snapshot_key_bytes(s.id);
            keys::law_record_keys_injective(s.id, new.id);
            keys::law_kinds_of_keys_differ(s.id, s.id, NameKind::Snapshot, new.name);
            kv::law_spared_row_stays(rows, writes, "meta"@, other);
            assert(is_entry(after, key, s));
        }
    }
}

proof fn lemma_prefix_is_of_name(key: Seq<u8>, counter: Seq<u8>, record: Seq<u8>, id: u64)
    requires
        text::has_prefix(key, keys::name_prefix(NameKind::Snapshot)),
        counter == keys::id_seq_key_bytes(),
        record == keys::snapshot_key_bytes(id),
    ensures
        key != counter,
        key != record,
{
    keys::lemma_prefix_bytes();
    let prefix = keys::name_prefix(NameKind::Snapshot);
    assert(key[0] == key.take(prefix.len() as int)[0]);
    assert(record[0] == 115);
}

/// Deleting a snapshot, or replacing its labels, keeps every row of the name index leading to a
/// snapshot.
pub proof fn law_changing_keeps_the_index(rows: Rows, s: SnapshotView, labels: Entries)
    requires
        well_kept(rows),
        is_entry(rows, keys::name_key_bytes(NameKind::Snapshot, s.name), s),
    ensures
        well_kept(kv::after_writes(rows, delete_writes(s.id, s.name))),
        well_kept(kv::after_writes(rows, relabel_writes(s, labels))),
{
    let own = keys::name_key_bytes(NameKind::Snapshot, s.name);
    let record = keys::snapshot_key_bytes(s.id);
    let deletes = delete_writes(s.id, s.name);
    let deleted = kv::after_writes(rows, deletes);
    let puts = relabel_writes(s, labels);
    let relabelled = kv::after_writes(rows, puts);
    let new = SnapshotView { labels, ..s };
    keys::law_kinds_of_keys_differ(s.id, s.id, NameKind::Snapshot, s.name);
    kv::law_last_write_is_read(rows, deletes, 1, "meta"@, own);
    kv::law_last_write_is_read(rows, puts, 0, "meta"@, record);
    kv::law_spared_row_stays(rows, deletes, "meta"@, keys::id_seq_key_bytes());
    kv::law_spared_row_stays(rows, puts, "meta"@, keys::id_seq_key_bytes());
    kv::law_spared_row_stays(rows, puts, "meta"@, own);
    assert forall|key: Seq<u8>| #[trigger]
        deleted.contains_key(("meta"@, key)) && text::has_prefix(
            key,
            keys::name_prefix(NameKind::Snapshot),
        ) implies has_entry(deleted, key) by {
        assert(kv::fetch(deleted, "meta"@, key) is Some);
        lemma_prefix_is_of_name(key, keys::id_seq_key_bytes(), record, s.id);
        kv::law_spared_row_stays(rows, deletes, "meta"@, key);
        assert(rows.contains_key(("meta"@, key)));
        let t = choose|t: SnapshotView| is_entry(rows, key, t);
        lemma_one_entry(rows, key, t, own, s);
        keys::law_record_keys_injective(t.id, s.id);
        keys::law_kinds_of_keys_differ(t.id, t.id, NameKind::Snapshot, s.name);
        kv::law_spared_row_stays(rows, deletes, "meta"@, keys::snapshot_key_bytes(t.id));
        assert(is_entry(deleted, key, t));
    }
    assert(is_entry(relabelled, own, new));
    assert forall|key: Seq<u8>| #[trigger]
        relabelled.contains_key(("meta"@, key)) && text::has_prefix(
            key,
            keys::name_prefix(NameKind::Snapshot),
        ) implies has_entry(relabelled, key) by {
        if key != own {
            lemma_prefix_is_of_name(key, keys::id_seq_key_bytes(), record, s.id);
            kv::law_spared_row_stays(rows, puts, "meta"@, key);
            assert(kv::fetch(relabelled, "meta"@, key) is Some);
            assert(rows.contains_key(("meta"@, key)));
            let t = choose|t: SnapshotView| is_entry(rows, key, t);
            lemma_one_entry(rows, key, t, own, s);
            keys::law_record_keys_injective(t.id, s.id);
            kv::law_spared_row_stays(rows, puts, "meta"@, keys::snapshot_key_bytes(t.id));
            assert(is_entry(relabelled, key, t));
        }
    }
}

} // verus!
