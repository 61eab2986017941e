//! Snapshots, and seeking.

use crate::delivery::cursor;
use crate::delivery::engine;
use crate::delivery::snapshot;
use crate::error;
use crate::error::{Error, ErrorView};
use crate::grpc::convert;
use crate::grpc::convert::Timestamp;
use crate::grpc::messages;
use crate::grpc::messages::Snapshot;
use crate::grpc::status;
use crate::grpc::status::Status;
use crate::grpc::subscriber;
use crate::grpc::subscriber::{SeekTarget, UpdateSnapshotRequest};
use crate::guarantees::delivery;
use crate::guarantees::subscriptions;
use crate::guarantees::transit;
use crate::laws as service_laws;
use crate::service;
use crate::service::ServiceView;
use crate::store::codec::{CursorView, SnapshotRecord, SnapshotView};
use crate::store::keys;
use crate::store::keys::NameKind;
use crate::store::kv;
use crate::store::kv::{KvStore, Rows, Scan};
use crate::string_map::Entries;
use crate::subscription;
use crate::text;
use crate::topic;
use vstd::prelude::*;

verus! {

/// A snapshot that is taken is what was asked for: the reply shows it, and so does getting it. It is of
/// the topic of the subscription, and lives for an hour at least and for seven days at most.
pub proof fn law_taken_snapshot_is_as_requested<K: KvStore>(
    before: ServiceView,
    after: ServiceView,
    name: Seq<char>,
    subscription_name: Seq<char>,
    labels: Entries,
    now_ms: i64,
    r: Result<Snapshot, Status>,
    got: Result<Snapshot, Status>,
)
    requires
        subscriber::snapshot_created::<K>(
            before,
            after,
            name,
            subscription_name,
            labels,
            now_ms,
            r,
        ),
        r is Ok,
        subscriber::snapshot_got(after.rows, name, got),
    ensures
        subscription::subscription_named(before.rows, subscription_name) is Ok,
        ({
            let sub = subscription::subscription_named(before.rows, subscription_name)->Ok_0;
            let shown = r->Ok_0;
            let expires = shown.expire_time.seconds * 1000 + shown.expire_time.nanos as int
                / 1_000_000;
            &&& shown.name@ == name
            &&& shown.labels@ == labels
            &&& shown.topic@ == sub.topic
            &&& now_ms + 60 * 60 * 1000 <= expires <= now_ms + 7 * 24 * 60 * 60 * 1000
            &&& got is Ok
            &&& (got->Ok_0)@ == shown@
        }),
{
    let effect = service::create_snapshot_effect(before, name, subscription_name, labels, now_ms);
    let made = choose|outcome: Result<SnapshotView, ErrorView>| #[trigger]
        service::performed::<K, SnapshotView>(before, after, effect, outcome)
            && status::reply_view(r) == status::reply(
            outcome,
            |s: SnapshotView| messages::snapshot_message(s),
        );
    service_laws::law_success_is_stored::<K, SnapshotView>(before, after, effect, made);
    service_laws::law_taken_snapshot_is_found(before, name, subscription_name, labels, now_ms);
    assert(effect.note =~= Seq::empty());
    assert(after.rows == kv::after_writes(before.rows, effect.writes));
    let new = made->Ok_0;
    let sub = subscription::subscription_named(before.rows, subscription_name)->Ok_0;
    let cursor = engine::stored_cursor(before.rows, sub.id)->Ok_0;
    let oldest = engine::oldest_open(
        kv::scan_of(before.rows, "msg"@, keys::be64(sub.topic_id)),
        cursor,
        0,
    );
    snapshot::law_snapshot_lifetime(now_ms, oldest);
    lemma_time_shown(new.expire_at_ms);
}

proof fn lemma_time_shown(ms: i64)
    ensures
        convert::timestamp_of(ms).seconds * 1000 + convert::timestamp_of(ms).nanos as int
            / 1_000_000 == ms,
        0 <= convert::timestamp_of(ms).nanos < 1_000_000_000,
{
    let rest = ms as int % 1000;
    assert((rest * 1_000_000) / 1_000_000 == rest);
}

/// How long a snapshot lives: seven days, less the age of the oldest message that it holds open; it
/// cannot be taken if that leaves less than an hour.
pub proof fn law_lifetime(now_ms: i64, oldest_ms: i64)
    requires
        0 <= oldest_ms <= now_ms <= i64::MAX - 604_800_000,
    ensures
        snapshot::expiry(now_ms, None) == now_ms + 604_800_000,
        !snapshot::too_short_lived(now_ms, None),
        snapshot::expiry(now_ms, Some(oldest_ms)) == oldest_ms + 604_800_000,
        snapshot::too_short_lived(now_ms, Some(oldest_ms)) <==> oldest_ms + 604_800_000 - now_ms
            < 3_600_000,
{
}

/// The oldest open message is the first of the log that is not done.
pub proof fn law_oldest_open(log: Scan, cursor: CursorView, from: int)
    requires
        0 <= from <= log.len(),
    ensures
        match engine::oldest_open(log, cursor, from) {
            Some(ms) => exists|j: int|
                {
                    &&& from <= j < log.len()
                    &&& #[trigger] is_open_at(log, cursor, j)
                    &&& log[j].1->Message_0.publish_ts_ms == ms
                    &&& forall|i: int| from <= i < j ==> !#[trigger] is_open_at(log, cursor, i)
                },
            None => forall|i: int| from <= i < log.len() ==> !#[trigger] is_open_at(log, cursor, i),
        },
    decreases log.len() - from,
{
    if from < log.len() {
        law_oldest_open(log, cursor, from + 1);
        if is_open_at(log, cursor, from) {
            assert(engine::oldest_open(log, cursor, from) == Some(
                log[from].1->Message_0.publish_ts_ms,
            ));
        } else {
            assert(engine::oldest_open(log, cursor, from) == engine::oldest_open(
                log,
                cursor,
                from + 1,
            ));
            if engine::oldest_open(log, cursor, from + 1) is Some {
                let j = choose|j: int|
                    {
                        &&& from + 1 <= j < log.len()
                        &&& #[trigger] is_open_at(log, cursor, j)
                        &&& log[j].1->Message_0.publish_ts_ms == engine::oldest_open(
                            log,
                            cursor,
                            from + 1,
                        )->0
                        &&& forall|i: int|
                            from + 1 <= i < j ==> !#[trigger] is_open_at(log, cursor, i)
                    };
                assert(is_open_at(log, cursor, j));
                assert forall|i: int| from <= i < j implies !#[trigger] is_open_at(
                    log,
                    cursor,
                    i,
                ) by {}
            }
        }
    }
}

/// A row of the log holds a message that is not done.
pub open spec fn is_open_at(log: Scan, cursor: CursorView, j: int) -> bool {
    &&& keys::from_pair_key(log[j].0) matches Some((_, seq))
    &&& log[j].1 is Message
    &&& seq > cursor.acked_floor
    &&& !cursor.acked_above_floor.contains(seq)
}

/// An update of a snapshot that names the labels, or nothing, replaces the labels and nothing else; one
/// that names neither the labels nor what cannot change changes nothing; one that names the name or
/// the topic is refused. The reply shows this, and so does getting the snapshot.
pub proof fn law_update_sets_the_labels<K: KvStore>(
    before: Rows,
    after: Rows,
    update: UpdateSnapshotRequest,
    was: Result<Snapshot, Status>,
    r: Result<Snapshot, Status>,
    got: Result<Snapshot, Status>,
)
    requires
        update.snapshot is Some,
        subscriber::snapshot_got(before, update.snapshot->0.name@, was),
        was is Ok,
        snapshot::is_entry(
            before,
            keys::name_key_bytes(NameKind::Snapshot, update.snapshot->0.name@),
            snapshot::snapshot_named(before, update.snapshot->0.name@)->Ok_0,
        ),
        subscriber::snapshot_updated::<K>(before, after, update, r),
        r is Ok,
        subscriber::snapshot_got(after, update.snapshot->0.name@, got),
    ensures
        !subscriptions::names(update.paths@, "name"@),
        !subscriptions::names(update.paths@, "topic"@),
        (r->Ok_0).labels@ == if update.paths@.len() == 0 || subscriptions::names(
            update.paths@,
            "labels"@,
        ) {
            update.snapshot->0.labels@
        } else {
            (was->Ok_0).labels@
        },
        (r->Ok_0).name@ == (was->Ok_0).name@,
        (r->Ok_0).topic@ == (was->Ok_0).topic@,
        (r->Ok_0).expire_time == (was->Ok_0).expire_time,
        got is Ok,
        (got->Ok_0)@ == (r->Ok_0)@,
{
    let name = update.snapshot->0.name@;
    let labels = update.snapshot->0.labels;
    subscriptions::lemma_names(update.paths@, "name"@);
    subscriptions::lemma_names(update.paths@, "topic"@);
    subscriptions::lemma_names(update.paths@, "labels"@);
    assert(text::texts(update.paths@).len() == update.paths@.len());
    let found = snapshot::snapshot_named(before, name)->Ok_0;
    assert((was->Ok_0)@ == messages::snapshot_message(found));
    if update.paths@.len() == 0 || subscriptions::names(update.paths@, "labels"@) {
        let new = SnapshotView { labels: labels@, ..found };
        let writes = snapshot::relabel_writes(found, labels@);
        let made = choose|outcome: Result<SnapshotRecord, Error>| #[trigger]
            kv::stored::<SnapshotRecord, K>(outcome, before, after, None, new, writes)
                && status::reply_view(r) == status::reply(
                error::result_view(outcome),
                |s: SnapshotView| messages::snapshot_message(s),
            );
        assert(made is Ok);
        let key = keys::name_key_bytes(NameKind::Snapshot, name);
        keys::law_kinds_of_keys_differ(new.id, new.id, NameKind::Snapshot, name);
        keys::law_be64_round_trip(new.id, keys::be64(new.id));
        kv::law_last_write_is_read(before, writes, 0, "meta"@, keys::snapshot_key_bytes(new.id));
        kv::law_spared_row_stays(before, writes, "meta"@, key);
        assert(snapshot::snapshot_named(after, name) == Ok::<SnapshotView, ErrorView>(new));
        assert((r->Ok_0)@ == messages::snapshot_message(new));
        assert((got->Ok_0)@ == messages::snapshot_message(new));
        assert((was->Ok_0)@ == messages::snapshot_message(found));
    }
}

/// A snapshot that was deleted is not found.
pub proof fn law_deleted_snapshot_is_gone(rows: Rows, name: Seq<char>, id: u64)
    requires
        snapshot::snapshot_id_of(rows, name) == Ok::<u64, ErrorView>(id),
    ensures
        snapshot::snapshot_named(
            kv::after_writes(rows, snapshot::delete_writes(id, name)),
            name,
        ) == Err::<SnapshotView, ErrorView>(ErrorView::NotFound { resource: name }),
{
    let writes = snapshot::delete_writes(id, name);
    assert(writes.skip(2) =~= Seq::empty());
    kv::law_last_write_is_read(
        rows,
        writes,
        1,
        "meta"@,
        keys::name_key_bytes(NameKind::Snapshot, name),
    );
}

/// A client that seeks to a time, given in seconds and nanoseconds, seeks to it in milliseconds. A
/// subscription that exists can be sought, and every message that was published at the time or later
/// is then open, unless the subscription was attached behind it, and was never delivered; where
/// messages stand in the order in which they were published, every earlier one is done.
pub proof fn law_seek_to_time<K: KvStore>(
    before: ServiceView,
    after: ServiceView,
    name: Seq<char>,
    ts: Timestamp,
    seq: u64,
    message: crate::store::codec::MessageView,
    r: Result<(), Status>,
)
    requires
        0 <= ts.nanos < 1_000_000_000,
        -9_000_000_000_000_000 <= ts.seconds <= 9_000_000_000_000_000,
        ({
            let sub = subscription::subscription_named(before.rows, name);
            let end = topic::successor(topic::tail_of(before.rows, (sub->Ok_0).topic_id));
            &&& sub is Ok
            &&& engine::stored_cursor(before.rows, (sub->Ok_0).id) is Ok
            &&& 1 <= seq < end
            &&& transit::message_at(before.rows, (sub->Ok_0).topic_id, seq) == Some(message)
        }),
        subscriber::sought_to::<K>(before, after, name, SeekTarget::Time(ts), r),
    ensures
        K::reliable() ==> r is Ok,
        r is Ok ==> ({
            let sub = subscription::subscription_named(before.rows, name)->Ok_0;
            let was = engine::stored_cursor(before.rows, sub.id)->Ok_0;
            let now = engine::stored_cursor(after.rows, sub.id);
            let time_ms = ts.seconds * 1000 + ts.nanos as int / 1_000_000;
            let is_open = seq > (now->Ok_0).acked_floor && !(
            now->Ok_0).acked_above_floor.contains(seq);
            &&& now is Ok
            &&& delivery::last_delivery(after.rows, after.engine.leases, sub.id, seq) is None
            &&& message.publish_ts_ms >= time_ms && seq > was.attach_seq ==> is_open
            &&& seq <= was.attach_seq ==> !is_open
            &&& message.publish_ts_ms < time_ms && service_laws::published_in_order(
                before.rows,
                sub.topic_id,
            ) ==> !is_open
        }),
{
    let time_ms = convert::ms_of(ts) as i64;
    assert(time_ms == ts.seconds * 1000 + ts.nanos as int / 1_000_000);
    let target = service::time_target(before.rows, name, time_ms);
    let made = choose|outcome: Result<(), Error>| #[trigger]
        service::sought::<K>(before, after, target, outcome) && status::reply_view(r)
            == status::reply(error::result_view(outcome), |u: ()| u);
    if made is Ok {
        assert(made == Ok::<(), Error>(()));
        service_laws::law_seek_to_time_parts_the_log::<K>(before, after, name, time_ms, seq);
    }
}

/// A subscription can be sought to a snapshot exactly if both exist and are of one topic; another
/// snapshot is refused as invalid.
pub proof fn law_seek_needs_one_topic(
    rows: Rows,
    subscription_name: Seq<char>,
    snapshot_name: Seq<char>,
)
    ensures
        ({
            let sub = subscription::subscription_named(rows, subscription_name);
            let snap = snapshot::snapshot_named(rows, snapshot_name);
            let target = service::snapshot_target(rows, subscription_name, snapshot_name);
            &&& target is Ok <==> sub is Ok && snap is Ok && (sub->Ok_0).topic_id == (
            snap->Ok_0).topic_id
            &&& target is Ok ==> target->Ok_0.0 == (sub->Ok_0).id && target->Ok_0.1 == (
            snap->Ok_0).cursor
            &&& sub is Ok && snap is Ok && target is Err ==> target->Err_0 is InvalidArgument
        }),
{
}

} // verus!
