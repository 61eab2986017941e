//! The key/value store that everything else lives in, and its in-memory implementation.

use crate::error;
use crate::error::{Error, ErrorView};
use crate::store::codec::{
    copy_bytes, CursorRecord, CursorView, DeliveryRecord, LaneRecord, MessageRecord, MessageView,
    SnapshotRecord, SnapshotView,
};
use crate::subscription::{SubscriptionRecord, SubscriptionView};
use crate::text;
use crate::topic::{TopicRecord, TopicView};
use vstd::prelude::*;

verus! {

/// A stored value: one of the records, bytes (ids, counters, empty index rows), or what does not
/// decode as the record that its key calls for.
#[derive(Debug, PartialEq)]
pub enum KvValue {
    /// Plain bytes.
    Bytes(Vec<u8>),
    /// A topic.
    Topic(TopicRecord),
    /// A subscription.
    Subscription(SubscriptionRecord),
    /// A snapshot.
    Snapshot(SnapshotRecord),
    /// A message.
    Message(MessageRecord),
    /// A subscription's cursor.
    Cursor(CursorRecord),
    /// A delivery in flight.
    Delivery(DeliveryRecord),
    /// An ordering lane.
    Lane(LaneRecord),
    /// Bytes that do not decode, and why not.
    Undecoded(Vec<u8>, String),
}

/// What a [`KvValue`] holds.
pub enum ValueView {
    Bytes(Seq<u8>),
    Topic(TopicView),
    Subscription(SubscriptionView),
    Snapshot(SnapshotView),
    Message(MessageView),
    Cursor(CursorView),
    Delivery(DeliveryRecord),
    Lane(LaneRecord),
    Undecoded(Seq<u8>, Seq<char>),
}

/// Why a value is not the record that its key calls for.
pub open spec fn reason(value: ValueView) -> Seq<char> {
    match value {
        ValueView::Undecoded(_, why) => why,
        _ => "unexpected kind of value"@,
    }
}

/// The error for a value that is not the record that its key calls for.
pub open spec fn undecodable(what: Seq<char>, value: ValueView) -> ErrorView {
    ErrorView::Internal { message: what + ": "@ + reason(value) }
}

/// The error for a value that is not the record that its key calls for: what could not be decoded,
/// and why.
pub fn not_decoded(what: &str, value: &KvValue) -> (e: Error)
    ensures
        e@ == undecodable(what@, value@),
{
    let why = match value {
        KvValue::Undecoded(_, why) => why.as_str(),
        _ => "unexpected kind of value",
    };
    Error::Internal { message: text::cat3(what, ": ", why) }
}

impl View for KvValue {
    type V = ValueView;

    open spec fn view(&self) -> ValueView {
        match *self {
            KvValue::Bytes(b) => ValueView::Bytes(b@),
            KvValue::Topic(r) => ValueView::Topic(r@),
            KvValue::Subscription(r) => ValueView::Subscription(r@),
            KvValue::Snapshot(r) => ValueView::Snapshot(r@),
            KvValue::Message(r) => ValueView::Message(r@),
            KvValue::Cursor(r) => ValueView::Cursor(r@),
            KvValue::Delivery(r) => ValueView::Delivery(r),
            KvValue::Lane(r) => ValueView::Lane(r),
            KvValue::Undecoded(b, why) => ValueView::Undecoded(b@, why@),
        }
    }
}

impl Clone for KvValue {
    fn clone(&self) -> (r: Self)
        ensures
            r@ == self@,
    {
        match self {
            KvValue::Bytes(b) => KvValue::Bytes(copy_bytes(b)),
            KvValue::Topic(v) => KvValue::Topic(v.clone()),
            KvValue::Subscription(v) => KvValue::Subscription(v.clone()),
            KvValue::Snapshot(v) => KvValue::Snapshot(v.clone()),
            KvValue::Message(v) => KvValue::Message(v.clone()),
            KvValue::Cursor(v) => KvValue::Cursor(v.clone()),
            KvValue::Delivery(v) => KvValue::Delivery(*v),
            KvValue::Lane(v) => KvValue::Lane(*v),
            KvValue::Undecoded(b, why) => KvValue::Undecoded(copy_bytes(b), why.clone()),
        }
    }
}

/// The contents of a store: what is stored under each keyspace and key.
pub type Rows = Map<(Seq<char>, Seq<u8>), ValueView>;

/// The rows that a scan returns, in order.
pub type Scan = Seq<(Seq<u8>, ValueView)>;

/// The keyspaces that this library uses.
pub open spec fn known_keyspace(keyspace: Seq<char>) -> bool {
    ||| keyspace == "meta"@
    ||| keyspace == "msg"@
    ||| keyspace == "sub"@
    ||| keyspace == "dlv"@
    ||| keyspace == "okey"@
    ||| keyspace == "snap"@
    ||| keyspace == "idx"@
}

/// What is stored under `key` in `keyspace`.
pub open spec fn fetch(rows: Rows, keyspace: Seq<char>, key: Seq<u8>) -> Option<ValueView> {
    if rows.contains_key((keyspace, key)) {
        Some(rows[(keyspace, key)])
    } else {
        None
    }
}

/// What an optional value holds.
pub open spec fn opt_value(v: Option<KvValue>) -> Option<ValueView> {
    match v {
        Some(x) => Some(x@),
        None => None,
    }
}

/// What scanned rows hold.
pub open spec fn scan_view(rows: Seq<(Vec<u8>, KvValue)>) -> Scan {
    rows.map_values(|row: (Vec<u8>, KvValue)| (row.0@, row.1@))
}

/// The keys of `scan` come in strictly increasing byte-wise order.
pub open spec fn scan_increases(scan: Scan) -> bool {
    forall|i: int, j: int|
        0 <= i < j < scan.len() ==> #[trigger] text::bytes_lt(scan[i].0, scan[j].0)
}

/// `scan` holds `key`.
pub open spec fn scan_has(scan: Scan, key: Seq<u8>) -> bool {
    exists|i: int| 0 <= i < scan.len() && (#[trigger] scan[i]).0 == key
}

/// `scan` holds exactly the rows of `keyspace` whose key starts with `prefix`, in key order.
pub open spec fn is_scan(rows: Rows, keyspace: Seq<char>, prefix: Seq<u8>, scan: Scan) -> bool {
    &&& scan_increases(scan)
    &&& forall|i: int|
        0 <= i < scan.len() ==> {
            &&& text::has_prefix((#[trigger] scan[i]).0, prefix)
            &&& rows.contains_key((keyspace, scan[i].0))
            &&& rows[(keyspace, scan[i].0)] == scan[i].1
        }
    &&& forall|key: Seq<u8>|
        rows.contains_key((keyspace, key)) && text::has_prefix(key, prefix) ==> #[trigger] scan_has(
            scan,
            key,
        )
}

/// The rows of `keyspace` whose key starts with `prefix`, in key order.
pub open spec fn scan_of(rows: Rows, keyspace: Seq<char>, prefix: Seq<u8>) -> Scan {
    choose|scan: Scan| is_scan(rows, keyspace, prefix, scan)
}

/// The rows of `keyspace` whose key starts with `prefix` can be listed.
pub open spec fn has_scan(rows: Rows, keyspace: Seq<char>, prefix: Seq<u8>) -> bool {
    is_scan(rows, keyspace, prefix, scan_of(rows, keyspace, prefix))
}

spec fn same_keys(a: Scan, b: Scan, n: int) -> bool {
    forall|k: int| 0 <= k < n ==> same_key_at(a, b, k)
}

spec fn same_key_at(a: Scan, b: Scan, k: int) -> bool {
    k < b.len() && a[k].0 == b[k].0
}

proof fn lemma_scans_agree_at(
    rows: Rows,
    keyspace: Seq<char>,
    prefix: Seq<u8>,
    a: Scan,
    b: Scan,
    i: int,
)
    requires
        is_scan(rows, keyspace, prefix, a),
        is_scan(rows, keyspace, prefix, b),
        0 <= i < a.len(),
        same_keys(a, b, i),
    ensures
        same_key_at(a, b, i),
{
    assert(scan_has(b, a[i].0));
    let j = choose|j: int| 0 <= j < b.len() && (#[trigger] b[j]).0 == a[i].0;
    if j < i {
        assert(same_key_at(a, b, j));
        assert(text::bytes_lt(a[j].0, a[i].0));
        text::lemma_bytes_lt_irreflexive(a[i].0);
    }
    if j > i {
        assert(scan_has(a, b[i].0));
        let k = choose|k: int| 0 <= k < a.len() && (#[trigger] a[k]).0 == b[i].0;
        assert(text::bytes_lt(b[i].0, b[j].0));
        if k < i {
            assert(same_key_at(a, b, k));
            assert(text::bytes_lt(b[k].0, b[i].0));
            text::lemma_bytes_lt_irreflexive(b[i].0);
        } else if k > i {
            assert(text::bytes_lt(a[i].0, a[k].0));
            text::lemma_bytes_lt_asymmetric(a[i].0, a[k].0);
        } else {
            text::lemma_bytes_lt_irreflexive(b[i].0);
        }
    }
}

proof fn lemma_scans_agree_up_to(
    rows: Rows,
    keyspace: Seq<char>,
    prefix: Seq<u8>,
    a: Scan,
    b: Scan,
    n: int,
)
    requires
        is_scan(rows, keyspace, prefix, a),
        is_scan(rows, keyspace, prefix, b),
        0 <= n <= a.len(),
    ensures
        same_keys(a, b, n),
    decreases n,
{
    if n > 0 {
        lemma_scans_agree_up_to(rows, keyspace, prefix, a, b, n - 1);
        lemma_scans_agree_at(rows, keyspace, prefix, a, b, n - 1);
    }
}

/// A scan is determined by the contents of the store.
pub proof fn law_scan_is_unique(
    rows: Rows,
    keyspace: Seq<char>,
    prefix: Seq<u8>,
    a: Scan,
    b: Scan,
)
    requires
        is_scan(rows, keyspace, prefix, a),
        is_scan(rows, keyspace, prefix, b),
    ensures
        a == b,
        a == scan_of(rows, keyspace, prefix),
        has_scan(rows, keyspace, prefix),
{
    lemma_scans_equal(rows, keyspace, prefix, a, b);
    lemma_scans_equal(rows, keyspace, prefix, a, scan_of(rows, keyspace, prefix));
}

proof fn lemma_scans_equal(rows: Rows, keyspace: Seq<char>, prefix: Seq<u8>, a: Scan, b: Scan)
    requires
        is_scan(rows, keyspace, prefix, a),
        is_scan(rows, keyspace, prefix, b),
    ensures
        a == b,
{
    lemma_scans_agree_up_to(rows, keyspace, prefix, a, b, a.len() as int);
    lemma_scans_agree_up_to(rows, keyspace, prefix, b, a, b.len() as int);
    if a.len() > 0 {
        assert(same_key_at(a, b, a.len() - 1));
    }
    if b.len() > 0 {
        assert(same_key_at(b, a, b.len() - 1));
    }
    assert forall|k: int| 0 <= k < a.len() implies a[k] == b[k] by {
        assert(same_key_at(a, b, k));
        assert(rows[(keyspace, a[k].0)] == a[k].1);
        assert(rows[(keyspace, b[k].0)] == b[k].1);
    }
    assert(a =~= b);
}

/// One change to a store.
pub enum Write {
    /// A value is stored under a key of a keyspace.
    Put(Seq<char>, Seq<u8>, ValueView),
    /// What is stored under a key of a keyspace is removed.
    Delete(Seq<char>, Seq<u8>),
}

/// The contents of a store after one change.
pub open spec fn after_write(rows: Rows, write: Write) -> Rows {
    match write {
        Write::Put(keyspace, key, value) => rows.insert((keyspace, key), value),
        Write::Delete(keyspace, key) => rows.remove((keyspace, key)),
    }
}

/// The contents of a store after some changes, made in order.
pub open spec fn after_writes(rows: Rows, writes: Seq<Write>) -> Rows
    decreases writes.len(),
{
    if writes.len() == 0 {
        rows
    } else {
        after_write(after_writes(rows, writes.drop_last()), writes.last())
    }
}

/// The contents of a store in which only the first of some changes were made, not all of them.
pub open spec fn torn(before: Rows, writes: Seq<Write>, after: Rows) -> bool {
    exists|n: int| 0 <= n < writes.len() && after == #[trigger] after_writes(before, writes.take(n))
}

/// Making one more change.
pub proof fn lemma_after_push(rows: Rows, writes: Seq<Write>, write: Write)
    ensures
        after_writes(rows, writes.push(write)) == after_write(after_writes(rows, writes), write),
{
    assert(writes.push(write).drop_last() =~= writes);
}

/// Making some changes and then others.
pub proof fn lemma_after_concat(rows: Rows, first: Seq<Write>, second: Seq<Write>)
    ensures
        after_writes(rows, first + second) == after_writes(after_writes(rows, first), second),
    decreases second.len(),
{
    if second.len() == 0 {
        assert(first + second =~= first);
    } else {
        assert((first + second).drop_last() =~= first + second.drop_last());
        lemma_after_concat(rows, first, second.drop_last());
    }
}

/// A store in which the first `n` of some changes were made is torn.
pub proof fn lemma_torn_at(before: Rows, writes: Seq<Write>, n: int)
    requires
        0 <= n < writes.len(),
    ensures
        torn(before, writes, after_writes(before, writes.take(n))),
{
}

/// The keyspaces are different from one another.
pub proof fn law_keyspaces_differ()
    ensures
        "meta"@ != "msg"@,
        "meta"@ != "sub"@,
        "meta"@ != "dlv"@,
        "meta"@ != "idx"@,
        "meta"@ != "okey"@,
        "meta"@ != "snap"@,
        "msg"@ != "sub"@,
        "msg"@ != "dlv"@,
        "msg"@ != "idx"@,
        "msg"@ != "okey"@,
        "msg"@ != "snap"@,
        "sub"@ != "dlv"@,
        "sub"@ != "idx"@,
        "sub"@ != "okey"@,
        "sub"@ != "snap"@,
        "dlv"@ != "idx"@,
        "dlv"@ != "okey"@,
        "dlv"@ != "snap"@,
        "idx"@ != "okey"@,
        "idx"@ != "snap"@,
        "okey"@ != "snap"@,
{
    reveal_strlit("meta");
    reveal_strlit("msg");
    reveal_strlit("sub");
    reveal_strlit("dlv");
    reveal_strlit("idx");
    reveal_strlit("okey");
    reveal_strlit("snap");
    assert("meta"@.len() == 4);
    assert("okey"@.len() == 4);
    assert("snap"@.len() == 4);
    assert("meta"@[0] == 'm');
    assert("msg"@[0] == 'm');
    assert("sub"@[0] == 's');
    assert("dlv"@[0] == 'd');
    assert("idx"@[0] == 'i');
    assert("okey"@[0] == 'o');
    assert("snap"@[0] == 's');
}

/// The change concerns this row.
pub open spec fn concerns(write: Write, keyspace: Seq<char>, key: Seq<u8>) -> bool {
    match write {
        Write::Put(ks, k, _) => ks == keyspace && k == key,
        Write::Delete(ks, k) => ks == keyspace && k == key,
    }
}

/// None of the changes concerns this row.
pub open spec fn spares(writes: Seq<Write>, keyspace: Seq<char>, key: Seq<u8>) -> bool {
    forall|i: int| 0 <= i < writes.len() ==> !concerns(#[trigger] writes[i], keyspace, key)
}

/// What is stored in a row stays as it is under changes that do not concern it.
pub proof fn law_spared_row_stays(rows: Rows, writes: Seq<Write>, keyspace: Seq<char>, key: Seq<u8>)
    requires
        spares(writes, keyspace, key),
    ensures
        fetch(after_writes(rows, writes), keyspace, key) == fetch(rows, keyspace, key),
    decreases writes.len(),
{
    if writes.len() > 0 {
        let init = writes.drop_last();
        assert forall|i: int| 0 <= i < init.len() implies !concerns(
            #[trigger] init[i],
            keyspace,
            key,
        ) by {
            assert(init[i] == writes[i]);
        }
        law_spared_row_stays(rows, init, keyspace, key);
        assert(!concerns(writes[writes.len() - 1], keyspace, key));
    }
}

/// The last change that concerns a row decides what is stored there: what it puts is read back, and
/// what it deletes is gone.
pub proof fn law_last_write_is_read(
    rows: Rows,
    writes: Seq<Write>,
    n: int,
    keyspace: Seq<char>,
    key: Seq<u8>,
)
    requires
        0 <= n < writes.len(),
        concerns(writes[n], keyspace, key),
        spares(writes.skip(n + 1), keyspace, key),
    ensures
        fetch(after_writes(rows, writes), keyspace, key) == match writes[n] {
            Write::Put(_, _, value) => Some(value),
            Write::Delete(_, _) => None,
        },
{
    let first = writes.take(n + 1);
    let rest = writes.skip(n + 1);
    assert(writes =~= first + rest);
    lemma_after_concat(rows, first, rest);
    law_spared_row_stays(after_writes(rows, first), rest, keyspace, key);
    assert(first.last() == writes[n]);
}

/// A row that comes behind all others with its prefix is listed last.
pub proof fn lemma_scan_append(
    rows: Rows,
    keyspace: Seq<char>,
    prefix: Seq<u8>,
    key: Seq<u8>,
    value: ValueView,
)
    requires
        has_scan(rows, keyspace, prefix),
        text::has_prefix(key, prefix),
        forall|i: int|
            0 <= i < scan_of(rows, keyspace, prefix).len() ==> text::bytes_lt(
                (#[trigger] scan_of(rows, keyspace, prefix)[i]).0,
                key,
            ),
    ensures
        has_scan(rows.insert((keyspace, key), value), keyspace, prefix),
        scan_of(rows.insert((keyspace, key), value), keyspace, prefix) == scan_of(
            rows,
            keyspace,
            prefix,
        ).push((key, value)),
{
    let before = scan_of(rows, keyspace, prefix);
    let after = before.push((key, value));
    let more = rows.insert((keyspace, key), value);
    assert forall|i: int, j: int| 0 <= i < j < after.len() implies #[trigger] text::bytes_lt(
        after[i].0,
        after[j].0,
    ) by {
        if j < before.len() {
            assert(text::bytes_lt(before[i].0, before[j].0));
        } else {
            assert(text::bytes_lt(before[i].0, key));
        }
    }
    assert forall|i: int| 0 <= i < after.len() implies {
        &&& text::has_prefix((#[trigger] after[i]).0, prefix)
        &&& more.contains_key((keyspace, after[i].0))
        &&& more[(keyspace, after[i].0)] == after[i].1
    } by {
        if i < before.len() {
            assert(after[i] == before[i]);
            assert(text::bytes_lt(before[i].0, key));
            if before[i].0 == key {
                text::lemma_bytes_lt_irreflexive(key);
            }
        }
    }
    assert forall|k: Seq<u8>|
        more.contains_key((keyspace, k)) && text::has_prefix(k, prefix) implies #[trigger] scan_has(
        after,
        k,
    ) by {
        if k == key {
            assert(after[before.len() as int].0 == key);
        } else {
            assert(rows.contains_key((keyspace, k)));
            assert(scan_has(before, k));
            let i = choose|i: int| 0 <= i < before.len() && (#[trigger] before[i]).0 == k;
            assert(after[i].0 == k);
        }
    }
    law_scan_is_unique(more, keyspace, prefix, after, after);
}

/// Two stores that hold the same rows under a prefix list the same.
pub proof fn lemma_scan_same(a: Rows, b: Rows, keyspace: Seq<char>, prefix: Seq<u8>)
    requires
        has_scan(a, keyspace, prefix),
        forall|key: Seq<u8>|
            text::has_prefix(key, prefix) ==> #[trigger] fetch(a, keyspace, key) == fetch(
                b,
                keyspace,
                key,
            ),
    ensures
        has_scan(b, keyspace, prefix),
        scan_of(b, keyspace, prefix) == scan_of(a, keyspace, prefix),
{
    let scan = scan_of(a, keyspace, prefix);
    assert forall|i: int| 0 <= i < scan.len() implies {
        &&& text::has_prefix((#[trigger] scan[i]).0, prefix)
        &&& b.contains_key((keyspace, scan[i].0))
        &&& b[(keyspace, scan[i].0)] == scan[i].1
    } by {
        assert(fetch(a, keyspace, scan[i].0) == fetch(b, keyspace, scan[i].0));
    }
    assert forall|key: Seq<u8>|
        b.contains_key((keyspace, key)) && text::has_prefix(key, prefix) implies #[trigger] scan_has(
        scan,
        key,
    ) by {
        assert(fetch(a, keyspace, key) == fetch(b, keyspace, key));
        assert(a.contains_key((keyspace, key)));
    }
    law_scan_is_unique(b, keyspace, prefix, scan, scan);
}

/// A key/value store whose keys live in separate keyspaces.
pub trait KvStore: Sized {
    /// Everything that is stored. A store that is not verified can leave this unsaid.
    open spec fn rows(&self) -> Rows {
        arbitrary()
    }

    /// Whether writes always succeed; not unless a store says so.
    open spec fn reliable() -> bool {
        false
    }

    /// A write may fail with the error `e`; with any error unless a store says more.
    open spec fn may_fail(e: ErrorView) -> bool {
        true
    }

    /// The value stored under `key` in `keyspace`, if any.
    fn get(&self, keyspace: &str, key: &[u8]) -> (r: Option<KvValue>)
        ensures
            opt_value(r) == fetch(self.rows(), keyspace@, key@),
    ;

    /// Stores `value` under `key` in `keyspace`, in place of what is there. A write that fails
    /// leaves the store as it was.
    fn put(&mut self, keyspace: &str, key: Vec<u8>, value: KvValue) -> (r: Result<(), Error>)
        ensures
            r is Ok && known_keyspace(keyspace@) ==> final(self).rows() == old(self).rows().insert(
                (keyspace@, key@),
                value@,
            ),
            r is Err ==> final(self).rows() == old(self).rows(),
            r matches Err(e) ==> Self::may_fail(e@),
            Self::reliable() ==> r is Ok,
    ;

    /// Removes what is stored under `key` in `keyspace`, if anything is. A removal that fails
    /// leaves the store as it was.
    fn delete(&mut self, keyspace: &str, key: &[u8]) -> (r: Result<(), Error>)
        ensures
            r is Ok ==> final(self).rows() == old(self).rows().remove((keyspace@, key@)),
            r is Err ==> final(self).rows() == old(self).rows(),
            r matches Err(e) ==> Self::may_fail(e@),
            Self::reliable() ==> r is Ok,
    ;

    /// Every row of `keyspace` whose key starts with `prefix`, in key order.
    fn scan_prefix(&self, keyspace: &str, prefix: &[u8]) -> (r: Vec<(Vec<u8>, KvValue)>)
        ensures
            is_scan(self.rows(), keyspace@, prefix@, scan_view(r@)),
    ;

    /// The store may report that it takes `n` bytes on disk; any number unless it says more.
    open spec fn may_take(&self, n: u64) -> bool {
        true
    }

    /// Roughly how many bytes the store takes on disk; `0` for one that does not track this.
    fn approx_disk_bytes(&self) -> (n: u64)
        ensures
            self.may_take(n),
    ;
}

/// What an operation that changes the store comes to. It fails with `failure`, changing nothing,
/// when there is one. Otherwise it makes the changes and returns `value`, unless a write fails: it
/// then returns that error, and only the first of the changes were made.
pub open spec fn stored<T: View, K: KvStore>(
    r: Result<T, Error>,
    before: Rows,
    after: Rows,
    failure: Option<ErrorView>,
    value: T::V,
    writes: Seq<Write>,
) -> bool {
    match failure {
        Some(e) => r is Err && r->Err_0@ == e && after == before,
        None => match r {
            Ok(v) => v@ == value && after == after_writes(before, writes),
            Err(e) => !K::reliable() && K::may_fail(e@) && torn(before, writes, after),
        },
    }
}

/// A store that is torn within the second of two lists of changes is torn within both together.
pub proof fn lemma_torn_after(before: Rows, first: Seq<Write>, second: Seq<Write>, after: Rows)
    requires
        torn(after_writes(before, first), second, after),
    ensures
        torn(before, first + second, after),
{
    let n = choose|n: int|
        0 <= n < second.len() && after == #[trigger] after_writes(
            after_writes(before, first),
            second.take(n),
        );
    lemma_after_concat(before, first, second.take(n));
    assert((first + second).take(first.len() + n) =~= first + second.take(n));
    lemma_torn_at(before, first + second, first.len() + n);
}

/// A store that is torn within some changes is torn within those and more.
pub proof fn lemma_torn_before(before: Rows, first: Seq<Write>, second: Seq<Write>, after: Rows)
    requires
        torn(before, first, after),
    ensures
        torn(before, first + second, after),
{
    let n = choose|n: int|
        0 <= n < first.len() && after == #[trigger] after_writes(before, first.take(n));
    assert((first + second).take(n) =~= first.take(n));
    lemma_torn_at(before, first + second, n);
}

/// Writes one row; in terms of a list of changes, makes the one at position `n`.
pub(crate) fn put_step<K: KvStore>(
    kv: &mut K,
    keyspace: &str,
    key: Vec<u8>,
    value: KvValue,
    Ghost(before): Ghost<Rows>,
    Ghost(writes): Ghost<Seq<Write>>,
    Ghost(n): Ghost<int>,
) -> (r: Result<(), Error>)
    requires
        known_keyspace(keyspace@),
        0 <= n < writes.len(),
        writes[n] == Write::Put(keyspace@, key@, value@),
        old(kv).rows() == after_writes(before, writes.take(n)),
    ensures
        match r {
            Ok(_) => final(kv).rows() == after_writes(before, writes.take(n + 1)),
            Err(e) => !K::reliable() && K::may_fail(e@) && torn(before, writes, final(kv).rows()),
        },
{
    proof {
        assert(writes.take(n + 1) =~= writes.take(n).push(writes[n]));
        lemma_after_push(before, writes.take(n), writes[n]);
        lemma_torn_at(before, writes, n);
    }
    kv.put(keyspace, key, value)
}

/// Removes one row; in terms of a list of changes, makes the one at position `n`.
pub(crate) fn delete_step<K: KvStore>(
    kv: &mut K,
    keyspace: &str,
    key: &[u8],
    Ghost(before): Ghost<Rows>,
    Ghost(writes): Ghost<Seq<Write>>,
    Ghost(n): Ghost<int>,
) -> (r: Result<(), Error>)
    requires
        0 <= n < writes.len(),
        writes[n] == Write::Delete(keyspace@, key@),
        old(kv).rows() == after_writes(before, writes.take(n)),
    ensures
        match r {
            Ok(_) => final(kv).rows() == after_writes(before, writes.take(n + 1)),
            Err(e) => !K::reliable() && K::may_fail(e@) && torn(before, writes, final(kv).rows()),
        },
{
    proof {
        assert(writes.take(n + 1) =~= writes.take(n).push(writes[n]));
        lemma_after_push(before, writes.take(n), writes[n]);
        lemma_torn_at(before, writes, n);
    }
    kv.delete(keyspace, key)
}

/// The bucket of [`MemKv`] that the rows of `keyspace` go to.
pub open spec fn bucket(keyspace: Seq<char>) -> Seq<char> {
    if known_keyspace(keyspace) {
        keyspace
    } else {
        "other"@
    }
}

fn intern_keyspace(keyspace: &str) -> (r: &'static str)
    ensures
        r@ == bucket(keyspace@),
{
    if text::str_equal(keyspace, "meta") {
        "meta"
    } else if text::str_equal(keyspace, "msg") {
        "msg"
    } else if text::str_equal(keyspace, "sub") {
        "sub"
    } else if text::str_equal(keyspace, "dlv") {
        "dlv"
    } else if text::str_equal(keyspace, "okey") {
        "okey"
    } else if text::str_equal(keyspace, "snap") {
        "snap"
    } else if text::str_equal(keyspace, "idx") {
        "idx"
    } else {
        "other"
    }
}

#[derive(Debug)]
struct MemRow {
    keyspace: &'static str,
    key: Vec<u8>,
    value: KvValue,
}

spec fn row_key(row: MemRow) -> (Seq<char>, Seq<u8>) {
    (row.keyspace@, row.key@)
}

spec fn rows_of(entries: Seq<MemRow>) -> Rows
    decreases entries.len(),
{
    if entries.len() == 0 {
        Map::empty()
    } else {
        rows_of(entries.drop_last()).insert(row_key(entries.last()), entries.last().value@)
    }
}

spec fn keys_distinct(entries: Seq<MemRow>) -> bool {
    forall|i: int, j: int|
        #![trigger entries[i], entries[j]]
        0 <= i < j < entries.len() ==> row_key(entries[i]) != row_key(entries[j])
}

spec fn holds_key(entries: Seq<MemRow>, k: (Seq<char>, Seq<u8>)) -> bool {
    exists|i: int| 0 <= i < entries.len() && row_key(#[trigger] entries[i]) == k
}

proof fn lemma_rows_of(entries: Seq<MemRow>)
    requires
        keys_distinct(entries),
    ensures
        forall|k: (Seq<char>, Seq<u8>)| #[trigger]
            rows_of(entries).contains_key(k) <==> holds_key(entries, k),
        forall|i: int|
            0 <= i < entries.len() ==> rows_of(entries)[row_key(#[trigger] entries[i])]
                == entries[i].value@,
    decreases entries.len(),
{
    if entries.len() > 0 {
        let init = entries.drop_last();
        lemma_rows_of(init);
        assert forall|k: (Seq<char>, Seq<u8>)| #[trigger]
            rows_of(entries).contains_key(k) <==> holds_key(entries, k) by {
            assert(rows_of(init).contains_key(k) <==> holds_key(init, k));
            if holds_key(init, k) {
                let i = choose|i: int| 0 <= i < init.len() && row_key(#[trigger] init[i]) == k;
                assert(row_key(entries[i]) == k);
            }
            if k == row_key(entries.last()) {
                assert(row_key(entries[entries.len() - 1]) == k);
            }
            if holds_key(entries, k) {
                let i = choose|i: int|
                    0 <= i < entries.len() && row_key(#[trigger] entries[i]) == k;
                if i < init.len() {
                    assert(row_key(init[i]) == k);
                }
            }
        }
        assert forall|i: int| 0 <= i < entries.len() implies rows_of(entries)[row_key(
            #[trigger] entries[i],
        )] == entries[i].value@ by {
            if i < init.len() {
                assert(init[i] == entries[i]);
                assert(row_key(entries[i]) != row_key(entries[entries.len() - 1]));
            }
        }
    }
}

proof fn lemma_rows_update(entries: Seq<MemRow>, i: int, row: MemRow)
    requires
        keys_distinct(entries),
        0 <= i < entries.len(),
        row_key(row) == row_key(entries[i]),
    ensures
        keys_distinct(entries.update(i, row)),
        rows_of(entries.update(i, row)) == rows_of(entries).insert(row_key(row), row.value@),
{
    let after = entries.update(i, row);
    lemma_rows_of(entries);
    assert(forall|j: int| 0 <= j < after.len() ==> row_key(#[trigger] after[j]) == row_key(entries[j]));
    lemma_rows_of(after);
    let expected = rows_of(entries).insert(row_key(row), row.value@);
    assert forall|k: (Seq<char>, Seq<u8>)| #[trigger]
        rows_of(after).contains_key(k) <==> expected.contains_key(k) by {
        if holds_key(entries, k) {
            let j = choose|j: int| 0 <= j < entries.len() && row_key(#[trigger] entries[j]) == k;
            assert(row_key(after[j]) == k);
        }
        if holds_key(after, k) {
            let j = choose|j: int| 0 <= j < after.len() && row_key(#[trigger] after[j]) == k;
            assert(row_key(entries[j]) == k);
        }
    }
    assert forall|k: (Seq<char>, Seq<u8>)| rows_of(after).contains_key(k) implies #[trigger]
        rows_of(after)[k] == expected[k] by {
        let j = choose|j: int| 0 <= j < after.len() && row_key(#[trigger] after[j]) == k;
        assert(rows_of(after)[row_key(after[j])] == after[j].value@);
        if j != i {
            assert(rows_of(entries)[row_key(entries[j])] == entries[j].value@);
            assert(row_key(entries[j]) != row_key(entries[i]));
        }
    }
    assert(rows_of(after) =~= expected);
}

proof fn lemma_rows_remove(entries: Seq<MemRow>, i: int)
    requires
        keys_distinct(entries),
        0 <= i < entries.len(),
    ensures
        keys_distinct(entries.remove(i)),
        rows_of(entries.remove(i)) == rows_of(entries).remove(row_key(entries[i])),
{
    let after = entries.remove(i);
    lemma_rows_of(entries);
    assert forall|a: int, b: int|
        #![trigger after[a], after[b]]
        0 <= a < b < after.len() implies row_key(after[a]) != row_key(after[b]) by {
        let x = if a < i { a } else { a + 1 };
        let y = if b < i { b } else { b + 1 };
        assert(after[a] == entries[x] && after[b] == entries[y]);
    }
    lemma_rows_of(after);
    let expected = rows_of(entries).remove(row_key(entries[i]));
    assert forall|k: (Seq<char>, Seq<u8>)| #[trigger]
        rows_of(after).contains_key(k) <==> expected.contains_key(k) by {
        if holds_key(after, k) {
            let j = choose|j: int| 0 <= j < after.len() && row_key(#[trigger] after[j]) == k;
            let x = if j < i { j } else { j + 1 };
            assert(after[j] == entries[x]);
            assert(row_key(entries[x]) == k);
            assert(row_key(entries[x]) != row_key(entries[i]));
        }
        if expected.contains_key(k) {
            let x = choose|x: int| 0 <= x < entries.len() && row_key(#[trigger] entries[x]) == k;
            let j = if x < i { x } else { x - 1 };
            assert(after[j] == entries[x]);
            assert(row_key(after[j]) == k);
        }
    }
    assert forall|k: (Seq<char>, Seq<u8>)| rows_of(after).contains_key(k) implies #[trigger]
        rows_of(after)[k] == expected[k] by {
        let j = choose|j: int| 0 <= j < after.len() && row_key(#[trigger] after[j]) == k;
        let x = if j < i { j } else { j + 1 };
        assert(after[j] == entries[x]);
        assert(rows_of(after)[row_key(after[j])] == after[j].value@);
        assert(rows_of(entries)[row_key(entries[x])] == entries[x].value@);
    }
    assert(rows_of(after) =~= expected);
}

proof fn lemma_scan_insert(
    rows: Rows,
    keyspace: Seq<char>,
    prefix: Seq<u8>,
    scan: Scan,
    key: Seq<u8>,
    value: ValueView,
    at: int,
)
    requires
        is_scan(rows, keyspace, prefix, scan),
        !rows.contains_key((keyspace, key)),
        text::has_prefix(key, prefix),
        0 <= at <= scan.len(),
        forall|i: int| 0 <= i < at ==> text::bytes_lt((#[trigger] scan[i]).0, key),
        at < scan.len() ==> !text::bytes_lt(scan[at].0, key),
    ensures
        is_scan(
            rows.insert((keyspace, key), value),
            keyspace,
            prefix,
            scan.insert(at, (key, value)),
        ),
{
    let after = scan.insert(at, (key, value));
    let rows2 = rows.insert((keyspace, key), value);
    assert forall|i: int| at <= i < scan.len() implies text::bytes_lt(
        key,
        (#[trigger] scan[i]).0,
    ) by {
        assert(rows.contains_key((keyspace, scan[at].0)));
        text::lemma_bytes_lt_total(key, scan[at].0);
        if i > at {
            assert(text::bytes_lt(scan[at].0, scan[i].0));
            text::lemma_bytes_lt_transitive(key, scan[at].0, scan[i].0);
        }
    }
    assert forall|i: int, j: int| 0 <= i < j < after.len() implies #[trigger] text::bytes_lt(
        after[i].0,
        after[j].0,
    ) by {
        let a = if i < at { i } else { i - 1 };
        let b = if j < at { j } else { j - 1 };
        if i != at && j != at {
            assert(after[i] == scan[a] && after[j] == scan[b]);
            assert(text::bytes_lt(scan[a].0, scan[b].0));
        } else if i == at {
            assert(after[j] == scan[b]);
        } else {
            assert(after[i] == scan[a]);
        }
    }
    assert forall|i: int| 0 <= i < after.len() implies {
        &&& text::has_prefix((#[trigger] after[i]).0, prefix)
        &&& rows2.contains_key((keyspace, after[i].0))
        &&& rows2[(keyspace, after[i].0)] == after[i].1
    } by {
        let a = if i < at { i } else { i - 1 };
        if i != at {
            assert(after[i] == scan[a]);
        }
    }
    assert forall|k: Seq<u8>|
        rows2.contains_key((keyspace, k)) && text::has_prefix(k, prefix) implies #[trigger] scan_has(
        after,
        k,
    ) by {
        if k == key {
            assert(after[at].0 == key);
        } else {
            assert(scan_has(scan, k));
            let i = choose|i: int| 0 <= i < scan.len() && (#[trigger] scan[i]).0 == k;
            let a = if i < at { i } else { i + 1 };
            assert(after[a] == scan[i]);
        }
    }
}

/// An in-memory [`KvStore`].
#[derive(Debug)]
pub struct MemKv {
    entries: Vec<MemRow>,
}

impl MemKv {
    #[verifier::type_invariant]
    spec fn distinct(self) -> bool {
        keys_distinct(self.entries@)
    }

    /// A store without rows.
    pub fn new() -> (kv: Self)
        ensures
            kv.rows() == Rows::empty(),
    {
        MemKv { entries: Vec::new() }
    }

    fn position(&self, keyspace: &str, key: &[u8]) -> (r: Option<usize>)
        ensures
            match r {
                Some(i) => i < self.entries.len() && row_key(self.entries@[i as int]) == (
                    keyspace@,
                    key@,
                ),
                None => !holds_key(self.entries@, (keyspace@, key@)),
            },
    {
        let mut i: usize = 0;
        while i < self.entries.len()
            invariant
                i <= self.entries.len(),
                forall|j: int|
                    0 <= j < i ==> row_key(#[trigger] self.entries@[j]) != (keyspace@, key@),
            decreases self.entries.len() - i,
        {
            if text::str_equal(self.entries[i].keyspace, keyspace) && text::bytes_equal(
                self.entries[i].key.as_slice(),
                key,
            ) {
                return Some(i);
            }
            i = i + 1;
        }
        None
    }
}

impl Default for MemKv {
    fn default() -> (kv: Self)
        ensures
            kv.rows() == Rows::empty(),
    {
        MemKv::new()
    }
}

impl KvStore for MemKv {
    closed spec fn rows(&self) -> Rows {
        rows_of(self.entries@)
    }

    open spec fn reliable() -> bool {
        true
    }

    open spec fn may_fail(e: ErrorView) -> bool {
        false
    }

    fn get(&self, keyspace: &str, key: &[u8]) -> (r: Option<KvValue>) {
        proof {
            use_type_invariant(self);
            lemma_rows_of(self.entries@);
        }
        match self.position(keyspace, key) {
            Some(i) => {
                let value = self.entries[i].value.clone();
                assert(rows_of(self.entries@)[row_key(self.entries@[i as int])] == value@);
                Some(value)
            },
            None => None,
        }
    }

    fn put(&mut self, keyspace: &str, key: Vec<u8>, value: KvValue) -> (r: Result<(), Error>)
        ensures
            final(self).rows() == old(self).rows().insert((bucket(keyspace@), key@), value@),
    {
        proof {
            use_type_invariant(&*self);
        }
        let interned = intern_keyspace(keyspace);
        let found = self.position(interned, key.as_slice());
        let row = MemRow { keyspace: interned, key, value };
        let mut taken = MemKv::new();
        core::mem::swap(self, &mut taken);
        let mut entries = taken.entries;
        match found {
            Some(i) => {
                proof {
                    lemma_rows_update(entries@, i as int, row);
                }
                entries.set(i, row);
            },
            None => {
                proof {
                    assert(entries@.push(row).drop_last() =~= entries@);
                    assert forall|a: int, b: int|
                        #![trigger entries@.push(row)[a], entries@.push(row)[b]]
                        0 <= a < b < entries@.push(row).len() implies row_key(entries@.push(row)[a])
                        != row_key(entries@.push(row)[b]) by {
                        assert(entries@.push(row)[a] == entries@[a]);
                        if b < entries@.len() {
                            assert(entries@.push(row)[b] == entries@[b]);
                        }
                    }
                }
                entries.push(row);
            },
        }
        *self = MemKv { entries };
        Ok(())
    }

    fn delete(&mut self, keyspace: &str, key: &[u8]) -> (r: Result<(), Error>) {
        proof {
            use_type_invariant(&*self);
            lemma_rows_of(self.entries@);
        }
        match self.position(keyspace, key) {
            Some(i) => {
                let mut taken = MemKv::new();
                core::mem::swap(self, &mut taken);
                let mut entries = taken.entries;
                proof {
                    lemma_rows_remove(entries@, i as int);
                }
                entries.remove(i);
                *self = MemKv { entries };
            },
            None => {
                assert(rows_of(self.entries@).remove((keyspace@, key@)) =~= rows_of(self.entries@));
            },
        }
        Ok(())
    }

    fn scan_prefix(&self, keyspace: &str, prefix: &[u8]) -> (r: Vec<(Vec<u8>, KvValue)>) {
        proof {
            use_type_invariant(self);
        }
        let mut out: Vec<(Vec<u8>, KvValue)> = Vec::new();
        let mut n: usize = 0;
        assert(self.entries@.take(0) =~= Seq::<MemRow>::empty());
        while n < self.entries.len()
            invariant
                n <= self.entries.len(),
                keys_distinct(self.entries@),
                is_scan(
                    rows_of(self.entries@.take(n as int)),
                    keyspace@,
                    prefix@,
                    scan_view(out@),
                ),
            decreases self.entries.len() - n,
        {
            let row = &self.entries[n];
            let ghost done = self.entries@.take(n as int);
            let ghost rows = rows_of(done);
            proof {
                assert(self.entries@.take(n + 1).drop_last() =~= done);
                assert(self.entries@.take(n + 1).last() == *row);
                assert(keys_distinct(done));
                lemma_rows_of(done);
                assert(!holds_key(done, row_key(*row)));
            }
            if text::str_equal(row.keyspace, keyspace) && text::bytes_have_prefix(
                row.key.as_slice(),
                prefix,
            ) {
                let mut at: usize = 0;
                while at < out.len() && text::bytes_before(out[at].0.as_slice(), row.key.as_slice())
                    invariant
                        at <= out.len(),
                        forall|i: int|
                            0 <= i < at ==> text::bytes_lt(
                                (#[trigger] scan_view(out@)[i]).0,
                                row.key@,
                            ),
                    decreases out.len() - at,
                {
                    assert(text::bytes_lt(scan_view(out@)[at as int].0, row.key@));
                    at = at + 1;
                }
                let ghost before = out@;
                let copy = (copy_bytes(&row.key), row.value.clone());
                let ghost pair = (copy.0@, copy.1@);
                proof {
                    if at < out.len() {
                        assert(scan_view(out@)[at as int].0 == out@[at as int].0@);
                    }
                    lemma_scan_insert(
                        rows,
                        keyspace@,
                        prefix@,
                        scan_view(before),
                        row.key@,
                        row.value@,
                        at as int,
                    );
                }
                out.insert(at, copy);
                assert(scan_view(out@) =~= scan_view(before).insert(at as int, pair));
            } else {
                proof {
                    let after = rows.insert(row_key(*row), row.value@);
                    assert forall|k: Seq<u8>|
                        after.contains_key((keyspace@, k)) && text::has_prefix(
                            k,
                            prefix@,
                        ) implies #[trigger] scan_has(scan_view(out@), k) by {
                        assert(rows.contains_key((keyspace@, k)));
                    }
                }
            }
            n = n + 1;
        }
        assert(self.entries@.take(n as int) =~= self.entries@);
        out
    }

    open spec fn may_take(&self, n: u64) -> bool {
        n == 0
    }

    fn approx_disk_bytes(&self) -> (n: u64) {
        0
    }
}

} // verus!
