//! Topics and their message logs.

use crate::arith;
use crate::delivery::laws;
use crate::error;
use crate::error::{invalid, not_found, Error, ErrorView};
use crate::limits;
use crate::listing;
use crate::listing::Named;
use crate::names;
use crate::names::TopicName;
use crate::store::codec::{copy_bytes, MessageRecord, MessageView};
use crate::store::keys;
use crate::store::keys::NameKind;
use crate::store::kv;
use crate::store::kv::{KvStore, KvValue, Rows, Scan, ValueView, Write};
use crate::string_map::{Entries, StringMap};
use crate::text;
use vstd::prelude::*;
use vstd::string::*;

verus! {

/// A topic.
#[derive(Debug, PartialEq)]
pub struct TopicRecord {
    /// Internal id, distinct from the name so that a name can be used again after deletion.
    pub id: u64,
    /// Full resource name: `projects/{project}/topics/{topic}`.
    pub name: String,
    /// User-supplied labels.
    pub labels: StringMap,
    /// How long messages are kept, in seconds. `0` means unset.
    pub message_retention_secs: i64,
    /// Accepted and stored as it is.
    pub kms_key_name: Option<String>,
}

/// What a [`TopicRecord`] holds.
pub struct TopicView {
    pub id: u64,
    pub name: Seq<char>,
    pub labels: Entries,
    pub message_retention_secs: i64,
    pub kms_key_name: Option<Seq<char>>,
}

/// The text in an optional string.
pub open spec fn opt_text(s: Option<String>) -> Option<Seq<char>> {
    match s {
        Some(t) => Some(t@),
        None => None,
    }
}

/// A copy of an optional text.
pub fn copy_opt_text(s: &Option<String>) -> (r: Option<String>)
    ensures
        opt_text(r) == opt_text(*s),
{
    match s {
        Some(t) => Some(t.clone()),
        None => None,
    }
}

impl View for TopicRecord {
    type V = TopicView;

    open spec fn view(&self) -> TopicView {
        TopicView {
            id: self.id,
            name: self.name@,
            labels: self.labels@,
            message_retention_secs: self.message_retention_secs,
            kms_key_name: opt_text(self.kms_key_name),
        }
    }
}

impl Clone for TopicRecord {
    fn clone(&self) -> (r: Self)
        ensures
            r@ == self@,
    {
        TopicRecord {
            id: self.id,
            name: self.name.clone(),
            labels: self.labels.clone(),
            message_retention_secs: self.message_retention_secs,
            kms_key_name: copy_opt_text(&self.kms_key_name),
        }
    }
}

impl Named for TopicRecord {
    open spec fn name_of(v: TopicView) -> Seq<char> {
        v.name
    }

    fn name_text(&self) -> (r: &str) {
        self.name.as_str()
    }
}

/// The number stored under `key` in `meta`; 0 when there is none.
pub open spec fn counter(rows: Rows, key: Seq<u8>) -> u64 {
    match kv::fetch(rows, "meta"@, key) {
        Some(ValueView::Bytes(b)) => match keys::from_be64(b) {
            Some(n) => n,
            None => 0,
        },
        _ => 0,
    }
}

/// One more, up to the largest number.
pub open spec fn successor(n: u64) -> u64 {
    if n == u64::MAX {
        u64::MAX
    } else {
        (n + 1) as u64
    }
}

/// The id that the next resource gets.
pub open spec fn fresh_id(rows: Rows) -> u64 {
    successor(counter(rows, keys::id_seq_key_bytes()))
}

/// The position of the last message in a topic's log; 0 when there is none.
pub open spec fn tail_of(rows: Rows, topic_id: u64) -> u64 {
    counter(rows, keys::topic_seq_counter_key_bytes(topic_id))
}

/// The topic stored under an id.
pub open spec fn stored_topic(rows: Rows, id: u64) -> Result<TopicView, ErrorView> {
    match kv::fetch(rows, "meta"@, keys::topic_key_bytes(id)) {
        None => Err(
            ErrorView::Internal { message: "missing topic record for id "@ + text::dec(id as nat) },
        ),
        Some(ValueView::Topic(t)) => Ok(t),
        Some(v) => Err(
            kv::undecodable("failed to decode topic record for id "@ + text::dec(id as nat), v),
        ),
    }
}

/// The id that the name index holds for a topic name.
pub open spec fn topic_id_of(rows: Rows, name: Seq<char>) -> Result<u64, ErrorView> {
    match names::topic_name_error(name) {
        Some(e) => Err(e),
        None => match kv::fetch(rows, "meta"@, keys::name_key_bytes(NameKind::Topic, name)) {
            None => Err(ErrorView::NotFound { resource: name }),
            Some(ValueView::Bytes(b)) => match keys::from_be64(b) {
                Some(id) => Ok(id),
                None => Err(corrupt_index(name)),
            },
            Some(_) => Err(corrupt_index(name)),
        },
    }
}

/// The error for a name whose index row is not an id.
pub open spec fn corrupt_index(name: Seq<char>) -> ErrorView {
    ErrorView::Internal {
        message: "corrupt topic id index entry for "@ + text::debug_text(name),
    }
}

/// The topic with a name.
pub open spec fn topic_named(rows: Rows, name: Seq<char>) -> Result<TopicView, ErrorView> {
    match topic_id_of(rows, name) {
        Ok(id) => stored_topic(rows, id),
        Err(e) => Err(e),
    }
}

/// What stands in the way of creating a topic, if anything does.
pub open spec fn create_error(
    rows: Rows,
    name: Seq<char>,
    retention_secs: Option<i64>,
    has_schema_settings: bool,
    has_ingestion_settings: bool,
) -> Option<ErrorView> {
    if names::topic_name_error(name) is Some {
        names::topic_name_error(name)
    } else if has_schema_settings {
        Some(
            error::invalid_argument(
                "schema_settings"@,
                "schema_settings is not supported by this server"@,
            ),
        )
    } else if has_ingestion_settings {
        Some(
            error::invalid_argument(
                "ingestion_data_source_settings"@,
                "ingestion_data_source_settings is not supported by this server"@,
            ),
        )
    } else if retention_secs matches Some(secs) && limits::topic_retention_error(
        secs as int,
    ) is Some {
        limits::topic_retention_error(retention_secs->0 as int)
    } else if kv::fetch(rows, "meta"@, keys::name_key_bytes(NameKind::Topic, name)) is Some {
        Some(ErrorView::AlreadyExists { resource: name })
    } else {
        None
    }
}

/// The topic that is created.
pub open spec fn new_topic(
    rows: Rows,
    name: Seq<char>,
    labels: Entries,
    retention_secs: Option<i64>,
    kms_key_name: Option<Seq<char>>,
) -> TopicView {
    TopicView {
        id: fresh_id(rows),
        name,
        labels,
        message_retention_secs: match retention_secs {
            Some(secs) => secs,
            None => 0,
        },
        kms_key_name,
    }
}

/// What creating a topic stores: the id counter, the record, and the name's id.
pub open spec fn create_writes(topic: TopicView) -> Seq<Write> {
    seq![
        Write::Put(
            "meta"@,
            keys::id_seq_key_bytes(),
            ValueView::Bytes(keys::be64(topic.id)),
        ),
        Write::Put("meta"@, keys::topic_key_bytes(topic.id), ValueView::Topic(topic)),
        Write::Put(
            "meta"@,
            keys::name_key_bytes(NameKind::Topic, topic.name),
            ValueView::Bytes(keys::be64(topic.id)),
        ),
    ]
}

/// The topics of a project, in the order of the name index.
pub open spec fn indexed_topics(rows: Rows, scan: Scan) -> Result<Seq<TopicView>, ErrorView>
    decreases scan.len(),
{
    if scan.len() == 0 {
        Ok(Seq::empty())
    } else {
        match indexed_topics(rows, scan.drop_last()) {
            Err(e) => Err(e),
            Ok(found) => match scan.last().1 {
                ValueView::Bytes(b) => match keys::from_be64(b) {
                    Some(id) => match stored_topic(rows, id) {
                        Ok(t) => Ok(found.push(t)),
                        Err(e) => Err(e),
                    },
                    None => Ok(found),
                },
                _ => Ok(found),
            },
        }
    }
}

/// The start of the index key of every topic of a project.
pub open spec fn project_topics_prefix(project_id: Seq<char>) -> Seq<u8> {
    keys::name_key_bytes(NameKind::Topic, "projects/"@ + project_id + "/topics/"@)
}

/// The topics of a project, sorted by name.
pub open spec fn project_topics(rows: Rows, project_id: Seq<char>) -> Result<
    Seq<TopicView>,
    ErrorView,
> {
    match indexed_topics(rows, kv::scan_of(rows, "meta"@, project_topics_prefix(project_id))) {
        Ok(found) => Ok(listing::sorted_by_name::<TopicRecord>(found)),
        Err(e) => Err(e),
    }
}

/// Every topic record among scanned rows.
pub open spec fn topics_in(scan: Scan) -> Seq<TopicView>
    decreases scan.len(),
{
    if scan.len() == 0 {
        Seq::empty()
    } else {
        match scan.last().1 {
            ValueView::Topic(t) => topics_in(scan.drop_last()).push(t),
            _ => topics_in(scan.drop_last()),
        }
    }
}

/// A topic with those fields replaced that are given.
pub open spec fn updated_topic(
    topic: TopicView,
    labels: Option<Entries>,
    retention_secs: Option<Option<i64>>,
    kms_key_name: Option<Option<Seq<char>>>,
) -> TopicView {
    TopicView {
        labels: match labels {
            Some(l) => l,
            None => topic.labels,
        },
        message_retention_secs: match retention_secs {
            Some(Some(secs)) => secs,
            Some(None) => 0,
            None => topic.message_retention_secs,
        },
        kms_key_name: match kms_key_name {
            Some(k) => k,
            None => topic.kms_key_name,
        },
        ..topic
    }
}

/// What stands in the way of updating a topic, if anything does.
pub open spec fn update_error(
    rows: Rows,
    name: Seq<char>,
    retention_secs: Option<Option<i64>>,
) -> Option<ErrorView> {
    match topic_named(rows, name) {
        Err(e) => Some(e),
        Ok(_) => match retention_secs {
            Some(Some(secs)) => limits::topic_retention_error(secs as int),
            _ => None,
        },
    }
}

/// What storing a changed topic writes.
pub open spec fn update_writes(topic: TopicView) -> Seq<Write> {
    seq![Write::Put("meta"@, keys::topic_key_bytes(topic.id), ValueView::Topic(topic))]
}

/// What an optional map holds.
pub open spec fn opt_entries(m: Option<StringMap>) -> Option<Entries> {
    match m {
        Some(x) => Some(x@),
        None => None,
    }
}

/// What an optional replacement of an optional text holds.
pub open spec fn opt_opt_text(s: Option<Option<String>>) -> Option<Option<Seq<char>>> {
    match s {
        Some(x) => Some(opt_text(x)),
        None => None,
    }
}

/// What deleting a topic removes: the record and the name's id.
pub open spec fn delete_writes(id: u64, name: Seq<char>) -> Seq<Write> {
    seq![
        Write::Delete("meta"@, keys::topic_key_bytes(id)),
        Write::Delete("meta"@, keys::name_key_bytes(NameKind::Topic, name)),
    ]
}

/// A message to be published.
pub struct NewMessage {
    pub payload: Seq<u8>,
    pub attributes: Entries,
    pub ordering_key: Seq<char>,
}

/// What messages to be published hold.
pub open spec fn new_messages(messages: Seq<(Vec<u8>, StringMap, String)>) -> Seq<NewMessage> {
    messages.map_values(
        |m: (Vec<u8>, StringMap, String)|
            NewMessage { payload: m.0@, attributes: m.1@, ordering_key: m.2@ },
    )
}

/// What is wrong with the first message, from position `from` on, with which anything is.
pub open spec fn first_message_error(messages: Seq<NewMessage>, from: int) -> Option<ErrorView>
    decreases messages.len() - from,
{
    if from < 0 || from >= messages.len() {
        None
    } else {
        let m = messages[from];
        match limits::message_error(m.payload.len(), m.attributes, m.ordering_key) {
            Some(e) => Some(e),
            None => first_message_error(messages, from + 1),
        }
    }
}

/// The bytes of all messages: bodies and attributes.
pub open spec fn batch_bytes(messages: Seq<NewMessage>) -> nat
    decreases messages.len(),
{
    if messages.len() == 0 {
        0
    } else {
        batch_bytes(messages.drop_last()) + messages.last().payload.len()
            + limits::attributes_bytes(messages.last().attributes)
    }
}

/// What stands in the way of publishing a batch, if anything does.
pub open spec fn append_error(messages: Seq<NewMessage>) -> Option<ErrorView> {
    match first_message_error(messages, 0) {
        Some(e) => Some(e),
        None => limits::batch_error(messages.len(), limits::clamp_usize(batch_bytes(messages))),
    }
}

/// When messages published at `now_ms` expire.
pub open spec fn expiry(now_ms: i64, retention_secs: i64) -> i64 {
    arith::clamp_i64(now_ms + arith::clamp_i64(retention_secs * 1000)) as i64
}

/// The message as it is stored.
pub open spec fn stored_message(m: NewMessage, now_ms: i64, expire_at_ms: i64) -> MessageView {
    MessageView {
        publish_ts_ms: now_ms,
        ordering_key: m.ordering_key,
        attributes: m.attributes,
        payload: m.payload,
        expire_at_ms,
    }
}

/// The position of the message number `i` of a batch that goes behind `tail`: positions count up,
/// as far as there are any.
pub open spec fn batch_seq(tail: u64, i: int) -> u64 {
    if tail + i + 1 > u64::MAX {
        u64::MAX
    } else {
        (tail + i + 1) as u64
    }
}

/// The positions that a batch gets.
pub open spec fn batch_seqs(tail: u64, count: nat) -> Seq<u64> {
    Seq::new(count, |i: int| batch_seq(tail, i))
}

/// What publishing the first `n` messages of a batch stores: for each the topic's counter and the
/// message.
pub open spec fn append_writes(
    topic_id: u64,
    tail: u64,
    messages: Seq<NewMessage>,
    now_ms: i64,
    expire_at_ms: i64,
    n: int,
) -> Seq<Write>
    decreases n,
{
    if n <= 0 {
        Seq::empty()
    } else {
        let seq = batch_seq(tail, n - 1);
        append_writes(topic_id, tail, messages, now_ms, expire_at_ms, n - 1).push(
            Write::Put(
                "meta"@,
                keys::topic_seq_counter_key_bytes(topic_id),
                ValueView::Bytes(keys::be64(seq)),
            ),
        ).push(
            Write::Put(
                "msg"@,
                keys::pair_key(topic_id, seq),
                ValueView::Message(stored_message(messages[n - 1], now_ms, expire_at_ms)),
            ),
        )
    }
}

/// The message number `seq` of a topic is stored, and was published before a time.
pub open spec fn published_before(rows: Rows, topic_id: u64, time_ms: i64, seq: u64) -> bool {
    kv::fetch(rows, "msg"@, keys::pair_key(topic_id, seq)) matches Some(ValueView::Message(m))
        && m.publish_ts_ms < time_ms
}

/// The message number `seq` of a topic is stored, and was published at a time or later.
pub open spec fn published_since(rows: Rows, topic_id: u64, time_ms: i64, seq: u64) -> bool {
    kv::fetch(rows, "msg"@, keys::pair_key(topic_id, seq)) matches Some(ValueView::Message(m))
        && m.publish_ts_ms >= time_ms
}

/// The first message from `from` on, and before `end`, that was published at a time or later; `end`
/// when there is none.
pub open spec fn first_since(
    rows: Rows,
    topic_id: u64,
    time_ms: i64,
    from: int,
    end: int,
) -> int
    decreases end - from,
{
    if from >= end {
        end
    } else if published_since(rows, topic_id, time_ms, from as u64) {
        from
    } else {
        first_since(rows, topic_id, time_ms, from + 1, end)
    }
}

/// The first message of a topic that was published at a time or later; one past the last when there
/// is none.
pub open spec fn boundary(rows: Rows, topic_id: u64, time_ms: i64) -> u64 {
    first_since(rows, topic_id, time_ms, 1, successor(tail_of(rows, topic_id)) as int) as u64
}

/// A message was published at a time or later, or is one past the last, and none before it was.
pub open spec fn is_boundary(rows: Rows, topic_id: u64, time_ms: i64, n: u64) -> bool {
    let end = successor(tail_of(rows, topic_id));
    &&& 1 <= n <= end
    &&& n < end ==> published_since(rows, topic_id, time_ms, n)
    &&& forall|s: u64| 1 <= s < n ==> !#[trigger] published_since(rows, topic_id, time_ms, s)
}

proof fn lemma_first_since(rows: Rows, topic_id: u64, time_ms: i64, from: int, end: int)
    requires
        0 <= from <= end <= u64::MAX,
    ensures
        ({
            let n = first_since(rows, topic_id, time_ms, from, end);
            &&& from <= n <= end
            &&& n < end ==> published_since(rows, topic_id, time_ms, n as u64)
            &&& forall|s: u64|
                from <= s < n ==> !#[trigger] published_since(rows, topic_id, time_ms, s)
        }),
    decreases end - from,
{
    if from < end && !published_since(rows, topic_id, time_ms, from as u64) {
        lemma_first_since(rows, topic_id, time_ms, from + 1, end);
    }
}

/// There is exactly one boundary at any time.
pub proof fn law_boundary(rows: Rows, topic_id: u64, time_ms: i64, n: u64)
    ensures
        n == boundary(rows, topic_id, time_ms) <==> is_boundary(rows, topic_id, time_ms, n),
{
    let end = successor(tail_of(rows, topic_id));
    let b = boundary(rows, topic_id, time_ms);
    lemma_first_since(rows, topic_id, time_ms, 1, end as int);
    if is_boundary(rows, topic_id, time_ms, n) {
        if n < b {
            assert(!published_since(rows, topic_id, time_ms, n));
        } else if b < n {
            assert(!published_since(rows, topic_id, time_ms, b));
        }
    }
}

/// Topics and their message logs, in a [`KvStore`].
#[derive(Debug, Clone, Copy)]
pub struct TopicStore;

/// The number stored under `key` in `meta`; 0 when there is none.
pub fn read_counter<K: KvStore>(kv: &K, key: &[u8]) -> (n: u64)
    ensures
        n == counter(kv.rows(), key@),
{
    match kv.get("meta", key) {
        Some(KvValue::Bytes(b)) => match keys::decode_u64(b.as_slice()) {
            Some(n) => n,
            None => 0,
        },
        _ => 0,
    }
}

impl TopicStore {
    /// A topic store.
    pub fn new() -> Self {
        TopicStore
    }

    /// Creates a topic. Fails for an invalid name, for the settings that this server does not
    /// support, for a retention out of range, and for a name that is taken, in this order.
    pub fn create<K: KvStore>(
        &self,
        kv: &mut K,
        full_name: &str,
        labels: StringMap,
        message_retention_secs: Option<i64>,
        kms_key_name: Option<String>,
        has_schema_settings: bool,
        has_ingestion_settings: bool,
    ) -> (r: Result<TopicRecord, Error>)
        ensures
            ({
                let topic = new_topic(
                    old(kv).rows(),
                    full_name@,
                    labels@,
                    message_retention_secs,
                    opt_text(kms_key_name),
                );
                kv::stored::<TopicRecord, K>(
                    r,
                    old(kv).rows(),
                    final(kv).rows(),
                    create_error(
                        old(kv).rows(),
                        full_name@,
                        message_retention_secs,
                        has_schema_settings,
                        has_ingestion_settings,
                    ),
                    topic,
                    create_writes(topic),
                )
            }),
    {
        match TopicName::parse(full_name) {
            Ok(_) => {},
            Err(e) => {
                return Err(e);
            },
        }
        if has_schema_settings {
            return Err(
                invalid(
                    "schema_settings",
                    String::from_str("schema_settings is not supported by this server"),
                ),
            );
        }
        if has_ingestion_settings {
            return Err(
                invalid(
                    "ingestion_data_source_settings",
                    String::from_str(
                        "ingestion_data_source_settings is not supported by this server",
                    ),
                ),
            );
        }
        if let Some(secs) = message_retention_secs {
            match limits::validate_topic_retention_secs(secs) {
                Ok(_) => {},
                Err(e) => {
                    return Err(e);
                },
            }
        }
        let name_key = keys::name_key(NameKind::Topic, full_name);
        if kv.get("meta", name_key.as_slice()).is_some() {
            return Err(Error::AlreadyExists { resource: String::from_str(full_name) });
        }
        let ghost before = kv.rows();
        let last: u64 = read_counter(kv, keys::id_seq_key().as_slice());
        let id: u64 = if last == u64::MAX {
            u64::MAX
        } else {
            last + 1
        };
        let record = TopicRecord {
            id,
            name: String::from_str(full_name),
            labels,
            message_retention_secs: match message_retention_secs {
                Some(secs) => secs,
                None => 0,
            },
            kms_key_name,
        };
        let ghost writes = create_writes(record@);
        assert(writes.take(0) =~= Seq::<Write>::empty());
        match kv::put_step(
            kv,
            "meta",
            keys::id_seq_key(),
            KvValue::Bytes(keys::u64_bytes(id)),
            Ghost(before),
            Ghost(writes),
            Ghost(0),
        ) {
            Ok(_) => {},
            Err(e) => {
                return Err(e);
            },
        }
        match kv::put_step(
            kv,
            "meta",
            keys::topic_key(id),
            KvValue::Topic(record.clone()),
            Ghost(before),
            Ghost(writes),
            Ghost(1),
        ) {
            Ok(_) => {},
            Err(e) => {
                return Err(e);
            },
        }
        match kv::put_step(
            kv,
            "meta",
            name_key,
            KvValue::Bytes(keys::u64_bytes(id)),
            Ghost(before),
            Ghost(writes),
            Ghost(2),
        ) {
            Ok(_) => {},
            Err(e) => {
                return Err(e);
            },
        }
        assert(writes.take(3) =~= writes);
        Ok(record)
    }

    fn resolve_id<K: KvStore>(&self, kv: &K, full_name: &str) -> (r: Result<u64, Error>)
        ensures
            match topic_id_of(kv.rows(), full_name@) {
                Ok(id) => r is Ok && r->Ok_0 == id,
                Err(e) => r is Err && r->Err_0@ == e,
            },
    {
        match TopicName::parse(full_name) {
            Ok(_) => {},
            Err(e) => {
                return Err(e);
            },
        }
        let name_key = keys::name_key(NameKind::Topic, full_name);
        match kv.get("meta", name_key.as_slice()) {
            None => Err(not_found(full_name)),
            Some(KvValue::Bytes(b)) => match keys::decode_u64(b.as_slice()) {
                Some(id) => Ok(id),
                None => Err(
                    Error::Internal {
                        message: text::cat2(
                            "corrupt topic id index entry for ",
                            text::quoted(full_name).as_str(),
                        ),
                    },
                ),
            },
            Some(_) => Err(
                Error::Internal {
                    message: text::cat2(
                        "corrupt topic id index entry for ",
                        text::quoted(full_name).as_str(),
                    ),
                },
            ),
        }
    }

    fn load_record<K: KvStore>(&self, kv: &K, id: u64) -> (r: Result<TopicRecord, Error>)
        ensures
            error::result_view(r) == stored_topic(kv.rows(), id),
    {
        match kv.get("meta", keys::topic_key(id).as_slice()) {
            None => Err(
                Error::Internal {
                    message: text::cat2(
                        "missing topic record for id ",
                        text::u64_text(id).as_str(),
                    ),
                },
            ),
            Some(KvValue::Topic(t)) => Ok(t),
            Some(v) => Err(
                kv::not_decoded(
                    text::cat2(
                        "failed to decode topic record for id ",
                        text::u64_text(id).as_str(),
                    ).as_str(),
                    &v,
                ),
            ),
        }
    }

    /// The topic with a name.
    pub fn get<K: KvStore>(&self, kv: &K, full_name: &str) -> (r: Result<TopicRecord, Error>)
        ensures
            error::result_view(r) == topic_named(kv.rows(), full_name@),
    {
        match self.resolve_id(kv, full_name) {
            Ok(id) => self.load_record(kv, id),
            Err(e) => Err(e),
        }
    }

    /// Every topic of every project. Rows that hold no topic are passed over.
    pub fn list_all<K: KvStore>(&self, kv: &K) -> (r: Vec<TopicRecord>)
        ensures
            listing::views(r@) == topics_in(
                kv::scan_of(kv.rows(), "meta"@, vstd::utf8::encode_utf8("t/"@)),
            ),
    {
        let rows = kv.scan_prefix("meta", "t/".as_bytes());
        let ghost scan = kv::scan_view(rows@);
        proof {
            kv::law_scan_is_unique(
                kv.rows(),
                "meta"@,
                vstd::utf8::encode_utf8("t/"@),
                scan,
                scan,
            );
        }
        let mut out: Vec<TopicRecord> = Vec::new();
        let mut i: usize = 0;
        assert(scan.take(0) =~= Scan::empty());
        assert(listing::views(out@) =~= Seq::<TopicView>::empty());
        while i < rows.len()
            invariant
                i <= rows.len(),
                scan == kv::scan_view(rows@),
                listing::views(out@) == topics_in(scan.take(i as int)),
            decreases rows.len() - i,
        {
            assert(scan.take(i + 1).drop_last() =~= scan.take(i as int));
            assert(scan[i as int].1 == rows@[i as int].1@);
            match &rows[i].1 {
                KvValue::Topic(t) => {
                    let ghost before = out@;
                    out.push(t.clone());
                    assert(listing::views(out@) =~= listing::views(before).push(t@));
                },
                _ => {},
            }
            i = i + 1;
        }
        assert(scan.take(i as int) =~= scan);
        out
    }

    /// A page of the topics of a project, sorted by name, and the token for the next page.
    pub fn list<K: KvStore>(
        &self,
        kv: &K,
        project_id: &str,
        page_size: usize,
        page_token: Option<&str>,
    ) -> (r: Result<(Vec<TopicRecord>, Option<String>), Error>)
        ensures
            match project_topics(kv.rows(), project_id@) {
                Ok(all) => {
                    &&& r is Ok
                    &&& listing::views((r->Ok_0).0@) == listing::page::<TopicRecord>(
                        all,
                        page_size as nat,
                        listing::opt_str(page_token),
                    )
                    &&& listing::opt_string((r->Ok_0).1) == listing::next_token::<TopicRecord>(
                        all,
                        page_size as nat,
                        listing::opt_str(page_token),
                    )
                },
                Err(e) => r is Err && r->Err_0@ == e,
            },
    {
        let prefix = keys::name_key(
            NameKind::Topic,
            text::cat3("projects/", project_id, "/topics/").as_str(),
        );
        let rows = kv.scan_prefix("meta", prefix.as_slice());
        let ghost scan = kv::scan_view(rows@);
        proof {
            kv::law_scan_is_unique(kv.rows(), "meta"@, prefix@, scan, scan);
        }
        let mut sorted: Vec<TopicRecord> = Vec::new();
        let ghost mut found: Seq<TopicView> = Seq::empty();
        let mut i: usize = 0;
        assert(scan.take(0) =~= Scan::empty());
        assert(listing::views(sorted@) =~= Seq::<TopicView>::empty());
        while i < rows.len()
            invariant
                i <= rows.len(),
                scan == kv::scan_view(rows@),
                indexed_topics(kv.rows(), scan.take(i as int)) == Ok::<_, ErrorView>(found),
                listing::views(sorted@) == listing::sorted_by_name::<TopicRecord>(found),
                project_topics(kv.rows(), project_id@) == match indexed_topics(kv.rows(), scan) {
                    Ok(all) => Ok(listing::sorted_by_name::<TopicRecord>(all)),
                    Err(e) => Err(e),
                },
            decreases rows.len() - i,
        {
            assert(scan.take(i + 1).drop_last() =~= scan.take(i as int));
            assert(scan[i as int].1 == rows@[i as int].1@);
            if let KvValue::Bytes(b) = &rows[i].1 {
                if let Some(id) = keys::decode_u64(b.as_slice()) {
                    match self.load_record(kv, id) {
                        Ok(t) => {
                            proof {
                                assert(found.push(t@).drop_last() =~= found);
                                found = found.push(t@);
                            }
                            listing::insert_sorted(&mut sorted, t);
                        },
                        Err(e) => {
                            proof {
                                lemma_indexed_error(kv.rows(), scan, i + 1);
                            }
                            return Err(e);
                        },
                    }
                }
            }
            i = i + 1;
        }
        assert(scan.take(i as int) =~= scan);
        Ok(listing::take_page(sorted, page_size, page_token))
    }

    /// Replaces those fields of a topic that are given.
    pub fn update<K: KvStore>(
        &self,
        kv: &mut K,
        full_name: &str,
        labels: Option<StringMap>,
        message_retention_secs: Option<Option<i64>>,
        kms_key_name: Option<Option<String>>,
    ) -> (r: Result<TopicRecord, Error>)
        ensures
            ({
                let topic = updated_topic(
                    topic_named(old(kv).rows(), full_name@)->Ok_0,
                    opt_entries(labels),
                    message_retention_secs,
                    opt_opt_text(kms_key_name),
                );
                kv::stored::<TopicRecord, K>(
                    r,
                    old(kv).rows(),
                    final(kv).rows(),
                    update_error(old(kv).rows(), full_name@, message_retention_secs),
                    topic,
                    update_writes(topic),
                )
            }),
    {
        let mut record = match self.get(kv, full_name) {
            Ok(t) => t,
            Err(e) => {
                return Err(e);
            },
        };
        if let Some(l) = labels {
            record.labels = l;
        }
        if let Some(retention) = message_retention_secs {
            match retention {
                Some(secs) => {
                    match limits::validate_topic_retention_secs(secs) {
                        Ok(_) => {},
                        Err(e) => {
                            return Err(e);
                        },
                    }
                    record.message_retention_secs = secs;
                },
                None => {
                    record.message_retention_secs = 0;
                },
            }
        }
        if let Some(kms) = kms_key_name {
            record.kms_key_name = kms;
        }
        let ghost before = kv.rows();
        let ghost writes = update_writes(record@);
        assert(writes.take(0) =~= Seq::<Write>::empty());
        match kv::put_step(
            kv,
            "meta",
            keys::topic_key(record.id),
            KvValue::Topic(record.clone()),
            Ghost(before),
            Ghost(writes),
            Ghost(0),
        ) {
            Ok(_) => {},
            Err(e) => {
                return Err(e);
            },
        }
        assert(writes.take(1) =~= writes);
        Ok(record)
    }

    /// Deletes a topic. Subscriptions attached to it are left as they are.
    pub fn delete<K: KvStore>(&self, kv: &mut K, full_name: &str) -> (r: Result<(), Error>)
        ensures
            match topic_id_of(old(kv).rows(), full_name@) {
                Ok(id) => kv::stored::<(), K>(
                    r,
                    old(kv).rows(),
                    final(kv).rows(),
                    None,
                    (),
                    delete_writes(id, full_name@),
                ),
                Err(e) => r is Err && r->Err_0@ == e && final(kv).rows() == old(kv).rows(),
            },
    {
        let id: u64 = match self.resolve_id(kv, full_name) {
            Ok(id) => id,
            Err(e) => {
                return Err(e);
            },
        };
        let ghost before = kv.rows();
        let ghost writes = delete_writes(id, full_name@);
        assert(writes.take(0) =~= Seq::<Write>::empty());
        match kv::delete_step(
            kv,
            "meta",
            keys::topic_key(id).as_slice(),
            Ghost(before),
            Ghost(writes),
            Ghost(0),
        ) {
            Ok(_) => {},
            Err(e) => {
                return Err(e);
            },
        }
        match kv::delete_step(
            kv,
            "meta",
            keys::name_key(NameKind::Topic, full_name).as_slice(),
            Ghost(before),
            Ghost(writes),
            Ghost(1),
        ) {
            Ok(_) => {},
            Err(e) => {
                return Err(e);
            },
        }
        assert(writes.take(2) =~= writes);
        Ok(())
    }

    /// Appends messages to a topic's log and returns their positions. They expire when the
    /// retention has passed.
    pub fn append<K: KvStore>(
        &self,
        kv: &mut K,
        topic_id: u64,
        messages: Vec<(Vec<u8>, StringMap, String)>,
        now_ms: i64,
        retention_secs: i64,
    ) -> (r: Result<Vec<u64>, Error>)
        ensures
            ({
                let new = new_messages(messages@);
                let tail = tail_of(old(kv).rows(), topic_id);
                kv::stored::<Vec<u64>, K>(
                    r,
                    old(kv).rows(),
                    final(kv).rows(),
                    append_error(new),
                    batch_seqs(tail, new.len()),
                    append_writes(
                        topic_id,
                        tail,
                        new,
                        now_ms,
                        expiry(now_ms, retention_secs),
                        new.len() as int,
                    ),
                )
            }),
    {
        let ghost new = new_messages(messages@);
        let count: usize = messages.len();
        let mut total: usize = 0;
        let mut i: usize = 0;
        assert(new.take(0) =~= Seq::<NewMessage>::empty());
        while i < count
            invariant
                i <= count == messages.len(),
                new == new_messages(messages@),
                first_message_error(new, 0) == first_message_error(new, i as int),
                total == limits::clamp_usize(batch_bytes(new.take(i as int))),
                *kv == *old(kv),
            decreases count - i,
        {
            let payload_len: usize = messages[i].0.len();
            assert(new[i as int].payload.len() == payload_len);
            match limits::validate_message(
                payload_len,
                &messages[i].1,
                messages[i].2.as_str(),
            ) {
                Ok(_) => {},
                Err(e) => {
                    return Err(e);
                },
            }
            total = limits::add_attribute_bytes(total.saturating_add(payload_len), &messages[i].1);
            assert(new.take(i + 1).drop_last() =~= new.take(i as int));
            i = i + 1;
        }
        assert(new.take(i as int) =~= new);
        match limits::validate_publish_batch(count, total) {
            Ok(_) => {},
            Err(e) => {
                return Err(e);
            },
        }
        let expire_at_ms: i64 = arith::saturating_add(
            now_ms,
            arith::saturating_mul(retention_secs, 1000),
        );
        let ghost before = kv.rows();
        let ghost tail = tail_of(before, topic_id);
        let ghost writes = append_writes(topic_id, tail, new, now_ms, expire_at_ms, count as int);
        let mut last: u64 = self.current_tail(kv, topic_id);
        let mut seqs: Vec<u64> = Vec::new();
        assert(writes.take(0) =~= Seq::<Write>::empty());
        i = 0;
        while i < count
            invariant
                i <= count == messages.len(),
                count == new.len(),
                new == new_messages(messages@),
                last == batch_seq(tail, i - 1),
                seqs@ == batch_seqs(tail, i as nat),
                writes == append_writes(
                    topic_id,
                    tail,
                    new,
                    now_ms,
                    expire_at_ms,
                    count as int,
                ),
                before == old(kv).rows(),
                kv.rows() == kv::after_writes(before, writes.take(2 * i)),
                expire_at_ms == expiry(now_ms, retention_secs),
                append_error(new) is None,
                tail == tail_of(before, topic_id),
            decreases count - i,
        {
            let seq: u64 = if last == u64::MAX {
                u64::MAX
            } else {
                last + 1
            };
            proof {
                lemma_append_writes(
                    topic_id,
                    tail,
                    new,
                    now_ms,
                    expire_at_ms,
                    count as int,
                    i as int,
                );
            }
            match kv::put_step(
                kv,
                "meta",
                keys::topic_seq_counter_key(topic_id),
                KvValue::Bytes(keys::u64_bytes(seq)),
                Ghost(before),
                Ghost(writes),
                Ghost(2 * i),
            ) {
                Ok(_) => {},
                Err(e) => {
                    return Err(e);
                },
            }
            let record = MessageRecord {
                publish_ts_ms: now_ms,
                ordering_key: messages[i].2.clone(),
                attributes: messages[i].1.clone(),
                payload: copy_bytes(&messages[i].0),
                expire_at_ms,
            };
            match kv::put_step(
                kv,
                "msg",
                keys::msg_key(topic_id, seq),
                KvValue::Message(record),
                Ghost(before),
                Ghost(writes),
                Ghost(2 * i + 1),
            ) {
                Ok(_) => {},
                Err(e) => {
                    return Err(e);
                },
            }
            seqs.push(seq);
            last = seq;
            i = i + 1;
            assert(seqs@ =~= batch_seqs(tail, i as nat));
        }
        proof {
            lemma_append_writes_len(
                topic_id,
                tail,
                new,
                now_ms,
                expire_at_ms,
                count as int,
            );
            assert(writes.take(2 * count) =~= writes);
        }
        Ok(seqs)
    }

    /// The position of the last message in a topic's log; 0 when there is none.
    pub fn current_tail<K: KvStore>(&self, kv: &K, topic_id: u64) -> (n: u64)
        ensures
            n == tail_of(kv.rows(), topic_id),
    {
        read_counter(kv, keys::topic_seq_counter_key(topic_id).as_slice())
    }

    /// The first message of a topic that was published at a time or later; one past the last when
    /// there is none.
    pub fn seq_boundary_for_time<K: KvStore>(
        &self,
        kv: &K,
        topic_id: u64,
        target_ts_ms: i64,
    ) -> (n: u64)
        ensures
            n == boundary(kv.rows(), topic_id, target_ts_ms),
            is_boundary(kv.rows(), topic_id, target_ts_ms, n),
    {
        let tail: u64 = self.current_tail(kv, topic_id);
        let end: u64 = if tail == u64::MAX {
            u64::MAX
        } else {
            tail + 1
        };
        let ghost rows = kv.rows();
        let entries = kv.scan_prefix("msg", keys::msg_key_prefix(topic_id).as_slice());
        let ghost log = kv::scan_view(entries@);
        proof {
            kv::law_scan_is_unique(rows, "msg"@, keys::be64(topic_id), log, log);
            laws::law_scan_of_topic_is_log(rows, topic_id);
        }
        let mut n: u64 = end;
        let mut i: usize = 0;
        while i < entries.len() && n == end
            invariant
                i <= entries.len(),
                end == successor(tail_of(rows, topic_id)),
                log == kv::scan_view(entries@),
                kv::is_scan(rows, "msg"@, keys::be64(topic_id), log),
                laws::is_log(log),
                n != end ==> 1 <= n < end && i > 0 && is_since(log, target_ts_ms, i - 1, n),
                forall|j: int, s: u64|
                    0 <= j < i && 1 <= s < end && s != n ==> !#[trigger] is_since(
                        log,
                        target_ts_ms,
                        j,
                        s,
                    ),
            decreases entries.len() - i,
        {
            assert(log[i as int] == (entries@[i as int].0@, entries@[i as int].1@));
            if let Some((_, seq)) = keys::parse_msg_key(entries[i].0.as_slice()) {
                if let KvValue::Message(m) = &entries[i].1 {
                    if m.publish_ts_ms >= target_ts_ms && 1 <= seq && seq < end {
                        n = seq;
                    }
                }
            }
            i = i + 1;
        }
        proof {
            if n < end {
                lemma_row_of_log(rows, topic_id, log, i - 1, n);
            }
            assert forall|s: u64| 1 <= s < n implies !#[trigger] published_since(
                rows,
                topic_id,
                target_ts_ms,
                s,
            ) by {
                if published_since(rows, topic_id, target_ts_ms, s) {
                    let j = lemma_message_in_log(rows, topic_id, log, s);
                    assert(is_since(log, target_ts_ms, j, s));
                    if n < end && j >= i {
                        assert(laws::seq_in(log, i - 1)->0 < laws::seq_in(log, j)->0);
                    }
                }
            }
            law_boundary(rows, topic_id, target_ts_ms, n);
        }
        n
    }
}

/// A row of a log holds the message number `seq`, published at a time or later.
spec fn is_since(log: Scan, time_ms: i64, j: int, seq: u64) -> bool {
    laws::seq_in(log, j) == Some(seq) && (log[j].1 matches ValueView::Message(m)
        && m.publish_ts_ms >= time_ms)
}

proof fn lemma_row_of_log(rows: Rows, topic_id: u64, log: Scan, j: int, seq: u64)
    requires
        kv::is_scan(rows, "msg"@, keys::be64(topic_id), log),
        0 <= j < log.len(),
        laws::seq_in(log, j) == Some(seq),
    ensures
        kv::fetch(rows, "msg"@, keys::pair_key(topic_id, seq)) == Some(log[j].1),
{
    let (a, b) = keys::from_pair_key(log[j].0)->0;
    assert(text::has_prefix(log[j].0, keys::be64(topic_id)));
    keys::law_pair_key_round_trip(a, b, log[j].0);
    keys::lemma_pair_key_prefix(log[j].0, topic_id);
}

proof fn lemma_message_in_log(rows: Rows, topic_id: u64, log: Scan, seq: u64) -> (j: int)
    requires
        kv::is_scan(rows, "msg"@, keys::be64(topic_id), log),
        kv::fetch(rows, "msg"@, keys::pair_key(topic_id, seq)) is Some,
    ensures
        0 <= j < log.len(),
        laws::seq_in(log, j) == Some(seq),
        kv::fetch(rows, "msg"@, keys::pair_key(topic_id, seq)) == Some(log[j].1),
{
    let key = keys::pair_key(topic_id, seq);
    keys::lemma_be_bytes_len(topic_id as nat, 8);
    assert(key.take(8) =~= keys::be64(topic_id));
    assert(text::has_prefix(key, keys::be64(topic_id)));
    assert(kv::scan_has(log, key));
    let j = choose|j: int| 0 <= j < log.len() && (#[trigger] log[j]).0 == key;
    keys::law_pair_key_round_trip(topic_id, seq, key);
    j
}

proof fn lemma_append_writes_len(
    topic_id: u64,
    tail: u64,
    messages: Seq<NewMessage>,
    now_ms: i64,
    expire_at_ms: i64,
    n: int,
)
    requires
        0 <= n,
    ensures
        append_writes(topic_id, tail, messages, now_ms, expire_at_ms, n).len() == 2 * n,
    decreases n,
{
    if n > 0 {
        lemma_append_writes_len(topic_id, tail, messages, now_ms, expire_at_ms, n - 1);
    }
}

proof fn lemma_append_writes(
    topic_id: u64,
    tail: u64,
    messages: Seq<NewMessage>,
    now_ms: i64,
    expire_at_ms: i64,
    n: int,
    i: int,
)
    requires
        0 <= i < n,
    ensures
        ({
            let writes = append_writes(topic_id, tail, messages, now_ms, expire_at_ms, n);
            let seq = batch_seq(tail, i);
            &&& writes.len() == 2 * n
            &&& writes[2 * i] == Write::Put(
                "meta"@,
                keys::topic_seq_counter_key_bytes(topic_id),
                ValueView::Bytes(keys::be64(seq)),
            )
            &&& writes[2 * i + 1] == Write::Put(
                "msg"@,
                keys::pair_key(topic_id, seq),
                ValueView::Message(stored_message(messages[i], now_ms, expire_at_ms)),
            )
        }),
    decreases n,
{
    lemma_append_writes_len(topic_id, tail, messages, now_ms, expire_at_ms, n - 1);
    if i < n - 1 {
        lemma_append_writes(topic_id, tail, messages, now_ms, expire_at_ms, n - 1, i);
    }
}

proof fn lemma_indexed_error(rows: Rows, scan: Scan, n: int)
    requires
        0 <= n <= scan.len(),
        indexed_topics(rows, scan.take(n)) is Err,
    ensures
        indexed_topics(rows, scan) == indexed_topics(rows, scan.take(n)),
    decreases scan.len() - n,
{
    if n < scan.len() {
        assert(scan.take(n + 1).drop_last() =~= scan.take(n));
        lemma_indexed_error(rows, scan, n + 1);
    } else {
        assert(scan.take(n) =~= scan);
    }
}

} // verus!
