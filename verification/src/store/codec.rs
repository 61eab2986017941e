//! The records kept in the store for delivery state.

use crate::string_map::{Entries, StringMap};
use std::collections::BTreeSet;
use vstd::prelude::*;

verus! {

/// One entry of a topic's append-only message log.
#[derive(Debug, PartialEq)]
pub struct MessageRecord {
    /// When the message was published, milliseconds since the Unix epoch.
    pub publish_ts_ms: i64,
    /// Ordering key; empty when the message is unordered.
    pub ordering_key: String,
    /// User-supplied attributes.
    pub attributes: StringMap,
    /// Message body.
    pub payload: Vec<u8>,
    /// When the message expires, milliseconds since the Unix epoch.
    pub expire_at_ms: i64,
}

/// What a [`MessageRecord`] holds.
pub struct MessageView {
    pub publish_ts_ms: i64,
    pub ordering_key: Seq<char>,
    pub attributes: Entries,
    pub payload: Seq<u8>,
    pub expire_at_ms: i64,
}

impl View for MessageRecord {
    type V = MessageView;

    open spec fn view(&self) -> MessageView {
        MessageView {
            publish_ts_ms: self.publish_ts_ms,
            ordering_key: self.ordering_key@,
            attributes: self.attributes@,
            payload: self.payload@,
            expire_at_ms: self.expire_at_ms,
        }
    }
}

/// A copy of `bytes`.
pub fn copy_bytes(bytes: &Vec<u8>) -> (r: Vec<u8>)
    ensures
        r@ == bytes@,
{
    vstd::slice::slice_to_vec(bytes.as_slice())
}

impl Clone for MessageRecord {
    fn clone(&self) -> (r: Self)
        ensures
            r@ == self@,
    {
        MessageRecord {
            publish_ts_ms: self.publish_ts_ms,
            ordering_key: self.ordering_key.clone(),
            attributes: self.attributes.clone(),
            payload: copy_bytes(&self.payload),
            expire_at_ms: self.expire_at_ms,
        }
    }
}

/// A subscription's progress through its topic's message log.
#[derive(Debug, PartialEq)]
pub struct CursorRecord {
    /// Log tail when the subscription was created; messages up to it are never delivered.
    pub attach_seq: u64,
    /// Every message up to this one is done.
    pub acked_floor: u64,
    /// Messages above the floor that are done one by one.
    pub acked_above_floor: BTreeSet<u64>,
}

/// What a [`CursorRecord`] holds.
pub struct CursorView {
    pub attach_seq: u64,
    pub acked_floor: u64,
    pub acked_above_floor: Set<u64>,
}

impl View for CursorRecord {
    type V = CursorView;

    open spec fn view(&self) -> CursorView {
        CursorView {
            attach_seq: self.attach_seq,
            acked_floor: self.acked_floor,
            acked_above_floor: self.acked_above_floor@,
        }
    }
}

impl Clone for CursorRecord {
    fn clone(&self) -> (r: Self)
        ensures
            r@ == self@,
    {
        CursorRecord {
            attach_seq: self.attach_seq,
            acked_floor: self.acked_floor,
            acked_above_floor: self.acked_above_floor.clone(),
        }
    }
}

/// A delivery in flight. That the row is there means that the message is out with a client;
/// acknowledging deletes the row.
#[derive(Debug, Clone, Copy, PartialEq, Eq, Structural)]
pub struct DeliveryRecord {
    /// Ack deadline, milliseconds since the Unix epoch.
    pub deadline_ms: i64,
    /// How often the message was delivered so far.
    pub attempts: u32,
    /// Tells the acknowledgement of this delivery from one of an earlier delivery.
    pub generation: u64,
    /// Whether the client gave the message back, so that no backoff is waited for.
    pub given_back: bool,
}

/// The state of one ordering key of a subscription.
#[derive(Debug, Clone, Copy, PartialEq, Eq)]
pub struct LaneRecord {
    /// First message of this key that is not complete.
    pub head_seq: u64,
    /// First message of the batch in flight.
    pub outstanding_from: u64,
    /// End of the batch in flight.
    pub outstanding_to: u64,
    /// When set, the lane is blocked until this time, milliseconds since the Unix epoch.
    pub blocked_until_ms: Option<i64>,
}

/// A captured copy of a subscription's cursor, with a name and an expiry of its own.
#[derive(Debug, PartialEq)]
pub struct SnapshotRecord {
    /// Internal id.
    pub id: u64,
    /// Full resource name.
    pub name: String,
    /// Full resource name of the source subscription's topic.
    pub topic: String,
    /// Internal id of that topic.
    pub topic_id: u64,
    /// User-supplied labels.
    pub labels: StringMap,
    /// The captured cursor.
    pub cursor: CursorRecord,
    /// When the snapshot expires, milliseconds since the Unix epoch.
    pub expire_at_ms: i64,
}

/// What a [`SnapshotRecord`] holds.
pub struct SnapshotView {
    pub id: u64,
    pub name: Seq<char>,
    pub topic: Seq<char>,
    pub topic_id: u64,
    pub labels: Entries,
    pub cursor: CursorView,
    pub expire_at_ms: i64,
}

impl View for SnapshotRecord {
    type V = SnapshotView;

    open spec fn view(&self) -> SnapshotView {
        SnapshotView {
            id: self.id,
            name: self.name@,
            topic: self.topic@,
            topic_id: self.topic_id,
            labels: self.labels@,
            cursor: self.cursor@,
            expire_at_ms: self.expire_at_ms,
        }
    }
}

impl Clone for SnapshotRecord {
    fn clone(&self) -> (r: Self)
        ensures
            r@ == self@,
    {
        SnapshotRecord {
            id: self.id,
            name: self.name.clone(),
            topic: self.topic.clone(),
            topic_id: self.topic_id,
            labels: self.labels.clone(),
            cursor: self.cursor.clone(),
            expire_at_ms: self.expire_at_ms,
        }
    }
}

} // verus!
