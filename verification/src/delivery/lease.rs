//! Which messages are out with a client, until when, and how often they were delivered.

use crate::arith;
use crate::store::keys;
use base64::Engine as _;
use vstd::prelude::*;

verus! {

/// A message out with a client.
#[derive(Debug, Clone, Copy, PartialEq, Eq, Structural)]
pub struct Lease {
    /// The subscription that the message was leased to.
    pub sub_id: u64,
    /// The message's position in the topic's log.
    pub seq: u64,
    /// Ack deadline, milliseconds since the Unix epoch.
    pub deadline_ms: i64,
    /// How often the message was delivered so far.
    pub attempts: u32,
    /// Part of the ack id: an acknowledgement of an earlier delivery carries another one.
    pub generation: u64,
    /// Whether the client gave the message back, so that no backoff is waited for.
    pub given_back: bool,
}

/// What came of an acknowledgement or a change of deadline. None of these is an error.
#[derive(Debug, Clone, Copy, PartialEq, Eq, Structural)]
pub enum AckOutcome {
    /// The lease was there, at this generation, and the change was made.
    Applied(Lease),
    /// There is no lease for this message.
    Unknown,
    /// There is a lease, of another delivery of the message.
    StaleGeneration,
    /// The ack id does not decode.
    Malformed,
}

/// A lease that ran out.
#[derive(Debug, Clone, Copy, PartialEq, Eq, Structural)]
pub struct ExpiredLease {
    /// The subscription that the message was leased to.
    pub sub_id: u64,
    /// The message's position in the topic's log.
    pub seq: u64,
    /// How often the message was delivered so far.
    pub attempts: u32,
    /// The generation of the lease.
    pub generation: u64,
}

/// What is leased: a lease for each subscription and message.
pub type Leases = Map<(u64, u64), Lease>;

/// Leases are filed under their own subscription and message.
pub open spec fn filed_by_key(leases: Leases) -> bool {
    forall|k: (u64, u64)| #[trigger]
        leases.contains_key(k) ==> (leases[k].sub_id, leases[k].seq) == k
}

/// The text that `URL_SAFE_NO_PAD` of the `base64` crate encodes `bytes` as.
pub uninterp spec fn base64url_text(bytes: Seq<u8>) -> Seq<char>;

/// The bytes that `URL_SAFE_NO_PAD` of the `base64` crate decodes `text` to, if it does.
pub uninterp spec fn base64url_bytes(text: Seq<char>) -> Option<Seq<u8>>;

/// `encode` of the `base64` crate's `URL_SAFE_NO_PAD` engine. The text is a function of the bytes
/// and is named, and decoding it with the same engine gives the bytes back.
#[verifier::external_body]
fn base64url_encode(bytes: &Vec<u8>) -> (s: String)
    requires
        bytes@.len() <= 24,
    ensures
        s@ == base64url_text(bytes@),
        base64url_bytes(s@) == Some(bytes@),
{
    base64::engine::general_purpose::URL_SAFE_NO_PAD.encode(bytes)
}

/// `decode` of the `base64` crate's `URL_SAFE_NO_PAD` engine, with its error dropped. Whether and
/// to what a text decodes is a function of the text and is named.
#[verifier::external_body]
fn base64url_decode(text: &str) -> (r: Option<Vec<u8>>)
    ensures
        match r {
            Some(bytes) => base64url_bytes(text@) == Some(bytes@),
            None => base64url_bytes(text@) is None,
        },
{
    base64::engine::general_purpose::URL_SAFE_NO_PAD.decode(text).ok()
}

/// The bytes behind an ack id: three numbers, each as eight bytes.
pub open spec fn ack_id_bytes(sub_id: u64, seq: u64, generation: u64) -> Seq<u8> {
    keys::be64(sub_id) + keys::be64(seq) + keys::be64(generation)
}

/// The ack id of a delivery.
pub open spec fn ack_id_text(sub_id: u64, seq: u64, generation: u64) -> Seq<char> {
    base64url_text(ack_id_bytes(sub_id, seq, generation))
}

/// The numbers that the bytes behind an ack id stand for: those of exactly 24 bytes.
pub open spec fn ack_bytes_parts(bytes: Option<Seq<u8>>) -> Option<(u64, u64, u64)> {
    match bytes {
        Some(b) => if b.len() == 24 {
            Some(
                (
                    keys::from_be64(b.subrange(0, 8))->0,
                    keys::from_be64(b.subrange(8, 16))->0,
                    keys::from_be64(b.subrange(16, 24))->0,
                ),
            )
        } else {
            None
        },
        None => None,
    }
}

/// The subscription, message and generation that an ack id stands for, if it is one.
pub open spec fn ack_id_parts(ack_id: Seq<char>) -> Option<(u64, u64, u64)> {
    ack_bytes_parts(base64url_bytes(ack_id))
}

/// The 24 bytes behind an ack id stand for the numbers that they were made of.
pub proof fn law_ack_bytes_round_trip(sub_id: u64, seq: u64, generation: u64)
    ensures
        ack_bytes_parts(Some(ack_id_bytes(sub_id, seq, generation))) == Some(
            (sub_id, seq, generation),
        ),
        ack_id_bytes(sub_id, seq, generation).len() == 24,
{
    let b = ack_id_bytes(sub_id, seq, generation);
    keys::law_be64_round_trip(sub_id, b);
    keys::law_be64_round_trip(seq, b);
    keys::law_be64_round_trip(generation, b);
    assert(b.subrange(0, 8) =~= keys::be64(sub_id));
    assert(b.subrange(8, 16) =~= keys::be64(seq));
    assert(b.subrange(16, 24) =~= keys::be64(generation));
}

/// The ack id of a delivery: 24 bytes as unpadded URL-safe base64. It decodes to what it was made
/// of.
pub fn encode_ack_id(sub_id: u64, seq: u64, generation: u64) -> (s: String)
    ensures
        s@ == ack_id_text(sub_id, seq, generation),
        ack_id_parts(s@) == Some((sub_id, seq, generation)),
{
    let mut bytes = keys::u64_bytes(sub_id);
    let mut second = keys::u64_bytes(seq);
    let mut third = keys::u64_bytes(generation);
    bytes.append(&mut second);
    bytes.append(&mut third);
    proof {
        law_ack_bytes_round_trip(sub_id, seq, generation);
    }
    base64url_encode(&bytes)
}

/// What the bytes behind an ack id stand for; nothing unless there are exactly 24.
pub fn parse_ack_bytes(bytes: &[u8]) -> (r: Option<(u64, u64, u64)>)
    ensures
        r == ack_bytes_parts(Some(bytes@)),
{
    if bytes.len() != 24 {
        return None;
    }
    let first = keys::decode_u64(vstd::slice::slice_subrange(bytes, 0, 8));
    let second = keys::decode_u64(vstd::slice::slice_subrange(bytes, 8, 16));
    let third = keys::decode_u64(vstd::slice::slice_subrange(bytes, 16, 24));
    match (first, second, third) {
        (Some(sub_id), Some(seq), Some(generation)) => Some((sub_id, seq, generation)),
        _ => None,
    }
}

/// What an ack id stands for; nothing for a text that is not one.
pub fn decode_ack_id(ack_id: &str) -> (r: Option<(u64, u64, u64)>)
    ensures
        r == ack_id_parts(ack_id@),
{
    match base64url_decode(ack_id) {
        Some(bytes) => parse_ack_bytes(bytes.as_slice()),
        None => None,
    }
}

/// Whether an ack id stands for a delivery on a subscription.
pub fn is_on(ack_id: &str, sub_id: u64) -> (r: bool)
    ensures
        r == (ack_id_parts(ack_id@) is Some && (ack_id_parts(ack_id@)->0).0 == sub_id),
{
    match decode_ack_id(ack_id) {
        Some((id, _, _)) => id == sub_id,
        None => false,
    }
}

/// Leases are kept by deadline, then by subscription, then by message.
pub open spec fn lease_before(a: Lease, b: Lease) -> bool {
    ||| a.deadline_ms < b.deadline_ms
    ||| a.deadline_ms == b.deadline_ms && a.sub_id < b.sub_id
    ||| a.deadline_ms == b.deadline_ms && a.sub_id == b.sub_id && a.seq < b.seq
}

/// What an acknowledgement or a change of deadline comes to, given what the ack id stands for.
pub open spec fn lease_named_by(leases: Leases, parts: Option<(u64, u64, u64)>) -> AckOutcome {
    match parts {
        None => AckOutcome::Malformed,
        Some((sub_id, seq, generation)) => if !leases.contains_key((sub_id, seq)) {
            AckOutcome::Unknown
        } else if leases[(sub_id, seq)].generation != generation {
            AckOutcome::StaleGeneration
        } else {
            AckOutcome::Applied(leases[(sub_id, seq)])
        },
    }
}

/// What an ack id names among the leases of one subscription; that of another subscription's
/// delivery names none of them.
pub open spec fn lease_on(
    leases: Leases,
    sub_id: u64,
    parts: Option<(u64, u64, u64)>,
) -> AckOutcome {
    match parts {
        Some((other, _, _)) => if other == sub_id {
            lease_named_by(leases, parts)
        } else {
            AckOutcome::Unknown
        },
        None => AckOutcome::Malformed,
    }
}

/// The leases after an acknowledgement.
pub open spec fn leases_after_ack(leases: Leases, parts: Option<(u64, u64, u64)>) -> Leases {
    match lease_named_by(leases, parts) {
        AckOutcome::Applied(lease) => leases.remove((lease.sub_id, lease.seq)),
        _ => leases,
    }
}

/// The deadline that a change of deadline asks for: now, or `secs` seconds from now, held within
/// the range of the clock.
pub open spec fn new_deadline(now_ms: i64, secs: i32) -> i64 {
    if secs <= 0 {
        now_ms
    } else {
        arith::clamp_i64(now_ms + secs * 1000) as i64
    }
}

/// What a change of deadline comes to, given what the ack id stands for. One to no seconds gives the
/// message back.
pub open spec fn extend_outcome(
    leases: Leases,
    parts: Option<(u64, u64, u64)>,
    now_ms: i64,
    secs: i32,
) -> AckOutcome {
    match lease_named_by(leases, parts) {
        AckOutcome::Applied(lease) => AckOutcome::Applied(
            Lease { deadline_ms: new_deadline(now_ms, secs), given_back: secs <= 0, ..lease },
        ),
        other => other,
    }
}

/// The leases after a change of deadline.
pub open spec fn leases_after_extend(
    leases: Leases,
    parts: Option<(u64, u64, u64)>,
    now_ms: i64,
    secs: i32,
) -> Leases {
    match extend_outcome(leases, parts, now_ms, secs) {
        AckOutcome::Applied(lease) => leases.insert((lease.sub_id, lease.seq), lease),
        _ => leases,
    }
}

spec fn key_of(lease: Lease) -> (u64, u64) {
    (lease.sub_id, lease.seq)
}

spec fn table_map(order: Seq<Lease>) -> Leases
    decreases order.len(),
{
    if order.len() == 0 {
        Map::empty()
    } else {
        table_map(order.drop_last()).insert(key_of(order.last()), order.last())
    }
}

spec fn keys_distinct(order: Seq<Lease>) -> bool {
    forall|i: int, j: int|
        #![trigger order[i], order[j]]
        0 <= i < j < order.len() ==> key_of(order[i]) != key_of(order[j])
}

spec fn by_deadline(order: Seq<Lease>) -> bool {
    forall|i: int, j: int|
        0 <= i < j < order.len() ==> #[trigger] lease_before(order[i], order[j])
}

spec fn holds(order: Seq<Lease>, k: (u64, u64)) -> bool {
    exists|i: int| 0 <= i < order.len() && key_of(#[trigger] order[i]) == k
}

proof fn lemma_table_map(order: Seq<Lease>)
    requires
        keys_distinct(order),
    ensures
        forall|k: (u64, u64)| #[trigger] table_map(order).contains_key(k) <==> holds(order, k),
        forall|i: int|
            0 <= i < order.len() ==> table_map(order)[key_of(#[trigger] order[i])] == order[i],
        table_map(order).dom().finite(),
        table_map(order).len() == order.len(),
    decreases order.len(),
{
    if order.len() > 0 {
        let init = order.drop_last();
        lemma_table_map(init);
        assert forall|k: (u64, u64)| #[trigger]
            table_map(order).contains_key(k) <==> holds(order, k) by {
            assert(table_map(init).contains_key(k) <==> holds(init, k));
            if holds(init, k) {
                let i = choose|i: int| 0 <= i < init.len() && key_of(#[trigger] init[i]) == k;
                assert(key_of(order[i]) == k);
            }
            if k == key_of(order.last()) {
                assert(key_of(order[order.len() - 1]) == k);
            }
            if holds(order, k) {
                let i = choose|i: int| 0 <= i < order.len() && key_of(#[trigger] order[i]) == k;
                if i < init.len() {
                    assert(key_of(init[i]) == k);
                }
            }
        }
        assert forall|i: int| 0 <= i < order.len() implies table_map(order)[key_of(
            #[trigger] order[i],
        )] == order[i] by {
            if i < init.len() {
                assert(init[i] == order[i]);
                assert(key_of(order[i]) != key_of(order[order.len() - 1]));
            }
        }
        assert(!holds(init, key_of(order.last()))) by {
            if holds(init, key_of(order.last())) {
                let i = choose|i: int|
                    0 <= i < init.len() && key_of(#[trigger] init[i]) == key_of(order.last());
                assert(key_of(order[i]) == key_of(order[order.len() - 1]));
            }
        }
        assert(!table_map(init).contains_key(key_of(order.last())));
    }
}

proof fn lemma_table_insert(order: Seq<Lease>, lease: Lease, at: int)
    requires
        keys_distinct(order),
        by_deadline(order),
        !holds(order, key_of(lease)),
        0 <= at <= order.len(),
        forall|i: int| 0 <= i < at ==> lease_before(#[trigger] order[i], lease),
        at < order.len() ==> !lease_before(order[at], lease),
    ensures
        keys_distinct(order.insert(at, lease)),
        by_deadline(order.insert(at, lease)),
        table_map(order.insert(at, lease)) == table_map(order).insert(key_of(lease), lease),
{
    let after = order.insert(at, lease);
    assert forall|i: int| at <= i < order.len() implies lease_before(lease, #[trigger] order[i]) by {
        assert(key_of(order[at]) != key_of(lease));
        if i > at {
            assert(lease_before(order[at], order[i]));
        }
    }
    assert forall|i: int, j: int| 0 <= i < j < after.len() implies #[trigger] lease_before(
        after[i],
        after[j],
    ) by {
        let a = if i < at { i } else { i - 1 };
        let b = if j < at { j } else { j - 1 };
        if i != at && j != at {
            assert(after[i] == order[a] && after[j] == order[b]);
            assert(lease_before(order[a], order[b]));
        } else if i == at {
            assert(after[j] == order[b]);
        } else {
            assert(after[i] == order[a]);
        }
    }
    assert forall|i: int, j: int|
        #![trigger after[i], after[j]]
        0 <= i < j < after.len() implies key_of(after[i]) != key_of(after[j]) by {
        let a = if i < at { i } else { i - 1 };
        let b = if j < at { j } else { j - 1 };
        if i != at && j != at {
            assert(after[i] == order[a] && after[j] == order[b]);
        } else if i == at {
            assert(after[j] == order[b]);
        } else {
            assert(after[i] == order[a]);
        }
    }
    lemma_table_map(order);
    lemma_table_map(after);
    let expected = table_map(order).insert(key_of(lease), lease);
    assert forall|k: (u64, u64)| #[trigger]
        table_map(after).contains_key(k) <==> expected.contains_key(k) by {
        if holds(after, k) {
            let i = choose|i: int| 0 <= i < after.len() && key_of(#[trigger] after[i]) == k;
            let a = if i < at { i } else { i - 1 };
            if i != at {
                assert(after[i] == order[a]);
                assert(holds(order, k));
            }
        }
        if holds(order, k) {
            let i = choose|i: int| 0 <= i < order.len() && key_of(#[trigger] order[i]) == k;
            let a = if i < at { i } else { i + 1 };
            assert(after[a] == order[i]);
        }
        assert(key_of(after[at]) == key_of(lease));
    }
    assert forall|k: (u64, u64)| table_map(after).contains_key(k) implies #[trigger]
        table_map(after)[k] == expected[k] by {
        let i = choose|i: int| 0 <= i < after.len() && key_of(#[trigger] after[i]) == k;
        let a = if i < at { i } else { i - 1 };
        assert(table_map(after)[key_of(after[i])] == after[i]);
        if i != at {
            assert(after[i] == order[a]);
            assert(table_map(order)[key_of(order[a])] == order[a]);
        }
    }
    assert(table_map(after) =~= expected);
}

proof fn lemma_table_remove(order: Seq<Lease>, at: int)
    requires
        keys_distinct(order),
        by_deadline(order),
        0 <= at < order.len(),
    ensures
        keys_distinct(order.remove(at)),
        by_deadline(order.remove(at)),
        table_map(order.remove(at)) == table_map(order).remove(key_of(order[at])),
        !holds(order.remove(at), key_of(order[at])),
{
    let after = order.remove(at);
    assert forall|i: int, j: int| 0 <= i < j < after.len() implies #[trigger] lease_before(
        after[i],
        after[j],
    ) by {
        let a = if i < at { i } else { i + 1 };
        let b = if j < at { j } else { j + 1 };
        assert(after[i] == order[a] && after[j] == order[b]);
        assert(lease_before(order[a], order[b]));
    }
    assert forall|i: int, j: int|
        #![trigger after[i], after[j]]
        0 <= i < j < after.len() implies key_of(after[i]) != key_of(after[j]) by {
        let a = if i < at { i } else { i + 1 };
        let b = if j < at { j } else { j + 1 };
        assert(after[i] == order[a] && after[j] == order[b]);
    }
    lemma_table_map(order);
    lemma_table_map(after);
    let expected = table_map(order).remove(key_of(order[at]));
    assert(!holds(after, key_of(order[at]))) by {
        if holds(after, key_of(order[at])) {
            let i = choose|i: int|
                0 <= i < after.len() && key_of(#[trigger] after[i]) == key_of(order[at]);
            let a = if i < at { i } else { i + 1 };
            assert(after[i] == order[a]);
            assert(key_of(order[a]) != key_of(order[at]));
        }
    }
    assert forall|k: (u64, u64)| #[trigger]
        table_map(after).contains_key(k) <==> expected.contains_key(k) by {
        if holds(after, k) {
            let i = choose|i: int| 0 <= i < after.len() && key_of(#[trigger] after[i]) == k;
            let a = if i < at { i } else { i + 1 };
            assert(after[i] == order[a]);
            assert(holds(order, k));
        }
        if expected.contains_key(k) {
            let i = choose|i: int| 0 <= i < order.len() && key_of(#[trigger] order[i]) == k;
            let a = if i < at { i } else { i - 1 };
            assert(after[a] == order[i]);
        }
    }
    assert forall|k: (u64, u64)| table_map(after).contains_key(k) implies #[trigger]
        table_map(after)[k] == expected[k] by {
        let i = choose|i: int| 0 <= i < after.len() && key_of(#[trigger] after[i]) == k;
        let a = if i < at { i } else { i + 1 };
        assert(after[i] == order[a]);
        assert(table_map(after)[key_of(after[i])] == after[i]);
        assert(table_map(order)[key_of(order[a])] == order[a]);
    }
    assert(table_map(after) =~= expected);
}

/// Every lease that is out, ordered by deadline.
#[derive(Debug)]
pub struct LeaseTable {
    order: Vec<Lease>,
}

impl View for LeaseTable {
    type V = Leases;

    closed spec fn view(&self) -> Leases {
        table_map(self.order@)
    }
}

impl LeaseTable {
    #[verifier::type_invariant]
    spec fn consistent(self) -> bool {
        keys_distinct(self.order@) && by_deadline(self.order@)
    }

    /// A table without leases.
    pub fn new() -> (t: Self)
        ensures
            t@ == Leases::empty(),
    {
        LeaseTable { order: Vec::new() }
    }

    /// The number of leases. Each is filed under its own subscription and message.
    pub fn len(&self) -> (n: usize)
        ensures
            self@.dom().finite(),
            n == self@.len(),
            filed_by_key(self@),
    {
        proof {
            use_type_invariant(self);
            lemma_table_map(self.order@);
            assert forall|k: (u64, u64)| #[trigger] self@.contains_key(k) implies (
                self@[k].sub_id,
                self@[k].seq,
            ) == k by {
                let i = choose|i: int|
                    0 <= i < self.order@.len() && key_of(#[trigger] self.order@[i]) == k;
                assert(table_map(self.order@)[key_of(self.order@[i])] == self.order@[i]);
            }
        }
        self.order.len()
    }

    /// Whether there are no leases.
    pub fn is_empty(&self) -> (r: bool)
        ensures
            r == (self@ == Leases::empty()),
    {
        proof {
            use_type_invariant(self);
            lemma_table_map(self.order@);
            if self.order@.len() > 0 {
                assert(key_of(self.order@[0]) == key_of(self.order@[0]));
                assert(holds(self.order@, key_of(self.order@[0])));
                assert(self@.contains_key(key_of(self.order@[0])));
            } else {
                assert(self@ =~= Leases::empty());
            }
        }
        self.order.len() == 0
    }

    fn position(&self, sub_id: u64, seq: u64) -> (r: Option<usize>)
        ensures
            match r {
                Some(i) => i < self.order.len() && key_of(self.order@[i as int]) == (sub_id, seq),
                None => !holds(self.order@, (sub_id, seq)),
            },
    {
        let mut i: usize = 0;
        while i < self.order.len()
            invariant
                i <= self.order.len(),
                forall|j: int| 0 <= j < i ==> key_of(#[trigger] self.order@[j]) != (sub_id, seq),
            decreases self.order.len() - i,
        {
            if self.order[i].sub_id == sub_id && self.order[i].seq == seq {
                return Some(i);
            }
            i = i + 1;
        }
        None
    }

    /// The lease of a message, if it is out.
    pub fn get(&self, sub_id: u64, seq: u64) -> (r: Option<Lease>)
        ensures
            match r {
                Some(lease) => {
                    &&& self@.contains_key((sub_id, seq))
                    &&& lease == self@[(sub_id, seq)]
                    &&& lease.sub_id == sub_id
                    &&& lease.seq == seq
                },
                None => !self@.contains_key((sub_id, seq)),
            },
    {
        proof {
            use_type_invariant(self);
            lemma_table_map(self.order@);
        }
        match self.position(sub_id, seq) {
            Some(i) => {
                assert(holds(self.order@, (sub_id, seq)));
                assert(table_map(self.order@)[key_of(self.order@[i as int])] == self.order@[i as int]);
                Some(self.order[i])
            },
            None => None,
        }
    }

    /// Puts a lease into the table, in place of the one that its message has.
    pub fn put(&mut self, lease: Lease)
        ensures
            final(self)@ == old(self)@.insert((lease.sub_id, lease.seq), lease),
    {
        let _ = self.remove(lease.sub_id, lease.seq);
        proof {
            use_type_invariant(&*self);
            lemma_table_map(self.order@);
            assert(!table_map(self.order@).contains_key(key_of(lease)));
            assert(self@.insert(key_of(lease), lease) =~= old(self)@.insert(key_of(lease), lease));
        }
        let mut taken = LeaseTable::new();
        core::mem::swap(self, &mut taken);
        let mut order = taken.order;
        let mut at: usize = 0;
        while at < order.len() && (order[at].deadline_ms < lease.deadline_ms || (
        order[at].deadline_ms == lease.deadline_ms && (order[at].sub_id < lease.sub_id || (
        order[at].sub_id == lease.sub_id && order[at].seq < lease.seq))))
            invariant
                at <= order.len(),
                forall|i: int| 0 <= i < at ==> lease_before(#[trigger] order@[i], lease),
            decreases order.len() - at,
        {
            at = at + 1;
        }
        proof {
            lemma_table_insert(order@, lease, at as int);
        }
        order.insert(at, lease);
        *self = LeaseTable { order };
    }

    /// Leases a message, in place of the lease that it has, and returns the ack id.
    pub fn insert(
        &mut self,
        sub_id: u64,
        seq: u64,
        deadline_ms: i64,
        attempts: u32,
        generation: u64,
    ) -> (ack_id: String)
        ensures
            final(self)@ == old(self)@.insert(
                (sub_id, seq),
                (Lease {
                    sub_id,
                    seq,
                    deadline_ms,
                    attempts,
                    generation,
                    given_back: false,
                }),
            ),
            ack_id@ == ack_id_text(sub_id, seq, generation),
            ack_id_parts(ack_id@) == Some((sub_id, seq, generation)),
    {
        self.put(Lease { sub_id, seq, deadline_ms, attempts, generation, given_back: false });
        encode_ack_id(sub_id, seq, generation)
    }

    /// Removes the lease of a message, if it is out, and returns it.
    pub fn remove(&mut self, sub_id: u64, seq: u64) -> (r: Option<Lease>)
        ensures
            final(self)@ == old(self)@.remove((sub_id, seq)),
            match r {
                Some(lease) => {
                    &&& old(self)@.contains_key((sub_id, seq))
                    &&& lease == old(self)@[(sub_id, seq)]
                    &&& lease.sub_id == sub_id
                    &&& lease.seq == seq
                },
                None => !old(self)@.contains_key((sub_id, seq)),
            },
    {
        proof {
            use_type_invariant(&*self);
            lemma_table_map(self.order@);
        }
        match self.position(sub_id, seq) {
            Some(i) => {
                assert(holds(self.order@, (sub_id, seq)));
                assert(table_map(self.order@)[key_of(self.order@[i as int])] == self.order@[i as int]);
                let mut taken = LeaseTable::new();
                core::mem::swap(self, &mut taken);
                let mut order = taken.order;
                proof {
                    lemma_table_remove(order@, i as int);
                }
                let lease = order.remove(i);
                *self = LeaseTable { order };
                Some(lease)
            },
            None => {
                assert(self@.remove((sub_id, seq)) =~= self@);
                None
            },
        }
    }

    /// Acknowledges the delivery that `ack_id` stands for: its lease is removed when it is there
    /// at this generation, and nothing changes otherwise.
    pub fn ack(&mut self, ack_id: &str) -> (r: AckOutcome)
        ensures
            r == lease_named_by(old(self)@, ack_id_parts(ack_id@)),
            final(self)@ == leases_after_ack(old(self)@, ack_id_parts(ack_id@)),
            r matches AckOutcome::Applied(lease) ==> ack_id_parts(ack_id@) == Some(
                (lease.sub_id, lease.seq, lease.generation),
            ),
    {
        let (sub_id, seq, generation) = match decode_ack_id(ack_id) {
            Some(parts) => parts,
            None => {
                return AckOutcome::Malformed;
            },
        };
        match self.get(sub_id, seq) {
            None => AckOutcome::Unknown,
            Some(lease) => if lease.generation != generation {
                AckOutcome::StaleGeneration
            } else {
                let _ = self.remove(sub_id, seq);
                AckOutcome::Applied(lease)
            },
        }
    }

    /// Moves the deadline of the delivery that `ack_id` stands for to `secs` seconds from now. A
    /// number that is not positive gives the message back: the deadline is now. Nothing changes
    /// unless its lease is there at this generation.
    pub fn extend(&mut self, ack_id: &str, now_ms: i64, secs: i32) -> (r: AckOutcome)
        ensures
            r == extend_outcome(old(self)@, ack_id_parts(ack_id@), now_ms, secs),
            final(self)@ == leases_after_extend(
                old(self)@,
                ack_id_parts(ack_id@),
                now_ms,
                secs,
            ),
            r matches AckOutcome::Applied(lease) ==> ack_id_parts(ack_id@) == Some(
                (lease.sub_id, lease.seq, lease.generation),
            ),
    {
        let (sub_id, seq, generation) = match decode_ack_id(ack_id) {
            Some(parts) => parts,
            None => {
                return AckOutcome::Malformed;
            },
        };
        match self.get(sub_id, seq) {
            None => AckOutcome::Unknown,
            Some(lease) => if lease.generation != generation {
                AckOutcome::StaleGeneration
            } else {
                let deadline_ms: i64 = if secs <= 0 {
                    now_ms
                } else {
                    arith::saturating_add(now_ms, secs as i64 * 1000)
                };
                let moved = Lease { deadline_ms, given_back: secs <= 0, ..lease };
                self.put(moved);
                AckOutcome::Applied(moved)
            },
        }
    }

    /// Gives a message back, if it is out: the deadline of its lease is now. Returns the lease.
    pub fn nack_now(&mut self, sub_id: u64, seq: u64, now_ms: i64) -> (r: Option<Lease>)
        ensures
            match r {
                Some(lease) => {
                    &&& old(self)@.contains_key((sub_id, seq))
                    &&& lease == (Lease {
                        deadline_ms: now_ms,
                        given_back: true,
                        ..old(self)@[(sub_id, seq)]
                    })
                    &&& final(self)@ == old(self)@.insert((sub_id, seq), lease)
                },
                None => !old(self)@.contains_key((sub_id, seq)) && final(self)@ == old(self)@,
            },
    {
        match self.get(sub_id, seq) {
            None => None,
            Some(lease) => {
                let moved = Lease { deadline_ms: now_ms, given_back: true, ..lease };
                self.put(moved);
                Some(moved)
            },
        }
    }

    /// Removes every lease whose deadline is not after `now_ms` and returns them, ordered by
    /// deadline, then by subscription, then by message.
    pub fn expire_up_to(&mut self, now_ms: i64) -> (r: Vec<ExpiredLease>)
        ensures
            is_expiry(old(self)@, now_ms, r@),
            final(self)@ == old(self)@.remove_keys(expired_keys(old(self)@, now_ms)),
    {
        proof {
            use_type_invariant(&*self);
        }
        let ghost all = self.order@;
        let mut taken = LeaseTable::new();
        core::mem::swap(self, &mut taken);
        let order = taken.order;
        let mut out: Vec<ExpiredLease> = Vec::new();
        let mut i: usize = 0;
        while i < order.len() && order[i].deadline_ms <= now_ms
            invariant
                i <= order.len(),
                order@ == all,
                out.len() == i,
                forall|j: int| 0 <= j < i ==> (#[trigger] all[j]).deadline_ms <= now_ms,
                forall|j: int| 0 <= j < i ==> #[trigger] out@[j] == expired_of(all[j]),
            decreases order.len() - i,
        {
            let lease = order[i];
            out.push(
                ExpiredLease {
                    sub_id: lease.sub_id,
                    seq: lease.seq,
                    attempts: lease.attempts,
                    generation: lease.generation,
                },
            );
            i = i + 1;
        }
        let mut rest: Vec<Lease> = Vec::new();
        let mut j: usize = i;
        while j < order.len()
            invariant
                i <= j <= order.len(),
                order@ == all,
                rest@ == all.subrange(i as int, j as int),
            decreases order.len() - j,
        {
            rest.push(order[j]);
            j = j + 1;
            assert(all.subrange(i as int, j as int) =~= all.subrange(i as int, j - 1).push(all[j - 1]));
        }
        proof {
            lemma_split_at_deadline(all, now_ms, i as int, out@);
            assert(all.subrange(i as int, all.len() as int) =~= all.skip(i as int));
        }
        *self = LeaseTable { order: rest };
        out
    }

    /// Every lease whose deadline is not after `now_ms`, each once.
    pub fn due(&self, now_ms: i64) -> (r: Vec<Lease>)
        ensures
            forall|i: int|
                0 <= i < r@.len() ==> {
                    let k = ((#[trigger] r@[i]).sub_id, r@[i].seq);
                    expired_keys(self@, now_ms).contains(k) && r@[i] == self@[k]
                },
            forall|i: int, j: int|
                #![trigger r@[i], r@[j]]
                0 <= i < j < r@.len() ==> (r@[i].sub_id, r@[i].seq) != (r@[j].sub_id, r@[j].seq),
            forall|k: (u64, u64)| #[trigger]
                expired_keys(self@, now_ms).contains(k) ==> exists|i: int|
                    0 <= i < r@.len() && ((#[trigger] r@[i]).sub_id, r@[i].seq) == k,
    {
        proof {
            use_type_invariant(self);
            lemma_table_map(self.order@);
        }
        let ghost all = self.order@;
        let mut out: Vec<Lease> = Vec::new();
        let mut i: usize = 0;
        while i < self.order.len() && self.order[i].deadline_ms <= now_ms
            invariant
                i <= self.order.len(),
                self.order@ == all,
                out@ == all.take(i as int),
                forall|j: int| 0 <= j < i ==> (#[trigger] all[j]).deadline_ms <= now_ms,
            decreases self.order.len() - i,
        {
            out.push(self.order[i]);
            i = i + 1;
            assert(out@ =~= all.take(i as int));
        }
        proof {
            assert forall|j: int| 0 <= j < out@.len() implies {
                let k = ((#[trigger] out@[j]).sub_id, out@[j].seq);
                expired_keys(self@, now_ms).contains(k) && out@[j] == self@[k]
            } by {
                assert(out@[j] == all[j]);
                assert(table_map(all)[key_of(all[j])] == all[j]);
                assert(holds(all, key_of(all[j])));
            }
            assert forall|j: int, m: int|
                #![trigger out@[j], out@[m]]
                0 <= j < m < out@.len() implies (out@[j].sub_id, out@[j].seq) != (
                out@[m].sub_id,
                out@[m].seq,
            ) by {
                assert(key_of(all[j]) != key_of(all[m]));
            }
            assert forall|k: (u64, u64)| #[trigger]
                expired_keys(self@, now_ms).contains(k) implies exists|j: int|
                0 <= j < out@.len() && ((#[trigger] out@[j]).sub_id, out@[j].seq) == k by {
                assert(table_map(all).contains_key(k));
                let j = choose|j: int| 0 <= j < all.len() && key_of(#[trigger] all[j]) == k;
                assert(table_map(all)[key_of(all[j])] == all[j]);
                if j >= i {
                    if j > i {
                        assert(lease_before(all[i as int], all[j]));
                    }
                }
                assert((out@[j].sub_id, out@[j].seq) == k);
            }
        }
        out
    }

    /// Removes every lease of a subscription and returns their messages, each once.
    pub fn remove_all_for_subscription(&mut self, sub_id: u64) -> (r: Vec<u64>)
        ensures
            final(self)@ == old(self)@.remove_keys(keys_of_subscription(old(self)@, sub_id)),
            r@.no_duplicates(),
            forall|seq: u64| #[trigger] r@.contains(seq) <==> old(self)@.contains_key((sub_id, seq)),
    {
        proof {
            use_type_invariant(&*self);
        }
        let ghost all = self.order@;
        let mut taken = LeaseTable::new();
        core::mem::swap(self, &mut taken);
        let order = taken.order;
        let mut out: Vec<u64> = Vec::new();
        let mut rest: Vec<Lease> = Vec::new();
        let mut i: usize = 0;
        assert(all.take(0) =~= Seq::<Lease>::empty());
        proof {
            lemma_filter_empty(sub_id);
        }
        while i < order.len()
            invariant
                i <= order.len(),
                order@ == all,
                rest@ == all.take(i as int).filter(|l: Lease| l.sub_id != sub_id),
                forall|seq: u64| #[trigger]
                    out@.contains(seq) <==> holds(all.take(i as int), (sub_id, seq)),
                out@.no_duplicates(),
                keys_distinct(all),
            decreases order.len() - i,
        {
            let lease = order[i];
            proof {
                let head = all.take(i as int);
                assert(all.take(i + 1) =~= head.push(lease));
                lemma_filter_push(head, lease, sub_id);
                lemma_holds_push(head, lease);
                if lease.sub_id == sub_id {
                    assert(!holds(head, (sub_id, lease.seq))) by {
                        if holds(head, (sub_id, lease.seq)) {
                            let k = choose|k: int|
                                0 <= k < head.len() && key_of(#[trigger] head[k]) == (
                                    sub_id,
                                    lease.seq,
                                );
                            assert(key_of(all[k]) != key_of(all[i as int]));
                        }
                    }
                    assert(!out@.contains(lease.seq));
                }
            }
            if lease.sub_id == sub_id {
                let ghost before = out@;
                out.push(lease.seq);
                proof {
                    assert forall|seq: u64| #[trigger] out@.contains(seq) <==> before.contains(seq)
                        || seq == lease.seq by {
                        if before.contains(seq) {
                            let k = before.index_of(seq);
                            assert(out@[k] == seq);
                        }
                        assert(out@[before.len() as int] == lease.seq);
                    }
                }
            } else {
                rest.push(lease);
            }
            i = i + 1;
        }
        proof {
            assert(all.take(i as int) =~= all);
            lemma_filter_table(all, sub_id);
            lemma_table_map(all);
        }
        *self = LeaseTable { order: rest };
        out
    }
}

proof fn lemma_filter_empty(sub_id: u64)
    ensures
        Seq::<Lease>::empty().filter(|l: Lease| l.sub_id != sub_id) == Seq::<Lease>::empty(),
{
    reveal(Seq::filter);
}

proof fn lemma_filter_push(head: Seq<Lease>, lease: Lease, sub_id: u64)
    ensures
        head.push(lease).filter(|l: Lease| l.sub_id != sub_id) == if lease.sub_id != sub_id {
            head.filter(|l: Lease| l.sub_id != sub_id).push(lease)
        } else {
            head.filter(|l: Lease| l.sub_id != sub_id)
        },
{
    reveal(Seq::filter);
    assert(head.push(lease).drop_last() =~= head);
}

proof fn lemma_holds_push(head: Seq<Lease>, lease: Lease)
    ensures
        forall|k: (u64, u64)| #[trigger]
            holds(head.push(lease), k) <==> holds(head, k) || k == key_of(lease),
{
    assert forall|k: (u64, u64)| #[trigger]
        holds(head.push(lease), k) <==> holds(head, k) || k == key_of(lease) by {
        if holds(head, k) {
            let i = choose|i: int| 0 <= i < head.len() && key_of(#[trigger] head[i]) == k;
            assert(head.push(lease)[i] == head[i]);
        }
        if k == key_of(lease) {
            assert(key_of(head.push(lease)[head.len() as int]) == k);
        }
        if holds(head.push(lease), k) {
            let i = choose|i: int|
                0 <= i < head.push(lease).len() && key_of(#[trigger] head.push(lease)[i]) == k;
            if i < head.len() {
                assert(key_of(head[i]) == k);
            }
        }
    }
}

proof fn lemma_filter_table(order: Seq<Lease>, sub_id: u64)
    requires
        keys_distinct(order),
        by_deadline(order),
    ensures
        ({
            let rest = order.filter(|l: Lease| l.sub_id != sub_id);
            &&& keys_distinct(rest)
            &&& by_deadline(rest)
            &&& table_map(rest) == table_map(order).remove_keys(
                keys_of_subscription(table_map(order), sub_id),
            )
            &&& forall|l: Lease| #[trigger] rest.contains(l) ==> order.contains(l)
        }),
    decreases order.len(),
{
    reveal(Seq::filter);
    let rest = order.filter(|l: Lease| l.sub_id != sub_id);
    if order.len() == 0 {
        assert(table_map(rest) =~= table_map(order).remove_keys(
            keys_of_subscription(table_map(order), sub_id),
        ));
    } else {
        let init = order.drop_last();
        let lease = order.last();
        let kept = init.filter(|l: Lease| l.sub_id != sub_id);
        lemma_filter_table(init, sub_id);
        lemma_table_map(init);
        lemma_table_map(order);
        if lease.sub_id != sub_id {
            assert(rest == kept.push(lease));
            assert(rest.drop_last() =~= kept);
            assert forall|i: int, j: int|
                #![trigger rest[i], rest[j]]
                0 <= i < j < rest.len() implies key_of(rest[i]) != key_of(rest[j]) && lease_before(
                rest[i],
                rest[j],
            ) by {
                assert(rest[i] == kept[i]);
                if j < kept.len() {
                    assert(rest[j] == kept[j]);
                    assert(lease_before(kept[i], kept[j]));
                } else {
                    assert(kept.contains(kept[i]));
                    assert(init.contains(kept[i]));
                    let k = init.index_of(kept[i]);
                    assert(order[k] == kept[i]);
                    assert(lease_before(order[k], order[order.len() - 1]));
                }
            }
            assert forall|l: Lease| #[trigger] rest.contains(l) implies order.contains(l) by {
                let i = rest.index_of(l);
                if i < kept.len() {
                    assert(kept[i] == l);
                    assert(kept.contains(l));
                    let k = init.index_of(l);
                    assert(order[k] == l);
                } else {
                    assert(order[order.len() - 1] == l);
                }
            }
        } else {
            assert(rest == kept);
            assert forall|l: Lease| #[trigger] rest.contains(l) implies order.contains(l) by {
                let k = init.index_of(l);
                assert(order[k] == l);
            }
        }
        assert(table_map(rest) =~= table_map(order).remove_keys(
            keys_of_subscription(table_map(order), sub_id),
        ));
    }
}

/// What is reported of a lease that ran out.
pub open spec fn expired_of(lease: Lease) -> ExpiredLease {
    ExpiredLease {
        sub_id: lease.sub_id,
        seq: lease.seq,
        attempts: lease.attempts,
        generation: lease.generation,
    }
}

/// The leases whose deadline is not after `now_ms`.
pub open spec fn expired_keys(leases: Leases, now_ms: i64) -> Set<(u64, u64)> {
    Set::new(|k: (u64, u64)| leases.contains_key(k) && leases[k].deadline_ms <= now_ms)
}

/// The leases of a subscription.
pub open spec fn keys_of_subscription(leases: Leases, sub_id: u64) -> Set<(u64, u64)> {
    Set::new(|k: (u64, u64)| leases.contains_key(k) && k.0 == sub_id)
}

/// `r` reports each lease whose deadline is not after `now_ms`, ordered by deadline, then by
/// subscription, then by message.
pub open spec fn is_expiry(leases: Leases, now_ms: i64, r: Seq<ExpiredLease>) -> bool {
    &&& forall|i: int|
        0 <= i < r.len() ==> {
            let k = ((#[trigger] r[i]).sub_id, r[i].seq);
            expired_keys(leases, now_ms).contains(k) && r[i] == expired_of(leases[k])
        }
    &&& forall|i: int, j: int|
        #![trigger r[i], r[j]]
        0 <= i < j < r.len() ==> lease_before(
            leases[(r[i].sub_id, r[i].seq)],
            leases[(r[j].sub_id, r[j].seq)],
        )
    &&& forall|k: (u64, u64)| #[trigger]
        expired_keys(leases, now_ms).contains(k) ==> exists|i: int|
            0 <= i < r.len() && ((#[trigger] r[i]).sub_id, r[i].seq) == k
}

proof fn lemma_split_at_deadline(all: Seq<Lease>, now_ms: i64, n: int, out: Seq<ExpiredLease>)
    requires
        keys_distinct(all),
        by_deadline(all),
        0 <= n <= all.len(),
        out.len() == n,
        forall|j: int| 0 <= j < n ==> (#[trigger] all[j]).deadline_ms <= now_ms,
        n < all.len() ==> all[n].deadline_ms > now_ms,
        forall|j: int| 0 <= j < n ==> #[trigger] out[j] == expired_of(all[j]),
    ensures
        is_expiry(table_map(all), now_ms, out),
        keys_distinct(all.skip(n)),
        by_deadline(all.skip(n)),
        table_map(all.skip(n)) == table_map(all).remove_keys(expired_keys(table_map(all), now_ms)),
{
    let leases = table_map(all);
    let rest = all.skip(n);
    lemma_table_map(all);
    assert forall|i: int| n <= i < all.len() implies (#[trigger] all[i]).deadline_ms > now_ms by {
        if i > n {
            assert(lease_before(all[n], all[i]));
        }
    }
    assert forall|i: int, j: int| 0 <= i < j < rest.len() implies #[trigger] lease_before(
        rest[i],
        rest[j],
    ) by {
        assert(lease_before(all[n + i], all[n + j]));
    }
    assert forall|i: int, j: int|
        #![trigger rest[i], rest[j]]
        0 <= i < j < rest.len() implies key_of(rest[i]) != key_of(rest[j]) by {
        assert(rest[i] == all[n + i] && rest[j] == all[n + j]);
    }
    lemma_table_map(rest);
    assert forall|i: int| 0 <= i < out.len() implies {
        let k = ((#[trigger] out[i]).sub_id, out[i].seq);
        expired_keys(leases, now_ms).contains(k) && out[i] == expired_of(leases[k])
    } by {
        assert(leases[key_of(all[i])] == all[i]);
        assert(holds(all, key_of(all[i])));
        assert(leases.contains_key(key_of(all[i])));
    }
    assert forall|i: int, j: int|
        #![trigger out[i], out[j]]
        0 <= i < j < out.len() implies lease_before(
        leases[(out[i].sub_id, out[i].seq)],
        leases[(out[j].sub_id, out[j].seq)],
    ) by {
        assert(leases[key_of(all[i])] == all[i]);
        assert(leases[key_of(all[j])] == all[j]);
        assert(lease_before(all[i], all[j]));
    }
    assert forall|k: (u64, u64)| #[trigger]
        expired_keys(leases, now_ms).contains(k) implies exists|i: int|
        0 <= i < out.len() && ((#[trigger] out[i]).sub_id, out[i].seq) == k by {
        assert(holds(all, k));
        let i = choose|i: int| 0 <= i < all.len() && key_of(#[trigger] all[i]) == k;
        assert(leases[key_of(all[i])] == all[i]);
        assert(i < n);
        assert((out[i].sub_id, out[i].seq) == k);
    }
    let expected = leases.remove_keys(expired_keys(leases, now_ms));
    assert forall|k: (u64, u64)| #[trigger]
        table_map(rest).contains_key(k) <==> expected.contains_key(k) by {
        if holds(rest, k) {
            let i = choose|i: int| 0 <= i < rest.len() && key_of(#[trigger] rest[i]) == k;
            assert(rest[i] == all[n + i]);
            assert(key_of(all[n + i]) == k);
            assert(holds(all, k));
            assert(leases[key_of(all[n + i])] == all[n + i]);
        }
        if expected.contains_key(k) {
            let i = choose|i: int| 0 <= i < all.len() && key_of(#[trigger] all[i]) == k;
            assert(leases[key_of(all[i])] == all[i]);
            assert(i >= n);
            assert(rest[i - n] == all[i]);
        }
    }
    assert forall|k: (u64, u64)| table_map(rest).contains_key(k) implies #[trigger]
        table_map(rest)[k] == expected[k] by {
        let i = choose|i: int| 0 <= i < rest.len() && key_of(#[trigger] rest[i]) == k;
        assert(rest[i] == all[n + i]);
        assert(table_map(rest)[key_of(rest[i])] == rest[i]);
        assert(leases[key_of(all[n + i])] == all[n + i]);
    }
    assert(table_map(rest) =~= expected);
}

/// Acknowledging twice changes no more than acknowledging once, and the second is not an error.
pub proof fn law_second_ack_changes_nothing(leases: Leases, parts: Option<(u64, u64, u64)>)
    requires
        forall|k: (u64, u64)| #[trigger]
            leases.contains_key(k) ==> (leases[k].sub_id, leases[k].seq) == k,
    ensures
        leases_after_ack(leases_after_ack(leases, parts), parts) == leases_after_ack(leases, parts),
        lease_named_by(leases, parts) is Applied ==> lease_named_by(
            leases_after_ack(leases, parts),
            parts,
        ) == AckOutcome::Unknown,
{
}

/// An acknowledgement or change of deadline of an earlier delivery leaves the lease of the current
/// one as it is.
pub proof fn law_stale_generation_changes_nothing(
    leases: Leases,
    sub_id: u64,
    seq: u64,
    generation: u64,
    now_ms: i64,
    secs: i32,
)
    requires
        leases.contains_key((sub_id, seq)),
        leases[(sub_id, seq)].generation != generation,
    ensures
        leases_after_ack(leases, Some((sub_id, seq, generation))) == leases,
        leases_after_extend(leases, Some((sub_id, seq, generation)), now_ms, secs) == leases,
        lease_named_by(leases, Some((sub_id, seq, generation))) == AckOutcome::StaleGeneration,
{
}

} // verus!
