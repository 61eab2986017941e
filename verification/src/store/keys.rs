//! Big-endian, fixed-width binary keys. Byte-wise order of keys is the numeric order of what they
//! encode, which range scans rely on.

use crate::text;
use vstd::prelude::*;
use vstd::string::*;
use vstd::utf8::*;

verus! {

/// The three kinds of resources that share the name index.
#[derive(Debug, Clone, Copy, PartialEq, Eq, Hash)]
pub enum NameKind {
    /// A topic name.
    Topic,
    /// A subscription name.
    Subscription,
    /// A snapshot name.
    Snapshot,
}

impl NameKind {
    /// The kind's name.
    pub fn to_string(&self) -> (s: String)
        ensures
            s@ == kind_name(*self),
    {
        match self {
            NameKind::Topic => String::from_str("topic"),
            NameKind::Subscription => String::from_str("subscription"),
            NameKind::Snapshot => String::from_str("snapshot"),
        }
    }
}

/// The name of a kind of resource.
pub open spec fn kind_name(kind: NameKind) -> Seq<char> {
    match kind {
        NameKind::Topic => "topic"@,
        NameKind::Subscription => "subscription"@,
        NameKind::Snapshot => "snapshot"@,
    }
}

/// `n` as `width` bytes, most significant first.
pub open spec fn be_bytes(n: nat, width: nat) -> Seq<u8>
    decreases width,
{
    if width == 0 {
        Seq::empty()
    } else {
        be_bytes(n / 256, (width - 1) as nat).push((n % 256) as u8)
    }
}

/// The number whose bytes, most significant first, are `bytes`.
pub open spec fn be_value(bytes: Seq<u8>) -> nat
    decreases bytes.len(),
{
    if bytes.len() == 0 {
        0
    } else {
        be_value(bytes.drop_last()) * 256 + bytes.last() as nat
    }
}

/// 256 to the power `n`.
pub open spec fn pow256(n: nat) -> nat
    decreases n,
{
    if n == 0 {
        1
    } else {
        256 * pow256((n - 1) as nat)
    }
}

/// A `u64` as eight bytes, most significant first.
pub open spec fn be64(n: u64) -> Seq<u8> {
    be_bytes(n as nat, 8)
}

/// What eight bytes encode, and nothing for any other number of bytes.
pub open spec fn from_be64(bytes: Seq<u8>) -> Option<u64> {
    if bytes.len() == 8 {
        Some(be_value(bytes) as u64)
    } else {
        None
    }
}

/// Two numbers, each as eight bytes.
pub open spec fn pair_key(a: u64, b: u64) -> Seq<u8> {
    be64(a) + be64(b)
}

/// What sixteen bytes encode as two numbers, and nothing for any other number of bytes.
pub open spec fn from_pair_key(bytes: Seq<u8>) -> Option<(u64, u64)> {
    if bytes.len() == 16 {
        Some((be_value(bytes.take(8)) as u64, be_value(bytes.skip(8)) as u64))
    } else {
        None
    }
}

/// The start of every key in the name index of `kind`.
pub open spec fn name_prefix(kind: NameKind) -> Seq<u8> {
    match kind {
        NameKind::Topic => encode_utf8("name/t/"@),
        NameKind::Subscription => encode_utf8("name/s/"@),
        NameKind::Snapshot => encode_utf8("name/snap/"@),
    }
}

/// The key under which a topic record is stored.
pub open spec fn topic_key_bytes(topic_id: u64) -> Seq<u8> {
    encode_utf8("t/"@) + be64(topic_id)
}

/// The key under which a subscription record is stored.
pub open spec fn sub_key_bytes(sub_id: u64) -> Seq<u8> {
    encode_utf8("s/"@) + be64(sub_id)
}

/// The key under which a snapshot record is stored.
pub open spec fn snapshot_key_bytes(snap_id: u64) -> Seq<u8> {
    encode_utf8("snap/"@) + be64(snap_id)
}

/// The key under which the id of a named resource is stored.
pub open spec fn name_key_bytes(kind: NameKind, name: Seq<char>) -> Seq<u8> {
    name_prefix(kind) + encode_utf8(name)
}

/// The key of the id counter.
pub open spec fn id_seq_key_bytes() -> Seq<u8> {
    encode_utf8("id_seq"@)
}

/// The key of the counter of leases.
pub open spec fn lease_seq_key_bytes() -> Seq<u8> {
    encode_utf8("lease_seq"@)
}

/// The key of a topic's message counter.
pub open spec fn topic_seq_counter_key_bytes(topic_id: u64) -> Seq<u8> {
    encode_utf8("t/seq/"@) + be64(topic_id)
}

pub(crate) proof fn lemma_be_value_bound(bytes: Seq<u8>)
    ensures
        be_value(bytes) < pow256(bytes.len()),
    decreases bytes.len(),
{
    if bytes.len() > 0 {
        lemma_be_value_bound(bytes.drop_last());
    }
}

pub(crate) proof fn lemma_be_bytes_len(n: nat, width: nat)
    ensures
        be_bytes(n, width).len() == width,
    decreases width,
{
    if width > 0 {
        lemma_be_bytes_len(n / 256, (width - 1) as nat);
    }
}

proof fn lemma_pow256_8()
    ensures
        pow256(8) == 0x1_0000_0000_0000_0000,
{
    reveal_with_fuel(pow256, 9);
}

pub(crate) proof fn lemma_be_value_of_bytes(n: nat, width: nat)
    requires
        n < pow256(width),
    ensures
        be_value(be_bytes(n, width)) == n,
    decreases width,
{
    if width > 0 {
        let head = be_bytes(n / 256, (width - 1) as nat);
        lemma_be_value_of_bytes(n / 256, (width - 1) as nat);
        assert(be_bytes(n, width).drop_last() =~= head);
    }
}

proof fn lemma_be_bytes_of_value(bytes: Seq<u8>)
    ensures
        be_bytes(be_value(bytes), bytes.len()) == bytes,
    decreases bytes.len(),
{
    if bytes.len() > 0 {
        let head = bytes.drop_last();
        lemma_be_bytes_of_value(head);
        assert(be_value(bytes) / 256 == be_value(head));
        assert(be_value(bytes) % 256 == bytes.last() as nat);
        assert(head.push(bytes.last()) =~= bytes);
    } else {
        assert(be_bytes(be_value(bytes), 0) =~= bytes);
    }
}

/// Eight bytes and the number that they encode determine each other.
pub proof fn law_be64_round_trip(n: u64, bytes: Seq<u8>)
    ensures
        be64(n).len() == 8,
        from_be64(be64(n)) == Some(n),
        bytes.len() == 8 ==> be64(from_be64(bytes)->0) == bytes,
{
    lemma_pow256_8();
    lemma_be_bytes_len(n as nat, 8);
    lemma_be_value_of_bytes(n as nat, 8);
    if bytes.len() == 8 {
        lemma_be_value_bound(bytes);
        lemma_be_bytes_of_value(bytes);
    }
}

proof fn lemma_be_bytes_order(a: nat, b: nat, width: nat)
    requires
        a < b < pow256(width),
    ensures
        text::bytes_lt(be_bytes(a, width), be_bytes(b, width)),
    decreases width,
{
    if width > 0 {
        let w = (width - 1) as nat;
        let x = be_bytes(a, width);
        let y = be_bytes(b, width);
        lemma_be_bytes_len(a / 256, w);
        lemma_be_bytes_len(b / 256, w);
        if a / 256 < b / 256 {
            lemma_be_bytes_order(a / 256, b / 256, w);
            let i = choose|i: int|
                #[trigger] text::smaller_at(be_bytes(a / 256, w), be_bytes(b / 256, w), i);
            assert(text::smaller_at(x, y, i));
        } else {
            assert(a % 256 < b % 256);
            assert(text::smaller_at(x, y, w as int));
        }
    }
}

/// The byte-wise order of encoded numbers is their numeric order.
pub proof fn law_be64_order(a: u64, b: u64)
    ensures
        text::bytes_lt(be64(a), be64(b)) <==> a < b,
        be64(a) == be64(b) <==> a == b,
{
    lemma_pow256_8();
    law_be64_round_trip(a, be64(a));
    law_be64_round_trip(b, be64(b));
    if a < b {
        lemma_be_bytes_order(a as nat, b as nat, 8);
    } else if b < a {
        lemma_be_bytes_order(b as nat, a as nat, 8);
        text::lemma_bytes_lt_asymmetric(be64(b), be64(a));
    } else {
        text::lemma_bytes_lt_irreflexive(be64(a));
    }
}

/// A pair key and the two numbers that it encodes determine each other.
pub proof fn law_pair_key_round_trip(a: u64, b: u64, bytes: Seq<u8>)
    ensures
        pair_key(a, b).len() == 16,
        from_pair_key(pair_key(a, b)) == Some((a, b)),
        text::has_prefix(pair_key(a, b), be64(a)),
        from_pair_key(bytes) == Some((a, b)) ==> bytes == pair_key(a, b),
{
    law_be64_round_trip(a, bytes.take(8));
    law_be64_round_trip(b, bytes.skip(8));
    assert(pair_key(a, b).take(8) =~= be64(a));
    assert(pair_key(a, b).skip(8) =~= be64(b));
    if bytes.len() == 16 {
        assert(bytes.take(8) + bytes.skip(8) =~= bytes);
        lemma_be_value_bound(bytes.take(8));
        lemma_be_value_bound(bytes.skip(8));
        lemma_pow256_8();
    }
}

/// A sixteen byte key starts with the encoding of a number exactly when that is its first number.
pub proof fn lemma_pair_key_prefix(bytes: Seq<u8>, a: u64)
    requires
        bytes.len() == 16,
    ensures
        text::has_prefix(bytes, be64(a)) <==> (from_pair_key(bytes)->0).0 == a,
{
    let pair = from_pair_key(bytes)->0;
    law_pair_key_round_trip(pair.0, pair.1, bytes);
    law_be64_round_trip(a, be64(a));
    law_be64_order(pair.0, a);
    law_be64_round_trip(pair.0, be64(pair.0));
    assert(bytes.take(8) =~= be64(pair.0));
}

/// Pair keys are ordered by the first number, and among equal ones by the second.
pub proof fn law_pair_key_order(a: u64, b: u64, c: u64, d: u64)
    ensures
        text::bytes_lt(pair_key(a, b), pair_key(c, d)) <==> (a < c || (a == c && b < d)),
        pair_key(a, b) == pair_key(c, d) <==> a == c && b == d,
{
    law_pair_key_round_trip(a, b, pair_key(a, b));
    law_pair_key_round_trip(c, d, pair_key(c, d));
    if a < c || (a == c && b < d) {
        lemma_pair_key_before(a, b, c, d);
    } else if c < a || (a == c && d < b) {
        lemma_pair_key_before(c, d, a, b);
        text::lemma_bytes_lt_asymmetric(pair_key(c, d), pair_key(a, b));
    } else {
        text::lemma_bytes_lt_irreflexive(pair_key(a, b));
    }
}

proof fn lemma_pair_key_before(a: u64, b: u64, c: u64, d: u64)
    requires
        a < c || (a == c && b < d),
    ensures
        text::bytes_lt(pair_key(a, b), pair_key(c, d)),
{
    let x = pair_key(a, b);
    let y = pair_key(c, d);
    law_be64_round_trip(a, be64(a));
    law_be64_round_trip(b, be64(b));
    law_be64_round_trip(c, be64(c));
    law_be64_round_trip(d, be64(d));
    if a < c {
        law_be64_order(a, c);
        let i = choose|i: int| #[trigger] text::smaller_at(be64(a), be64(c), i);
        assert(i < 8);
        assert(text::smaller_at(x, y, i));
    } else {
        law_be64_order(b, d);
        let i = choose|i: int| #[trigger] text::smaller_at(be64(b), be64(d), i);
        assert(forall|j: int| 0 <= j < 8 ==> x[j] == y[j]);
        assert forall|j: int| 0 <= j < 8 + i implies x[j] == y[j] by {
            if j >= 8 {
                assert(x[j] == be64(b)[j - 8]);
                assert(y[j] == be64(d)[j - 8]);
            }
        }
        assert(x[8 + i] == be64(b)[i]);
        assert(y[8 + i] == be64(d)[i]);
        assert(text::smaller_at(x, y, 8 + i));
    }
}

/// Keys of different names of one kind differ.
pub proof fn law_name_key_injective(kind: NameKind, a: Seq<char>, b: Seq<char>)
    ensures
        name_key_bytes(kind, a) == name_key_bytes(kind, b) <==> a == b,
{
    let p = name_prefix(kind).len() as int;
    assert(name_key_bytes(kind, a).skip(p) =~= encode_utf8(a));
    assert(name_key_bytes(kind, b).skip(p) =~= encode_utf8(b));
    text::lemma_utf8_injective(a, b);
}

pub(crate) proof fn lemma_prefix_bytes()
    ensures
        encode_utf8("t/"@).len() == 2,
        encode_utf8("t/"@)[0] == 116,
        encode_utf8("s/"@).len() == 2,
        encode_utf8("s/"@)[0] == 115,
        encode_utf8("snap/"@).len() == 5,
        encode_utf8("snap/"@)[0] == 115,
        encode_utf8("id_seq"@).len() == 6,
        encode_utf8("id_seq"@)[0] == 105,
        encode_utf8("lease_seq"@).len() == 9,
        encode_utf8("lease_seq"@)[0] == 108,
        encode_utf8("t/seq/"@).len() == 6,
        encode_utf8("t/seq/"@)[0] == 116,
        encode_utf8("name/t/"@).len() == 7,
        encode_utf8("name/t/"@)[0] == 110,
        encode_utf8("name/t/"@)[5] == 116,
        encode_utf8("name/s/"@).len() == 7,
        encode_utf8("name/s/"@)[0] == 110,
        encode_utf8("name/s/"@)[5] == 115,
        encode_utf8("name/s/"@)[6] == 47,
        encode_utf8("name/snap/"@).len() == 10,
        encode_utf8("name/snap/"@)[0] == 110,
        encode_utf8("name/snap/"@)[5] == 115,
        encode_utf8("name/snap/"@)[6] == 110,
{
    reveal_strlit("t/");
    reveal_strlit("s/");
    reveal_strlit("snap/");
    reveal_strlit("id_seq");
    reveal_strlit("lease_seq");
    reveal_strlit("t/seq/");
    reveal_strlit("name/t/");
    reveal_strlit("name/s/");
    reveal_strlit("name/snap/");
    vstd::utf8::is_ascii_chars_encode_utf8("t/"@);
    vstd::utf8::is_ascii_chars_encode_utf8("s/"@);
    vstd::utf8::is_ascii_chars_encode_utf8("snap/"@);
    vstd::utf8::is_ascii_chars_encode_utf8("id_seq"@);
    vstd::utf8::is_ascii_chars_encode_utf8("lease_seq"@);
    vstd::utf8::is_ascii_chars_encode_utf8("t/seq/"@);
    vstd::utf8::is_ascii_chars_encode_utf8("name/t/"@);
    vstd::utf8::is_ascii_chars_encode_utf8("name/s/"@);
    vstd::utf8::is_ascii_chars_encode_utf8("name/snap/"@);
}

/// The keys of the id counter, of the counter of leases, of records of the three kinds, of message
/// counters and of names are all different.
pub proof fn law_kinds_of_keys_differ(a: u64, b: u64, kind: NameKind, name: Seq<char>)
    ensures
        topic_key_bytes(a) != sub_key_bytes(b),
        topic_key_bytes(a) != snapshot_key_bytes(b),
        topic_key_bytes(a) != topic_seq_counter_key_bytes(b),
        topic_key_bytes(a) != id_seq_key_bytes(),
        topic_key_bytes(a) != name_key_bytes(kind, name),
        sub_key_bytes(a) != snapshot_key_bytes(b),
        sub_key_bytes(a) != topic_seq_counter_key_bytes(b),
        sub_key_bytes(a) != id_seq_key_bytes(),
        sub_key_bytes(a) != name_key_bytes(kind, name),
        snapshot_key_bytes(a) != topic_seq_counter_key_bytes(b),
        snapshot_key_bytes(a) != id_seq_key_bytes(),
        snapshot_key_bytes(a) != name_key_bytes(kind, name),
        topic_seq_counter_key_bytes(a) != id_seq_key_bytes(),
        topic_seq_counter_key_bytes(a) != name_key_bytes(kind, name),
        id_seq_key_bytes() != name_key_bytes(kind, name),
        lease_seq_key_bytes() != topic_key_bytes(a),
        lease_seq_key_bytes() != sub_key_bytes(a),
        lease_seq_key_bytes() != snapshot_key_bytes(a),
        lease_seq_key_bytes() != topic_seq_counter_key_bytes(a),
        lease_seq_key_bytes() != id_seq_key_bytes(),
        lease_seq_key_bytes() != name_key_bytes(kind, name),
{
    lemma_prefix_bytes();
    lemma_be_bytes_len(a as nat, 8);
    lemma_be_bytes_len(b as nat, 8);
    assert(topic_key_bytes(a).len() == 10 && topic_key_bytes(a)[0] == 116);
    assert(sub_key_bytes(a).len() == 10 && sub_key_bytes(a)[0] == 115);
    assert(sub_key_bytes(b).len() == 10 && sub_key_bytes(b)[0] == 115);
    assert(snapshot_key_bytes(a).len() == 13 && snapshot_key_bytes(a)[0] == 115);
    assert(snapshot_key_bytes(b).len() == 13);
    assert(topic_seq_counter_key_bytes(a).len() == 14 && topic_seq_counter_key_bytes(a)[0] == 116);
    assert(topic_seq_counter_key_bytes(b).len() == 14);
    assert(name_key_bytes(kind, name)[0] == 110);
}

/// Records of one kind with different ids have different keys, and so have message counters.
pub proof fn law_record_keys_injective(a: u64, b: u64)
    ensures
        topic_key_bytes(a) == topic_key_bytes(b) <==> a == b,
        sub_key_bytes(a) == sub_key_bytes(b) <==> a == b,
        snapshot_key_bytes(a) == snapshot_key_bytes(b) <==> a == b,
        topic_seq_counter_key_bytes(a) == topic_seq_counter_key_bytes(b) <==> a == b,
        be64(a) == be64(b) <==> a == b,
{
    lemma_prefix_bytes();
    law_be64_round_trip(a, be64(a));
    law_be64_round_trip(b, be64(b));
    assert(topic_key_bytes(a).skip(2) =~= be64(a));
    assert(topic_key_bytes(b).skip(2) =~= be64(b));
    assert(sub_key_bytes(a).skip(2) =~= be64(a));
    assert(sub_key_bytes(b).skip(2) =~= be64(b));
    assert(snapshot_key_bytes(a).skip(5) =~= be64(a));
    assert(snapshot_key_bytes(b).skip(5) =~= be64(b));
    assert(topic_seq_counter_key_bytes(a).skip(6) =~= be64(a));
    assert(topic_seq_counter_key_bytes(b).skip(6) =~= be64(b));
}

/// Names of different kinds have different keys.
pub proof fn law_name_keys_of_kinds_differ(a: Seq<char>, b: Seq<char>)
    ensures
        name_key_bytes(NameKind::Topic, a) != name_key_bytes(NameKind::Subscription, b),
        name_key_bytes(NameKind::Topic, a) != name_key_bytes(NameKind::Snapshot, b),
        name_key_bytes(NameKind::Subscription, a) != name_key_bytes(NameKind::Snapshot, b),
{
    lemma_prefix_bytes();
    assert(name_key_bytes(NameKind::Topic, a)[5] == 116);
    assert(name_key_bytes(NameKind::Subscription, b)[5] == 115);
    assert(name_key_bytes(NameKind::Snapshot, b)[5] == 115);
    assert(name_key_bytes(NameKind::Subscription, a)[6] == 47);
    assert(name_key_bytes(NameKind::Snapshot, b)[6] == 110);
}

fn push_be(n: u64, width: usize, out: &mut Vec<u8>)
    ensures
        final(out)@ == old(out)@ + be_bytes(n as nat, width as nat),
    decreases width,
{
    if width == 0 {
        assert(out@ + be_bytes(n as nat, 0) =~= out@);
    } else {
        push_be(n / 256, width - 1, out);
        out.push((n % 256) as u8);
        assert(out@ =~= old(out)@ + be_bytes(n as nat, width as nat));
    }
}

/// `n` as eight bytes, most significant first.
pub fn u64_bytes(n: u64) -> (v: Vec<u8>)
    ensures
        v@ == be64(n),
{
    let mut v: Vec<u8> = Vec::new();
    push_be(n, 8, &mut v);
    assert(v@ =~= be64(n));
    v
}

fn read_be(bytes: &[u8], from: usize) -> (n: u64)
    requires
        from + 8 <= bytes@.len(),
    ensures
        n == be_value(bytes@.subrange(from as int, from + 8)),
{
    let total: usize = bytes.len();
    let mut n: u64 = 0;
    let mut i: usize = 0;
    assert(bytes@.subrange(from as int, from as int) =~= Seq::<u8>::empty());
    while i < 8
        invariant
            i <= 8,
            total == bytes@.len(),
            from + 8 <= total,
            n == be_value(bytes@.subrange(from as int, from + i)),
        decreases 8 - i,
    {
        proof {
            let head = bytes@.subrange(from as int, from + i);
            let next = bytes@.subrange(from as int, from + i + 1);
            assert(next.drop_last() =~= head);
            lemma_be_value_bound(next);
            lemma_pow256_8();
            reveal_with_fuel(pow256, 9);
        }
        n = n * 256 + bytes[from + i] as u64;
        i = i + 1;
    }
    n
}

/// Decodes eight bytes as a number. Any other number of bytes decodes to nothing.
pub fn decode_u64(bytes: &[u8]) -> (r: Option<u64>)
    ensures
        r == from_be64(bytes@),
{
    if bytes.len() != 8 {
        return None;
    }
    assert(bytes@.subrange(0, 8) =~= bytes@);
    proof {
        lemma_be_value_bound(bytes@);
        lemma_pow256_8();
    }
    Some(read_be(bytes, 0))
}

/// The two ids of which a key is made, if it is.
pub fn parse_pair(key: &[u8]) -> (r: Option<(u64, u64)>)
    ensures
        r == from_pair_key(key@),
{
    if key.len() != 16 {
        return None;
    }
    assert(key@.subrange(0, 8) =~= key@.take(8));
    assert(key@.subrange(8, 16) =~= key@.skip(8));
    proof {
        lemma_be_value_bound(key@.take(8));
        lemma_be_value_bound(key@.skip(8));
        lemma_pow256_8();
    }
    let first: u64 = read_be(key, 0);
    let second: u64 = read_be(key, 8);
    Some((first, second))
}

fn pair(a: u64, b: u64) -> (v: Vec<u8>)
    ensures
        v@ == pair_key(a, b),
{
    let mut v: Vec<u8> = Vec::new();
    push_be(a, 8, &mut v);
    push_be(b, 8, &mut v);
    assert(v@ =~= pair_key(a, b));
    v
}

fn prefixed(prefix: &str, n: u64) -> (v: Vec<u8>)
    ensures
        v@ == encode_utf8(prefix@) + be64(n),
{
    let mut v = vstd::slice::slice_to_vec(prefix.as_bytes());
    push_be(n, 8, &mut v);
    v
}

/// Key of a topic record.
pub fn topic_key(topic_id: u64) -> (v: Vec<u8>)
    ensures
        v@ == topic_key_bytes(topic_id),
{
    prefixed("t/", topic_id)
}

/// Key of a subscription record.
pub fn sub_key(sub_id: u64) -> (v: Vec<u8>)
    ensures
        v@ == sub_key_bytes(sub_id),
{
    prefixed("s/", sub_id)
}

/// Key of a snapshot record.
pub fn snapshot_key(snap_id: u64) -> (v: Vec<u8>)
    ensures
        v@ == snapshot_key_bytes(snap_id),
{
    prefixed("snap/", snap_id)
}

/// Key under which the id of the resource `name` is stored.
pub fn name_key(kind: NameKind, name: &str) -> (v: Vec<u8>)
    ensures
        v@ == name_key_bytes(kind, name@),
{
    let prefix: &str = match kind {
        NameKind::Topic => "name/t/",
        NameKind::Subscription => "name/s/",
        NameKind::Snapshot => "name/snap/",
    };
    let mut v = vstd::slice::slice_to_vec(prefix.as_bytes());
    let mut tail = vstd::slice::slice_to_vec(name.as_bytes());
    v.append(&mut tail);
    v
}

/// Key of the id counter.
pub fn id_seq_key() -> (v: Vec<u8>)
    ensures
        v@ == id_seq_key_bytes(),
{
    vstd::slice::slice_to_vec("id_seq".as_bytes())
}

/// Key of the counter of leases.
pub fn lease_seq_key() -> (v: Vec<u8>)
    ensures
        v@ == lease_seq_key_bytes(),
{
    vstd::slice::slice_to_vec("lease_seq".as_bytes())
}

/// Key of one message of a topic's log.
pub fn msg_key(topic_id: u64, seq: u64) -> (v: Vec<u8>)
    ensures
        v@ == pair_key(topic_id, seq),
{
    pair(topic_id, seq)
}

/// The start of the key of every message of a topic's log.
pub fn msg_key_prefix(topic_id: u64) -> (v: Vec<u8>)
    ensures
        v@ == be64(topic_id),
{
    u64_bytes(topic_id)
}

/// Decodes a message key into topic id and sequence number.
pub fn parse_msg_key(key: &[u8]) -> (r: Option<(u64, u64)>)
    ensures
        r == from_pair_key(key@),
{
    parse_pair(key)
}

/// Key of a subscription's cursor.
pub fn cursor_key(sub_id: u64) -> (v: Vec<u8>)
    ensures
        v@ == be64(sub_id),
{
    u64_bytes(sub_id)
}

/// Key of one delivery in flight.
pub fn delivery_key(sub_id: u64, seq: u64) -> (v: Vec<u8>)
    ensures
        v@ == pair_key(sub_id, seq),
{
    pair(sub_id, seq)
}

/// The start of the key of every delivery in flight of a subscription.
pub fn delivery_key_prefix(sub_id: u64) -> (v: Vec<u8>)
    ensures
        v@ == be64(sub_id),
{
    u64_bytes(sub_id)
}

/// Decodes a delivery key into subscription id and sequence number.
pub fn parse_delivery_key(key: &[u8]) -> (r: Option<(u64, u64)>)
    ensures
        r == from_pair_key(key@),
{
    parse_pair(key)
}

/// Key of one ordering lane of a subscription.
pub fn lane_key(sub_id: u64, ordering_key_hash: u64) -> (v: Vec<u8>)
    ensures
        v@ == pair_key(sub_id, ordering_key_hash),
{
    pair(sub_id, ordering_key_hash)
}

/// Key of a snapshot's captured state.
pub fn snapshot_state_key(snap_id: u64) -> (v: Vec<u8>)
    ensures
        v@ == be64(snap_id),
{
    u64_bytes(snap_id)
}

/// Key of the index row that ties a subscription to its topic.
pub fn topic_sub_idx_key(topic_id: u64, sub_id: u64) -> (v: Vec<u8>)
    ensures
        v@ == pair_key(topic_id, sub_id),
{
    pair(topic_id, sub_id)
}

/// The start of the key of every index row of a topic.
pub fn topic_sub_idx_prefix(topic_id: u64) -> (v: Vec<u8>)
    ensures
        v@ == be64(topic_id),
{
    u64_bytes(topic_id)
}

/// Key of a topic's message counter.
pub fn topic_seq_counter_key(topic_id: u64) -> (v: Vec<u8>)
    ensures
        v@ == topic_seq_counter_key_bytes(topic_id),
{
    prefixed("t/seq/", topic_id)
}

} // verus!
