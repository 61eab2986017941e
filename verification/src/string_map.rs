//! A map from text to text, used for message attributes and resource labels.

use crate::text;
use vstd::prelude::*;
use vstd::utf8::*;

verus! {

/// The entries of a map from text to text, in the order of the keys.
pub type Entries = Seq<(Seq<char>, Seq<char>)>;

/// The keys come in strictly increasing byte-wise order.
pub open spec fn keys_increase(entries: Entries) -> bool {
    forall|i: int, j: int|
        0 <= i < j < entries.len() ==> #[trigger] text::text_lt(entries[i].0, entries[j].0)
}

/// `entries` holds a value for `key`.
pub open spec fn has_key(entries: Entries, key: Seq<char>) -> bool {
    exists|i: int| 0 <= i < entries.len() && (#[trigger] entries[i]).0 == key
}

/// The position of `key` among the keys of `entries`.
pub open spec fn key_index(entries: Entries, key: Seq<char>) -> int {
    choose|i: int| 0 <= i < entries.len() && (#[trigger] entries[i]).0 == key
}

/// The value that `entries` holds for `key`.
pub open spec fn lookup(entries: Entries, key: Seq<char>) -> Option<Seq<char>> {
    if has_key(entries, key) {
        Some(entries[key_index(entries, key)].1)
    } else {
        None
    }
}

/// Position of the first key that does not come before `key`.
pub open spec fn key_position(entries: Entries, key: Seq<char>) -> int
    decreases entries.len(),
{
    if entries.len() == 0 || !text::text_lt(entries[0].0, key) {
        0
    } else {
        1 + key_position(entries.skip(1), key)
    }
}

/// `entries` with `key` mapped to `value`, and every other key as it was.
pub open spec fn entries_insert(entries: Entries, key: Seq<char>, value: Seq<char>) -> Entries {
    let at = key_position(entries, key);
    if at < entries.len() && entries[at].0 == key {
        entries.update(at, (key, value))
    } else {
        entries.insert(at, (key, value))
    }
}

proof fn lemma_key_position(entries: Entries, key: Seq<char>)
    ensures
        0 <= key_position(entries, key) <= entries.len(),
        forall|i: int|
            0 <= i < key_position(entries, key) ==> text::text_lt((#[trigger] entries[i]).0, key),
        key_position(entries, key) < entries.len() ==> !text::text_lt(
            entries[key_position(entries, key)].0,
            key,
        ),
    decreases entries.len(),
{
    if entries.len() > 0 && text::text_lt(entries[0].0, key) {
        let rest = entries.skip(1);
        lemma_key_position(rest, key);
        assert forall|i: int| 0 <= i < key_position(entries, key) implies text::text_lt(
            (#[trigger] entries[i]).0,
            key,
        ) by {
            if i > 0 {
                assert(entries[i] == rest[i - 1]);
            }
        }
    }
}

/// Different texts are ordered one way.
pub proof fn lemma_text_lt_total(a: Seq<char>, b: Seq<char>)
    ensures
        text::text_lt(a, b) || text::text_lt(b, a) || a == b,
        text::text_lt(a, b) ==> a != b && !text::text_lt(b, a),
{
    text::lemma_bytes_lt_total(encode_utf8(a), encode_utf8(b));
    text::lemma_utf8_injective(a, b);
    if text::text_lt(a, b) {
        text::lemma_bytes_lt_asymmetric(encode_utf8(a), encode_utf8(b));
    }
}

/// In a map with increasing keys an entry is what a lookup of its key finds.
pub proof fn lemma_lookup_at(entries: Entries, i: int)
    requires
        keys_increase(entries),
        0 <= i < entries.len(),
    ensures
        lookup(entries, entries[i].0) == Some(entries[i].1),
{
    let key = entries[i].0;
    assert(has_key(entries, key));
    let j = key_index(entries, key);
    if i < j {
        lemma_text_lt_total(entries[i].0, entries[j].0);
    } else if j < i {
        lemma_text_lt_total(entries[j].0, entries[i].0);
    }
}

/// Inserting keeps the keys increasing, sets the key, and leaves every other key as it was.
pub proof fn lemma_entries_insert(entries: Entries, key: Seq<char>, value: Seq<char>)
    requires
        keys_increase(entries),
    ensures
        keys_increase(entries_insert(entries, key, value)),
        lookup(entries_insert(entries, key, value), key) == Some(value),
        forall|other: Seq<char>|
            other != key ==> #[trigger] lookup(entries_insert(entries, key, value), other)
                == lookup(entries, other),
{
    let at = key_position(entries, key);
    let after = entries_insert(entries, key, value);
    lemma_key_position(entries, key);
    let replace = at < entries.len() && entries[at].0 == key;
    if !replace {
        assert forall|i: int| at <= i < entries.len() implies text::text_lt(
            key,
            (#[trigger] entries[i]).0,
        ) by {
            lemma_text_lt_total(entries[at].0, key);
            if i > at {
                assert(text::text_lt(entries[at].0, entries[i].0));
                text::lemma_bytes_lt_transitive(
                    encode_utf8(key),
                    encode_utf8(entries[at].0),
                    encode_utf8(entries[i].0),
                );
            }
        }
    }
    assert forall|i: int, j: int| 0 <= i < j < after.len() implies #[trigger] text::text_lt(
        after[i].0,
        after[j].0,
    ) by {
        let a = if replace || i < at {
            i
        } else {
            i - 1
        };
        let b = if replace || j < at {
            j
        } else {
            j - 1
        };
        if i != at && j != at {
            assert(after[i].0 == entries[a].0 && after[j].0 == entries[b].0);
            assert(text::text_lt(entries[a].0, entries[b].0));
        } else if replace {
            assert(text::text_lt(entries[i].0, entries[j].0));
        }
    }
    assert(after[at] == (key, value));
    lemma_lookup_at(after, at);
    assert forall|other: Seq<char>| other != key implies #[trigger] lookup(after, other) == lookup(
        entries,
        other,
    ) by {
        if has_key(entries, other) {
            let i = choose|i: int| 0 <= i < entries.len() && (#[trigger] entries[i]).0 == other;
            lemma_lookup_at(entries, i);
            let k = if replace || i < at {
                i
            } else {
                i + 1
            };
            assert(after[k] == entries[i]);
            lemma_lookup_at(after, k);
        } else if has_key(after, other) {
            let k = choose|k: int| 0 <= k < after.len() && (#[trigger] after[k]).0 == other;
            let i = if replace || k < at {
                k
            } else {
                k - 1
            };
            assert(after[k] == entries[i]);
        }
    }
}

/// A map from text to text. Two maps are equal when they hold the same keys and values.
#[derive(Debug, PartialEq, Eq)]
pub struct StringMap {
    entries: Vec<(String, String)>,
}

impl View for StringMap {
    type V = Entries;

    closed spec fn view(&self) -> Entries {
        self.entries@.map_values(|e: (String, String)| (e.0@, e.1@))
    }
}

impl StringMap {
    #[verifier::type_invariant]
    spec fn ordered(self) -> bool {
        keys_increase(self@)
    }

    /// A map without entries.
    pub fn new() -> (m: Self)
        ensures
            m@ == Entries::empty(),
    {
        let m = StringMap { entries: Vec::new() };
        assert(m@ =~= Entries::empty());
        m
    }

    /// The number of entries.
    pub fn len(&self) -> (n: usize)
        ensures
            n == self@.len(),
    {
        self.entries.len()
    }

    /// Whether there are no entries.
    pub fn is_empty(&self) -> (r: bool)
        ensures
            r == (self@.len() == 0),
    {
        self.entries.len() == 0
    }

    /// The key of the entry at position `i`.
    pub fn key(&self, i: usize) -> (k: &String)
        requires
            i < self@.len(),
        ensures
            k@ == self@[i as int].0,
    {
        &self.entries[i].0
    }

    /// The value of the entry at position `i`.
    pub fn value(&self, i: usize) -> (v: &String)
        requires
            i < self@.len(),
        ensures
            v@ == self@[i as int].1,
    {
        &self.entries[i].1
    }

    fn position(&self, key: &str) -> (at: usize)
        ensures
            at == key_position(self@, key@),
            at <= self@.len(),
    {
        let mut i: usize = 0;
        proof {
            assert(self@.skip(0) =~= self@);
        }
        while i < self.entries.len() && text::str_before(self.entries[i].0.as_str(), key)
            invariant
                i <= self.entries.len(),
                self@.len() == self.entries.len(),
                key_position(self@, key@) == i + key_position(self@.skip(i as int), key@),
            decreases self.entries.len() - i,
        {
            proof {
                assert(self@.skip(i as int).skip(1) =~= self@.skip(i + 1));
                assert(self@.skip(i as int)[0] == self@[i as int]);
            }
            i = i + 1;
        }
        proof {
            if i < self@.len() {
                assert(self@.skip(i as int)[0] == self@[i as int]);
            }
        }
        i
    }

    /// Maps `key` to `value`, in place of what it was mapped to before.
    pub fn insert(&mut self, key: String, value: String)
        ensures
            final(self)@ == entries_insert(old(self)@, key@, value@),
    {
        proof {
            use_type_invariant(&*self);
            lemma_entries_insert(self@, key@, value@);
        }
        let at = self.position(key.as_str());
        let found = at < self.entries.len() && text::str_equal(self.entries[at].0.as_str(), key.as_str());
        let ghost entry = (key, value);
        let mut taken = StringMap::new();
        core::mem::swap(self, &mut taken);
        let mut entries = taken.entries;
        let ghost before = entries@;
        if found {
            entries[at] = (key, value);
            proof {
                assert(entries@.map_values(|e: (String, String)| (e.0@, e.1@))
                    =~= before.map_values(|e: (String, String)| (e.0@, e.1@)).update(
                    at as int,
                    (entry.0@, entry.1@),
                ));
            }
        } else {
            entries.insert(at, (key, value));
            proof {
                assert(entries@.map_values(|e: (String, String)| (e.0@, e.1@))
                    =~= before.map_values(|e: (String, String)| (e.0@, e.1@)).insert(
                    at as int,
                    (entry.0@, entry.1@),
                ));
            }
        }
        *self = StringMap { entries };
    }

    /// The value that `key` is mapped to.
    pub fn get(&self, key: &str) -> (r: Option<&String>)
        ensures
            match r {
                Some(v) => lookup(self@, key@) == Some(v@),
                None => lookup(self@, key@) is None,
            },
    {
        proof {
            use_type_invariant(self);
        }
        let mut i: usize = 0;
        while i < self.entries.len()
            invariant
                i <= self.entries.len(),
                self@.len() == self.entries.len(),
                keys_increase(self@),
                forall|j: int| 0 <= j < i ==> (#[trigger] self@[j]).0 != key@,
            decreases self.entries.len() - i,
        {
            if text::str_equal(self.entries[i].0.as_str(), key) {
                proof {
                    lemma_lookup_at(self@, i as int);
                }
                return Some(&self.entries[i].1);
            }
            assert(self@[i as int].0 != key@);
            i = i + 1;
        }
        None
    }

    /// Whether `key` is mapped to a value.
    pub fn contains_key(&self, key: &str) -> (r: bool)
        ensures
            r == has_key(self@, key@),
    {
        match self.get(key) {
            Some(_) => true,
            None => false,
        }
    }
}

impl Clone for StringMap {
    fn clone(&self) -> (r: Self)
        ensures
            r@ == self@,
    {
        proof {
            use_type_invariant(self);
        }
        let mut entries: Vec<(String, String)> = Vec::new();
        let mut i: usize = 0;
        while i < self.entries.len()
            invariant
                i <= self.entries.len(),
                entries@ == self.entries@.take(i as int),
            decreases self.entries.len() - i,
        {
            entries.push((self.entries[i].0.clone(), self.entries[i].1.clone()));
            i = i + 1;
            assert(self.entries@.take(i as int) =~= self.entries@.take(i - 1).push(
                self.entries@[i - 1],
            ));
        }
        assert(self.entries@.take(i as int) =~= self.entries@);
        StringMap { entries }
    }
}

impl Default for StringMap {
    fn default() -> (m: Self)
        ensures
            m@ == Entries::empty(),
    {
        StringMap::new()
    }
}

} // verus!
