//! A small map keyed by numeric ids.

use vstd::prelude::*;

verus! {

spec fn map_of<V>(entries: Seq<(u64, V)>) -> Map<u64, V>
    decreases entries.len(),
{
    if entries.len() == 0 {
        Map::empty()
    } else {
        map_of(entries.drop_last()).insert(entries.last().0, entries.last().1)
    }
}

spec fn ids_distinct<V>(entries: Seq<(u64, V)>) -> bool {
    forall|i: int, j: int|
        #![trigger entries[i], entries[j]]
        0 <= i < j < entries.len() ==> entries[i].0 != entries[j].0
}

spec fn holds_id<V>(entries: Seq<(u64, V)>, id: u64) -> bool {
    exists|i: int| 0 <= i < entries.len() && (#[trigger] entries[i]).0 == id
}

proof fn lemma_map_of<V>(entries: Seq<(u64, V)>)
    requires
        ids_distinct(entries),
    ensures
        forall|id: u64| #[trigger] map_of(entries).contains_key(id) <==> holds_id(entries, id),
        forall|i: int|
            0 <= i < entries.len() ==> map_of(entries)[(#[trigger] entries[i]).0] == entries[i].1,
        map_of(entries).dom().finite(),
        map_of(entries).len() == entries.len(),
    decreases entries.len(),
{
    if entries.len() > 0 {
        let init = entries.drop_last();
        lemma_map_of(init);
        assert forall|id: u64| #[trigger]
            map_of(entries).contains_key(id) <==> holds_id(entries, id) by {
            assert(map_of(init).contains_key(id) <==> holds_id(init, id));
            if holds_id(init, id) {
                let i = choose|i: int| 0 <= i < init.len() && (#[trigger] init[i]).0 == id;
                assert(entries[i].0 == id);
            }
            if id == entries.last().0 {
                assert(entries[entries.len() - 1].0 == id);
            }
            if holds_id(entries, id) {
                let i = choose|i: int| 0 <= i < entries.len() && (#[trigger] entries[i]).0 == id;
                if i < init.len() {
                    assert(init[i].0 == id);
                }
            }
        }
        assert forall|i: int| 0 <= i < entries.len() implies map_of(entries)[(
        #[trigger] entries[i]).0] == entries[i].1 by {
            if i < init.len() {
                assert(init[i] == entries[i]);
                assert(entries[i].0 != entries[entries.len() - 1].0);
            }
        }
        assert(!holds_id(init, entries.last().0)) by {
            if holds_id(init, entries.last().0) {
                let i = choose|i: int|
                    0 <= i < init.len() && (#[trigger] init[i]).0 == entries.last().0;
                assert(entries[i].0 != entries[entries.len() - 1].0);
            }
        }
        assert(!map_of(init).contains_key(entries.last().0));
    }
}

proof fn lemma_push<V>(entries: Seq<(u64, V)>, id: u64, value: V)
    requires
        ids_distinct(entries),
        !holds_id(entries, id),
    ensures
        ids_distinct(entries.push((id, value))),
        map_of(entries.push((id, value))) == map_of(entries).insert(id, value),
{
    let after = entries.push((id, value));
    assert(after.drop_last() =~= entries);
    assert forall|i: int, j: int|
        #![trigger after[i], after[j]]
        0 <= i < j < after.len() implies after[i].0 != after[j].0 by {
        assert(after[i] == entries[i]);
        if j < entries.len() {
            assert(after[j] == entries[j]);
        }
    }
}

proof fn lemma_remove<V>(entries: Seq<(u64, V)>, at: int)
    requires
        ids_distinct(entries),
        0 <= at < entries.len(),
    ensures
        ids_distinct(entries.remove(at)),
        map_of(entries.remove(at)) == map_of(entries).remove(entries[at].0),
        !holds_id(entries.remove(at), entries[at].0),
{
    let after = entries.remove(at);
    assert forall|i: int, j: int|
        #![trigger after[i], after[j]]
        0 <= i < j < after.len() implies after[i].0 != after[j].0 by {
        let a = if i < at { i } else { i + 1 };
        let b = if j < at { j } else { j + 1 };
        assert(after[i] == entries[a] && after[j] == entries[b]);
    }
    lemma_map_of(entries);
    lemma_map_of(after);
    let expected = map_of(entries).remove(entries[at].0);
    assert(!holds_id(after, entries[at].0)) by {
        if holds_id(after, entries[at].0) {
            let i = choose|i: int|
                0 <= i < after.len() && (#[trigger] after[i]).0 == entries[at].0;
            let a = if i < at { i } else { i + 1 };
            assert(after[i] == entries[a]);
            assert(entries[a].0 != entries[at].0);
        }
    }
    assert forall|id: u64| #[trigger]
        map_of(after).contains_key(id) <==> expected.contains_key(id) by {
        if holds_id(after, id) {
            let i = choose|i: int| 0 <= i < after.len() && (#[trigger] after[i]).0 == id;
            let a = if i < at { i } else { i + 1 };
            assert(after[i] == entries[a]);
            assert(holds_id(entries, id));
        }
        if expected.contains_key(id) {
            let i = choose|i: int| 0 <= i < entries.len() && (#[trigger] entries[i]).0 == id;
            let a = if i < at { i } else { i - 1 };
            assert(after[a] == entries[i]);
        }
    }
    assert forall|id: u64| map_of(after).contains_key(id) implies #[trigger] map_of(after)[id]
        == expected[id] by {
        let i = choose|i: int| 0 <= i < after.len() && (#[trigger] after[i]).0 == id;
        let a = if i < at { i } else { i + 1 };
        assert(after[i] == entries[a]);
        assert(map_of(after)[after[i].0] == after[i].1);
        assert(map_of(entries)[entries[a].0] == entries[a].1);
    }
    assert(map_of(after) =~= expected);
}

/// A map from ids to values.
#[derive(Debug)]
pub struct IdMap<V> {
    entries: Vec<(u64, V)>,
}

impl<V> View for IdMap<V> {
    type V = Map<u64, V>;

    closed spec fn view(&self) -> Map<u64, V> {
        map_of(self.entries@)
    }
}

impl<V> IdMap<V> {
    #[verifier::type_invariant]
    spec fn distinct(self) -> bool {
        ids_distinct(self.entries@)
    }

    /// A map without entries.
    pub fn new() -> (m: Self)
        ensures
            m@ == Map::<u64, V>::empty(),
    {
        IdMap { entries: Vec::new() }
    }

    /// The number of entries.
    pub fn len(&self) -> (n: usize)
        ensures
            self@.dom().finite(),
            n == self@.len(),
    {
        proof {
            use_type_invariant(self);
            lemma_map_of(self.entries@);
        }
        self.entries.len()
    }

    fn position(&self, id: u64) -> (r: Option<usize>)
        ensures
            match r {
                Some(i) => i < self.entries.len() && self.entries@[i as int].0 == id,
                None => !holds_id(self.entries@, id),
            },
    {
        let mut i: usize = 0;
        while i < self.entries.len()
            invariant
                i <= self.entries.len(),
                forall|j: int| 0 <= j < i ==> (#[trigger] self.entries@[j]).0 != id,
            decreases self.entries.len() - i,
        {
            if self.entries[i].0 == id {
                return Some(i);
            }
            i = i + 1;
        }
        None
    }

    /// The value of `id`, if it has one.
    pub fn get(&self, id: u64) -> (r: Option<&V>)
        ensures
            match r {
                Some(v) => self@.contains_key(id) && *v == self@[id],
                None => !self@.contains_key(id),
            },
    {
        proof {
            use_type_invariant(self);
            lemma_map_of(self.entries@);
        }
        match self.position(id) {
            Some(i) => {
                assert(holds_id(self.entries@, id));
                assert(map_of(self.entries@)[self.entries@[i as int].0] == self.entries@[i as int].1);
                Some(&self.entries[i].1)
            },
            None => None,
        }
    }

    /// Removes the value of `id`, if it has one, and returns it.
    pub fn remove(&mut self, id: u64) -> (r: Option<V>)
        ensures
            final(self)@ == old(self)@.remove(id),
            match r {
                Some(v) => old(self)@.contains_key(id) && v == old(self)@[id],
                None => !old(self)@.contains_key(id),
            },
    {
        proof {
            use_type_invariant(&*self);
            lemma_map_of(self.entries@);
        }
        match self.position(id) {
            Some(i) => {
                assert(holds_id(self.entries@, id));
                assert(map_of(self.entries@)[self.entries@[i as int].0] == self.entries@[i as int].1);
                let mut taken = IdMap { entries: Vec::new() };
                core::mem::swap(self, &mut taken);
                let mut entries = taken.entries;
                proof {
                    lemma_remove(entries@, i as int);
                }
                let (_, value) = entries.remove(i);
                *self = IdMap { entries };
                Some(value)
            },
            None => {
                assert(self@.remove(id) =~= self@);
                None
            },
        }
    }

    /// Gives `id` the value `value`, in place of the one that it has.
    pub fn insert(&mut self, id: u64, value: V)
        ensures
            final(self)@ == old(self)@.insert(id, value),
    {
        let _ = self.remove(id);
        proof {
            use_type_invariant(&*self);
            lemma_map_of(self.entries@);
            assert(!map_of(self.entries@).contains_key(id));
            assert(self@.insert(id, value) =~= old(self)@.insert(id, value));
            lemma_push(self.entries@, id, value);
        }
        let mut taken = IdMap { entries: Vec::new() };
        core::mem::swap(self, &mut taken);
        let mut entries = taken.entries;
        entries.push((id, value));
        *self = IdMap { entries };
    }

    /// Every id that has a value, each once.
    pub fn ids(&self) -> (r: Vec<u64>)
        ensures
            r@.no_duplicates(),
            forall|id: u64| #[trigger] r@.contains(id) <==> self@.contains_key(id),
            r@.len() == self@.len(),
            self@.dom().finite(),
    {
        proof {
            use_type_invariant(self);
            lemma_map_of(self.entries@);
        }
        let mut r: Vec<u64> = Vec::new();
        let mut i: usize = 0;
        while i < self.entries.len()
            invariant
                i <= self.entries.len(),
                r.len() == i,
                forall|j: int| 0 <= j < i ==> #[trigger] r@[j] == self.entries@[j].0,
            decreases self.entries.len() - i,
        {
            r.push(self.entries[i].0);
            i = i + 1;
        }
        proof {
            assert forall|id: u64| #[trigger] r@.contains(id) <==> self@.contains_key(id) by {
                if r@.contains(id) {
                    let j = r@.index_of(id);
                    assert(self.entries@[j].0 == id);
                }
                if self@.contains_key(id) {
                    let j = choose|j: int|
                        0 <= j < self.entries@.len() && (#[trigger] self.entries@[j]).0 == id;
                    assert(r@[j] == id);
                }
            }
            assert forall|i: int, j: int| 0 <= i < r@.len() && 0 <= j < r@.len() && i != j implies
                r@[i] != r@[j] by {
                let a = if i < j { i } else { j };
                let b = if i < j { j } else { i };
                assert(self.entries@[a].0 != self.entries@[b].0);
            }
        }
        r
    }
}

} // verus!
