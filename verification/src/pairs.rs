//! A map from pairs of ids.

use vstd::prelude::*;

verus! {

/// The map that a list of entries stands for.
pub open spec fn map_of<V>(entries: Seq<((i32, i32), V)>) -> Map<(i32, i32), V>
    decreases entries.len(),
{
    if entries.len() == 0 {
        Map::empty()
    } else {
        map_of(entries.drop_last()).insert(entries.last().0, entries.last().1)
    }
}

/// No key occurs twice.
pub open spec fn distinct_keys<V>(entries: Seq<((i32, i32), V)>) -> bool {
    forall|i: int, j: int|
        0 <= i < j < entries.len() ==> (#[trigger] entries[i]).0 != (#[trigger] entries[j]).0
}

/// A map from (user, problem) to values.
#[derive(Debug)]
pub struct PairMap<V> {
    entries: Vec<((i32, i32), V)>,
}

impl<V> View for PairMap<V> {
    type V = Map<(i32, i32), V>;

    closed spec fn view(&self) -> Map<(i32, i32), V> {
        map_of(self.entries@)
    }
}

pub proof fn lemma_map_of<V>(entries: Seq<((i32, i32), V)>)
    requires
        distinct_keys(entries),
    ensures
        forall|i: int|
            0 <= i < entries.len() ==> #[trigger] map_of(entries).contains_key(entries[i].0)
                && map_of(entries)[entries[i].0] == entries[i].1,
        forall|k: (i32, i32)| #[trigger]
            map_of(entries).contains_key(k) ==> exists|i: int|
                0 <= i < entries.len() && (#[trigger] entries[i]).0 == k,
    decreases entries.len(),
{
    if entries.len() > 0 {
        let rest = entries.drop_last();
        assert(distinct_keys(rest)) by {
            assert forall|i: int, j: int| 0 <= i < j < rest.len() implies (#[trigger] rest[i]).0
                != (#[trigger] rest[j]).0 by {
                assert(entries[i].0 != entries[j].0);
            }
        }
        lemma_map_of(rest);
        let n = entries.len() - 1;
        assert forall|i: int| 0 <= i < entries.len() implies #[trigger] map_of(
            entries,
        ).contains_key(entries[i].0) && map_of(entries)[entries[i].0] == entries[i].1 by {
            if i < n {
                assert(rest[i] == entries[i]);
                assert(map_of(rest).contains_key(rest[i].0));
                assert(entries[i].0 != entries[n].0);
            }
        }
        assert forall|k: (i32, i32)| #[trigger] map_of(entries).contains_key(k) implies exists|
            i: int,
        | 0 <= i < entries.len() && (#[trigger] entries[i]).0 == k by {
            if k == entries[n].0 {
                assert(entries[n].0 == k);
            } else {
                assert(map_of(rest).contains_key(k));
                let i = choose|i: int| 0 <= i < rest.len() && (#[trigger] rest[i]).0 == k;
                assert(entries[i].0 == k);
            }
        }
    }
}

impl<V> PairMap<V> {
    #[verifier::type_invariant]
    spec fn well_formed(&self) -> bool {
        distinct_keys(self.entries@)
    }

    /// The entries, in the order of insertion.
    pub closed spec fn listing(&self) -> Seq<((i32, i32), V)> {
        self.entries@
    }

    pub fn new() -> (r: Self)
        ensures
            r@ == Map::<(i32, i32), V>::empty(),
    {
        PairMap { entries: Vec::new() }
    }

    pub fn len(&self) -> (n: usize)
        ensures
            n == self.listing().len(),
            forall|k: (i32, i32)| #[trigger]
                self@.contains_key(k) ==> exists|i: int|
                    0 <= i < n && (#[trigger] self.listing()[i]).0 == k,
            forall|i: int|
                0 <= i < n ==> self@.contains_key((#[trigger] self.listing()[i]).0)
                    && self@[self.listing()[i].0] == self.listing()[i].1,
    {
        proof {
            use_type_invariant(self);
            lemma_map_of(self.entries@);
            assert forall|i: int| 0 <= i < self.entries@.len() implies self@.contains_key(
                (#[trigger] self.entries@[i]).0,
            ) && self@[self.entries@[i].0] == self.entries@[i].1 by {
                assert(map_of(self.entries@).contains_key(self.entries@[i].0));
            }
        }
        self.entries.len()
    }

    pub fn is_empty(&self) -> (r: bool)
        ensures
            r == (self@ == Map::<(i32, i32), V>::empty()),
    {
        proof {
            use_type_invariant(self);
            lemma_map_of(self.entries@);
            if self.entries@.len() > 0 {
                assert(self@.contains_key(self.entries@[0].0));
            }
        }
        self.entries.len() == 0
    }

    /// The entry at a place of the listing.
    pub fn entry(&self, i: usize) -> (r: (&(i32, i32), &V))
        requires
            i < self.listing().len(),
        ensures
            *r.0 == self.listing()[i as int].0,
            *r.1 == self.listing()[i as int].1,
            self@.contains_key(*r.0),
            self@[*r.0] == *r.1,
    {
        proof {
            use_type_invariant(self);
            lemma_map_of(self.entries@);
            assert(self@.contains_key(self.entries@[i as int].0));
        }
        let e = &self.entries[i];
        (&e.0, &e.1)
    }

    fn place(&self, key: (i32, i32)) -> (r: Option<usize>)
        ensures
            match r {
                Some(i) => i < self.entries@.len() && self.entries@[i as int].0 == key
                    && self@.contains_key(key) && self@[key] == self.entries@[i as int].1,
                None => !self@.contains_key(key) && forall|j: int|
                    0 <= j < self.entries@.len() ==> (#[trigger] self.entries@[j]).0 != key,
            },
    {
        proof {
            use_type_invariant(self);
            lemma_map_of(self.entries@);
        }
        let mut i: usize = 0;
        while i < self.entries.len()
            invariant
                i <= self.entries@.len(),
                forall|j: int| 0 <= j < i ==> (#[trigger] self.entries@[j]).0 != key,
            decreases self.entries@.len() - i,
        {
            let k = self.entries[i].0;
            if k.0 == key.0 && k.1 == key.1 {
                assert(self.entries@[i as int].0 == key);
                proof {
                    use_type_invariant(self);
                    lemma_map_of(self.entries@);
                    assert(self@.contains_key(self.entries@[i as int].0));
                    assert(self@[self.entries@[i as int].0] == self.entries@[i as int].1);
                }
                return Some(i);
            }
            i += 1;
        }
        None
    }

    pub fn get(&self, key: &(i32, i32)) -> (r: Option<&V>)
        ensures
            match r {
                Some(v) => self@.contains_key(*key) && self@[*key] == *v,
                None => !self@.contains_key(*key),
            },
    {
        match self.place(*key) {
            Some(i) => Some(&self.entries[i].1),
            None => None,
        }
    }

    pub fn contains_key(&self, key: (i32, i32)) -> (r: bool)
        ensures
            r == self@.contains_key(key),
    {
        self.place(key).is_some()
    }

    /// Adds a value under a key that has none.
    pub fn insert_new(&mut self, key: (i32, i32), value: V)
        requires
            !old(self)@.contains_key(key),
        ensures
            final(self)@ == old(self)@.insert(key, value),
            final(self).listing() == old(self).listing().push((key, value)),
    {
        proof {
            use_type_invariant(&*self);
            lemma_map_of(self.entries@);
        }
        let ghost before = self.entries@;
        let mut entries: Vec<((i32, i32), V)> = Vec::new();
        std::mem::swap(&mut entries, &mut self.entries);
        entries.push((key, value));
        proof {
            assert(entries@.drop_last() =~= before);
            assert forall|i: int, j: int| 0 <= i < j < entries@.len() implies (
            #[trigger] entries@[i]).0 != (#[trigger] entries@[j]).0 by {
                if j == before.len() {
                    assert(map_of(before).contains_key(before[i].0));
                } else {
                    assert(before[i].0 != before[j].0);
                }
            }
        }
        self.entries = entries;
    }

    /// Puts a value under a key.
    pub fn insert(&mut self, key: (i32, i32), value: V)
        ensures
            final(self)@ == old(self)@.insert(key, value),
    {
        proof {
            use_type_invariant(&*self);
        }
        match self.place(key) {
            None => {
                self.insert_new(key, value);
            },
            Some(i) => {
                let ghost before = self.entries@;
                let mut entries: Vec<((i32, i32), V)> = Vec::new();
                std::mem::swap(&mut entries, &mut self.entries);
                entries.set(i, (key, value));
                proof {
                    assert forall|a: int, b: int| 0 <= a < b < entries@.len() implies (
                    #[trigger] entries@[a]).0 != (#[trigger] entries@[b]).0 by {
                        assert(before[a].0 != before[b].0);
                    }
                    lemma_map_of_update(before, i as int, value);
                }
                self.entries = entries;
            },
        }
    }
}

impl PairMap<i32> {
    /// Adds one to the number under a key.
    pub fn add_one(&mut self, key: (i32, i32))
        requires
            old(self)@.contains_key(key) ==> old(self)@[key] < i32::MAX,
        ensures
            final(self)@ == old(self)@.insert(
                key,
                if old(self)@.contains_key(key) {
                    (old(self)@[key] + 1) as i32
                } else {
                    1
                },
            ),
    {
        let next: i32 = match self.get(&key) {
            None => 1,
            Some(n) => *n + 1,
        };
        self.insert(key, next);
    }
}

proof fn lemma_map_of_update<V>(entries: Seq<((i32, i32), V)>, i: int, v: V)
    requires
        distinct_keys(entries),
        0 <= i < entries.len(),
    ensures
        map_of(entries.update(i, (entries[i].0, v))) == map_of(entries).insert(entries[i].0, v),
    decreases entries.len(),
{
    let key = entries[i].0;
    let updated = entries.update(i, (key, v));
    let rest = entries.drop_last();
    let n = entries.len() - 1;
    if i == n {
        assert(updated.drop_last() =~= rest);
        assert(map_of(updated) =~= map_of(entries).insert(key, v));
    } else {
        assert(distinct_keys(rest)) by {
            assert forall|a: int, b: int| 0 <= a < b < rest.len() implies (#[trigger] rest[a]).0
                != (#[trigger] rest[b]).0 by {
                assert(entries[a].0 != entries[b].0);
            }
        }
        lemma_map_of_update(rest, i, v);
        assert(updated.drop_last() =~= rest.update(i, (key, v)));
        assert(entries[i].0 != entries[n].0);
        assert(map_of(updated) =~= map_of(entries).insert(key, v));
    }
}

} // verus!
