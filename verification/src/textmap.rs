//! A map from texts.

use vstd::prelude::*;

use crate::text::str_eq;

verus! {

/// The map that a list of labelled values stands for.
pub open spec fn text_map_of<V>(entries: Seq<(String, V)>) -> Map<Seq<char>, V>
    decreases entries.len(),
{
    if entries.len() == 0 {
        Map::empty()
    } else {
        text_map_of(entries.drop_last()).insert(entries.last().0@, entries.last().1)
    }
}

pub open spec fn distinct_labels<V>(entries: Seq<(String, V)>) -> bool {
    forall|i: int, j: int|
        0 <= i < j < entries.len() ==> (#[trigger] entries[i]).0@ != (#[trigger] entries[j]).0@
}

/// Values by label. A later value of the same label takes the earlier one's
/// place.
#[derive(Debug)]
pub struct TextMap<V> {
    entries: Vec<(String, V)>,
}

impl<V> View for TextMap<V> {
    type V = Map<Seq<char>, V>;

    closed spec fn view(&self) -> Map<Seq<char>, V> {
        text_map_of(self.entries@)
    }
}

proof fn lemma_text_map<V>(entries: Seq<(String, V)>)
    requires
        distinct_labels(entries),
    ensures
        forall|i: int|
            0 <= i < entries.len() ==> #[trigger] text_map_of(entries).contains_key(entries[i].0@)
                && text_map_of(entries)[entries[i].0@] == entries[i].1,
        forall|k: Seq<char>| #[trigger]
            text_map_of(entries).contains_key(k) ==> exists|i: int|
                0 <= i < entries.len() && (#[trigger] entries[i]).0@ == k,
    decreases entries.len(),
{
    if entries.len() > 0 {
        let rest = entries.drop_last();
        assert(distinct_labels(rest)) by {
            assert forall|i: int, j: int| 0 <= i < j < rest.len() implies (#[trigger] rest[i]).0@
                != (#[trigger] rest[j]).0@ by {
                assert(entries[i].0@ != entries[j].0@);
            }
        }
        lemma_text_map(rest);
        let n = entries.len() - 1;
        assert forall|i: int| 0 <= i < entries.len() implies #[trigger] text_map_of(
            entries,
        ).contains_key(entries[i].0@) && text_map_of(entries)[entries[i].0@] == entries[i].1 by {
            if i < n {
                assert(rest[i] == entries[i]);
                assert(text_map_of(rest).contains_key(rest[i].0@));
                assert(entries[i].0@ != entries[n].0@);
            }
        }
        assert forall|k: Seq<char>| #[trigger] text_map_of(entries).contains_key(k) implies exists|
            i: int,
        | 0 <= i < entries.len() && (#[trigger] entries[i]).0@ == k by {
            if k == entries[n].0@ {
                assert(entries[n].0@ == k);
            } else {
                assert(text_map_of(rest).contains_key(k));
                let i = choose|i: int| 0 <= i < rest.len() && (#[trigger] rest[i]).0@ == k;
                assert(entries[i].0@ == k);
            }
        }
    }
}

proof fn lemma_text_map_update<V>(entries: Seq<(String, V)>, i: int, c: V)
    requires
        distinct_labels(entries),
        0 <= i < entries.len(),
    ensures
        text_map_of(entries.update(i, (entries[i].0, c))) == text_map_of(entries).insert(
            entries[i].0@,
            c,
        ),
    decreases entries.len(),
{
    let label = entries[i].0;
    let updated = entries.update(i, (label, c));
    let rest = entries.drop_last();
    let n = entries.len() - 1;
    if i == n {
        assert(updated.drop_last() =~= rest);
        assert(text_map_of(updated) =~= text_map_of(entries).insert(label@, c));
    } else {
        assert(distinct_labels(rest)) by {
            assert forall|a: int, b: int| 0 <= a < b < rest.len() implies (#[trigger] rest[a]).0@
                != (#[trigger] rest[b]).0@ by {
                assert(entries[a].0@ != entries[b].0@);
            }
        }
        lemma_text_map_update(rest, i, c);
        assert(updated.drop_last() =~= rest.update(i, (label, c)));
        assert(entries[i].0@ != entries[n].0@);
        assert(text_map_of(updated) =~= text_map_of(entries).insert(label@, c));
    }
}

impl<V> TextMap<V> {
    #[verifier::type_invariant]
    spec fn well_formed(&self) -> bool {
        distinct_labels(self.entries@)
    }

    pub fn new() -> (r: Self)
        ensures
            r@ == Map::<Seq<char>, V>::empty(),
    {
        TextMap { entries: Vec::new() }
    }

    fn place(&self, label: &str) -> (r: Option<usize>)
        ensures
            match r {
                Some(i) => i < self.entries@.len() && self.entries@[i as int].0@ == label@
                    && self@.contains_key(label@) && self@[label@] == self.entries@[i as int].1,
                None => !self@.contains_key(label@) && forall|j: int|
                    0 <= j < self.entries@.len() ==> (#[trigger] self.entries@[j]).0@ != label@,
            },
    {
        proof {
            use_type_invariant(self);
            lemma_text_map(self.entries@);
        }
        let mut i: usize = 0;
        while i < self.entries.len()
            invariant
                i <= self.entries@.len(),
                forall|j: int| 0 <= j < i ==> (#[trigger] self.entries@[j]).0@ != label@,
            decreases self.entries@.len() - i,
        {
            if str_eq(self.entries[i].0.as_str(), label) {
                proof {
                    use_type_invariant(self);
                    lemma_text_map(self.entries@);
                    assert(self@.contains_key(self.entries@[i as int].0@));
                }
                return Some(i);
            }
            i += 1;
        }
        None
    }

    pub fn get(&self, label: &str) -> (r: Option<&V>)
        ensures
            match r {
                Some(c) => self@.contains_key(label@) && self@[label@] == *c,
                None => !self@.contains_key(label@),
            },
    {
        match self.place(label) {
            Some(i) => Some(&self.entries[i].1),
            None => None,
        }
    }

    /// Adds a value unless the label has one.
    pub fn or_insert(&mut self, label: &str, value: V)
        ensures
            final(self)@ == (if old(self)@.contains_key(label@) {
                old(self)@
            } else {
                old(self)@.insert(label@, value)
            }),
    {
        if self.place(label).is_none() {
            self.insert(label, value);
        }
    }

    pub fn insert(&mut self, label: &str, value: V)
        ensures
            final(self)@ == old(self)@.insert(label@, value),
    {
        proof {
            use_type_invariant(&*self);
        }
        let ghost before = self.entries@;
        let place = self.place(label);
        let mut entries: Vec<(String, V)> = Vec::new();
        std::mem::swap(&mut entries, &mut self.entries);
        match place {
            Some(i) => {
                let name = entries[i].0.clone();
                entries.set(i, (name, value));
                proof {
                    assert forall|a: int, b: int| 0 <= a < b < entries@.len() implies (
                    #[trigger] entries@[a]).0@ != (#[trigger] entries@[b]).0@ by {
                        assert(before[a].0@ != before[b].0@);
                    }
                    lemma_text_map_update(before, i as int, value);
                    assert(entries@ =~= before.update(i as int, (before[i as int].0, value)));
                }
            },
            None => {
                entries.push((label.to_owned(), value));
                proof {
                    assert(entries@.drop_last() =~= before);
                    assert forall|a: int, b: int| 0 <= a < b < entries@.len() implies (
                    #[trigger] entries@[a]).0@ != (#[trigger] entries@[b]).0@ by {
                        if b == before.len() {
                            assert(before[a].0@ != label@);
                        } else {
                            assert(before[a].0@ != before[b].0@);
                        }
                    }
                }
            },
        }
        self.entries = entries;
    }

    pub fn copy(&self) -> (r: Self) where V: Copy
        ensures
            r@ == self@,
    {
        proof {
            use_type_invariant(self);
        }
        let mut entries: Vec<(String, V)> = Vec::new();
        let mut i: usize = 0;
        while i < self.entries.len()
            invariant
                i <= self.entries@.len(),
                entries@ == self.entries@.take(i as int),
            decreases self.entries@.len() - i,
        {
            entries.push((self.entries[i].0.clone(), self.entries[i].1));
            assert(entries@ =~= self.entries@.take(i as int + 1));
            i += 1;
        }
        assert(self.entries@.take(i as int) =~= self.entries@);
        TextMap { entries }
    }
}

} // verus!
