//! A table of counters keyed by strings, each key at most once (what a
//! `HashMap<String, u64>` of counters holds).
use vstd::prelude::*;

use crate::utils::assoc::{
    assoc_map, keys_distinct, lemma_assoc_domain, lemma_assoc_len, lemma_assoc_push, lemma_assoc_update,
    lemma_assoc_value,
};

verus! {

/// The count of `k` in `m`, 0 where `m` has none.
pub open spec fn count_or_zero(m: Map<Seq<char>, nat>, k: Seq<char>) -> nat {
    if m.contains_key(k) {
        m[k]
    } else {
        0
    }
}

/// Every count of `m` fits in a `u64`.
pub open spec fn fits_u64(m: Map<Seq<char>, nat>) -> bool {
    forall|k: Seq<char>| m.contains_key(k) ==> m[k] <= u64::MAX
}

/// Counters keyed by strings, kept in the order in which the keys first came.
#[derive(Debug)]
pub struct CountTable {
    entries: Vec<(String, u64)>,
}

impl View for CountTable {
    type V = Map<Seq<char>, nat>;

    closed spec fn view(&self) -> Map<Seq<char>, nat> {
        assoc_map(self.pairs())
    }
}

impl CountTable {
    /// The (key, count) pairs in the order in which the keys first came.
    pub closed spec fn pairs(&self) -> Seq<(Seq<char>, nat)> {
        self.entries@.map_values(|e: (String, u64)| (e.0@, e.1 as nat))
    }

    /// No key twice (the table's invariant).
    #[verifier::type_invariant]
    pub closed spec fn wf(&self) -> bool {
        keys_distinct(self.pairs())
    }

    /// The map and the pairs agree: the keys are those of the pairs, each with
    /// its count, no key twice, every count a `u64`.
    pub proof fn lemma_view_is_pairs(&self)
        requires
            self.wf(),
        ensures
            keys_distinct(self.pairs()),
            self@ == assoc_map(self.pairs()),
            fits_u64(self@),
            self@.len() == self.pairs().len(),
            forall|k: Seq<char>|
                self@.contains_key(k) <==> exists|i: int| 0 <= i < self.pairs().len() && self.pairs()[i].0 == k,
            forall|i: int|
                0 <= i < self.pairs().len() ==> #[trigger] self@[self.pairs()[i].0] == self.pairs()[i].1,
    {
        assert forall|k: Seq<char>|
            self@.contains_key(k) <==> exists|i: int| 0 <= i < self.pairs().len() && self.pairs()[i].0 == k by {
            lemma_assoc_domain(self.pairs(), k);
        }
        assert forall|i: int| 0 <= i < self.pairs().len() implies #[trigger] self@[self.pairs()[i].0]
            == self.pairs()[i].1 by {
            lemma_assoc_value(self.pairs(), i);
        }
        assert forall|k: Seq<char>| self@.contains_key(k) implies self@[k] <= u64::MAX by {
            let i = choose|i: int| 0 <= i < self.pairs().len() && self.pairs()[i].0 == k;
            assert(self@[self.pairs()[i].0] == self.pairs()[i].1);
            assert(self.pairs()[i].1 == self.entries@[i].1 as nat);
        }
        lemma_assoc_len(self.pairs());
    }

    /// A table with the same pairs.
    pub fn copy(&self) -> (t: CountTable)
        ensures
            t.pairs() == self.pairs(),
            t@ == self@,
    {
        proof {
            use_type_invariant(self);
        }
        let mut entries: Vec<(String, u64)> = Vec::new();
        let mut i: usize = 0;
        while i < self.entries.len()
            invariant
                i <= self.entries@.len(),
                entries@.len() == i,
                entries@.map_values(|e: (String, u64)| (e.0@, e.1 as nat)) =~= self.pairs().take(i as int),
            decreases self.entries@.len() - i,
        {
            let k = self.entries[i].0.clone();
            let v = self.entries[i].1;
            assert(k@ == self.pairs()[i as int].0 && v as nat == self.pairs()[i as int].1);
            let ghost before = entries@;
            entries.push((k, v));
            assert(entries@ == before.push((k, v)));
            assert forall|q: int| 0 <= q < i + 1 implies entries@.map_values(
                |e: (String, u64)| (e.0@, e.1 as nat),
            )[q] == self.pairs().take(i + 1)[q] && #[trigger] entries@[q] == entries@[q] by {
                if q < i {
                    assert(entries@[q] == before[q]);
                    assert(before.map_values(|e: (String, u64)| (e.0@, e.1 as nat))[q] == self.pairs().take(
                        i as int,
                    )[q]);
                }
            }
            assert(entries@.map_values(|e: (String, u64)| (e.0@, e.1 as nat)) =~= self.pairs().take(i + 1));
            i = i + 1;
        }
        assert(self.pairs().take(self.entries@.len() as int) =~= self.pairs());
        CountTable { entries }
    }

    /// An empty table.
    pub fn new() -> (t: CountTable)
        ensures
            t@ == Map::<Seq<char>, nat>::empty(),
            t.pairs() == Seq::<(Seq<char>, nat)>::empty(),
    {
        let t = CountTable { entries: Vec::new() };
        assert(t.pairs() =~= Seq::<(Seq<char>, nat)>::empty());
        t
    }

    /// The number of keys.
    pub fn len(&self) -> (n: usize)
        ensures
            n == self.pairs().len(),
            n == self@.len(),
    {
        proof {
            use_type_invariant(self);
            self.lemma_view_is_pairs();
        }
        self.entries.len()
    }

    /// The index of `key` among the pairs, if it is there.
    fn find(&self, key: &String) -> (r: Option<usize>)
        ensures
            r matches Some(i) ==> i < self.pairs().len() && self.pairs()[i as int].0 == key@,
            r is None ==> forall|i: int| 0 <= i < self.pairs().len() ==> self.pairs()[i].0 != key@,
    {
        let mut i: usize = 0;
        while i < self.entries.len()
            invariant
                i <= self.entries@.len(),
                forall|j: int| 0 <= j < i ==> self.pairs()[j].0 != key@,
            decreases self.entries@.len() - i,
        {
            if self.entries[i].0 == *key {
                return Some(i);
            }
            i = i + 1;
        }
        None
    }

    /// The count of `key`, if the table has one.
    pub fn get(&self, key: &String) -> (r: Option<u64>)
        ensures
            r is Some <==> self@.contains_key(key@),
            r matches Some(v) ==> v == self@[key@],
    {
        proof {
            use_type_invariant(self);
            self.lemma_view_is_pairs();
        }
        match self.find(key) {
            Some(i) => Some(self.entries[i].1),
            None => None,
        }
    }

    /// The pair at index `i`.
    pub fn pair_at(&self, i: usize) -> (r: (&String, u64))
        requires
            i < self.pairs().len(),
        ensures
            r.0@ == self.pairs()[i as int].0,
            r.1 == self.pairs()[i as int].1,
    {
        (&self.entries[i].0, self.entries[i].1)
    }

    /// Adds one to the count of `key`, starting from 0 where it has none
    /// (`*entry(key).or_insert(0) += 1`).
    pub fn increment(&mut self, key: &String)
        requires
            count_or_zero(old(self)@, key@) < u64::MAX,
        ensures
            final(self)@ == old(self)@.insert(key@, count_or_zero(old(self)@, key@) + 1),
            old(self)@.contains_key(key@) ==> final(self).pairs().len() == old(self).pairs().len(),
            !old(self)@.contains_key(key@) ==> final(self).pairs() == old(self).pairs().push((key@, 1nat)),
    {
        proof {
            use_type_invariant(&*self);
            self.lemma_view_is_pairs();
        }
        let ghost old_pairs = self.pairs();
        let idx = self.find(key);
        let mut entries: Vec<(String, u64)> = Vec::new();
        std::mem::swap(&mut entries, &mut self.entries);
        assert(entries@.map_values(|e: (String, u64)| (e.0@, e.1 as nat)) == old_pairs);
        match idx {
            Some(i) => {
                let v = entries[i].1;
                let k = entries[i].0.clone();
                proof {
                    assert(old_pairs[i as int].1 == v as nat);
                    lemma_assoc_value(old_pairs, i as int);
                    lemma_assoc_update(old_pairs, i as int, (v + 1) as nat);
                }
                entries.set(i, (k, v + 1));
                assert(entries@.map_values(|e: (String, u64)| (e.0@, e.1 as nat)) =~= old_pairs.update(
                    i as int,
                    (old_pairs[i as int].0, (v + 1) as nat),
                ));
            },
            None => {
                proof {
                    lemma_assoc_domain(old_pairs, key@);
                    lemma_assoc_push(old_pairs, key@, 1nat);
                }
                entries.push((key.clone(), 1));
                assert(entries@.map_values(|e: (String, u64)| (e.0@, e.1 as nat)) =~= old_pairs.push((key@, 1nat)));
            },
        }
        self.entries = entries;
    }

    /// Removes every key.
    pub fn clear(&mut self)
        ensures
            final(self)@ == Map::<Seq<char>, nat>::empty(),
            final(self).pairs() == Seq::<(Seq<char>, nat)>::empty(),
    {
        self.entries = Vec::new();
        assert(self.pairs() =~= Seq::<(Seq<char>, nat)>::empty());
    }
}

} // verus!
