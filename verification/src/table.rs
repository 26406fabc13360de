//! A map keyed by path, kept as a vector in which no key occurs twice.
//!
//! The order of the slots is the order in which the keys first came in; only
//! the map they stand for is part of the contracts.

use vstd::prelude::*;
use crate::path::FilePath;

verus! {

/// One key with its value.
pub struct Slot<V> {
    pub key: FilePath,
    pub value: V,
}

/// A map from paths to values.
pub struct PathMap<V> {
    pub slots: Vec<Slot<V>>,
}

impl<V: View> PathMap<V> {
    /// Whether some slot holds the key `k`.
    pub open spec fn has(&self, k: Seq<Seq<char>>) -> bool {
        exists|i: int| 0 <= i < self.slots.len() && (#[trigger] self.slots[i]).key@ == k
    }

    /// A slot that holds the key `k`, where there is one.
    pub open spec fn index_of(&self, k: Seq<Seq<char>>) -> int {
        choose|i: int| 0 <= i < self.slots.len() && (#[trigger] self.slots[i]).key@ == k
    }

    /// No key occurs in two slots.
    pub open spec fn wf(&self) -> bool {
        forall|i: int, j: int|
            0 <= i < j < self.slots.len() ==> (#[trigger] self.slots[i]).key@ != (
            #[trigger] self.slots[j]).key@
    }

    /// In a well-formed map the slot of a key is the only one that holds it.
    pub proof fn lemma_index_of(&self, i: int)
        requires
            self.wf(),
            0 <= i < self.slots.len(),
        ensures
            self.has(self.slots[i].key@),
            self.index_of(self.slots[i].key@) == i,
    {
        let k = self.slots[i].key@;
        let j = self.index_of(k);
        assert(0 <= j < self.slots.len() && self.slots[j].key@ == k);
        if j < i {
            assert(self.slots[j].key@ != self.slots[i].key@);
        }
        if i < j {
            assert(self.slots[i].key@ != self.slots[j].key@);
        }
    }
}

impl<V: View> View for PathMap<V> {
    type V = Map<Seq<Seq<char>>, V::V>;

    open spec fn view(&self) -> Map<Seq<Seq<char>>, V::V> {
        Map::new(|k: Seq<Seq<char>>| self.has(k), |k: Seq<Seq<char>>| self.slots[self.index_of(k)].value@)
    }
}

impl<V: View> PathMap<V> {
    /// The empty map.
    pub fn new() -> (r: Self)
        ensures
            r.wf(),
            r@ == Map::<Seq<Seq<char>>, V::V>::empty(),
            r.slots@.len() == 0,
    {
        let r = PathMap { slots: Vec::new() };
        assert(r@ =~= Map::<Seq<Seq<char>>, V::V>::empty());
        r
    }

    /// Number of keys.
    pub fn len(&self) -> (n: usize)
        ensures
            n == self.slots@.len(),
    {
        self.slots.len()
    }

    /// The slot that holds `key`, if any.
    pub fn find(&self, key: &FilePath) -> (r: Option<usize>)
        ensures
            match r {
                Some(i) => i < self.slots.len() && self.slots[i as int].key@ == key@,
                None => !self.has(key@),
            },
    {
        let mut i: usize = 0;
        while i < self.slots.len()
            invariant
                i <= self.slots.len(),
                forall|j: int| 0 <= j < i ==> (#[trigger] self.slots[j]).key@ != key@,
            decreases self.slots.len() - i,
        {
            if self.slots[i].key.same_as(key) {
                return Some(i);
            }
            i += 1;
        }
        None
    }

    /// Whether the map holds `key`.
    pub fn contains(&self, key: &FilePath) -> (r: bool)
        ensures
            r == self@.contains_key(key@),
    {
        self.find(key).is_some()
    }

    /// The value under `key`, if any.
    pub fn get(&self, key: &FilePath) -> (r: Option<&V>)
        requires
            self.wf(),
        ensures
            r is Some == self@.contains_key(key@),
            r is Some ==> r->0@ == self@[key@],
    {
        match self.find(key) {
            Some(i) => {
                proof {
                    self.lemma_index_of(i as int);
                }
                Some(&self.slots[i].value)
            },
            None => None,
        }
    }

    /// Puts `value` under `key`, in place of what was there.
    pub fn insert(&mut self, key: FilePath, value: V)
        requires
            old(self).wf(),
        ensures
            final(self).wf(),
            final(self)@ == old(self)@.insert(key@, value@),
            old(self).has(key@) ==> final(self).slots@ == old(self).slots@.update(
                old(self).index_of(key@),
                (Slot { key, value }),
            ),
            !old(self).has(key@) ==> final(self).slots@ == old(self).slots@.push(
                (Slot { key, value }),
            ),
    {
        let ghost k = key@;
        let ghost v = value@;
        match self.find(&key) {
            Some(i) => {
                proof {
                    self.lemma_index_of(i as int);
                }
                self.slots.set(i, Slot { key, value });
                proof {
                    let was = *old(self);
                    let now = *self;
                    assert(now.slots@.len() == was.slots@.len());
                    assert forall|j: int| 0 <= j < now.slots.len() implies (
                    #[trigger] now.slots[j]).key@ == was.slots[j].key@ by {}
                    assert(now.wf()) by {
                        assert forall|a: int, b: int| 0 <= a < b < now.slots.len() implies (
                        #[trigger] now.slots[a]).key@ != (#[trigger] now.slots[b]).key@ by {
                            assert(was.slots[a].key@ != was.slots[b].key@);
                        }
                    }
                    assert forall|q: Seq<Seq<char>>| now.has(q) == (was.has(q) || q == k) by {
                        if now.has(q) {
                            let j = now.index_of(q);
                            assert(was.slots[j].key@ == q);
                        }
                        if was.has(q) {
                            let j = was.index_of(q);
                            assert(now.slots[j].key@ == q);
                        }
                        if q == k {
                            assert(now.slots[i as int].key@ == q);
                        }
                    }
                    assert forall|q: Seq<Seq<char>>| now.has(q) implies #[trigger] now@[q]
                        == was@.insert(k, v)[q] by {
                        let j = now.index_of(q);
                        assert(was.slots[j].key@ == q);
                        was.lemma_index_of(j);
                        if q == k {
                            now.lemma_index_of(i as int);
                        }
                    }
                    assert(now@ =~= was@.insert(k, v));
                }
            },
            None => {
                self.slots.push(Slot { key, value });
                proof {
                    let was = *old(self);
                    let now = *self;
                    let n = was.slots.len() as int;
                    assert(now.slots@.len() == n + 1);
                    assert forall|j: int| 0 <= j < n implies (#[trigger] now.slots[j])
                        == was.slots[j] by {}
                    assert(now.wf()) by {
                        assert forall|a: int, b: int| 0 <= a < b < now.slots.len() implies (
                        #[trigger] now.slots[a]).key@ != (#[trigger] now.slots[b]).key@ by {
                            if b < n {
                                assert(was.slots[a].key@ != was.slots[b].key@);
                            } else {
                                assert(was.slots[a].key@ != k);
                            }
                        }
                    }
                    assert forall|q: Seq<Seq<char>>| now.has(q) == (was.has(q) || q == k) by {
                        if now.has(q) {
                            let j = now.index_of(q);
                            if j < n {
                                assert(was.slots[j].key@ == q);
                            }
                        }
                        if was.has(q) {
                            let j = was.index_of(q);
                            assert(now.slots[j].key@ == q);
                        }
                        if q == k {
                            assert(now.slots[n].key@ == q);
                        }
                    }
                    assert forall|q: Seq<Seq<char>>| now.has(q) implies #[trigger] now@[q]
                        == was@.insert(k, v)[q] by {
                        let j = now.index_of(q);
                        now.lemma_index_of(j);
                        if q == k {
                            now.lemma_index_of(n);
                        } else {
                            assert(j < n);
                            assert(was.slots[j].key@ == q);
                            was.lemma_index_of(j);
                        }
                    }
                    assert(now@ =~= was@.insert(k, v));
                }
            },
        }
    }

    /// Takes `key` out of the map and returns what was under it.
    pub fn remove(&mut self, key: &FilePath) -> (r: Option<V>)
        requires
            old(self).wf(),
        ensures
            final(self).wf(),
            final(self)@ == old(self)@.remove(key@),
            r is Some == old(self)@.contains_key(key@),
            r is Some ==> r->0@ == old(self)@[key@],
            r is None ==> final(self).slots@ == old(self).slots@,
            r is Some ==> 0 <= old(self).index_of(key@) < old(self).slots@.len(),
            r is Some ==> r->0 == old(self).slots@[old(self).index_of(key@)].value,
            r is Some ==> final(self).slots@ == old(self).slots@.remove(old(self).index_of(key@)),
    {
        let ghost k = key@;
        match self.find(key) {
            Some(i) => {
                let slot = self.slots.remove(i);
                proof {
                    let was = *old(self);
                    let now = *self;
                    let n = was.slots.len() as int;
                    was.lemma_index_of(i as int);
                    assert(now.slots@ == was.slots@.remove(i as int));
                    assert forall|j: int| 0 <= j < now.slots.len() implies (#[trigger] now.slots[j])
                        == was.slots[if j < i { j } else { j + 1 }] by {}
                    assert(now.wf()) by {
                        assert forall|a: int, b: int| 0 <= a < b < now.slots.len() implies (
                        #[trigger] now.slots[a]).key@ != (#[trigger] now.slots[b]).key@ by {
                            let a2 = if a < i { a } else { a + 1 };
                            let b2 = if b < i { b } else { b + 1 };
                            assert(was.slots[a2].key@ != was.slots[b2].key@);
                        }
                    }
                    assert forall|q: Seq<Seq<char>>| now.has(q) == (was.has(q) && q != k) by {
                        if now.has(q) {
                            let j = now.index_of(q);
                            let j2 = if j < i { j } else { j + 1 };
                            assert(was.slots[j2].key@ == q);
                            if j2 < i {
                                assert(was.slots[j2].key@ != was.slots[i as int].key@);
                            } else {
                                assert(was.slots[i as int].key@ != was.slots[j2].key@);
                            }
                        }
                        if was.has(q) && q != k {
                            let j = was.index_of(q);
                            let j2 = if j < i { j } else { j - 1 };
                            assert(now.slots[j2].key@ == q);
                        }
                    }
                    assert forall|q: Seq<Seq<char>>| now.has(q) implies #[trigger] now@[q]
                        == was@.remove(k)[q] by {
                        let j = now.index_of(q);
                        now.lemma_index_of(j);
                        let j2 = if j < i { j } else { j + 1 };
                        assert(was.slots[j2].key@ == q);
                        was.lemma_index_of(j2);
                    }
                    assert(now@ =~= was@.remove(k));
                }
                Some(slot.value)
            },
            None => {
                assert(self@ =~= old(self)@.remove(k));
                None
            },
        }
    }
}

} // verus!
