use crate::id::Id;
use std::marker::PhantomData;
use vstd::prelude::*;

verus! {

/// A sparse store of values keyed by identifiers of the family `A`.
///
/// Slots are created lazily, the first time a key beyond the current end is
/// written; an empty slot and a missing slot both mean "no value".
pub struct SparseMap<A, V> {
    slots: Vec<Option<V>>,
    family: PhantomData<A>,
}

impl<A, V> View for SparseMap<A, V> {
    type V = Map<nat, V>;

    closed spec fn view(&self) -> Map<nat, V> {
        Map::new(
            |k: nat| k < self.slots@.len() && self.slots@[k as int] is Some,
            |k: nat| self.slots@[k as int]->0,
        )
    }
}

impl<A, V> SparseMap<A, V> {
    /// An empty store.
    pub fn new() -> (r: SparseMap<A, V>)
        ensures
            r@ == Map::<nat, V>::empty(),
    {
        let r = SparseMap { slots: Vec::new(), family: PhantomData };
        assert(r@ =~= Map::<nat, V>::empty());
        r
    }

    /// The value stored under `key`, if any.
    pub fn get(&self, key: &Id<A>) -> (r: Option<&V>)
        ensures
            r matches Some(v) ==> self@.contains_key(key@) && *v == self@[key@],
            r is None ==> !self@.contains_key(key@),
    {
        let i = key.index();
        if i < self.slots.len() {
            match &self.slots[i] {
                Some(v) => Some(v),
                None => None,
            }
        } else {
            None
        }
    }

    /// Stores `value` under `key`, creating the slot if needed; returns the
    /// value that was there before.
    pub fn insert(&mut self, key: &Id<A>, value: V) -> (r: Option<V>)
        ensures
            final(self)@ == old(self)@.insert(key@, value),
            r matches Some(v) ==> old(self)@.contains_key(key@) && v == old(self)@[key@],
            r is None ==> !old(self)@.contains_key(key@),
    {
        let i = key.index();
        let ghost before = self.slots@;
        while self.slots.len() <= i
            invariant
                before.len() <= self.slots@.len(),
                self.slots@.len() == before.len() || self.slots@.len() <= i + 1,
                forall|j: int| 0 <= j < before.len() ==> self.slots@[j] == before[j],
                forall|j: int| before.len() <= j < self.slots@.len() ==> self.slots@[j] is None,
            decreases i + 1 - self.slots@.len(),
        {
            self.slots.push(None);
        }
        let mut slot = Some(value);
        self.slots.set_and_swap(i, &mut slot);
        assert(self@ =~= old(self)@.insert(key@, value));
        slot
    }

    /// Takes the value stored under `key` out of the store, if any.
    pub fn remove(&mut self, key: &Id<A>) -> (r: Option<V>)
        ensures
            final(self)@ == old(self)@.remove(key@),
            r matches Some(v) ==> old(self)@.contains_key(key@) && v == old(self)@[key@],
            r is None ==> !old(self)@.contains_key(key@),
    {
        let i = key.index();
        if i < self.slots.len() {
            let mut slot = None;
            self.slots.set_and_swap(i, &mut slot);
            assert(self@ =~= old(self)@.remove(key@));
            slot
        } else {
            assert(self@ =~= old(self)@.remove(key@));
            None
        }
    }
}

} // verus!
