use crate::id::{ids, Id};
use crate::sparse::SparseMap;
use vstd::prelude::*;

verus! {

/// A one-to-many relation from sources of the family `S` to targets of the
/// family `T`: each target has at most one source, and each source owns the
/// set of targets linked to it.
pub struct OneToMany<S, T> {
    targets: SparseMap<S, Vec<Id<T>>>,
    source: SparseMap<T, Id<S>>,
}

impl<S, T> View for OneToMany<S, T> {
    /// The relation as a map from each linked target to its source.
    type V = Map<nat, nat>;

    closed spec fn view(&self) -> Map<nat, nat> {
        Map::new(|t: nat| self.source@.contains_key(t), |t: nat| self.source@[t]@)
    }
}

impl<S, T> Default for OneToMany<S, T> {
    /// An empty relation.
    fn default() -> (r: OneToMany<S, T>)
        ensures
            r.wf(),
            r@ == Map::<nat, nat>::empty(),
    {
        OneToMany::new()
    }
}

/// Removes the entry naming `id` from a list without repeats, if it is there.
fn remove_from_list<A>(list: &mut Vec<Id<A>>, id: &Id<A>)
    requires
        ids(old(list)@).no_duplicates(),
    ensures
        ids(final(list)@).no_duplicates(),
        forall|x: nat|
            #[trigger] ids(final(list)@).contains(x) <==> ids(old(list)@).contains(x) && x != id@,
{
    let ghost before = ids(list@);
    let mut i: usize = 0;
    while i < list.len()
        invariant
            list@ == old(list)@,
            before == ids(list@),
            before.no_duplicates(),
            0 <= i <= list@.len(),
            forall|j: int| 0 <= j < i ==> list@[j]@ != id@,
        decreases list@.len() - i,
    {
        if list[i].index() == id.index() {
            let last = list.len() - 1;
            let ghost moved = list@[last as int]@;
            list.swap_remove(i);
            let ghost after = ids(list@);
            assert(after =~= before.update(i as int, moved).drop_last());
            assert(before[i as int] == id@);
            assert(before[last as int] == moved);
            assert(after.len() == last);
            assert forall|a: int, b: int| 0 <= a < b < after.len() implies after[a] != after[b] by {
                if a == i {
                    assert(after[a] == before[last as int] && after[b] == before[b]);
                } else if b == i {
                    assert(after[a] == before[a] && after[b] == before[last as int]);
                } else {
                    assert(after[a] == before[a] && after[b] == before[b]);
                }
            }
            assert forall|x: nat| after.contains(x) <==> before.contains(x) && x != id@ by {
                if after.contains(x) {
                    let k = choose|k: int| 0 <= k < after.len() && after[k] == x;
                    if k == i {
                        assert(before[last as int] == x && last != i);
                    } else {
                        assert(before[k] == x && k != i);
                    }
                }
                if before.contains(x) && x != id@ {
                    let k = choose|k: int| 0 <= k < before.len() && before[k] == x;
                    if k == last {
                        assert(after[i as int] == x);
                    } else {
                        assert(k != i);
                        assert(after[k] == x);
                    }
                }
            }
            return;
        }
        i += 1;
    }
    assert(!before.contains(id@)) by {
        if before.contains(id@) {
            let k = choose|k: int| 0 <= k < before.len() && before[k] == id@;
            assert(list@[k]@ == id@);
        }
    }
}

impl<S, T> OneToMany<S, T> {
    /// The source that owns target `t`, if any.
    pub open spec fn source_of(&self, t: nat) -> Option<nat> {
        if self@.contains_key(t) {
            Some(self@[t])
        } else {
            None
        }
    }

    /// The targets owned by source `s`.
    pub open spec fn targets_of(&self, s: nat) -> Set<nat> {
        Set::new(|t: nat| self@.contains_key(t) && self@[t] == s)
    }

    /// The forward lists and the backward map describe one relation: each
    /// list is free of repeats, each listed target points back to its list's
    /// source, and each owned target is listed under its source.
    pub closed spec fn wf(&self) -> bool {
        &&& forall|s: nat| #[trigger]
            self.targets@.contains_key(s) ==> ids(self.targets@[s]@).no_duplicates()
        &&& forall|s: nat, t: nat|
            self.targets@.contains_key(s) && #[trigger] ids(self.targets@[s]@).contains(t)
                ==> self.source@.contains_key(t) && self.source@[t]@ == s
        &&& forall|t: nat| #[trigger]
            self.source@.contains_key(t) ==> self.targets@.contains_key(self.source@[t]@)
                && ids(self.targets@[self.source@[t]@]@).contains(t)
    }

    /// An empty relation.
    pub fn new() -> (r: OneToMany<S, T>)
        ensures
            r.wf(),
            r@ == Map::<nat, nat>::empty(),
    {
        let r = OneToMany { targets: SparseMap::new(), source: SparseMap::new() };
        assert(r@ =~= Map::<nat, nat>::empty());
        r
    }

    /// Makes `source` the owner of `target`. A previous owner of `target`, the
    /// same one included, loses it first.
    pub fn link(&mut self, source: Id<S>, target: Id<T>)
        requires
            old(self).wf(),
        ensures
            final(self).wf(),
            final(self)@ == old(self)@.insert(target@, source@),
    {
        self.unlink(target);
        let ghost mid = *self;
        let _ = self.source.insert(&target, source);
        let mut list = match self.targets.remove(&source) {
            Some(list) => list,
            None => Vec::new(),
        };
        let ghost prior = list@;
        assert(!mid.source@.contains_key(target@)) by {
            assert(!mid@.contains_key(target@));
        }
        assert(!ids(prior).contains(target@)) by {
            if ids(prior).contains(target@) {
                assert(mid.targets@.contains_key(source@));
                assert(ids(mid.targets@[source@]@).contains(target@));
            }
        }
        list.push(target);
        assert(ids(list@) =~= ids(prior).push(target@));
        let _ = self.targets.insert(&source, list);
        assert forall|s: nat, x: nat|
            self.targets@.contains_key(s) && #[trigger] ids(self.targets@[s]@).contains(x)
            implies self.source@.contains_key(x) && self.source@[x]@ == s by {
            if s == source@ {
                if x != target@ {
                    let k = choose|k: int| 0 <= k < ids(list@).len() && ids(list@)[k] == x;
                    assert(k < prior.len());
                    assert(ids(prior)[k] == x);
                    assert(mid.targets@.contains_key(s));
                    assert(ids(mid.targets@[s]@).contains(x));
                }
            } else {
                assert(ids(mid.targets@[s]@).contains(x));
            }
        }
        assert forall|x: nat| #[trigger] self.source@.contains_key(x)
            implies self.targets@.contains_key(self.source@[x]@)
                && ids(self.targets@[self.source@[x]@]@).contains(x) by {
            if x != target@ {
                assert(mid.source@.contains_key(x));
                if mid.source@[x]@ == source@ {
                    assert(ids(prior).contains(x));
                    assert(ids(list@)[ids(prior).index_of(x)] == x);
                }
            } else {
                assert(ids(list@)[ids(prior).len() as int] == x);
            }
        }
        assert forall|s: nat| #[trigger] self.targets@.contains_key(s)
            implies ids(self.targets@[s]@).no_duplicates() by {
            if s == source@ {
                assert(ids(list@) =~= ids(prior).push(target@));
            }
        }
        assert(self@ =~= mid@.insert(target@, source@));
        assert(self@ =~= old(self)@.insert(target@, source@));
    }

    /// Clears the owner of `target`, if it has one. Does nothing for a target
    /// that is not linked.
    pub fn unlink(&mut self, target: Id<T>)
        requires
            old(self).wf(),
        ensures
            final(self).wf(),
            final(self)@ == old(self)@.remove(target@),
    {
        match self.source.remove(&target) {
            Some(owner) => {
                match self.targets.remove(&owner) {
                    Some(mut list) => {
                        remove_from_list(&mut list, &target);
                        let _ = self.targets.insert(&owner, list);
                        assert forall|s: nat, x: nat|
                            self.targets@.contains_key(s) && #[trigger] ids(self.targets@[s]@).contains(x)
                            implies self.source@.contains_key(x) && self.source@[x]@ == s by {
                            if s == owner@ {
                                assert(ids(old(self).targets@[s]@).contains(x));
                            } else {
                                assert(ids(old(self).targets@[s]@).contains(x));
                            }
                        }
                        assert forall|x: nat| #[trigger] self.source@.contains_key(x)
                            implies self.targets@.contains_key(self.source@[x]@)
                                && ids(self.targets@[self.source@[x]@]@).contains(x) by {
                            assert(old(self).source@.contains_key(x));
                        }
                    },
                    None => {},
                }
            },
            None => {},
        }
        assert(self@ =~= old(self)@.remove(target@));
    }

    /// Clears every target owned by `source`; afterwards `source` owns none.
    /// Does nothing for a source that owns no target.
    pub fn unlink_source(&mut self, source: Id<S>)
        requires
            old(self).wf(),
        ensures
            final(self).wf(),
            final(self)@ == old(self)@.remove_keys(old(self).targets_of(source@)),
    {
        let ghost pre = *self;
        match self.targets.remove(&source) {
            Some(list) => {
                let ghost owned = ids(list@);
                let mut i: usize = 0;
                while i < list.len()
                    invariant
                        0 <= i <= list@.len(),
                        owned == ids(list@),
                        pre.targets@.contains_key(source@),
                        list@ == pre.targets@[source@]@,
                        self.targets@ == pre.targets@.remove(source@),
                        self.source@ == pre.source@.remove_keys(owned.take(i as int).to_set()),
                    decreases list@.len() - i,
                {
                    let _ = self.source.remove(&list[i]);
                    let ghost done = owned.take(i as int);
                    let ghost next = owned.take(i + 1);
                    assert(owned[i as int] == list@[i as int]@);
                    assert(next =~= done.push(owned[i as int]));
                    assert forall|k: nat| #[trigger] next.contains(k)
                        <==> done.contains(k) || k == owned[i as int] by {
                        if next.contains(k) && k != owned[i as int] {
                            let j = choose|j: int| 0 <= j < i + 1 && next[j] == k;
                            assert(done[j] == k);
                        }
                        if done.contains(k) {
                            let j = choose|j: int| 0 <= j < i && done[j] == k;
                            assert(next[j] == k);
                        }
                        if k == owned[i as int] {
                            assert(next[i as int] == k);
                        }
                    }
                    assert(next.to_set() =~= done.to_set().insert(owned[i as int]));
                    assert(self.source@ =~= pre.source@.remove_keys(owned.take(i + 1).to_set()));
                    i += 1;
                }
                assert(owned.take(list@.len() as int) =~= owned);
                assert forall|t: nat| #[trigger] pre.targets_of(source@).contains(t)
                    <==> owned.contains(t) by {
                    if owned.contains(t) {
                        assert(ids(pre.targets@[source@]@).contains(t));
                    }
                    if pre.targets_of(source@).contains(t) {
                        assert(pre.source@.contains_key(t));
                    }
                }
                assert(pre.targets_of(source@) =~= owned.to_set());
                assert forall|s: nat, x: nat|
                    self.targets@.contains_key(s) && #[trigger] ids(self.targets@[s]@).contains(x)
                    implies self.source@.contains_key(x) && self.source@[x]@ == s by {
                    assert(ids(pre.targets@[s]@).contains(x));
                    assert(!owned.contains(x));
                }
                assert forall|x: nat| #[trigger] self.source@.contains_key(x)
                    implies self.targets@.contains_key(self.source@[x]@)
                        && ids(self.targets@[self.source@[x]@]@).contains(x) by {
                    assert(pre.source@.contains_key(x));
                    assert(!owned.contains(x));
                }
                assert(self@ =~= pre@.remove_keys(pre.targets_of(source@)));
            },
            None => {
                assert(pre.targets_of(source@) =~= Set::empty()) by {
                    assert forall|t: nat| !pre.targets_of(source@).contains(t) by {
                        if pre.targets_of(source@).contains(t) {
                            assert(pre.source@.contains_key(t));
                        }
                    }
                }
                assert(self@ =~= pre@.remove_keys(pre.targets_of(source@)));
            },
        }
    }

    /// The targets owned by `source`, each once, in no particular order;
    /// empty for a source that owns none.
    pub fn targets(&self, source: Id<S>) -> (r: Vec<Id<T>>)
        requires
            self.wf(),
        ensures
            ids(r@).no_duplicates(),
            ids(r@).to_set() == self.targets_of(source@),
    {
        let mut r: Vec<Id<T>> = Vec::new();
        match self.targets.get(&source) {
            Some(list) => {
                let mut i: usize = 0;
                while i < list.len()
                    invariant
                        i <= list@.len(),
                        r@ == list@.take(i as int),
                    decreases list@.len() - i,
                {
                    r.push(list[i]);
                    assert(r@ =~= list@.take(i + 1));
                    i += 1;
                }
                assert(r@ =~= list@);
                assert forall|t: nat| #[trigger] self.targets_of(source@).contains(t)
                    <==> ids(r@).contains(t) by {
                    if self.targets_of(source@).contains(t) {
                        assert(self.source@.contains_key(t));
                    }
                }
            },
            None => {
                assert forall|t: nat| !#[trigger] self.targets_of(source@).contains(t) by {
                    if self.targets_of(source@).contains(t) {
                        assert(self.source@.contains_key(t));
                    }
                }
            },
        }
        assert(ids(r@).to_set() =~= self.targets_of(source@));
        r
    }

    /// The source that owns `target`, or `None` when it has none.
    pub fn source(&self, target: Id<T>) -> (r: Option<Id<S>>)
        ensures
            r matches Some(s) ==> self.source_of(target@) == Some(s@),
            r is None ==> self.source_of(target@) is None,
    {
        match self.source.get(&target) {
            Some(s) => Some(*s),
            None => None,
        }
    }
}

} // verus!
