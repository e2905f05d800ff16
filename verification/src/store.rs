//! A homogeneous component store: at most one value per entity.
//!
//! The store is backed by one slot per entity index; each occupied slot
//! remembers the generation of the entity it was written for, so a write
//! for a fresh entity shadows anything a stale handle on the same slot
//! left behind.

use vstd::prelude::*;
use crate::entity::EntityId;

verus! {

/// The map `m` with every entry whose key lives on slot `idx` dropped.
pub open spec fn minus_index<T>(m: Map<EntityId, T>, idx: usize) -> Map<EntityId, T> {
    Map::new(|e: EntityId| m.dom().contains(e) && e.index != idx, |e: EntityId| m[e])
}

/// A store of components of one type, keyed by entity handle.
pub struct TypedStore<T> {
    slots: Vec<Option<(u64, T)>>,
}

impl<T> TypedStore<T> {
    /// Whether the slot for `e` holds a value written for exactly this
    /// generation of the slot.
    pub closed spec fn slot_has(self, e: EntityId) -> bool {
        e.index < self.slots@.len()
        && self.slots@[e.index as int] is Some
        && self.slots@[e.index as int]->Some_0.0 == e.generation
    }

    /// The association from entity handles to stored components.
    pub closed spec fn contents(self) -> Map<EntityId, T> {
        Map::new(
            |e: EntityId| self.slot_has(e),
            |e: EntityId| self.slots@[e.index as int]->Some_0.1,
        )
    }

    /// An empty store.
    pub fn new() -> (r: TypedStore<T>)
        ensures
            r.contents() == Map::<EntityId, T>::empty(),
    {
        let r = TypedStore { slots: Vec::new() };
        proof {
            assert(r.contents() =~= Map::<EntityId, T>::empty());
        }
        r
    }

    /// Inserts or overwrites the component for `e`. Never fails; an
    /// overwrite replaces the old value, and a write on a reused slot
    /// drops whatever a stale handle of that slot had stored.
    pub fn set(&mut self, e: EntityId, v: T)
        ensures
            final(self).contents() == minus_index(old(self).contents(), e.index).insert(e, v),
            final(self).contents().dom().contains(e),
            final(self).contents()[e] == v,
    {
        let ghost s0 = *self;
        while self.slots.len() <= e.index
            invariant
                self.contents() == s0.contents(),
            decreases e.index + 1 - self.slots@.len(),
        {
            self.slots.push(None);
            proof {
                assert(self.contents() =~= s0.contents());
            }
        }
        self.slots.set(e.index, Some((e.generation, v)));
        proof {
            assert(self.contents() =~= minus_index(s0.contents(), e.index).insert(e, v));
        }
    }

    /// Whether `e` has a component in this store.
    pub fn contains(&self, e: EntityId) -> (r: bool)
        ensures
            r == self.contents().dom().contains(e),
    {
        e.index < self.slots.len() && (match &self.slots[e.index] {
            Some((g, _)) => *g == e.generation,
            None => false,
        })
    }

    /// The component for `e`, or absent. Absence is a result, not an
    /// error, and no default is fabricated.
    pub fn get(&self, e: EntityId) -> (r: Option<&T>)
        ensures
            (match r {
                Some(v) => self.contents().dom().contains(e) && *v == self.contents()[e],
                None => !self.contents().dom().contains(e),
            }),
    {
        if e.index < self.slots.len() {
            match &self.slots[e.index] {
                Some((g, v)) => if *g == e.generation {
                    Some(v)
                } else {
                    None
                },
                None => None,
            }
        } else {
            None
        }
    }

    /// Removes and returns the component for `e`; removing an absent
    /// entry is a no-op, not an error.
    pub fn remove(&mut self, e: EntityId) -> (r: Option<T>)
        ensures
            final(self).contents() == old(self).contents().remove(e),
            (match r {
                Some(v) => old(self).contents().dom().contains(e) && v == old(self).contents()[e],
                None => !old(self).contents().dom().contains(e),
            }),
    {
        let present = self.contains(e);
        if present {
            let mut tmp: Option<(u64, T)> = None;
            self.slots.set_and_swap(e.index, &mut tmp);
            proof {
                assert(self.contents() =~= old(self).contents().remove(e));
            }
            match tmp {
                Some(p) => Some(p.1),
                None => {
                    proof {
                        assert(false);
                    }
                    None
                }
            }
        } else {
            proof {
                assert(self.contents() =~= old(self).contents().remove(e));
            }
            None
        }
    }

    /// All entities that have a component here, in ascending slot order:
    /// the iteration order within one tick is fixed and reproducible.
    pub fn entities(&self) -> (r: Vec<EntityId>)
        ensures
            forall|k: int| 0 <= k < r@.len() ==> self.contents().dom().contains(#[trigger] r@[k]),
            forall|e: EntityId| self.contents().dom().contains(e) ==> r@.contains(e),
            forall|k1: int, k2: int| 0 <= k1 < k2 < r@.len() ==> r@[k1].index < r@[k2].index,
    {
        let mut r: Vec<EntityId> = Vec::new();
        let mut i: usize = 0;
        while i < self.slots.len()
            invariant
                i <= self.slots@.len(),
                forall|k: int| 0 <= k < r@.len()
                    ==> self.contents().dom().contains(#[trigger] r@[k]) && r@[k].index < i,
                forall|e: EntityId| self.contents().dom().contains(e) && e.index < i ==> r@.contains(e),
                forall|k1: int, k2: int| 0 <= k1 < k2 < r@.len() ==> r@[k1].index < r@[k2].index,
            decreases self.slots@.len() - i,
        {
            match &self.slots[i] {
                Some((g, _)) => {
                    let id = EntityId { index: i, generation: *g };
                    let ghost prev = r@;
                    r.push(id);
                    proof {
                        broadcast use vstd::seq_lib::lemma_seq_contains_after_push;

                        assert(forall|e: EntityId|
                            self.contents().dom().contains(e) && e.index == i ==> e == id);
                        assert(r@.contains(id));
                    }
                }
                None => {}
            }
            i += 1;
        }
        r
    }

    /// Mutation visibility: a write is visible to every subsequent
    /// read of the same store — after `set(e, v)` the contents map `e`
    /// to `v`, which is exactly what `get(e)` then returns.
    pub proof fn lemma_mutation_visible(pre: TypedStore<T>, post: TypedStore<T>, e: EntityId, v: T)
        requires
            post.contents() == minus_index(pre.contents(), e.index).insert(e, v),
        ensures
            post.contents().dom().contains(e),
            post.contents()[e] == v,
    {
    }

    /// How many slots back this store; an upper bound on how many
    /// entities it can currently hold, and the cost of walking it.
    pub closed spec fn slot_bound(self) -> nat {
        self.slots@.len()
    }

    /// The number of backing slots, as a measure of iteration cost.
    pub fn slot_count(&self) -> (n: usize)
        ensures
            n == self.slot_bound(),
    {
        self.slots.len()
    }
}

} // verus!
