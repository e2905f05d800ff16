//! Entity handles and the registry that allocates and retires them.
//!
//! An entity handle pairs a slot index with a generation counter, so a
//! handle to a destroyed entity can never silently alias a later entity
//! that reuses the slot.

use vstd::prelude::*;

verus! {

/// An opaque handle to an entity: a slot index plus the generation the
/// slot had when the entity was created.
#[derive(Clone, Copy, PartialEq, Eq, Structural, Hash, Debug)]
pub struct EntityId {
    pub index: usize,
    pub generation: u64,
}

/// A freshly created entity, ready for chained component writes; pure
/// sugar holding the bound handle, with no bookkeeping of its own.
#[derive(Clone, Copy, PartialEq, Eq, Structural, Debug)]
pub struct EntityBuilder {
    pub id: EntityId,
}

/// Allocates and retires entity handles.
///
/// Slots are reused through a free list; each reuse bumps the slot's
/// generation, so a retired handle never compares equal to a live one.
pub struct EntityRegistry {
    /// Current generation of each slot.
    gens: Vec<u64>,
    /// Whether each slot currently holds a live entity.
    live: Vec<bool>,
    /// Slots available for reuse: dead, distinct, in range.
    free: Vec<usize>,
    /// All handles ever destroyed.
    retired: Ghost<Set<EntityId>>,
}

impl EntityRegistry {
    /// The set of handles of currently live entities: one per live slot,
    /// carrying that slot's current generation.
    pub closed spec fn live_ids(self) -> Set<EntityId> {
        Set::new(|e: EntityId|
            e.index < self.gens@.len()
            && self.live@[e.index as int]
            && self.gens@[e.index as int] == e.generation)
    }

    /// The set of handles that were destroyed at some point.
    pub closed spec fn retired_ids(self) -> Set<EntityId> {
        self.retired@
    }

    /// Internal consistency: the free list holds distinct dead slots, and
    /// every retired handle is stale (its slot moved past it, or its slot
    /// is dead and permanently withdrawn from reuse).
    pub closed spec fn wf(self) -> bool {
        &&& self.live@.len() == self.gens@.len()
        &&& forall|k: int| 0 <= k < self.free@.len()
                ==> (#[trigger] self.free@[k]) < self.gens@.len() && !self.live@[self.free@[k] as int]
        &&& forall|k1: int, k2: int| 0 <= k1 < k2 < self.free@.len()
                ==> self.free@[k1] != self.free@[k2]
        &&& forall|e: EntityId| #[trigger] self.retired@.contains(e)
                ==> e.index < self.gens@.len()
                    && (e.generation < self.gens@[e.index as int]
                        || (e.generation == self.gens@[e.index as int]
                            && !self.live@[e.index as int]
                            && !self.free@.contains(e.index)))
    }

    /// An empty registry: no entities, nothing retired.
    pub fn new() -> (r: EntityRegistry)
        ensures
            r.wf(),
            r.live_ids() == Set::<EntityId>::empty(),
            r.retired_ids() == Set::<EntityId>::empty(),
    {
        let r = EntityRegistry {
            gens: Vec::new(),
            live: Vec::new(),
            free: Vec::new(),
            retired: Ghost(Set::empty()),
        };
        proof {
            assert(r.live_ids() =~= Set::<EntityId>::empty());
        }
        r
    }

    /// Creates a fresh entity and returns a builder bound to its handle.
    /// The handle is live, was not live before, and does not alias any
    /// handle ever destroyed.
    pub fn create(&mut self) -> (b: EntityBuilder)
        requires
            old(self).wf(),
        ensures
            final(self).wf(),
            !old(self).live_ids().contains(b.id),
            !old(self).retired_ids().contains(b.id),
            final(self).live_ids() == old(self).live_ids().insert(b.id),
            final(self).retired_ids() == old(self).retired_ids(),
    {
        match self.free.pop() {
            Some(i) => {
                let g = self.gens[i];
                self.live.set(i, true);
                let id = EntityId { index: i, generation: g };
                let b = EntityBuilder { id };
                proof {
                    assert(old(self).free@.contains(i));
                    assert(self.live_ids() =~= old(self).live_ids().insert(id));
                }
                b
            }
            None => {
                let i = self.gens.len();
                self.gens.push(0);
                self.live.push(true);
                let id = EntityId { index: i, generation: 0 };
                let b = EntityBuilder { id };
                proof {
                    assert(self.live_ids() =~= old(self).live_ids().insert(id));
                }
                b
            }
        }
    }

    /// Destroys the entity with this handle, if it is live; destroying a
    /// stale or unknown handle is a no-op. Returns whether it was live.
    pub fn destroy(&mut self, id: EntityId) -> (was_live: bool)
        requires
            old(self).wf(),
        ensures
            final(self).wf(),
            was_live == old(self).live_ids().contains(id),
            final(self).live_ids() == old(self).live_ids().remove(id),
            was_live ==> final(self).retired_ids() == old(self).retired_ids().insert(id),
            !was_live ==> *final(self) == *old(self),
    {
        if id.index < self.gens.len() && self.live[id.index] && self.gens[id.index] == id.generation {
            self.live.set(id.index, false);
            if id.generation < u64::MAX {
                self.gens.set(id.index, id.generation + 1);
                self.free.push(id.index);
            }
            proof {
                self.retired@ = self.retired@.insert(id);
                assert(self.live_ids() =~= old(self).live_ids().remove(id));
            }
            true
        } else {
            proof {
                assert(self.live_ids() =~= old(self).live_ids().remove(id));
            }
            false
        }
    }

    /// Whether this handle refers to a currently live entity.
    pub fn is_live(&self, id: EntityId) -> (r: bool)
        requires
            self.wf(),
        ensures
            r == self.live_ids().contains(id),
    {
        id.index < self.gens.len() && self.live[id.index] && self.gens[id.index] == id.generation
    }

    /// Entity identity: two live handles on the same slot are the same
    /// handle, so no two distinct live entities ever share a handle — nor
    /// even a slot.
    pub proof fn lemma_live_ids_distinct(self, a: EntityId, b: EntityId)
        requires
            self.live_ids().contains(a),
            self.live_ids().contains(b),
            a.index == b.index,
        ensures
            a == b,
    {
    }

    /// Staleness is permanent: a retired handle is never the handle of a
    /// live entity.
    pub proof fn lemma_retired_never_live(self, e: EntityId)
        requires
            self.wf(),
            self.retired_ids().contains(e),
        ensures
            !self.live_ids().contains(e),
    {
    }
}

} // verus!
