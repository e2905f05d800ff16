//! The world: a registry owning one store per registered component kind
//! and one cell per registered resource kind, the accessor-construction
//! entry points, and the join operator over its stores.
//!
//! Component kinds share one value type `C` and resource kinds one value
//! type `R`: an application fixes its component set as a tagged union and
//! registers one store per variant, which keeps the registry free of any
//! runtime type lookup.

use vstd::prelude::*;
use crate::CoreError;
use crate::access::{AccessTracker, Accessor, LockState, Mode, Target};
use crate::entity::{EntityBuilder, EntityId};
use crate::store::{TypedStore, minus_index};
use crate::resource::ResourceCell;

verus! {

/// Owns all component stores and resource cells; pure data, no logic.
pub struct World<C, R> {
    stores: Vec<TypedStore<C>>,
    resources: Vec<ResourceCell<R>>,
    tracker: AccessTracker,
}

impl<C, R> World<C, R> {
    /// How many component kinds are registered.
    pub closed spec fn store_count(self) -> nat {
        self.stores@.len()
    }

    /// How many resource kinds are registered.
    pub closed spec fn resource_count(self) -> nat {
        self.resources@.len()
    }

    /// The contents of store `i`.
    pub closed spec fn store_contents(self, i: int) -> Map<EntityId, C> {
        self.stores@[i].contents()
    }

    /// The value of resource `i`, if inserted.
    pub closed spec fn resource_at(self, i: int) -> Option<R> {
        self.resources@[i].stored()
    }

    /// The current accessor bookkeeping.
    pub closed spec fn locks(self) -> AccessTracker {
        self.tracker
    }

    /// The tracker covers exactly the registered stores and resources.
    pub open spec fn wf(self) -> bool {
        &&& self.locks().wf()
        &&& self.locks().store_count() == self.store_count()
        &&& self.locks().resource_count() == self.resource_count()
    }

    /// Whether an access target refers to a registered store or resource.
    pub open spec fn target_in_range(self, t: Target) -> bool {
        match t {
            Target::Store(i) => i < self.store_count(),
            Target::Resource(i) => i < self.resource_count(),
        }
    }

    /// A world with nothing registered.
    pub fn new() -> (w: World<C, R>)
        ensures
            w.wf(),
            w.store_count() == 0,
            w.resource_count() == 0,
    {
        World { stores: Vec::new(), resources: Vec::new(), tracker: AccessTracker::new() }
    }

    /// Registers a new component kind; its store starts empty. Returns
    /// the store's index. Each call registers a distinct kind: register
    /// each kind once.
    pub fn register_component(&mut self) -> (id: usize)
        requires
            old(self).wf(),
        ensures
            final(self).wf(),
            id == old(self).store_count(),
            final(self).store_count() == old(self).store_count() + 1,
            final(self).resource_count() == old(self).resource_count(),
            final(self).store_contents(id as int) == Map::<EntityId, C>::empty(),
            forall|j: int| 0 <= j < old(self).store_count()
                ==> final(self).store_contents(j) == old(self).store_contents(j),
            forall|j: int| 0 <= j < old(self).resource_count()
                ==> final(self).resource_at(j) == old(self).resource_at(j),
    {
        let id = self.stores.len();
        self.stores.push(TypedStore::new());
        self.tracker.add_store();
        id
    }

    /// Registers a new resource kind; its cell starts empty. Returns the
    /// resource's index.
    pub fn register_resource(&mut self) -> (id: usize)
        requires
            old(self).wf(),
        ensures
            final(self).wf(),
            id == old(self).resource_count(),
            final(self).resource_count() == old(self).resource_count() + 1,
            final(self).store_count() == old(self).store_count(),
            final(self).resource_at(id as int) is None,
            forall|j: int| 0 <= j < old(self).resource_count()
                ==> final(self).resource_at(j) == old(self).resource_at(j),
            forall|j: int| 0 <= j < old(self).store_count()
                ==> final(self).store_contents(j) == old(self).store_contents(j),
    {
        let id = self.resources.len();
        self.resources.push(ResourceCell::new());
        self.tracker.add_resource();
        id
    }

    /// Installs the value of resource `id`, replacing any prior value.
    pub fn insert_resource(&mut self, id: usize, value: R)
        requires
            old(self).wf(),
            id < old(self).resource_count(),
        ensures
            final(self).wf(),
            final(self).store_count() == old(self).store_count(),
            final(self).resource_count() == old(self).resource_count(),
            final(self).locks() == old(self).locks(),
            final(self).resource_at(id as int) == Some(value),
            forall|j: int| 0 <= j < old(self).resource_count() && j != id
                ==> final(self).resource_at(j) == old(self).resource_at(j),
            forall|j: int| 0 <= j < old(self).store_count()
                ==> final(self).store_contents(j) == old(self).store_contents(j),
    {
        let mut tmp: ResourceCell<R> = ResourceCell::new();
        self.resources.set_and_swap(id, &mut tmp);
        tmp.insert(value);
        self.resources.set_and_swap(id, &mut tmp);
    }

    /// The value of resource `id`, or a missing-resource error if it was
    /// never inserted or `id` is not a registered resource.
    pub fn get_resource(&self, id: usize) -> (r: Result<&R, CoreError>)
        ensures
            (match r {
                Ok(v) => id < self.resource_count() && self.resource_at(id as int) == Some(*v),
                Err(e) => {
                    &&& (id < self.resource_count() ==> self.resource_at(id as int) is None)
                    &&& e == CoreError::ResourceMissing
                },
            }),
    {
        if id < self.resources.len() {
            self.resources[id].get()
        } else {
            Err(CoreError::ResourceMissing)
        }
    }

    /// Writes component `v` for entity `e` into store `store`.
    pub fn set_comp(&mut self, store: usize, e: EntityId, v: C)
        requires
            old(self).wf(),
            store < old(self).store_count(),
        ensures
            final(self).wf(),
            final(self).store_count() == old(self).store_count(),
            final(self).resource_count() == old(self).resource_count(),
            final(self).locks() == old(self).locks(),
            final(self).store_contents(store as int)
                == minus_index(old(self).store_contents(store as int), e.index).insert(e, v),
            final(self).store_contents(store as int).dom().contains(e),
            final(self).store_contents(store as int)[e] == v,
            forall|j: int| 0 <= j < old(self).store_count() && j != store
                ==> final(self).store_contents(j) == old(self).store_contents(j),
            forall|j: int| 0 <= j < old(self).resource_count()
                ==> final(self).resource_at(j) == old(self).resource_at(j),
    {
        let mut tmp: TypedStore<C> = TypedStore::new();
        self.stores.set_and_swap(store, &mut tmp);
        tmp.set(e, v);
        self.stores.set_and_swap(store, &mut tmp);
    }

    /// The component of entity `e` in store `store`, or absent.
    pub fn get_comp(&self, store: usize, e: EntityId) -> (r: Option<&C>)
        requires
            store < self.store_count(),
        ensures
            (match r {
                Some(v) => self.store_contents(store as int).dom().contains(e)
                    && *v == self.store_contents(store as int)[e],
                None => !self.store_contents(store as int).dom().contains(e),
            }),
    {
        self.stores[store].get(e)
    }

    /// Whether entity `e` has a component in store `store`.
    pub fn contains_comp(&self, store: usize, e: EntityId) -> (r: bool)
        requires
            store < self.store_count(),
        ensures
            r == self.store_contents(store as int).dom().contains(e),
    {
        self.stores[store].contains(e)
    }

    /// Removes and returns the component of `e` in store `store`;
    /// removing an absent entry is a no-op.
    pub fn remove_comp(&mut self, store: usize, e: EntityId) -> (r: Option<C>)
        requires
            old(self).wf(),
            store < old(self).store_count(),
        ensures
            final(self).wf(),
            final(self).store_count() == old(self).store_count(),
            final(self).resource_count() == old(self).resource_count(),
            final(self).locks() == old(self).locks(),
            final(self).store_contents(store as int)
                == old(self).store_contents(store as int).remove(e),
            (match r {
                Some(v) => old(self).store_contents(store as int).dom().contains(e)
                    && v == old(self).store_contents(store as int)[e],
                None => !old(self).store_contents(store as int).dom().contains(e),
            }),
            forall|j: int| 0 <= j < old(self).store_count() && j != store
                ==> final(self).store_contents(j) == old(self).store_contents(j),
            forall|j: int| 0 <= j < old(self).resource_count()
                ==> final(self).resource_at(j) == old(self).resource_at(j),
    {
        let mut tmp: TypedStore<C> = TypedStore::new();
        self.stores.set_and_swap(store, &mut tmp);
        let r = tmp.remove(e);
        self.stores.set_and_swap(store, &mut tmp);
        r
    }

    /// The entities of store `store`, ascending by slot.
    pub fn store_entities(&self, store: usize) -> (r: Vec<EntityId>)
        requires
            store < self.store_count(),
        ensures
            forall|k: int| 0 <= k < r@.len()
                ==> self.store_contents(store as int).dom().contains(#[trigger] r@[k]),
            forall|e: EntityId| self.store_contents(store as int).dom().contains(e)
                ==> r@.contains(e),
            forall|k1: int, k2: int| 0 <= k1 < k2 < r@.len() ==> r@[k1].index < r@[k2].index,
    {
        self.stores[store].entities()
    }

    /// Grants an accessor on a registered target, or reports the
    /// conflict; this is the accessor-construction entry point, and the
    /// runtime backstop of the accessor invariant.
    pub fn acquire(&mut self, target: Target, mode: Mode) -> (r: Result<Accessor, CoreError>)
        requires
            old(self).wf(),
            old(self).target_in_range(target),
        ensures
            final(self).wf(),
            final(self).store_count() == old(self).store_count(),
            final(self).resource_count() == old(self).resource_count(),
            forall|j: int| 0 <= j < old(self).store_count()
                ==> final(self).store_contents(j) == old(self).store_contents(j),
            forall|j: int| 0 <= j < old(self).resource_count()
                ==> final(self).resource_at(j) == old(self).resource_at(j),
            r is Ok <==> old(self).locks().compatible(target, mode),
            r is Err ==> r->Err_0 == CoreError::AccessConflict && final(self).locks() == old(self).locks(),
            r is Ok ==> r->Ok_0 == (Accessor { target, mode }),
            r is Ok ==> forall|t: Target| t != target && old(self).locks().in_range(t)
                ==> final(self).locks().state_of(t) == old(self).locks().state_of(t),
            r is Ok && mode is Shared
                ==> final(self).locks().state_of(target) == (LockState {
                    shared: (old(self).locks().state_of(target).shared + 1) as usize,
                    exclusive: false,
                }),
            r is Ok && mode is Exclusive
                ==> final(self).locks().state_of(target) == (LockState { shared: 0, exclusive: true }),
    {
        self.tracker.acquire(target, mode)
    }


    /// Grants a shared (read-only) accessor on component store `id`, or reports the conflict.
    pub fn read_store(&mut self, id: usize) -> (r: Result<Accessor, CoreError>)
        requires
            old(self).wf(),
            id < old(self).store_count(),
        ensures
            final(self).wf(),
            final(self).store_count() == old(self).store_count(),
            final(self).resource_count() == old(self).resource_count(),
            forall|j: int| 0 <= j < old(self).store_count()
                ==> final(self).store_contents(j) == old(self).store_contents(j),
            forall|j: int| 0 <= j < old(self).resource_count()
                ==> final(self).resource_at(j) == old(self).resource_at(j),
            r is Ok <==> old(self).locks().compatible(Target::Store(id), Mode::Shared),
            r is Err ==> r->Err_0 == CoreError::AccessConflict
                && final(self).locks() == old(self).locks(),
            r is Ok ==> r->Ok_0 == (Accessor { target: Target::Store(id), mode: Mode::Shared }),
            r is Ok ==> forall|t: Target| t != Target::Store(id) && old(self).locks().in_range(t)
                ==> final(self).locks().state_of(t) == old(self).locks().state_of(t),
            r is Ok ==> final(self).locks().state_of(Target::Store(id))
                == (LockState {
                    shared: (old(self).locks().state_of(Target::Store(id)).shared + 1) as usize,
                    exclusive: false,
                }),
    {
        self.acquire(Target::Store(id), Mode::Shared)
    }

    /// Grants an exclusive (read-write) accessor on component store `id`, or reports the conflict.
    pub fn write_store(&mut self, id: usize) -> (r: Result<Accessor, CoreError>)
        requires
            old(self).wf(),
            id < old(self).store_count(),
        ensures
            final(self).wf(),
            final(self).store_count() == old(self).store_count(),
            final(self).resource_count() == old(self).resource_count(),
            forall|j: int| 0 <= j < old(self).store_count()
                ==> final(self).store_contents(j) == old(self).store_contents(j),
            forall|j: int| 0 <= j < old(self).resource_count()
                ==> final(self).resource_at(j) == old(self).resource_at(j),
            r is Ok <==> old(self).locks().compatible(Target::Store(id), Mode::Exclusive),
            r is Err ==> r->Err_0 == CoreError::AccessConflict
                && final(self).locks() == old(self).locks(),
            r is Ok ==> r->Ok_0 == (Accessor { target: Target::Store(id), mode: Mode::Exclusive }),
            r is Ok ==> forall|t: Target| t != Target::Store(id) && old(self).locks().in_range(t)
                ==> final(self).locks().state_of(t) == old(self).locks().state_of(t),
            r is Ok ==> final(self).locks().state_of(Target::Store(id))
                == (LockState { shared: 0, exclusive: true }),
    {
        self.acquire(Target::Store(id), Mode::Exclusive)
    }

    /// Grants a shared (read-only) accessor on resource `id`, or reports the conflict.
    pub fn read_resource(&mut self, id: usize) -> (r: Result<Accessor, CoreError>)
        requires
            old(self).wf(),
            id < old(self).resource_count(),
        ensures
            final(self).wf(),
            final(self).store_count() == old(self).store_count(),
            final(self).resource_count() == old(self).resource_count(),
            forall|j: int| 0 <= j < old(self).store_count()
                ==> final(self).store_contents(j) == old(self).store_contents(j),
            forall|j: int| 0 <= j < old(self).resource_count()
                ==> final(self).resource_at(j) == old(self).resource_at(j),
            r is Ok <==> old(self).locks().compatible(Target::Resource(id), Mode::Shared),
            r is Err ==> r->Err_0 == CoreError::AccessConflict
                && final(self).locks() == old(self).locks(),
            r is Ok ==> r->Ok_0 == (Accessor { target: Target::Resource(id), mode: Mode::Shared }),
            r is Ok ==> forall|t: Target| t != Target::Resource(id) && old(self).locks().in_range(t)
                ==> final(self).locks().state_of(t) == old(self).locks().state_of(t),
            r is Ok ==> final(self).locks().state_of(Target::Resource(id))
                == (LockState {
                    shared: (old(self).locks().state_of(Target::Resource(id)).shared + 1) as usize,
                    exclusive: false,
                }),
    {
        self.acquire(Target::Resource(id), Mode::Shared)
    }

    /// Grants an exclusive (read-write) accessor on resource `id`, or reports the conflict.
    pub fn write_resource(&mut self, id: usize) -> (r: Result<Accessor, CoreError>)
        requires
            old(self).wf(),
            id < old(self).resource_count(),
        ensures
            final(self).wf(),
            final(self).store_count() == old(self).store_count(),
            final(self).resource_count() == old(self).resource_count(),
            forall|j: int| 0 <= j < old(self).store_count()
                ==> final(self).store_contents(j) == old(self).store_contents(j),
            forall|j: int| 0 <= j < old(self).resource_count()
                ==> final(self).resource_at(j) == old(self).resource_at(j),
            r is Ok <==> old(self).locks().compatible(Target::Resource(id), Mode::Exclusive),
            r is Err ==> r->Err_0 == CoreError::AccessConflict
                && final(self).locks() == old(self).locks(),
            r is Ok ==> r->Ok_0 == (Accessor { target: Target::Resource(id), mode: Mode::Exclusive }),
            r is Ok ==> forall|t: Target| t != Target::Resource(id) && old(self).locks().in_range(t)
                ==> final(self).locks().state_of(t) == old(self).locks().state_of(t),
            r is Ok ==> final(self).locks().state_of(Target::Resource(id))
                == (LockState { shared: 0, exclusive: true }),
    {
        self.acquire(Target::Resource(id), Mode::Exclusive)
    }

    /// Gives a granted accessor back at the end of its scope.
    pub fn release(&mut self, acc: Accessor)
        requires
            old(self).wf(),
            old(self).target_in_range(acc.target),
            acc.mode is Shared ==> old(self).locks().state_of(acc.target).shared > 0,
            acc.mode is Exclusive ==> old(self).locks().state_of(acc.target).exclusive,
        ensures
            final(self).wf(),
            final(self).store_count() == old(self).store_count(),
            final(self).resource_count() == old(self).resource_count(),
            forall|j: int| 0 <= j < old(self).store_count()
                ==> final(self).store_contents(j) == old(self).store_contents(j),
            forall|j: int| 0 <= j < old(self).resource_count()
                ==> final(self).resource_at(j) == old(self).resource_at(j),
            forall|t: Target| t != acc.target && old(self).locks().in_range(t)
                ==> final(self).locks().state_of(t) == old(self).locks().state_of(t),
            acc.mode is Shared
                ==> final(self).locks().state_of(acc.target) == (LockState {
                    shared: (old(self).locks().state_of(acc.target).shared - 1) as usize,
                    exclusive: old(self).locks().state_of(acc.target).exclusive,
                }),
            acc.mode is Exclusive
                ==> final(self).locks().state_of(acc.target) == (LockState { shared: 0, exclusive: false }),
    {
        self.tracker.release(acc)
    }

    /// Whether every listed store holds a component for `e`.
    fn all_contain(&self, ids: &Vec<usize>, e: EntityId) -> (r: bool)
        requires
            forall|k: int| 0 <= k < ids@.len() ==> (#[trigger] ids@[k]) < self.store_count(),
        ensures
            r == forall|k: int| 0 <= k < ids@.len()
                ==> self.store_contents(ids@[k] as int).dom().contains(e),
    {
        let mut k: usize = 0;
        while k < ids.len()
            invariant
                k <= ids@.len(),
                forall|k2: int| 0 <= k2 < ids@.len() ==> (#[trigger] ids@[k2]) < self.store_count(),
                forall|k2: int| 0 <= k2 < k
                    ==> self.store_contents(ids@[k2] as int).dom().contains(e),
            decreases ids@.len() - k,
        {
            if !self.contains_comp(ids[k], e) {
                return false;
            }
            k += 1;
        }
        true
    }

    /// The join of the listed stores: exactly the entities present in
    /// every one of them, ascending by slot, each once. The caller reads
    /// or writes the matched components per store, in the mode its
    /// accessor grants. Walks the store with the fewest slots and probes
    /// the others by membership.
    pub fn join(&self, ids: &Vec<usize>) -> (r: Vec<EntityId>)
        requires
            ids@.len() > 0,
            forall|k: int| 0 <= k < ids@.len() ==> (#[trigger] ids@[k]) < self.store_count(),
        ensures
            forall|p: int, k: int| #![trigger r@[p], ids@[k]] 0 <= p < r@.len() && 0 <= k < ids@.len()
                ==> self.store_contents(ids@[k] as int).dom().contains(r@[p]),
            forall|e: EntityId|
                (forall|k: int| 0 <= k < ids@.len()
                    ==> self.store_contents(ids@[k] as int).dom().contains(e))
                ==> r@.contains(e),
            forall|p1: int, p2: int| 0 <= p1 < p2 < r@.len() ==> r@[p1].index < r@[p2].index,
    {
        // choose the cheapest store to walk
        let mut base: usize = 0;
        let mut best = self.stores[ids[0]].slot_count();
        let mut k: usize = 1;
        while k < ids.len()
            invariant
                base < ids@.len(),
                forall|k2: int| 0 <= k2 < ids@.len() ==> (#[trigger] ids@[k2]) < self.store_count(),
            decreases ids@.len() - k,
        {
            let c = self.stores[ids[k]].slot_count();
            if c < best {
                best = c;
                base = k;
            }
            k += 1;
        }

        let candidates = self.store_entities(ids[base]);
        let ghost bseq = candidates@;
        let ghost bstore = ids@[base as int] as int;
        let mut r: Vec<EntityId> = Vec::new();
        let mut p: usize = 0;
        while p < candidates.len()
            invariant
                p <= bseq.len(),
                candidates@ == bseq,
                base < ids@.len(),
                bstore == ids@[base as int],
                forall|k2: int| 0 <= k2 < ids@.len() ==> (#[trigger] ids@[k2]) < self.store_count(),
                forall|q: int| 0 <= q < bseq.len()
                    ==> self.store_contents(bstore).dom().contains(#[trigger] bseq[q]),
                forall|e: EntityId| self.store_contents(bstore).dom().contains(e) ==> bseq.contains(e),
                forall|q1: int, q2: int| 0 <= q1 < q2 < bseq.len() ==> bseq[q1].index < bseq[q2].index,
                forall|q: int| 0 <= q < r@.len()
                    ==> exists|s: int| 0 <= s < p && bseq[s] == #[trigger] r@[q],
                forall|q: int, k2: int| #![trigger r@[q], ids@[k2]] 0 <= q < r@.len() && 0 <= k2 < ids@.len()
                    ==> self.store_contents(ids@[k2] as int).dom().contains(r@[q]),
                forall|s: int| 0 <= s < p
                    && (forall|k2: int| 0 <= k2 < ids@.len()
                        ==> self.store_contents(ids@[k2] as int).dom().contains(#[trigger] bseq[s]))
                    ==> r@.contains(bseq[s]),
                forall|q1: int, q2: int| 0 <= q1 < q2 < r@.len() ==> r@[q1].index < r@[q2].index,
            decreases bseq.len() - p,
        {
            let e = candidates[p];
            if self.all_contain(ids, e) {
                let ghost prev = r@;
                proof {
                    assert forall|q: int| 0 <= q < prev.len() implies prev[q].index < e.index by {
                        let s = choose|s: int| 0 <= s < p && bseq[s] == prev[q];
                        assert(bseq[s].index < bseq[p as int].index);
                    }
                }
                r.push(e);
                proof {
                    broadcast use vstd::seq_lib::lemma_seq_contains_after_push;

                }
            }
            p += 1;
        }
        proof {
            assert forall|e: EntityId|
                (forall|k2: int| 0 <= k2 < ids@.len()
                    ==> self.store_contents(ids@[k2] as int).dom().contains(e))
                implies r@.contains(e) by {
                assert(self.store_contents(ids@[base as int] as int).dom().contains(e));
                assert(bseq.contains(e));
                let s = choose|s: int| 0 <= s < bseq.len() && bseq[s] == e;
                assert(r@.contains(bseq[s]));
            }
        }
        r
    }
}

impl EntityBuilder {
    /// Writes `value` for the bound entity into store `store` and hands
    /// the builder back for chaining; sugar over one store write.
    pub fn add<C, R>(self, world: &mut World<C, R>, store: usize, value: C) -> (b: EntityBuilder)
        requires
            old(world).wf(),
            store < old(world).store_count(),
        ensures
            b == self,
            final(world).wf(),
            final(world).store_count() == old(world).store_count(),
            final(world).resource_count() == old(world).resource_count(),
            final(world).locks() == old(world).locks(),
            final(world).store_contents(store as int)
                == minus_index(old(world).store_contents(store as int), self.id.index).insert(self.id, value),
            forall|j: int| 0 <= j < old(world).store_count() && j != store
                ==> final(world).store_contents(j) == old(world).store_contents(j),
            forall|j: int| 0 <= j < old(world).resource_count()
                ==> final(world).resource_at(j) == old(world).resource_at(j),
    {
        world.set_comp(store, self.id, value);
        self
    }
}

} // verus!
