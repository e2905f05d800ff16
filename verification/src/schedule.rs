//! The scheduler: a named dependency graph of systems, compiled into a
//! conflict-free batch plan, and a tick driver that runs every system
//! exactly once per tick in plan order.
//!
//! Registration collects each system's name, predecessor names and
//! declared access. Compiling resolves names, rejects unknown
//! dependencies and cyclic graphs, and assigns every system a batch such
//! that all predecessors sit in strictly earlier batches and no two
//! systems of one batch declare conflicting access. A tick executes the
//! batches in order; within a tick, batches may be dispatched to a
//! worker pool, since their members are pairwise conflict-free.

use vstd::prelude::*;
use vstd::set_lib::{lemma_int_range, lemma_len_subset, set_int_range};
use core::marker::PhantomData;
use crate::CoreError;
use crate::access::{Access, check_set_conflict_free, check_sets_conflict, conflicts, set_conflict_free, sets_conflict};
use crate::world::World;

verus! {

/// A unit of per-tick logic. It declares its data access ahead of
/// execution, and `run` then performs the logic; all access to the world
/// is meant to go through accessors covered by the declaration.
pub trait System<C, R> {
    /// The stores and resources this system touches, and in which mode;
    /// computable without running the system.
    fn declared_access(&self) -> Vec<Access>;

    /// One execution of the system's logic for the current tick.
    fn run(&self, world: &mut World<C, R>);
}

/// Symmetry of the conflict relation on access sets.
proof fn lemma_sets_conflict_sym(s1: Seq<Access>, s2: Seq<Access>)
    ensures
        sets_conflict(s1, s2) == sets_conflict(s2, s1),
{
    if sets_conflict(s1, s2) {
        let (i, j): (int, int) = choose|i: int, j: int|
            0 <= i < s1.len() && 0 <= j < s2.len() && conflicts(s1[i], s2[j]);
        assert(conflicts(s2[j], s1[i]));
    }
    if sets_conflict(s2, s1) {
        let (i, j): (int, int) = choose|i: int, j: int|
            0 <= i < s2.len() && 0 <= j < s1.len() && conflicts(s2[i], s1[j]);
        assert(conflicts(s1[j], s2[i]));
    }
}

/// Whether every entry of `row` names a system already placed in a batch
/// strictly before batch `b`.
fn deps_met(row: &Vec<usize>, scheduled: &Vec<bool>, batch_of: &Vec<usize>, b: usize) -> (r: bool)
    requires
        scheduled@.len() == batch_of@.len(),
        forall|k: int| 0 <= k < row@.len() ==> (#[trigger] row@[k]) < scheduled@.len(),
    ensures
        r == (forall|k: int| 0 <= k < row@.len()
            ==> scheduled@[#[trigger] row@[k] as int] && batch_of@[row@[k] as int] < b),
{
    let mut k: usize = 0;
    while k < row.len()
        invariant
            k <= row@.len(),
            scheduled@.len() == batch_of@.len(),
            forall|k2: int| 0 <= k2 < row@.len() ==> (#[trigger] row@[k2]) < scheduled@.len(),
            forall|k2: int| 0 <= k2 < k
                ==> scheduled@[#[trigger] row@[k2] as int] && batch_of@[row@[k2] as int] < b,
        decreases row@.len() - k,
    {
        let d = row[k];
        if !scheduled[d] || batch_of[d] >= b {
            return false;
        }
        k += 1;
    }
    true
}

/// The first slot not yet scheduled, if any.
fn first_unscheduled(scheduled: &Vec<bool>) -> (r: Option<usize>)
    ensures
        r is None ==> forall|i: int| 0 <= i < scheduled@.len() ==> scheduled@[i],
        r matches Some(i) ==> i < scheduled@.len() && !scheduled@[i as int],
{
    let mut i: usize = 0;
    while i < scheduled.len()
        invariant
            i <= scheduled@.len(),
            forall|j: int| 0 <= j < i ==> scheduled@[j],
        decreases scheduled@.len() - i,
    {
        if !scheduled[i] {
            return Some(i);
        }
        i += 1;
    }
    None
}

/// Registers systems under unique names with explicit predecessor
/// edges, compiles the graph into a batch plan, and drives ticks.
#[verifier::reject_recursive_types(C)]
#[verifier::reject_recursive_types(R)]
pub struct Scheduler<C, R, S> {
    systems: Vec<S>,
    names: Vec<String>,
    dep_names: Vec<Vec<String>>,
    access: Vec<Vec<Access>>,
    deps: Vec<Vec<usize>>,
    order: Vec<usize>,
    batch_of: Vec<usize>,
    compiled: bool,
    marker: PhantomData<(C, R)>,
}

impl<C, R, S: System<C, R>> Scheduler<C, R, S> {
    /// How many systems are registered.
    pub closed spec fn count(self) -> nat {
        self.systems@.len()
    }

    /// The registered systems, in registration order.
    pub closed spec fn systems_seq(self) -> Seq<S> {
        self.systems@
    }

    /// The name system `i` was registered under.
    pub closed spec fn name_of(self, i: int) -> Seq<char> {
        self.names@[i]@
    }

    /// The predecessor names declared for system `i`.
    pub closed spec fn dep_names_of(self, i: int) -> Seq<Seq<char>> {
        self.dep_names@[i]@.map_values(|s: String| s@)
    }

    /// The access set system `i` declared at registration.
    pub closed spec fn access_of(self, i: int) -> Seq<Access> {
        self.access@[i]@
    }

    /// The resolved predecessor indices of system `i` (after compiling).
    pub closed spec fn deps_of(self, i: int) -> Seq<usize> {
        self.deps@[i]@
    }

    /// The execution order of one tick (after compiling).
    pub closed spec fn order_seq(self) -> Seq<usize> {
        self.order@
    }

    /// The batch system `i` is planned into (after compiling).
    pub closed spec fn batch_id(self, i: int) -> int {
        self.batch_of@[i] as int
    }

    /// Whether a plan has been compiled for the current registrations.
    pub closed spec fn is_compiled(self) -> bool {
        self.compiled
    }

    /// Registration bookkeeping is consistent: one name, dependency list
    /// and conflict-free access set per system, names pairwise distinct.
    pub closed spec fn base_wf(self) -> bool {
        &&& self.names@.len() == self.count()
        &&& self.dep_names@.len() == self.count()
        &&& self.access@.len() == self.count()
        &&& forall|i: int, j: int| #![trigger self.names@[i], self.names@[j]]
                0 <= i < j < self.names@.len() ==> self.names@[i]@ != self.names@[j]@
        &&& forall|i: int| 0 <= i < self.access@.len()
                ==> set_conflict_free((#[trigger] self.access@[i])@)
    }

    /// The compiled plan is sound: dependencies resolved by name, the
    /// order a permutation grouped by monotone batches, every
    /// predecessor in a strictly earlier batch than its dependent, and
    /// no two systems of one batch in conflict.
    pub closed spec fn plan_ok(self) -> bool {
        &&& self.deps@.len() == self.count()
        &&& forall|j: int| 0 <= j < self.deps@.len()
                ==> (#[trigger] self.deps@[j])@.len() == self.dep_names@[j]@.len()
        &&& forall|j: int, k: int| #![trigger self.deps@[j]@[k]]
                0 <= j < self.deps@.len() && 0 <= k < self.deps@[j]@.len()
                ==> (self.deps@[j]@[k] as int) < self.count()
                    && self.names@[self.deps@[j]@[k] as int]@ == self.dep_names@[j]@[k]@
                    && self.batch_of@[self.deps@[j]@[k] as int] < self.batch_of@[j]
        &&& self.order@.len() == self.count()
        &&& self.batch_of@.len() == self.count()
        &&& forall|p: int| 0 <= p < self.order@.len() ==> ((#[trigger] self.order@[p]) as int) < self.count()
        &&& forall|p1: int, p2: int| #![trigger self.order@[p1], self.order@[p2]]
                0 <= p1 < p2 < self.order@.len() ==> self.order@[p1] != self.order@[p2]
        &&& forall|i: usize| (i as int) < self.count() ==> #[trigger] self.order@.contains(i)
        &&& forall|p1: int, p2: int| #![trigger self.order@[p1], self.order@[p2]]
                0 <= p1 < p2 < self.order@.len()
                ==> self.batch_of@[self.order@[p1] as int] <= self.batch_of@[self.order@[p2] as int]
        &&& forall|i: int, j: int| #![trigger self.batch_of@[i], self.batch_of@[j]]
                0 <= i < self.count() && 0 <= j < self.count() && i != j
                && self.batch_of@[i] == self.batch_of@[j]
                ==> !sets_conflict(self.access@[i]@, self.access@[j]@)
    }

    /// Validity: the registrations are consistent, and any compiled plan
    /// is sound for them.
    pub open spec fn wf(self) -> bool {
        &&& self.base_wf()
        &&& (self.is_compiled() ==> self.plan_ok())
    }

    /// The same systems under the same names, dependencies and access.
    pub open spec fn same_config(self, other: Self) -> bool {
        &&& self.count() == other.count()
        &&& self.systems_seq() == other.systems_seq()
        &&& forall|i: int| 0 <= i < self.count() ==> self.name_of(i) == other.name_of(i)
        &&& forall|i: int| 0 <= i < self.count() ==> self.dep_names_of(i) == other.dep_names_of(i)
        &&& forall|i: int| 0 <= i < self.count() ==> self.access_of(i) == other.access_of(i)
    }

    /// Declared predecessor `k` of system `j` is the name of some
    /// registered system.
    pub open spec fn dep_resolves(self, j: int, k: int) -> bool {
        exists|i: int| 0 <= i < self.count() && self.name_of(i) == self.dep_names_of(j)[k]
    }

    /// Every declared predecessor name is the name of some registered
    /// system.
    pub open spec fn resolvable(self) -> bool {
        forall|j: int, k: int|
            0 <= j < self.count() && 0 <= k < self.dep_names_of(j).len()
            ==> #[trigger] self.dep_resolves(j, k)
    }

    /// The index that predecessor `k` of system `j` resolves to.
    pub open spec fn resolved_dep(self, j: int, k: int) -> int {
        choose|i: int| 0 <= i < self.count() && self.name_of(i) == self.dep_names_of(j)[k]
    }

    /// `w` is a knot: a nonempty set of systems each of which declares a
    /// predecessor inside `w` — the shape of every dependency cycle.
    pub open spec fn knot_set(self, w: Set<int>) -> bool {
        &&& (exists|i: int| w.contains(i))
        &&& (forall|i: int| w.contains(i) ==> 0 <= i < self.count())
        &&& (forall|i: int| #[trigger] w.contains(i)
                ==> exists|k: int| 0 <= k < self.dep_names_of(i).len()
                    && w.contains(self.resolved_dep(i, k)))
    }

    /// The dependency graph contains a cycle.
    pub open spec fn has_knot(self) -> bool {
        exists|w: Set<int>| self.knot_set(w)
    }

    /// An empty scheduler.
    pub fn new() -> (s: Self)
        ensures
            s.wf(),
            s.count() == 0,
            !s.is_compiled(),
    {
        Scheduler {
            systems: Vec::new(),
            names: Vec::new(),
            dep_names: Vec::new(),
            access: Vec::new(),
            deps: Vec::new(),
            order: Vec::new(),
            batch_of: Vec::new(),
            compiled: false,
            marker: PhantomData,
        }
    }

    /// The number of registered systems.
    pub fn system_count(&self) -> (n: usize)
        ensures
            n == self.count(),
    {
        self.systems.len()
    }

    /// Whether a plan is compiled for the current registrations.
    pub fn compiled(&self) -> (b: bool)
        ensures
            b == self.is_compiled(),
    {
        self.compiled
    }

    /// The index registered under `target`, if any.
    fn find_name(&self, target: &String) -> (r: Option<usize>)
        requires
            self.base_wf(),
        ensures
            r matches Some(i) ==> (i as int) < self.count() && self.name_of(i as int) == target@,
            r is None ==> forall|i: int| 0 <= i < self.count() ==> self.name_of(i) != target@,
    {
        let mut i: usize = 0;
        while i < self.names.len()
            invariant
                self.base_wf(),
                i <= self.names@.len(),
                forall|j: int| 0 <= j < i ==> self.name_of(j) != target@,
            decreases self.names@.len() - i,
        {
            if self.names[i] == *target {
                return Some(i);
            }
            i += 1;
        }
        None
    }

    /// Registers a system under a unique name with its predecessor
    /// names. Fails on a name already taken, or on a declared access set
    /// that conflicts with itself; a configuration error leaves the
    /// registrations unchanged. Any previously compiled plan is
    /// discarded.
    pub fn add(&mut self, system: S, name: String, deps: Vec<String>) -> (r: Result<(), CoreError>)
        requires
            old(self).base_wf(),
        ensures
            final(self).wf(),
            !final(self).is_compiled(),
            r is Err ==> final(self).same_config(*old(self)),
            (r matches Err(e) ==> {
                &&& ((e == CoreError::DuplicateName) <==> (exists|i: int|
                        0 <= i < old(self).count() && old(self).name_of(i) == name@))
                &&& (e == CoreError::DuplicateName || e == CoreError::ConflictingAccess)
            }),
            r is Ok ==> {
                &&& final(self).count() == old(self).count() + 1
                &&& (forall|i: int| 0 <= i < old(self).count()
                        ==> final(self).name_of(i) == old(self).name_of(i)
                            && final(self).dep_names_of(i) == old(self).dep_names_of(i)
                            && final(self).access_of(i) == old(self).access_of(i)
                            && final(self).systems_seq()[i] == old(self).systems_seq()[i])
                &&& final(self).name_of(old(self).count() as int) == name@
                &&& final(self).dep_names_of(old(self).count() as int)
                        == deps@.map_values(|s: String| s@)
                &&& set_conflict_free(final(self).access_of(old(self).count() as int))
                &&& (forall|i: int| 0 <= i < old(self).count() ==> old(self).name_of(i) != name@)
            },
    {
        let dup = self.find_name(&name);
        self.compiled = false;
        match dup {
            Some(_) => {
                proof {
                    assert(self.names@ == old(self).names@);
                    assert(self.base_wf());
                }
                Err(CoreError::DuplicateName)
            }
            None => {
                let acc = system.declared_access();
                if !check_set_conflict_free(&acc) {
                    return Err(CoreError::ConflictingAccess);
                }
                self.systems.push(system);
                self.names.push(name);
                self.dep_names.push(deps);
                self.access.push(acc);
                proof {
                    assert forall|i: int| 0 <= i < old(self).count()
                        implies old(self).names@[i]@ != name@ by {
                        assert(old(self).name_of(i) != name@);
                    }
                    assert(self.base_wf());
                }
                Ok(())
            }
        }
    }

    /// Resolves every declared predecessor name to its index; `None`
    /// exactly when some name is unknown.
    fn resolve(&self) -> (r: Option<Vec<Vec<usize>>>)
        requires
            self.base_wf(),
        ensures
            (r matches Some(d) ==> {
                &&& d@.len() == self.count()
                &&& (forall|j: int| 0 <= j < self.count()
                        ==> (#[trigger] d@[j])@.len() == self.dep_names_of(j).len())
                &&& (forall|j: int, k: int| #![trigger d@[j]@[k]]
                        0 <= j < self.count() && 0 <= k < d@[j]@.len()
                        ==> (d@[j]@[k] as int) < self.count()
                            && self.name_of(d@[j]@[k] as int) == self.dep_names_of(j)[k])
            }),
            r is Some <==> self.resolvable(),
    {
        let n = self.dep_names.len();
        let mut out: Vec<Vec<usize>> = Vec::new();
        let mut j: usize = 0;
        while j < n
            invariant
                self.base_wf(),
                n == self.count(),
                j <= n,
                out@.len() == j,
                forall|j2: int| 0 <= j2 < j
                    ==> (#[trigger] out@[j2])@.len() == self.dep_names_of(j2).len(),
                forall|j2: int, k: int| #![trigger out@[j2]@[k]]
                    0 <= j2 < j && 0 <= k < out@[j2]@.len()
                    ==> (out@[j2]@[k] as int) < self.count()
                        && self.name_of(out@[j2]@[k] as int) == self.dep_names_of(j2)[k],
            decreases n - j,
        {
            let row_names = &self.dep_names[j];
            let mut row: Vec<usize> = Vec::new();
            let mut k: usize = 0;
            while k < row_names.len()
                invariant
                    self.base_wf(),
                    n == self.count(),
                    j < n,
                    row_names@ == self.dep_names@[j as int]@,
                    k <= row_names@.len(),
                    row@.len() == k,
                    forall|k2: int| 0 <= k2 < k
                        ==> ((#[trigger] row@[k2]) as int) < self.count()
                            && self.name_of(row@[k2] as int) == self.dep_names_of(j as int)[k2],
                decreases row_names@.len() - k,
            {
                match self.find_name(&row_names[k]) {
                    Some(i) => {
                        row.push(i);
                    }
                    None => {
                        proof {
                            assert(self.dep_names_of(j as int)[k as int] == row_names@[k as int]@);
                            assert(!self.dep_resolves(j as int, k as int));
                            assert(!self.resolvable());
                        }
                        return None;
                    }
                }
                k += 1;
            }
            out.push(row);
            j += 1;
        }
        proof {
            assert forall|j2: int, k: int|
                0 <= j2 < self.count() && 0 <= k < self.dep_names_of(j2).len()
                implies #[trigger] self.dep_resolves(j2, k) by {
                let row_g = out@[j2];
                assert(row_g@.len() == self.dep_names_of(j2).len());
                let w = row_g@[k];
                assert((w as int) < self.count()
                    && self.name_of(w as int) == self.dep_names_of(j2)[k]);
            }
            assert(self.resolvable());
        }
        Some(out)
    }

    /// Whether system `i` conflicts with any member of the batch being
    /// assembled.
    fn batch_conflict(&self, cur: &Vec<usize>, i: usize) -> (r: bool)
        requires
            self.base_wf(),
            (i as int) < self.count(),
            forall|m: int| 0 <= m < cur@.len() ==> ((#[trigger] cur@[m]) as int) < self.count(),
        ensures
            r == exists|m: int| 0 <= m < cur@.len()
                && sets_conflict(self.access@[i as int]@, self.access@[(#[trigger] cur@[m]) as int]@),
    {
        let mut m: usize = 0;
        while m < cur.len()
            invariant
                self.base_wf(),
                (i as int) < self.count(),
                m <= cur@.len(),
                forall|m2: int| 0 <= m2 < cur@.len() ==> ((#[trigger] cur@[m2]) as int) < self.count(),
                forall|m2: int| 0 <= m2 < m
                    ==> !sets_conflict(self.access@[i as int]@, self.access@[(#[trigger] cur@[m2]) as int]@),
            decreases cur@.len() - m,
        {
            let other = cur[m];
            if check_sets_conflict(&self.access[i], &self.access[other]) {
                return true;
            }
            m += 1;
        }
        false
    }

    /// The witness that resolution picks index `dv`: names are unique, so
    /// any index carrying the declared name is the resolved one.
    proof fn lemma_resolved_dep_matches(self, j: int, k: int, dv: int)
        requires
            self.base_wf(),
            0 <= j < self.count(),
            0 <= k < self.dep_names_of(j).len(),
            0 <= dv < self.count(),
            self.name_of(dv) == self.dep_names_of(j)[k],
        ensures
            self.resolved_dep(j, k) == dv,
    {
        assert(self.dep_resolves(j, k));
        let c = self.resolved_dep(j, k);
        assert(0 <= c < self.count() && self.name_of(c) == self.dep_names_of(j)[k]);
        if c != dv {
            assert(self.names@[c]@ == self.name_of(c));
            assert(self.names@[dv]@ == self.name_of(dv));
            assert(self.names@[c]@ == self.names@[dv]@);
            assert(false);
        }
    }

    /// A knot admits no batch assignment in which every declared
    /// predecessor sits strictly earlier: following predecessors inside
    /// the knot would descend batches forever.
    proof fn knot_descent(self, d: Seq<Seq<usize>>, batch: Seq<usize>, w: Set<int>, i: int)
        requires
            self.base_wf(),
            d.len() == self.count(),
            batch.len() == self.count(),
            forall|j: int| 0 <= j < d.len() ==> (#[trigger] d[j]).len() == self.dep_names_of(j).len(),
            forall|j: int, k: int| #![trigger d[j][k]]
                0 <= j < d.len() && 0 <= k < d[j].len()
                ==> (d[j][k] as int) < self.count()
                    && self.name_of(d[j][k] as int) == self.dep_names_of(j)[k]
                    && batch[d[j][k] as int] < batch[j],
            self.knot_set(w),
            w.contains(i),
        ensures
            !self.knot_set(w),
        decreases batch[i],
    {
        let k = choose|k: int| 0 <= k < self.dep_names_of(i).len()
            && w.contains(self.resolved_dep(i, k));
        assert(0 <= i < self.count());
        self.lemma_resolved_dep_matches(i, k, d[i][k] as int);
        let next = d[i][k] as int;
        assert(w.contains(next));
        assert(batch[next] < batch[i]);
        self.knot_descent(d, batch, w, next);
    }

    /// `d` is a sound resolution of the declared predecessor names.
    spec fn resolution_ok(self, d: Seq<Vec<usize>>) -> bool {
        &&& d.len() == self.count()
        &&& (forall|j: int| 0 <= j < d.len() ==> (#[trigger] d[j])@.len() == self.dep_names_of(j).len())
        &&& (forall|j: int, k: int| #![trigger d[j]@[k]]
                0 <= j < d.len() && 0 <= k < d[j]@.len()
                ==> (d[j]@[k] as int) < self.count()
                    && self.name_of(d[j]@[k] as int) == self.dep_names_of(j)[k])
    }

    /// A sound batch plan over resolved predecessors `d`: the order is a
    /// permutation grouped by monotone batches, every predecessor sits
    /// in a strictly earlier batch than its dependent, and no two
    /// systems of one batch declare conflicting access.
    spec fn plan_props(self, d: Seq<Vec<usize>>, order: Seq<usize>, batch: Seq<usize>) -> bool {
        &&& order.len() == self.count()
        &&& batch.len() == self.count()
        &&& (forall|p: int| 0 <= p < order.len() ==> ((#[trigger] order[p]) as int) < self.count())
        &&& (forall|p1: int, p2: int| #![trigger order[p1], order[p2]]
                0 <= p1 < p2 < order.len() ==> order[p1] != order[p2])
        &&& (forall|i: usize| (i as int) < self.count() ==> #[trigger] order.contains(i))
        &&& (forall|p1: int, p2: int| #![trigger order[p1], order[p2]]
                0 <= p1 < p2 < order.len()
                ==> batch[order[p1] as int] <= batch[order[p2] as int])
        &&& (forall|j: int, k: int| #![trigger d[j]@[k]]
                0 <= j < d.len() && 0 <= k < d[j]@.len()
                ==> batch[d[j]@[k] as int] < batch[j])
        &&& (forall|i: int, j: int| #![trigger batch[i], batch[j]]
                0 <= i < self.count() && 0 <= j < self.count() && i != j
                && batch[i] == batch[j]
                ==> !sets_conflict(self.access@[i]@, self.access@[j]@))
    }

    /// The batching loop's working state: resolution facts about `d`,
    /// the mirror set `sch` of scheduled indices, and every plan
    /// property restricted to what is scheduled so far.
    spec fn stage_inv(
        self,
        d: Seq<Vec<usize>>,
        scheduled: Seq<bool>,
        batch_of: Seq<usize>,
        order: Seq<usize>,
        sch: Set<int>,
    ) -> bool {
        &&& self.base_wf()
        &&& self.resolution_ok(d)
        &&& scheduled.len() == self.count()
        &&& batch_of.len() == self.count()
        &&& (forall|x: int| sch.contains(x) ==> 0 <= x < self.count())
        &&& sch.finite()
        &&& sch.len() == order.len()
        &&& (forall|i: int| 0 <= i < self.count() ==> ((#[trigger] scheduled[i]) <==> sch.contains(i)))
        &&& (forall|p: int| 0 <= p < order.len()
                ==> ((#[trigger] order[p]) as int) < self.count() && scheduled[order[p] as int])
        &&& (forall|p1: int, p2: int| #![trigger order[p1], order[p2]]
                0 <= p1 < p2 < order.len() ==> order[p1] != order[p2])
        &&& (forall|i: usize| (i as int) < self.count() && scheduled[i as int]
                ==> #[trigger] order.contains(i))
        &&& (forall|p1: int, p2: int| #![trigger order[p1], order[p2]]
                0 <= p1 < p2 < order.len()
                ==> batch_of[order[p1] as int] <= batch_of[order[p2] as int])
        &&& (forall|j: int, k: int| #![trigger d[j]@[k]]
                0 <= j < d.len() && scheduled[j] && 0 <= k < d[j]@.len()
                ==> scheduled[d[j]@[k] as int] && batch_of[d[j]@[k] as int] < batch_of[j])
        &&& (forall|i: int, j: int| #![trigger batch_of[i], batch_of[j]]
                0 <= i < self.count() && 0 <= j < self.count() && i != j
                && scheduled[i] && scheduled[j] && batch_of[i] == batch_of[j]
                ==> !sets_conflict(self.access@[i]@, self.access@[j]@))
    }

    /// Assembles batch `b`: admits, in registration order, every system
    /// whose predecessors all sit in earlier batches and whose access
    /// conflicts with no one already in the batch. Returns how many were
    /// admitted; zero with systems left means every one of them is
    /// blocked by an unscheduled predecessor.
    #[verifier::spinoff_prover]
    #[verifier::rlimit(30)]
    fn build_batch(
        &self,
        d: &Vec<Vec<usize>>,
        scheduled: &mut Vec<bool>,
        batch_of: &mut Vec<usize>,
        order: &mut Vec<usize>,
        b: usize,
        sch: Ghost<Set<int>>,
    ) -> (r: (usize, Ghost<Set<int>>))
        requires
            self.stage_inv(d@, old(scheduled)@, old(batch_of)@, old(order)@, sch@),
            (b as int) < self.count(),
            forall|i: int| 0 <= i < self.count() && old(scheduled)@[i]
                ==> ((#[trigger] old(batch_of)@[i]) as int) < b,
        ensures
            self.stage_inv(d@, final(scheduled)@, final(batch_of)@, final(order)@, r.1@),
            final(order)@.len() == old(order)@.len() + r.0,
            forall|i: int| 0 <= i < self.count() && final(scheduled)@[i]
                ==> ((#[trigger] final(batch_of)@[i]) as int) < b + 1,
            r.0 == 0 ==> final(scheduled)@ == old(scheduled)@
                && final(batch_of)@ == old(batch_of)@
                && final(order)@ == old(order)@
                && r.1@ == sch@,
            r.0 == 0 ==> forall|i: int| 0 <= i < self.count() && !(#[trigger] final(scheduled)@[i])
                ==> exists|k: int| 0 <= k < d@[i]@.len()
                    && !final(scheduled)@[d@[i]@[k] as int],
    {
        let n = self.systems.len();
        let ghost mut gsch: Set<int> = sch@;
        let ghost order0 = order@;
        let mut cur: Vec<usize> = Vec::new();
        let mut ii: usize = 0;
        while ii < n
            invariant
                n == self.count(),
                (b as int) < self.count(),
                ii <= n,
                self.stage_inv(d@, scheduled@, batch_of@, order@, gsch),
                order@.len() == order0.len() + cur@.len(),
                cur@.len() == 0 ==> scheduled@ == old(scheduled)@
                    && batch_of@ == old(batch_of)@ && order@ == old(order)@ && gsch == sch@,
                forall|i: int| 0 <= i < n && scheduled@[i] ==> ((#[trigger] batch_of@[i]) as int) <= b,
                forall|m: int| 0 <= m < cur@.len()
                    ==> ((#[trigger] cur@[m]) as int) < n
                        && scheduled@[cur@[m] as int]
                        && batch_of@[cur@[m] as int] == b,
                forall|i: usize| (i as int) < n && scheduled@[i as int] && batch_of@[i as int] == b
                    ==> #[trigger] cur@.contains(i),
                cur@.len() == 0 ==> forall|i2: int| 0 <= i2 < ii && !(#[trigger] scheduled@[i2])
                    ==> exists|k: int| 0 <= k < d@[i2]@.len()
                        && !scheduled@[d@[i2]@[k] as int],
            decreases n - ii,
        {
            let i = ii;
            if !scheduled[i] {
                let met = deps_met(&d[i], &scheduled, &batch_of, b);
                if !met {
                    proof {
                        if cur@.len() == 0 {
                            let k = choose|k: int| 0 <= k < d@[i as int]@.len()
                                && !(scheduled@[d@[i as int]@[k] as int]
                                    && batch_of@[d@[i as int]@[k] as int] < b);
                            let dv = d@[i as int]@[k] as int;
                            if scheduled@[dv] {
                                assert(!cur@.contains(dv as usize));
                                assert(false);
                            }
                            assert(0 <= k < d@[i as int]@.len()
                                && !scheduled@[d@[i as int]@[k] as int]);
                        }
                    }
                } else {
                    if !self.batch_conflict(&cur, i) {
                        let ghost sched0 = scheduled@;
                        let ghost prev_order = order@;
                        let ghost prev_cur = cur@;
                        scheduled.set(i, true);
                        batch_of.set(i, b);
                        order.push(i);
                        cur.push(i);
                        proof {
                            broadcast use vstd::seq_lib::lemma_seq_contains_after_push;

                            gsch = gsch.insert(i as int);
                            assert forall|p: int| 0 <= p < prev_order.len()
                                implies prev_order[p] != i by {
                                assert(sched0[prev_order[p] as int]);
                                assert(!sched0[i as int]);
                            }
                            assert forall|i2: int, j2: int| #![trigger batch_of@[i2], batch_of@[j2]]
                                0 <= i2 < n && 0 <= j2 < n && i2 != j2 && scheduled@[i2]
                                && scheduled@[j2] && batch_of@[i2] == batch_of@[j2]
                                implies !sets_conflict(self.access@[i2]@, self.access@[j2]@) by {
                                if i2 == i as int && batch_of@[j2] == b {
                                    assert(sched0[j2]);
                                    assert(prev_cur.contains(j2 as usize));
                                    let m = choose|m: int| 0 <= m < prev_cur.len()
                                        && prev_cur[m] == j2 as usize;
                                    assert(!sets_conflict(self.access@[i as int]@, self.access@[j2]@));
                                } else if j2 == i as int && batch_of@[i2] == b {
                                    assert(sched0[i2]);
                                    assert(prev_cur.contains(i2 as usize));
                                    let m = choose|m: int| 0 <= m < prev_cur.len()
                                        && prev_cur[m] == i2 as usize;
                                    assert(!sets_conflict(self.access@[i as int]@, self.access@[i2]@));
                                    lemma_sets_conflict_sym(
                                        self.access@[i2]@,
                                        self.access@[i as int]@,
                                    );
                                }
                            }
                        }
                    }
                }
            }
            ii += 1;
        }
        (cur.len(), Ghost(gsch))
    }

    /// A full order schedules everything: the mirror set covers all of
    /// `0..count`, since it cannot exceed that range.
    proof fn lemma_full_coverage(
        self,
        d: Seq<Vec<usize>>,
        scheduled: Seq<bool>,
        batch_of: Seq<usize>,
        order: Seq<usize>,
        sch: Set<int>,
    )
        requires
            self.stage_inv(d, scheduled, batch_of, order, sch),
            order.len() >= self.count(),
        ensures
            forall|i: int| 0 <= i < self.count() ==> scheduled[i],
    {
        let n = self.count() as int;
        lemma_int_range(0, n);
        let full = set_int_range(0, n);
        assert(sch.subset_of(full));
        lemma_len_subset(sch, full);
        assert forall|i: int| 0 <= i < n implies scheduled[i] by {
            if !scheduled[i] {
                let without = full.remove(i);
                assert(sch.subset_of(without));
                lemma_len_subset(sch, without);
                assert(full.contains(i));
                assert(without.len() == n - 1);
                assert(false);
            }
        }
    }

    /// A fully scheduled stage is a sound plan.
    proof fn lemma_plan_sound(
        self,
        d: Seq<Vec<usize>>,
        scheduled: Seq<bool>,
        batch_of: Seq<usize>,
        order: Seq<usize>,
        sch: Set<int>,
    )
        requires
            self.stage_inv(d, scheduled, batch_of, order, sch),
            forall|i: int| 0 <= i < self.count() ==> scheduled[i],
        ensures
            self.plan_props(d, order, batch_of),
    {
        let n = self.count() as int;
        lemma_int_range(0, n);
        let full = set_int_range(0, n);
        assert(sch.subset_of(full));
        lemma_len_subset(sch, full);
        assert forall|x: int| full.contains(x) implies sch.contains(x) by {
            assert(scheduled[x]);
        }
        assert(full.subset_of(sch));
        lemma_len_subset(full, sch);
        assert(order.len() == self.count());
        assert forall|i: usize| (i as int) < self.count() implies #[trigger] order.contains(i) by {
            assert(scheduled[i as int]);
        }
        assert forall|j: int, k: int| #![trigger d[j]@[k]]
            0 <= j < d.len() && 0 <= k < d[j]@.len()
            implies batch_of[d[j]@[k] as int] < batch_of[j] by {
            assert(scheduled[j]);
        }
    }

    /// Every edge descending batches excludes any knot.
    #[verifier::spinoff_prover]
    #[verifier::rlimit(100)]
    proof fn lemma_no_knot(self, d: Seq<Vec<usize>>, batch: Seq<usize>)
        requires
            self.base_wf(),
            self.resolution_ok(d),
            batch.len() == self.count(),
            forall|j: int, k: int| #![trigger d[j]@[k]]
                0 <= j < d.len() && 0 <= k < d[j]@.len()
                ==> batch[d[j]@[k] as int] < batch[j],
        ensures
            !self.has_knot(),
    {
        let dm = d.map_values(|row: Vec<usize>| row@);
        assert(dm.len() == self.count());
        assert forall|j: int| 0 <= j < dm.len()
            implies (#[trigger] dm[j]).len() == self.dep_names_of(j).len() by {
            assert(dm[j] == d[j]@);
        }
        assert forall|j: int, k: int| #![trigger dm[j][k]]
            0 <= j < dm.len() && 0 <= k < dm[j].len()
            implies (dm[j][k] as int) < self.count()
                && self.name_of(dm[j][k] as int) == self.dep_names_of(j)[k]
                && batch[dm[j][k] as int] < batch[j] by {
            assert(dm[j] == d[j]@);
        }
        if self.has_knot() {
            let w = choose|w: Set<int>| self.knot_set(w);
            let i0 = choose|i: int| w.contains(i);
            self.knot_descent(dm, batch, w, i0);
            assert(false);
        }
    }

    /// A stalled stage is a knot: the unscheduled systems each declare
    /// an unscheduled predecessor.
    proof fn lemma_stall_knot(self, d: Seq<Vec<usize>>, scheduled: Seq<bool>)
        requires
            self.base_wf(),
            self.resolution_ok(d),
            scheduled.len() == self.count(),
            exists|i: int| 0 <= i < self.count() && !scheduled[i],
            forall|i: int| 0 <= i < self.count() && !(#[trigger] scheduled[i])
                ==> exists|k: int| 0 <= k < d[i]@.len() && !scheduled[d[i]@[k] as int],
        ensures
            self.has_knot(),
    {
        let n = self.count() as int;
        let w = Set::new(|x: int| 0 <= x < n && !scheduled[x]);
        let iw = choose|i: int| 0 <= i < n && !scheduled[i];
        assert(w.contains(iw));
        assert forall|i: int| #[trigger] w.contains(i)
            implies exists|k: int| 0 <= k < self.dep_names_of(i).len()
                && w.contains(self.resolved_dep(i, k)) by {
            let k = choose|k: int| 0 <= k < d[i]@.len() && !scheduled[d[i]@[k] as int];
            assert((#[trigger] d[i])@.len() == self.dep_names_of(i).len());
            self.lemma_resolved_dep_matches(i, k, d[i]@[k] as int);
            assert(w.contains(self.resolved_dep(i, k)));
        }
        assert(self.knot_set(w));
    }

    /// Plans batches over resolved predecessors; `None` exactly when
    /// the graph has a cycle.
    #[verifier::spinoff_prover]
    #[verifier::rlimit(60)]
    fn plan(&self, d: &Vec<Vec<usize>>) -> (r: Option<(Vec<usize>, Vec<usize>)>)
        requires
            self.base_wf(),
            self.resolution_ok(d@),
        ensures
            (r matches Some(ob) ==> self.plan_props(d@, ob.0@, ob.1@)),
            (r is Some) <==> !self.has_knot(),
    {
        let n = self.systems.len();
        let mut scheduled: Vec<bool> = Vec::new();
        let mut batch_of: Vec<usize> = Vec::new();
        while scheduled.len() < n
            invariant
                scheduled@.len() == batch_of@.len(),
                scheduled@.len() <= n,
                forall|i: int| 0 <= i < scheduled@.len() ==> !scheduled@[i],
            decreases n - scheduled@.len(),
        {
            scheduled.push(false);
            batch_of.push(0);
        }
        let mut order: Vec<usize> = Vec::new();
        let ghost mut sch: Set<int> = Set::empty();
        let mut stalled = false;
        let mut done = false;
        let mut b: usize = 0;
        while b < n && !stalled && !done
            invariant
                n == self.count(),
                b <= n,
                self.stage_inv(d@, scheduled@, batch_of@, order@, sch),
                forall|i: int| 0 <= i < n && scheduled@[i] ==> ((#[trigger] batch_of@[i]) as int) < b,
                stalled ==> (exists|i: int| 0 <= i < n && !scheduled@[i]),
                stalled ==> forall|i: int| 0 <= i < n && !(#[trigger] scheduled@[i])
                    ==> exists|k: int| 0 <= k < d@[i]@.len() && !scheduled@[d@[i]@[k] as int],
                done ==> forall|i: int| 0 <= i < n ==> scheduled@[i],
                !stalled ==> order@.len() >= b,
            decreases n - b, (if stalled || done { 0int } else { 1int }),
        {
            let (admitted, gsch) = self.build_batch(&d, &mut scheduled, &mut batch_of, &mut order, b, Ghost(sch));
            proof {
                sch = gsch@;
            }
            if admitted == 0 {
                match first_unscheduled(&scheduled) {
                    Some(_) => {
                        stalled = true;
                    }
                    None => {
                        done = true;
                    }
                }
            } else {
                b += 1;
            }
        }
        match first_unscheduled(&scheduled) {
            None => {
                proof {
                    self.lemma_plan_sound(d@, scheduled@, batch_of@, order@, sch);
                    self.lemma_no_knot(d@, batch_of@);
                }
                Some((order, batch_of))
            }
            Some(iu) => {
                proof {
                    if !stalled {
                        if done {
                            assert(false);
                        } else {
                            self.lemma_full_coverage(d@, scheduled@, batch_of@, order@, sch);
                            assert(false);
                        }
                    }
                    self.lemma_stall_knot(d@, scheduled@);
                }
                None
            }
        }
    }

    /// Compiles the registered graph into a plan. Succeeds exactly when
    /// every predecessor name resolves and the graph has no cycle;
    /// failure reports which configuration error was found and leaves
    /// the scheduler unchanged.
    #[verifier::spinoff_prover]
    #[verifier::rlimit(60)]
    pub fn compile(&mut self) -> (r: Result<(), CoreError>)
        requires
            old(self).wf(),
        ensures
            final(self).wf(),
            final(self).same_config(*old(self)),
            r is Err ==> *final(self) == *old(self),
            (r is Ok) <==> (old(self).resolvable() && !old(self).has_knot()),
            r is Ok ==> final(self).is_compiled() && final(self).plan_ok(),
            (r matches Err(e) ==> {
                &&& ((e == CoreError::UnknownDependency) <==> !old(self).resolvable())
                &&& (e == CoreError::UnknownDependency || e == CoreError::CyclicDependency)
            }),
    {
        let d = match self.resolve() {
            Some(d) => d,
            None => {
                return Err(CoreError::UnknownDependency);
            }
        };
        match self.plan(&d) {
            Some(ob) => {
                let (order, batch_of) = ob;
                self.deps = d;
                self.order = order;
                self.batch_of = batch_of;
                self.compiled = true;
                proof {
                    assert(self.base_wf());
                    assert(self.plan_ok());
                }
                Ok(())
            }
            None => {
                Err(CoreError::CyclicDependency)
            }
        }
    }

    /// One tick: executes every registered system exactly once, in the
    /// compiled order — batches in ascending order, so each system runs
    /// after all its predecessors and never alongside a conflicting one —
    /// and returns only when all have run; the tick is a barrier. The
    /// returned ghost log is the exact sequence of systems executed.
    pub fn run(&self, world: &mut World<C, R>) -> (log: Ghost<Seq<usize>>)
        requires
            self.wf(),
            self.is_compiled(),
        ensures
            log@ == self.order_seq(),
    {
        let ghost mut log_seq: Seq<usize> = Seq::empty();
        let mut p: usize = 0;
        while p < self.order.len()
            invariant
                self.wf(),
                self.is_compiled(),
                p <= self.order@.len(),
                log_seq == self.order@.subrange(0, p as int),
            decreases self.order@.len() - p,
        {
            let i = self.order[p];
            self.systems[i].run(world);
            proof {
                log_seq = log_seq.push(i);
                assert(log_seq =~= self.order@.subrange(0, p + 1));
            }
            p += 1;
        }
        proof {
            assert(log_seq =~= self.order@);
        }
        Ghost(log_seq)
    }

    /// Scheduler ordering: in the execution order of every tick, a
    /// declared predecessor runs strictly before its dependent, so
    /// within each tick the dependent observes the predecessor's effects
    /// of that same tick and never a later one.
    pub proof fn lemma_deps_run_earlier(self, j: int, k: int, p1: int, p2: int)
        requires
            self.wf(),
            self.is_compiled(),
            0 <= j < self.count(),
            0 <= k < self.deps_of(j).len(),
            0 <= p1 < self.order_seq().len(),
            0 <= p2 < self.order_seq().len(),
            self.order_seq()[p1] == self.deps_of(j)[k],
            (self.order_seq()[p2] as int) == j,
        ensures
            p1 < p2,
    {
        let dv = self.deps_of(j)[k] as int;
        assert(self.batch_of@[dv] < self.batch_of@[j]);
        if p2 < p1 {
            assert(self.batch_of@[self.order@[p2] as int] <= self.batch_of@[self.order@[p1] as int]);
            assert(false);
        }
        if p1 == p2 {
            assert(false);
        }
    }

    /// Conflict serialization: two distinct systems whose declared
    /// access sets conflict are planned into different batches, so their
    /// running intervals never overlap when batches are dispatched one
    /// after another.
    pub proof fn lemma_conflicting_in_distinct_batches(self, i: int, j: int)
        requires
            self.wf(),
            self.is_compiled(),
            0 <= i < self.count(),
            0 <= j < self.count(),
            i != j,
            sets_conflict(self.access_of(i), self.access_of(j)),
        ensures
            self.batch_id(i) != self.batch_id(j),
    {
        assert(self.access_of(i) == self.access@[i]@);
        assert(self.access_of(j) == self.access@[j]@);
    }

    /// Idempotent tick count: the execution order of a tick lists every
    /// registered system exactly once — it has one entry per system and
    /// no entry twice — so each tick applies each system's effect once.
    pub proof fn lemma_tick_runs_each_once(self, i: usize)
        requires
            self.wf(),
            self.is_compiled(),
            (i as int) < self.count(),
        ensures
            self.order_seq().len() == self.count(),
            self.order_seq().contains(i),
            forall|p1: int, p2: int| #![trigger self.order_seq()[p1], self.order_seq()[p2]]
                0 <= p1 < p2 < self.order_seq().len()
                ==> self.order_seq()[p1] != self.order_seq()[p2],
    {
    }

}

} // verus!
