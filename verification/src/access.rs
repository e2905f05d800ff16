//! Declared data access: shared/exclusive modes over stores and
//! resources, conflict tests on declared access sets, and the runtime
//! tracker that upholds the accessor invariant as a backstop to the
//! scheduler's static analysis.

use vstd::prelude::*;
use crate::CoreError;

verus! {

/// How a target is accessed: read-only by any number of holders, or
/// read-write by exactly one.
#[derive(Clone, Copy, PartialEq, Eq, Structural, Debug)]
pub enum Mode {
    Shared,
    Exclusive,
}

/// What is accessed: one component store or one resource, by index.
#[derive(Clone, Copy, PartialEq, Eq, Structural, Debug)]
pub enum Target {
    Store(usize),
    Resource(usize),
}

/// One declared access: a target and the mode it is used in.
#[derive(Clone, Copy, PartialEq, Eq, Structural, Debug)]
pub struct Access {
    pub target: Target,
    pub mode: Mode,
}

/// A granted, scoped handle on one target in one mode. Constructed only
/// by acquiring it from the tracker, and given back by releasing it.
#[derive(Clone, Copy, PartialEq, Eq, Structural, Debug)]
pub struct Accessor {
    pub target: Target,
    pub mode: Mode,
}

/// Two accesses conflict when they address the same target and at least
/// one of them is exclusive.
pub open spec fn conflicts(a: Access, b: Access) -> bool {
    a.target == b.target && (a.mode is Exclusive || b.mode is Exclusive)
}

/// Runtime check for `conflicts`.
pub fn conflicts_check(a: &Access, b: &Access) -> (r: bool)
    ensures
        r == conflicts(*a, *b),
{
    a.target == b.target && (a.mode == Mode::Exclusive || b.mode == Mode::Exclusive)
}

/// A declared access set is internally conflict-free: no two of its
/// entries conflict.
pub open spec fn set_conflict_free(s: Seq<Access>) -> bool {
    forall|i: int, j: int| 0 <= i < s.len() && 0 <= j < s.len() && i != j
        ==> !conflicts(s[i], s[j])
}

/// Runtime check for `set_conflict_free`.
pub fn check_set_conflict_free(v: &Vec<Access>) -> (r: bool)
    ensures
        r == set_conflict_free(v@),
{
    let mut i: usize = 0;
    while i < v.len()
        invariant
            i <= v@.len(),
            forall|p: int, q: int| 0 <= p < i && 0 <= q < v@.len() && p != q
                ==> !conflicts(v@[p], v@[q]),
        decreases v@.len() - i,
    {
        let mut j: usize = 0;
        while j < v.len()
            invariant
                i < v@.len(),
                j <= v@.len(),
                forall|q: int| 0 <= q < j && q != i ==> !conflicts(v@[i as int], v@[q]),
            decreases v@.len() - j,
        {
            if j != i && conflicts_check(&v[i], &v[j]) {
                return false;
            }
            j += 1;
        }
        i += 1;
    }
    true
}

/// Two access sets conflict when some access of one conflicts with some
/// access of the other.
pub open spec fn sets_conflict(s1: Seq<Access>, s2: Seq<Access>) -> bool {
    exists|i: int, j: int| 0 <= i < s1.len() && 0 <= j < s2.len() && conflicts(s1[i], s2[j])
}

/// Runtime check for `sets_conflict`.
pub fn check_sets_conflict(v1: &Vec<Access>, v2: &Vec<Access>) -> (r: bool)
    ensures
        r == sets_conflict(v1@, v2@),
{
    let mut i: usize = 0;
    while i < v1.len()
        invariant
            i <= v1@.len(),
            forall|p: int, q: int| 0 <= p < i && 0 <= q < v2@.len()
                ==> !conflicts(v1@[p], v2@[q]),
        decreases v1@.len() - i,
    {
        let mut j: usize = 0;
        while j < v2.len()
            invariant
                i < v1@.len(),
                j <= v2@.len(),
                forall|q: int| 0 <= q < j ==> !conflicts(v1@[i as int], v2@[q]),
            decreases v2@.len() - j,
        {
            if conflicts_check(&v1[i], &v2[j]) {
                return true;
            }
            j += 1;
        }
        i += 1;
    }
    false
}

/// The live-accessor count of one target: how many shared holders, and
/// whether an exclusive holder exists.
#[derive(Clone, Copy, PartialEq, Eq, Structural, Debug)]
pub struct LockState {
    pub shared: usize,
    pub exclusive: bool,
}

/// Tracks, per store and per resource, which accessors are currently
/// held, and refuses a grant that would break the invariant: any number
/// of shared holders, or one exclusive holder, never both.
pub struct AccessTracker {
    stores: Vec<LockState>,
    resources: Vec<LockState>,
}

impl AccessTracker {
    /// The lock state of a target (meaningful only in range).
    pub closed spec fn state_of(self, t: Target) -> LockState {
        match t {
            Target::Store(i) => self.stores@[i as int],
            Target::Resource(i) => self.resources@[i as int],
        }
    }

    /// Whether a target's index is within the tracked range.
    pub open spec fn in_range(self, t: Target) -> bool {
        match t {
            Target::Store(i) => i < self.store_count(),
            Target::Resource(i) => i < self.resource_count(),
        }
    }

    /// The accessor invariant: an exclusive holder excludes all sharers.
    pub closed spec fn wf(self) -> bool {
        &&& forall|k: int| 0 <= k < self.stores@.len()
                ==> ((#[trigger] self.stores@[k]).exclusive ==> self.stores@[k].shared == 0)
        &&& forall|k: int| 0 <= k < self.resources@.len()
                ==> ((#[trigger] self.resources@[k]).exclusive ==> self.resources@[k].shared == 0)
    }

    /// A grant in `mode` is compatible when no current holder conflicts
    /// with it, and a further sharer can still be counted.
    pub open spec fn compatible(self, t: Target, mode: Mode) -> bool {
        match mode {
            Mode::Shared => !self.state_of(t).exclusive && self.state_of(t).shared < usize::MAX,
            Mode::Exclusive => !self.state_of(t).exclusive && self.state_of(t).shared == 0,
        }
    }

    /// A tracker with no targets yet.
    pub fn new() -> (r: AccessTracker)
        ensures
            r.wf(),
            r.store_count() == 0,
            r.resource_count() == 0,
    {
        AccessTracker { stores: Vec::new(), resources: Vec::new() }
    }

    /// How many stores are tracked.
    pub closed spec fn store_count(self) -> nat {
        self.stores@.len()
    }

    /// How many resources are tracked.
    pub closed spec fn resource_count(self) -> nat {
        self.resources@.len()
    }

    /// Starts tracking one more store, with no holders.
    pub fn add_store(&mut self)
        requires
            old(self).wf(),
        ensures
            final(self).wf(),
            final(self).store_count() == old(self).store_count() + 1,
            final(self).resource_count() == old(self).resource_count(),
            forall|t: Target| old(self).in_range(t)
                ==> final(self).in_range(t) && final(self).state_of(t) == old(self).state_of(t),
            forall|t: Target| !old(self).in_range(t) && final(self).in_range(t)
                ==> final(self).state_of(t) == (LockState { shared: 0, exclusive: false }),
    {
        self.stores.push(LockState { shared: 0, exclusive: false });
    }

    /// Starts tracking one more resource, with no holders.
    pub fn add_resource(&mut self)
        requires
            old(self).wf(),
        ensures
            final(self).wf(),
            final(self).store_count() == old(self).store_count(),
            final(self).resource_count() == old(self).resource_count() + 1,
            forall|t: Target| old(self).in_range(t)
                ==> final(self).in_range(t) && final(self).state_of(t) == old(self).state_of(t),
            forall|t: Target| !old(self).in_range(t) && final(self).in_range(t)
                ==> final(self).state_of(t) == (LockState { shared: 0, exclusive: false }),
    {
        self.resources.push(LockState { shared: 0, exclusive: false });
    }

    /// Grants an accessor on `target` in `mode`, or reports the conflict.
    /// The grant succeeds exactly when no conflicting holder is live.
    pub fn acquire(&mut self, target: Target, mode: Mode) -> (r: Result<Accessor, CoreError>)
        requires
            old(self).wf(),
            old(self).in_range(target),
        ensures
            final(self).wf(),
            final(self).store_count() == old(self).store_count(),
            final(self).resource_count() == old(self).resource_count(),
            r is Ok <==> old(self).compatible(target, mode),
            r is Err ==> r->Err_0 == CoreError::AccessConflict && *final(self) == *old(self),
            r is Ok ==> r->Ok_0 == (Accessor { target, mode }),
            r is Ok ==> forall|t: Target| t != target && old(self).in_range(t)
                ==> final(self).state_of(t) == old(self).state_of(t),
            r is Ok && mode is Shared
                ==> final(self).state_of(target) == (LockState {
                    shared: (old(self).state_of(target).shared + 1) as usize,
                    exclusive: false,
                }),
            r is Ok && mode is Exclusive
                ==> final(self).state_of(target) == (LockState { shared: 0, exclusive: true }),
    {
        let i = match target {
            Target::Store(i) => i,
            Target::Resource(i) => i,
        };
        let cur = match target {
            Target::Store(_) => self.stores[i],
            Target::Resource(_) => self.resources[i],
        };
        let next = match mode {
            Mode::Shared => {
                if cur.exclusive || cur.shared == usize::MAX {
                    return Err(CoreError::AccessConflict);
                }
                LockState { shared: cur.shared + 1, exclusive: false }
            }
            Mode::Exclusive => {
                if cur.exclusive || cur.shared > 0 {
                    return Err(CoreError::AccessConflict);
                }
                LockState { shared: 0, exclusive: true }
            }
        };
        match target {
            Target::Store(_) => self.stores.set(i, next),
            Target::Resource(_) => self.resources.set(i, next),
        }
        Ok(Accessor { target, mode })
    }

    /// Gives a granted accessor back. The caller must really hold it:
    /// a sharer is counted, or the exclusive holder is recorded.
    pub fn release(&mut self, acc: Accessor)
        requires
            old(self).wf(),
            old(self).in_range(acc.target),
            acc.mode is Shared ==> old(self).state_of(acc.target).shared > 0,
            acc.mode is Exclusive ==> old(self).state_of(acc.target).exclusive,
        ensures
            final(self).wf(),
            final(self).store_count() == old(self).store_count(),
            final(self).resource_count() == old(self).resource_count(),
            forall|t: Target| t != acc.target && old(self).in_range(t)
                ==> final(self).state_of(t) == old(self).state_of(t),
            acc.mode is Shared
                ==> final(self).state_of(acc.target) == (LockState {
                    shared: (old(self).state_of(acc.target).shared - 1) as usize,
                    exclusive: old(self).state_of(acc.target).exclusive,
                }),
            acc.mode is Exclusive
                ==> final(self).state_of(acc.target) == (LockState { shared: 0, exclusive: false }),
    {
        let i = match acc.target {
            Target::Store(i) => i,
            Target::Resource(i) => i,
        };
        let cur = match acc.target {
            Target::Store(_) => self.stores[i],
            Target::Resource(_) => self.resources[i],
        };
        let next = match acc.mode {
            Mode::Shared => LockState { shared: cur.shared - 1, exclusive: cur.exclusive },
            Mode::Exclusive => LockState { shared: 0, exclusive: false },
        };
        match acc.target {
            Target::Store(_) => self.stores.set(i, next),
            Target::Resource(_) => self.resources.set(i, next),
        }
    }
}

} // verus!
