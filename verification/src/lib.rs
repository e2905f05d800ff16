//! An entity-component-system core: typed component stores and singleton
//! resources owned by a world, an entity registry with generation-checked
//! handles, shared/exclusive access bookkeeping, a join operator computing
//! per-entity intersections across stores, and a dependency-ordered
//! scheduler that plans conflict-free parallel batches and runs every
//! registered system exactly once per tick.

use vstd::prelude::*;

pub mod access;
pub mod entity;
pub mod resource;
pub mod schedule;
pub mod store;
pub mod world;

verus! {

/// Errors raised by the core: configuration errors surface at registration
/// time, absence and conflict errors surface as values, never as panics.
#[derive(Clone, Copy, PartialEq, Eq, Structural, Debug)]
pub enum CoreError {
    /// A system was registered under a name that is already taken.
    DuplicateName,
    /// A dependency edge names a system that was never registered.
    UnknownDependency,
    /// The dependency graph contains a cycle.
    CyclicDependency,
    /// A single system declares conflicting access to one target.
    ConflictingAccess,
    /// A resource was requested that was never inserted.
    ResourceMissing,
    /// Acquiring an accessor would violate the shared/exclusive invariant.
    AccessConflict,
}

} // verus!
