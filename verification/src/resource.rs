//! A singleton holder for one world-wide value, independent of entities.

use vstd::prelude::*;
use crate::CoreError;

verus! {

/// Holds at most one value. Empty until a value is inserted; reading an
/// empty cell is an explicit error, never a fabricated default.
pub struct ResourceCell<T> {
    value: Option<T>,
}

impl<T> ResourceCell<T> {
    /// The stored value, if any.
    pub closed spec fn stored(self) -> Option<T> {
        self.value
    }

    /// An empty cell: not yet configured.
    pub fn new() -> (r: ResourceCell<T>)
        ensures
            r.stored() is None,
    {
        ResourceCell { value: None }
    }

    /// Sets the singleton, replacing any prior value.
    pub fn insert(&mut self, v: T)
        ensures
            final(self).stored() == Some(v),
    {
        self.value = Some(v);
    }

    /// The value, or a missing-resource error if never inserted.
    pub fn get(&self) -> (r: Result<&T, CoreError>)
        ensures
            (match r {
                Ok(v) => self.stored() == Some(*v),
                Err(e) => self.stored() is None && e == CoreError::ResourceMissing,
            }),
    {
        match &self.value {
            Some(v) => Ok(v),
            None => Err(CoreError::ResourceMissing),
        }
    }

    /// Removes and returns the value, leaving the cell empty.
    pub fn take(&mut self) -> (r: Option<T>)
        ensures
            final(self).stored() is None,
            r == old(self).stored(),
    {
        self.value.take()
    }
}

} // verus!
