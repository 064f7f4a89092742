use crate::status::XvStatus;
use std::collections::HashMap;
use vstd::prelude::*;
use vstd::std_specs::hash::group_hash_axioms;

verus! {

broadcast use group_hash_axioms;

/// Opaque-handle registry: the values behind live handles, and the counter
/// that the next handle is drawn from.
pub struct HandleRegistry<T> {
    entries: HashMap<u64, T>,
    next: u64,
}

impl<T> HandleRegistry<T> {
    /// The values behind the live handles.
    pub closed spec fn entries(&self) -> Map<u64, T> {
        self.entries@
    }

    /// The counter value the next handle is drawn from.
    pub closed spec fn next(&self) -> u64 {
        self.next
    }

    /// Every live handle is nonzero and was drawn before the counter's
    /// current value.
    pub open spec fn wf(&self) -> bool {
        forall|handle: u64| #[trigger]
            self.entries().contains_key(handle) ==> 0 < handle < self.next()
    }

    /// An empty registry whose first handle is one.
    pub fn new() -> (registry: Self)
        ensures
            registry.entries() == Map::<u64, T>::empty(),
            registry.next() == 1,
            registry.wf(),
    {
        HandleRegistry { entries: HashMap::new(), next: 1 }
    }

    /// Draws the next handle. Zero and `u64::MAX` are never handed out: the
    /// counter moves on regardless, wrapping after `u64::MAX`, and drawing
    /// either reports `InvalidState`.
    pub fn next_handle(&mut self) -> (handle: Result<u64, XvStatus>)
        ensures
            final(self).entries() == old(self).entries(),
            final(self).next() == (if old(self).next() == u64::MAX {
                0
            } else {
                old(self).next() + 1
            }),
            handle == (if old(self).next() == 0 || old(self).next() == u64::MAX {
                Err::<u64, XvStatus>(XvStatus::InvalidState)
            } else {
                Ok(old(self).next())
            }),
    {
        let handle = self.next;
        self.next = if handle == u64::MAX {
            0
        } else {
            handle + 1
        };
        if handle == 0 || handle == u64::MAX {
            return Err(XvStatus::InvalidState);
        }
        Ok(handle)
    }

    /// Stores `value` under a freshly drawn handle.
    pub fn register(&mut self, value: T) -> (handle: Result<u64, XvStatus>)
        requires
            old(self).wf(),
        ensures
            final(self).next() == (if old(self).next() == u64::MAX {
                0
            } else {
                old(self).next() + 1
            }),
            match handle {
                Ok(h) => {
                    &&& h == old(self).next()
                    &&& !old(self).entries().contains_key(h)
                    &&& final(self).entries() == old(self).entries().insert(h, value)
                    &&& final(self).wf()
                },
                Err(status) => {
                    &&& status == XvStatus::InvalidState
                    &&& (old(self).next() == 0 || old(self).next() == u64::MAX)
                    &&& final(self).entries() == old(self).entries()
                },
            },
    {
        let handle = self.next_handle();
        match handle {
            Ok(h) => {
                self.entries.insert(h, value);
                Ok(h)
            },
            Err(status) => Err(status),
        }
    }

    /// The value behind a live handle; `InvalidHandle` when there is none.
    pub fn get(&self, handle: u64) -> (value: Result<&T, XvStatus>)
        ensures
            match value {
                Ok(v) => self.entries().contains_key(handle) && *v == self.entries()[handle],
                Err(status) => !self.entries().contains_key(handle) && status
                    == XvStatus::InvalidHandle,
            },
    {
        match self.entries.get(&handle) {
            Some(v) => Ok(v),
            None => Err(XvStatus::InvalidHandle),
        }
    }

    /// Stores `value` under `handle`, replacing what was there.
    pub fn insert(&mut self, handle: u64, value: T)
        ensures
            final(self).entries() == old(self).entries().insert(handle, value),
            final(self).next() == old(self).next(),
            old(self).wf() && 0 < handle < old(self).next() ==> final(self).wf(),
    {
        self.entries.insert(handle, value);
    }

    /// Removes a live handle and returns its value; `InvalidHandle` when
    /// there is none.
    pub fn take(&mut self, handle: u64) -> (value: Result<T, XvStatus>)
        ensures
            final(self).next() == old(self).next(),
            final(self).entries() == old(self).entries().remove(handle),
            old(self).wf() ==> final(self).wf(),
            match value {
                Ok(v) => old(self).entries().contains_key(handle) && v == old(
                    self,
                ).entries()[handle],
                Err(status) => !old(self).entries().contains_key(handle) && status
                    == XvStatus::InvalidHandle,
            },
    {
        let removed = self.entries.remove(&handle);
        proof {
            assert forall|h: u64| #[trigger] self.entries().contains_key(h) implies old(
                self,
            ).entries().contains_key(h) by {}
        }
        match removed {
            Some(v) => Ok(v),
            None => Err(XvStatus::InvalidHandle),
        }
    }

    /// Releases a handle; `InvalidHandle` when it is not live.
    pub fn release(&mut self, handle: u64) -> (outcome: Result<(), XvStatus>)
        ensures
            final(self).next() == old(self).next(),
            final(self).entries() == old(self).entries().remove(handle),
            old(self).wf() ==> final(self).wf(),
            outcome == (if old(self).entries().contains_key(handle) {
                Ok::<(), XvStatus>(())
            } else {
                Err(XvStatus::InvalidHandle)
            }),
    {
        match self.take(handle) {
            Ok(_) => Ok(()),
            Err(status) => Err(status),
        }
    }
}

/// A released handle is gone: looking it up, or releasing it again, reports
/// `InvalidHandle`.
pub proof fn lemma_released_handle_is_invalid<T>(
    before: HandleRegistry<T>,
    after: HandleRegistry<T>,
    handle: u64,
)
    requires
        after.entries() == before.entries().remove(handle),
    ensures
        !after.entries().contains_key(handle),
{
}

/// A freshly registered handle holds exactly the registered value, and every
/// other live handle keeps its value.
pub proof fn lemma_registered_handle_reads_back<T>(
    before: HandleRegistry<T>,
    after: HandleRegistry<T>,
    handle: u64,
    value: T,
    other: u64,
)
    requires
        after.entries() == before.entries().insert(handle, value),
        other != handle,
    ensures
        after.entries().contains_key(handle),
        after.entries()[handle] == value,
        after.entries().contains_key(other) == before.entries().contains_key(other),
        before.entries().contains_key(other) ==> after.entries()[other]
            == before.entries()[other],
{
}

} // verus!
