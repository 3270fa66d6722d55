//! A table that keeps values under small integer handles.
//!
//! The producer keeps here what it must have back when the engine completes a
//! message. The engine is told the handle only, so a handle that is unknown, or
//! that was given back already, is answered with `None` and does no harm.

use vstd::prelude::*;

verus! {

/// A table of values, each kept under a handle of its own from the moment it
/// is put in until it is taken out. Handles of values that were taken out are
/// used again for later values.
pub struct Registry<T> {
    /// Slot `h` holds the value kept under handle `h`, if there is one.
    slots: Vec<Option<T>>,
    /// The empty slots, each named once.
    free: Vec<usize>,
    /// The number of slots that hold a value.
    live: usize,
}

impl<T> View for Registry<T> {
    type V = Map<usize, T>;

    /// The values in the table, by handle.
    closed spec fn view(&self) -> Map<usize, T> {
        Map::new(
            |h: usize| h < self.slots@.len() && self.slots@[h as int] is Some,
            |h: usize| self.slots@[h as int]->0,
        )
    }
}

impl<T> Registry<T> {
    /// The table is in order: its list of empty slots names empty slots only,
    /// and none of them twice, and its count of values is right.
    pub closed spec fn wf(&self) -> bool {
        &&& forall|k: int|
            0 <= k < self.free@.len() ==> (#[trigger] self.free@[k]) < self.slots@.len()
                && self.slots@[self.free@[k] as int] is None
        &&& forall|j: int, k: int|
            0 <= j < k < self.free@.len() ==> self.free@[j] != self.free@[k]
        &&& self.slots@.len() == self.live + self.free@.len()
        &&& self@.dom().finite()
        &&& self@.dom().len() == self.live
    }

    /// The handle that the next value put into the table will get.
    pub closed spec fn next_handle(&self) -> usize {
        if self.free@.len() > 0 {
            self.free@.last()
        } else {
            self.slots@.len() as usize
        }
    }

    /// The number of values in the table.
    pub open spec fn spec_len(&self) -> usize {
        self@.dom().len() as usize
    }

    /// The handle of the next value is not in use, and the values in the table
    /// are finitely many.
    pub proof fn lemma_next_handle_is_fresh(&self)
        requires
            self.wf(),
        ensures
            !self@.contains_key(self.next_handle()),
            self@.dom().finite(),
            self@.dom().len() <= usize::MAX,
    {
    }

    /// Makes an empty table.
    pub fn new() -> (registry: Self)
        ensures
            registry.wf(),
            registry@ == Map::<usize, T>::empty(),
    {
        let registry = Registry { slots: Vec::new(), free: Vec::new(), live: 0 };
        assert(registry@ =~= Map::<usize, T>::empty());
        registry
    }

    /// Returns the number of values in the table.
    #[verifier::when_used_as_spec(spec_len)]
    pub fn len(&self) -> (count: usize)
        requires
            self.wf(),
        ensures
            count == self@.dom().len(),
            count == self.spec_len(),
    {
        self.live
    }

    /// Tells whether a value is kept under `handle`.
    pub fn contains(&self, handle: usize) -> (found: bool)
        requires
            self.wf(),
        ensures
            found == self@.contains_key(handle),
    {
        handle < self.slots.len() && self.slots[handle].is_some()
    }

    /// Puts `value` into the table and returns the handle it is kept under: one
    /// that was not in use. Nothing else in the table changes.
    pub fn insert(&mut self, value: T) -> (handle: usize)
        requires
            old(self).wf(),
        ensures
            final(self).wf(),
            handle == old(self).next_handle(),
            !old(self)@.contains_key(handle),
            final(self)@ == old(self)@.insert(handle, value),
    {
        let handle: usize;
        match self.free.pop() {
            Some(slot) => {
                handle = slot;
                assert(handle == old(self).free@[old(self).free@.len() - 1]);
                self.slots[handle] = Some(value);
            },
            None => {
                handle = self.slots.len();
                self.slots.push(Some(value));
            },
        }
        assert(self.live < self.slots@.len() <= usize::MAX) by {
            vstd::std_specs::vec::axiom_spec_len(&self.slots);
        }
        self.live = self.live + 1;
        assert(self@ =~= old(self)@.insert(handle, value));
        handle
    }

    /// Takes the value kept under `handle` out of the table and returns it, or
    /// returns `None` and leaves the table as it is where there is none.
    pub fn remove(&mut self, handle: usize) -> (value: Option<T>)
        requires
            old(self).wf(),
        ensures
            final(self).wf(),
            value == (if old(self)@.contains_key(handle) {
                Some(old(self)@[handle])
            } else {
                None
            }),
            final(self)@ == old(self)@.remove(handle),
    {
        if handle < self.slots.len() && self.slots[handle].is_some() {
            proof {
                assert(self@.dom().contains(handle));
                if self.live == 0 {
                    self@.dom().lemma_len0_is_empty();
                }
            }
            let value = self.slots[handle].take();
            self.free.push(handle);
            self.live = self.live - 1;
            assert(self@ =~= old(self)@.remove(handle));
            value
        } else {
            assert(self@ =~= old(self)@.remove(handle));
            None
        }
    }
}

} // verus!
