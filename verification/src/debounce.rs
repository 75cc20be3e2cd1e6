//! The pending brightness writes of the sliders. A fast slider drag must not
//! flood the I2C bus, so each display has at most one write waiting on a
//! timer: scheduling a new one hands back the one it replaces, to be
//! cancelled.
use std::collections::HashMap;

use vstd::prelude::*;

verus! {

broadcast use vstd::std_specs::hash::group_hash_axioms;

/// The timers of the pending brightness writes, at most one per display.
pub struct Debouncer<T> {
    pending: HashMap<u32, T>,
}

impl<T> View for Debouncer<T> {
    type V = Map<u32, T>;

    closed spec fn view(&self) -> Map<u32, T> {
        self.pending@
    }
}

/// Scheduling two writes for one display in a row leaves only the second
/// pending, and the second scheduling hands back the first to be cancelled;
/// the other displays' pending writes are untouched.
pub proof fn lemma_reschedule_replaces<T>(pending: Map<u32, T>, id: u32, first: T, second: T, other: u32)
    ensures
        pending.insert(id, first).dom().contains(id),
        pending.insert(id, first)[id] == first,
        pending.insert(id, first).insert(id, second)[id] == second,
        pending.insert(id, first).insert(id, second).dom() == pending.dom().insert(id),
        other != id ==> pending.insert(id, first).insert(id, second).dom().contains(other)
            == pending.dom().contains(other),
        other != id && pending.dom().contains(other) ==> pending.insert(id, first).insert(
            id,
            second,
        )[other] == pending[other],
{
    assert(pending.insert(id, first).insert(id, second).dom() =~= pending.dom().insert(id));
}

impl<T> Debouncer<T> {
    /// No pending writes.
    pub fn new() -> (d: Self)
        ensures
            d@ == Map::<u32, T>::empty(),
    {
        Debouncer { pending: HashMap::new() }
    }

    /// Takes the pending timer of display `display_id` off the list, if it has
    /// one, and hands it back.
    pub fn take(&mut self, display_id: u32) -> (timer: Option<T>)
        ensures
            final(self)@ == old(self)@.remove(display_id),
            timer == (if old(self)@.dom().contains(display_id) {
                Some(old(self)@[display_id])
            } else {
                None
            }),
    {
        let timer = self.pending.remove(&display_id);
        assert(self@ =~= old(self)@.remove(display_id));
        timer
    }

    /// Makes `timer` the pending write of display `display_id` and hands back
    /// the one it replaces, to be cancelled.
    pub fn schedule(&mut self, display_id: u32, timer: T) -> (previous: Option<T>)
        ensures
            final(self)@ == old(self)@.insert(display_id, timer),
            previous == (if old(self)@.dom().contains(display_id) {
                Some(old(self)@[display_id])
            } else {
                None
            }),
    {
        self.pending.insert(display_id, timer)
    }
}

} // verus!
