//! The reassembly buffer: items that finished early wait here, keyed by
//! sequence number, until their predecessors have been emitted.

use crate::item::WorkItem;
use std::collections::BTreeMap;
use vstd::prelude::*;

verus! {

/// An ordered store of payloads keyed by sequence number.
pub struct Reorder<T> {
    storage: BTreeMap<u64, T>,
}

impl<T> View for Reorder<T> {
    type V = Map<u64, T>;

    closed spec fn view(&self) -> Map<u64, T> {
        self.storage@
    }
}

impl<T> Reorder<T> {
    /// A buffer that holds nothing.
    pub fn new() -> (r: Reorder<T>)
        ensures
            r@ == Map::<u64, T>::empty(),
    {
        Reorder { storage: BTreeMap::new() }
    }

    /// Stores `item` under its sequence number, replacing whatever was held
    /// under that number before.
    pub fn enqueue(&mut self, item: WorkItem<T>)
        ensures
            final(self)@ == old(self)@.insert(item.sequence, item.payload),
    {
        self.storage.insert(item.sequence, item.payload);
    }

    /// Takes out the item held under `order`, if there is one.
    pub fn remove(&mut self, order: u64) -> (r: Option<WorkItem<T>>)
        ensures
            match r {
                Some(item) => {
                    &&& old(self)@.contains_key(order)
                    &&& item.sequence == order
                    &&& item.payload == old(self)@[order]
                    &&& final(self)@ == old(self)@.remove(order)
                },
                None => !old(self)@.contains_key(order) && final(self)@ == old(self)@,
            },
    {
        match self.storage.remove(&order) {
            Some(payload) => Some(WorkItem { sequence: order, payload }),
            None => {
                assert(self@ =~= old(self)@);
                None
            },
        }
    }

    /// Whether an item is held under `order`.
    pub fn contains(&self, order: u64) -> (b: bool)
        ensures
            b == self@.contains_key(order),
    {
        self.storage.contains_key(&order)
    }

    /// How many items are held.
    pub fn len(&self) -> (n: usize)
        ensures
            n == self@.len(),
            self@.dom().finite(),
    {
        self.storage.len()
    }

    /// A buffer holds finitely many items.
    pub proof fn lemma_finite(&self)
        ensures
            self@.dom().finite(),
    {
    }

    /// Whether the buffer holds nothing.
    pub fn is_empty(&self) -> (b: bool)
        ensures
            b == (self@ == Map::<u64, T>::empty()),
    {
        let b = self.storage.is_empty();
        proof {
            if b {
                assert(self@ =~= Map::<u64, T>::empty());
            }
        }
        b
    }
}

} // verus!
