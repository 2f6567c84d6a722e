//! The item model: the tagged union of playable entities and the capability
//! contract that nested collections must satisfy.

use vstd::prelude::*;

verus! {

/// A collection that can be queued as a [`QueueItem`].
///
/// A collection resolves its own children and keeps its own, private shuffle
/// state, independent of the shuffle state of any queue that holds it.
pub trait QueueableCollection: Sized {
    type Item;

    /// The number of children of this collection. A collection that does
    /// not say how many children it has reports none, and can then not be
    /// asked for one.
    open spec fn spec_len(&self) -> nat {
        0
    }

    /// The child at a logical (shuffle-aware) index.
    open spec fn spec_child(&self, index: int) -> Self::Item {
        arbitrary()
    }

    /// The child at a raw (insertion-order) index.
    open spec fn spec_child_raw(&self, index: int) -> Self::Item {
        arbitrary()
    }

    /// Get the item at the given index, taking into account the shuffle status.
    fn get_at_index(&self, index: usize) -> (r: &Self::Item)
        requires
            index < self.spec_len(),
        ensures
            *r == self.spec_child(index as int),
    ;

    /// Get the item at the given index, not taking into account the shuffle status.
    fn get_at_index_raw(&self, index: usize) -> (r: &Self::Item)
        requires
            index < self.spec_len(),
        ensures
            *r == self.spec_child_raw(index as int),
    ;

    /// Shuffle the collection.
    fn shuffle(&mut self);

    /// Unshuffle the collection.
    fn unshuffle(&mut self);

    /// Toggle the shuffle status of the collection.
    fn toggle_shuffle(&mut self);
}

/// A minimal collection: children are served in insertion order whether or
/// not the collection is marked shuffled.
pub struct SimpleCollection<T> {
    items: Vec<T>,
    shuffled: bool,
}

impl<T> SimpleCollection<T> {
    /// Whether the collection is currently marked as shuffled.
    pub closed spec fn spec_shuffled(&self) -> bool {
        self.shuffled
    }
}

impl<T> From<Vec<T>> for SimpleCollection<T> {
    /// Build a collection over `items`, in insertion order, not shuffled.
    fn from(items: Vec<T>) -> (r: Self)
        ensures
            r.spec_len() == items@.len(),
            forall|i: int|
                0 <= i < items@.len() ==> (r.spec_child(i) == items@[i] && r.spec_child_raw(i)
                    == items@[i]),
            !r.spec_shuffled(),
    {
        SimpleCollection { items, shuffled: false }
    }
}

impl<T> vstd::std_specs::convert::FromSpecImpl<Vec<T>> for SimpleCollection<T> {
    open spec fn obeys_from_spec() -> bool {
        true
    }

    closed spec fn from_spec(items: Vec<T>) -> Self {
        SimpleCollection { items, shuffled: false }
    }
}

impl<T> QueueableCollection for SimpleCollection<T> {
    type Item = T;

    closed spec fn spec_len(&self) -> nat {
        self.items@.len()
    }

    closed spec fn spec_child(&self, index: int) -> T {
        self.items@[index]
    }

    closed spec fn spec_child_raw(&self, index: int) -> T {
        self.items@[index]
    }

    fn get_at_index(&self, index: usize) -> (r: &T) {
        &self.items[index]
    }

    fn get_at_index_raw(&self, index: usize) -> (r: &T) {
        &self.items[index]
    }

    fn shuffle(&mut self)
        ensures
            final(self).spec_shuffled(),
    {
        self.shuffled = true;
    }

    fn unshuffle(&mut self)
        ensures
            !final(self).spec_shuffled(),
    {
        self.shuffled = false;
    }

    fn toggle_shuffle(&mut self)
        ensures
            final(self).spec_shuffled() == !old(self).spec_shuffled(),
    {
        self.shuffled = !self.shuffled;
    }
}

/// A type that can directly be queued.
#[derive(Clone, Debug)]
pub enum QueueItem<I, C: QueueableCollection> {
    /// A single item that can be queued, like a track or episode.
    Single(I),
    /// A collection of items that can be queued, and offers some extra
    /// functionality.
    Collection(C),
}

} // verus!
