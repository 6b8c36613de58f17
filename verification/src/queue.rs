//! A finite-capacity FIFO channel of work items.
//!
//! The queue itself never blocks: where a blocking channel would park the
//! caller, `try_send` and `try_receive` say so in their result, and the caller
//! waits and retries. Everything a blocking wrapper needs to decide is here.

use std::collections::VecDeque;
use vstd::prelude::*;

verus! {

/// Why a send did not enqueue its item. The item is handed back.
#[derive(Debug, PartialEq, Eq)]
pub enum Refused<T> {
    /// The queue holds as many items as its capacity allows: the sender waits.
    Full(T),
    /// The queue was closed: no item is accepted any more.
    Closed(T),
}

/// What a receive found.
#[derive(Debug, PartialEq, Eq)]
pub enum Received<T> {
    /// The oldest pending item, now owned by the receiver.
    Item(T),
    /// Nothing is pending but the queue is still open: the receiver waits.
    Empty,
    /// The queue is closed and drained: nothing will ever arrive again.
    Drained,
}

/// A bounded first-in first-out queue.
pub struct BoundedQueue<T> {
    items: VecDeque<T>,
    capacity: usize,
    closed: bool,
}

impl<T> View for BoundedQueue<T> {
    type V = Seq<T>;

    /// The pending items, oldest first.
    closed spec fn view(&self) -> Seq<T> {
        self.items@
    }
}

impl<T> BoundedQueue<T> {
    /// The bound every queue keeps: it never holds more than its capacity.
    pub closed spec fn well_formed(&self) -> bool {
        self.items@.len() <= self.capacity
    }

    /// The largest number of items the queue holds at once.
    pub closed spec fn spec_capacity(&self) -> nat {
        self.capacity as nat
    }

    /// Whether the queue has been closed.
    pub closed spec fn spec_closed(&self) -> bool {
        self.closed
    }

    /// An open, empty queue that holds at most `capacity` items.
    pub fn new(capacity: usize) -> (queue: Self)
        ensures
            queue.well_formed(),
            queue@ == Seq::<T>::empty(),
            queue.spec_capacity() == capacity,
            !queue.spec_closed(),
    {
        BoundedQueue { items: VecDeque::new(), capacity, closed: false }
    }

    #[verifier::when_used_as_spec(spec_capacity_usize)]
    pub fn capacity(&self) -> (capacity: usize)
        ensures
            capacity == self.spec_capacity(),
    {
        self.capacity
    }

    pub closed spec fn spec_capacity_usize(&self) -> usize {
        self.capacity
    }

    /// The number of pending items, which never exceeds the capacity.
    pub fn len(&self) -> (len: usize)
        requires
            self.well_formed(),
        ensures
            len == self@.len(),
            len <= self.spec_capacity(),
    {
        self.items.len()
    }

    pub fn is_empty(&self) -> (empty: bool)
        ensures
            empty == (self@.len() == 0),
    {
        self.items.len() == 0
    }

    pub fn is_full(&self) -> (full: bool)
        requires
            self.well_formed(),
        ensures
            full == (self@.len() == self.spec_capacity()),
            self@.len() <= self.spec_capacity(),
    {
        self.items.len() == self.capacity
    }

    pub fn is_closed(&self) -> (closed: bool)
        ensures
            closed == self.spec_closed(),
    {
        self.closed
    }

    /// Appends `item` unless the queue is closed or full.
    pub fn try_send(&mut self, item: T) -> (result: Result<(), Refused<T>>)
        requires
            old(self).well_formed(),
        ensures
            final(self).well_formed(),
            final(self).spec_capacity() == old(self).spec_capacity(),
            final(self).spec_closed() == old(self).spec_closed(),
            final(self)@.len() <= final(self).spec_capacity(),
            match result {
                Ok(()) => {
                    &&& !old(self).spec_closed()
                    &&& old(self)@.len() < old(self).spec_capacity()
                    &&& final(self)@ == old(self)@.push(item)
                },
                Err(Refused::Closed(back)) => {
                    &&& old(self).spec_closed()
                    &&& back == item
                    &&& final(self)@ == old(self)@
                },
                Err(Refused::Full(back)) => {
                    &&& !old(self).spec_closed()
                    &&& old(self)@.len() == old(self).spec_capacity()
                    &&& back == item
                    &&& final(self)@ == old(self)@
                },
            },
    {
        if self.closed {
            Err(Refused::Closed(item))
        } else if self.items.len() >= self.capacity {
            Err(Refused::Full(item))
        } else {
            self.items.push_back(item);
            Ok(())
        }
    }

    /// Removes the oldest pending item, if there is one.
    pub fn try_receive(&mut self) -> (result: Received<T>)
        requires
            old(self).well_formed(),
        ensures
            final(self).well_formed(),
            final(self).spec_capacity() == old(self).spec_capacity(),
            final(self).spec_closed() == old(self).spec_closed(),
            final(self)@.len() <= final(self).spec_capacity(),
            match result {
                Received::Item(item) => {
                    &&& old(self)@.len() > 0
                    &&& item == old(self)@[0]
                    &&& final(self)@ == old(self)@.drop_first()
                },
                Received::Empty => {
                    &&& old(self)@.len() == 0
                    &&& !old(self).spec_closed()
                    &&& final(self)@ == old(self)@
                },
                Received::Drained => {
                    &&& old(self)@.len() == 0
                    &&& old(self).spec_closed()
                    &&& final(self)@ == old(self)@
                },
            },
    {
        match self.items.pop_front() {
            Some(item) => Received::Item(item),
            None => {
                if self.closed {
                    Received::Drained
                } else {
                    Received::Empty
                }
            },
        }
    }

    /// Closes the queue. Pending items stay receivable; later sends are refused.
    pub fn close(&mut self)
        requires
            old(self).well_formed(),
        ensures
            final(self).well_formed(),
            final(self).spec_closed(),
            final(self)@ == old(self)@,
            final(self).spec_capacity() == old(self).spec_capacity(),
    {
        self.closed = true;
    }
}

/// A well-formed queue never holds more items than its capacity.
pub proof fn lemma_never_over_capacity<T>(queue: BoundedQueue<T>)
    requires
        queue.well_formed(),
    ensures
        queue@.len() <= queue.spec_capacity(),
{
}

} // verus!
