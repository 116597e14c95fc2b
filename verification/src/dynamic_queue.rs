//! A first-in first-out queue that doubles its capacity as it fills, up to a
//! maximum. It holds the payloads that the application has handed over and
//! that have not been sent yet.

use std::collections::VecDeque;
use vstd::prelude::*;

verus! {

/// The buffer of a queue and the capacity that it is counted to have.
pub struct Inner<T> {
    pub buffer: VecDeque<T>,
    pub capacity: usize,
}

/// A queue that grows by doubling, up to `max_capacity`.
///
/// The capacity is bookkeeping: a value sent to a queue that is full at its
/// maximum is still taken in.
pub struct DynamicQueue<T> {
    pub inner: Inner<T>,
    pub max_capacity: usize,
}

/// What a queue holds: its values, oldest first, and its capacities.
pub struct DynamicQueueView<T> {
    pub values: Seq<T>,
    pub capacity: usize,
    pub max_capacity: usize,
}

/// The capacity of a queue after a value was sent to it: doubled, but to no
/// more than the maximum, if the queue was full below its maximum; else as
/// before.
pub open spec fn grown(len: nat, capacity: usize, max_capacity: usize) -> usize {
    if len == capacity && capacity < max_capacity {
        if capacity * 2 < max_capacity {
            (capacity * 2) as usize
        } else {
            max_capacity
        }
    } else {
        capacity
    }
}

impl<T> View for DynamicQueue<T> {
    type V = DynamicQueueView<T>;

    open spec fn view(&self) -> DynamicQueueView<T> {
        DynamicQueueView {
            values: self.inner.buffer@,
            capacity: self.inner.capacity,
            max_capacity: self.max_capacity,
        }
    }
}

impl<T> DynamicQueue<T> {
    /// An empty queue with the capacities given.
    pub fn new(initial_capacity: usize, max_capacity: usize) -> (queue: Self)
        ensures
            queue@ == (DynamicQueueView {
                values: Seq::<T>::empty(),
                capacity: initial_capacity,
                max_capacity,
            }),
    {
        let buffer: VecDeque<T> = VecDeque::new();
        DynamicQueue { inner: Inner { buffer, capacity: initial_capacity }, max_capacity }
    }

    /// Number of values that wait in the queue.
    pub fn len(&self) -> (len: usize)
        ensures
            len == self@.values.len(),
    {
        self.inner.buffer.len()
    }

    /// Puts `value` at the end of the queue, growing the capacity if the
    /// queue is full below its maximum.
    pub fn send(&mut self, value: T)
        ensures
            final(self)@.values == old(self)@.values.push(value),
            final(self)@.capacity == grown(
                old(self)@.values.len(),
                old(self)@.capacity,
                old(self)@.max_capacity,
            ),
            final(self)@.max_capacity == old(self)@.max_capacity,
    {
        if self.inner.buffer.len() == self.inner.capacity && self.inner.capacity
            < self.max_capacity {
            let new_capacity: usize = if self.inner.capacity < self.max_capacity
                - self.inner.capacity {
                self.inner.capacity * 2
            } else {
                self.max_capacity
            };
            self.inner.capacity = new_capacity;
        }
        self.inner.buffer.push_back(value);
    }

    /// Takes the oldest value out of the queue, if there is one.
    pub fn recv(&mut self) -> (value: Option<T>)
        ensures
            old(self)@.values.len() == 0 ==> value is None && final(self)@ == old(self)@,
            old(self)@.values.len() > 0 ==> value == Some(old(self)@.values[0]) && final(self)@
                == (DynamicQueueView { values: old(self)@.values.skip(1), ..old(self)@ }),
    {
        let value = self.inner.buffer.pop_front();
        proof {
            if old(self)@.values.len() > 0 {
                assert(self@.values =~= old(self)@.values.skip(1));
            } else {
                assert(self@.values =~= old(self)@.values);
            }
        }
        value
    }
}

} // verus!
