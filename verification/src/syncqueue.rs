//! A queue that can be closed: the state of a queue between a producer and its
//! consumers, and what each operation decides on it. Waiting for an item is
//! left to the caller, who is told when there is nothing to take yet.

use vstd::prelude::*;
use std::collections::VecDeque;

verus! {

/// Why an operation on the queue gives nothing.
#[derive(Debug, Clone, Copy, PartialEq, Eq, Structural)]
pub enum QueueError {
    /// The queue is closed.
    Closed,
    /// The queue is open and holds nothing: the caller is to wait and try again.
    Empty,
}

impl QueueError {
    /// The failure in words.
    pub open spec fn message(self) -> &'static str {
        match self {
            QueueError::Closed => "queue is closed",
            QueueError::Empty => "queue is empty",
        }
    }

    /// The failure in words.
    pub fn as_str(&self) -> (text: &'static str)
        ensures
            text == self.message(),
    {
        match self {
            QueueError::Closed => "queue is closed",
            QueueError::Empty => "queue is empty",
        }
    }
}

/// A queue of items that can be closed.
pub struct SyncQueue<T> {
    data: VecDeque<T>,
    closed: bool,
}

impl<T> SyncQueue<T> {
    /// The items of the queue, the next one to be taken first.
    pub closed spec fn items(&self) -> Seq<T> {
        self.data@
    }

    /// The queue is closed.
    pub closed spec fn is_closed(&self) -> bool {
        self.closed
    }

    /// Creates a new, empty queue, which is open.
    pub fn new() -> (queue: Self)
        ensures
            queue.items() == Seq::<T>::empty(),
            !queue.is_closed(),
    {
        Self { data: VecDeque::new(), closed: false }
    }

    /// Closes the queue. Its items stay.
    pub fn close(&mut self)
        ensures
            final(self).is_closed(),
            final(self).items() == old(self).items(),
    {
        self.closed = true;
    }

    /// Puts the item behind the others, unless the queue is closed.
    pub fn push(&mut self, value: T) -> (r: Result<(), QueueError>)
        ensures
            final(self).is_closed() == old(self).is_closed(),
            old(self).is_closed() ==> r == Err::<(), QueueError>(QueueError::Closed) && final(self).items() == old(self).items(),
            !old(self).is_closed() ==> r is Ok && final(self).items() == old(self).items().push(
                value,
            ),
    {
        if self.closed {
            return Err(QueueError::Closed);
        }
        self.data.push_back(value);
        Ok(())
    }

    /// Takes the first item. A closed queue gives nothing, whatever it holds;
    /// an open queue that holds nothing tells the caller to wait.
    pub fn pop(&mut self) -> (r: Result<T, QueueError>)
        ensures
            final(self).is_closed() == old(self).is_closed(),
            match r {
                Ok(value) => !old(self).is_closed() && old(self).items().len() > 0 && value == old(self).items()[0] && final(self).items() == old(self).items().skip(1),
                Err(QueueError::Closed) => old(self).is_closed() && final(self).items() == old(self).items(),
                Err(QueueError::Empty) => !old(self).is_closed() && old(self).items().len() == 0
                    && final(self).items() == old(self).items(),
            },
    {
        if self.closed {
            return Err(QueueError::Closed);
        }
        match self.data.pop_front() {
            Some(value) => {
                assert(self.data@ =~= old(self).data@.skip(1));
                Ok(value)
            },
            None => Err(QueueError::Empty),
        }
    }

    /// The number of items in the queue.
    pub fn len(&self) -> (n: usize)
        ensures
            n == self.items().len(),
    {
        self.data.len()
    }

    /// Tells whether the queue holds nothing.
    pub fn is_empty(&self) -> (empty: bool)
        ensures
            empty == (self.items().len() == 0),
    {
        self.data.len() == 0
    }

    /// Takes all the items out of the queue, in their order.
    pub fn drain(&mut self) -> (all: VecDeque<T>)
        ensures
            all@ == old(self).items(),
            final(self).items() == Seq::<T>::empty(),
            final(self).is_closed() == old(self).is_closed(),
    {
        let mut all: VecDeque<T> = VecDeque::new();
        all.append(&mut self.data);
        assert(all@ =~= old(self).data@);
        all
    }
}

} // verus!
