//! A bounded first-in first-out queue between producers and one consumer.
//!
//! The queue never holds more than its capacity: a producer that finds it
//! full is handed its item back and has to wait. It delivers in the order of
//! arrival, so what one producer sends arrives in the order it was sent.
//! Once the queue is closed it takes nothing more, and the consumer learns
//! that it is done as soon as what was queued before has been taken.

use std::collections::VecDeque;
use vstd::prelude::*;

use crate::report::Message;
use crate::traverse::WorkItem;

verus! {

/// Why the queue did not take an item. The item comes back to the sender.
#[derive(Debug)]
pub enum Refused<T> {
    /// The queue is full; the sender may try again later.
    Full(T),
    /// The queue is closed; nothing will ever be taken again.
    Closed(T),
}

/// What the consumer finds.
#[derive(Debug)]
pub enum Taken<T> {
    /// The item that waited longest.
    Item(T),
    /// Nothing for now; more may come.
    Empty,
    /// Nothing, and the queue is closed: no more will come.
    Done,
}

/// A bounded queue.
#[derive(Debug)]
pub struct Bus<T> {
    queue: VecDeque<T>,
    capacity: usize,
    closed: bool,
}

/// The queue that carries status events to the reporter.
pub type MessageBus = Bus<Message>;

/// The queue that hands files to the workers.
pub type WorkSource = Bus<WorkItem>;

impl<T> Bus<T> {
    #[verifier::type_invariant]
    spec fn bounded(self) -> bool {
        self.queue@.len() <= self.capacity
    }

    /// The items that wait, the oldest first.
    pub closed spec fn queued(self) -> Seq<T> {
        self.queue@
    }

    /// The most items that can wait at once.
    pub closed spec fn limit(self) -> nat {
        self.capacity as nat
    }

    /// Whether the queue has been closed.
    pub closed spec fn closed(self) -> bool {
        self.closed
    }

    /// An open, empty queue that holds at most `capacity` items.
    pub fn new(capacity: usize) -> (bus: Self)
        ensures
            bus.queued() == Seq::<T>::empty(),
            bus.limit() == capacity,
            !bus.closed(),
    {
        Bus { queue: VecDeque::new(), capacity, closed: false }
    }

    /// Puts `item` at the end of the queue, unless the queue is closed or
    /// full; then the item comes back.
    pub fn send(&mut self, item: T) -> (sent: Result<(), Refused<T>>)
        ensures
            final(self).limit() == old(self).limit(),
            final(self).closed() == old(self).closed(),
            final(self).queued().len() <= final(self).limit(),
            if old(self).closed() {
                sent == Err::<(), Refused<T>>(Refused::Closed(item)) && final(self).queued() == old(self).queued()
            } else if old(self).queued().len() >= old(self).limit() {
                sent == Err::<(), Refused<T>>(Refused::Full(item)) && final(self).queued() == old(self).queued()
            } else {
                sent is Ok && final(self).queued() == old(self).queued().push(item)
            },
    {
        proof {
            use_type_invariant(&*self);
        }
        if self.closed {
            return Err(Refused::Closed(item));
        }
        if self.queue.len() >= self.capacity {
            return Err(Refused::Full(item));
        }
        let mut queue: VecDeque<T> = VecDeque::new();
        std::mem::swap(&mut self.queue, &mut queue);
        queue.push_back(item);
        std::mem::swap(&mut self.queue, &mut queue);
        Ok(())
    }

    /// Takes the oldest item. An empty queue says whether more may come.
    pub fn recv(&mut self) -> (taken: Taken<T>)
        ensures
            final(self).limit() == old(self).limit(),
            final(self).closed() == old(self).closed(),
            if old(self).queued().len() > 0 {
                taken == Taken::Item(old(self).queued()[0]) && final(self).queued() == old(self).queued().drop_first()
            } else {
                final(self).queued() == old(self).queued() && taken == if old(self).closed() {
                    Taken::<T>::Done
                } else {
                    Taken::<T>::Empty
                }
            },
    {
        proof {
            use_type_invariant(&*self);
        }
        let mut queue: VecDeque<T> = VecDeque::new();
        std::mem::swap(&mut self.queue, &mut queue);
        let front = queue.pop_front();
        std::mem::swap(&mut self.queue, &mut queue);
        match front {
            Some(item) => Taken::Item(item),
            None => if self.closed {
                Taken::Done
            } else {
                Taken::Empty
            },
        }
    }

    /// Closes the queue. What waits stays for the consumer.
    pub fn close(&mut self)
        ensures
            final(self).limit() == old(self).limit(),
            final(self).queued() == old(self).queued(),
            final(self).closed(),
    {
        proof {
            use_type_invariant(&*self);
        }
        self.closed = true;
    }

    /// The number of items that wait, which never exceeds the capacity.
    pub fn len(&self) -> (n: usize)
        ensures
            n == self.queued().len(),
            n <= self.limit(),
    {
        proof {
            use_type_invariant(self);
        }
        self.queue.len()
    }

    /// Whether nothing waits.
    pub fn is_empty(&self) -> (yes: bool)
        ensures
            yes == (self.queued().len() == 0),
    {
        self.queue.len() == 0
    }

    /// Whether a sender would have to wait.
    pub fn is_full(&self) -> (yes: bool)
        ensures
            yes == (self.queued().len() >= self.limit()),
    {
        self.queue.len() >= self.capacity
    }

    /// The most items that can wait at once.
    pub fn capacity(&self) -> (n: usize)
        ensures
            n == self.limit(),
    {
        self.capacity
    }

    /// Whether the queue has been closed.
    pub fn is_closed(&self) -> (yes: bool)
        ensures
            yes == self.closed(),
    {
        self.closed
    }
}

} // verus!
