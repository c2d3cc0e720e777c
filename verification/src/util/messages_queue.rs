//! The queue of messages between the threads of a server and its users.

use std::collections::VecDeque;
use vstd::prelude::*;

verus! {

/// A queue: messages come out in the order in which they went in.
pub struct MessagesQueue<T> {
    queue: VecDeque<T>,
}

impl<T> View for MessagesQueue<T> {
    type V = Seq<T>;

    closed spec fn view(&self) -> Seq<T> {
        self.queue@
    }
}

impl<T> MessagesQueue<T> {
    /// An empty queue with room for some messages.
    pub fn with_capacity(capacity: usize) -> (r: MessagesQueue<T>)
        ensures
            r@ == Seq::<T>::empty(),
    {
        MessagesQueue { queue: VecDeque::with_capacity(capacity) }
    }

    /// Adds a message at the end.
    pub fn push(&mut self, value: T)
        ensures
            final(self)@ == old(self)@.push(value),
    {
        self.queue.push_back(value);
    }

    /// Takes the oldest message, if there is one.
    pub fn try_pop(&mut self) -> (r: Option<T>)
        ensures
            r is None <==> old(self)@.len() == 0,
            r is None ==> final(self)@ == old(self)@,
            r matches Some(value) ==> value == old(self)@[0] && final(self)@ == old(self)@.skip(1),
    {
        let value = self.queue.pop_front();
        assert(old(self)@.len() > 0 ==> self@ =~= old(self)@.skip(1));
        value
    }
}

} // verus!
