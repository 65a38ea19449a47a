use crate::event::Event;
use std::collections::VecDeque;
use vstd::prelude::*;

verus! {

/// A queue: what is put in first comes out first.
#[derive(Debug, PartialEq, Eq, Hash)]
pub struct Queue<T>(VecDeque<T>);

/// The events that wait to be handled for one peer.
pub type EventQueue = Queue<Event>;

impl<T> View for Queue<T> {
    type V = Seq<T>;

    /// What waits in the queue, in the order in which it comes out.
    closed spec fn view(&self) -> Seq<T> {
        self.0@
    }
}

impl<T> Queue<T> {
    /// A queue in which nothing waits.
    pub fn new() -> (r: Self)
        ensures
            r@ == Seq::<T>::empty(),
    {
        Queue(VecDeque::new())
    }

    /// Puts `data` at the end of the queue.
    pub fn enqueue(&mut self, data: T)
        ensures
            final(self)@ == old(self)@.push(data),
    {
        self.0.push_back(data);
    }

    /// Takes out what has waited longest, if anything waits.
    pub fn dequeue(&mut self) -> (r: Option<T>)
        ensures
            old(self)@.len() == 0 ==> r.is_none() && final(self)@ == old(self)@,
            old(self)@.len() > 0 ==> r == Some(old(self)@[0]) && final(self)@ == old(
                self,
            )@.drop_first(),
    {
        let r = self.0.pop_front();
        proof {
            if old(self)@.len() > 0 {
                assert(self@ =~= old(self)@.drop_first());
            }
        }
        r
    }

    /// How many wait in the queue.
    pub fn len(&self) -> (r: usize)
        ensures
            r == self@.len(),
    {
        self.0.len()
    }

    /// Whether nothing waits in the queue.
    pub fn is_empty(&self) -> (r: bool)
        ensures
            r == (self@.len() == 0),
    {
        self.0.len() == 0
    }
}

} // verus!
