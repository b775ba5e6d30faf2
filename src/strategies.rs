//! Frontier disciplines: a stack for depth-first and a queue for
//! breadth-first exploration.
use std::collections::VecDeque;
use vstd::prelude::*;

verus! {

/// A last in, first out structure, i.e. a stack.
#[derive(Debug)]
pub struct Lifo<T>(Vec<T>);

/// A first in, first out structure, i.e. a queue.
#[derive(Debug)]
pub struct Fifo<T>(VecDeque<T>);

impl<T> View for Lifo<T> {
    type V = Seq<T>;

    /// The items, from the oldest (bottom) to the newest (top).
    closed spec fn view(&self) -> Seq<T> {
        self.0@
    }
}

impl<T> Lifo<T> {
    pub fn new() -> (r: Self)
        ensures
            r@ == Seq::<T>::empty(),
    {
        Lifo(Vec::new())
    }

    pub fn push(&mut self, item: T)
        ensures
            final(self)@ == old(self)@.push(item),
    {
        self.0.push(item)
    }

    /// Removes the most recently pushed item; `None` when the stack is empty.
    pub fn pop(&mut self) -> (r: Option<T>)
        ensures
            old(self)@.len() == 0 ==> r is None && final(self)@ == old(self)@,
            old(self)@.len() > 0 ==> r == Some(old(self)@.last())
                && final(self)@ == old(self)@.drop_last(),
    {
        self.0.pop()
    }
}

impl<T> View for Fifo<T> {
    type V = Seq<T>;

    /// The items, from the oldest (front) to the newest (back).
    closed spec fn view(&self) -> Seq<T> {
        self.0@
    }
}

impl<T> Fifo<T> {
    pub fn new() -> (r: Self)
        ensures
            r@ == Seq::<T>::empty(),
    {
        Fifo(VecDeque::new())
    }

    pub fn push(&mut self, item: T)
        ensures
            final(self)@ == old(self)@.push(item),
    {
        self.0.push_back(item)
    }

    /// Removes the earliest pushed item; `None` when the queue is empty.
    pub fn pop(&mut self) -> (r: Option<T>)
        ensures
            old(self)@.len() == 0 ==> r is None && final(self)@ == old(self)@,
            old(self)@.len() > 0 ==> r == Some(old(self)@[0])
                && final(self)@ == old(self)@.drop_first(),
    {
        self.0.pop_front()
    }
}

} // verus!
