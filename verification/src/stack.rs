//! A fixed-capacity stack over a vector: pushing past the capacity and
//! popping an empty stack are rejected explicitly rather than trusted to
//! never happen.

use vstd::prelude::*;

verus! {

/// A stack holding at most `max_size` items.
#[derive(Debug)]
pub struct Stack<T> {
    pub max_size: usize,
    pub items: Vec<T>,
}

impl<T> Stack<T> {
    /// The stack's invariant: it never holds more than its capacity.
    pub open spec fn wf(self) -> bool {
        self.items@.len() <= self.max_size
    }

    /// A fresh, empty stack of capacity `max_size`.
    pub fn new(max_size: usize) -> (r: Stack<T>)
        ensures
            r.wf(),
            r.max_size == max_size,
            r.items@ == Seq::<T>::empty(),
    {
        Stack { max_size, items: Vec::with_capacity(max_size) }
    }

    /// Removes and returns the top item; an empty stack yields `None`.
    pub fn pop(&mut self) -> (r: Option<T>)
        requires
            old(self).wf(),
        ensures
            final(self).wf(),
            final(self).max_size == old(self).max_size,
            old(self).items@.len() == 0 ==> (r is None && final(self).items@ == old(self).items@),
            old(self).items@.len() > 0 ==> (r == Some(old(self).items@.last()) && final(self).items@ == old(self).items@.drop_last()),
    {
        self.items.pop()
    }

    /// Pushes an item; a full stack rejects it and stays as it was.
    pub fn push(&mut self, item: T) -> (r: Result<(), ()>)
        requires
            old(self).wf(),
        ensures
            final(self).wf(),
            final(self).max_size == old(self).max_size,
            old(self).items@.len() == old(self).max_size ==> (r is Err && final(self).items@ == old(self).items@),
            old(self).items@.len() < old(self).max_size ==> (r is Ok && final(self).items@ == old(self).items@.push(item)),
    {
        match self.items.len() == self.max_size {
            true => Err(()),
            false => {
                self.items.push(item);
                Ok(())
            },
        }
    }

    /// How many items the stack holds.
    pub fn size(&self) -> (r: usize)
        ensures
            r == self.items@.len(),
    {
        self.items.len()
    }

    /// The top item, without removing it; an empty stack yields `None`.
    pub fn peek(&self) -> (r: Option<&T>)
        ensures
            self.items@.len() == 0 ==> r is None,
            self.items@.len() > 0 ==> (r matches Some(v) && *v == self.items@.last()),
    {
        self.items.as_slice().last()
    }
}

} // verus!
