//! A growable array that doubles its capacity when it is full.

use vstd::prelude::*;

verus! {

/// A growable array. Its capacity starts at zero, becomes one on the first
/// push, and doubles whenever a push finds the array full.
#[derive(Debug)]
pub struct Vec<T> {
    pub items: std::vec::Vec<T>,
    pub cap: usize,
}

impl<T> Vec<T> {
    /// The elements, in order.
    pub open spec fn view(&self) -> Seq<T> {
        self.items@
    }

    /// The length never exceeds the capacity.
    pub open spec fn wf(&self) -> bool {
        self.items@.len() <= self.cap
    }

    /// An empty array without capacity.
    pub fn new() -> (made: Self)
        ensures
            made.wf(),
            made@ == Seq::<T>::empty(),
            made.cap == 0,
    {
        Vec { items: std::vec::Vec::new(), cap: 0 }
    }

    /// The number of elements.
    pub fn len(&self) -> (n: usize)
        ensures
            n == self@.len(),
    {
        self.items.len()
    }

    /// Whether the array holds no element.
    pub fn is_empty(&self) -> (empty: bool)
        ensures
            empty == (self@.len() == 0),
    {
        self.items.len() == 0
    }

    /// The capacity after the array has grown once.
    pub open spec fn grown(cap: usize) -> usize {
        if cap == 0 {
            1
        } else {
            (2 * cap) as usize
        }
    }

    /// Grows the capacity: from zero to one, and to its double otherwise.
    pub fn grow(&mut self)
        requires
            old(self).wf(),
            2 * old(self).cap <= isize::MAX,
        ensures
            final(self).wf(),
            final(self)@ == old(self)@,
            final(self).cap == Self::grown(old(self).cap),
    {
        let new_cap = if self.cap == 0 {
            1
        } else {
            2 * self.cap
        };
        self.items.reserve(new_cap - self.items.len());
        self.cap = new_cap;
    }

    /// Appends `value`, growing the array first when it is full.
    pub fn push(&mut self, value: T)
        requires
            old(self).wf(),
            2 * old(self).cap <= isize::MAX,
        ensures
            final(self).wf(),
            final(self)@ == old(self)@.push(value),
            final(self).cap == if old(self)@.len() == old(self).cap {
                Self::grown(old(self).cap)
            } else {
                old(self).cap
            },
    {
        if self.items.len() == self.cap {
            self.grow();
        }
        self.items.push(value);
    }

    /// Removes the last element and returns it; the capacity stays.
    pub fn pop(&mut self) -> (last: Option<T>)
        requires
            old(self).wf(),
        ensures
            final(self).wf(),
            final(self).cap == old(self).cap,
            old(self)@.len() > 0 ==> last == Some(old(self)@.last()) && final(self)@ == old(self)@.drop_last(),
            old(self)@.len() == 0 ==> last is None && final(self)@ == old(self)@,
    {
        self.items.pop()
    }

    /// The number of elements the array can hold before it grows.
    pub fn capacity(&self) -> (n: usize)
        ensures
            n == self.cap,
    {
        self.cap
    }
}

} // verus!
