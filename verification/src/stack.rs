//! The value stack of the machine.

use vstd::prelude::*;
use crate::value::Value;

verus! {

/// A stack of values; the last element is the top.
#[derive(Debug)]
pub struct Stack {
    pub values: Vec<Value>,
}

impl Stack {
    /// The values, bottom first.
    pub open spec fn view(&self) -> Seq<Value> {
        self.values@
    }

    /// An empty stack.
    pub fn new() -> (stack: Stack)
        ensures
            stack@ == Seq::<Value>::empty(),
    {
        Stack { values: Vec::new() }
    }

    /// Puts `value` on top.
    pub fn push(&mut self, value: Value)
        ensures
            final(self)@ == old(self)@.push(value),
    {
        self.values.push(value);
    }

    /// Takes the top value off, if there is one.
    pub fn pop(&mut self) -> (top: Option<Value>)
        ensures
            old(self)@.len() > 0 ==> top == Some(old(self)@.last()) && final(self)@ == old(self)@.drop_last(),
            old(self)@.len() == 0 ==> top is None && final(self)@ == old(self)@,
    {
        self.values.pop()
    }

    /// The value `distance` places below the top, if the stack is that deep.
    pub fn peek(&self, distance: usize) -> (found: Option<&Value>)
        ensures
            distance < self@.len() ==> found == Some(&self@[self@.len() - 1 - distance]),
            distance >= self@.len() ==> found is None,
    {
        if distance >= self.values.len() {
            None
        } else {
            Some(&self.values[self.values.len() - 1 - distance])
        }
    }

    /// The number of values.
    pub fn len(&self) -> (n: usize)
        ensures
            n == self@.len(),
    {
        self.values.len()
    }

    /// Removes every value.
    pub fn reset(&mut self)
        ensures
            final(self)@ == Seq::<Value>::empty(),
    {
        self.values.clear();
    }

    /// Whether the stack holds no value.
    pub fn is_empty(&self) -> (empty: bool)
        ensures
            empty == (self@.len() == 0),
    {
        self.values.len() == 0
    }
}

} // verus!
