//! A plain list of packed coordinates, as a schema-described message
//! carries it: repeats allowed, order kept.

use vstd::prelude::*;

verus! {

/// The values of one message.
#[derive(Debug, PartialEq, Eq)]
pub struct NumberArray {
    /// The values, in the order they were given.
    pub values: Vec<u32>,
}

impl Default for NumberArray {
    /// A message without values.
    fn default() -> (message: Self)
        ensures
            message.values@ == Seq::<u32>::empty(),
    {
        NumberArray { values: Vec::new() }
    }
}

impl Clone for NumberArray {
    /// A message with the same values.
    fn clone(&self) -> (copy: Self)
        ensures
            copy.values@ == self.values@,
    {
        NumberArray { values: self.values.clone() }
    }
}

impl NumberArray {
    /// A message without values.
    pub fn new() -> (message: NumberArray)
        ensures
            message.values@ == Seq::<u32>::empty(),
    {
        NumberArray { values: Vec::new() }
    }

    /// The values.
    pub fn values(&self) -> (values: &[u32])
        ensures
            values@ == self.values@,
    {
        self.values.as_slice()
    }

    /// Drops every value.
    pub fn clear_values(&mut self)
        ensures
            final(self).values@ == Seq::<u32>::empty(),
    {
        self.values.clear();
    }

    /// Replaces the values.
    pub fn set_values(&mut self, v: Vec<u32>)
        ensures
            final(self).values@ == v@,
    {
        self.values = v;
    }

    /// The values, open to change: what the caller leaves in the list is
    /// what the message holds afterwards.
    pub fn mut_values(&mut self) -> (values: &mut Vec<u32>)
        ensures
            *values == old(self).values,
            final(self).values == *final(values),
    {
        &mut self.values
    }

    /// Hands the values over and leaves the message without any.
    pub fn take_values(&mut self) -> (values: Vec<u32>)
        ensures
            values@ == old(self).values@,
            final(self).values@ == Seq::<u32>::empty(),
    {
        let mut values: Vec<u32> = Vec::new();
        std::mem::swap(&mut values, &mut self.values);
        values
    }
}

} // verus!
