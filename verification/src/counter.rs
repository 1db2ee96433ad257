use vstd::prelude::*;

verus! {

/// A count of bytes or events; adding wraps around at the top of `usize`.
#[derive(Debug)]
pub struct Counter(usize);

impl Default for Counter {
    /// A counter at zero.
    fn default() -> (r: Counter)
        ensures
            r.value() == 0,
    {
        Counter(0)
    }
}

impl Counter {
    /// The value held.
    pub closed spec fn value(self) -> usize {
        self.0
    }

    /// A counter holding `v`.
    pub fn new(v: usize) -> (r: Counter)
        ensures
            r.value() == v,
    {
        Counter(v)
    }

    /// The value held.
    pub fn get(&self) -> (r: usize)
        ensures
            r == self.value(),
    {
        self.0
    }

    /// Replaces the value.
    pub fn set(&mut self, value: usize)
        ensures
            final(self).value() == value,
    {
        self.0 = value;
    }

    /// Adds `value`, wrapping around on overflow.
    pub fn inc(&mut self, value: usize)
        ensures
            final(self).value() == (if old(self).value() + value > usize::MAX {
                old(self).value() + value - (usize::MAX + 1)
            } else {
                old(self).value() + value
            }),
    {
        self.0 = self.0.wrapping_add(value);
    }
}

} // verus!
