use vstd::prelude::*;

verus! {

/// The stamp that follows `s`: one more, wrapping to zero after `usize::MAX`.
pub open spec fn next_stamp(s: usize) -> usize {
    if s == usize::MAX {
        0
    } else {
        (s + 1) as usize
    }
}

/// An (address, stamp) pair: the head of a chain of nodes together with a
/// version counter that advances on every successful update.
///
/// An address is an index into the node arena of a stack; `None` is the null
/// address.
#[derive(Clone, Copy, PartialEq, Eq, Structural)]
pub struct StampedSlot {
    pub address: Option<usize>,
    pub stamp: usize,
}

impl StampedSlot {
    /// The initial state: null address, stamp zero.
    pub fn new() -> (r: StampedSlot)
        ensures
            r.address is None,
            r.stamp == 0,
    {
        StampedSlot { address: None, stamp: 0 }
    }

    /// A snapshot of the pair.
    pub fn load(&self) -> (r: (Option<usize>, usize))
        ensures
            r == (self.address, self.stamp),
    {
        (self.address, self.stamp)
    }

    /// Replaces the pair with `(address, next_stamp(stamp))` when it equals
    /// `expected`, returning the previous pair in `Ok`; otherwise leaves it as
    /// it is and returns it in `Err`.
    pub fn compare_exchange(&mut self, expected: (Option<usize>, usize), address: Option<usize>) -> (r:
        Result<(Option<usize>, usize), (Option<usize>, usize)>)
        ensures
            (old(self).address, old(self).stamp) == expected ==> {
                &&& r == Ok::<(Option<usize>, usize), (Option<usize>, usize)>(expected)
                &&& final(self).address == address
                &&& final(self).stamp == next_stamp(old(self).stamp)
            },
            (old(self).address, old(self).stamp) != expected ==> {
                &&& r == Err::<(Option<usize>, usize), (Option<usize>, usize)>(
                    (old(self).address, old(self).stamp),
                )
                &&& *final(self) == *old(self)
            },
    {
        let current = (self.address, self.stamp);
        if self.address == expected.0 && self.stamp == expected.1 {
            let stamp = if self.stamp == usize::MAX {
                0
            } else {
                self.stamp + 1
            };
            self.address = address;
            self.stamp = stamp;
            Ok(current)
        } else {
            Err(current)
        }
    }
}

} // verus!
