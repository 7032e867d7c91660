//! A supply of fresh names.

use vstd::prelude::*;

verus! {

/// A counter that hands out each number once.
pub struct Fresh {
    index: usize,
}

impl Fresh {
    /// The number that is handed out next.
    pub closed spec fn next(&self) -> usize {
        self.index
    }

    /// A supply that starts at `index`.
    pub fn from(index: usize) -> (fresh: Fresh)
        ensures
            fresh.next() == index,
    {
        Fresh { index }
    }

    /// The next number; the supply moves on by one.
    pub fn fresh(&mut self) -> (index: usize)
        requires
            old(self).next() < usize::MAX,
        ensures
            index == old(self).next(),
            final(self).next() == old(self).next() + 1,
    {
        let index = self.index;
        self.index += 1;
        index
    }
}

impl Default for Fresh {
    fn default() -> (fresh: Fresh)
        ensures
            fresh.next() == 0,
    {
        Fresh { index: 0 }
    }
}

} // verus!
