//! The identity allocator: issues monotonically increasing unique serial
//! numbers for every created inode. Serial numbers are never reused, even
//! after an inode is removed.

use vstd::prelude::*;

verus! {

/// Hands out fresh inode serial numbers. Every number below `next` has
/// already been issued (or was skipped at creation of the allocator);
/// every number at or above `next` is still fresh.
pub struct SerialAllocator {
    pub next: u64,
}

impl SerialAllocator {
    /// A fresh allocator; the first serial number issued is 0.
    pub fn new() -> (r: SerialAllocator)
        ensures
            r.next == 0,
    {
        SerialAllocator { next: 0 }
    }

    /// Issues the next serial number. Two calls never return the same
    /// number, because `next` strictly increases.
    pub fn fresh(&mut self) -> (s: u64)
        requires
            old(self).next < u64::MAX,
        ensures
            s == old(self).next,
            final(self).next == old(self).next + 1,
    {
        let s = self.next;
        self.next = self.next + 1;
        s
    }
}

} // verus!
