//! Entity identifiers and their sequential allocator.
use vstd::prelude::*;

verus! {

/// An `EntityID` is a "pointer" assigned to every kind of thing in the game
/// (users, token contracts, NFTs, ...). Identifiers are unique within a game.
#[derive(Clone, Copy, Debug, PartialEq, Eq, Structural, Hash)]
pub struct EntityID(pub u64);

impl EntityID {
    /// An identifier is valid when it is not zero.
    pub fn is_valid(&self) -> (r: bool)
        ensures
            r == (self.0 != 0),
    {
        self.0 != 0
    }
}

/// The first value handed out by a fresh allocator is one above this.
pub const ALLOCATOR_START: u64 = 0x000c0de0000u64;

/// Allocator which assigns identifiers sequentially.
pub struct EntityIDAllocator(pub u64);

impl EntityIDAllocator {
    /// Creates a new allocator at an "easy to see" start number.
    pub fn new() -> (a: Self)
        ensures
            a.0 == ALLOCATOR_START,
    {
        EntityIDAllocator(ALLOCATOR_START)
    }

    /// Hands out the next identifier: the counter is bumped first and the new
    /// value is returned.
    pub fn make(&mut self) -> (id: EntityID)
        requires
            old(self).0 < u64::MAX,
        ensures
            final(self).0 == old(self).0 + 1,
            id.0 == final(self).0,
    {
        self.0 = self.0 + 1;
        EntityID(self.0)
    }
}

/// Two identifiers made one after the other by the same allocator differ,
/// and the later one is larger.
pub proof fn law_allocations_are_fresh(start: u64, first: u64, second: u64)
    requires
        start < u64::MAX - 1,
        first == start + 1,
        second == first + 1,
    ensures
        first != second,
        first < second,
{
}

} // verus!
