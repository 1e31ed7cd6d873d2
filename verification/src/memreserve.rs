//! Device tree memory reservations.

use vstd::prelude::*;

verus! {

/// A 64-bit memory reservation: a physical address and the size of the
/// region reserved at it.
#[derive(Debug, Clone, Copy, PartialEq, Eq, Hash, Structural)]
pub struct MemoryReservation {
    address: u64,
    size: u64,
}

impl View for MemoryReservation {
    /// The address and the size.
    type V = (u64, u64);

    closed spec fn view(&self) -> (u64, u64) {
        (self.address, self.size)
    }
}

impl MemoryReservation {
    /// Creates a new [`MemoryReservation`].
    #[must_use]
    pub fn new(address: u64, size: u64) -> (r: Self)
        ensures
            r@ == (address, size),
    {
        Self { address, size }
    }

    /// Returns the physical address of the reserved memory region.
    #[must_use]
    pub fn address(&self) -> (a: u64)
        ensures
            a == self@.0,
    {
        self.address
    }

    /// Returns the size of the reserved memory region.
    #[must_use]
    pub fn size(&self) -> (s: u64)
        ensures
            s == self@.1,
    {
        self.size
    }
}

} // verus!
