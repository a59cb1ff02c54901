//! What the kernel says of itself, and the span of physical memory it
//! manages.

use vstd::prelude::*;

verus! {

/// Size of a memory page, in bytes.
pub const PAGE_SIZE: usize = 4096;

pub const VERSION: &'static str = "NyanNix v0.1.0";

/// The kernel's name and version.
pub fn version() -> (r: &'static str)
    ensures
        r@ == VERSION@,
{
    VERSION
}

/// A span of physical memory.
pub struct PhysicalMemory {
    start: usize,
    size: usize,
}

impl PhysicalMemory {
    /// The address of the first byte.
    pub closed spec fn start_spec(&self) -> usize {
        self.start
    }

    /// The number of bytes.
    pub closed spec fn size_spec(&self) -> usize {
        self.size
    }

    /// The span of `size` bytes from `start` on.
    pub fn new(start: usize, size: usize) -> (m: PhysicalMemory)
        ensures
            m.start_spec() == start,
            m.size_spec() == size,
    {
        PhysicalMemory { start, size }
    }

    /// The address of the first byte.
    pub fn start(&self) -> (r: usize)
        ensures
            r == self.start_spec(),
    {
        self.start
    }

    /// The number of bytes.
    pub fn size(&self) -> (r: usize)
        ensures
            r == self.size_spec(),
    {
        self.size
    }
}

} // verus!
