//! Kernel heap size.
//!
//! The kernel heap is a fixed 1 MiB region handed to a linked-list allocator
//! that is registered as the global allocator, with every allocation and
//! deallocation run inside an IRQ-masked critical section.

use vstd::prelude::*;

verus! {

/// Bytes in the kernel heap region.
pub const HEAP_SIZE: usize = 1048576;

/// Bytes in the kernel heap region.
pub fn size() -> (r: usize)
    ensures
        r == HEAP_SIZE,
{
    HEAP_SIZE
}

} // verus!
