//! Layout of the kernel heap: a dedicated virtual range backed by four 2 MiB
//! frames, mapped through the page directory entries that cover it.
use vstd::prelude::*;

verus! {

/// Virtual address where the heap starts (64 MiB).
pub const HEAP_START: u64 = 0x4000000;

/// Size of the heap: four 2 MiB frames, 8 MiB.
pub const HEAP_SIZE: u64 = 4 * 2 * 1024 * 1024;

/// First virtual address past the heap.
pub const HEAP_END: u64 = HEAP_START + HEAP_SIZE;

} // verus!
