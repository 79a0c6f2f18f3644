//! Core logic of a small x86_64 hobby kernel: VGA text screen, number
//! formatting, physical frame allocation, a linked-list heap allocator, the
//! keyboard scancode queue, the PIT timer arithmetic, the round-robin
//! scheduler and the page-table entry decoding.
pub mod frame_allocator;
pub mod numfmt;
pub mod heap;
pub mod heap_allocator;
pub mod keyboard;
pub mod vga;
pub mod timer;
pub mod scheduler;
pub mod context;
pub mod test_runner;
pub mod paging;
pub mod pic;
pub mod fault;
pub mod executor;
