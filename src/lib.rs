//! Four-level x86_64 page tables over a simulated physical memory.
//!
//! Physical memory is a sequence of 4 KiB frames, each readable as a table of
//! 512 entries. The active hierarchy is reached through its recursive slot
//! (entry 511 of the top-level table), as the hardware would reach it.
pub mod addr;
pub mod boot_info;
pub mod entry;
pub mod frame_alloc;
pub mod laws;
pub mod memory;
pub mod paging;
pub mod recursive;
pub mod walk;
