//! Memory-management core for a minimal Sv39 (64-bit RISC-V) kernel:
//! typed physical/virtual addresses and frame numbers, physical-frame
//! allocators, a bump arena allocator, and a three-level page-table
//! engine with a boot-time identity-mapping orchestrator.

use vstd::prelude::*;

mod boot;
mod kalloc;
mod paging;
mod vm;

pub use boot::KernelImage;
pub use boot::SATP_SV39;
pub use boot::identity_map_range;
pub use boot::map_kernel_memory;
pub use boot::satp_value;
pub use kalloc::AllocError;
pub use kalloc::Allocator;
pub use kalloc::BumpFrameAllocator;
pub use kalloc::FrameSource;
pub use kalloc::FreeListAllocator;
pub use kalloc::Region;
pub use paging::PageTableTree;
pub use vm::Address;
pub use vm::Entry;
pub use vm::FLAG_ACCESSED;
pub use vm::FLAG_DIRTY;
pub use vm::FLAG_EXEC;
pub use vm::FLAG_READ;
pub use vm::FLAG_VALID;
pub use vm::FLAG_WRITE;
pub use vm::Page;
pub use vm::PageEntryFlag;
pub use vm::PageTable;
pub use vm::PhysicalAddress;
pub use vm::Ppn;
pub use vm::VirtualAddress;

verus! {

/// Size in bytes of one page / physical frame.
pub const PAGE_SIZE: usize = 4096;

} // verus!
