//! Verified core of the doors operating system: kernel memory management, boot tables, the
//! iso9660 image format, and the build and analysis tooling.
#![allow(unused_imports)]

use vstd::prelude::*;

pub mod analyzer;
pub mod bitmap;
pub mod bits;
pub mod build_config;
pub mod bump;
pub mod cmake;
pub mod descriptor_tables;
pub mod devices;
pub mod dma;
pub mod emulators;
pub mod entry_flags;
pub mod fixed_size;
pub mod heap;
pub mod ioports;
pub mod iso9660;
pub mod iso_volume;
pub mod mapper;
pub mod memory_manager;
pub mod multiboot;
pub mod os;
pub mod paging64;
pub mod paging_manager;
pub mod process;
pub mod ssdt;
pub mod stack_report;
pub mod symbols;
pub mod text;
pub mod video;

verus! {

/// The error returned when an allocator cannot serve a request.
#[derive(Clone, Copy, Debug, PartialEq, Eq)]
pub struct AllocError;

/// A block of memory handed out by an allocator: its address and its length in bytes.
#[derive(Clone, Copy, Debug, PartialEq, Eq)]
pub struct MemoryBlock {
    /// The address of the first byte
    pub addr: usize,
    /// The length in bytes
    pub len: usize,
}

} // verus!
