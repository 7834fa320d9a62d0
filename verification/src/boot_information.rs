//! The structure that the kernel receives when the boot loader hands over.

use vstd::prelude::*;
use crate::framebuffer::Framebuffer;

verus! {

/// Size in bytes of [`BootInformation`] in its binary layout: twelve 8-byte
/// fields, of which the pixel format occupies one.
pub const BOOT_INFORMATION_SIZE: u64 = 96;

/// Size in bytes of one [`MemoryRegion`] in its binary layout: start, end, and
/// the kind with its 32-bit code.
pub const MEMORY_REGION_SIZE: u64 = 24;

/// Alignment in bytes of a [`MemoryRegion`] in its binary layout.
pub const MEMORY_REGION_ALIGN: u64 = 8;

/// What a region of physical memory is used for when the kernel starts.
#[derive(Debug, Clone, Copy, PartialEq, Eq, Structural)]
#[non_exhaustive]
pub enum MemoryRegionType {
    /// Free for the kernel to use.
    Usable,
    /// Taken by the boot loader: page tables, the kernel's memory, the boot information.
    Bootloader,
    /// Classified by a BIOS with the given code.
    UnknownBios(u32),
    /// Classified by UEFI firmware with the given memory type code.
    UnknownUefi(u32),
}

/// A region of physical memory, from `start` up to but without `end`.
#[derive(Debug, Clone, Copy, PartialEq, Eq, Structural)]
pub struct MemoryRegion {
    pub start: u64,
    pub end: u64,
    pub region_type: MemoryRegionType,
}

impl MemoryRegion {
    /// Whether the region holds the address.
    pub open spec fn contains(&self, addr: int) -> bool {
        self.start <= addr < self.end
    }
}

/// The place of the memory-region array: the virtual address of its first
/// entry and the number of entries.
#[derive(Debug, Clone, Copy, PartialEq, Eq, Structural)]
pub struct MemoryRegions {
    pub ptr: u64,
    pub len: u64,
}

/// Everything the kernel learns from the boot loader, in the order of the
/// binary layout.
#[derive(Debug, Clone, Copy, PartialEq, Eq, Structural)]
pub struct BootInformation {
    pub rsdp_address: u64,
    pub phys_memory_offset: u64,
    pub framebuffer: Framebuffer,
    pub memory_regions: MemoryRegions,
}

} // verus!
