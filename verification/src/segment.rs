//! The program headers of the kernel image, as plain values.

use vstd::prelude::*;
use crate::address::{
    align_up, canonical, checked_align_up, containing_frame, frame_of, is_canonical, PAGE_SIZE,
    PHYSICAL_LIMIT,
};
use crate::mapping::PageFlags;

verus! {

/// What a program header describes. Only loadable segments are mapped.
#[derive(Debug, Clone, Copy, PartialEq, Eq, Structural)]
pub enum SegmentType {
    /// The segment is to be loaded into memory.
    Load,
    /// Any other kind of segment.
    Other,
}

/// One program header of the kernel image.
#[derive(Debug, Clone, Copy, PartialEq, Eq, Structural)]
pub struct ProgramHeader {
    pub segment_type: SegmentType,
    /// Whether the header passed the structural check of the parser.
    pub valid: bool,
    /// Offset of the segment's bytes from the start of the image.
    pub offset: u64,
    /// Virtual address of the segment's first byte.
    pub virtual_addr: u64,
    /// Number of bytes that the image holds for the segment.
    pub file_size: u64,
    /// Number of bytes that the segment occupies in memory.
    pub mem_size: u64,
    pub executable: bool,
    pub writable: bool,
}

impl ProgramHeader {
    /// Whether the segment is to be loaded.
    pub open spec fn is_load(&self) -> bool {
        self.segment_type == SegmentType::Load
    }

    /// The virtual address behind the segment's last byte in memory.
    pub open spec fn virtual_end(&self) -> int {
        self.virtual_addr + self.mem_size
    }

    /// The segment's range of virtual addresses is well formed when it starts
    /// and ends at canonical addresses of the same half of the address space.
    pub open spec fn range_wf(&self) -> bool {
        &&& is_canonical(self.virtual_addr as int)
        &&& is_canonical(self.virtual_end())
        &&& self.virtual_addr < 0x8000_0000_0000 ==> self.virtual_end() < 0x8000_0000_0000
    }

    /// The end of the half of the address space in which the segment starts.
    pub open spec fn half_end(&self) -> int {
        if self.virtual_addr < 0x8000_0000_0000 {
            0x8000_0000_0000
        } else {
            0x1_0000_0000_0000_0000
        }
    }

    /// The number of frames of the image that hold bytes of the segment,
    /// where the image lies at the physical address `kernel_offset`: the
    /// frames from the one with the segment's first byte to the one with its
    /// last byte in the image.
    pub open spec fn file_frame_count(&self, kernel_offset: u64) -> int {
        let first = frame_of(kernel_offset + self.offset);
        let last = frame_of(kernel_offset + self.offset + self.file_size - 1);
        if first <= last {
            (last - first) / 0x1000 + 1
        } else {
            0
        }
    }

    /// The virtual address behind the last byte that the image holds for the
    /// segment. From here to the end of the segment the memory reads as zero.
    pub open spec fn zero_start(&self) -> int {
        self.virtual_addr + self.file_size
    }

    /// Whether the last page with bytes of the image also holds bytes that read as zero.
    pub open spec fn has_tail(&self) -> bool {
        self.mem_size > self.file_size && self.zero_start() % 0x1000 != 0
    }

    /// The first page that holds no byte of the image.
    pub open spec fn bss_first_page(&self) -> int {
        align_up(self.zero_start(), 0x1000)
    }

    /// The number of pages behind the last page with bytes of the image, up
    /// to and with the page that holds the address behind the segment.
    pub open spec fn bss_page_count(&self) -> int {
        if self.mem_size > self.file_size && self.bss_first_page() <= frame_of(self.virtual_end()) {
            (frame_of(self.virtual_end()) - self.bss_first_page()) / 0x1000 + 1
        } else {
            0
        }
    }

    /// The number of frames that mapping the segment takes from the allocator.
    pub open spec fn fresh_frame_count(&self) -> nat {
        ((if self.has_tail() {
            1int
        } else {
            0int
        }) + self.bss_page_count()) as nat
    }

    /// The permissions of the segment's pages: present; writable exactly
    /// where the segment is; executable exactly where the segment is.
    pub open spec fn flags(&self) -> PageFlags {
        PageFlags { present: true, writable: self.writable, no_execute: !self.executable }
    }

    /// A segment can be mapped from an image at `kernel_offset` when its range
    /// of virtual addresses is well formed, the bytes that the image holds
    /// for it lie at physical addresses of 52 bits, and every page it needs
    /// starts in the half of the address space in which the segment starts.
    pub open spec fn mappable(&self, kernel_offset: u64) -> bool {
        &&& self.range_wf()
        &&& kernel_offset + self.offset < 0x10_0000_0000_0000
        &&& 1 <= kernel_offset + self.offset + self.file_size <= 0x10_0000_0000_0000
        &&& frame_of(self.virtual_addr as int) + self.file_frame_count(kernel_offset) * 0x1000
            <= self.half_end()
        &&& self.mem_size > self.file_size ==> self.bss_first_page() < self.half_end()
    }

    /// Whether the segment can be mapped from an image at `kernel_offset`.
    #[verifier::rlimit(40)]
    pub fn is_mappable(&self, kernel_offset: u64) -> (ok: bool)
        ensures
            ok == self.mappable(kernel_offset),
    {
        if !self.has_valid_range() {
            return false;
        }
        if kernel_offset >= PHYSICAL_LIMIT || self.offset >= PHYSICAL_LIMIT - kernel_offset {
            return false;
        }
        let physical_address: u64 = kernel_offset + self.offset;
        if self.file_size > PHYSICAL_LIMIT - physical_address || physical_address + self.file_size
            == 0 {
            return false;
        }
        let first: u64 = containing_frame(physical_address);
        let last: u64 = containing_frame(physical_address + self.file_size - 1);
        let start_page: u64 = containing_frame(self.virtual_addr);
        let lower: bool = self.virtual_addr < 0x8000_0000_0000;
        let room: u64 = if lower {
            0x8000_0000_0000 - start_page
        } else {
            (u64::MAX - start_page) + 1
        };
        if first <= last && ((last - first) / PAGE_SIZE + 1) * PAGE_SIZE > room {
            return false;
        }
        if self.mem_size > self.file_size {
            match checked_align_up(self.virtual_addr + self.file_size, PAGE_SIZE) {
                Some(first_page) => {
                    if lower && first_page >= 0x8000_0000_0000 {
                        return false;
                    }
                },
                None => {
                    return false;
                },
            }
        }
        true
    }

    /// Whether the segment's range of virtual addresses is well formed.
    pub fn has_valid_range(&self) -> (ok: bool)
        ensures
            ok == self.range_wf(),
    {
        match self.virtual_addr.checked_add(self.mem_size) {
            Some(end) => canonical(self.virtual_addr) && canonical(end) && (self.virtual_addr
                >= 0x8000_0000_0000 || end < 0x8000_0000_0000),
            None => false,
        }
    }
}

/// Every loadable segment has a well-formed range of virtual addresses.
pub open spec fn segments_wf(segments: Seq<ProgramHeader>) -> bool {
    forall|i: int|
        0 <= i < segments.len() && (#[trigger] segments[i]).is_load() ==> segments[i].range_wf()
}

} // verus!
