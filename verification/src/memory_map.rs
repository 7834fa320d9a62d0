//! The physical memory map as the firmware reports it, and the consolidated
//! map that the kernel receives.

use vstd::prelude::*;
use crate::boot_information::{MemoryRegion, MemoryRegionType};

verus! {

/// The firmware's classification of a region of physical memory.
#[derive(Debug, Clone, Copy, PartialEq, Eq, Structural)]
pub enum MemoryKind {
    Conventional,
    LoaderCode,
    LoaderData,
    BootServicesCode,
    BootServicesData,
    RuntimeServicesCode,
    RuntimeServicesData,
    OtherFirmware(u32),
}

impl MemoryKind {
    /// The UEFI memory type code of the kind.
    pub open spec fn code_spec(self) -> u32 {
        match self {
            MemoryKind::LoaderCode => 1,
            MemoryKind::LoaderData => 2,
            MemoryKind::BootServicesCode => 3,
            MemoryKind::BootServicesData => 4,
            MemoryKind::RuntimeServicesCode => 5,
            MemoryKind::RuntimeServicesData => 6,
            MemoryKind::Conventional => 7,
            MemoryKind::OtherFirmware(code) => code,
        }
    }

    /// The kind that a UEFI memory type code stands for.
    pub open spec fn from_code_spec(code: u32) -> MemoryKind {
        if code == 1 {
            MemoryKind::LoaderCode
        } else if code == 2 {
            MemoryKind::LoaderData
        } else if code == 3 {
            MemoryKind::BootServicesCode
        } else if code == 4 {
            MemoryKind::BootServicesData
        } else if code == 5 {
            MemoryKind::RuntimeServicesCode
        } else if code == 6 {
            MemoryKind::RuntimeServicesData
        } else if code == 7 {
            MemoryKind::Conventional
        } else {
            MemoryKind::OtherFirmware(code)
        }
    }

    /// The UEFI memory type code of the kind.
    #[verifier::when_used_as_spec(code_spec)]
    pub fn code(self) -> (code: u32)
        ensures
            code == self.code_spec(),
    {
        match self {
            MemoryKind::LoaderCode => 1,
            MemoryKind::LoaderData => 2,
            MemoryKind::BootServicesCode => 3,
            MemoryKind::BootServicesData => 4,
            MemoryKind::RuntimeServicesCode => 5,
            MemoryKind::RuntimeServicesData => 6,
            MemoryKind::Conventional => 7,
            MemoryKind::OtherFirmware(code) => code,
        }
    }

    /// The kind that a UEFI memory type code stands for.
    pub fn from_code(code: u32) -> (kind: MemoryKind)
        ensures
            kind == MemoryKind::from_code_spec(code),
            kind.code_spec() == code,
    {
        match code {
            1 => MemoryKind::LoaderCode,
            2 => MemoryKind::LoaderData,
            3 => MemoryKind::BootServicesCode,
            4 => MemoryKind::BootServicesData,
            5 => MemoryKind::RuntimeServicesCode,
            6 => MemoryKind::RuntimeServicesData,
            7 => MemoryKind::Conventional,
            _ => MemoryKind::OtherFirmware(code),
        }
    }
}

/// One entry of the firmware's memory map: `len` bytes from `start`.
#[derive(Debug, Clone, Copy, PartialEq, Eq, Structural)]
pub struct MemoryDescriptor {
    pub start: u64,
    pub len: u64,
    pub kind: MemoryKind,
}

/// What the frame allocator reads of an entry of the memory map.
pub trait BootMemoryRegion: Copy {
    /// The physical address of the first byte.
    fn start(&self) -> u64;

    /// The length in bytes.
    fn len(&self) -> u64;

    /// `Usable` for conventional memory; for any other the firmware's code.
    fn region_type(&self) -> MemoryRegionType;
}

impl MemoryDescriptor {
    /// The address behind the last byte of the region.
    pub open spec fn end(&self) -> int {
        self.start + self.len
    }

    /// A region is well formed when it starts at a page boundary, is not
    /// empty, and ends within the 52 bits of a physical address.
    pub open spec fn wf(&self) -> bool {
        &&& self.start % 0x1000 == 0
        &&& self.len > 0
        &&& self.start + self.len <= 0x10_0000_0000_0000
    }

    /// Whether frames may be taken from the region.
    pub open spec fn is_conventional(&self) -> bool {
        self.kind == MemoryKind::Conventional
    }

    /// Whether the whole frame that starts at `frame` lies in the region.
    pub open spec fn holds_frame(&self, frame: int) -> bool {
        self.start <= frame && frame + 0x1000 <= self.end()
    }

    /// The classification that the region has before any frame is taken.
    pub open spec fn region_type_spec(&self) -> MemoryRegionType {
        match self.kind {
            MemoryKind::Conventional => MemoryRegionType::Usable,
            other => MemoryRegionType::UnknownUefi(other.code_spec()),
        }
    }

    /// Whether the region is well formed.
    pub fn is_well_formed(&self) -> (ok: bool)
        ensures
            ok == self.wf(),
    {
        self.start % 0x1000 == 0 && self.len > 0 && self.len <= 0x10_0000_0000_0000
            && self.start <= 0x10_0000_0000_0000 - self.len
    }
}

impl BootMemoryRegion for MemoryDescriptor {
    fn start(&self) -> (start: u64)
        ensures
            start == self.start,
    {
        self.start
    }

    fn len(&self) -> (len: u64)
        ensures
            len == self.len,
    {
        self.len
    }

    fn region_type(&self) -> (region_type: MemoryRegionType)
        ensures
            region_type == self.region_type_spec(),
            (region_type == MemoryRegionType::Usable) == self.is_conventional(),
    {
        match self.kind {
            MemoryKind::Conventional => MemoryRegionType::Usable,
            other => MemoryRegionType::UnknownUefi(other.code()),
        }
    }
}

/// A memory map is well formed when each of its regions is.
pub open spec fn memory_map_wf(regions: Seq<MemoryDescriptor>) -> bool {
    forall|i: int| 0 <= i < regions.len() ==> (#[trigger] regions[i]).wf()
}

/// No two regions of the map share an address.
pub open spec fn memory_map_disjoint(regions: Seq<MemoryDescriptor>) -> bool {
    forall|i: int, j: int|
        0 <= i < j < regions.len() ==> (#[trigger] regions[i]).end() <= (#[trigger] regions[j]).start
            || regions[j].end() <= regions[i].start
}

/// Whether a region of the firmware's map holds the address.
pub open spec fn map_covers(regions: Seq<MemoryDescriptor>, addr: int) -> bool {
    exists|i: int| 0 <= i < regions.len() && (#[trigger] regions[i]).start <= addr < regions[i].end()
}

/// Whether an entry of a consolidated map holds the address.
pub open spec fn entries_cover(entries: Seq<MemoryRegion>, addr: int) -> bool {
    exists|j: int| 0 <= j < entries.len() && (#[trigger] entries[j]).contains(addr)
}

/// Whether every region of the map is well formed.
pub fn is_well_formed_memory_map(regions: &Vec<MemoryDescriptor>) -> (ok: bool)
    ensures
        ok == memory_map_wf(regions@),
{
    let mut index: usize = 0;
    while index < regions.len()
        invariant
            index <= regions.len(),
            forall|i: int| 0 <= i < index ==> (#[trigger] regions@[i]).wf(),
        decreases regions.len() - index,
    {
        if !regions[index].is_well_formed() {
            return false;
        }
        index += 1;
    }
    true
}

/// What becomes of one region of the firmware's map once the boot loader has
/// taken every frame below `next_free`. Conventional memory below the mark is
/// reported as the boot loader's, conventional memory from the mark on as
/// usable, and a region that the mark divides is reported in two parts. Any
/// other region keeps the firmware's classification.
pub open spec fn consolidate_region(region: MemoryDescriptor, next_free: int) -> Seq<MemoryRegion> {
    let start = region.start;
    let end = (region.start + region.len) as u64;
    if region.is_conventional() {
        if end <= next_free {
            seq![(MemoryRegion { start, end, region_type: MemoryRegionType::Bootloader })]
        } else if start >= next_free {
            seq![(MemoryRegion { start, end, region_type: MemoryRegionType::Usable })]
        } else {
            seq![
                (MemoryRegion { start, end: next_free as u64, region_type: MemoryRegionType::Bootloader }),
                (MemoryRegion { start: next_free as u64, end, region_type: MemoryRegionType::Usable }),
            ]
        }
    } else {
        seq![(MemoryRegion { start, end, region_type: region.region_type_spec() })]
    }
}

/// The consolidated memory map: the regions of the firmware's map in their
/// order, each as [`consolidate_region`] reports it.
pub open spec fn consolidate(regions: Seq<MemoryDescriptor>, next_free: int) -> Seq<MemoryRegion>
    decreases regions.len(),
{
    if regions.len() == 0 {
        Seq::empty()
    } else {
        consolidate(regions.drop_last(), next_free) + consolidate_region(regions.last(), next_free)
    }
}

} // verus!
