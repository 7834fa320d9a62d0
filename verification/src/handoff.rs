//! The last decisions before the kernel runs: the memory map that the kernel
//! receives, the boot information, and the values of the registers at the jump.

use vstd::prelude::*;
use crate::address::{containing_frame, frame_of, PAGE_SIZE};
use crate::boot_information::{BootInformation, MemoryRegion, MemoryRegionType, MemoryRegions};
use crate::frame_allocator::{
    lemma_after, lemma_taken_frames_not_usable, lemma_taken_frames_reported, AllocatorState,
    BootFrameAllocator, ReservedFrames,
};
use crate::framebuffer::Framebuffer;
use crate::layout::{BootInformationLayout, Mappings, SystemInformation};
use crate::mapping::{present_flags, Hierarchy, MapOperation, PageFlags};
use crate::memory_map::consolidate;
use crate::paging::{lemma_first_two, PageTables};

verus! {

/// Why the boot information could not be made. Each of these is fatal to the boot.
#[derive(Debug, Clone, Copy, PartialEq, Eq, Structural)]
pub enum BootError {
    /// The allocator could not give the two frames to set aside.
    FrameExhaustion,
    /// The consolidated memory map has more entries than its place holds.
    MemoryMapOverflow,
    /// The firmware did not tell where the ACPI root table lies.
    MissingRsdp,
}

/// The boot information for a machine whose address space is laid out.
pub open spec fn boot_information_of(
    layout: BootInformationLayout,
    mappings: Mappings,
    system_information: SystemInformation,
    regions: nat,
) -> BootInformation {
    BootInformation {
        rsdp_address: system_information.rsdp_address.unwrap(),
        phys_memory_offset: mappings.phys_memory_offset,
        framebuffer: Framebuffer {
            buffer_start: mappings.framebuffer,
            buffer_len_bytes: system_information.framebuffer_information.len_bytes,
            information: system_information.framebuffer_information,
        },
        memory_regions: MemoryRegions { ptr: layout.memory_regions_address, len: regions as u64 },
    }
}

/// The memory map that the kernel receives from an allocator in the given
/// state: two more frames are set aside, then the map is consolidated.
pub open spec fn final_memory_map(state: AllocatorState) -> Seq<MemoryRegion> {
    consolidate(state.regions, state.after(2).next_frame)
}

/// Whether the frame lies in an entry of the memory map that is reported as
/// the boot loader's.
pub open spec fn reported_as_taken(entries: Seq<MemoryRegion>, frame: int) -> bool {
    exists|j: int|
        {
            &&& 0 <= j < entries.len()
            &&& (#[trigger] entries[j]).region_type == MemoryRegionType::Bootloader
            &&& entries[j].start <= frame
            &&& frame + 0x1000 <= entries[j].end
        }
}

/// What making the boot information comes to: the error, if there is one.
pub open spec fn boot_information_failure(
    state: AllocatorState,
    layout: BootInformationLayout,
    system_information: SystemInformation,
) -> Option<BootError> {
    if !state.can_allocate(2) {
        Some(BootError::FrameExhaustion)
    } else if final_memory_map(state).len() > layout.region_capacity {
        Some(BootError::MemoryMapOverflow)
    } else if system_information.rsdp_address is None {
        Some(BootError::MissingRsdp)
    } else {
        None
    }
}

/// Sets two frames aside for the last mappings, consolidates the memory map
/// and fills in the boot information. The allocator is used up: no frame can
/// be taken once the memory map is made.
///
/// No entry of the memory map that is reported as usable holds a frame that
/// was set aside: each lies in an entry that is reported as the boot loader's.
pub fn lightsaber_create_boot_information(
    frame_allocator: BootFrameAllocator,
    layout: &BootInformationLayout,
    mappings: &Mappings,
    system_information: SystemInformation,
) -> (result: Result<(BootInformation, Vec<MemoryRegion>, ReservedFrames), BootError>)
    requires
        frame_allocator.wf(),
    ensures
        match result {
            Ok((boot_information, memory_regions, reserved_frames)) => {
                &&& boot_information_failure(frame_allocator@, *layout, system_information) is None
                &&& memory_regions@ == final_memory_map(frame_allocator@)
                &&& boot_information == boot_information_of(
                    *layout,
                    *mappings,
                    system_information,
                    memory_regions@.len(),
                )
                &&& reserved_frames@ == seq![
                    Some(frame_allocator@.frames(2)[0]),
                    Some(frame_allocator@.frames(2)[1]),
                ]
                &&& forall|i: int, j: int|
                    0 <= i < 2 && 0 <= j < memory_regions@.len() && (#[trigger] memory_regions@[j]).region_type
                        == MemoryRegionType::Usable ==> (#[trigger] reserved_frames@[i]).unwrap()
                        + 0x1000 <= memory_regions@[j].start
                &&& forall|i: int|
                    0 <= i < 2 ==> reported_as_taken(
                        memory_regions@,
                        (#[trigger] reserved_frames@[i]).unwrap() as int,
                    )
            },
            Err(error) => boot_information_failure(frame_allocator@, *layout, system_information)
                == Some(error),
        },
{
    let ghost start = frame_allocator@;
    let mut frame_allocator = frame_allocator;
    proof {
        lemma_after(start, 2);
    }
    let reserved_frames = match ReservedFrames::new(&mut frame_allocator) {
        Some(frames) => frames,
        None => {
            return Err(BootError::FrameExhaustion);
        },
    };
    proof {
        lemma_first_two(start);
        lemma_taken_frames_not_usable(
            start.regions,
            start.after(2).next_frame,
            start.frames(2)[0] as int,
        );
        lemma_taken_frames_not_usable(
            start.regions,
            start.after(2).next_frame,
            start.frames(2)[1] as int,
        );
        lemma_taken_frames_reported(
            start.regions,
            start.after(2).next_frame,
            start.frames(2)[0] as int,
        );
        lemma_taken_frames_reported(
            start.regions,
            start.after(2).next_frame,
            start.frames(2)[1] as int,
        );
    }
    if !frame_allocator.memory_map_fits(layout.region_capacity) {
        return Err(BootError::MemoryMapOverflow);
    }
    let memory_regions = frame_allocator.construct_memory_map(layout.region_capacity);
    let framebuffer = Framebuffer {
        buffer_start: mappings.framebuffer,
        buffer_len_bytes: system_information.framebuffer_information.len_bytes,
        information: system_information.framebuffer_information,
    };
    let rsdp_address: u64 = match system_information.rsdp_address {
        Some(address) => address,
        None => {
            return Err(BootError::MissingRsdp);
        },
    };
    let boot_information = BootInformation {
        rsdp_address,
        phys_memory_offset: mappings.phys_memory_offset,
        framebuffer,
        memory_regions: MemoryRegions {
            ptr: layout.memory_regions_address,
            len: memory_regions.len() as u64,
        },
    };
    assert(reserved_frames@ =~= seq![Some(start.frames(2)[0]), Some(start.frames(2)[1])]);
    Ok((boot_information, memory_regions, reserved_frames))
}

/// What the processor is given at the jump into the kernel.
#[derive(Debug, Clone, Copy, PartialEq, Eq, Structural)]
pub struct HandOff {
    /// Maps the frame with the current instruction and the frame behind it
    /// at their own addresses, so that execution goes on once the kernel's
    /// hierarchy is installed.
    pub identity_map: MapOperation,
    /// The frame of the kernel's top-level page table, for the page-table base register.
    pub level_four_frame: u64,
    /// The end of the kernel's stack, for the stack pointer.
    pub stack_pointer: u64,
    /// The address to jump to.
    pub entry_point: u64,
    /// The address of the boot information, for the first argument register.
    pub boot_information: u64,
}

/// The hand-over for a machine that executes at `instruction_pointer`.
pub open spec fn hand_off_of(
    page_tables: PageTables,
    mappings: Mappings,
    boot_information_address: u64,
    instruction_pointer: u64,
) -> HandOff {
    let frame = frame_of(instruction_pointer as int) as u64;
    HandOff {
        identity_map: MapOperation::MapPages {
            hierarchy: Hierarchy::Kernel,
            page: frame,
            frame,
            count: 2,
            huge: false,
            flags: present_flags(),
        },
        level_four_frame: page_tables.kernel_level_four_frame,
        stack_pointer: (mappings.stack_end + 0x1000) as u64,
        entry_point: mappings.entry_point,
        boot_information: boot_information_address,
    }
}

/// Decides the last mapping and the values of the registers for the jump
/// into the kernel. `None` exactly where the frame with the current
/// instruction or the one behind it has no page at its own address, or the
/// stack ends at the end of the address space.
pub fn lightsaber_switch_to_system_kernel(
    page_tables: &PageTables,
    mappings: &Mappings,
    boot_information_address: u64,
    instruction_pointer: u64,
) -> (hand_off: Option<HandOff>)
    ensures
        hand_off.is_some() == (frame_of(instruction_pointer as int) + 0x2000 <= 0x8000_0000_0000
            && mappings.stack_end + 0x1000 <= u64::MAX),
        hand_off matches Some(values) ==> values == hand_off_of(
            *page_tables,
            *mappings,
            boot_information_address,
            instruction_pointer,
        ),
{
    let current_frame: u64 = containing_frame(instruction_pointer);
    if current_frame > 0x8000_0000_0000 - 2 * PAGE_SIZE {
        return None;
    }
    let stack_top: u64 = match mappings.stack_end.checked_add(PAGE_SIZE) {
        Some(top) => top,
        None => {
            return None;
        },
    };
    Some(
        HandOff {
            identity_map: MapOperation::MapPages {
                hierarchy: Hierarchy::Kernel,
                page: current_frame,
                frame: current_frame,
                count: 2,
                huge: false,
                flags: PageFlags { present: true, writable: false, no_execute: false },
            },
            level_four_frame: page_tables.kernel_level_four_frame,
            stack_pointer: stack_top,
            entry_point: mappings.entry_point,
            boot_information: boot_information_address,
        },
    )
}

} // verus!
