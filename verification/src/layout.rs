//! The layout of the kernel's address space beyond the kernel itself. The
//! stack, the framebuffer, the direct map of physical memory and the boot
//! information each get a top-level slot of their own.

use vstd::prelude::*;
use crate::address::{
    align_up, canonical, checked_align_up, containing_frame, containing_huge_frame, frame_of,
    half_end, huge_frame_of, is_canonical, lemma_page_below, room_in_half, slot_start,
    HUGE_PAGE_SIZE, PAGE_SIZE, PHYSICAL_LIMIT,
};
use crate::boot_information::{BOOT_INFORMATION_SIZE, MEMORY_REGION_ALIGN, MEMORY_REGION_SIZE};
use crate::frame_allocator::{lemma_allocate, max_end, AllocatorState, BootFrameAllocator};
use crate::framebuffer::FramebufferInformation;
use crate::level_four::{after_claims, has_free, lowest_free, nth_claim, LevelFourEntries};
use crate::mapping::{
    data_flags, fresh_pages_operations, map_fresh_pages, Hierarchy, MapOperation, PageFlags,
};

verus! {

/// The number of pages of the kernel's stack: 80 KiB.
pub const KERNEL_STACK_PAGES: u64 = 20;

/// What the firmware told about the machine.
#[derive(Debug, Clone, Copy)]
pub struct SystemInformation {
    /// The physical address of the framebuffer.
    pub framebuffer_address: u64,
    pub framebuffer_information: FramebufferInformation,
    /// The physical address of the ACPI root table, where the firmware has one.
    pub rsdp_address: Option<u64>,
}

/// Where the parts of the kernel's address space lie.
#[derive(Debug)]
pub struct Mappings {
    /// The virtual address at which the kernel starts to run.
    pub entry_point: u64,
    /// The last page of the stack. The stack grows down from the end of this page.
    pub stack_end: u64,
    /// The top-level slots that are taken.
    pub used_entries: LevelFourEntries,
    /// The virtual address of the framebuffer.
    pub framebuffer: u64,
    /// The virtual address at which physical address 0 is mapped.
    pub phys_memory_offset: u64,
}

/// Why the address space could not be laid out. Each of these is fatal to the boot.
#[derive(Debug, Clone, Copy, PartialEq, Eq, Structural)]
pub enum LayoutError {
    /// The kernel's entry point is not a canonical address.
    InvalidEntryPoint,
    /// No top-level slot is free.
    SlotExhaustion,
    /// The allocator ran out of frames.
    FrameExhaustion,
    /// The framebuffer does not lie at physical addresses of 52 bits, or is
    /// larger than the address space above its slot.
    InvalidFramebuffer,
    /// Physical memory is larger than the address space above the slot of the direct map.
    PhysicalMemoryTooLarge,
    /// The memory map has too many entries for the address space above the
    /// slot of the boot information.
    MemoryMapTooLarge,
}

impl SystemInformation {
    /// The framebuffer lies at physical addresses of 52 bits.
    pub open spec fn framebuffer_wf(&self) -> bool {
        &&& self.framebuffer_address < 0x10_0000_0000_0000
        &&& 1 <= self.framebuffer_address + self.framebuffer_information.len_bytes
            <= 0x10_0000_0000_0000
    }

    /// The number of frames from the one with the first byte of the
    /// framebuffer to the one with its last byte.
    pub open spec fn framebuffer_frame_count(&self) -> int {
        let first = frame_of(self.framebuffer_address as int);
        let last = frame_of(self.framebuffer_address + self.framebuffer_information.len_bytes - 1);
        if first <= last {
            (last - first) / 0x1000 + 1
        } else {
            0
        }
    }

    /// The operation that maps the framebuffer from `page` on, with the permissions of data.
    pub open spec fn framebuffer_operation(&self, page: u64) -> MapOperation {
        MapOperation::MapPages {
            hierarchy: Hierarchy::Kernel,
            page,
            frame: frame_of(self.framebuffer_address as int) as u64,
            count: self.framebuffer_frame_count() as u64,
            huge: false,
            flags: data_flags(),
        }
    }
}

/// The number of 2 MiB frames from address 0 to the frame with the last byte
/// of physical memory.
pub open spec fn direct_map_frame_count(max_physical_address: int) -> int {
    huge_frame_of(max_physical_address - 1) / 0x20_0000 + 1
}

/// The operation that maps all of physical memory from `page` on, in 2 MiB
/// pages that are present and writable.
pub open spec fn direct_map_operation(max_physical_address: int, page: u64) -> MapOperation {
    MapOperation::MapPages {
        hierarchy: Hierarchy::Kernel,
        page,
        frame: 0,
        count: direct_map_frame_count(max_physical_address) as u64,
        huge: true,
        flags: PageFlags { present: true, writable: true, no_execute: false },
    }
}

/// The layout that [`lightsaber_set_up_mappings`] decides on.
pub struct LayoutPlan {
    /// The first page of the stack.
    pub stack_start: int,
    /// The virtual address of the framebuffer.
    pub framebuffer: int,
    /// The virtual address at which physical address 0 is mapped.
    pub phys_memory_offset: int,
    /// The top-level slots that are taken afterwards.
    pub entries: Seq<bool>,
    /// The operations that establish the layout.
    pub operations: Seq<MapOperation>,
    /// The state of the allocator afterwards.
    pub state: AllocatorState,
}

/// The layout for a machine and a kernel. The stack gets the lowest free
/// slot, the framebuffer the next and the direct map of physical memory the
/// one after. The stack has twenty pages with frames of their own, which hold
/// data; the framebuffer is mapped as data; physical memory is mapped from
/// address 0 to the end of the highest region of the memory map.
pub open spec fn layout_result(
    state: AllocatorState,
    entries: Seq<bool>,
    system_information: SystemInformation,
    kernel_entry: u64,
) -> Result<LayoutPlan, LayoutError> {
    let stack_start = slot_start(nth_claim(entries, 0));
    let framebuffer = slot_start(nth_claim(entries, 1));
    let phys_memory_offset = slot_start(nth_claim(entries, 2));
    if !is_canonical(kernel_entry as int) {
        Err(LayoutError::InvalidEntryPoint)
    } else if !has_free(entries) {
        Err(LayoutError::SlotExhaustion)
    } else if !state.can_allocate(20) {
        Err(LayoutError::FrameExhaustion)
    } else if !system_information.framebuffer_wf() {
        Err(LayoutError::InvalidFramebuffer)
    } else if !has_free(after_claims(entries, 1)) {
        Err(LayoutError::SlotExhaustion)
    } else if framebuffer + system_information.framebuffer_frame_count() * 0x1000 > half_end(
        framebuffer,
    ) {
        Err(LayoutError::InvalidFramebuffer)
    } else if !has_free(after_claims(entries, 2)) {
        Err(LayoutError::SlotExhaustion)
    } else if phys_memory_offset + direct_map_frame_count(max_end(state.regions)) * 0x20_0000
        > half_end(phys_memory_offset) {
        Err(LayoutError::PhysicalMemoryTooLarge)
    } else {
        Ok(
            LayoutPlan {
                stack_start,
                framebuffer,
                phys_memory_offset,
                entries: after_claims(entries, 3),
                operations: fresh_pages_operations(
                    stack_start,
                    state.frames(20),
                    data_flags(),
                    false,
                    false,
                ).push(system_information.framebuffer_operation(framebuffer as u64)).push(
                    direct_map_operation(max_end(state.regions), phys_memory_offset as u64),
                ),
                state: state.after(20),
            },
        )
    }
}

/// The operation that maps the framebuffer from `page` on, or `None` where
/// the framebuffer is larger than the address space from the page up.
fn map_framebuffer(system_information: &SystemInformation, page: u64) -> (operation: Option<
    MapOperation,
>)
    requires
        system_information.framebuffer_wf(),
        is_canonical(page as int),
    ensures
        operation.is_some() == (page + system_information.framebuffer_frame_count() * 0x1000
            <= half_end(page as int)),
        operation matches Some(mapping) ==> mapping == system_information.framebuffer_operation(
            page,
        ),
{
    let start: u64 = system_information.framebuffer_address;
    let first: u64 = containing_frame(start);
    let last: u64 = containing_frame(start + system_information.framebuffer_information.len_bytes - 1);
    let count: u64 = if first <= last {
        (last - first) / PAGE_SIZE + 1
    } else {
        0
    };
    if count * PAGE_SIZE > room_in_half(page) {
        return None;
    }
    Some(
        MapOperation::MapPages {
            hierarchy: Hierarchy::Kernel,
            page,
            frame: first,
            count,
            huge: false,
            flags: PageFlags { present: true, writable: true, no_execute: true },
        },
    )
}

/// The operation that maps physical memory up to `max_physical_address` from
/// `page` on, or `None` where it is larger than the address space from the page up.
fn map_physical_memory(max_physical_address: u64, page: u64) -> (operation: Option<MapOperation>)
    requires
        0 < max_physical_address <= 0x10_0000_0000_0000,
        is_canonical(page as int),
    ensures
        operation.is_some() == (page + direct_map_frame_count(max_physical_address as int)
            * 0x20_0000 <= half_end(page as int)),
        operation matches Some(mapping) ==> mapping == direct_map_operation(
            max_physical_address as int,
            page,
        ),
{
    let end_frame: u64 = containing_huge_frame(max_physical_address - 1);
    let count: u64 = end_frame / HUGE_PAGE_SIZE + 1;
    if count * HUGE_PAGE_SIZE > room_in_half(page) {
        return None;
    }
    Some(
        MapOperation::MapPages {
            hierarchy: Hierarchy::Kernel,
            page,
            frame: 0,
            count,
            huge: true,
            flags: PageFlags { present: true, writable: true, no_execute: false },
        },
    )
}

/// Twenty allocations succeed only from a memory map with a region.
proof fn lemma_frames_need_regions(state: AllocatorState)
    requires
        state.wf(),
        state.can_allocate(20),
    ensures
        state.regions.len() > 0,
{
    assert(state.nth_allocation(0).0 is Some);
    lemma_allocate(state);
}

/// Taking the lowest free slot once more.
proof fn lemma_next_claim(entries: Seq<bool>, count: nat)
    ensures
        after_claims(entries, count + 1) == after_claims(entries, count).update(
            nth_claim(entries, count),
            true,
        ),
        after_claims(entries, 0) == entries,
{
}

/// Lays out the kernel's stack, the framebuffer and the direct map of
/// physical memory, each in the lowest top-level slot that is free.
#[verifier::rlimit(40)]
pub fn lightsaber_set_up_mappings(
    frame_allocator: &mut BootFrameAllocator,
    system_information: SystemInformation,
    kernel_entry: u64,
    used_entries: LevelFourEntries,
) -> (result: Result<(Mappings, Vec<MapOperation>), LayoutError>)
    requires
        old(frame_allocator).wf(),
        used_entries.wf(),
    ensures
        final(frame_allocator).wf(),
        final(frame_allocator)@.regions == old(frame_allocator)@.regions,
        final(frame_allocator)@.next_frame >= old(frame_allocator)@.next_frame,
        match result {
            Ok((mappings, operations)) => {
                &&& layout_result(
                    old(frame_allocator)@,
                    used_entries@,
                    system_information,
                    kernel_entry,
                ) matches Ok(plan)
                &&& mappings.entry_point == kernel_entry
                &&& mappings.stack_end == plan.stack_start + 19 * 0x1000
                &&& mappings.framebuffer == plan.framebuffer
                &&& mappings.phys_memory_offset == plan.phys_memory_offset
                &&& mappings.used_entries@ == plan.entries
                &&& mappings.used_entries.wf()
                &&& operations@ == plan.operations
                &&& final(frame_allocator)@ == plan.state
            },
            Err(error) => layout_result(
                old(frame_allocator)@,
                used_entries@,
                system_information,
                kernel_entry,
            ) == Err::<LayoutPlan, _>(error),
        },
        result matches Err(LayoutError::FrameExhaustion) ==> final(frame_allocator)@.exhausted(),
{
    let ghost start = frame_allocator@;
    let ghost entries = used_entries@;
    let mut used_entries = used_entries;
    proof {
        lemma_next_claim(entries, 0);
        lemma_next_claim(entries, 1);
        lemma_next_claim(entries, 2);
    }
    if !canonical(kernel_entry) {
        return Err(LayoutError::InvalidEntryPoint);
    }
    let entry_point: u64 = kernel_entry;

    if !used_entries.has_free_entry() {
        return Err(LayoutError::SlotExhaustion);
    }
    let stack_start: u64 = used_entries.get_free_address();
    let mut operations: Vec<MapOperation> = Vec::new();
    let stack_flags = PageFlags { present: true, writable: true, no_execute: true };
    assert(stack_start + 20 * 0x1000 <= 0x1_0000_0000_0000_0000) by {
        assert(0 <= nth_claim(entries, 0) < 512);
    }
    if !map_fresh_pages(
        frame_allocator,
        stack_start,
        KERNEL_STACK_PAGES,
        stack_flags,
        false,
        false,
        &mut operations,
    ) {
        return Err(LayoutError::FrameExhaustion);
    }
    let stack_end: u64 = containing_frame(stack_start + PAGE_SIZE * KERNEL_STACK_PAGES - 1);

    let framebuffer_address: u64 = system_information.framebuffer_address;
    let framebuffer_len: u64 = system_information.framebuffer_information.len_bytes;
    if framebuffer_address >= PHYSICAL_LIMIT || framebuffer_len > PHYSICAL_LIMIT
        - framebuffer_address || framebuffer_address + framebuffer_len == 0 {
        return Err(LayoutError::InvalidFramebuffer);
    }
    if !used_entries.has_free_entry() {
        return Err(LayoutError::SlotExhaustion);
    }
    let framebuffer: u64 = used_entries.get_free_address();
    match map_framebuffer(&system_information, framebuffer) {
        Some(operation) => {
            operations.push(operation);
        },
        None => {
            return Err(LayoutError::InvalidFramebuffer);
        },
    }

    if !used_entries.has_free_entry() {
        return Err(LayoutError::SlotExhaustion);
    }
    let physical_memory_offset: u64 = used_entries.get_free_address();
    proof {
        lemma_frames_need_regions(start);
    }
    let max_physical: u64 = frame_allocator.max_physical_address();
    match map_physical_memory(max_physical, physical_memory_offset) {
        Some(operation) => {
            operations.push(operation);
        },
        None => {
            return Err(LayoutError::PhysicalMemoryTooLarge);
        },
    }

    Ok(
        (
            Mappings {
                entry_point,
                stack_end,
                used_entries,
                framebuffer,
                phys_memory_offset: physical_memory_offset,
            },
            operations,
        ),
    )
}

/// Where the boot information lies in the kernel's address space.
#[derive(Debug, Clone, Copy, PartialEq, Eq, Structural)]
pub struct BootInformationLayout {
    /// The virtual address of the boot information.
    pub boot_information_address: u64,
    /// The virtual address of the first entry of the memory map.
    pub memory_regions_address: u64,
    /// The number of entries that the place for the memory map holds.
    pub region_capacity: u64,
    /// The number of pages that hold the boot information and the memory map.
    pub page_count: u64,
}

/// The place for the boot information in the slot that starts at `address`,
/// with a memory map of `regions` regions. The memory map follows the boot
/// information at the next address that suits the alignment of its entries,
/// and has room for one entry more than the firmware's map has regions,
/// since the next frame may divide one of them.
pub open spec fn boot_information_layout(address: int, regions: nat) -> BootInformationLayout {
    let capacity = regions + 1;
    let regions_address = align_up(address + 96, 8);
    let end = regions_address + capacity * 24;
    BootInformationLayout {
        boot_information_address: address as u64,
        memory_regions_address: regions_address as u64,
        region_capacity: capacity as u64,
        page_count: ((frame_of(end - 1) - address) / 0x1000 + 1) as u64,
    }
}

/// What placing the boot information comes to: it gets the lowest free slot,
/// and each of its pages a frame of its own, which is mapped present and
/// writable in the kernel's hierarchy and in the boot hierarchy alike.
pub open spec fn placement_result(state: AllocatorState, entries: Seq<bool>) -> Result<
    (BootInformationLayout, Seq<MapOperation>, AllocatorState),
    LayoutError,
> {
    let address = slot_start(lowest_free(entries));
    let layout = boot_information_layout(address, state.regions.len());
    if !has_free(entries) {
        Err(LayoutError::SlotExhaustion)
    } else if align_up(address + 96, 8) + (state.regions.len() + 1) * 24 >= half_end(address) {
        Err(LayoutError::MemoryMapTooLarge)
    } else if !state.can_allocate(layout.page_count as nat) {
        Err(LayoutError::FrameExhaustion)
    } else {
        Ok(
            (
                layout,
                fresh_pages_operations(
                    address,
                    state.frames(layout.page_count as nat),
                    shared_flags(),
                    false,
                    true,
                ),
                state.after(layout.page_count as nat),
            ),
        )
    }
}

/// Present and writable: the permissions of the boot information.
pub open spec fn shared_flags() -> PageFlags {
    PageFlags { present: true, writable: true, no_execute: false }
}

/// Places the boot information and the memory map behind it in the lowest
/// free top-level slot, and plans their mapping into both hierarchies, so
/// that they can be written before the hand-over and read after it.
#[verifier::rlimit(40)]
pub fn lightsaber_place_boot_information(
    frame_allocator: &mut BootFrameAllocator,
    mappings: &mut Mappings,
) -> (result: Result<(BootInformationLayout, Vec<MapOperation>), LayoutError>)
    requires
        old(frame_allocator).wf(),
        old(mappings).used_entries.wf(),
    ensures
        final(frame_allocator).wf(),
        final(frame_allocator)@.regions == old(frame_allocator)@.regions,
        final(frame_allocator)@.next_frame >= old(frame_allocator)@.next_frame,
        final(mappings).used_entries.wf(),
        final(mappings).entry_point == old(mappings).entry_point,
        final(mappings).stack_end == old(mappings).stack_end,
        final(mappings).framebuffer == old(mappings).framebuffer,
        final(mappings).phys_memory_offset == old(mappings).phys_memory_offset,
        has_free(old(mappings).used_entries@) ==> final(mappings).used_entries@ == old(
            mappings,
        ).used_entries@.update(lowest_free(old(mappings).used_entries@), true),
        match result {
            Ok((layout, operations)) => placement_result(
                old(frame_allocator)@,
                old(mappings).used_entries@,
            ) == Ok::<_, LayoutError>((layout, operations@, final(frame_allocator)@)),
            Err(error) => placement_result(old(frame_allocator)@, old(mappings).used_entries@)
                == Err::<(BootInformationLayout, Seq<MapOperation>, AllocatorState), _>(error),
        },
        result matches Err(LayoutError::FrameExhaustion) ==> final(frame_allocator)@.exhausted(),
        result matches Err(LayoutError::SlotExhaustion) ==> final(frame_allocator)@ == old(
            frame_allocator,
        )@,
{
    if !mappings.used_entries.has_free_entry() {
        return Err(LayoutError::SlotExhaustion);
    }
    let boot_info_address: u64 = mappings.used_entries.get_free_address();
    let layout = match place_in_slot(boot_info_address, frame_allocator.len()) {
        Some(layout) => layout,
        None => {
            return Err(LayoutError::MemoryMapTooLarge);
        },
    };
    let mut operations: Vec<MapOperation> = Vec::new();
    let flags = PageFlags { present: true, writable: true, no_execute: false };
    if !map_fresh_pages(
        frame_allocator,
        boot_info_address,
        layout.page_count,
        flags,
        false,
        true,
        &mut operations,
    ) {
        return Err(LayoutError::FrameExhaustion);
    }
    Ok((layout, operations))
}

/// The place for the boot information and a memory map of `regions` regions
/// in the slot that starts at `address`, or `None` where they do not end
/// before the half of the address space does.
#[verifier::rlimit(40)]
fn place_in_slot(address: u64, regions: usize) -> (layout: Option<BootInformationLayout>)
    requires
        is_canonical(address as int),
        address % 0x1000 == 0,
    ensures
        layout.is_some() == (align_up(address + 96, 8) + (regions + 1) * 24 < half_end(
            address as int,
        )),
        layout matches Some(place) ==> place == boot_information_layout(
            address as int,
            regions as nat,
        ) && address + place.page_count * 0x1000 <= 0x1_0000_0000_0000_0000,
{
    let room: u64 = room_in_half(address);
    let boot_info_end: u64 = address + BOOT_INFORMATION_SIZE;
    assert((address + 96) % 8 == 0) by {
        assert(address == 8 * (512 * (address / 0x1000)));
    }
    let memory_map_regions_address: u64 = match checked_align_up(
        boot_info_end,
        MEMORY_REGION_ALIGN,
    ) {
        Some(aligned) => aligned,
        None => {
            return None;
        },
    };
    let capacity: u64 = match (regions as u64).checked_add(1) {
        Some(capacity) => capacity,
        None => {
            return None;
        },
    };
    let bytes: u64 = match capacity.checked_mul(MEMORY_REGION_SIZE) {
        Some(bytes) => bytes,
        None => {
            return None;
        },
    };
    let memory_map_regions_end: u64 = match memory_map_regions_address.checked_add(bytes) {
        Some(end) => end,
        None => {
            return None;
        },
    };
    if memory_map_regions_end - address >= room {
        return None;
    }
    let end_page: u64 = containing_frame(memory_map_regions_end - 1);
    proof {
        lemma_page_below(end_page as int, half_end(address as int));
    }
    let page_count: u64 = (end_page - address) / PAGE_SIZE + 1;
    assert(address + page_count * 0x1000 == end_page + 0x1000) by {
        assert(end_page - address == 0x1000 * ((end_page - address) / 0x1000));
    }
    Some(
        BootInformationLayout {
            boot_information_address: address,
            memory_regions_address: memory_map_regions_address,
            region_capacity: capacity,
            page_count,
        },
    )
}

} // verus!
