use lightsaber::boot_information::{MemoryRegionType, BOOT_INFORMATION_SIZE, MEMORY_REGION_SIZE};
use lightsaber::frame_allocator::BootFrameAllocator;
use lightsaber::framebuffer::{
    lightsaber_initialize_display, FirmwarePixelFormat, Framebuffer, FramebufferInformation,
    PixelColourFormat,
};
use lightsaber::handoff::{
    lightsaber_create_boot_information, lightsaber_switch_to_system_kernel, BootError,
};
use lightsaber::layout::{
    lightsaber_place_boot_information, lightsaber_set_up_mappings, LayoutError, Mappings,
    SystemInformation, KERNEL_STACK_PAGES,
};
use lightsaber::level_four::LevelFourEntries;
use lightsaber::mapping::{map_fresh_pages, Hierarchy, MapOperation, PageFlags};
use lightsaber::memory_map::{MemoryDescriptor, MemoryKind};
use lightsaber::paging::{lightsaber_initialize_paging, PageTables};
use lightsaber::segment::{ProgramHeader, SegmentType};

fn allocator(start: u64, end: u64) -> BootFrameAllocator {
    BootFrameAllocator::new(vec![
        MemoryDescriptor { start, len: end - start, kind: MemoryKind::Conventional },
        MemoryDescriptor { start: 0x3F00_0000, len: 0x100_0000, kind: MemoryKind::LoaderData },
    ])
}

fn information() -> FramebufferInformation {
    FramebufferInformation {
        len_bytes: 0x30_0000,
        horiz_resolution: 1024,
        vert_resolution: 768,
        pixel_colour_format: PixelColourFormat::Bgr,
        bytes_per_pixel: 4,
        stride: 1024,
    }
}

fn system_information() -> SystemInformation {
    SystemInformation {
        framebuffer_address: 0x8000_0000,
        framebuffer_information: information(),
        rsdp_address: Some(0xE_0000),
    }
}

fn kernel_in_slot_256() -> LevelFourEntries {
    LevelFourEntries::new(&vec![ProgramHeader {
        segment_type: SegmentType::Load,
        valid: true,
        offset: 0,
        virtual_addr: 0xFFFF_8000_0000_0000,
        file_size: 0x1000,
        mem_size: 0x1000,
        executable: true,
        writable: false,
    }])
}

const DATA: PageFlags = PageFlags { present: true, writable: true, no_execute: true };
const SHARED: PageFlags = PageFlags { present: true, writable: true, no_execute: false };

#[test]
fn layout_of_stack_framebuffer_and_physical_memory() {
    let mut frames = allocator(0x1000, 0x100000);
    let (mappings, operations) = lightsaber_set_up_mappings(
        &mut frames,
        system_information(),
        0xFFFF_8000_0000_0080,
        kernel_in_slot_256(),
    )
    .unwrap();
    assert_eq!(mappings.entry_point, 0xFFFF_8000_0000_0080);
    // The stack lies in slot 1 and has twenty pages.
    assert_eq!(mappings.stack_end, 0x80_0000_0000 + 19 * 0x1000);
    assert_eq!(mappings.framebuffer, 0x100_0000_0000);
    assert_eq!(mappings.phys_memory_offset, 0x180_0000_0000);
    assert_eq!(operations.len(), 22);
    for (index, operation) in operations.iter().take(20).enumerate() {
        let index = index as u64;
        assert_eq!(
            *operation,
            MapOperation::MapPages {
                hierarchy: Hierarchy::Kernel,
                page: 0x80_0000_0000 + index * 0x1000,
                frame: 0x1000 + index * 0x1000,
                count: 1,
                huge: false,
                flags: DATA,
            }
        );
    }
    assert_eq!(
        operations[20],
        MapOperation::MapPages {
            hierarchy: Hierarchy::Kernel,
            page: 0x100_0000_0000,
            frame: 0x8000_0000,
            count: 0x300,
            huge: false,
            flags: DATA,
        }
    );
    // Physical memory ends at 0x4000_0000: 512 frames of 2 MiB.
    assert_eq!(
        operations[21],
        MapOperation::MapPages {
            hierarchy: Hierarchy::Kernel,
            page: 0x180_0000_0000,
            frame: 0,
            count: 512,
            huge: true,
            flags: SHARED,
        }
    );
    assert_eq!(frames.allocate_frame(), Some(0x1000 + KERNEL_STACK_PAGES * 0x1000));
    let mut used_entries = mappings.used_entries;
    assert_eq!(used_entries.get_free_entry(), 4);
}

#[test]
fn layout_errors() {
    let mut frames = allocator(0x1000, 0x100000);
    let result = lightsaber_set_up_mappings(
        &mut frames,
        system_information(),
        0x8000_0000_0000,
        kernel_in_slot_256(),
    );
    assert_eq!(result.err(), Some(LayoutError::InvalidEntryPoint));

    let mut frames = allocator(0x1000, 0x10000);
    let result =
        lightsaber_set_up_mappings(&mut frames, system_information(), 0x1000, kernel_in_slot_256());
    assert_eq!(result.err(), Some(LayoutError::FrameExhaustion));

    let mut frames = allocator(0x1000, 0x100000);
    let unreachable = SystemInformation {
        framebuffer_address: 0x10_0000_0000_0000,
        ..system_information()
    };
    let result = lightsaber_set_up_mappings(&mut frames, unreachable, 0x1000, kernel_in_slot_256());
    assert_eq!(result.err(), Some(LayoutError::InvalidFramebuffer));

    let mut full = LevelFourEntries::new(&Vec::new());
    while full.has_free_entry() {
        full.get_free_entry();
    }
    let mut frames = allocator(0x1000, 0x100000);
    let result = lightsaber_set_up_mappings(&mut frames, system_information(), 0x1000, full);
    assert_eq!(result.err(), Some(LayoutError::SlotExhaustion));
}

#[test]
fn physical_memory_that_does_not_fit_above_its_slot() {
    // Only the slots 253 to 255 are free: the direct map gets slot 255, with
    // 512 GiB up to the end of the lower half, and physical memory has more.
    let kernel = ProgramHeader {
        segment_type: SegmentType::Load,
        valid: true,
        offset: 0,
        virtual_addr: 0x1000,
        file_size: 0x1000,
        mem_size: 253 * 0x80_0000_0000 - 0x2000,
        executable: true,
        writable: false,
    };
    let upper = ProgramHeader {
        virtual_addr: 0xFFFF_8000_0000_0000,
        mem_size: 0x7FFF_FFFF_F000,
        ..kernel
    };
    let entries = LevelFourEntries::new(&vec![kernel, upper]);
    let mut frames = BootFrameAllocator::new(vec![
        MemoryDescriptor { start: 0x1000, len: 0xFF000, kind: MemoryKind::Conventional },
        MemoryDescriptor {
            start: 0x80_0000_0000,
            len: 0x1000,
            kind: MemoryKind::OtherFirmware(11),
        },
    ]);
    let result = lightsaber_set_up_mappings(&mut frames, system_information(), 0x1000, entries);
    assert_eq!(result.err(), Some(LayoutError::PhysicalMemoryTooLarge));
}

fn mappings() -> Mappings {
    Mappings {
        entry_point: 0xFFFF_8000_0000_0080,
        stack_end: 0x80_0000_0000 + 19 * 0x1000,
        used_entries: kernel_in_slot_256(),
        framebuffer: 0x100_0000_0000,
        phys_memory_offset: 0x180_0000_0000,
    }
}

#[test]
fn boot_information_is_mapped_in_both_hierarchies() {
    let mut frames = allocator(0x1000, 0x100000);
    let mut mappings = mappings();
    let (layout, operations) = lightsaber_place_boot_information(&mut frames, &mut mappings).unwrap();
    assert_eq!(layout.boot_information_address, 0x80_0000_0000);
    assert_eq!(layout.memory_regions_address, 0x80_0000_0000 + BOOT_INFORMATION_SIZE);
    assert_eq!(layout.region_capacity, 3);
    assert_eq!(layout.page_count, 1);
    assert!(BOOT_INFORMATION_SIZE + 3 * MEMORY_REGION_SIZE <= 0x1000);
    let both = |hierarchy| MapOperation::MapPages {
        hierarchy,
        page: 0x80_0000_0000,
        frame: 0x1000,
        count: 1,
        huge: false,
        flags: SHARED,
    };
    assert_eq!(operations, vec![both(Hierarchy::Kernel), both(Hierarchy::Boot)]);
    assert_eq!(mappings.used_entries.get_free_entry(), 2);
}

#[test]
fn boot_information_over_several_pages() {
    // 200 regions: 96 + 201 * 24 bytes, which is more than one page.
    let mut map = Vec::new();
    for index in 0..200u64 {
        map.push(MemoryDescriptor {
            start: 0x1000 + index * 0x2000,
            len: 0x2000,
            kind: MemoryKind::Conventional,
        });
    }
    let mut frames = BootFrameAllocator::new(map);
    let mut mappings = mappings();
    let (layout, operations) = lightsaber_place_boot_information(&mut frames, &mut mappings).unwrap();
    assert_eq!(layout.region_capacity, 201);
    assert_eq!(layout.page_count, 2);
    assert_eq!(operations.len(), 4);
    let mut index = 0;
    while index < operations.len() {
        match (operations[index], operations[index + 1]) {
            (
                MapOperation::MapPages { hierarchy: Hierarchy::Kernel, page, frame, .. },
                MapOperation::MapPages {
                    hierarchy: Hierarchy::Boot,
                    page: boot_page,
                    frame: boot_frame,
                    ..
                },
            ) => {
                assert_eq!(page, 0x80_0000_0000 + (index as u64 / 2) * 0x1000);
                assert_eq!(page, boot_page);
                assert_eq!(frame, boot_frame);
            }
            other => panic!("unexpected operations {:?}", other),
        }
        index += 2;
    }
}

#[test]
fn boot_information_errors() {
    // The only frame of the region is the one at address 0, which is never handed out.
    let mut frames = BootFrameAllocator::new(vec![MemoryDescriptor {
        start: 0,
        len: 0x1000,
        kind: MemoryKind::Conventional,
    }]);
    let mut mappings = mappings();
    let result = lightsaber_place_boot_information(&mut frames, &mut mappings);
    assert_eq!(result.err(), Some(LayoutError::FrameExhaustion));

    let mut full = mappings;
    while full.used_entries.has_free_entry() {
        full.used_entries.get_free_entry();
    }
    let mut frames = allocator(0x1000, 0x100000);
    let result = lightsaber_place_boot_information(&mut frames, &mut full);
    assert_eq!(result.err(), Some(LayoutError::SlotExhaustion));
}

#[test]
fn boot_information_and_memory_map() {
    let mut frames = allocator(0x1000, 0x100000);
    let mut mappings = mappings();
    let (layout, _) = lightsaber_place_boot_information(&mut frames, &mut mappings).unwrap();
    let (boot_information, regions, mut reserved) =
        lightsaber_create_boot_information(frames, &layout, &mappings, system_information())
            .unwrap();
    assert_eq!(boot_information.rsdp_address, 0xE_0000);
    assert_eq!(boot_information.phys_memory_offset, 0x180_0000_0000);
    assert_eq!(
        boot_information.framebuffer,
        Framebuffer {
            buffer_start: 0x100_0000_0000,
            buffer_len_bytes: 0x30_0000,
            information: information(),
        }
    );
    assert_eq!(boot_information.framebuffer.information(), information());
    assert_eq!(boot_information.memory_regions.ptr, layout.memory_regions_address);
    assert_eq!(boot_information.memory_regions.len, 3);
    assert_eq!(regions.len(), 3);
    // One frame for the boot information, two set aside.
    assert_eq!(regions[0].end, 0x4000);
    assert_eq!(regions[0].region_type, MemoryRegionType::Bootloader);
    assert_eq!(regions[1].region_type, MemoryRegionType::Usable);
    assert_eq!(regions[2].region_type, MemoryRegionType::UnknownUefi(2));
    for _ in 0..2 {
        let frame = reserved.allocate_frame().unwrap();
        for entry in &regions {
            if entry.region_type == MemoryRegionType::Usable {
                assert!(frame + 0x1000 <= entry.start || entry.end <= frame);
            }
        }
        assert!(regions.iter().any(|entry| entry.region_type == MemoryRegionType::Bootloader
            && entry.start <= frame
            && frame + 0x1000 <= entry.end));
    }
    assert_eq!(reserved.allocate_frame(), None);
}

#[test]
fn boot_information_failures() {
    let mut mappings = mappings();
    let mut frames = allocator(0x1000, 0x100000);
    let (layout, _) = lightsaber_place_boot_information(&mut frames, &mut mappings).unwrap();

    let no_rsdp = SystemInformation { rsdp_address: None, ..system_information() };
    let result = lightsaber_create_boot_information(frames.clone(), &layout, &mappings, no_rsdp);
    assert_eq!(result.err(), Some(BootError::MissingRsdp));

    let small = lightsaber::layout::BootInformationLayout { region_capacity: 2, ..layout };
    let result =
        lightsaber_create_boot_information(frames, &small, &mappings, system_information());
    assert_eq!(result.err(), Some(BootError::MemoryMapOverflow));

    let empty = allocator(0x1000, 0x2000);
    let result =
        lightsaber_create_boot_information(empty, &layout, &mappings, system_information());
    assert_eq!(result.err(), Some(BootError::FrameExhaustion));
}

#[test]
fn page_tables_get_the_first_two_frames() {
    let mut frames = allocator(0x1000, 0x100000);
    assert_eq!(
        lightsaber_initialize_paging(&mut frames),
        Some(PageTables { boot_level_four_frame: 0x1000, kernel_level_four_frame: 0x2000 })
    );
    let mut frames = allocator(0x1000, 0x2000);
    assert_eq!(lightsaber_initialize_paging(&mut frames), None);
}

#[test]
fn hand_over_to_the_kernel() {
    let tables = PageTables { boot_level_four_frame: 0x1000, kernel_level_four_frame: 0x2000 };
    let hand_off =
        lightsaber_switch_to_system_kernel(&tables, &mappings(), 0x200_0000_0000, 0x3E12_3456)
            .unwrap();
    assert_eq!(
        hand_off.identity_map,
        MapOperation::MapPages {
            hierarchy: Hierarchy::Kernel,
            page: 0x3E12_3000,
            frame: 0x3E12_3000,
            count: 2,
            huge: false,
            flags: PageFlags { present: true, writable: false, no_execute: false },
        }
    );
    assert_eq!(hand_off.level_four_frame, 0x2000);
    // The stack has 80 KiB and grows down from its end.
    assert_eq!(hand_off.stack_pointer, 0x80_0000_0000 + 20 * 0x1000);
    assert_eq!(hand_off.entry_point, 0xFFFF_8000_0000_0080);
    assert_eq!(hand_off.boot_information, 0x200_0000_0000);
    assert_eq!(
        lightsaber_switch_to_system_kernel(&tables, &mappings(), 0, 0x8000_0000_0000),
        None
    );
}

#[test]
fn unsupported_pixel_formats_are_told() {
    assert!(!FirmwarePixelFormat::Bitmask.is_supported());
    assert!(!FirmwarePixelFormat::BltOnly.is_supported());
    assert!(FirmwarePixelFormat::Rgb.is_supported());
    assert!(FirmwarePixelFormat::Bgr.is_supported());
}

#[test]
fn framebuffer_of_a_supported_mode() {
    assert_eq!(
        lightsaber_initialize_display(0x30_0000, 1024, 768, FirmwarePixelFormat::Bgr, 1024),
        information()
    );
    assert_eq!(
        lightsaber_initialize_display(0x30_0000, 1024, 768, FirmwarePixelFormat::Rgb, 1024),
        FramebufferInformation { pixel_colour_format: PixelColourFormat::Rgb, ..information() }
    );
}

#[test]
fn fresh_pages_with_and_without_clearing() {
    let mut frames = allocator(0x1000, 0x100000);
    let mut operations = Vec::new();
    assert!(map_fresh_pages(&mut frames, 0x5000, 2, DATA, true, false, &mut operations));
    assert_eq!(operations.len(), 4);
    assert_eq!(operations[0], MapOperation::ZeroFrame { frame: 0x1000 });
    assert_eq!(operations[2], MapOperation::ZeroFrame { frame: 0x2000 });
    let mut few = allocator(0x1000, 0x2000);
    assert!(!map_fresh_pages(&mut few, 0x5000, 2, DATA, true, false, &mut operations));
}

#[test]
fn direct_map_reaches_every_physical_address() {
    let mut frames = allocator(0x1000, 0x100000);
    let (mappings, operations) = lightsaber_set_up_mappings(
        &mut frames,
        system_information(),
        0xFFFF_8000_0000_0080,
        kernel_in_slot_256(),
    )
    .unwrap();
    let (page, frame, count) = match operations[21] {
        MapOperation::MapPages { page, frame, count, huge: true, .. } => (page, frame, count),
        other => panic!("unexpected operation {:?}", other),
    };
    assert_eq!(page, mappings.phys_memory_offset);
    // The address at the distance of a physical address from the offset lies
    // in a page of the direct map, which is mapped to the frame of that address.
    for physical in [0u64, 0x1000, 0x1F_FFFF, 0x20_0000, 0x3F00_0000, 0x3FFF_FFFF] {
        let address = mappings.phys_memory_offset + physical;
        let index = (address - page) / 0x20_0000;
        assert!(index < count);
        let mapped = frame + index * 0x20_0000 + (address - page) % 0x20_0000;
        assert_eq!(mapped, physical);
    }
    // The last region of the map ends at 0x4000_0000, and so does the direct map.
    assert_eq!(count * 0x20_0000, 0x4000_0000);
}
