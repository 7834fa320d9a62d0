use lightsaber::boot_information::{MemoryRegion, MemoryRegionType};
use lightsaber::frame_allocator::{BootFrameAllocator, ReservedFrames};
use lightsaber::memory_map::{
    is_well_formed_memory_map, BootMemoryRegion, MemoryDescriptor, MemoryKind,
};

fn conventional(start: u64, end: u64) -> MemoryDescriptor {
    MemoryDescriptor { start, len: end - start, kind: MemoryKind::Conventional }
}

fn region(start: u64, end: u64, kind: MemoryKind) -> MemoryDescriptor {
    MemoryDescriptor { start, len: end - start, kind }
}

#[test]
fn minimal_memory_map_after_three_frames() {
    let map = vec![
        conventional(0x1000, 0x100000),
        region(0x100000, 0x101000, MemoryKind::RuntimeServicesData),
    ];
    let mut allocator = BootFrameAllocator::new(map);
    assert_eq!(allocator.allocate_frame(), Some(0x1000));
    assert_eq!(allocator.allocate_frame(), Some(0x2000));
    assert_eq!(allocator.allocate_frame(), Some(0x3000));
    let regions = allocator.construct_memory_map(3);
    assert_eq!(
        regions,
        vec![
            MemoryRegion { start: 0x1000, end: 0x4000, region_type: MemoryRegionType::Bootloader },
            MemoryRegion { start: 0x4000, end: 0x100000, region_type: MemoryRegionType::Usable },
            MemoryRegion {
                start: 0x100000,
                end: 0x101000,
                region_type: MemoryRegionType::UnknownUefi(6),
            },
        ]
    );
}

#[test]
fn high_water_mark_divides_region() {
    let mut allocator = BootFrameAllocator::new(vec![conventional(0x1000, 0x1000000)]);
    for _ in 0..0x10 {
        assert!(allocator.allocate_frame().is_some());
    }
    let regions = allocator.construct_memory_map(2);
    assert_eq!(
        regions,
        vec![
            MemoryRegion { start: 0x1000, end: 0x11000, region_type: MemoryRegionType::Bootloader },
            MemoryRegion { start: 0x11000, end: 0x1000000, region_type: MemoryRegionType::Usable },
        ]
    );
}

#[test]
fn first_frame_is_never_the_zero_page() {
    let mut allocator = BootFrameAllocator::new(vec![conventional(0, 0x10000)]);
    assert_eq!(allocator.allocate_frame(), Some(0x1000));
}

#[test]
fn frames_lie_in_conventional_regions_and_increase() {
    let map = vec![
        region(0, 0x1000, MemoryKind::BootServicesCode),
        conventional(0x8000, 0xB000),
        region(0xB000, 0x20000, MemoryKind::LoaderData),
        conventional(0x20000, 0x24000),
        region(0x30000, 0x31000, MemoryKind::OtherFirmware(11)),
    ];
    let mut allocator = BootFrameAllocator::new(map.clone());
    let mut frames = Vec::new();
    while let Some(frame) = allocator.allocate_frame() {
        frames.push(frame);
    }
    assert_eq!(frames, vec![0x8000, 0x9000, 0xA000, 0x20000, 0x21000, 0x22000, 0x23000]);
    for pair in frames.windows(2) {
        assert!(pair[0] < pair[1]);
    }
    for frame in &frames {
        assert!(*frame >= 0x1000);
        assert!(map.iter().any(|d| d.kind == MemoryKind::Conventional
            && d.start <= *frame
            && *frame + 0x1000 <= d.start + d.len));
    }
    assert_eq!(allocator.allocate_frame(), None);
}

#[test]
fn next_frame_never_moves_down() {
    // The region at the higher address comes first in the map. Its single
    // frame raises the next frame above the second region, which then has
    // nothing left to give.
    let map = vec![conventional(0x100000, 0x101000), conventional(0x1000, 0x50000)];
    let mut allocator = BootFrameAllocator::new(map);
    assert_eq!(allocator.allocate_frame(), Some(0x100000));
    assert_eq!(allocator.allocate_frame(), None);
    let regions = allocator.construct_memory_map(3);
    assert_eq!(
        regions,
        vec![
            MemoryRegion {
                start: 0x100000,
                end: 0x101000,
                region_type: MemoryRegionType::Bootloader,
            },
            MemoryRegion { start: 0x1000, end: 0x50000, region_type: MemoryRegionType::Bootloader },
        ]
    );
}

#[test]
fn every_frame_of_a_region_is_handed_out_once() {
    let mut allocator = BootFrameAllocator::new(vec![conventional(0x1000, 0x3000)]);
    assert_eq!(allocator.allocate_frame(), Some(0x1000));
    assert_eq!(allocator.allocate_frame(), Some(0x2000));
    assert_eq!(allocator.allocate_frame(), None);
    assert_eq!(allocator.allocate_frame(), None);
}

#[test]
fn frame_that_ends_beyond_its_region_is_not_handed_out() {
    // The region ends in the middle of its second frame.
    let mut allocator = BootFrameAllocator::new(vec![
        conventional(0x1000, 0x2800),
        conventional(0x8000, 0x9000),
    ]);
    assert_eq!(allocator.allocate_frame(), Some(0x1000));
    assert_eq!(allocator.allocate_frame(), Some(0x8000));
    assert_eq!(allocator.allocate_frame(), None);
}

#[test]
fn allocate_frame_from_descriptor_raises_next_frame() {
    let mut allocator = BootFrameAllocator::new(vec![conventional(0x1000, 0x10000)]);
    let descriptor = conventional(0x5000, 0x8000);
    assert_eq!(allocator.allocate_frame_from_descriptor(descriptor), Some(0x5000));
    assert_eq!(allocator.allocate_frame_from_descriptor(descriptor), Some(0x6000));
    assert_eq!(allocator.allocate_frame_from_descriptor(descriptor), Some(0x7000));
    assert_eq!(allocator.allocate_frame_from_descriptor(descriptor), None);
    // The next frame stays where the region left it.
    assert_eq!(allocator.allocate_frame(), Some(0x8000));
}

#[test]
fn len_and_max_physical_address() {
    let map = vec![
        conventional(0x1000, 0x9000),
        region(0x200000, 0x400000, MemoryKind::RuntimeServicesCode),
        conventional(0x10000, 0x20000),
    ];
    let allocator = BootFrameAllocator::new(map);
    assert_eq!(allocator.len(), 3);
    assert_eq!(allocator.max_physical_address(), 0x400000);
}

#[test]
fn consolidation_is_repeatable() {
    let map = vec![
        conventional(0x1000, 0x9000),
        region(0x9000, 0xA000, MemoryKind::LoaderCode),
        conventional(0x10000, 0x20000),
    ];
    let mut allocator = BootFrameAllocator::new(map);
    for _ in 0..9 {
        assert!(allocator.allocate_frame().is_some());
    }
    let copy = allocator.clone();
    let first = allocator.construct_memory_map(4);
    let second = copy.construct_memory_map(4);
    assert_eq!(first, second);
    assert_eq!(
        first,
        vec![
            MemoryRegion { start: 0x1000, end: 0x9000, region_type: MemoryRegionType::Bootloader },
            MemoryRegion {
                start: 0x9000,
                end: 0xA000,
                region_type: MemoryRegionType::UnknownUefi(1),
            },
            MemoryRegion { start: 0x10000, end: 0x11000, region_type: MemoryRegionType::Bootloader },
            MemoryRegion { start: 0x11000, end: 0x20000, region_type: MemoryRegionType::Usable },
        ]
    );
}

#[test]
fn consolidated_map_covers_the_input() {
    let map = vec![
        conventional(0x1000, 0x9000),
        region(0x9000, 0xA000, MemoryKind::BootServicesData),
        conventional(0x10000, 0x20000),
    ];
    let mut allocator = BootFrameAllocator::new(map.clone());
    for _ in 0..3 {
        allocator.allocate_frame().unwrap();
    }
    let regions = allocator.construct_memory_map(4);
    let mut address = 0u64;
    while address < 0x21000 {
        let before = map.iter().any(|d| d.start <= address && address < d.start + d.len);
        let after = regions.iter().any(|r| r.start <= address && address < r.end);
        assert_eq!(before, after);
        address += 0x800;
    }
    for entry in &regions {
        if entry.region_type == MemoryRegionType::Bootloader {
            assert!(entry.end <= 0x4000);
        }
        if entry.region_type == MemoryRegionType::Usable {
            assert!(entry.start >= 0x4000);
        }
    }
}

#[test]
fn memory_map_that_does_not_fit_is_told() {
    let mut allocator = BootFrameAllocator::new(vec![conventional(0x1000, 0x9000)]);
    allocator.allocate_frame().unwrap();
    // The next frame divides the region: the map has two entries.
    assert!(!allocator.memory_map_fits(0));
    assert!(!allocator.memory_map_fits(1));
    assert!(allocator.memory_map_fits(2));
    assert!(allocator.memory_map_fits(u64::MAX));
    assert_eq!(allocator.construct_memory_map(2).len(), 2);
}

#[test]
fn every_firmware_kind_keeps_its_code() {
    let kinds = [
        (MemoryKind::LoaderCode, 1),
        (MemoryKind::LoaderData, 2),
        (MemoryKind::BootServicesCode, 3),
        (MemoryKind::BootServicesData, 4),
        (MemoryKind::RuntimeServicesCode, 5),
        (MemoryKind::RuntimeServicesData, 6),
        (MemoryKind::OtherFirmware(14), 14),
    ];
    for (kind, code) in kinds {
        assert_eq!(kind.code(), code);
        assert_eq!(MemoryKind::from_code(code), kind);
        let descriptor = region(0x1000, 0x2000, kind);
        assert_eq!(descriptor.region_type(), MemoryRegionType::UnknownUefi(code));
        let allocator = BootFrameAllocator::new(vec![descriptor]);
        assert_eq!(
            allocator.construct_memory_map(1),
            vec![MemoryRegion {
                start: 0x1000,
                end: 0x2000,
                region_type: MemoryRegionType::UnknownUefi(code),
            }]
        );
    }
    assert_eq!(MemoryKind::Conventional.code(), 7);
    assert_eq!(MemoryKind::from_code(7), MemoryKind::Conventional);
    let usable = conventional(0x1000, 0x2000);
    assert_eq!(usable.region_type(), MemoryRegionType::Usable);
    assert_eq!(usable.start(), 0x1000);
    assert_eq!(usable.len(), 0x1000);
}

#[test]
fn well_formed_memory_maps() {
    assert!(conventional(0x1000, 0x2000).is_well_formed());
    assert!(!MemoryDescriptor { start: 0x1001, len: 0x1000, kind: MemoryKind::Conventional }
        .is_well_formed());
    assert!(!MemoryDescriptor { start: 0x1000, len: 0, kind: MemoryKind::Conventional }
        .is_well_formed());
    assert!(!MemoryDescriptor {
        start: 0x10_0000_0000_0000 - 0x1000,
        len: 0x2000,
        kind: MemoryKind::Conventional,
    }
    .is_well_formed());
    assert!(is_well_formed_memory_map(&vec![conventional(0x1000, 0x2000)]));
    assert!(!is_well_formed_memory_map(&vec![
        conventional(0x1000, 0x2000),
        MemoryDescriptor { start: 0x3000, len: 0, kind: MemoryKind::LoaderData },
    ]));
}

#[test]
fn reserved_frames_are_handed_out_once_each() {
    let mut allocator = BootFrameAllocator::new(vec![conventional(0x1000, 0x9000)]);
    let mut reserved = ReservedFrames::new(&mut allocator).unwrap();
    assert_eq!(reserved.allocate_frame(), Some(0x1000));
    assert_eq!(reserved.allocate_frame(), Some(0x2000));
    assert_eq!(reserved.allocate_frame(), None);
    assert_eq!(allocator.allocate_frame(), Some(0x3000));
}

#[test]
fn reserved_frames_need_two_frames() {
    let mut allocator = BootFrameAllocator::new(vec![conventional(0x1000, 0x2000)]);
    assert!(ReservedFrames::new(&mut allocator).is_none());
}

#[test]
fn entries_of_a_map_without_overlaps_do_not_overlap() {
    let map = vec![
        conventional(0x1000, 0x9000),
        region(0x9000, 0xA000, MemoryKind::BootServicesData),
        conventional(0x10000, 0x20000),
    ];
    let mut allocator = BootFrameAllocator::new(map);
    for _ in 0..10 {
        allocator.allocate_frame().unwrap();
    }
    let regions = allocator.construct_memory_map(4);
    assert_eq!(regions.len(), 4);
    for (index, first) in regions.iter().enumerate() {
        for second in &regions[index + 1..] {
            assert!(first.end <= second.start || second.end <= first.start);
        }
    }
}
