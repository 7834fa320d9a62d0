use lightsaber::address::{
    canonical, checked_align_up, containing_frame, containing_huge_frame, is_page_aligned,
    room_in_half, slot_address, slot_index,
};
use lightsaber::level_four::LevelFourEntries;
use lightsaber::segment::{ProgramHeader, SegmentType};

fn load_segment(virtual_addr: u64, mem_size: u64) -> ProgramHeader {
    ProgramHeader {
        segment_type: SegmentType::Load,
        valid: true,
        offset: 0,
        virtual_addr,
        file_size: mem_size,
        mem_size,
        executable: false,
        writable: false,
    }
}

#[test]
fn slots_of_a_kernel_in_the_upper_half() {
    // Slot 256 starts at the first address of the upper half.
    let segments = vec![
        load_segment(0xFFFF_8000_0000_0000, 0x5000),
        load_segment(0xFFFF_8000_0020_0000, 0x1_0000),
    ];
    let mut entries = LevelFourEntries::new(&segments);
    assert_eq!(entries.get_free_entry(), 1);
    assert_eq!(entries.get_free_entry(), 2);
    assert_eq!(entries.get_free_entry(), 3);
    assert_eq!(entries.get_free_entry(), 4);
}

#[test]
fn slots_of_segments_are_never_handed_out() {
    let segments = vec![
        load_segment(0x80_0000_0000, 0x1000),
        // From slot 3 into slot 4.
        load_segment(0x200_0000_0000 - 0x1000, 0x2000),
        ProgramHeader { segment_type: SegmentType::Other, ..load_segment(0x100_0000_0000, 0x1000) },
    ];
    let mut entries = LevelFourEntries::new(&segments);
    // Slot 2 is free: only loadable segments take slots.
    assert_eq!(entries.get_free_entry(), 2);
    assert_eq!(entries.get_free_entry(), 5);
    let mut seen = vec![2u16, 5];
    while entries.has_free_entry() {
        let index = entries.get_free_entry();
        assert!(index != 0 && index != 1 && index != 3 && index != 4);
        assert!(!seen.contains(&index));
        seen.push(index);
    }
    assert_eq!(seen.len(), 512 - 4);
}

#[test]
fn all_free_slots_come_out_in_order() {
    let mut entries = LevelFourEntries::new(&Vec::new());
    for expected in 1..512u16 {
        assert!(entries.has_free_entry());
        assert_eq!(entries.get_free_entry(), expected);
    }
    assert!(!entries.has_free_entry());
}

#[test]
fn free_addresses_are_canonical_slot_starts() {
    let mut entries = LevelFourEntries::new(&vec![load_segment(0x1000, 0x1000)]);
    assert_eq!(entries.get_free_address(), 0x80_0000_0000);
    assert_eq!(entries.get_free_address(), 0x100_0000_0000);
    for _ in 3..256 {
        entries.get_free_entry();
    }
    // Slot 256 is the first of the upper half: its address is sign-extended.
    assert_eq!(entries.get_free_address(), 0xFFFF_8000_0000_0000);
}

#[test]
fn address_arithmetic() {
    assert_eq!(containing_frame(0x1234), 0x1000);
    assert_eq!(containing_frame(0x1000), 0x1000);
    assert_eq!(containing_huge_frame(0x3F_FFFF), 0x20_0000);
    assert!(is_page_aligned(0x2000));
    assert!(!is_page_aligned(0x2001));
    assert_eq!(checked_align_up(0x1001, 0x1000), Some(0x2000));
    assert_eq!(checked_align_up(0x1000, 0x1000), Some(0x1000));
    assert_eq!(checked_align_up(96, 8), Some(96));
    assert_eq!(checked_align_up(u64::MAX, 0x1000), None);
    assert!(canonical(0x7FFF_FFFF_FFFF));
    assert!(!canonical(0x8000_0000_0000));
    assert!(!canonical(0xFFFF_7FFF_FFFF_FFFF));
    assert!(canonical(0xFFFF_8000_0000_0000));
    assert_eq!(slot_index(0x400000), 0);
    assert_eq!(slot_index(0xFFFF_8000_0000_0000), 256);
    assert_eq!(slot_index(0xFFFF_FFFF_FFFF_FFFF), 511);
    assert_eq!(slot_address(1), 0x80_0000_0000);
    assert_eq!(slot_address(511), 0xFFFF_FF80_0000_0000);
    assert_eq!(room_in_half(0x7FFF_FFFF_F000), 0x1000);
    assert_eq!(room_in_half(0xFFFF_FFFF_FFFF_F000), 0x1000);
}

#[test]
fn segment_ranges() {
    assert!(load_segment(0x400000, 0x5000).has_valid_range());
    assert!(load_segment(0xFFFF_8000_0000_0000, 0x5000).has_valid_range());
    // Ends in the hole between the halves.
    assert!(!load_segment(0x7FFF_FFFF_F000, 0x1000).has_valid_range());
    // Starts in the hole.
    assert!(!load_segment(0x8000_0000_0000, 0x1000).has_valid_range());
    // Ends behind the address space.
    assert!(!load_segment(0xFFFF_FFFF_FFFF_F000, 0x1000).has_valid_range());
}
