use lightsaber::frame_allocator::BootFrameAllocator;
use lightsaber::loader::{
    lightsaber_load_system_kernel, lightsaber_map_segment, KernelImage, LoadError, MapError,
};
use lightsaber::mapping::{Hierarchy, MapOperation, PageFlags};
use lightsaber::memory_map::{MemoryDescriptor, MemoryKind};
use lightsaber::segment::{ProgramHeader, SegmentType};

fn allocator(start: u64, end: u64) -> BootFrameAllocator {
    BootFrameAllocator::new(vec![MemoryDescriptor {
        start,
        len: end - start,
        kind: MemoryKind::Conventional,
    }])
}

fn segment(virtual_addr: u64, offset: u64, file_size: u64, mem_size: u64) -> ProgramHeader {
    ProgramHeader {
        segment_type: SegmentType::Load,
        valid: true,
        offset,
        virtual_addr,
        file_size,
        mem_size,
        executable: false,
        writable: true,
    }
}

fn map(page: u64, frame: u64, count: u64, flags: PageFlags) -> MapOperation {
    MapOperation::MapPages { hierarchy: Hierarchy::Kernel, page, frame, count, huge: false, flags }
}

const DATA: PageFlags = PageFlags { present: true, writable: true, no_execute: true };

#[test]
fn segment_whose_bytes_end_within_a_page() {
    let mut frames = allocator(0x1000, 0x100000);
    let header = segment(0x400000, 0, 0x1234, 0x5000);
    let operations = lightsaber_map_segment(&header, 0x200000, &mut frames).unwrap();
    assert_eq!(
        operations,
        vec![
            // The pages from 0x400000 to 0x402000 get the frames of the image.
            map(0x400000, 0x200000, 2, DATA),
            // The page at 0x401000 gets a new frame with the first 0x234 bytes
            // of the frame of the image, and zero behind them.
            MapOperation::ZeroFrame { frame: 0x1000 },
            MapOperation::CopyPrefix { source: 0x201000, target: 0x1000, len: 0x234 },
            MapOperation::UnmapPage { hierarchy: Hierarchy::Kernel, page: 0x401000 },
            map(0x401000, 0x1000, 1, DATA),
            // The pages from 0x402000 up to the one at 0x405000 get new frames.
            MapOperation::ZeroFrame { frame: 0x2000 },
            map(0x402000, 0x2000, 1, DATA),
            MapOperation::ZeroFrame { frame: 0x3000 },
            map(0x403000, 0x3000, 1, DATA),
            MapOperation::ZeroFrame { frame: 0x4000 },
            map(0x404000, 0x4000, 1, DATA),
            MapOperation::ZeroFrame { frame: 0x5000 },
            map(0x405000, 0x5000, 1, DATA),
        ]
    );
    assert_eq!(frames.allocate_frame(), Some(0x6000));
}

#[test]
fn segment_without_memory_beyond_the_image() {
    let mut frames = allocator(0x1000, 0x100000);
    let header = ProgramHeader {
        executable: true,
        writable: false,
        ..segment(0xFFFF_8000_0000_0000, 0x1000, 0x3000, 0x3000)
    };
    let operations = lightsaber_map_segment(&header, 0x200000, &mut frames).unwrap();
    let code = PageFlags { present: true, writable: false, no_execute: false };
    assert_eq!(operations, vec![map(0xFFFF_8000_0000_0000, 0x201000, 3, code)]);
    assert_eq!(frames.allocate_frame(), Some(0x1000));
}

#[test]
fn segment_whose_bytes_end_at_a_page_boundary() {
    let mut frames = allocator(0x1000, 0x100000);
    let header = segment(0x400000, 0, 0x1000, 0x2800);
    let operations = lightsaber_map_segment(&header, 0x200000, &mut frames).unwrap();
    assert_eq!(
        operations,
        vec![
            map(0x400000, 0x200000, 1, DATA),
            MapOperation::ZeroFrame { frame: 0x1000 },
            map(0x401000, 0x1000, 1, DATA),
            MapOperation::ZeroFrame { frame: 0x2000 },
            map(0x402000, 0x2000, 1, DATA),
        ]
    );
}

#[test]
fn flags_follow_the_segment() {
    for executable in [false, true] {
        for writable in [false, true] {
            let mut frames = allocator(0x1000, 0x100000);
            let header =
                ProgramHeader { executable, writable, ..segment(0x400000, 0, 0x1234, 0x5000) };
            let operations = lightsaber_map_segment(&header, 0x200000, &mut frames).unwrap();
            let mut mapped = 0;
            for operation in operations {
                if let MapOperation::MapPages { hierarchy, flags, .. } = operation {
                    assert_eq!(hierarchy, Hierarchy::Kernel);
                    assert!(flags.present);
                    assert_eq!(flags.no_execute, !executable);
                    assert_eq!(flags.writable, writable);
                    mapped += 1;
                }
            }
            assert_eq!(mapped, 6);
        }
    }
}

#[test]
fn segment_out_of_range_is_refused() {
    let mut frames = allocator(0x1000, 0x100000);
    // The segment ends in the hole between the two halves of the address space.
    let header = segment(0x7FFF_FFFF_F000, 0, 0x1000, 0x1000);
    assert_eq!(
        lightsaber_map_segment(&header, 0x200000, &mut frames),
        Err(MapError::InvalidSegment)
    );
    assert!(!header.is_mappable(0x200000));
    // The bytes of the image lie behind the last physical address.
    let header = segment(0x400000, 0x10_0000_0000_0000, 0x1000, 0x1000);
    assert_eq!(
        lightsaber_map_segment(&header, 0x200000, &mut frames),
        Err(MapError::InvalidSegment)
    );
    assert_eq!(frames.allocate_frame(), Some(0x1000));
}

#[test]
fn segment_that_needs_more_frames_than_there_are() {
    let mut frames = allocator(0x1000, 0x4000);
    let header = segment(0x400000, 0, 0x1234, 0x5000);
    assert!(header.is_mappable(0x200000));
    assert_eq!(
        lightsaber_map_segment(&header, 0x200000, &mut frames),
        Err(MapError::FrameExhaustion)
    );
}

fn image(program_headers: Vec<ProgramHeader>) -> KernelImage {
    KernelImage { header_valid: true, entry_point: 0x400080, program_headers }
}

#[test]
fn kernel_with_two_segments() {
    let mut frames = allocator(0x1000, 0x100000);
    let text = ProgramHeader {
        executable: true,
        writable: false,
        ..segment(0x400000, 0, 0x2000, 0x2000)
    };
    let note = ProgramHeader { segment_type: SegmentType::Other, ..segment(0, 0x100, 0x20, 0x20) };
    let data = segment(0x402000, 0x2000, 0x800, 0x1000);
    let kernel =
        lightsaber_load_system_kernel(&mut frames, &image(vec![text, note, data]), 0x200000)
            .unwrap();
    assert_eq!(kernel.entry_point, 0x400080);
    let code = PageFlags { present: true, writable: false, no_execute: false };
    assert_eq!(
        kernel.operations,
        vec![
            map(0x400000, 0x200000, 2, code),
            map(0x402000, 0x202000, 1, DATA),
            MapOperation::ZeroFrame { frame: 0x1000 },
            MapOperation::CopyPrefix { source: 0x202000, target: 0x1000, len: 0x800 },
            MapOperation::UnmapPage { hierarchy: Hierarchy::Kernel, page: 0x402000 },
            map(0x402000, 0x1000, 1, DATA),
            MapOperation::ZeroFrame { frame: 0x2000 },
            map(0x403000, 0x2000, 1, DATA),
        ]
    );
    let mut used_entries = kernel.used_entries;
    assert_eq!(used_entries.get_free_entry(), 1);
}

#[test]
fn kernel_image_that_is_not_page_aligned() {
    assert!(image(Vec::new()).is_accepted(0x200000));
    assert!(!image(Vec::new()).is_accepted(0x200800));
}

#[test]
fn kernel_image_with_a_bad_header() {
    let bad = KernelImage { header_valid: false, ..image(Vec::new()) };
    assert!(!bad.is_accepted(0x200000));
}

#[test]
fn kernel_image_with_a_bad_program_header() {
    let good = segment(0x500000, 0, 0x1000, 0x1000);
    let bad = ProgramHeader { valid: false, ..segment(0x400000, 0, 0x1000, 0x1000) };
    assert!(image(vec![good, good]).is_accepted(0x200000));
    assert!(!image(vec![good, bad]).is_accepted(0x200000));
    assert!(!image(vec![bad, good]).is_accepted(0x200000));
}

#[test]
fn kernel_image_with_a_segment_out_of_range() {
    let mut frames = allocator(0x1000, 0x100000);
    let result = lightsaber_load_system_kernel(
        &mut frames,
        &image(vec![segment(0x8000_0000_0000, 0, 0x1000, 0x1000)]),
        0x200000,
    );
    assert_eq!(result.err(), Some(LoadError::InvalidSegment));
}

#[test]
fn kernel_image_that_needs_too_many_frames() {
    let mut frames = allocator(0x1000, 0x3000);
    let result = lightsaber_load_system_kernel(
        &mut frames,
        &image(vec![segment(0x400000, 0, 0x1000, 0x8000)]),
        0x200000,
    );
    assert_eq!(result.err(), Some(LoadError::FrameExhaustion));
}

/// A page table and a physical memory to perform plans on.
struct Simulation {
    pages: std::collections::HashMap<u64, u64>,
    memory: std::collections::HashMap<u64, Vec<u8>>,
}

impl Simulation {
    fn frame(&mut self, frame: u64) -> &mut Vec<u8> {
        // Memory that nobody wrote holds whatever was there: here, 0xEE.
        self.memory.entry(frame).or_insert_with(|| vec![0xEE; 0x1000])
    }

    fn perform(&mut self, operations: &[MapOperation]) {
        for operation in operations {
            match *operation {
                MapOperation::MapPages { page, frame, count, huge, .. } => {
                    assert!(!huge);
                    for index in 0..count {
                        let previous = self.pages.insert(page + index * 0x1000, frame + index * 0x1000);
                        assert_eq!(previous, None);
                    }
                }
                MapOperation::UnmapPage { page, .. } => {
                    assert!(self.pages.remove(&page).is_some());
                }
                MapOperation::ZeroFrame { frame } => {
                    self.frame(frame).fill(0);
                }
                MapOperation::CopyPrefix { source, target, len } => {
                    let prefix = self.frame(source)[..len as usize].to_vec();
                    self.frame(target)[..len as usize].copy_from_slice(&prefix);
                }
            }
        }
    }

    fn read(&mut self, address: u64) -> Option<u8> {
        let frame = *self.pages.get(&(address & !0xFFF))?;
        Some(self.frame(frame)[(address & 0xFFF) as usize])
    }
}

#[test]
fn memory_behind_the_image_reads_as_zero() {
    let mut simulation = Simulation {
        pages: std::collections::HashMap::new(),
        memory: std::collections::HashMap::new(),
    };
    // The image lies at 0x200000; its bytes count up.
    for frame in [0x200000u64, 0x201000, 0x202000] {
        let bytes = (0..0x1000u64).map(|offset| ((frame + offset) % 251) as u8).collect();
        simulation.memory.insert(frame, bytes);
    }
    let mut frames = allocator(0x1000, 0x100000);
    let header = segment(0x400000, 0, 0x1234, 0x5000);
    let operations = lightsaber_map_segment(&header, 0x200000, &mut frames).unwrap();
    simulation.perform(&operations);
    for offset in 0..0x1234u64 {
        assert_eq!(simulation.read(0x400000 + offset), Some(((0x200000 + offset) % 251) as u8));
    }
    for offset in 0x1234..0x5000u64 {
        assert_eq!(simulation.read(0x400000 + offset), Some(0));
    }
    // The frame of the image still holds what the image holds behind the segment.
    assert_eq!(simulation.memory[&0x201000][0x234], ((0x201234u64) % 251) as u8);
    // The page of the address behind the segment is mapped as well.
    assert_eq!(simulation.read(0x405000), Some(0));
    assert_eq!(simulation.read(0x406000), None);
}

#[test]
fn empty_segment_with_memory() {
    // No byte in the image, three pages in memory.
    let mut frames = allocator(0x1000, 0x100000);
    let header = segment(0x400000, 0x1000, 0, 0x2001);
    let operations = lightsaber_map_segment(&header, 0x200000, &mut frames).unwrap();
    assert_eq!(
        operations,
        vec![
            MapOperation::ZeroFrame { frame: 0x1000 },
            map(0x400000, 0x1000, 1, DATA),
            MapOperation::ZeroFrame { frame: 0x2000 },
            map(0x401000, 0x2000, 1, DATA),
            MapOperation::ZeroFrame { frame: 0x3000 },
            map(0x402000, 0x3000, 1, DATA),
        ]
    );
}
