//! Loading the kernel: which pages of the kernel's address space get which
//! frames. The bytes that the image holds for a segment are mapped where they
//! lie; what the segment occupies beyond them is mapped to new frames that
//! read as zero.

use vstd::prelude::*;
use crate::address::{checked_align_up, containing_frame, frame_of, is_page_aligned, PAGE_SIZE};
use crate::frame_allocator::{
    lemma_after, lemma_allocations_compose, AllocatorState, BootFrameAllocator,
};
use crate::level_four::{claimed_by, LevelFourEntries};
use crate::mapping::{fresh_pages_operations, map_fresh_pages, Hierarchy, MapOperation, PageFlags};
use crate::segment::{segments_wf, ProgramHeader, SegmentType};

verus! {

/// Why a segment could not be mapped.
#[derive(Debug, Clone, Copy, PartialEq, Eq, Structural)]
pub enum MapError {
    /// The segment's addresses are out of range.
    InvalidSegment,
    /// The allocator ran out of frames.
    FrameExhaustion,
}

/// Why the kernel could not be loaded. Each of these is fatal to the boot.
#[derive(Debug, Clone, Copy, PartialEq, Eq, Structural)]
pub enum LoadError {
    /// The addresses of a loadable segment are out of range.
    InvalidSegment,
    /// The allocator ran out of frames.
    FrameExhaustion,
}

/// What the parser found in the kernel image.
#[derive(Debug, Clone)]
pub struct KernelImage {
    /// Whether the header passed the structural check of the parser.
    pub header_valid: bool,
    /// The virtual address at which the kernel starts to run.
    pub entry_point: u64,
    /// The program headers in the order of the image.
    pub program_headers: Vec<ProgramHeader>,
}

impl KernelImage {
    /// An image is accepted for loading where it lies at a multiple of the
    /// page size, and its header and each of its program headers have
    /// passed the structural checks. Any other image is fatal to the boot.
    pub open spec fn accepted(&self, kernel_offset: u64) -> bool {
        &&& kernel_offset % 0x1000 == 0
        &&& self.header_valid
        &&& forall|i: int|
            0 <= i < self.program_headers@.len() ==> (#[trigger] self.program_headers@[i]).valid
    }

    /// Whether the image is accepted for loading from `kernel_offset`.
    pub fn is_accepted(&self, kernel_offset: u64) -> (accepted: bool)
        ensures
            accepted == self.accepted(kernel_offset),
    {
        if !is_page_aligned(kernel_offset) || !self.header_valid {
            return false;
        }
        let mut index: usize = 0;
        while index < self.program_headers.len()
            invariant
                index <= self.program_headers@.len(),
                forall|i: int| 0 <= i < index ==> (#[trigger] self.program_headers@[i]).valid,
            decreases self.program_headers@.len() - index,
        {
            if !self.program_headers[index].valid {
                return false;
            }
            index = index + 1;
        }
        true
    }
}

/// The kernel, ready to be mapped.
#[derive(Debug)]
pub struct LoadedKernel {
    /// The virtual address at which the kernel starts to run.
    pub entry_point: u64,
    /// The top-level slots that the kernel's segments reach into, and slot 0.
    pub used_entries: LevelFourEntries,
    /// The operations that map the loadable segments, in the order of the image.
    pub operations: Vec<MapOperation>,
}

/// The operation that maps the frames of the image with bytes of the segment,
/// where the image holds any.
pub open spec fn file_operations(segment: ProgramHeader, kernel_offset: u64) -> Seq<MapOperation> {
    if segment.file_frame_count(kernel_offset) > 0 {
        seq![
            MapOperation::MapPages {
                hierarchy: Hierarchy::Kernel,
                page: frame_of(segment.virtual_addr as int) as u64,
                frame: frame_of(kernel_offset + segment.offset) as u64,
                count: segment.file_frame_count(kernel_offset) as u64,
                huge: false,
                flags: segment.flags(),
            },
        ]
    } else {
        Seq::empty()
    }
}

/// The operations for the page in which the bytes of the image end before the
/// page does. A new frame is filled with zero bytes; the bytes of the page up
/// to the end of the image's bytes are copied to it from the frame of the
/// image; then the page is unmapped and mapped again, to the new frame.
pub open spec fn tail_operations(segment: ProgramHeader, kernel_offset: u64, frame: u64) -> Seq<
    MapOperation,
> {
    let page = frame_of(segment.zero_start() - 1) as u64;
    seq![
        MapOperation::ZeroFrame { frame },
        MapOperation::CopyPrefix {
            source: frame_of(kernel_offset + segment.offset + segment.file_size - 1) as u64,
            target: frame,
            len: (segment.zero_start() % 0x1000) as u64,
        },
        MapOperation::UnmapPage { hierarchy: Hierarchy::Kernel, page },
        MapOperation::MapPages {
            hierarchy: Hierarchy::Kernel,
            page,
            frame,
            count: 1,
            huge: false,
            flags: segment.flags(),
        },
    ]
}

/// The operations that map a loadable segment, with `frames` as the new
/// frames in the order of their use: first the frames of the image, then the
/// page that the image's bytes fill in part, then each page behind it.
pub open spec fn segment_operations(
    segment: ProgramHeader,
    kernel_offset: u64,
    frames: Seq<u64>,
) -> Seq<MapOperation> {
    if segment.has_tail() {
        file_operations(segment, kernel_offset) + tail_operations(
            segment,
            kernel_offset,
            frames[0],
        ) + fresh_pages_operations(
            segment.bss_first_page(),
            frames.skip(1),
            segment.flags(),
            true,
            false,
        )
    } else {
        file_operations(segment, kernel_offset) + fresh_pages_operations(
            segment.bss_first_page(),
            frames,
            segment.flags(),
            true,
            false,
        )
    }
}

/// What mapping a segment comes to, for an allocator in the given state: the
/// operations and the state of the allocator afterwards, or the reason why
/// the segment cannot be mapped.
#[verifier::opaque]
pub open spec fn map_segment_result(
    segment: ProgramHeader,
    kernel_offset: u64,
    state: AllocatorState,
) -> Result<(Seq<MapOperation>, AllocatorState), MapError> {
    let count = segment.fresh_frame_count();
    if !segment.mappable(kernel_offset) {
        Err(MapError::InvalidSegment)
    } else if !state.can_allocate(count) {
        Err(MapError::FrameExhaustion)
    } else {
        Ok((segment_operations(segment, kernel_offset, state.frames(count)), state.after(count)))
    }
}

/// Appends the operation that maps the frames of the image with bytes of the segment.
fn map_file_frames(segment: &ProgramHeader, kernel_offset: u64, operations: &mut Vec<MapOperation>)
    requires
        segment.mappable(kernel_offset),
    ensures
        final(operations)@ == old(operations)@ + file_operations(*segment, kernel_offset),
{
    let physical_address: u64 = kernel_offset + segment.offset;
    let start_frame: u64 = containing_frame(physical_address);
    let end_frame: u64 = containing_frame(physical_address + segment.file_size - 1);
    let start_page: u64 = containing_frame(segment.virtual_addr);
    if start_frame <= end_frame {
        operations.push(
            MapOperation::MapPages {
                hierarchy: Hierarchy::Kernel,
                page: start_page,
                frame: start_frame,
                count: (end_frame - start_frame) / PAGE_SIZE + 1,
                huge: false,
                flags: segment_flags(segment),
            },
        );
    }
}

/// The permissions of the segment's pages.
fn segment_flags(segment: &ProgramHeader) -> (flags: PageFlags)
    ensures
        flags == segment.flags(),
{
    PageFlags { present: true, writable: segment.writable, no_execute: !segment.executable }
}

/// Appends the operations that put `new_frame` in the place of the frame of
/// the image in which the segment's bytes end.
fn substitute_tail_frame(
    segment: &ProgramHeader,
    kernel_offset: u64,
    new_frame: u64,
    operations: &mut Vec<MapOperation>,
)
    requires
        segment.mappable(kernel_offset),
        segment.has_tail(),
    ensures
        final(operations)@ == old(operations)@ + tail_operations(
            *segment,
            kernel_offset,
            new_frame,
        ),
{
    let physical_address: u64 = kernel_offset + segment.offset;
    let image_frame: u64 = containing_frame(physical_address + segment.file_size - 1);
    let zero_start: u64 = segment.virtual_addr + segment.file_size;
    let last_page: u64 = containing_frame(zero_start - 1);
    operations.push(MapOperation::ZeroFrame { frame: new_frame });
    operations.push(
        MapOperation::CopyPrefix {
            source: image_frame,
            target: new_frame,
            len: zero_start % PAGE_SIZE,
        },
    );
    operations.push(MapOperation::UnmapPage { hierarchy: Hierarchy::Kernel, page: last_page });
    operations.push(
        MapOperation::MapPages {
            hierarchy: Hierarchy::Kernel,
            page: last_page,
            frame: new_frame,
            count: 1,
            huge: false,
            flags: segment_flags(segment),
        },
    );
}

/// The first of the pages behind the image's bytes, and their number.
#[verifier::rlimit(40)]
fn zero_pages(segment: &ProgramHeader, kernel_offset: u64) -> (pages: (u64, u64))
    requires
        segment.mappable(kernel_offset),
        segment.mem_size > segment.file_size,
    ensures
        pages.0 == segment.bss_first_page(),
        pages.1 == segment.bss_page_count(),
        pages.0 + pages.1 * 0x1000 <= 0x1_0000_0000_0000_0000,
{
    let zero_start: u64 = segment.virtual_addr + segment.file_size;
    let zero_end: u64 = segment.virtual_addr + segment.mem_size;
    let first_page: u64 = match checked_align_up(zero_start, PAGE_SIZE) {
        Some(page) => page,
        None => {
            proof {
                assert(false);
            }
            0
        },
    };
    let end_page: u64 = containing_frame(zero_end);
    let count: u64 = if first_page <= end_page {
        (end_page - first_page) / PAGE_SIZE + 1
    } else {
        0
    };
    (first_page, count)
}

/// Whether the image's bytes end before the page does in which they end.
fn ends_within_page(segment: &ProgramHeader, kernel_offset: u64) -> (tail: bool)
    requires
        segment.mappable(kernel_offset),
    ensures
        tail == segment.has_tail(),
{
    segment.mem_size > segment.file_size && (segment.virtual_addr + segment.file_size) % PAGE_SIZE
        != 0
}

/// One allocation and then `count` more are `count + 1` allocations in a row.
proof fn lemma_one_and_more(start: AllocatorState, count: nat)
    requires
        start.wf(),
    ensures
        start.after(1) == start.allocate().1,
        start.nth_allocation(0) == start.allocate(),
        start.can_allocate(1 + count) == (start.allocate().0 is Some && start.after(
            1,
        ).can_allocate(count)),
        start.allocate().0 is Some ==> start.frames(1 + count)[0] == start.allocate().0.unwrap() as u64,
        start.frames(1 + count).skip(1) == start.after(1).frames(count),
        start.after(1).after(count) == start.after(1 + count),
        start.can_allocate(0),
        start.frames(0) == Seq::<u64>::empty(),
        start.after(0) == start,
{
    lemma_allocations_compose(start, 1, count);
    if start.allocate().0 is Some {
        assert forall|k: nat| k < 1 implies (#[trigger] start.nth_allocation(k)).0 is Some by {
            assert(k == 0);
        }
    }
    if start.can_allocate(1) {
        assert(start.nth_allocation(0).0 is Some);
    }
    let all = start.frames(1 + count);
    assert(all == start.frames(1) + start.after(1).frames(count));
    assert(all.skip(1) == start.after(1).frames(count));
    assert(start.frames(0) == Seq::<u64>::empty());
}

/// Plans the mapping of one loadable segment into the kernel's hierarchy.
///
/// The frames of the image that hold bytes of the segment are mapped from the
/// segment's first page on. Where the segment occupies more memory than the
/// image holds for it, the rest is backed by frames from the allocator, which
/// are filled with zero bytes before they are mapped.
#[verifier::rlimit(40)]
pub fn lightsaber_map_segment(
    segment: &ProgramHeader,
    kernel_offset: u64,
    frame_allocator: &mut BootFrameAllocator,
) -> (result: Result<Vec<MapOperation>, MapError>)
    requires
        old(frame_allocator).wf(),
    ensures
        final(frame_allocator).wf(),
        final(frame_allocator)@.regions == old(frame_allocator)@.regions,
        final(frame_allocator)@.next_frame >= old(frame_allocator)@.next_frame,
        match result {
            Ok(operations) => map_segment_result(*segment, kernel_offset, old(frame_allocator)@)
                == Ok::<_, MapError>((operations@, final(frame_allocator)@)),
            Err(error) => map_segment_result(*segment, kernel_offset, old(frame_allocator)@)
                == Err::<(Seq<MapOperation>, AllocatorState), _>(error),
        },
        result matches Err(MapError::InvalidSegment) ==> final(frame_allocator)@ == old(
            frame_allocator,
        )@,
        result matches Err(MapError::FrameExhaustion) ==> final(frame_allocator)@.exhausted(),
{
    reveal(map_segment_result);
    if !segment.is_mappable(kernel_offset) {
        return Err(MapError::InvalidSegment);
    }
    let ghost start = frame_allocator@;
    let mut operations: Vec<MapOperation> = Vec::new();
    map_file_frames(segment, kernel_offset, &mut operations);
    assert(operations@ == file_operations(*segment, kernel_offset));

    if segment.mem_size > segment.file_size {
        let tail: bool = ends_within_page(segment, kernel_offset);
        let (first_page, count) = zero_pages(segment, kernel_offset);
        proof {
            lemma_one_and_more(start, count as nat);
        }
        if tail {
            let new_frame: u64 = match frame_allocator.allocate_frame() {
                Some(frame) => frame,
                None => {
                    return Err(MapError::FrameExhaustion);
                },
            };
            substitute_tail_frame(segment, kernel_offset, new_frame, &mut operations);
            assert(segment.fresh_frame_count() == 1 + count);
        } else {
            assert(segment.fresh_frame_count() == count);
        }
        let complete: bool = map_fresh_pages(
            frame_allocator,
            first_page,
            count,
            segment_flags(segment),
            true,
            false,
            &mut operations,
        );
        if !complete {
            return Err(MapError::FrameExhaustion);
        }
    } else {
        proof {
            lemma_one_and_more(start, 0);
            assert(segment.fresh_frame_count() == 0);
        }
    }
    Ok(operations)
}

/// What loading the program headers comes to, one after the other: the
/// operations for every loadable segment in the order of the image and the
/// state of the allocator afterwards, or the first reason to stop.
pub open spec fn load_segments_result(
    headers: Seq<ProgramHeader>,
    kernel_offset: u64,
    state: AllocatorState,
) -> Result<(Seq<MapOperation>, AllocatorState), LoadError>
    decreases headers.len(),
{
    if headers.len() == 0 {
        Ok((Seq::empty(), state))
    } else {
        match load_segments_result(headers.drop_last(), kernel_offset, state) {
            Err(error) => Err(error),
            Ok((operations, reached)) => {
                let header = headers.last();
                if !header.is_load() {
                    Ok((operations, reached))
                } else {
                    match map_segment_result(header, kernel_offset, reached) {
                        Err(MapError::InvalidSegment) => Err(LoadError::InvalidSegment),
                        Err(MapError::FrameExhaustion) => Err(LoadError::FrameExhaustion),
                        Ok((more, after)) => Ok((operations + more, after)),
                    }
                }
            },
        }
    }
}

/// Where loading succeeds, every loadable segment has a well-formed range of addresses.
proof fn lemma_loaded_segments_wf(
    headers: Seq<ProgramHeader>,
    kernel_offset: u64,
    state: AllocatorState,
)
    requires
        load_segments_result(headers, kernel_offset, state) is Ok,
    ensures
        segments_wf(headers),
    decreases headers.len(),
{
    if headers.len() > 0 {
        reveal(map_segment_result);
        let rest = headers.drop_last();
        lemma_loaded_segments_wf(rest, kernel_offset, state);
        assert forall|i: int| 0 <= i < headers.len() && (#[trigger] headers[i]).is_load() implies
            headers[i].range_wf() by {
            if i < rest.len() {
                assert(rest[i] == headers[i]);
            }
        }
    }
}

/// Plans the loading of the kernel from the image at the physical address
/// `kernel_offset`: the operations that map every loadable segment, and the
/// top-level slots that are taken afterwards. The image has to be accepted
/// for loading: one that is not ends the boot before anything is mapped.
#[verifier::rlimit(40)]
pub fn lightsaber_load_system_kernel(
    frame_allocator: &mut BootFrameAllocator,
    image: &KernelImage,
    kernel_offset: u64,
) -> (result: Result<LoadedKernel, LoadError>)
    requires
        old(frame_allocator).wf(),
        image.accepted(kernel_offset),
    ensures
        final(frame_allocator).wf(),
        final(frame_allocator)@.regions == old(frame_allocator)@.regions,
        final(frame_allocator)@.next_frame >= old(frame_allocator)@.next_frame,
        match result {
            Ok(kernel) => {
                &&& load_segments_result(
                image.program_headers@,
                kernel_offset,
                old(frame_allocator)@,
            ) == Ok::<_, LoadError>(
                    (kernel.operations@, final(frame_allocator)@),
                )
                &&& kernel.entry_point == image.entry_point
                &&& kernel.used_entries.wf()
                &&& forall|slot: int|
                    0 <= slot < 512 ==> kernel.used_entries@[slot] == claimed_by(
                        image.program_headers@,
                        slot,
                    )
            },
            Err(error) => load_segments_result(
                image.program_headers@,
                kernel_offset,
                old(frame_allocator)@,
            ) == Err::<
                (Seq<MapOperation>, AllocatorState),
                _,
            >(error),
        },
        result matches Err(LoadError::FrameExhaustion) ==> final(frame_allocator)@.exhausted(),
{
    let ghost start = frame_allocator@;
    let mut operations: Vec<MapOperation> = Vec::new();
    let mut index: usize = 0;
    while index < image.program_headers.len()
        invariant
            index <= image.program_headers.len(),
            start == old(frame_allocator)@,
            frame_allocator.wf(),
            frame_allocator@.regions == start.regions,
            frame_allocator@.next_frame >= start.next_frame,
            load_segments_result(image.program_headers@.take(index as int), kernel_offset, start)
                == Ok::<_, LoadError>((operations@, frame_allocator@)),
        decreases image.program_headers.len() - index,
    {
        let program_header: ProgramHeader = image.program_headers[index];
        let ghost longer = image.program_headers@.take(index + 1);
        assert(longer.drop_last() == image.program_headers@.take(index as int));
        assert(longer.last() == program_header);
        proof {
            lemma_load_grows(image.program_headers@, index as int, kernel_offset, start);
        }
        match program_header.segment_type {
            SegmentType::Load => {
                match lightsaber_map_segment(&program_header, kernel_offset, frame_allocator) {
                    Ok(mut more) => {
                        operations.append(&mut more);
                    },
                    Err(MapError::InvalidSegment) => {
                        return Err(LoadError::InvalidSegment);
                    },
                    Err(MapError::FrameExhaustion) => {
                        return Err(LoadError::FrameExhaustion);
                    },
                }
            },
            SegmentType::Other => {},
        }
        index = index + 1;
    }
    assert(image.program_headers@.take(index as int) == image.program_headers@);
    proof {
        lemma_loaded_segments_wf(image.program_headers@, kernel_offset, start);
    }
    let used_entries = LevelFourEntries::new(&image.program_headers);
    Ok(LoadedKernel { entry_point: image.entry_point, used_entries, operations })
}

/// Where the headers up to one fail to load, so do all the headers.
proof fn lemma_load_grows(
    headers: Seq<ProgramHeader>,
    index: int,
    kernel_offset: u64,
    state: AllocatorState,
)
    requires
        0 <= index < headers.len(),
    ensures
        load_segments_result(headers.take(index + 1), kernel_offset, state) matches Err(error)
            ==> load_segments_result(headers, kernel_offset, state) == Err::<
            (Seq<MapOperation>, AllocatorState),
            _,
        >(error),
    decreases headers.len() - index,
{
    if index + 1 < headers.len() {
        assert(headers.take(index + 2).drop_last() == headers.take(index + 1));
        lemma_load_grows(headers, index + 1, kernel_offset, state);
    } else {
        assert(headers.take(index + 1) == headers);
    }
}

/// Every page of a loadable segment is mapped with the permissions of the
/// segment: present, writable exactly where the segment is writable, and
/// executable exactly where the segment is executable.
pub proof fn lemma_segment_flags(
    segment: ProgramHeader,
    kernel_offset: u64,
    frames: Seq<u64>,
    index: int,
)
    requires
        0 <= index < segment_operations(segment, kernel_offset, frames).len(),
    ensures
        segment_operations(segment, kernel_offset, frames)[index] matches MapOperation::MapPages {
            hierarchy,
            flags,
            ..
        } ==> {
            &&& hierarchy == Hierarchy::Kernel
            &&& flags.present
            &&& flags.no_execute == !segment.executable
            &&& flags.writable == segment.writable
        },
{
    let file = file_operations(segment, kernel_offset);
    if segment.has_tail() {
        let tail = tail_operations(segment, kernel_offset, frames[0]);
        lemma_fresh_pages_flags(
            segment.bss_first_page(),
            frames.skip(1),
            segment.flags(),
            true,
            false,
            index - file.len() - tail.len(),
        );
    } else {
        lemma_fresh_pages_flags(
            segment.bss_first_page(),
            frames,
            segment.flags(),
            true,
            false,
            index - file.len(),
        );
    }
}

/// Pages that get frames of their own are all mapped with the same permissions.
proof fn lemma_fresh_pages_flags(
    first_page: int,
    frames: Seq<u64>,
    flags: PageFlags,
    zero: bool,
    shared: bool,
    index: int,
)
    ensures
        0 <= index < fresh_pages_operations(first_page, frames, flags, zero, shared).len() ==> (
        fresh_pages_operations(first_page, frames, flags, zero, shared)[index] matches MapOperation::MapPages {
            hierarchy,
            flags: mapped,
            ..
        } ==> mapped == flags && (!shared ==> hierarchy == Hierarchy::Kernel)),
    decreases frames.len(),
{
    if frames.len() > 0 {
        let rest = fresh_pages_operations(first_page, frames.drop_last(), flags, zero, shared);
        lemma_fresh_pages_flags(first_page, frames.drop_last(), flags, zero, shared, index);
    }
}

} // verus!
