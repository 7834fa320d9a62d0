//! The operations on page tables and physical memory that the boot loader
//! asks for. The library decides which operations are due and in what order;
//! the caller performs them.

use vstd::prelude::*;
use crate::address::PAGE_SIZE;
use crate::frame_allocator::{lemma_after, BootFrameAllocator};

verus! {

/// The permissions of a mapping.
#[derive(Debug, Clone, Copy, PartialEq, Eq, Structural)]
pub struct PageFlags {
    pub present: bool,
    pub writable: bool,
    pub no_execute: bool,
}

/// The two page-table hierarchies of the boot sequence.
#[derive(Debug, Clone, Copy, PartialEq, Eq, Structural)]
pub enum Hierarchy {
    /// The hierarchy that is installed until the hand-over. Its slot 0 is the
    /// firmware's identity map.
    Boot,
    /// The hierarchy that the kernel starts in.
    Kernel,
}

/// One step for the caller to perform.
#[derive(Debug, Clone, Copy, PartialEq, Eq, Structural)]
pub enum MapOperation {
    /// Map `count` pages in a row, from the page at `page` on, to as many
    /// frames in a row, from the frame at `frame` on. Pages and frames have
    /// 2 MiB where `huge` is set and 4 KiB otherwise.
    MapPages { hierarchy: Hierarchy, page: u64, frame: u64, count: u64, huge: bool, flags: PageFlags },
    /// Remove the mapping of the 4 KiB page at `page`.
    UnmapPage { hierarchy: Hierarchy, page: u64 },
    /// Fill the 4 KiB frame at `frame` with zero bytes.
    ZeroFrame { frame: u64 },
    /// Copy the first `len` bytes of the frame at `source` to the start of the frame at `target`.
    CopyPrefix { source: u64, target: u64, len: u64 },
}

/// Present and writable, not executable: the permissions of data.
pub open spec fn data_flags() -> PageFlags {
    PageFlags { present: true, writable: true, no_execute: true }
}

/// Present and nothing else.
pub open spec fn present_flags() -> PageFlags {
    PageFlags { present: true, writable: false, no_execute: false }
}

/// The operations for one page that gets a frame of its own. Where `zero` is
/// set the frame is first filled with zero bytes. The page is mapped in the
/// kernel's hierarchy and, where `shared` is set, to the same frame in the
/// boot hierarchy too.
pub open spec fn fresh_page_operations(
    page: u64,
    frame: u64,
    flags: PageFlags,
    zero: bool,
    shared: bool,
) -> Seq<MapOperation> {
    let clear = if zero {
        seq![MapOperation::ZeroFrame { frame }]
    } else {
        Seq::empty()
    };
    let kernel = seq![
        MapOperation::MapPages {
            hierarchy: Hierarchy::Kernel,
            page,
            frame,
            count: 1,
            huge: false,
            flags,
        },
    ];
    let boot = if shared {
        seq![
            MapOperation::MapPages {
                hierarchy: Hierarchy::Boot,
                page,
                frame,
                count: 1,
                huge: false,
                flags,
            },
        ]
    } else {
        Seq::empty()
    };
    clear + kernel + boot
}

/// The operations that give each of the pages in a row from `first_page` on a
/// frame of its own: the first page the first of `frames`, and so on.
pub open spec fn fresh_pages_operations(
    first_page: int,
    frames: Seq<u64>,
    flags: PageFlags,
    zero: bool,
    shared: bool,
) -> Seq<MapOperation>
    decreases frames.len(),
{
    if frames.len() == 0 {
        Seq::empty()
    } else {
        let page = (first_page + (frames.len() - 1) * 0x1000) as u64;
        fresh_pages_operations(first_page, frames.drop_last(), flags, zero, shared)
            + fresh_page_operations(page, frames.last(), flags, zero, shared)
    }
}

/// Takes a frame for each of `count` pages in a row and appends the
/// operations that map them. Returns whether the allocator had a frame for
/// every page. Where it had not, it has none left, and the operations for
/// the pages that got a frame follow the earlier ones.
pub fn map_fresh_pages(
    frame_allocator: &mut BootFrameAllocator,
    first_page: u64,
    count: u64,
    flags: PageFlags,
    zero: bool,
    shared: bool,
    operations: &mut Vec<MapOperation>,
) -> (complete: bool)
    requires
        old(frame_allocator).wf(),
        first_page + count * 0x1000 <= 0x1_0000_0000_0000_0000,
    ensures
        final(frame_allocator).wf(),
        final(frame_allocator)@.regions == old(frame_allocator)@.regions,
        final(frame_allocator)@.next_frame >= old(frame_allocator)@.next_frame,
        complete == old(frame_allocator)@.can_allocate(count as nat),
        !complete ==> final(frame_allocator)@.exhausted(),
        complete ==> final(frame_allocator)@ == old(frame_allocator)@.after(count as nat),
        complete ==> final(operations)@ == old(operations)@ + fresh_pages_operations(
            first_page as int,
            old(frame_allocator)@.frames(count as nat),
            flags,
            zero,
            shared,
        ),
        old(operations)@.is_prefix_of(final(operations)@),
{
    let ghost start = frame_allocator@;
    let mut done: u64 = 0;
    while done < count
        invariant
            done <= count,
            start.wf(),
            start == old(frame_allocator)@,
            first_page + count * 0x1000 <= 0x1_0000_0000_0000_0000,
            frame_allocator.wf(),
            frame_allocator@ == start.after(done as nat),
            start.can_allocate(done as nat),
            operations@ == old(operations)@ + fresh_pages_operations(
                first_page as int,
                start.frames(done as nat),
                flags,
                zero,
                shared,
            ),
        decreases count - done,
    {
        proof {
            lemma_after(start, done as nat);
            lemma_after(start, (done + 1) as nat);
        }
        let frame: u64 = match frame_allocator.allocate_frame() {
            Some(frame) => frame,
            None => {
                assert(start.nth_allocation(done as nat).0 is None);
                return false;
            },
        };
        let page: u64 = first_page + done * PAGE_SIZE;
        let ghost before = operations@;
        if zero {
            operations.push(MapOperation::ZeroFrame { frame });
        }
        operations.push(
            MapOperation::MapPages {
                hierarchy: Hierarchy::Kernel,
                page,
                frame,
                count: 1,
                huge: false,
                flags,
            },
        );
        if shared {
            operations.push(
                MapOperation::MapPages {
                    hierarchy: Hierarchy::Boot,
                    page,
                    frame,
                    count: 1,
                    huge: false,
                    flags,
                },
            );
        }
        proof {
            let longer = start.frames((done + 1) as nat);
            assert(longer.drop_last() == start.frames(done as nat));
            assert(longer.last() == frame);
            assert(operations@ == before + fresh_page_operations(page, frame, flags, zero, shared));
            assert forall|k: nat| k < done + 1 implies (#[trigger] start.nth_allocation(k)).0 is Some by {
                if k < done {
                } else {
                    assert(k == done);
                }
            }
        }
        done = done + 1;
    }
    proof {
        lemma_after(start, count as nat);
    }
    true
}

} // verus!
