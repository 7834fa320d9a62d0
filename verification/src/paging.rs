//! The two page-table hierarchies of the boot sequence.

use vstd::prelude::*;
use crate::frame_allocator::{lemma_after, AllocatorState, BootFrameAllocator};

verus! {

/// The frames of the two top-level page tables. Physical memory is mapped at
/// offset 0 while the boot loader runs, so a frame is reached at its own address.
#[derive(Debug, Clone, Copy, PartialEq, Eq, Structural)]
pub struct PageTables {
    /// The top-level table of the boot hierarchy. Its slot 0 is that of the
    /// firmware's table; every other slot is empty at first.
    pub boot_level_four_frame: u64,
    /// The top-level table of the kernel's hierarchy. It is empty at first.
    pub kernel_level_four_frame: u64,
}

/// Takes the frames for the two top-level page tables: the first frame that
/// the allocator gives for the boot hierarchy, the second for the kernel's.
/// `None` exactly where the allocator cannot give two frames.
pub fn lightsaber_initialize_paging(frame_allocator: &mut BootFrameAllocator) -> (page_tables:
    Option<PageTables>)
    requires
        old(frame_allocator).wf(),
    ensures
        final(frame_allocator).wf(),
        final(frame_allocator)@.regions == old(frame_allocator)@.regions,
        final(frame_allocator)@.next_frame >= old(frame_allocator)@.next_frame,
        page_tables.is_some() == old(frame_allocator)@.can_allocate(2),
        page_tables is None ==> final(frame_allocator)@.exhausted(),
        page_tables matches Some(tables) ==> {
            &&& tables.boot_level_four_frame == old(frame_allocator)@.frames(2)[0]
            &&& tables.kernel_level_four_frame == old(frame_allocator)@.frames(2)[1]
            &&& tables.boot_level_four_frame < tables.kernel_level_four_frame
            &&& final(frame_allocator)@ == old(frame_allocator)@.after(2)
        },
{
    let ghost start = frame_allocator@;
    proof {
        lemma_after(start, 0);
        lemma_after(start, 1);
        lemma_after(start, 2);
    }
    let new_frame: u64 = match frame_allocator.allocate_frame() {
        Some(frame) => frame,
        None => {
            assert(start.nth_allocation(0).0 is None);
            return None;
        },
    };
    let frame: u64 = match frame_allocator.allocate_frame() {
        Some(frame) => frame,
        None => {
            assert(start.nth_allocation(1).0 is None);
            return None;
        },
    };
    proof {
        lemma_first_two(start);
    }
    Some(PageTables { boot_level_four_frame: new_frame, kernel_level_four_frame: frame })
}

/// Two allocations that succeed are the first two of the state.
pub proof fn lemma_first_two(state: AllocatorState)
    requires
        state.nth_allocation(0).0 is Some,
        state.nth_allocation(1).0 is Some,
    ensures
        state.can_allocate(2),
{
    assert forall|k: nat| k < 2 implies (#[trigger] state.nth_allocation(k)).0 is Some by {
        if k != 0 {
            assert(k == 1);
        }
    }
}

} // verus!
