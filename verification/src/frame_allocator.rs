//! The allocator of physical frames. It walks the conventional regions of the
//! firmware's memory map from low to high and never takes a frame back, so
//! that one address, the next frame, tells what the boot loader has consumed.

use vstd::prelude::*;
use crate::address::{containing_frame, frame_of, PAGE_SIZE};
use crate::boot_information::{MemoryRegion, MemoryRegionType};
use crate::memory_map::{
    consolidate, consolidate_region, entries_cover, map_covers, memory_map_disjoint, memory_map_wf,
    BootMemoryRegion, MemoryDescriptor,
};

verus! {

/// The first frame of a region.
pub open spec fn first_frame(region: MemoryDescriptor) -> int {
    frame_of(region.start as int)
}

/// The next frame once the allocator looks at `region`: it moves up to the
/// start of the region, never down.
pub open spec fn raised_mark(region: MemoryDescriptor, next_frame: int) -> int {
    if next_frame < first_frame(region) {
        first_frame(region)
    } else {
        next_frame
    }
}

/// Whether `region` has a frame to give to an allocator whose next frame is
/// `next_frame`: the frame at the next frame, once that has moved up to the
/// region, ends within the region.
pub open spec fn has_frame(region: MemoryDescriptor, next_frame: int) -> bool {
    raised_mark(region, next_frame) + 0x1000 <= region.end()
}

/// The state of the allocator.
pub struct AllocatorState {
    /// The memory map that the allocator was made with.
    pub regions: Seq<MemoryDescriptor>,
    /// How many regions of the map the allocator has looked at.
    pub cursor: int,
    /// The region from which the last frame came, while it may have more.
    pub current: Option<MemoryDescriptor>,
    /// Every frame that was handed out lies below this address.
    pub next_frame: int,
}

impl AllocatorState {
    pub open spec fn wf(self) -> bool {
        &&& memory_map_wf(self.regions)
        &&& 0 <= self.cursor <= self.regions.len()
        &&& self.next_frame % 0x1000 == 0
        &&& 0x1000 <= self.next_frame <= 0x10_0000_0000_0000
        &&& match self.current {
            Some(region) => region.is_conventional() && exists|i: int|
                0 <= i < self.cursor && self.regions[i] == region,
            None => true,
        }
    }

    /// Asks one region for a frame: the frame, if there is one, and the next frame afterwards.
    pub open spec fn take_from(self, region: MemoryDescriptor) -> (Option<int>, AllocatorState) {
        let mark = raised_mark(region, self.next_frame);
        if has_frame(region, self.next_frame) {
            (Some(mark), AllocatorState { next_frame: mark + 0x1000, ..self })
        } else {
            (None, AllocatorState { next_frame: mark, ..self })
        }
    }

    /// Walks on from the cursor to the first conventional region that has a
    /// frame to give, and makes it the current one.
    pub open spec fn scan(self) -> (Option<int>, AllocatorState)
        decreases self.regions.len() - self.cursor,
    {
        if self.cursor < 0 || self.cursor >= self.regions.len() {
            (None, self)
        } else {
            let region = self.regions[self.cursor];
            let advanced = AllocatorState { cursor: self.cursor + 1, ..self };
            if !region.is_conventional() {
                advanced.scan()
            } else {
                let (frame, taken) = advanced.take_from(region);
                if frame.is_some() {
                    (frame, AllocatorState { current: Some(region), ..taken })
                } else {
                    taken.scan()
                }
            }
        }
    }

    /// One allocation: the frame, if any is left, and the state afterwards.
    pub open spec fn allocate(self) -> (Option<int>, AllocatorState) {
        match self.current {
            Some(region) => {
                let (frame, taken) = self.take_from(region);
                if frame.is_some() {
                    (frame, taken)
                } else {
                    AllocatorState { current: None, ..taken }.scan()
                }
            },
            None => self.scan(),
        }
    }

    /// The allocation that follows `count` earlier ones.
    pub open spec fn nth_allocation(self, count: nat) -> (Option<int>, AllocatorState)
        decreases count,
    {
        if count == 0 {
            self.allocate()
        } else {
            self.nth_allocation((count - 1) as nat).1.allocate()
        }
    }

    /// Whether the allocator has looked at every region and holds on to
    /// none: it has no frame left to give.
    pub open spec fn exhausted(self) -> bool {
        self.current is None && self.cursor >= self.regions.len()
    }

    /// The state after `count` allocations.
    pub open spec fn after(self, count: nat) -> AllocatorState {
        if count == 0 {
            self
        } else {
            self.nth_allocation((count - 1) as nat).1
        }
    }

    /// Whether each of the next `count` allocations yields a frame.
    pub open spec fn can_allocate(self, count: nat) -> bool {
        forall|k: nat| k < count ==> (#[trigger] self.nth_allocation(k)).0 is Some
    }

    /// The frames of the next `count` allocations, in their order.
    pub open spec fn frames(self, count: nat) -> Seq<u64> {
        Seq::new(count, |k: int| self.nth_allocation(k as nat).0.unwrap() as u64)
    }

    /// Whether a frame lies in a conventional region of the map.
    pub open spec fn in_conventional_memory(self, frame: int) -> bool {
        exists|i: int|
            0 <= i < self.regions.len() && (#[trigger] self.regions[i]).is_conventional()
                && self.regions[i].holds_frame(frame)
    }
}

/// Asking a region for a frame keeps the state well formed and never lowers
/// the next frame. A frame that comes out is page-aligned, not below the
/// earlier next frame, and lies in the region; the next frame then is the one behind it.
pub proof fn lemma_take_from(state: AllocatorState, region: MemoryDescriptor)
    requires
        state.wf(),
        region.wf(),
    ensures
        state.take_from(region).1.wf(),
        state.take_from(region).1.next_frame >= state.next_frame,
        state.take_from(region).0 matches Some(frame) ==> {
            &&& frame % 0x1000 == 0
            &&& state.next_frame <= frame
            &&& region.holds_frame(frame)
            &&& state.take_from(region).1.next_frame == frame + 0x1000
        },
{
}

/// What holds of a walk from the cursor on.
proof fn lemma_scan(state: AllocatorState)
    requires
        state.wf(),
    ensures
        state.scan().1.wf(),
        state.scan().1.regions == state.regions,
        state.scan().1.next_frame >= state.next_frame,
        state.scan().0 matches Some(frame) ==> {
            &&& frame % 0x1000 == 0
            &&& state.next_frame <= frame
            &&& state.in_conventional_memory(frame)
            &&& state.scan().1.next_frame == frame + 0x1000
        },
        state.scan().0 is None ==> state.scan().1.current == state.current && state.scan().1.cursor
            == state.regions.len(),
    decreases state.regions.len() - state.cursor,
{
    if state.cursor < state.regions.len() {
        let region = state.regions[state.cursor];
        let advanced = AllocatorState { cursor: state.cursor + 1, ..state };
        assert(advanced.wf());
        if !region.is_conventional() {
            lemma_scan(advanced);
            assert(forall|frame: int|
                advanced.in_conventional_memory(frame) ==> state.in_conventional_memory(frame));
        } else {
            lemma_take_from(advanced, region);
            let (frame, taken) = advanced.take_from(region);
            if frame.is_some() {
                let found = AllocatorState { current: Some(region), ..taken };
                assert(found.regions[state.cursor] == region);
                assert(state.regions[state.cursor].holds_frame(frame.unwrap()));
            } else {
                lemma_scan(taken);
                assert(forall|frame: int|
                    taken.in_conventional_memory(frame) ==> state.in_conventional_memory(frame));
            }
        }
    }
}

/// Every frame that the allocator hands out is page-aligned, lies at or above
/// 0x1000 and above every frame handed out before, and lies in a conventional
/// region of the memory map. The memory map never changes, and the next frame
/// never moves down.
pub proof fn lemma_allocate(state: AllocatorState)
    requires
        state.wf(),
    ensures
        state.allocate().1.wf(),
        state.allocate().1.regions == state.regions,
        state.allocate().1.next_frame >= state.next_frame,
        state.allocate().0 matches Some(frame) ==> {
            &&& frame % 0x1000 == 0
            &&& 0x1000 <= state.next_frame <= frame
            &&& state.in_conventional_memory(frame)
            &&& state.allocate().1.next_frame == frame + 0x1000
        },
        state.allocate().0 is None ==> state.allocate().1.exhausted(),
        state.exhausted() ==> state.allocate() == (None::<int>, state),
{
    match state.current {
        Some(region) => {
            let i = choose|i: int| 0 <= i < state.cursor && state.regions[i] == region;
            assert(state.regions[i].wf());
            lemma_take_from(state, region);
            let (frame, taken) = state.take_from(region);
            if frame.is_some() {
                assert(state.regions[i].holds_frame(frame.unwrap()));
            } else {
                let rest = AllocatorState { current: None, ..taken };
                lemma_scan(rest);
                assert(forall|frame: int|
                    rest.in_conventional_memory(frame) ==> state.in_conventional_memory(frame));
            }
        },
        None => {
            lemma_scan(state);
        },
    }
}

/// After any number of allocations the state is well formed, the memory map
/// is the same, and the next frame is not below where it started.
pub proof fn lemma_nth_allocation(state: AllocatorState, count: nat)
    requires
        state.wf(),
    ensures
        state.nth_allocation(count).1.wf(),
        state.nth_allocation(count).1.regions == state.regions,
        state.nth_allocation(count).1.next_frame >= state.next_frame,
        state.nth_allocation(count).0 matches Some(frame) ==> {
            &&& 0x1000 <= state.next_frame <= frame
            &&& state.in_conventional_memory(frame)
            &&& state.nth_allocation(count).1.next_frame == frame + 0x1000
        },
    decreases count,
{
    if count == 0 {
        lemma_allocate(state);
    } else {
        lemma_nth_allocation(state, (count - 1) as nat);
        let before = state.nth_allocation((count - 1) as nat).1;
        lemma_allocate(before);
        assert(forall|frame: int|
            before.in_conventional_memory(frame) ==> state.in_conventional_memory(frame));
    }
}

/// Frames come out in strictly increasing order: of two frames of one
/// allocator the later one is the higher one.
pub proof fn lemma_allocation_order(state: AllocatorState, earlier: nat, later: nat)
    requires
        state.wf(),
        earlier < later,
        state.nth_allocation(earlier).0 is Some,
        state.nth_allocation(later).0 is Some,
    ensures
        state.nth_allocation(earlier).0.unwrap() < state.nth_allocation(later).0.unwrap(),
    decreases later,
{
    lemma_nth_allocation(state, earlier);
    let before = state.nth_allocation((later - 1) as nat).1;
    lemma_nth_allocation(state, (later - 1) as nat);
    lemma_allocate(before);
    if earlier < later - 1 {
        lemma_mark_grows(state, earlier, (later - 1) as nat);
    }
}

/// The state after any number of allocations is well formed, over the same
/// memory map, with a next frame that is not below the earlier one and lies
/// above every frame that was handed out.
pub proof fn lemma_after(state: AllocatorState, count: nat)
    requires
        state.wf(),
    ensures
        state.after(count).wf(),
        state.after(count).regions == state.regions,
        state.after(count).next_frame >= state.next_frame,
        state.nth_allocation(count) == state.after(count).allocate(),
        forall|k: nat|
            k < count && (#[trigger] state.nth_allocation(k)).0 is Some ==> state.nth_allocation(
                k,
            ).0.unwrap() + 0x1000 <= state.after(count).next_frame,
    decreases count,
{
    if count > 0 {
        let previous = (count - 1) as nat;
        lemma_after(state, previous);
        lemma_nth_allocation(state, previous);
        lemma_allocate(state.after(previous));
    }
}

/// What comes out after `first` allocations is what the state after them hands out.
proof fn lemma_allocation_shift(state: AllocatorState, first: nat, more: nat)
    ensures
        state.after(first).nth_allocation(more) == state.nth_allocation(first + more),
    decreases more,
{
    let rest = state.after(first);
    if more > 0 {
        lemma_allocation_shift(state, first, (more - 1) as nat);
        assert(rest.nth_allocation(more) == rest.nth_allocation((more - 1) as nat).1.allocate());
        assert(state.nth_allocation(first + more) == state.nth_allocation(
            (first + more - 1) as nat,
        ).1.allocate());
    }
}

/// Allocations compose: `first` allocations and then `more` are as many in one row.
pub proof fn lemma_allocations_compose(state: AllocatorState, first: nat, more: nat)
    ensures
        state.after(first).nth_allocation(more) == state.nth_allocation(first + more),
        state.after(first).after(more) == state.after(first + more),
        state.can_allocate(first + more) == (state.can_allocate(first) && state.after(
            first,
        ).can_allocate(more)),
        state.frames(first + more) == state.frames(first) + state.after(first).frames(more),
{
    let rest = state.after(first);
    lemma_allocation_shift(state, first, more);
    if more > 0 {
        lemma_allocation_shift(state, first, (more - 1) as nat);
    }
    assert forall|k: nat| k <= more implies #[trigger] rest.nth_allocation(k)
        == state.nth_allocation(first + k) by {
        lemma_allocation_shift(state, first, k);
    }
    if state.can_allocate(first + more) {
        assert forall|k: nat| k < first implies (#[trigger] state.nth_allocation(k)).0 is Some by {}
        assert forall|k: nat| k < more implies (#[trigger] rest.nth_allocation(k)).0 is Some by {
            assert(state.nth_allocation(first + k).0 is Some);
        }
    }
    if state.can_allocate(first) && rest.can_allocate(more) {
        assert forall|k: nat| k < first + more implies (#[trigger] state.nth_allocation(k)).0
            is Some by {
            if k >= first {
                let j = (k - first) as nat;
                assert(rest.nth_allocation(j).0 is Some);
                assert(state.nth_allocation(first + j) == state.nth_allocation(k));
            }
        }
    }
    assert(state.frames(first + more) =~= state.frames(first) + rest.frames(more)) by {
        assert forall|k: int| 0 <= k < first + more implies state.frames(first + more)[k] == (
        state.frames(first) + rest.frames(more))[k] by {
            if k >= first {
                let j = (k - first) as nat;
                assert(rest.nth_allocation(j) == state.nth_allocation(first + j));
                assert((first + j) as nat == k as nat);
            }
        }
    }
}

/// The next frame after a later allocation is not below the one after an earlier allocation.
proof fn lemma_mark_grows(state: AllocatorState, earlier: nat, later: nat)
    requires
        state.wf(),
        earlier <= later,
    ensures
        state.nth_allocation(earlier).1.next_frame <= state.nth_allocation(later).1.next_frame,
    decreases later,
{
    if earlier < later {
        lemma_mark_grows(state, earlier, (later - 1) as nat);
        lemma_nth_allocation(state, (later - 1) as nat);
        lemma_allocate(state.nth_allocation((later - 1) as nat).1);
    }
}

/// A well-formed map without its last region is well formed.
proof fn lemma_drop_last_wf(regions: Seq<MemoryDescriptor>)
    requires
        memory_map_wf(regions),
        regions.len() > 0,
    ensures
        memory_map_wf(regions.drop_last()),
{
    let rest = regions.drop_last();
    assert forall|i: int| 0 <= i < rest.len() implies (#[trigger] rest[i]).wf() by {
        assert(rest[i] == regions[i]);
    }
}

/// The number of regions that `next_free` divides.
pub open spec fn divided_count(regions: Seq<MemoryDescriptor>, next_free: int) -> nat
    decreases regions.len(),
{
    if regions.len() == 0 {
        0
    } else {
        let last = regions.last();
        let rest = divided_count(regions.drop_last(), next_free);
        if last.is_conventional() && last.start < next_free < last.end() {
            rest + 1
        } else {
            rest
        }
    }
}

/// The consolidated map has one entry for each region of the firmware's map
/// and one more for each region that the next frame divides.
pub proof fn lemma_consolidate_len(regions: Seq<MemoryDescriptor>, next_free: int)
    requires
        memory_map_wf(regions),
    ensures
        consolidate(regions, next_free).len() == regions.len() + divided_count(regions, next_free),
    decreases regions.len(),
{
    if regions.len() > 0 {
        lemma_drop_last_wf(regions);
        lemma_consolidate_len(regions.drop_last(), next_free);
        let last = regions.last();
        assert(regions[regions.len() - 1].wf());
        let tail = consolidate_region(last, next_free);
        if last.is_conventional() && last.start < next_free < last.end() {
            assert(tail.len() == 2);
        } else {
            assert(tail.len() == 1);
        }
    }
}

/// Where no two regions overlap, the next frame divides at most one of them,
/// so the consolidated map has at most one entry more than the firmware's map.
pub proof fn lemma_consolidate_fits(regions: Seq<MemoryDescriptor>, next_free: int)
    requires
        memory_map_wf(regions),
        memory_map_disjoint(regions),
    ensures
        consolidate(regions, next_free).len() <= regions.len() + 1,
{
    lemma_consolidate_len(regions, next_free);
    lemma_divided_once(regions, next_free);
}

proof fn lemma_divided_once(regions: Seq<MemoryDescriptor>, next_free: int)
    requires
        memory_map_wf(regions),
        memory_map_disjoint(regions),
    ensures
        divided_count(regions, next_free) <= 1,
        divided_count(regions, next_free) == 1 ==> exists|i: int|
            0 <= i < regions.len() && (#[trigger] regions[i]).start < next_free < regions[i].end(),
    decreases regions.len(),
{
    if regions.len() > 0 {
        let rest = regions.drop_last();
        lemma_drop_last_wf(regions);
        assert(memory_map_disjoint(rest)) by {
            assert forall|i: int, j: int| 0 <= i < j < rest.len() implies (#[trigger] rest[i]).end()
                <= (#[trigger] rest[j]).start || rest[j].end() <= rest[i].start by {
                assert(rest[i] == regions[i] && rest[j] == regions[j]);
            }
        }
        lemma_divided_once(rest, next_free);
        let last = regions.last();
        if last.is_conventional() && last.start < next_free < last.end() {
            if divided_count(rest, next_free) == 1 {
                let i = choose|i: int|
                    0 <= i < rest.len() && (#[trigger] rest[i]).start < next_free < rest[i].end();
                assert(rest[i] == regions[i]);
                assert(regions[i].end() <= regions[regions.len() - 1].start || regions[regions.len()
                    - 1].end() <= regions[i].start);
            }
            assert(regions[regions.len() - 1].start < next_free < regions[regions.len() - 1].end());
        } else if divided_count(rest, next_free) == 1 {
            let i = choose|i: int|
                0 <= i < rest.len() && (#[trigger] rest[i]).start < next_free < rest[i].end();
            assert(rest[i] == regions[i]);
        }
    }
}

/// The consolidated map covers exactly the addresses that the firmware's map
/// covers. Each of its entries starts before it ends. What it reports as the
/// boot loader's ends at or below the next frame, and what it reports as
/// usable starts at or above it.
pub proof fn lemma_consolidate_covers(regions: Seq<MemoryDescriptor>, next_free: int)
    requires
        memory_map_wf(regions),
        0 <= next_free <= 0x10_0000_0000_0000,
    ensures
        forall|addr: int| #[trigger]
            map_covers(regions, addr) == entries_cover(consolidate(regions, next_free), addr),
        forall|j: int|
            0 <= j < consolidate(regions, next_free).len() ==> {
                let entry = #[trigger] consolidate(regions, next_free)[j];
                &&& entry.start < entry.end
                &&& entry.region_type == MemoryRegionType::Bootloader ==> entry.end <= next_free
                &&& entry.region_type == MemoryRegionType::Usable ==> entry.start >= next_free
            },
    decreases regions.len(),
{
    if regions.len() > 0 {
        let rest = regions.drop_last();
        let last = regions.last();
        assert(regions[regions.len() - 1].wf());
        lemma_drop_last_wf(regions);
        lemma_consolidate_covers(rest, next_free);
        let head = consolidate(rest, next_free);
        let tail = consolidate_region(last, next_free);
        let all = consolidate(regions, next_free);
        assert(all == head + tail);
        assert forall|j: int| 0 <= j < all.len() implies {
            let entry = #[trigger] all[j];
            &&& entry.start < entry.end
            &&& entry.region_type == MemoryRegionType::Bootloader ==> entry.end <= next_free
            &&& entry.region_type == MemoryRegionType::Usable ==> entry.start >= next_free
        } by {
            if j < head.len() {
                assert(all[j] == head[j]);
            } else {
                assert(all[j] == tail[j - head.len()]);
            }
        }
        assert forall|addr: int| #[trigger]
            map_covers(regions, addr) == entries_cover(all, addr) by {
            assert(map_covers(rest, addr) == entries_cover(head, addr));
            let in_last = last.start <= addr < last.end();
            let in_tail = exists|k: int| 0 <= k < tail.len() && (#[trigger] tail[k]).contains(addr);
            assert(in_last <==> in_tail) by {
                if in_last {
                    if tail.len() == 2 && !tail[0].contains(addr) {
                        assert(tail[1].contains(addr));
                    } else {
                        assert(tail[0].contains(addr));
                    }
                }
            }
            if map_covers(regions, addr) {
                let i = choose|i: int| 0 <= i < regions.len() && (#[trigger] regions[i]).start
                    <= addr < regions[i].end();
                if i < rest.len() {
                    assert(rest[i] == regions[i]);
                    assert(map_covers(rest, addr));
                    let j = choose|j: int| 0 <= j < head.len() && (#[trigger] head[j]).contains(addr);
                    assert(all[j] == head[j]);
                } else {
                    let k = choose|k: int| 0 <= k < tail.len() && (#[trigger] tail[k]).contains(addr);
                    assert(all[head.len() + k] == tail[k]);
                }
            }
            if entries_cover(all, addr) {
                let j = choose|j: int| 0 <= j < all.len() && (#[trigger] all[j]).contains(addr);
                if j < head.len() {
                    assert(all[j] == head[j]);
                    assert(entries_cover(head, addr));
                    let i = choose|i: int| 0 <= i < rest.len() && (#[trigger] rest[i]).start <= addr
                        < rest[i].end();
                    assert(rest[i] == regions[i]);
                } else {
                    assert(all[j] == tail[j - head.len()]);
                    assert(regions[regions.len() - 1].start <= addr < regions[regions.len()
                        - 1].end());
                }
            }
        }
    }
}

/// No frame that lies below the next frame overlaps a usable entry of the
/// consolidated map: what the boot loader has taken is never offered to the kernel.
pub proof fn lemma_taken_frames_not_usable(
    regions: Seq<MemoryDescriptor>,
    next_free: int,
    frame: int,
)
    requires
        memory_map_wf(regions),
        0 <= next_free <= 0x10_0000_0000_0000,
        frame + 0x1000 <= next_free,
    ensures
        forall|j: int|
            0 <= j < consolidate(regions, next_free).len() && (#[trigger] consolidate(
                regions,
                next_free,
            )[j]).region_type == MemoryRegionType::Usable ==> frame + 0x1000 <= consolidate(
                regions,
                next_free,
            )[j].start,
{
    lemma_consolidate_covers(regions, next_free);
}

/// Whether `entry` is what the region at `index` of the firmware's map
/// consolidates to, or one of the two parts that it consolidates to.
pub open spec fn comes_from(
    entry: MemoryRegion,
    regions: Seq<MemoryDescriptor>,
    next_free: int,
    index: int,
) -> bool {
    &&& 0 <= index < regions.len()
    &&& consolidate_region(regions[index], next_free).contains(entry)
}

/// Whether `entry` comes from a region of the firmware's map.
pub open spec fn has_source(
    entry: MemoryRegion,
    regions: Seq<MemoryDescriptor>,
    next_free: int,
) -> bool {
    exists|i: int| comes_from(entry, regions, next_free, i)
}

/// Every entry of the consolidated map comes from a region of the firmware's
/// map, and what a region consolidates to is in the consolidated map.
pub proof fn lemma_consolidate_entries(regions: Seq<MemoryDescriptor>, next_free: int)
    ensures
        forall|entry: MemoryRegion| #[trigger]
            consolidate(regions, next_free).contains(entry) <==> has_source(
                entry,
                regions,
                next_free,
            ),
    decreases regions.len(),
{
    let all = consolidate(regions, next_free);
    if regions.len() > 0 {
        let rest = regions.drop_last();
        let last = regions.len() - 1;
        lemma_consolidate_entries(rest, next_free);
        let head = consolidate(rest, next_free);
        let tail = consolidate_region(regions.last(), next_free);
        assert(all == head + tail);
        assert forall|entry: MemoryRegion| #[trigger]
            all.contains(entry) <==> has_source(entry, regions, next_free) by {
            assert(head.contains(entry) <==> has_source(entry, rest, next_free));
            if all.contains(entry) {
                let j = choose|j: int| 0 <= j < all.len() && all[j] == entry;
                if j < head.len() {
                    assert(head[j] == entry);
                    let i = choose|i: int| comes_from(entry, rest, next_free, i);
                    assert(rest[i] == regions[i]);
                    assert(comes_from(entry, regions, next_free, i));
                } else {
                    assert(tail[j - head.len()] == entry);
                    assert(comes_from(entry, regions, next_free, last));
                }
            }
            if has_source(entry, regions, next_free) {
                let i = choose|i: int| comes_from(entry, regions, next_free, i);
                if i < last {
                    assert(rest[i] == regions[i]);
                    assert(comes_from(entry, rest, next_free, i));
                    let j = choose|j: int| 0 <= j < head.len() && head[j] == entry;
                    assert(all[j] == entry);
                } else {
                    let k = choose|k: int| 0 <= k < tail.len() && tail[k] == entry;
                    assert(all[head.len() + k] == entry);
                }
            }
        }
    } else {
        assert forall|entry: MemoryRegion| #[trigger]
            all.contains(entry) <==> has_source(entry, regions, next_free) by {
            if has_source(entry, regions, next_free) {
                let i = choose|i: int| comes_from(entry, regions, next_free, i);
            }
        }
    }
}

/// Where no two regions of the firmware's map overlap, no two entries of the
/// consolidated map do.
pub proof fn lemma_consolidate_disjoint(regions: Seq<MemoryDescriptor>, next_free: int)
    requires
        memory_map_wf(regions),
        memory_map_disjoint(regions),
        0 <= next_free <= 0x10_0000_0000_0000,
    ensures
        forall|j: int, k: int|
            0 <= j < k < consolidate(regions, next_free).len() ==> (#[trigger] consolidate(
                regions,
                next_free,
            )[j]).end <= (#[trigger] consolidate(regions, next_free)[k]).start || consolidate(
                regions,
                next_free,
            )[k].end <= consolidate(regions, next_free)[j].start,
    decreases regions.len(),
{
    if regions.len() > 0 {
        let rest = regions.drop_last();
        let last = regions.len() - 1;
        lemma_drop_last_wf(regions);
        assert(memory_map_disjoint(rest)) by {
            assert forall|i: int, j: int| 0 <= i < j < rest.len() implies (#[trigger] rest[i]).end()
                <= (#[trigger] rest[j]).start || rest[j].end() <= rest[i].start by {
                assert(rest[i] == regions[i] && rest[j] == regions[j]);
            }
        }
        lemma_consolidate_disjoint(rest, next_free);
        lemma_consolidate_entries(rest, next_free);
        let head = consolidate(rest, next_free);
        let tail = consolidate_region(regions.last(), next_free);
        let all = consolidate(regions, next_free);
        assert(all == head + tail);
        assert(regions[last].wf());
        assert forall|j: int, k: int| 0 <= j < k < all.len() implies (#[trigger] all[j]).end <= (
        #[trigger] all[k]).start || all[k].end <= all[j].start by {
            if k < head.len() {
                assert(all[j] == head[j] && all[k] == head[k]);
            } else if j < head.len() {
                assert(all[j] == head[j] && all[k] == tail[k - head.len()]);
                assert(head.contains(head[j]));
                let i = choose|i: int| comes_from(head[j], rest, next_free, i);
                let part = choose|part: int|
                    0 <= part < consolidate_region(rest[i], next_free).len() && consolidate_region(
                        rest[i],
                        next_free,
                    )[part] == head[j];
                assert(rest[i] == regions[i]);
                assert(regions[i].wf());
                assert(regions[i].end() <= regions[last].start || regions[last].end()
                    <= regions[i].start);
            } else {
                assert(all[j] == tail[j - head.len()] && all[k] == tail[k - head.len()]);
            }
        }
    }
}

/// A frame of conventional memory below the next frame lies in an entry of
/// the consolidated map that is reported as the boot loader's: every frame
/// that the allocator handed out is told to the kernel as taken.
pub proof fn lemma_taken_frames_reported(
    regions: Seq<MemoryDescriptor>,
    next_free: int,
    frame: int,
)
    requires
        memory_map_wf(regions),
        0 <= next_free <= 0x10_0000_0000_0000,
        frame + 0x1000 <= next_free,
        exists|i: int|
            0 <= i < regions.len() && (#[trigger] regions[i]).is_conventional()
                && regions[i].holds_frame(frame),
    ensures
        exists|j: int|
            {
                &&& 0 <= j < consolidate(regions, next_free).len()
                &&& (#[trigger] consolidate(regions, next_free)[j]).region_type
                    == MemoryRegionType::Bootloader
                &&& consolidate(regions, next_free)[j].start <= frame
                &&& frame + 0x1000 <= consolidate(regions, next_free)[j].end
            },
{
    let i = choose|i: int|
        0 <= i < regions.len() && (#[trigger] regions[i]).is_conventional()
            && regions[i].holds_frame(frame);
    assert(regions[i].wf());
    lemma_consolidate_entries(regions, next_free);
    let entry = consolidate_region(regions[i], next_free)[0];
    assert(entry.region_type == MemoryRegionType::Bootloader);
    assert(comes_from(entry, regions, next_free, i));
    assert(consolidate(regions, next_free).contains(entry));
    let j = choose|j: int|
        0 <= j < consolidate(regions, next_free).len() && consolidate(regions, next_free)[j]
            == entry;
    assert(consolidate(regions, next_free)[j].start <= frame);
}

/// Consolidation depends on the memory map and the next frame alone: two
/// allocators in the same state report the same map, entry for entry.
pub proof fn lemma_consolidate_deterministic(first: AllocatorState, second: AllocatorState)
    requires
        first.regions == second.regions,
        first.next_frame == second.next_frame,
    ensures
        consolidate(first.regions, first.next_frame) == consolidate(
            second.regions,
            second.next_frame,
        ),
{
}

/// The highest end of a region of the map, and 0 for an empty map.
pub open spec fn max_end(regions: Seq<MemoryDescriptor>) -> int
    decreases regions.len(),
{
    if regions.len() == 0 {
        0
    } else {
        let rest = max_end(regions.drop_last());
        if regions.last().end() > rest {
            regions.last().end()
        } else {
            rest
        }
    }
}

/// The highest end is the end of a region and not below any other.
pub proof fn lemma_max_end(regions: Seq<MemoryDescriptor>)
    ensures
        forall|i: int| 0 <= i < regions.len() ==> (#[trigger] regions[i]).end() <= max_end(regions),
        regions.len() > 0 ==> exists|i: int|
            0 <= i < regions.len() && (#[trigger] regions[i]).end() == max_end(regions),
        memory_map_wf(regions) && regions.len() > 0 ==> 0 < max_end(regions) <= 0x10_0000_0000_0000,
    decreases regions.len(),
{
    if regions.len() > 0 {
        let rest = regions.drop_last();
        lemma_max_end(rest);
        assert forall|i: int| 0 <= i < regions.len() implies (#[trigger] regions[i]).end()
            <= max_end(regions) by {
            if i < rest.len() {
                assert(rest[i] == regions[i]);
            }
        }
        if regions.last().end() > max_end(rest) {
            assert(regions[regions.len() - 1].end() == max_end(regions));
        } else if rest.len() > 0 {
            let i = choose|i: int| 0 <= i < rest.len() && (#[trigger] rest[i]).end() == max_end(rest);
            assert(rest[i] == regions[i]);
        } else {
            assert(regions[regions.len() - 1].end() == max_end(regions));
        }
        if memory_map_wf(regions) {
            assert(regions[regions.len() - 1].wf());
            lemma_drop_last_wf(regions);
        }
    }
}

/// Hands out the frames of conventional memory, from low addresses to high.
#[derive(Debug, Clone)]
pub struct BootFrameAllocator {
    memory_map: Vec<MemoryDescriptor>,
    cursor: usize,
    current_descriptor: Option<MemoryDescriptor>,
    next_frame: u64,
}

impl View for BootFrameAllocator {
    type V = AllocatorState;

    closed spec fn view(&self) -> AllocatorState {
        AllocatorState {
            regions: self.memory_map@,
            cursor: self.cursor as int,
            current: self.current_descriptor,
            next_frame: self.next_frame as int,
        }
    }
}

impl BootFrameAllocator {
    /// The invariant of the allocator: that of its state.
    pub open spec fn wf(&self) -> bool {
        self@.wf()
    }

    /// An allocator over the given memory map. The frame at address 0 is never
    /// handed out: the first frame that can come is the one at 0x1000.
    pub fn new(memory_map: Vec<MemoryDescriptor>) -> (allocator: Self)
        requires
            memory_map_wf(memory_map@),
        ensures
            allocator.wf(),
            allocator@ == (AllocatorState {
                regions: memory_map@,
                cursor: 0,
                current: None,
                next_frame: 0x1000,
            }),
    {
        Self { memory_map, cursor: 0, current_descriptor: None, next_frame: PAGE_SIZE }
    }

    /// Asks one region for a frame. The next frame first moves up to the start
    /// of the region if it lies below. If the frame there ends within the
    /// region, it is handed out and the next frame moves on by one frame.
    pub fn allocate_frame_from_descriptor(&mut self, descriptor: MemoryDescriptor) -> (frame:
        Option<u64>)
        requires
            old(self).wf(),
            descriptor.wf(),
        ensures
            final(self).wf(),
            final(self)@ == old(self)@.take_from(descriptor).1,
            frame.is_some() == has_frame(descriptor, old(self)@.next_frame),
            frame matches Some(start) ==> old(self)@.take_from(descriptor).0 == Some(start as int),
    {
        proof {
            lemma_take_from(self@, descriptor);
        }
        let start_address: u64 = descriptor.start();
        let start_frame: u64 = containing_frame(start_address);
        let end_address: u64 = start_address + descriptor.len();

        if self.next_frame < start_frame {
            self.next_frame = start_frame;
        }
        if self.next_frame + PAGE_SIZE <= end_address {
            let frame: u64 = self.next_frame;
            self.next_frame = self.next_frame + PAGE_SIZE;
            return Some(frame);
        }
        None
    }

    /// The next frame of conventional memory that was never handed out, or
    /// `None` once no region has one left. The frame lies at or above 0x1000,
    /// above every frame handed out before, and within a conventional region
    /// of the memory map.
    #[verifier::loop_isolation(false)]
    pub fn allocate_frame(&mut self) -> (frame: Option<u64>)
        requires
            old(self).wf(),
        ensures
            final(self).wf(),
            final(self)@ == old(self)@.allocate().1,
            frame.is_some() == old(self)@.allocate().0.is_some(),
            frame matches Some(start) ==> {
                &&& old(self)@.allocate().0 == Some(start as int)
                &&& start % 0x1000 == 0
                &&& 0x1000 <= old(self)@.next_frame <= start
                &&& old(self)@.in_conventional_memory(start as int)
                &&& final(self)@.next_frame == start + 0x1000
            },
            frame is None ==> final(self)@.exhausted(),
            final(self)@.regions == old(self)@.regions,
            final(self)@.next_frame >= old(self)@.next_frame,
    {
        proof {
            lemma_allocate(self@);
        }
        if let Some(current_descriptor) = self.current_descriptor {
            proof {
                let i = choose|i: int|
                    0 <= i < self@.cursor && self@.regions[i] == current_descriptor;
                assert(self@.regions[i].wf());
            }
            match self.allocate_frame_from_descriptor(current_descriptor) {
                Some(frame) => {
                    return Some(frame);
                },
                None => {
                    self.current_descriptor = None;
                },
            }
        }
        let ghost target = old(self)@.allocate();
        while self.cursor < self.memory_map.len()
            invariant
                self.wf(),
                self@.scan() == target,
                self.current_descriptor is None,
            decreases self.memory_map.len() - self.cursor,
        {
            let descriptor: MemoryDescriptor = self.memory_map[self.cursor];
            assert(self@.regions[self.cursor as int].wf());
            self.cursor = self.cursor + 1;
            if descriptor.region_type() != MemoryRegionType::Usable {
                continue ;
            }
            if let Some(frame) = self.allocate_frame_from_descriptor(descriptor) {
                self.current_descriptor = Some(descriptor);
                assert(self@.regions[self.cursor - 1] == descriptor);
                return Some(frame);
            }
        }
        None
    }

    /// The number of regions of the memory map. The consolidated map of a
    /// memory map without overlaps has at most one entry more.
    pub fn len(&self) -> (len: usize)
        ensures
            len == self@.regions.len(),
    {
        self.memory_map.len()
    }

    /// The address behind the highest region of the memory map.
    pub fn max_physical_address(&self) -> (address: u64)
        requires
            self.wf(),
            self@.regions.len() > 0,
        ensures
            address == max_end(self@.regions),
            0 < address <= 0x10_0000_0000_0000,
            forall|i: int|
                0 <= i < self@.regions.len() ==> (#[trigger] self@.regions[i]).end() <= address,
    {
        proof {
            lemma_max_end(self@.regions);
        }
        let mut address: u64 = 0;
        let mut index: usize = 0;
        while index < self.memory_map.len()
            invariant
                self.wf(),
                index <= self.memory_map.len(),
                address == max_end(self.memory_map@.take(index as int)),
            decreases self.memory_map.len() - index,
        {
            let descriptor: MemoryDescriptor = self.memory_map[index];
            assert(self@.regions[index as int].wf());
            assert(self.memory_map@.take(index + 1).drop_last() == self.memory_map@.take(index as int));
            let end: u64 = descriptor.start() + descriptor.len();
            if end > address {
                address = end;
            }
            index = index + 1;
        }
        assert(self.memory_map@.take(index as int) == self.memory_map@);
        address
    }

    /// Whether the consolidated memory map has room in a buffer that holds
    /// `capacity` entries.
    pub fn memory_map_fits(&self, capacity: u64) -> (fits: bool)
        requires
            self.wf(),
        ensures
            fits == (consolidate(self@.regions, self@.next_frame).len() <= capacity),
    {
        let next_free: u64 = self.next_frame;
        let mut count: u64 = 0;
        let mut index: usize = 0;
        while index < self.memory_map.len()
            invariant
                self.wf(),
                next_free == self.next_frame,
                index <= self.memory_map.len(),
                count == consolidate(self.memory_map@.take(index as int), next_free as int).len(),
                count <= capacity,
            decreases self.memory_map.len() - index,
        {
            let descriptor: MemoryDescriptor = self.memory_map[index];
            assert(self@.regions[index as int].wf());
            proof {
                lemma_consolidate_grows(self.memory_map@, index as int, next_free as int);
            }
            let end: u64 = descriptor.start() + descriptor.len();
            let divided: bool = descriptor.region_type() == MemoryRegionType::Usable
                && descriptor.start() < next_free && next_free < end;
            let entries: u64 = if divided {
                2
            } else {
                1
            };
            assert(consolidate_region(descriptor, next_free as int).len() == entries);
            if entries > capacity - count {
                return false;
            }
            count = count + entries;
            index = index + 1;
        }
        assert(self.memory_map@.take(index as int) == self.memory_map@);
        true
    }

    /// The consolidated memory map, for a buffer that holds `capacity`
    /// entries: the regions of the firmware's map in their order, with the
    /// conventional memory below the next frame reported as the boot loader's.
    /// The buffer has to hold the whole map.
    pub fn construct_memory_map(self, capacity: u64) -> (regions: Vec<MemoryRegion>)
        requires
            self.wf(),
            consolidate(self@.regions, self@.next_frame).len() <= capacity,
        ensures
            regions@ == consolidate(self@.regions, self@.next_frame),
    {
        let mut regions: Vec<MemoryRegion> = Vec::new();
        let next_free: u64 = self.next_frame;
        let mut index: usize = 0;
        while index < self.memory_map.len()
            invariant
                self.wf(),
                next_free == self.next_frame,
                index <= self.memory_map.len(),
                regions@ == consolidate(self.memory_map@.take(index as int), next_free as int),
                consolidate(self.memory_map@, next_free as int).len() <= capacity,
            decreases self.memory_map.len() - index,
        {
            let descriptor: MemoryDescriptor = self.memory_map[index];
            assert(self@.regions[index as int].wf());
            proof {
                lemma_consolidate_grows(self.memory_map@, index as int, next_free as int);
            }
            let ghost before = regions@;
            let ghost entries = consolidate_region(descriptor, next_free as int);
            let mut start: u64 = descriptor.start();
            let end: u64 = start + descriptor.len();
            let region_type = match descriptor.region_type() {
                MemoryRegionType::Usable => {
                    if end <= next_free {
                        MemoryRegionType::Bootloader
                    } else if descriptor.start() >= next_free {
                        MemoryRegionType::Usable
                    } else {
                        let used_region = MemoryRegion {
                            start: descriptor.start(),
                            end: next_free,
                            region_type: MemoryRegionType::Bootloader,
                        };
                        assert(entries.len() == 2);
                        Self::add_region(used_region, &mut regions, capacity);
                        start = next_free;
                        MemoryRegionType::Usable
                    }
                },
                other => other,
            };
            let region = MemoryRegion { start, end, region_type };
            assert(regions@.len() < before.len() + entries.len());
            Self::add_region(region, &mut regions, capacity);
            assert(regions@ == before + entries);
            index = index + 1;
        }
        assert(self.memory_map@.take(index as int) == self.memory_map@);
        regions
    }

    /// Appends an entry to a buffer that holds `capacity` entries and is not full.
    fn add_region(region: MemoryRegion, regions: &mut Vec<MemoryRegion>, capacity: u64)
        requires
            old(regions)@.len() < capacity,
        ensures
            final(regions)@ == old(regions)@.push(region),
    {
        regions.push(region);
    }
}

/// A longer prefix of the memory map consolidates to a longer map.
proof fn lemma_consolidate_grows(regions: Seq<MemoryDescriptor>, index: int, next_free: int)
    requires
        0 <= index < regions.len(),
    ensures
        consolidate(regions.take(index + 1), next_free) == consolidate(
            regions.take(index),
            next_free,
        ) + consolidate_region(regions[index], next_free),
        consolidate(regions.take(index + 1), next_free).len() <= consolidate(
            regions,
            next_free,
        ).len(),
    decreases regions.len() - index,
{
    assert(regions.take(index + 1).drop_last() == regions.take(index));
    if index + 1 < regions.len() {
        lemma_consolidate_grows(regions, index + 1, next_free);
    } else {
        assert(regions.take(index + 1) == regions);
    }
}

/// Two frames set aside before the memory map is consolidated, for the page
/// tables that the last mappings before the hand-over need.
#[derive(Debug, Clone, Copy)]
pub struct ReservedFrames {
    frames: [Option<u64>; 2],
}

impl View for ReservedFrames {
    type V = Seq<Option<u64>>;

    closed spec fn view(&self) -> Seq<Option<u64>> {
        self.frames@
    }
}

impl ReservedFrames {
    /// Takes two frames from the allocator. `None` exactly where the allocator
    /// cannot give two.
    pub fn new(frame_allocator: &mut BootFrameAllocator) -> (reserved: Option<Self>)
        requires
            old(frame_allocator).wf(),
        ensures
            final(frame_allocator).wf(),
            final(frame_allocator)@.regions == old(frame_allocator)@.regions,
            final(frame_allocator)@ == old(frame_allocator)@.nth_allocation(1).1,
            reserved.is_some() == (old(frame_allocator)@.nth_allocation(0).0 is Some && old(
                frame_allocator,
            )@.nth_allocation(1).0 is Some),
            reserved is None ==> final(frame_allocator)@.exhausted(),
            reserved matches Some(frames) ==> {
                &&& frames@.len() == 2
                &&& frames@[0] matches Some(first)
                &&& frames@[1] matches Some(second)
                &&& old(frame_allocator)@.nth_allocation(0).0 == Some(first as int)
                &&& old(frame_allocator)@.nth_allocation(1).0 == Some(second as int)
                &&& first < second
                &&& second + 0x1000 <= final(frame_allocator)@.next_frame
                &&& old(frame_allocator)@.in_conventional_memory(first as int)
                &&& old(frame_allocator)@.in_conventional_memory(second as int)
            },
    {
        proof {
            lemma_allocate(frame_allocator@);
            lemma_allocate(frame_allocator@.allocate().1);
            assert(frame_allocator@.nth_allocation(1) == frame_allocator@.nth_allocation(
                0,
            ).1.allocate());
        }
        let first = frame_allocator.allocate_frame();
        let second = frame_allocator.allocate_frame();
        match (first, second) {
            (Some(first), Some(second)) => Some(Self { frames: [Some(first), Some(second)] }),
            _ => None,
        }
    }

    /// The first reserved frame that was not handed out yet.
    pub fn allocate_frame(&mut self) -> (frame: Option<u64>)
        ensures
            final(self)@.len() == 2,
            old(self)@[0] is Some ==> frame == old(self)@[0] && final(self)@ == old(self)@.update(
                0,
                None,
            ),
            old(self)@[0] is None ==> frame == old(self)@[1] && final(self)@ == old(self)@.update(
                1,
                None,
            ),
    {
        if let Some(frame) = self.frames[0] {
            self.frames[0] = None;
            return Some(frame);
        }
        let frame = self.frames[1];
        self.frames[1] = None;
        frame
    }
}

} // verus!
