//! What the operations do to a machine: a model of the two page-table
//! hierarchies and of physical memory, and what the plans of the boot loader
//! achieve on it.

use vstd::prelude::*;
use crate::address::{
    align_up, frame_of, half_end, huge_frame_of, lemma_frame_within, lemma_page_below,
    lemma_page_distance, slot_start,
};
use crate::frame_allocator::AllocatorState;
use crate::level_four::{has_free, lemma_lowest_free, lowest_free};
use crate::layout::{
    boot_information_layout, direct_map_frame_count, direct_map_operation, placement_result,
    shared_flags,
};
use crate::loader::{file_operations, segment_operations, tail_operations};
use crate::mapping::{
    fresh_page_operations, fresh_pages_operations, Hierarchy, MapOperation, PageFlags,
};
use crate::segment::ProgramHeader;

verus! {

/// The translation of one page.
pub struct Translation {
    /// The frame that the page is mapped to.
    pub frame: int,
    pub flags: PageFlags,
    /// Whether the page has 2 MiB.
    pub huge: bool,
}

/// The state of the machine as far as the boot loader changes it.
pub struct Machine {
    /// The pages of the boot hierarchy, each under its first address.
    pub boot: Map<int, Translation>,
    /// The pages of the kernel's hierarchy, each under its first address.
    pub kernel: Map<int, Translation>,
    /// The byte at each physical address.
    pub memory: spec_fn(int) -> u8,
}

/// The size of a page in bytes.
pub open spec fn page_size(huge: bool) -> int {
    if huge {
        0x20_0000
    } else {
        0x1000
    }
}

/// Whether `p` is one of `count` pages in a row from `page` on.
pub open spec fn in_run(p: int, page: int, count: int, huge: bool) -> bool {
    page <= p < page + count * page_size(huge) && (p - page) % page_size(huge) == 0
}

impl Machine {
    /// The pages of a hierarchy.
    pub open spec fn table(self, hierarchy: Hierarchy) -> Map<int, Translation> {
        match hierarchy {
            Hierarchy::Boot => self.boot,
            Hierarchy::Kernel => self.kernel,
        }
    }

    /// The machine with other pages in a hierarchy.
    pub open spec fn with_table(self, hierarchy: Hierarchy, table: Map<int, Translation>) -> Machine {
        match hierarchy {
            Hierarchy::Boot => Machine { boot: table, ..self },
            Hierarchy::Kernel => Machine { kernel: table, ..self },
        }
    }

    /// Mapping pages in a row fails where one of them is mapped already.
    /// Otherwise each page is mapped to the frame at the same distance from
    /// the first frame as the page has from the first page.
    pub open spec fn map_pages(
        self,
        hierarchy: Hierarchy,
        page: int,
        frame: int,
        count: int,
        huge: bool,
        flags: PageFlags,
    ) -> Option<Machine> {
        let table = self.table(hierarchy);
        if exists|p: int| in_run(p, page, count, huge) && table.dom().contains(p) {
            None
        } else {
            Some(
                self.with_table(
                    hierarchy,
                    Map::new(
                        |p: int| in_run(p, page, count, huge) || table.dom().contains(p),
                        |p: int|
                            if in_run(p, page, count, huge) {
                                Translation { frame: frame + (p - page), flags, huge }
                            } else {
                                table[p]
                            },
                    ),
                ),
            )
        }
    }

    /// What one operation does. An operation fails where it maps a page that
    /// is mapped, or unmaps one that is not.
    pub open spec fn apply(self, operation: MapOperation) -> Option<Machine> {
        match operation {
            MapOperation::MapPages { hierarchy, page, frame, count, huge, flags } => self.map_pages(
                hierarchy,
                page as int,
                frame as int,
                count as int,
                huge,
                flags,
            ),
            MapOperation::UnmapPage { hierarchy, page } => if self.table(hierarchy).dom().contains(
                page as int,
            ) && !self.table(hierarchy)[page as int].huge {
                Some(self.with_table(hierarchy, self.table(hierarchy).remove(page as int)))
            } else {
                None
            },
            MapOperation::ZeroFrame { frame } => Some(
                Machine {
                    memory: |a: int|
                        if frame <= a < frame + 0x1000 {
                            0u8
                        } else {
                            (self.memory)(a)
                        },
                    ..self
                },
            ),
            MapOperation::CopyPrefix { source, target, len } => Some(
                Machine {
                    memory: |a: int|
                        if target <= a < target + len {
                            (self.memory)(source + (a - target))
                        } else {
                            (self.memory)(a)
                        },
                    ..self
                },
            ),
        }
    }

    /// What the operations do, one after the other.
    pub open spec fn apply_all(self, operations: Seq<MapOperation>) -> Option<Machine>
        decreases operations.len(),
    {
        if operations.len() == 0 {
            Some(self)
        } else {
            match self.apply_all(operations.drop_last()) {
                Some(reached) => reached.apply(operations.last()),
                None => None,
            }
        }
    }

    /// The physical address that a virtual address is translated to.
    pub open spec fn translate(self, hierarchy: Hierarchy, address: int) -> Option<int> {
        let table = self.table(hierarchy);
        let page = frame_of(address);
        let huge_page = huge_frame_of(address);
        if table.dom().contains(page) && !table[page].huge {
            Some(table[page].frame + (address - page))
        } else if table.dom().contains(huge_page) && table[huge_page].huge {
            Some(table[huge_page].frame + (address - huge_page))
        } else {
            None
        }
    }

    /// The byte that a read from a virtual address gives.
    pub open spec fn read(self, hierarchy: Hierarchy, address: int) -> Option<u8> {
        match self.translate(hierarchy, address) {
            Some(physical) => Some((self.memory)(physical)),
            None => None,
        }
    }

    /// Whether a page of 4 KiB is mapped to a frame.
    pub open spec fn maps(self, hierarchy: Hierarchy, page: int, frame: int) -> bool {
        &&& self.table(hierarchy).dom().contains(page)
        &&& self.table(hierarchy)[page].frame == frame
        &&& !self.table(hierarchy)[page].huge
    }

    /// Whether a page of 4 KiB has the frame and the permissions that it was
    /// planned with: in the kernel's hierarchy and, where it is shared, in the
    /// boot hierarchy too, and reading as zero where the frame was cleared.
    pub open spec fn settled(
        self,
        page: int,
        frame: int,
        flags: PageFlags,
        zero: bool,
        shared: bool,
    ) -> bool {
        &&& self.maps(Hierarchy::Kernel, page, frame)
        &&& self.kernel[page].flags == flags
        &&& shared ==> self.maps(Hierarchy::Boot, page, frame)
        &&& zero ==> self.zero_from(frame, 0)
    }

    /// Whether the page at the place `k` of a row of pages from `first_page`
    /// on has the frame at the same place of `frames`.
    pub open spec fn run_settled(
        self,
        first_page: int,
        frames: Seq<u64>,
        k: int,
        flags: PageFlags,
        zero: bool,
        shared: bool,
    ) -> bool {
        self.settled(first_page + k * 0x1000, frames[k] as int, flags, zero, shared)
    }

    /// Whether the frame reads as zero from the offset `from` on.
    pub open spec fn zero_from(self, frame: int, from: int) -> bool {
        forall|a: int| frame + from <= a < frame + 0x1000 ==> #[trigger] (self.memory)(a) == 0
    }

    /// Whether what is mapped in `self` is mapped in `later` as well, and what
    /// reads as zero in `self` reads as zero in `later`.
    pub open spec fn kept_by(self, later: Machine) -> bool {
        &&& forall|p: int| #[trigger]
            self.kernel.dom().contains(p) ==> later.kernel.dom().contains(p) && later.kernel[p]
                == self.kernel[p]
        &&& forall|p: int| #[trigger]
            self.boot.dom().contains(p) ==> later.boot.dom().contains(p) && later.boot[p]
                == self.boot[p]
        &&& forall|a: int| #[trigger] (self.memory)(a) == 0 ==> (later.memory)(a) == 0
    }
}

/// Operations in two parts are the first part and then the second.
pub proof fn lemma_apply_all_split(
    machine: Machine,
    first: Seq<MapOperation>,
    second: Seq<MapOperation>,
)
    ensures
        machine.apply_all(first + second) == match machine.apply_all(first) {
            Some(reached) => reached.apply_all(second),
            None => None,
        },
    decreases second.len(),
{
    if second.len() == 0 {
        assert(first + second == first);
    } else {
        assert((first + second).drop_last() == first + second.drop_last());
        assert((first + second).last() == second.last());
        lemma_apply_all_split(machine, first, second.drop_last());
    }
}

/// One operation alone.
proof fn lemma_apply_one(machine: Machine, operation: MapOperation)
    ensures
        machine.apply_all(seq![operation]) == machine.apply(operation),
{
    let one = seq![operation];
    assert(one.drop_last() == Seq::<MapOperation>::empty());
    assert(machine.apply_all(one.drop_last()) == Some(machine));
    assert(one.last() == operation);
}

/// What the operations for one page with a frame of its own achieve.
proof fn lemma_fresh_page_applied(
    machine: Machine,
    page: u64,
    frame: u64,
    flags: PageFlags,
    zero: bool,
    shared: bool,
    after: Machine,
)
    requires
        machine.apply_all(fresh_page_operations(page, frame, flags, zero, shared)) == Some(after),
    ensures
        machine.kept_by(after),
        after.maps(Hierarchy::Kernel, page as int, frame as int),
        after.kernel[page as int].flags == flags,
        shared ==> after.maps(Hierarchy::Boot, page as int, frame as int),
        zero ==> after.zero_from(frame as int, 0),
{
    let clear = if zero {
        seq![MapOperation::ZeroFrame { frame }]
    } else {
        Seq::empty()
    };
    let map_kernel = MapOperation::MapPages {
        hierarchy: Hierarchy::Kernel,
        page,
        frame,
        count: 1,
        huge: false,
        flags,
    };
    let map_boot = MapOperation::MapPages {
        hierarchy: Hierarchy::Boot,
        page,
        frame,
        count: 1,
        huge: false,
        flags,
    };
    let boot = if shared {
        seq![map_boot]
    } else {
        Seq::empty()
    };
    lemma_apply_all_split(machine, clear + seq![map_kernel], boot);
    lemma_apply_all_split(machine, clear, seq![map_kernel]);
    let cleared = machine.apply_all(clear).unwrap();
    if zero {
        lemma_apply_one(machine, MapOperation::ZeroFrame { frame });
    }
    assert(machine.apply_all(clear) is Some);
    lemma_apply_one(cleared, map_kernel);
    let mapped = cleared.apply(map_kernel).unwrap();
    assert(mapped.maps(Hierarchy::Kernel, page as int, frame as int)) by {
        assert(in_run(page as int, page as int, 1, false));
    }
    if shared {
        lemma_apply_one(mapped, map_boot);
        assert(after.maps(Hierarchy::Boot, page as int, frame as int)) by {
            assert(in_run(page as int, page as int, 1, false));
        }
    }
}

/// Keeping is transitive.
proof fn lemma_kept_trans(first: Machine, second: Machine, third: Machine)
    requires
        first.kept_by(second),
        second.kept_by(third),
    ensures
        first.kept_by(third),
{
    assert forall|p: int| #[trigger] first.kernel.dom().contains(p) implies third.kernel.dom().contains(
        p,
    ) && third.kernel[p] == first.kernel[p] by {
        assert(second.kernel.dom().contains(p));
    }
    assert forall|p: int| #[trigger] first.boot.dom().contains(p) implies third.boot.dom().contains(
        p,
    ) && third.boot[p] == first.boot[p] by {
        assert(second.boot.dom().contains(p));
    }
    assert forall|a: int| #[trigger] (first.memory)(a) == 0 implies (third.memory)(a) == 0 by {
        assert((second.memory)(a) == 0);
    }
}

/// What giving pages in a row frames of their own achieves: every page is
/// mapped to its frame with the given permissions, in the kernel's hierarchy
/// and, where the pages are shared, in the boot hierarchy too; where the
/// frames are cleared they read as zero; and nothing that was mapped or read
/// as zero before is lost.
#[verifier::rlimit(40)]
pub proof fn lemma_fresh_pages_applied(
    machine: Machine,
    first_page: int,
    frames: Seq<u64>,
    flags: PageFlags,
    zero: bool,
    shared: bool,
    after: Machine,
)
    requires
        0 <= first_page,
        first_page + frames.len() * 0x1000 <= 0x1_0000_0000_0000_0000,
        machine.apply_all(fresh_pages_operations(first_page, frames, flags, zero, shared)) == Some(
            after,
        ),
    ensures
        machine.kept_by(after),
        forall|k: int|
            0 <= k < frames.len() ==> #[trigger] after.run_settled(
                first_page,
                frames,
                k,
                flags,
                zero,
                shared,
            ),
    decreases frames.len(),
{
    if frames.len() > 0 {
        let rest = frames.drop_last();
        let last = (frames.len() - 1) as int;
        let page = (first_page + last * 0x1000) as u64;
        let head = fresh_pages_operations(first_page, rest, flags, zero, shared);
        let tail = fresh_page_operations(page, frames.last(), flags, zero, shared);
        lemma_apply_all_split(machine, head, tail);
        let reached = machine.apply_all(head).unwrap();
        lemma_fresh_pages_applied(machine, first_page, rest, flags, zero, shared, reached);
        lemma_fresh_page_applied(reached, page, frames.last(), flags, zero, shared, after);
        lemma_kept_trans(machine, reached, after);
        assert forall|k: int| 0 <= k < frames.len() implies #[trigger] after.run_settled(
            first_page,
            frames,
            k,
            flags,
            zero,
            shared,
        ) by {
            if k == last {
                assert(page as int == first_page + k * 0x1000);
                assert(frames[k] == frames.last());
                assert(after.maps(Hierarchy::Kernel, page as int, frames.last() as int));
            } else {
                assert(rest[k] == frames[k]);
                assert(reached.run_settled(first_page, rest, k, flags, zero, shared));
                assert(reached.kernel.dom().contains(first_page + k * 0x1000));
                if shared {
                    assert(reached.boot.dom().contains(first_page + k * 0x1000));
                }
                if zero {
                    assert forall|a: int| rest[k] as int <= a < rest[k] as int + 0x1000 implies #[trigger] (
                    after.memory)(a) == 0 by {
                        assert((reached.memory)(a) == 0);
                    }
                }
            }
        }
    } else {
        assert(machine.apply_all(Seq::<MapOperation>::empty()) == Some(machine));
    }
}

/// Where the addresses lie that follow `zero_start` and precede `end`: in the
/// page of `zero_start`, where that is not a page boundary, or in one of the
/// pages from the next boundary up to the page of `end`.
#[verifier::rlimit(40)]
proof fn lemma_zero_pages(zero_start: int, end: int, address: int)
    requires
        0 <= zero_start <= address < end,
    ensures
        0 <= address - frame_of(address) < 0x1000,
        address < align_up(zero_start, 0x1000) ==> {
            &&& zero_start % 0x1000 != 0
            &&& frame_of(address) == frame_of(zero_start - 1)
            &&& zero_start % 0x1000 <= address - frame_of(address)
        },
        address >= align_up(zero_start, 0x1000) ==> {
            let k = (frame_of(address) - align_up(zero_start, 0x1000)) / 0x1000;
            &&& align_up(zero_start, 0x1000) <= frame_of(end)
            &&& 0 <= k < (frame_of(end) - align_up(zero_start, 0x1000)) / 0x1000 + 1
            &&& frame_of(address) == align_up(zero_start, 0x1000) + k * 0x1000
        },
{
    let first = align_up(zero_start, 0x1000);
    let rest = zero_start % 0x1000;
    assert(first % 0x1000 == 0);
    if address < first {
        let page = zero_start - rest;
        assert(page % 0x1000 == 0);
        lemma_frame_within(address, page);
        lemma_frame_within(zero_start - 1, page);
    } else {
        let page = frame_of(address);
        let last = frame_of(end);
        assert(page % 0x1000 == 0 && last % 0x1000 == 0);
        assert(first <= page) by {
            if page < first {
                lemma_frame_within(address, page);
                lemma_page_distance(first, page);
            }
        }
        assert(page <= last);
        lemma_page_distance(page, first);
        lemma_page_distance(last, first);
        lemma_page_distance(last, page);
    }
}

/// Where the addresses of a segment behind the image's bytes lie: in the page
/// in which the image's bytes end, at or behind their end, or in one of the
/// pages behind that page.
#[verifier::rlimit(40)]
proof fn lemma_zero_range(segment: ProgramHeader, kernel_offset: u64, offset: int)
    requires
        segment.mappable(kernel_offset),
        segment.file_size <= offset < segment.mem_size,
    ensures
        0 <= segment.bss_first_page(),
        segment.bss_first_page() % 0x1000 == 0,
        segment.bss_first_page() + segment.bss_page_count() * 0x1000 <= 0x1_0000_0000_0000_0000,
        0 <= segment.bss_page_count(),
        0 <= segment.virtual_addr + offset - frame_of(segment.virtual_addr + offset) < 0x1000,
        segment.virtual_addr + offset < segment.bss_first_page() ==> {
            &&& segment.has_tail()
            &&& frame_of(segment.virtual_addr + offset) == frame_of(segment.zero_start() - 1)
            &&& 0 <= frame_of(segment.zero_start() - 1) <= u64::MAX
            &&& segment.zero_start() % 0x1000 <= segment.virtual_addr + offset - frame_of(
                segment.virtual_addr + offset,
            )
        },
        segment.virtual_addr + offset >= segment.bss_first_page() ==> {
            let k = (frame_of(segment.virtual_addr + offset) - segment.bss_first_page()) / 0x1000;
            &&& 0 <= k < segment.bss_page_count()
            &&& frame_of(segment.virtual_addr + offset) == segment.bss_first_page() + k * 0x1000
        },
        segment.has_tail() ==> 0 <= frame_of(segment.zero_start() - 1) <= u64::MAX,
{
    let end = segment.virtual_end();
    let last = frame_of(end);
    let first = segment.bss_first_page();
    lemma_zero_pages(segment.zero_start(), end, segment.virtual_addr + offset);
    assert(last % 0x1000 == 0 && last <= end);
    assert(end < segment.half_end());
    assert(last + 0x1000 <= segment.half_end()) by {
        if last + 0x1000 > segment.half_end() {
            lemma_page_distance(segment.half_end(), last);
        }
    }
    if first <= last {
        lemma_page_distance(last, first);
    }
}

/// The law of [`lemma_segment_rest_reads_zero`], from what [`lemma_zero_range`] states.
proof fn lemma_rest_reads_zero(
    tail_page: int,
    tail_frame: u64,
    tail_from: int,
    has_tail: bool,
    first_page: int,
    frames: Seq<u64>,
    flags: PageFlags,
    tailed: Machine,
    after: Machine,
    address: int,
)
    requires
        0 <= first_page,
        first_page % 0x1000 == 0,
        first_page + frames.len() * 0x1000 <= 0x1_0000_0000_0000_0000,
        0 <= address - frame_of(address) < 0x1000,
        has_tail ==> tailed.maps(Hierarchy::Kernel, tail_page, tail_frame as int)
            && tailed.zero_from(tail_frame as int, tail_from),
        tailed.apply_all(fresh_pages_operations(first_page, frames, flags, true, false)) == Some(
            after,
        ),
        address < first_page ==> has_tail && frame_of(address) == tail_page && tail_from
            <= address - frame_of(address),
        address >= first_page ==> 0 <= (frame_of(address) - first_page) / 0x1000 < frames.len()
            && frame_of(address) == first_page + ((frame_of(address) - first_page) / 0x1000)
            * 0x1000,
    ensures
        after.read(Hierarchy::Kernel, address) == Some(0u8),
{
    lemma_fresh_pages_applied(tailed, first_page, frames, flags, true, false, after);
    if address < first_page {
        assert(tailed.kernel.dom().contains(tail_page));
        assert(after.maps(Hierarchy::Kernel, tail_page, tail_frame as int));
        let physical = tail_frame + (address - tail_page);
        assert((tailed.memory)(physical) == 0);
        assert((after.memory)(physical) == 0);
    } else {
        let k = (frame_of(address) - first_page) / 0x1000;
        assert(after.run_settled(first_page, frames, k, flags, true, false));
        let physical = frames[k] + (address - frame_of(address));
        assert((after.memory)(physical) == 0);
    }
}

/// Once a loadable segment is mapped, the memory from behind the bytes that
/// the image holds for it up to the end of the segment reads as zero in the
/// kernel's address space.
pub proof fn lemma_segment_rest_reads_zero(
    segment: ProgramHeader,
    kernel_offset: u64,
    frames: Seq<u64>,
    before: Machine,
    after: Machine,
    offset: int,
)
    requires
        segment.mappable(kernel_offset),
        frames.len() == segment.fresh_frame_count(),
        before.apply_all(segment_operations(segment, kernel_offset, frames)) == Some(after),
        segment.file_size <= offset < segment.mem_size,
    ensures
        after.read(Hierarchy::Kernel, segment.virtual_addr + offset) == Some(0u8),
{
    lemma_zero_range(segment, kernel_offset, offset);
    let file = file_operations(segment, kernel_offset);
    let tail_page = frame_of(segment.zero_start() - 1);
    let tail_from = segment.zero_start() % 0x1000;
    let first_page = segment.bss_first_page();
    let flags = segment.flags();
    if segment.has_tail() {
        let tail = tail_operations(segment, kernel_offset, frames[0]);
        let rest = fresh_pages_operations(first_page, frames.skip(1), flags, true, false);
        lemma_apply_all_split(before, file + tail, rest);
        lemma_apply_all_split(before, file, tail);
        let filed = before.apply_all(file).unwrap();
        let tailed = filed.apply_all(tail).unwrap();
        lemma_tail_applied(filed, segment, kernel_offset, frames[0], tailed);
        lemma_rest_reads_zero(
            tail_page,
            frames[0],
            tail_from,
            true,
            first_page,
            frames.skip(1),
            flags,
            tailed,
            after,
            segment.virtual_addr + offset,
        );
    } else {
        let rest = fresh_pages_operations(first_page, frames, flags, true, false);
        lemma_apply_all_split(before, file, rest);
        let filed = before.apply_all(file).unwrap();
        lemma_rest_reads_zero(
            tail_page,
            0,
            tail_from,
            false,
            first_page,
            frames,
            flags,
            filed,
            after,
            segment.virtual_addr + offset,
        );
    }
}

/// What the operations for the page in which the image's bytes end achieve:
/// the page is mapped to the new frame, which reads as zero from where the
/// image's bytes end.
proof fn lemma_tail_applied(
    machine: Machine,
    segment: ProgramHeader,
    kernel_offset: u64,
    frame: u64,
    after: Machine,
)
    requires
        segment.has_tail(),
        segment.mappable(kernel_offset),
        machine.apply_all(tail_operations(segment, kernel_offset, frame)) == Some(after),
    ensures
        after.maps(Hierarchy::Kernel, frame_of(segment.zero_start() - 1), frame as int),
        after.zero_from(frame as int, segment.zero_start() % 0x1000),
{
    let operations = tail_operations(segment, kernel_offset, frame);
    let page = frame_of(segment.zero_start() - 1) as u64;
    assert(0 <= frame_of(segment.zero_start() - 1) <= u64::MAX);
    assert(page as int == frame_of(segment.zero_start() - 1));
    assert(0 <= segment.zero_start() % 0x1000 < 0x1000);
    let first = seq![operations[0]];
    let second = seq![operations[1]];
    let third = seq![operations[2]];
    let fourth = seq![operations[3]];
    assert(operations == first + second + third + fourth);
    lemma_apply_all_split(machine, first + second + third, fourth);
    lemma_apply_all_split(machine, first + second, third);
    lemma_apply_all_split(machine, first, second);
    lemma_apply_one(machine, operations[0]);
    let zeroed = machine.apply(operations[0]).unwrap();
    lemma_apply_one(zeroed, operations[1]);
    let copied = zeroed.apply(operations[1]).unwrap();
    lemma_apply_one(copied, operations[2]);
    let unmapped = copied.apply(operations[2]).unwrap();
    lemma_apply_one(unmapped, operations[3]);
    assert(after.maps(Hierarchy::Kernel, page as int, frame as int)) by {
        assert(in_run(page as int, page as int, 1, false));
    }
    assert forall|a: int|
        frame + segment.zero_start() % 0x1000 <= a < frame + 0x1000 implies #[trigger] (
    after.memory)(a) == 0 by {
        assert((zeroed.memory)(a) == 0);
        assert((copied.memory)(a) == 0);
    }
}

/// Once the boot information is placed, every address of the slot up to the
/// end of its last page translates to the same physical address in the boot
/// hierarchy as in the kernel's hierarchy.
pub proof fn lemma_boot_information_shared(
    first_page: int,
    frames: Seq<u64>,
    before: Machine,
    after: Machine,
    address: int,
)
    requires
        0 <= first_page,
        first_page % 0x1000 == 0,
        first_page + frames.len() * 0x1000 <= 0x1_0000_0000_0000_0000,
        before.apply_all(fresh_pages_operations(first_page, frames, shared_flags(), false, true))
            == Some(after),
        first_page <= address < first_page + frames.len() * 0x1000,
    ensures
        after.translate(Hierarchy::Kernel, address) is Some,
        after.translate(Hierarchy::Kernel, address) == after.translate(Hierarchy::Boot, address),
        after.translate(Hierarchy::Kernel, address) == Some(
            frames[(address - first_page) / 0x1000] + (address - first_page) % 0x1000,
        ),
{
    lemma_fresh_pages_applied(before, first_page, frames, shared_flags(), false, true, after);
    let k = (address - first_page) / 0x1000;
    assert(0 <= k < frames.len());
    assert(frame_of(address) == first_page + k * 0x1000);
    assert(after.run_settled(first_page, frames, k, shared_flags(), false, true));
}

/// Once the boot information is placed, every address of the boot
/// information and of the memory map behind it translates to the same
/// physical address in the boot hierarchy as in the kernel's hierarchy: what
/// the boot loader writes there, the kernel reads.
#[verifier::rlimit(40)]
pub proof fn lemma_placed_boot_information_shared(
    state: AllocatorState,
    entries: Seq<bool>,
    before: Machine,
    after: Machine,
    address: int,
)
    requires
        entries.len() == 512,
        placement_result(state, entries) matches Ok((layout, operations, _)) && before.apply_all(
            operations,
        ) == Some(after) && layout.boot_information_address <= address
            < layout.memory_regions_address + layout.region_capacity * 24,
    ensures
        after.translate(Hierarchy::Kernel, address) is Some,
        after.translate(Hierarchy::Kernel, address) == after.translate(Hierarchy::Boot, address),
{
    lemma_lowest_free(entries);
    let first_page = slot_start(lowest_free(entries));
    let layout = boot_information_layout(first_page, state.regions.len());
    lemma_layout_pages(first_page, state.regions.len());
    lemma_boot_information_shared(
        first_page,
        state.frames(layout.page_count as nat),
        before,
        after,
        address,
    );
}

/// The pages of the boot information hold all of it and of the memory map,
/// and end within the address space.
#[verifier::rlimit(40)]
proof fn lemma_layout_pages(address: int, regions: nat)
    requires
        0 <= address,
        address % 0x1000 == 0,
        half_end(address) % 0x1000 == 0,
        align_up(address + 96, 8) + (regions + 1) * 24 < half_end(address),
    ensures
        boot_information_layout(address, regions).boot_information_address == address,
        boot_information_layout(address, regions).memory_regions_address + boot_information_layout(
            address,
            regions,
        ).region_capacity * 24 <= address + boot_information_layout(address, regions).page_count
            * 0x1000,
        address + boot_information_layout(address, regions).page_count * 0x1000
            <= 0x1_0000_0000_0000_0000,
{
    let start = align_up(address + 96, 8);
    let end = start + (regions + 1) * 24;
    let last = frame_of(end - 1);
    assert(address + 96 <= start <= address + 103);
    assert(last % 0x1000 == 0 && address <= last <= end - 1 < last + 0x1000);
    lemma_page_below(last, half_end(address));
    lemma_page_distance(last, address);
}

/// An address within a huge page has that page.
proof fn lemma_huge_frame_within(address: int, page: int)
    requires
        page % 0x20_0000 == 0,
        page <= address < page + 0x20_0000,
    ensures
        huge_frame_of(address) == page,
{
}

/// Once physical memory is mapped from `page` on, a read at the distance of
/// a physical address from `page` reads that physical address, for every
/// physical address below the end of physical memory, provided that nothing
/// else was mapped in the range before.
#[verifier::rlimit(40)]
pub proof fn lemma_direct_map(
    max_physical_address: int,
    page: u64,
    before: Machine,
    after: Machine,
    physical: int,
)
    requires
        0 < max_physical_address <= 0x10_0000_0000_0000,
        page % 0x20_0000 == 0,
        page + direct_map_frame_count(max_physical_address) * 0x20_0000
            <= 0x1_0000_0000_0000_0000,
        before.apply(direct_map_operation(max_physical_address, page)) == Some(after),
        forall|p: int|
            page <= p < page + direct_map_frame_count(max_physical_address) * 0x20_0000
                ==> !before.kernel.dom().contains(p),
        0 <= physical < max_physical_address,
    ensures
        after.translate(Hierarchy::Kernel, page + physical) == Some(physical),
        after.read(Hierarchy::Kernel, page + physical) == Some((before.memory)(physical)),
{
    let count = direct_map_frame_count(max_physical_address);
    let last = huge_frame_of(max_physical_address - 1);
    let frame = huge_frame_of(physical);
    assert(frame % 0x20_0000 == 0 && frame <= physical < frame + 0x20_0000);
    assert(last % 0x20_0000 == 0 && frame <= last);
    assert(last == (last / 0x20_0000) * 0x20_0000);
    assert(count * 0x20_0000 == last + 0x20_0000);
    lemma_huge_frame_within(page + physical, page + frame);
    assert(in_run(page + frame, page as int, count, true));
    let small = frame_of(page + physical);
    assert(page <= small < page + count * 0x20_0000) by {
        assert(page % 0x1000 == 0) by {
            assert(page == 0x1000 * (512 * (page / 0x20_0000)));
        }
        lemma_frame_within(page + physical, small);
    }
    assert(!after.kernel.dom().contains(small) || after.kernel[small].huge);
}

/// Mapping pages of which none is mapped succeeds: afterwards the hierarchy
/// holds the pages that it held and the new ones, and nothing else has changed.
proof fn lemma_map_pages_succeeds(
    machine: Machine,
    hierarchy: Hierarchy,
    page: int,
    frame: int,
    count: int,
    huge: bool,
    flags: PageFlags,
)
    requires
        forall|p: int| in_run(p, page, count, huge) ==> !machine.table(hierarchy).dom().contains(p),
    ensures
        machine.map_pages(hierarchy, page, frame, count, huge, flags) matches Some(after) && {
            &&& forall|p: int| #[trigger]
                after.table(hierarchy).dom().contains(p) <==> (in_run(p, page, count, huge)
                    || machine.table(hierarchy).dom().contains(p))
            &&& hierarchy == Hierarchy::Kernel ==> after.boot == machine.boot
            &&& hierarchy == Hierarchy::Boot ==> after.kernel == machine.kernel
        },
{
}

/// Giving pages in a row frames of their own succeeds where none of the
/// pages is mapped: afterwards the kernel's hierarchy holds the pages that
/// it held and the pages of the row.
proof fn lemma_fresh_pages_succeed(
    machine: Machine,
    first_page: int,
    frames: Seq<u64>,
    flags: PageFlags,
    zero: bool,
)
    requires
        0 <= first_page,
        first_page + frames.len() * 0x1000 <= 0x1_0000_0000_0000_0000,
        forall|p: int|
            first_page <= p < first_page + frames.len() * 0x1000 ==> !machine.kernel.dom().contains(
                p,
            ),
    ensures
        machine.apply_all(fresh_pages_operations(first_page, frames, flags, zero, false)) is Some,
    decreases frames.len(),
{
    lemma_fresh_pages_domain(machine, first_page, frames, flags, zero);
}

/// The pages that the kernel's hierarchy holds after pages in a row got
/// frames of their own.
#[verifier::rlimit(40)]
proof fn lemma_fresh_pages_domain(
    machine: Machine,
    first_page: int,
    frames: Seq<u64>,
    flags: PageFlags,
    zero: bool,
)
    requires
        0 <= first_page,
        first_page + frames.len() * 0x1000 <= 0x1_0000_0000_0000_0000,
        forall|p: int|
            first_page <= p < first_page + frames.len() * 0x1000 ==> !machine.kernel.dom().contains(
                p,
            ),
    ensures
        machine.apply_all(fresh_pages_operations(first_page, frames, flags, zero, false)) matches Some(
            after,
        ) && forall|p: int| #[trigger]
            after.kernel.dom().contains(p) ==> machine.kernel.dom().contains(p) || first_page <= p
                < first_page + frames.len() * 0x1000,
    decreases frames.len(),
{
    if frames.len() > 0 {
        let rest = frames.drop_last();
        let last = (frames.len() - 1) as int;
        let page = (first_page + last * 0x1000) as u64;
        let frame = frames.last();
        let head = fresh_pages_operations(first_page, rest, flags, zero, false);
        let clear = MapOperation::ZeroFrame { frame };
        let map = MapOperation::MapPages {
            hierarchy: Hierarchy::Kernel,
            page,
            frame,
            count: 1,
            huge: false,
            flags,
        };
        lemma_fresh_pages_domain(machine, first_page, rest, flags, zero);
        let reached = machine.apply_all(head).unwrap();
        let all = fresh_pages_operations(first_page, frames, flags, zero, false);
        assert(!reached.kernel.dom().contains(page as int));
        if zero {
            assert(all == head + seq![clear] + seq![map]);
            lemma_apply_all_split(machine, head + seq![clear], seq![map]);
            lemma_apply_all_split(machine, head, seq![clear]);
            lemma_apply_one(reached, clear);
            let cleared = reached.apply(clear).unwrap();
            assert(cleared.kernel == reached.kernel);
            lemma_map_pages_succeeds(
                cleared,
                Hierarchy::Kernel,
                page as int,
                frame as int,
                1,
                false,
                flags,
            );
            lemma_apply_one(cleared, map);
        } else {
            assert(all == head + seq![map]);
            lemma_apply_all_split(machine, head, seq![map]);
            lemma_map_pages_succeeds(
                reached,
                Hierarchy::Kernel,
                page as int,
                frame as int,
                1,
                false,
                flags,
            );
            lemma_apply_one(reached, map);
        }
    } else {
        assert(machine.apply_all(Seq::<MapOperation>::empty()) == Some(machine));
    }
}

/// Where the bytes of a segment lie in the image as they lie in memory, at
/// the same distance from a page boundary, the pages with bytes of the image
/// are the pages from the first of the segment to the one before the first
/// that the image has no byte for.
#[verifier::rlimit(40)]
proof fn lemma_file_pages(virtual_addr: int, physical: int, file_size: int)
    requires
        0 <= virtual_addr,
        0 <= physical,
        0 <= file_size,
        1 <= physical + file_size,
        virtual_addr % 0x1000 == physical % 0x1000,
    ensures
        ({
            let first = frame_of(physical);
            let last = frame_of(physical + file_size - 1);
            let count = if first <= last {
                (last - first) / 0x1000 + 1
            } else {
                0
            };
            &&& 0 <= count
            &&& frame_of(virtual_addr) + count * 0x1000 == align_up(virtual_addr + file_size, 0x1000)
            &&& (virtual_addr + file_size) % 0x1000 != 0 ==> count >= 1 && frame_of(
                virtual_addr + file_size - 1,
            ) == frame_of(virtual_addr) + (count - 1) * 0x1000
        }),
{
    let first = frame_of(physical);
    let last = frame_of(physical + file_size - 1);
    let rest = physical % 0x1000;
    assert(first == physical - rest);
    assert(frame_of(virtual_addr) == virtual_addr - rest);
    let shift = virtual_addr - physical;
    assert(shift % 0x1000 == 0) by {
        assert(virtual_addr - rest == 0x1000 * ((virtual_addr - rest) / 0x1000));
        assert(physical - rest == 0x1000 * ((physical - rest) / 0x1000));
    }
    if first <= last {
        lemma_page_distance(last, first);
        lemma_frame_within(virtual_addr + file_size - 1, last + shift);
        if file_size == 0 {
            assert(rest != 0);
        }
    } else {
        assert(file_size == 0 && rest == 0);
    }
}

/// The operations of a segment never map a page that is mapped: where the
/// bytes of the segment lie in the image at the same distance from a page
/// boundary as in memory, and the image holds no more bytes than the segment
/// has, the operations succeed on every machine in which no page of the
/// segment is mapped. One page is mapped twice, with the unmapping between:
/// the one in which the bytes of the image end before the page does.
#[verifier::rlimit(40)]
pub proof fn lemma_segment_operations_succeed(
    segment: ProgramHeader,
    kernel_offset: u64,
    frames: Seq<u64>,
    before: Machine,
)
    requires
        segment.mappable(kernel_offset),
        segment.file_size <= segment.mem_size,
        segment.virtual_addr % 0x1000 == (kernel_offset + segment.offset) % 0x1000,
        frames.len() == segment.fresh_frame_count(),
        forall|p: int|
            frame_of(segment.virtual_addr as int) <= p < frame_of(segment.virtual_end()) + 0x1000
                ==> !before.kernel.dom().contains(p),
    ensures
        before.apply_all(segment_operations(segment, kernel_offset, frames)) is Some,
{
    let first = frame_of(segment.virtual_addr as int);
    let count = segment.file_frame_count(kernel_offset);
    let first_zero = segment.bss_first_page();
    let flags = segment.flags();
    let file = file_operations(segment, kernel_offset);
    lemma_file_pages(
        segment.virtual_addr as int,
        kernel_offset + segment.offset,
        segment.file_size as int,
    );
    lemma_segment_pages(segment, kernel_offset);
    let filed = if count > 0 {
        let map = file[0];
        lemma_map_pages_succeeds(
            before,
            Hierarchy::Kernel,
            first,
            frame_of(kernel_offset + segment.offset),
            count,
            false,
            flags,
        );
        lemma_apply_one(before, map);
        assert(file == seq![map]);
        before.apply(map).unwrap()
    } else {
        assert(before.apply_all(file) == Some(before));
        before
    };
    assert(before.apply_all(file) == Some(filed));
    assert forall|p: int| #[trigger] filed.kernel.dom().contains(p) implies before.kernel.dom().contains(
        p,
    ) || first <= p < first_zero by {}
    if segment.has_tail() {
        let frame = frames[0];
        let tail = tail_operations(segment, kernel_offset, frame);
        let page = frame_of(segment.zero_start() - 1);
        assert(filed.kernel.dom().contains(page) && !filed.kernel[page].huge) by {
            assert(in_run(page, first, count, false));
        }
        let tailed = lemma_tail_succeeds(filed, segment, kernel_offset, frame);
        lemma_apply_all_split(before, file, tail);
        lemma_fresh_pages_succeed(tailed, first_zero, frames.skip(1), flags, true);
        lemma_apply_all_split(
            before,
            file + tail,
            fresh_pages_operations(first_zero, frames.skip(1), flags, true, false),
        );
    } else {
        lemma_fresh_pages_succeed(filed, first_zero, frames, flags, true);
        lemma_apply_all_split(
            before,
            file,
            fresh_pages_operations(first_zero, frames, flags, true, false),
        );
    }
}

/// Where the pages of a segment lie: those behind the bytes of the image
/// follow those with bytes of the image and end with the page of the
/// address behind the segment.
#[verifier::rlimit(40)]
proof fn lemma_segment_pages(segment: ProgramHeader, kernel_offset: u64)
    requires
        segment.mappable(kernel_offset),
        segment.file_size <= segment.mem_size,
    ensures
        0 <= segment.bss_first_page(),
        0 <= segment.bss_page_count(),
        segment.bss_first_page() + segment.bss_page_count() * 0x1000 <= frame_of(
            segment.virtual_end(),
        ) + 0x1000,
        frame_of(segment.virtual_end()) + 0x1000 <= 0x1_0000_0000_0000_0000,
        segment.bss_first_page() <= frame_of(segment.virtual_end()) + 0x1000,
        0 <= frame_of(segment.virtual_addr as int) <= u64::MAX,
        segment.has_tail() ==> 0 <= frame_of(segment.zero_start() - 1) <= u64::MAX,
{
    lemma_pages_behind(segment.zero_start(), segment.virtual_end(), segment.half_end());
}

/// The pages from the first page boundary at or behind `zero_start` to the
/// page of `end` end with the page of `end`, which ends at or below a page
/// boundary above `end`.
proof fn lemma_pages_behind(zero_start: int, end: int, top: int)
    requires
        0 <= zero_start <= end < top,
        top % 0x1000 == 0,
    ensures
        ({
            let first = align_up(zero_start, 0x1000);
            let last = frame_of(end);
            let count = if first <= last {
                (last - first) / 0x1000 + 1
            } else {
                0
            };
            &&& 0 <= first <= last + 0x1000
            &&& 0 <= count
            &&& first + count * 0x1000 <= last + 0x1000
            &&& last + 0x1000 <= top
            &&& 1 <= zero_start ==> 0 <= frame_of(zero_start - 1) <= zero_start
        }),
{
    let first = align_up(zero_start, 0x1000);
    let last = frame_of(end);
    assert(last % 0x1000 == 0 && last <= end);
    lemma_page_below(last, top);
    assert(first % 0x1000 == 0);
    if first <= last {
        lemma_page_distance(last, first);
    } else {
        lemma_page_below(last, first);
    }
}

/// The operations for the page in which the image's bytes end succeed where
/// the page is mapped, and leave the kernel's hierarchy with the pages it had.
proof fn lemma_tail_succeeds(
    machine: Machine,
    segment: ProgramHeader,
    kernel_offset: u64,
    frame: u64,
) -> (after: Machine)
    requires
        0 <= frame_of(segment.zero_start() - 1) <= u64::MAX,
        machine.kernel.dom().contains(frame_of(segment.zero_start() - 1)),
        !machine.kernel[frame_of(segment.zero_start() - 1)].huge,
    ensures
        machine.apply_all(tail_operations(segment, kernel_offset, frame)) == Some(after),
        forall|p: int| #[trigger]
            after.kernel.dom().contains(p) ==> machine.kernel.dom().contains(p),
{
    let operations = tail_operations(segment, kernel_offset, frame);
    let page = frame_of(segment.zero_start() - 1);
    let first = seq![operations[0]];
    let second = seq![operations[1]];
    let third = seq![operations[2]];
    let fourth = seq![operations[3]];
    assert(operations == first + second + third + fourth);
    lemma_apply_all_split(machine, first + second + third, fourth);
    lemma_apply_all_split(machine, first + second, third);
    lemma_apply_all_split(machine, first, second);
    lemma_apply_one(machine, operations[0]);
    let zeroed = machine.apply(operations[0]).unwrap();
    lemma_apply_one(zeroed, operations[1]);
    let copied = zeroed.apply(operations[1]).unwrap();
    lemma_apply_one(copied, operations[2]);
    assert(copied.kernel == machine.kernel);
    let unmapped = copied.apply(operations[2]).unwrap();
    assert(!unmapped.kernel.dom().contains(page));
    lemma_map_pages_succeeds(
        unmapped,
        Hierarchy::Kernel,
        page,
        frame as int,
        1,
        false,
        segment.flags(),
    );
    lemma_apply_one(unmapped, operations[3]);
    let after = unmapped.apply(operations[3]).unwrap();
    assert forall|p: int| #[trigger] after.kernel.dom().contains(p) implies machine.kernel.dom().contains(
        p,
    ) by {
        if p != page {
            assert(!in_run(p, page, 1, false));
            assert(unmapped.kernel.dom().contains(p));
        }
    }
    after
}

} // verus!
