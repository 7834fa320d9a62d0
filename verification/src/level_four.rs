//! The slots of the top-level page table. Each covers 512 GiB of the virtual
//! address space. The boot loader places the stack, the framebuffer, the
//! direct map of physical memory and the boot information each in a slot of
//! its own, which neither the firmware's identity map nor the kernel uses.

use vstd::prelude::*;
use crate::address::{slot_address, slot_index, slot_of, slot_start, is_canonical};
use crate::segment::{segments_wf, ProgramHeader, SegmentType};

verus! {

/// Whether a loadable segment reaches into the slot.
pub open spec fn segment_claims(segment: ProgramHeader, slot: int) -> bool {
    segment.is_load() && slot_of(segment.virtual_addr as int) <= slot <= slot_of(
        segment.virtual_end(),
    )
}

/// Whether a slot is taken before the boot loader places anything: slot 0,
/// which holds the firmware's identity map, and every slot that a loadable
/// segment of the kernel reaches into.
pub open spec fn claimed_by(segments: Seq<ProgramHeader>, slot: int) -> bool {
    slot == 0 || exists|i: int|
        0 <= i < segments.len() && segment_claims(#[trigger] segments[i], slot)
}

/// Whether any slot is free.
pub open spec fn has_free(entries: Seq<bool>) -> bool {
    exists|i: int| 0 <= i < entries.len() && !entries[i]
}

/// Whether `slot` is free and every slot below it is taken.
pub open spec fn is_lowest_free(entries: Seq<bool>, slot: int) -> bool {
    &&& 0 <= slot < entries.len()
    &&& !entries[slot]
    &&& forall|j: int| 0 <= j < slot ==> entries[j]
}

/// The lowest free slot, where there is one.
pub open spec fn lowest_free(entries: Seq<bool>) -> int {
    choose|slot: int| is_lowest_free(entries, slot)
}

/// The slots after the lowest free one was taken `count` times.
pub open spec fn after_claims(entries: Seq<bool>, count: nat) -> Seq<bool>
    decreases count,
{
    if count == 0 {
        entries
    } else {
        let before = after_claims(entries, (count - 1) as nat);
        before.update(lowest_free(before), true)
    }
}

/// The slot that comes out after `count` earlier ones.
pub open spec fn nth_claim(entries: Seq<bool>, count: nat) -> int {
    lowest_free(after_claims(entries, count))
}

/// The number of free slots.
pub open spec fn free_count(entries: Seq<bool>) -> nat
    decreases entries.len(),
{
    if entries.len() == 0 {
        0
    } else if entries.last() {
        free_count(entries.drop_last())
    } else {
        free_count(entries.drop_last()) + 1
    }
}

/// Where a slot is free there is a lowest free slot, and only one.
pub proof fn lemma_lowest_free(entries: Seq<bool>)
    requires
        has_free(entries),
    ensures
        is_lowest_free(entries, lowest_free(entries)),
        forall|slot: int| is_lowest_free(entries, slot) ==> slot == lowest_free(entries),
{
    let free = choose|i: int| 0 <= i < entries.len() && !entries[i];
    lemma_lowest_free_below(entries, free);
    assert forall|slot: int| is_lowest_free(entries, slot) implies slot == lowest_free(entries) by {
        let lowest = lowest_free(entries);
        if slot < lowest {
            assert(entries[slot]);
        } else if lowest < slot {
            assert(entries[lowest]);
        }
    }
}

proof fn lemma_lowest_free_below(entries: Seq<bool>, free: int)
    requires
        0 <= free < entries.len(),
        !entries[free],
    ensures
        exists|slot: int| is_lowest_free(entries, slot),
    decreases free,
{
    if exists|j: int| 0 <= j < free && !entries[j] {
        let j = choose|j: int| 0 <= j < free && !entries[j];
        lemma_lowest_free_below(entries, j);
    } else {
        assert(is_lowest_free(entries, free));
    }
}

/// Taking a free slot leaves one free slot fewer.
proof fn lemma_free_count_update(entries: Seq<bool>, slot: int)
    requires
        0 <= slot < entries.len(),
        !entries[slot],
    ensures
        free_count(entries.update(slot, true)) + 1 == free_count(entries),
    decreases entries.len(),
{
    let updated = entries.update(slot, true);
    if slot == entries.len() - 1 {
        assert(updated.drop_last() == entries.drop_last());
    } else {
        assert(updated.drop_last() == entries.drop_last().update(slot, true));
        lemma_free_count_update(entries.drop_last(), slot);
    }
}

/// There are free slots exactly where a slot is free.
proof fn lemma_free_count_positive(entries: Seq<bool>)
    ensures
        free_count(entries) > 0 <==> has_free(entries),
        free_count(entries) <= entries.len(),
    decreases entries.len(),
{
    if entries.len() > 0 {
        let rest = entries.drop_last();
        lemma_free_count_positive(rest);
        if has_free(rest) {
            let i = choose|i: int| 0 <= i < rest.len() && !rest[i];
            assert(!entries[i]);
        }
        if has_free(entries) && entries.last() {
            let i = choose|i: int| 0 <= i < entries.len() && !entries[i];
            assert(!rest[i]);
        }
        if !entries.last() {
            assert(!entries[entries.len() - 1]);
        }
    }
}

/// While fewer slots were taken than were free at first, the next slot that
/// comes out was free at first and has not come out before: no slot that was
/// taken at first ever comes out, and none comes out twice. Slots that were
/// taken stay taken.
pub proof fn lemma_claims(entries: Seq<bool>, count: nat)
    requires
        count < free_count(entries),
    ensures
        after_claims(entries, count).len() == entries.len(),
        free_count(after_claims(entries, count)) + count == free_count(entries),
        is_lowest_free(after_claims(entries, count), nth_claim(entries, count)),
        0 <= nth_claim(entries, count) < entries.len(),
        !entries[nth_claim(entries, count)],
        forall|slot: int|
            0 <= slot < entries.len() && entries[slot] ==> #[trigger] after_claims(
                entries,
                count,
            )[slot],
        forall|earlier: nat| earlier < count ==> #[trigger] nth_claim(entries, earlier) < nth_claim(
            entries, count),
    decreases count,
{
    if count == 0 {
        lemma_free_count_positive(entries);
        lemma_lowest_free(entries);
    } else {
        let previous = (count - 1) as nat;
        lemma_claims(entries, previous);
        let before = after_claims(entries, previous);
        let taken = nth_claim(entries, previous);
        let now = after_claims(entries, count);
        assert(now == before.update(taken, true));
        lemma_free_count_update(before, taken);
        lemma_free_count_positive(now);
        lemma_lowest_free(now);
        let next = nth_claim(entries, count);
        assert(next > taken) by {
            if next < taken {
                assert(before[next]);
            }
        }
        assert(!before[next]);
        assert(!entries[next]);
        assert forall|earlier: nat| earlier < count implies #[trigger] nth_claim(entries, earlier)
            < next by {
            if earlier < previous {
                assert(nth_claim(entries, earlier) < nth_claim(entries, previous));
            }
        }
    }
}

/// No slot ever comes out that holds the firmware's identity map or that a
/// loadable segment of the kernel reaches into.
pub proof fn lemma_claimed_slots_stay(segments: Seq<ProgramHeader>, entries: Seq<bool>, count: nat)
    requires
        entries.len() == 512,
        forall|slot: int| 0 <= slot < 512 ==> entries[slot] == claimed_by(segments, slot),
        count < free_count(entries),
    ensures
        0 < nth_claim(entries, count) < 512,
        !claimed_by(segments, nth_claim(entries, count)),
{
    lemma_claims(entries, count);
}

/// With nothing but slot 0 taken, 511 slots come out one after the other:
/// the slots 1 to 511 in this order.
pub proof fn lemma_claims_of_empty_table(entries: Seq<bool>, count: nat)
    requires
        entries.len() == 512,
        entries[0],
        forall|slot: int| 1 <= slot < 512 ==> !entries[slot],
        count < 511,
    ensures
        nth_claim(entries, count) == count + 1,
        forall|slot: int|
            0 <= slot < 512 ==> after_claims(entries, count)[slot] == (slot <= count),
        after_claims(entries, count).len() == 512,
    decreases count,
{
    if count > 0 {
        lemma_claims_of_empty_table(entries, (count - 1) as nat);
    }
    let now = after_claims(entries, count);
    assert(is_lowest_free(now, count as int + 1));
    assert(!now[count as int + 1]);
    lemma_lowest_free(now);
}

/// The slots that the segments up to and with the one at `index` take are
/// those that the segments before it take and those that it takes itself.
proof fn lemma_claimed_by_longer(segments: Seq<ProgramHeader>, index: int)
    requires
        0 <= index < segments.len(),
    ensures
        forall|slot: int| #[trigger]
            claimed_by(segments.take(index + 1), slot) == (claimed_by(segments.take(index), slot)
                || segment_claims(segments[index], slot)),
{
    let prefix = segments.take(index);
    let longer = segments.take(index + 1);
    assert forall|slot: int| #[trigger]
        claimed_by(longer, slot) == (claimed_by(prefix, slot) || segment_claims(
            segments[index],
            slot,
        )) by {
        if claimed_by(longer, slot) && slot != 0 {
            let i = choose|i: int|
                0 <= i < longer.len() && segment_claims(#[trigger] longer[i], slot);
            if i < prefix.len() {
                assert(segment_claims(prefix[i], slot));
            }
        }
        if claimed_by(prefix, slot) && slot != 0 {
            let i = choose|i: int|
                0 <= i < prefix.len() && segment_claims(#[trigger] prefix[i], slot);
            assert(segment_claims(longer[i], slot));
        }
        if segment_claims(segments[index], slot) {
            assert(segment_claims(longer[index], slot));
        }
    }
}

/// Which slots of the top-level page table are taken.
#[derive(Debug)]
pub struct LevelFourEntries {
    entries: [bool; 512],
}

impl View for LevelFourEntries {
    type V = Seq<bool>;

    closed spec fn view(&self) -> Seq<bool> {
        self.entries@
    }
}

impl LevelFourEntries {
    /// There are 512 slots, and slot 0 is always taken.
    pub open spec fn wf(&self) -> bool {
        self@.len() == 512 && self@[0]
    }

    /// Takes slot 0 and every slot that a loadable segment reaches into.
    pub fn new(segments: &Vec<ProgramHeader>) -> (this: Self)
        requires
            segments_wf(segments@),
        ensures
            this.wf(),
            forall|slot: int| 0 <= slot < 512 ==> this@[slot] == claimed_by(segments@, slot),
    {
        let mut this = Self { entries: [false; 512] };
        this.entries[0] = true;
        let mut index: usize = 0;
        while index < segments.len()
            invariant
                index <= segments.len(),
                segments_wf(segments@),
                this@.len() == 512,
                forall|slot: int|
                    0 <= slot < 512 ==> this@[slot] == claimed_by(
                        segments@.take(index as int),
                        slot,
                    ),
            decreases segments.len() - index,
        {
            let segment: ProgramHeader = segments[index];
            let ghost prefix = segments@.take(index as int);
            proof {
                lemma_claimed_by_longer(segments@, index as int);
            }
            if segment.segment_type == SegmentType::Load {
                assert(segments@[index as int].range_wf());
                let start_index: u16 = slot_index(segment.virtual_addr);
                let end_index: u16 = slot_index(segment.virtual_addr + segment.mem_size);
                let mut slot: u16 = start_index;
                while slot <= end_index
                    invariant
                        start_index <= slot <= end_index + 1 || (start_index > end_index && slot
                            == start_index),
                        end_index < 512,
                        this@.len() == 512,
                        forall|other: int|
                            0 <= other < 512 ==> (#[trigger] this@[other]) == (claimed_by(
                                prefix,
                                other,
                            ) || (start_index <= other < slot)),
                    decreases end_index + 1 - slot,
                {
                    this.entries[slot as usize] = true;
                    slot = slot + 1;
                }
                assert forall|other: int| 0 <= other < 512 implies segment_claims(segment, other)
                    == (start_index <= other < slot) by {}
            }
            index = index + 1;
        }
        assert(segments@.take(index as int) == segments@);
        this
    }

    /// Whether a slot is free.
    pub fn has_free_entry(&self) -> (free: bool)
        requires
            self.wf(),
        ensures
            free == has_free(self@),
    {
        let mut index: usize = 0;
        while index < 512
            invariant
                self@.len() == 512,
                index <= 512,
                forall|j: int| 0 <= j < index ==> self@[j],
            decreases 512 - index,
        {
            if !self.entries[index] {
                return true;
            }
            index = index + 1;
        }
        false
    }

    /// Takes the lowest free slot and returns its index. It never returns
    /// slot 0, nor a slot that was taken before.
    pub fn get_free_entry(&mut self) -> (index: u16)
        requires
            old(self).wf(),
            has_free(old(self)@),
        ensures
            final(self).wf(),
            index == lowest_free(old(self)@),
            is_lowest_free(old(self)@, index as int),
            0 < index < 512,
            final(self)@ == old(self)@.update(index as int, true),
    {
        proof {
            lemma_lowest_free(self@);
        }
        let mut index: usize = 0;
        while self.entries[index]
            invariant
                self@ == old(self)@,
                self@.len() == 512,
                has_free(self@),
                index < 512,
                forall|j: int| 0 <= j < index ==> self@[j],
                is_lowest_free(self@, lowest_free(self@)),
            decreases 512 - index,
        {
            index = index + 1;
        }
        self.entries[index] = true;
        index as u16
    }

    /// Takes the lowest free slot and returns its first address: a canonical
    /// address at a multiple of 512 GiB.
    pub fn get_free_address(&mut self) -> (address: u64)
        requires
            old(self).wf(),
            has_free(old(self)@),
        ensures
            final(self).wf(),
            address == slot_start(lowest_free(old(self)@)),
            final(self)@ == old(self)@.update(lowest_free(old(self)@), true),
            is_lowest_free(old(self)@, lowest_free(old(self)@)),
            is_canonical(address as int),
            slot_of(address as int) == lowest_free(old(self)@),
            address % 0x1000 == 0,
            address != 0,
    {
        let index: u16 = self.get_free_entry();
        slot_address(index)
    }
}

} // verus!
