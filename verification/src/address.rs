//! Arithmetic on physical and virtual addresses of x86_64 with four-level paging.

use vstd::prelude::*;

verus! {

/// Size in bytes of a frame of physical memory and of a page of virtual memory.
pub const PAGE_SIZE: u64 = 0x1000;

/// Size in bytes of a huge frame, as used by the direct map of physical memory.
pub const HUGE_PAGE_SIZE: u64 = 0x20_0000;

/// Size in bytes of the address range that one top-level slot covers (512 GiB).
pub const SLOT_SIZE: u64 = 0x80_0000_0000;

/// Physical addresses have 52 bits: every valid one lies below this bound.
pub const PHYSICAL_LIMIT: u64 = 0x10_0000_0000_0000;

/// First address of the hole between the two canonical halves.
pub const LOWER_HALF_END: u64 = 0x8000_0000_0000;

/// First address of the upper canonical half.
pub const UPPER_HALF_START: u64 = 0xFFFF_8000_0000_0000;

/// `addr` rounded down to a multiple of `align`.
pub open spec fn align_down(addr: int, align: int) -> int {
    addr - addr % align
}

/// The least multiple of `align` that is not below `addr`.
pub open spec fn align_up(addr: int, align: int) -> int {
    if addr % align == 0 {
        addr
    } else {
        addr - addr % align + align
    }
}

/// Start of the 4 KiB frame (or page) that contains `addr`.
pub open spec fn frame_of(addr: int) -> int {
    align_down(addr, 0x1000)
}

/// Start of the 2 MiB frame that contains `addr`.
pub open spec fn huge_frame_of(addr: int) -> int {
    align_down(addr, 0x20_0000)
}

/// A virtual address is canonical when bits 48 to 63 repeat bit 47.
pub open spec fn is_canonical(addr: int) -> bool {
    0 <= addr < 0x8000_0000_0000 || 0xFFFF_8000_0000_0000 <= addr <= 0xFFFF_FFFF_FFFF_FFFF
}

/// The end of the canonical half of the address space that holds `addr`.
pub open spec fn half_end(addr: int) -> int {
    if addr < 0x8000_0000_0000 {
        0x8000_0000_0000
    } else {
        0x1_0000_0000_0000_0000
    }
}

/// Index of the top-level slot that translates `addr`: bits 39 to 47.
pub open spec fn slot_of(addr: int) -> int {
    (addr / 0x80_0000_0000) % 512
}

/// First address of the top-level slot `index`, sign-extended to a canonical address.
pub open spec fn slot_start(index: int) -> int {
    if index < 256 {
        index * 0x80_0000_0000
    } else {
        index * 0x80_0000_0000 + 0xFFFF_0000_0000_0000
    }
}

/// Start of the 4 KiB frame or page that contains `addr`.
pub fn containing_frame(addr: u64) -> (frame: u64)
    ensures
        frame == frame_of(addr as int),
        frame % 0x1000 == 0,
        frame <= addr < frame + 0x1000,
{
    addr - addr % PAGE_SIZE
}

/// Start of the 2 MiB frame that contains `addr`.
pub fn containing_huge_frame(addr: u64) -> (frame: u64)
    ensures
        frame == huge_frame_of(addr as int),
        frame % 0x20_0000 == 0,
        frame <= addr < frame + 0x20_0000,
{
    addr - addr % HUGE_PAGE_SIZE
}

/// Whether `addr` is a multiple of the page size.
pub fn is_page_aligned(addr: u64) -> (aligned: bool)
    ensures
        aligned == (addr % 0x1000 == 0),
{
    addr % PAGE_SIZE == 0
}

/// `addr` rounded up to a multiple of `align`, or `None` where that exceeds `u64`.
pub fn checked_align_up(addr: u64, align: u64) -> (aligned: Option<u64>)
    requires
        align > 0,
    ensures
        aligned.is_some() == (align_up(addr as int, align as int) <= u64::MAX),
        aligned.is_some() ==> aligned.unwrap() == align_up(addr as int, align as int),
{
    let rest: u64 = addr % align;
    if rest == 0 {
        Some(addr)
    } else {
        assert(rest <= addr) by (nonlinear_arith)
            requires
                rest == addr % align,
                align > 0,
        ;
        (addr - rest).checked_add(align)
    }
}

/// Whether `addr` is a canonical virtual address.
pub fn canonical(addr: u64) -> (ok: bool)
    ensures
        ok == is_canonical(addr as int),
{
    addr < LOWER_HALF_END || addr >= UPPER_HALF_START
}

/// The number of bytes from a canonical address to the end of its half of
/// the address space.
pub fn room_in_half(addr: u64) -> (room: u64)
    requires
        is_canonical(addr as int),
    ensures
        room == half_end(addr as int) - addr,
        room > 0,
{
    if addr < LOWER_HALF_END {
        LOWER_HALF_END - addr
    } else {
        (u64::MAX - addr) + 1
    }
}

/// Index of the top-level slot that translates `addr`.
pub fn slot_index(addr: u64) -> (index: u16)
    ensures
        index == slot_of(addr as int),
        index < 512,
{
    ((addr / SLOT_SIZE) % 512) as u16
}

/// First address of the top-level slot `index`.
pub fn slot_address(index: u16) -> (addr: u64)
    requires
        index < 512,
    ensures
        addr == slot_start(index as int),
        is_canonical(addr as int),
        slot_of(addr as int) == index,
        addr % 0x1000 == 0,
{
    let base: u64 = (index as u64) * SLOT_SIZE;
    if index < 256 {
        base
    } else {
        base + 0xFFFF_0000_0000_0000
    }
}

/// An address within a page has that page.
pub proof fn lemma_frame_within(address: int, page: int)
    requires
        page % 0x1000 == 0,
        page <= address < page + 0x1000,
    ensures
        frame_of(address) == page,
{
}

/// The distance of two pages is a whole number of pages.
pub proof fn lemma_page_distance(page: int, first: int)
    requires
        page % 0x1000 == 0,
        first % 0x1000 == 0,
        first <= page,
    ensures
        0 <= (page - first) / 0x1000,
        page == first + ((page - first) / 0x1000) * 0x1000,
{
}

/// A page that starts below a page boundary ends at or below it.
pub proof fn lemma_page_below(page: int, bound: int)
    requires
        page % 0x1000 == 0,
        bound % 0x1000 == 0,
        page < bound,
    ensures
        page + 0x1000 <= bound,
{
}

} // verus!
