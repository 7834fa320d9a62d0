//! The entries of the kernel's global descriptor table.

use vstd::prelude::*;

verus! {

/// The number of entries of the table: the null entry, code and data for the
/// kernel, code and data for user mode, and the task state segment.
pub const GLOBAL_DESCRIPTOR_TABLE_ENTRIES: usize = 6;

/// Size in bytes of one entry of the table.
pub const GDT_ENTRY_SIZE: u16 = 8;

/// Size in bytes of a task state segment in its binary layout.
pub const TSS_ENTRY_SIZE: u16 = 208;

/// What the processor is told of the table: its size in bytes less one, and its address.
#[derive(Debug, Clone, Copy, PartialEq, Eq, Structural)]
pub struct GdtDescriptor {
    pub size: u16,
    pub offset: u64,
}

impl GdtDescriptor {
    /// The descriptor with the given fields.
    pub fn new(size: u16, offset: u64) -> (descriptor: Self)
        ensures
            descriptor == (GdtDescriptor { size, offset }),
    {
        Self { size, offset }
    }
}

/// One entry of the table.
#[derive(Debug, Clone, Copy, PartialEq, Eq, Structural)]
pub struct GdtEntry {
    pub limit_low: u16,
    pub base_low: u16,
    pub base_middle: u8,
    pub access_byte: u8,
    pub limit_high_flags: u8,
    pub base_high: u8,
}

impl GdtEntry {
    /// The entry with the given fields.
    pub fn new(
        limit_low: u16,
        base_low: u16,
        base_middle: u8,
        access_byte: u8,
        limit_high_flags: u8,
        base_high: u8,
    ) -> (entry: Self)
        ensures
            entry == (GdtEntry {
                limit_low,
                base_low,
                base_middle,
                access_byte,
                limit_high_flags,
                base_high,
            }),
    {
        Self { limit_low, base_low, base_middle, access_byte, limit_high_flags, base_high }
    }

    /// The entry with every field 0.
    pub fn null() -> (entry: Self)
        ensures
            entry == flat_segment(0x00, 0x00),
    {
        Self::new(0x00, 0x00, 0x00, 0x00, 0x00, 0x00)
    }
}

/// An entry without base and limit, as long mode uses them.
pub open spec fn flat_segment(access_byte: u8, limit_high_flags: u8) -> GdtEntry {
    GdtEntry {
        limit_low: 0,
        base_low: 0,
        base_middle: 0,
        access_byte,
        limit_high_flags,
        base_high: 0,
    }
}

/// The task state segment.
#[derive(Debug, Clone, Copy, PartialEq, Eq, Structural)]
pub struct TssEntry {
    pub previous_tss: u64,
    pub esp0: u64,
    pub ss0: u64,
    pub esp1: u64,
    pub ss1: u64,
    pub esp2: u64,
    pub ss2: u64,
    pub cr3: u64,
    pub eip: u64,
    pub eflags: u64,
    pub eax: u64,
    pub ecx: u64,
    pub edx: u64,
    pub ebx: u64,
    pub esp: u64,
    pub ebp: u64,
    pub esi: u64,
    pub edi: u64,
    pub es: u64,
    pub cs: u64,
    pub ss: u64,
    pub ds: u64,
    pub fs: u64,
    pub gs: u64,
    pub ldt: u64,
    pub trap: u16,
    pub iomap_base: u16,
}

impl TssEntry {
    /// The entry of the table for a task state segment at the address
    /// `base`. Of the base it holds the lowest byte, and in the access byte
    /// the lowest byte of the address behind the segment.
    pub fn new(base: u64) -> (entry: GdtEntry)
        ensures
            entry == (GdtEntry {
                limit_low: 0,
                base_low: 0,
                base_middle: (base % 0x100) as u8,
                access_byte: ((base + 208) % 0x100) as u8,
                limit_high_flags: 0xE9,
                base_high: 0x00,
            }),
    {
        let limit: u64 = base.wrapping_add(TSS_ENTRY_SIZE as u64);
        GdtEntry::new(0, 0, (base % 0x100) as u8, (limit % 0x100) as u8, 0xE9, 0x00)
    }

    /// A task state segment with every field 0, but for the base of the I/O
    /// map, which lies behind the segment: no port is open.
    pub fn null() -> (entry: Self)
        ensures
            entry.iomap_base == 208,
            entry.trap == 0,
            entry.previous_tss == 0 && entry.esp0 == 0 && entry.ss0 == 0 && entry.esp1 == 0
                && entry.ss1 == 0 && entry.esp2 == 0 && entry.ss2 == 0 && entry.cr3 == 0,
            entry.eip == 0 && entry.eflags == 0 && entry.eax == 0 && entry.ecx == 0 && entry.edx
                == 0 && entry.ebx == 0 && entry.esp == 0 && entry.ebp == 0 && entry.esi == 0
                && entry.edi == 0,
            entry.es == 0 && entry.cs == 0 && entry.ss == 0 && entry.ds == 0 && entry.fs == 0
                && entry.gs == 0 && entry.ldt == 0,
    {
        Self {
            previous_tss: 0,
            esp0: 0,
            ss0: 0,
            esp1: 0,
            ss1: 0,
            esp2: 0,
            ss2: 0,
            cr3: 0,
            eip: 0,
            eflags: 0,
            eax: 0,
            ecx: 0,
            edx: 0,
            ebx: 0,
            esp: 0,
            ebp: 0,
            esi: 0,
            edi: 0,
            es: 0,
            cs: 0,
            ss: 0,
            ds: 0,
            fs: 0,
            gs: 0,
            ldt: 0,
            trap: 0,
            iomap_base: TSS_ENTRY_SIZE,
        }
    }
}

/// The table: the null entry, code and data for the kernel, code and data for
/// user mode, all of them for long mode, and the entry of the task state
/// segment at the address `tss_base`.
pub fn lightsaber_kernel_initialize_global_descriptor_table(tss_base: u64) -> (table: [GdtEntry;
    6])
    ensures
        table@ == seq![
            flat_segment(0x00, 0x00),
            flat_segment(0x9A, 0xA0),
            flat_segment(0x92, 0xA0),
            flat_segment(0xFA, 0xA0),
            flat_segment(0xF2, 0xA0),
            (GdtEntry {
                limit_low: 0,
                base_low: 0,
                base_middle: (tss_base % 0x100) as u8,
                access_byte: ((tss_base + 208) % 0x100) as u8,
                limit_high_flags: 0xE9,
                base_high: 0x00,
            }),
        ],
{
    let task_state_segment = TssEntry::new(tss_base);
    let table = [
        GdtEntry::new(0, 0, 0, 0x00, 0x00, 0),
        GdtEntry::new(0, 0, 0, 0x9A, 0xA0, 0),
        GdtEntry::new(0, 0, 0, 0x92, 0xA0, 0),
        GdtEntry::new(0, 0, 0, 0xFA, 0xA0, 0),
        GdtEntry::new(0, 0, 0, 0xF2, 0xA0, 0),
        task_state_segment,
    ];
    assert(table@ =~= seq![
        flat_segment(0x00, 0x00),
        flat_segment(0x9A, 0xA0),
        flat_segment(0x92, 0xA0),
        flat_segment(0xFA, 0xA0),
        flat_segment(0xF2, 0xA0),
        task_state_segment,
    ]);
    table
}

/// The descriptor of a table of six entries at the address `table_address`.
pub fn lightsaber_kernel_describe_global_descriptor_table(table_address: u64) -> (descriptor:
    GdtDescriptor)
    ensures
        descriptor == (GdtDescriptor { size: 47, offset: table_address }),
{
    GdtDescriptor::new(GDT_ENTRY_SIZE * (GLOBAL_DESCRIPTOR_TABLE_ENTRIES as u16) - 1, table_address)
}

} // verus!
