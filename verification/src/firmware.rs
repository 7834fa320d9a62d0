//! What the boot loader makes of the firmware's answers before it leaves the
//! boot services.

use vstd::prelude::*;

verus! {

/// What an entry of the firmware's configuration table points to.
#[derive(Debug, Clone, Copy, PartialEq, Eq, Structural)]
pub enum ConfigurationTable {
    /// The root table of ACPI 1.0.
    Acpi,
    /// The root table of ACPI 2.0 or later.
    Acpi2,
    /// Any other table.
    Other,
}

/// One entry of the firmware's configuration table.
#[derive(Debug, Clone, Copy, PartialEq, Eq, Structural)]
pub struct ConfigurationEntry {
    pub table: ConfigurationTable,
    /// The physical address of the table.
    pub address: u64,
}

impl ConfigurationEntry {
    /// Whether the entry points to a root table of ACPI.
    pub open spec fn is_acpi(&self) -> bool {
        self.table == ConfigurationTable::Acpi || self.table == ConfigurationTable::Acpi2
    }
}

/// The physical address of the ACPI root table: that of the first entry of
/// the configuration table that points to one, whatever its version.
pub fn lightsaber_find_rsdp(entries: &Vec<ConfigurationEntry>) -> (rsdp_address: Option<u64>)
    ensures
        rsdp_address is None <==> forall|i: int|
            0 <= i < entries@.len() ==> !(#[trigger] entries@[i]).is_acpi(),
        rsdp_address matches Some(address) ==> exists|i: int|
            {
                &&& 0 <= i < entries@.len()
                &&& (#[trigger] entries@[i]).is_acpi()
                &&& entries@[i].address == address
                &&& forall|j: int| 0 <= j < i ==> !(#[trigger] entries@[j]).is_acpi()
            },
{
    let mut index: usize = 0;
    while index < entries.len()
        invariant
            index <= entries@.len(),
            forall|j: int| 0 <= j < index ==> !(#[trigger] entries@[j]).is_acpi(),
        decreases entries@.len() - index,
    {
        let entry: ConfigurationEntry = entries[index];
        match entry.table {
            ConfigurationTable::Acpi | ConfigurationTable::Acpi2 => {
                assert(entries@[index as int].is_acpi());
                return Some(entry.address);
            },
            ConfigurationTable::Other => {},
        }
        index = index + 1;
    }
    None
}

/// The number of pages that the boot loader asks the firmware for to hold a
/// file of `file_size` bytes: one more than the file has whole pages.
pub fn lightsaber_file_pages(file_size: u64) -> (pages: u64)
    ensures
        pages == file_size / 0x1000 + 1,
        pages * 0x1000 > file_size,
{
    file_size / 0x1000 + 1
}

} // verus!
