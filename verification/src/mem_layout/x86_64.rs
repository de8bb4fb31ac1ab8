//! The memory layout of the x86_64 machine.

use vstd::prelude::*;

verus! {

/// Number of entries in the layout.
pub const LAYOUT_ENTRIES: usize = 8;

/// The entries of the memory layout on x86_64, in the order of their
/// addresses.
#[derive(Clone, Copy, PartialEq, Eq, Structural, Debug)]
pub enum LayoutEntryType {
    /// Guest memory below 4 GiB.
    MemBelow4g,
    /// Memory windows of PCI Express.
    PcieMmio,
    /// Configuration space of PCI Express.
    PcieEcam,
    /// Generic event device of ACPI.
    AcpiGed,
    /// Memory-mapped devices.
    Mmio,
    /// I/O interrupt controller.
    IoApic,
    /// Local interrupt controllers.
    LocalApic,
    /// Guest memory above 4 GiB.
    MemAbove4g,
}

impl LayoutEntryType {
    /// Position of the entry in the layout.
    pub open spec fn spec_index(self) -> usize {
        match self {
            LayoutEntryType::MemBelow4g => 0,
            LayoutEntryType::PcieMmio => 1,
            LayoutEntryType::PcieEcam => 2,
            LayoutEntryType::AcpiGed => 3,
            LayoutEntryType::Mmio => 4,
            LayoutEntryType::IoApic => 5,
            LayoutEntryType::LocalApic => 6,
            LayoutEntryType::MemAbove4g => 7,
        }
    }

    /// Position of the entry in the layout.
    #[verifier::when_used_as_spec(spec_index)]
    pub fn index(self) -> (i: usize)
        ensures
            i == self.spec_index(),
            i < LAYOUT_ENTRIES,
    {
        match self {
            LayoutEntryType::MemBelow4g => 0,
            LayoutEntryType::PcieMmio => 1,
            LayoutEntryType::PcieEcam => 2,
            LayoutEntryType::AcpiGed => 3,
            LayoutEntryType::Mmio => 4,
            LayoutEntryType::IoApic => 5,
            LayoutEntryType::LocalApic => 6,
            LayoutEntryType::MemAbove4g => 7,
        }
    }
}

/// Base address and size of an entry.
pub open spec fn spec_mem_layout(entry: LayoutEntryType) -> (u64, u64) {
    match entry {
        LayoutEntryType::MemBelow4g => (0, 0xC000_0000),
        LayoutEntryType::PcieMmio => (0xC000_0000, 0x2000_0000),
        LayoutEntryType::PcieEcam => (0xE000_0000, 0x1000_0000),
        LayoutEntryType::AcpiGed => (0xF000_0000, 0x10_0000),
        LayoutEntryType::Mmio => (0xF010_0000, 0x200),
        LayoutEntryType::IoApic => (0xFEC0_0000, 0x10_0000),
        LayoutEntryType::LocalApic => (0xFEE0_0000, 0x10_0000),
        LayoutEntryType::MemAbove4g => (0x1_0000_0000, 0x80_0000_0000),
    }
}

/// Base address and size of an entry.
#[verifier::when_used_as_spec(spec_mem_layout)]
pub fn mem_layout(entry: LayoutEntryType) -> (range: (u64, u64))
    ensures
        range == spec_mem_layout(entry),
        range.0 + range.1 <= u64::MAX,
{
    match entry {
        LayoutEntryType::MemBelow4g => (0, 0xC000_0000),
        LayoutEntryType::PcieMmio => (0xC000_0000, 0x2000_0000),
        LayoutEntryType::PcieEcam => (0xE000_0000, 0x1000_0000),
        LayoutEntryType::AcpiGed => (0xF000_0000, 0x10_0000),
        LayoutEntryType::Mmio => (0xF010_0000, 0x200),
        LayoutEntryType::IoApic => (0xFEC0_0000, 0x10_0000),
        LayoutEntryType::LocalApic => (0xFEE0_0000, 0x10_0000),
        LayoutEntryType::MemAbove4g => (0x1_0000_0000, 0x80_0000_0000),
    }
}

/// The layout is in the order of its addresses, and no two entries share
/// an address: an entry ends where a later one starts, or before.
pub proof fn lemma_layout_ordered(a: LayoutEntryType, b: LayoutEntryType)
    requires
        a.spec_index() < b.spec_index(),
    ensures
        spec_mem_layout(a).0 + spec_mem_layout(a).1 <= spec_mem_layout(b).0,
        spec_mem_layout(a).0 < spec_mem_layout(b).0,
{
}

} // verus!
