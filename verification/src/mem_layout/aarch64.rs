//! The memory layout of the aarch64 machine.

use vstd::prelude::*;

verus! {

/// Number of entries in the layout.
pub const LAYOUT_ENTRIES: usize = 16;

/// The entries of the memory layout on aarch64, in the order of their
/// addresses.
#[derive(Clone, Copy, PartialEq, Eq, Structural, Debug)]
pub enum LayoutEntryType {
    /// Flash.
    Flash,
    /// Distributor of the interrupt controller.
    GicDist,
    /// CPU interface of the interrupt controller.
    GicCpu,
    /// Translation service of the interrupt controller.
    GicIts,
    /// Redistributors of the interrupt controller.
    GicRedist,
    /// Serial port.
    Uart,
    /// Real-time clock.
    Rtc,
    /// Firmware configuration device.
    FwCfg,
    /// Memory-mapped devices.
    Mmio,
    /// Memory windows of PCI Express.
    PcieMmio,
    /// I/O ports of PCI Express.
    PciePio,
    /// Configuration space of PCI Express.
    PcieEcam,
    /// Guest memory.
    Mem,
    /// The redistributors that do not fit below.
    HighGicRedist,
    /// Configuration space of PCI Express above 4 GiB.
    HighPcieEcam,
    /// Memory windows of PCI Express above 4 GiB.
    HighPcieMmio,
}

impl LayoutEntryType {
    /// Position of the entry in the layout.
    pub open spec fn spec_index(self) -> usize {
        match self {
            LayoutEntryType::Flash => 0,
            LayoutEntryType::GicDist => 1,
            LayoutEntryType::GicCpu => 2,
            LayoutEntryType::GicIts => 3,
            LayoutEntryType::GicRedist => 4,
            LayoutEntryType::Uart => 5,
            LayoutEntryType::Rtc => 6,
            LayoutEntryType::FwCfg => 7,
            LayoutEntryType::Mmio => 8,
            LayoutEntryType::PcieMmio => 9,
            LayoutEntryType::PciePio => 10,
            LayoutEntryType::PcieEcam => 11,
            LayoutEntryType::Mem => 12,
            LayoutEntryType::HighGicRedist => 13,
            LayoutEntryType::HighPcieEcam => 14,
            LayoutEntryType::HighPcieMmio => 15,
        }
    }

    /// Position of the entry in the layout.
    #[verifier::when_used_as_spec(spec_index)]
    pub fn index(self) -> (i: usize)
        ensures
            i == self.spec_index(),
            i < LAYOUT_ENTRIES,
    {
        match self {
            LayoutEntryType::Flash => 0,
            LayoutEntryType::GicDist => 1,
            LayoutEntryType::GicCpu => 2,
            LayoutEntryType::GicIts => 3,
            LayoutEntryType::GicRedist => 4,
            LayoutEntryType::Uart => 5,
            LayoutEntryType::Rtc => 6,
            LayoutEntryType::FwCfg => 7,
            LayoutEntryType::Mmio => 8,
            LayoutEntryType::PcieMmio => 9,
            LayoutEntryType::PciePio => 10,
            LayoutEntryType::PcieEcam => 11,
            LayoutEntryType::Mem => 12,
            LayoutEntryType::HighGicRedist => 13,
            LayoutEntryType::HighPcieEcam => 14,
            LayoutEntryType::HighPcieMmio => 15,
        }
    }
}

/// Base address and size of an entry.
pub open spec fn spec_mem_layout(entry: LayoutEntryType) -> (u64, u64) {
    match entry {
        LayoutEntryType::Flash => (0, 0x0800_0000),
        LayoutEntryType::GicDist => (0x0800_0000, 0x0001_0000),
        LayoutEntryType::GicCpu => (0x0801_0000, 0x0001_0000),
        LayoutEntryType::GicIts => (0x0808_0000, 0x0002_0000),
        LayoutEntryType::GicRedist => (0x080A_0000, 0x00F6_0000),
        LayoutEntryType::Uart => (0x0900_0000, 0x0000_1000),
        LayoutEntryType::Rtc => (0x0901_0000, 0x0000_1000),
        LayoutEntryType::FwCfg => (0x0902_0000, 0x0000_0018),
        LayoutEntryType::Mmio => (0x0A00_0000, 0x0000_0200),
        LayoutEntryType::PcieMmio => (0x1000_0000, 0x2EFF_0000),
        LayoutEntryType::PciePio => (0x3EFF_0000, 0x0001_0000),
        LayoutEntryType::PcieEcam => (0x3F00_0000, 0x0100_0000),
        LayoutEntryType::Mem => (0x4000_0000, 0x80_0000_0000),
        LayoutEntryType::HighGicRedist => (0x40_0000_0000, 0x0200_0000),
        LayoutEntryType::HighPcieEcam => (0x40_4000_0000, 0x1000_0000),
        LayoutEntryType::HighPcieMmio => (0x40_8000_0000, 0x80_0000_0000),
    }
}

/// Base address and size of an entry.
#[verifier::when_used_as_spec(spec_mem_layout)]
pub fn mem_layout(entry: LayoutEntryType) -> (range: (u64, u64))
    ensures
        range == spec_mem_layout(entry),
        range.0 + range.1 <= u64::MAX,
{
    match entry {
        LayoutEntryType::Flash => (0, 0x0800_0000),
        LayoutEntryType::GicDist => (0x0800_0000, 0x0001_0000),
        LayoutEntryType::GicCpu => (0x0801_0000, 0x0001_0000),
        LayoutEntryType::GicIts => (0x0808_0000, 0x0002_0000),
        LayoutEntryType::GicRedist => (0x080A_0000, 0x00F6_0000),
        LayoutEntryType::Uart => (0x0900_0000, 0x0000_1000),
        LayoutEntryType::Rtc => (0x0901_0000, 0x0000_1000),
        LayoutEntryType::FwCfg => (0x0902_0000, 0x0000_0018),
        LayoutEntryType::Mmio => (0x0A00_0000, 0x0000_0200),
        LayoutEntryType::PcieMmio => (0x1000_0000, 0x2EFF_0000),
        LayoutEntryType::PciePio => (0x3EFF_0000, 0x0001_0000),
        LayoutEntryType::PcieEcam => (0x3F00_0000, 0x0100_0000),
        LayoutEntryType::Mem => (0x4000_0000, 0x80_0000_0000),
        LayoutEntryType::HighGicRedist => (0x40_0000_0000, 0x0200_0000),
        LayoutEntryType::HighPcieEcam => (0x40_4000_0000, 0x1000_0000),
        LayoutEntryType::HighPcieMmio => (0x40_8000_0000, 0x80_0000_0000),
    }
}

/// The layout is in the order of its addresses: a later entry starts at a
/// higher address than an earlier one. Below guest memory no two entries
/// share an address.
pub proof fn lemma_layout_ordered(a: LayoutEntryType, b: LayoutEntryType)
    requires
        a.spec_index() < b.spec_index(),
    ensures
        spec_mem_layout(a).0 < spec_mem_layout(b).0,
        b.spec_index() <= LayoutEntryType::Mem.spec_index() ==> spec_mem_layout(a).0
            + spec_mem_layout(a).1 <= spec_mem_layout(b).0,
{
}

} // verus!
