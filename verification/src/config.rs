//! The configuration space of one function: register bytes, the masks that
//! decide which bits a guest may change, and the capability chain.

use vstd::prelude::*;
use crate::errors::PciError;
use crate::region::{
    add_subregion_error, delete_subregion_error, lemma_add_keeps_wf, lemma_delete_keeps_wf,
    same_regions, tree_wf, tree_with_subregion, tree_without_subregion, RegionModel, RegionTree,
};

verus! {

/// Size in bytes of the configuration space of a legacy function.
pub const PCI_CONFIG_SPACE_SIZE: usize = 256;

/// Size in bytes of the configuration space of a PCI Express function.
pub const PCIE_CONFIG_SPACE_SIZE: usize = 4096;

/// Size in bytes of one register.
pub const REG_SIZE: usize = 4;

/// Widest access, in bytes, that the configuration space accepts.
pub const MAX_ACCESS_SIZE: usize = 4;

/// Number of functions of one slot.
pub const MAX_FUNC: u8 = 8;

/// Vendor ID register.
pub const VENDOR_ID: u8 = 0x00;

/// Device ID register.
pub const DEVICE_ID: u8 = 0x02;

/// Command register.
pub const COMMAND: u8 = 0x04;

/// Status register.
pub const STATUS: u8 = 0x06;

/// Sub-class code register; the class code follows it.
pub const SUB_CLASS_CODE: u8 = 0x0a;

/// Cache line size register.
pub const CACHE_LINE_SIZE: u8 = 0x0c;

/// Header type register.
pub const HEADER_TYPE: u8 = 0x0e;

/// Base address register 0.
pub const BAR_0: u8 = 0x10;

/// Primary bus number register of a bridge.
pub const PRIMARY_BUS_NUM: u8 = 0x18;

/// Secondary bus number register of a bridge.
pub const SECONDARY_BUS_NUM: u8 = 0x19;

/// Subordinate bus number register of a bridge.
pub const SUBORDINATE_BUS_NUM: u8 = 0x1a;

/// I/O base register of a bridge.
pub const IO_BASE: u8 = 0x1c;

/// I/O limit register of a bridge.
pub const IO_LIMIT: u8 = 0x1d;

/// Memory base register of a bridge; the memory limit follows it.
pub const MEMORY_BASE: u8 = 0x20;

/// Prefetchable memory base register of a bridge.
pub const PREF_MEMORY_BASE: u8 = 0x24;

/// Prefetchable memory limit register of a bridge.
pub const PREF_MEMORY_LIMIT: u8 = 0x26;

/// Upper 32 bits of the prefetchable memory base of a bridge; the upper
/// 32 bits of the limit follow them.
pub const PREF_MEM_BASE_UPPER: u8 = 0x28;

/// Pointer to the first capability.
pub const CAP_LIST: u8 = 0x34;

/// Interrupt line register.
pub const INTERRUPT_LINE: u8 = 0x3c;

/// Bridge control register.
pub const BRIDGE_CONTROL: u8 = 0x3e;

/// End of the predefined header; capabilities start here.
pub const PCI_CONFIG_HEAD_END: u8 = 64;

/// Offset of the next-capability pointer inside a capability.
pub const NEXT_CAP_OFFSET: u8 = 0x01;

/// Command bit: decode I/O space accesses.
pub const COMMAND_IO_SPACE: u16 = 0x0001;

/// Command bit: decode memory space accesses.
pub const COMMAND_MEMORY_SPACE: u16 = 0x0002;

/// Command bit: the function may act as a bus master.
pub const COMMAND_BUS_MASTER: u16 = 0x0004;

/// Command bit: report system errors.
pub const COMMAND_SERR_ENABLE: u16 = 0x0100;

/// Command bit: do not assert the legacy interrupt.
pub const COMMAND_INTERRUPT_DISABLE: u16 = 0x0400;

/// Bits of the command register that a guest may change.
pub const COMMAND_WRITE_MASK: u16 = 0x0507;

/// Status bit: the function has a capability list.
pub const STATUS_CAP_LIST: u16 = 0x0010;

/// Status bits that record errors; a guest may only clear them.
pub const STATUS_ERROR_BITS: u16 = 0xf900;

/// Bits of the bridge control register that a guest may change.
pub const BRIDGE_CONTROL_WRITE_MASK: u16 = 0x0bdf;

/// Bridge control bit: the discard timer ran out; a guest may only clear it.
pub const BRIDGE_CTL_DISCARD_TIMER_STATUS: u16 = 0x0400;

/// Class code of a PCI-to-PCI bridge.
pub const CLASS_CODE_PCI_BRIDGE: u16 = 0x0604;

/// Header layout of an endpoint.
pub const HEADER_TYPE_ENDPOINT: u8 = 0x00;

/// Header layout of a bridge.
pub const HEADER_TYPE_BRIDGE: u8 = 0x01;

/// Header type bit: the slot holds more than one function.
pub const HEADER_TYPE_MULTIFUNC: u8 = 0x80;

/// Flag in a prefetchable base or limit register: addresses have 64 bits.
pub const PREF_MEM_RANGE_64BIT: u8 = 0x01;

/// Vendor ID of the emulated bridges.
pub const PCI_VENDOR_ID_REDHAT: u16 = 0x1b36;

/// Whether the ranges `[start, end)` and `[range_start, range_end)` share a
/// byte. An empty range shares none.
pub open spec fn spec_ranges_overlap(start: int, end: int, range_start: int, range_end: int) -> bool {
    start < end && range_start < range_end && start < range_end && range_start < end
}

/// Whether the ranges `[start, end)` and `[range_start, range_end)` share a
/// byte. An empty range shares none.
pub fn ranges_overlap(start: usize, end: usize, range_start: usize, range_end: usize) -> (r: bool)
    ensures
        r == spec_ranges_overlap(start as int, end as int, range_start as int, range_end as int),
{
    start < end && range_start < range_end && start < range_end && range_start < end
}

/// The 16-bit value that `buf` holds at `offset`, low byte first.
pub open spec fn le_u16_at(buf: Seq<u8>, offset: int) -> u16 {
    (buf[offset] as int + 0x100 * buf[offset + 1] as int) as u16
}

/// The 32-bit value that `buf` holds at `offset`, low byte first.
pub open spec fn le_u32_at(buf: Seq<u8>, offset: int) -> u32 {
    (le_u16_at(buf, offset) as int + 0x1_0000 * le_u16_at(buf, offset + 2) as int) as u32
}

/// The 64-bit value that `buf` holds at `offset`, low byte first.
pub open spec fn le_u64_at(buf: Seq<u8>, offset: int) -> u64 {
    (le_u32_at(buf, offset) as int + 0x1_0000_0000 * le_u32_at(buf, offset + 4) as int) as u64
}

/// `buf` with the two bytes at `offset` replaced by `data`, low byte first.
pub open spec fn with_le_u16(buf: Seq<u8>, offset: int, data: u16) -> Seq<u8> {
    buf.update(offset, (data % 0x100) as u8).update(offset + 1, (data / 0x100) as u8)
}

/// `buf` with the four bytes at `offset` replaced by `data`, low byte first.
pub open spec fn with_le_u32(buf: Seq<u8>, offset: int, data: u32) -> Seq<u8> {
    with_le_u16(
        with_le_u16(buf, offset, (data % 0x1_0000) as u16),
        offset + 2,
        (data / 0x1_0000) as u16,
    )
}

/// `buf` with the eight bytes at `offset` replaced by `data`, low byte first.
pub open spec fn with_le_u64(buf: Seq<u8>, offset: int, data: u64) -> Seq<u8> {
    with_le_u32(
        with_le_u32(buf, offset, (data % 0x1_0000_0000) as u32),
        offset + 4,
        (data / 0x1_0000_0000) as u32,
    )
}

/// Reads a 16-bit value, low byte first; an error when it does not lie
/// inside `buf`.
pub fn le_read_u16(buf: &[u8], offset: usize) -> (r: Result<u16, PciError>)
    ensures
        offset + 2 <= buf.len() ==> r == Ok::<u16, PciError>(le_u16_at(buf@, offset as int)),
        offset + 2 > buf.len() ==> r == Err::<u16, PciError>(
            PciError::InvalidAccess { offset, size: 2 },
        ),
{
    if buf.len() < 2 || offset > buf.len() - 2 {
        return Err(PciError::InvalidAccess { offset, size: 2 });
    }
    let low: u16 = buf[offset] as u16;
    let high: u16 = buf[offset + 1] as u16;
    Ok(low + 0x100 * high)
}

/// Reads a 32-bit value, low byte first; an error when it does not lie
/// inside `buf`.
pub fn le_read_u32(buf: &[u8], offset: usize) -> (r: Result<u32, PciError>)
    ensures
        offset + 4 <= buf.len() ==> r == Ok::<u32, PciError>(le_u32_at(buf@, offset as int)),
        offset + 4 > buf.len() ==> r == Err::<u32, PciError>(
            PciError::InvalidAccess { offset, size: 4 },
        ),
{
    if buf.len() < 4 || offset > buf.len() - 4 {
        return Err(PciError::InvalidAccess { offset, size: 4 });
    }
    let b0: u32 = buf[offset] as u32;
    let b1: u32 = buf[offset + 1] as u32;
    let b2: u32 = buf[offset + 2] as u32;
    let b3: u32 = buf[offset + 3] as u32;
    Ok((b0 + 0x100 * b1) + 0x1_0000 * (b2 + 0x100 * b3))
}

/// Reads a 64-bit value, low byte first; an error when it does not lie
/// inside `buf`.
pub fn le_read_u64(buf: &[u8], offset: usize) -> (r: Result<u64, PciError>)
    ensures
        offset + 8 <= buf.len() ==> r == Ok::<u64, PciError>(le_u64_at(buf@, offset as int)),
        offset + 8 > buf.len() ==> r == Err::<u64, PciError>(
            PciError::InvalidAccess { offset, size: 8 },
        ),
{
    if buf.len() < 8 || offset > buf.len() - 8 {
        return Err(PciError::InvalidAccess { offset, size: 8 });
    }
    let b0: u64 = buf[offset] as u64;
    let b1: u64 = buf[offset + 1] as u64;
    let b2: u64 = buf[offset + 2] as u64;
    let b3: u64 = buf[offset + 3] as u64;
    let b4: u64 = buf[offset + 4] as u64;
    let b5: u64 = buf[offset + 5] as u64;
    let b6: u64 = buf[offset + 6] as u64;
    let b7: u64 = buf[offset + 7] as u64;
    let low: u64 = (b0 + 0x100 * b1) + 0x1_0000 * (b2 + 0x100 * b3);
    let high: u64 = (b4 + 0x100 * b5) + 0x1_0000 * (b6 + 0x100 * b7);
    Ok(low + 0x1_0000_0000 * high)
}

/// Writes a 16-bit value, low byte first; an error, and no change, when it
/// does not lie inside `buf`.
pub fn le_write_u16(buf: &mut [u8], offset: usize, data: u16) -> (r: Result<(), PciError>)
    ensures
        offset + 2 <= old(buf).len() ==> r == Ok::<(), PciError>(()) && final(buf)@ == with_le_u16(
            old(buf)@,
            offset as int,
            data,
        ),
        offset + 2 > old(buf).len() ==> r == Err::<(), PciError>(
            PciError::InvalidAccess { offset, size: 2 },
        ) && final(buf)@ == old(buf)@,
{
    if buf.len() < 2 || offset > buf.len() - 2 {
        return Err(PciError::InvalidAccess { offset, size: 2 });
    }
    buf[offset] = (data % 0x100) as u8;
    buf[offset + 1] = (data / 0x100) as u8;
    Ok(())
}

/// Writes a 32-bit value, low byte first; an error, and no change, when it
/// does not lie inside `buf`.
pub fn le_write_u32(buf: &mut [u8], offset: usize, data: u32) -> (r: Result<(), PciError>)
    ensures
        offset + 4 <= old(buf).len() ==> r == Ok::<(), PciError>(()) && final(buf)@ == with_le_u32(
            old(buf)@,
            offset as int,
            data,
        ),
        offset + 4 > old(buf).len() ==> r == Err::<(), PciError>(
            PciError::InvalidAccess { offset, size: 4 },
        ) && final(buf)@ == old(buf)@,
{
    if buf.len() < 4 || offset > buf.len() - 4 {
        return Err(PciError::InvalidAccess { offset, size: 4 });
    }
    let low: u16 = (data % 0x1_0000) as u16;
    let high: u16 = (data / 0x1_0000) as u16;
    buf[offset] = (low % 0x100) as u8;
    buf[offset + 1] = (low / 0x100) as u8;
    buf[offset + 2] = (high % 0x100) as u8;
    buf[offset + 3] = (high / 0x100) as u8;
    Ok(())
}

/// Writes a 64-bit value, low byte first; an error, and no change, when it
/// does not lie inside `buf`.
pub fn le_write_u64(buf: &mut [u8], offset: usize, data: u64) -> (r: Result<(), PciError>)
    ensures
        offset + 8 <= old(buf).len() ==> r == Ok::<(), PciError>(()) && final(buf)@ == with_le_u64(
            old(buf)@,
            offset as int,
            data,
        ),
        offset + 8 > old(buf).len() ==> r == Err::<(), PciError>(
            PciError::InvalidAccess { offset, size: 8 },
        ) && final(buf)@ == old(buf)@,
{
    if buf.len() < 8 || offset > buf.len() - 8 {
        return Err(PciError::InvalidAccess { offset, size: 8 });
    }
    let low: u32 = (data % 0x1_0000_0000) as u32;
    let high: u32 = (data / 0x1_0000_0000) as u32;
    le_write_u32(buf, offset, low)?;
    le_write_u32(buf, offset + 4, high)
}


/// Offset of the message control register inside the MSI-X capability.
pub const MSIX_CAP_CONTROL: u8 = 0x02;

/// Message control bit: MSI-X is enabled.
pub const MSIX_CAP_ENABLE: u16 = 0x8000;

/// Message control bit: all vectors of the function are masked.
pub const MSIX_CAP_FUNC_MASK: u16 = 0x4000;

/// Address of a base address register whose region is not mapped.
pub const BAR_SPACE_UNMAPPED: u64 = 0xffff_ffff_ffff_ffff;

/// Flag in a base address register: it decodes I/O ports.
pub const BAR_IO_SPACE: u8 = 0x01;

/// Flag in a base address register: it decodes 64-bit memory addresses.
pub const BAR_MEM_64BIT: u8 = 0x04;

/// Flag in a base address register: the memory is prefetchable.
pub const BAR_PREFETCH: u8 = 0x08;

/// The address bits of an I/O base address register.
pub const IO_BASE_ADDR_MASK: u32 = 0xffff_fffc;

/// The address bits of a 32-bit memory base address register.
pub const MEM32_BASE_ADDR_MASK: u32 = 0xffff_fff0;

/// The address bits of a 64-bit memory base address register.
pub const MEM_BASE_ADDR_MASK: u64 = 0xffff_ffff_ffff_fff0;

/// Identifier of the PCI Express capability.
pub const CAP_ID_PCIE: u8 = 0x10;

/// Identifier of the MSI-X capability.
pub const CAP_ID_MSIX: u8 = 0x11;

/// Size in bytes of the PCI Express capability.
pub const PCIE_CAP_SIZE: u8 = 0x3c;

/// Offset of the capabilities register inside the PCI Express capability.
pub const PCIE_CAP_REG: u8 = 0x02;

/// Offset of the device capabilities inside the PCI Express capability.
pub const PCIE_CAP_DEV_CAP: u8 = 0x04;

/// Offset of the device control register inside the PCI Express capability.
pub const PCIE_CAP_DEV_CTL: u8 = 0x08;

/// Offset of the device status register inside the PCI Express capability.
pub const PCIE_CAP_DEV_STAT: u8 = 0x0a;

/// Offset of the link capabilities inside the PCI Express capability.
pub const PCIE_CAP_LINK_CAP: u8 = 0x0c;

/// Offset of the link status register inside the PCI Express capability.
pub const PCIE_CAP_LINK_STAT: u8 = 0x12;

/// Offset of the slot capabilities inside the PCI Express capability.
pub const PCIE_CAP_SLOT_CAP: u8 = 0x14;

/// Offset of the slot control register inside the PCI Express capability.
pub const PCIE_CAP_SLOT_CTL: u8 = 0x18;

/// Offset of the slot status register inside the PCI Express capability.
pub const PCIE_CAP_SLOT_STAT: u8 = 0x1a;

/// Offset of the root control register inside the PCI Express capability.
pub const PCIE_CAP_ROOT_CTL: u8 = 0x1c;

/// Offset of the second device capabilities inside the PCI Express
/// capability.
pub const PCIE_CAP_DEV_CAP2: u8 = 0x24;

/// Offset of the second device control register inside the PCI Express
/// capability.
pub const PCIE_CAP_DEV_CTL2: u8 = 0x28;

/// Capabilities register: the structure has version 2.
pub const PCIE_CAP_VERSION_2: u16 = 0x0002;

/// Capabilities register: the port has a slot.
pub const PCIE_CAP_SLOT_IMPLEMENTED: u16 = 0x0100;

/// Device capabilities: errors are reported by role.
pub const PCIE_CAP_DEV_RBER: u32 = 0x0000_8000;

/// Device control: the four enables of error reporting.
pub const PCIE_CAP_DEV_CTL_ERRORS: u16 = 0x000f;

/// Device status: the four detected-error bits.
pub const PCIE_CAP_DEV_STAT_ERRORS: u16 = 0x000f;

/// Link capabilities of a port one lane wide at 2.5 GT/s that reports link
/// activity and bandwidth changes.
pub const PCIE_CAP_LINK_X1_2_5GT: u32 = 0x0030_0011;

/// Link status of an active link one lane wide at 2.5 GT/s.
pub const PCIE_CAP_LINK_STAT_ACTIVE_X1_2_5GT: u16 = 0x2011;

/// Slot capabilities of a hot-plug slot with attention button, power
/// controller and both indicators.
pub const PCIE_CAP_SLOT_HOTPLUG: u32 = 0x0000_007b;

/// Slot control: both indicators off.
pub const PCIE_CAP_SLOT_INDICATORS_OFF: u16 = 0x03c0;

/// Slot control: the bits that a guest may change.
pub const PCIE_CAP_SLOT_CTL_WRITE_MASK: u16 = 0x0ff9;

/// Slot status: the event bits; a guest may only clear them.
pub const PCIE_CAP_SLOT_STAT_EVENTS: u16 = 0x001f;

/// Root control: the three enables of system errors.
pub const PCIE_CAP_ROOT_CTL_ERRORS: u16 = 0x0007;

/// Second device capabilities and control: alternative routing identifiers
/// are forwarded.
pub const PCIE_CAP_ARI: u16 = 0x0020;

/// The kind of a PCI Express function, as its capability names it.
#[derive(Clone, Copy, PartialEq, Eq, Structural, Debug)]
pub enum PcieDevType {
    /// Endpoint.
    PcieEp,
    /// Legacy endpoint.
    LegacyPcieEp,
    /// Root port of a root complex.
    RootPort,
    /// Upstream port of a switch.
    UpPort,
    /// Downstream port of a switch.
    DownPort,
    /// Bridge from PCI Express to PCI.
    PciePciBridge,
    /// Bridge from PCI to PCI Express.
    PciPcieBridge,
    /// Endpoint integrated in a root complex.
    Rciep,
    /// Event collector of a root complex.
    RcEventCol,
}

impl PcieDevType {
    /// The number that stands for the kind in the capabilities register.
    pub open spec fn spec_code(self) -> u8 {
        match self {
            PcieDevType::PcieEp => 0x00,
            PcieDevType::LegacyPcieEp => 0x01,
            PcieDevType::RootPort => 0x04,
            PcieDevType::UpPort => 0x05,
            PcieDevType::DownPort => 0x06,
            PcieDevType::PciePciBridge => 0x07,
            PcieDevType::PciPcieBridge => 0x08,
            PcieDevType::Rciep => 0x09,
            PcieDevType::RcEventCol => 0x0a,
        }
    }

    /// The number that stands for the kind in the capabilities register.
    #[verifier::when_used_as_spec(spec_code)]
    pub fn code(self) -> (c: u8)
        ensures
            c == self.spec_code(),
    {
        match self {
            PcieDevType::PcieEp => 0x00,
            PcieDevType::LegacyPcieEp => 0x01,
            PcieDevType::RootPort => 0x04,
            PcieDevType::UpPort => 0x05,
            PcieDevType::DownPort => 0x06,
            PcieDevType::PciePciBridge => 0x07,
            PcieDevType::PciPcieBridge => 0x08,
            PcieDevType::Rciep => 0x09,
            PcieDevType::RcEventCol => 0x0a,
        }
    }
}

/// How a base address register decodes addresses.
#[derive(Clone, Copy, PartialEq, Eq, Structural, Debug)]
pub enum RegionType {
    /// I/O ports.
    Io,
    /// Memory below 4 GiB.
    Mem32Bit,
    /// Memory anywhere in the 64-bit space.
    Mem64Bit,
}

/// One base address register and the region it places.
#[derive(Clone, Copy, Debug)]
pub struct Bar {
    /// How the register decodes addresses.
    pub region_type: RegionType,
    /// Where the region is mapped now; `BAR_SPACE_UNMAPPED` when it is not.
    pub address: u64,
    /// Size of the region in bytes; 0 for a register that is not in use.
    pub size: u64,
    /// Handle of the region, for a register that is in use.
    pub region: Option<usize>,
}

/// What the function keeps of its MSI-X capability besides the registers.
#[derive(Clone, Copy, Debug)]
pub struct Msix {
    /// Offset of the capability in the configuration space.
    pub cap_offset: u16,
    /// Size in bytes of the vector table.
    pub table_size: u32,
    /// Size in bytes of the pending bit array.
    pub pba_size: u32,
    /// Whether the guest has enabled MSI-X.
    pub enabled: bool,
    /// Whether the guest has masked all vectors.
    pub func_masked: bool,
    /// Requester identifier that messages of the function carry.
    pub dev_id: u16,
}

/// The configuration space of one function.
#[derive(Debug)]
pub struct PciConfig {
    /// The register bytes.
    pub config: Vec<u8>,
    /// For each bit of `config`, whether a guest write may change it.
    pub write_mask: Vec<u8>,
    /// For each bit of `config`, whether a guest write clears it.
    pub write_clear_mask: Vec<u8>,
    /// The base address registers.
    pub bars: Vec<Bar>,
    /// Offset behind the last standard capability.
    pub last_cap_end: u16,
    /// Offset of the last extended capability; 0 when there is none.
    pub last_ext_cap_offset: u16,
    /// Offset behind the last extended capability.
    pub last_ext_cap_end: u16,
    /// MSI-X state, once the capability was added.
    pub msix: Option<Msix>,
}

/// Whether an access of `size` bytes at `offset` is one that a configuration
/// space of `len` bytes accepts: it lies inside the space and is at most four
/// bytes wide.
pub open spec fn access_valid(len: int, offset: int, size: int) -> bool {
    size <= MAX_ACCESS_SIZE && offset + size <= len
}

/// The value of one register byte after a guest wrote `data` to it: bits
/// under the write mask take the written value, the others keep theirs, and
/// bits under the write-clear mask are then cleared.
pub open spec fn written_byte(old_byte: u8, data: u8, write_mask: u8, write_clear_mask: u8) -> u8 {
    ((old_byte & !write_mask) | (data & write_mask)) & !write_clear_mask
}

/// The register bytes after a guest wrote `data` at `offset`.
pub open spec fn written_config(
    config: Seq<u8>,
    write_mask: Seq<u8>,
    write_clear_mask: Seq<u8>,
    offset: int,
    data: Seq<u8>,
) -> Seq<u8> {
    Seq::new(
        config.len(),
        |i: int|
            if offset <= i < offset + data.len() {
                written_byte(config[i], data[i - offset], write_mask[i], write_clear_mask[i])
            } else {
                config[i]
            },
    )
}

/// The write mask with the header fields that every function lets a guest
/// change: cache line size, interrupt line and the command bits; everything
/// behind the header is writable until a capability claims it.
pub open spec fn common_write_mask(mask: Seq<u8>) -> Seq<u8> {
    let header = with_le_u16(
        mask.update(CACHE_LINE_SIZE as int, 0xffu8).update(INTERRUPT_LINE as int, 0xffu8),
        COMMAND as int,
        COMMAND_WRITE_MASK,
    );
    Seq::new(
        mask.len(),
        |i: int|
            if i >= PCI_CONFIG_HEAD_END {
                0xffu8
            } else {
                header[i]
            },
    )
}

/// The write-clear mask with the error bits of the status register.
pub open spec fn common_write_clear_mask(mask: Seq<u8>) -> Seq<u8> {
    with_le_u16(mask, STATUS as int, STATUS_ERROR_BITS)
}

/// The write mask with the fields that a bridge lets a guest change: the bus
/// numbers, the I/O, memory and prefetchable windows and the bridge control
/// bits.
pub open spec fn bridge_write_mask(mask: Seq<u8>) -> Seq<u8> {
    let io = mask.update(IO_BASE as int, 0xf0u8).update(IO_LIMIT as int, 0xf0u8);
    let bus = with_le_u32(io, PRIMARY_BUS_NUM as int, 0xffff_ffffu32);
    let memory = with_le_u32(bus, MEMORY_BASE as int, 0xfff0_fff0u32);
    let prefetchable = with_le_u32(memory, PREF_MEMORY_BASE as int, 0xfff0_fff0u32);
    let upper = with_le_u64(prefetchable, PREF_MEM_BASE_UPPER as int, 0xffff_ffff_ffff_ffffu64);
    with_le_u16(upper, BRIDGE_CONTROL as int, BRIDGE_CONTROL_WRITE_MASK)
}

/// The write-clear mask with the discard timer status of a bridge.
pub open spec fn bridge_write_clear_mask(mask: Seq<u8>) -> Seq<u8> {
    with_le_u16(mask, BRIDGE_CONTROL as int, BRIDGE_CTL_DISCARD_TIMER_STATUS)
}

/// The MSI-X state after a configuration write with requester identifier
/// `dev_id` left the register bytes `config`: the enable and mask bits
/// follow the message control register.
pub open spec fn msix_after_write(msix: Option<Msix>, config: Seq<u8>, dev_id: u16) -> Option<Msix> {
    match msix {
        Some(m) => Some(
            Msix {
                enabled: le_u16_at(config, m.cap_offset + MSIX_CAP_CONTROL) & MSIX_CAP_ENABLE != 0,
                func_masked: le_u16_at(config, m.cap_offset + MSIX_CAP_CONTROL) & MSIX_CAP_FUNC_MASK
                    != 0,
                dev_id,
                ..m
            },
        ),
        None => None,
    }
}

/// Whether a capability of `size` bytes can follow the capabilities that
/// end at `last_cap_end`: it holds at least its identifier and the pointer
/// to the next one, and the registers it takes end inside the first 256
/// bytes.
pub open spec fn cap_fits(last_cap_end: int, size: int) -> bool {
    size >= 2 && cap_regs_end(last_cap_end, size) <= PCI_CONFIG_SPACE_SIZE
}

/// The end of the registers that a capability of `size` bytes at `offset`
/// takes.
pub open spec fn cap_regs_end(offset: int, size: int) -> int {
    offset + REG_SIZE * ((size + REG_SIZE - 1) / REG_SIZE as int)
}

/// The register bytes after the capability `id` at `offset` became the head
/// of the capability chain.
pub open spec fn config_with_cap(config: Seq<u8>, offset: int, id: u8) -> Seq<u8> {
    config.update(offset, id).update(offset + NEXT_CAP_OFFSET, config[CAP_LIST as int]).update(
        CAP_LIST as int,
        offset as u8,
    ).update(STATUS as int, config[STATUS as int] | STATUS_CAP_LIST as u8)
}

/// The write mask after the registers of a capability of `size` bytes at
/// `offset` became read-only.
pub open spec fn write_mask_with_cap(mask: Seq<u8>, offset: int, size: int) -> Seq<u8> {
    Seq::new(
        mask.len(),
        |i: int|
            if offset <= i < cap_regs_end(offset, size) {
                0u8
            } else {
                mask[i]
            },
    )
}

/// The capabilities register of a function of kind `dev_type`.
pub open spec fn pcie_cap_flags(dev_type: u8) -> u16 {
    (((dev_type % 16) * 16) as u16) | PCIE_CAP_VERSION_2 | PCIE_CAP_SLOT_IMPLEMENTED
}

/// The link capabilities of port `port_num`.
pub open spec fn pcie_link_cap(port_num: u8) -> u32 {
    PCIE_CAP_LINK_X1_2_5GT | ((port_num as u32 * 0x0100_0000) as u32)
}

/// The slot capabilities of the slot that `devfn` lies in.
pub open spec fn pcie_slot_cap(devfn: u8) -> u32 {
    PCIE_CAP_SLOT_HOTPLUG | (((devfn / 8) as u32 * 0x0008_0000) as u32)
}

/// The register bytes after the fields of the PCI Express capability at
/// `cap` were filled in.
pub open spec fn pcie_cap_config(config: Seq<u8>, cap: int, devfn: u8, port_num: u8, dev_type: u8) -> Seq<
    u8,
> {
    let flags = with_le_u16(config, cap + PCIE_CAP_REG, pcie_cap_flags(dev_type));
    let device = with_le_u32(flags, cap + PCIE_CAP_DEV_CAP, PCIE_CAP_DEV_RBER);
    let link = with_le_u32(device, cap + PCIE_CAP_LINK_CAP, pcie_link_cap(port_num));
    let link_status = with_le_u16(
        link,
        cap + PCIE_CAP_LINK_STAT,
        PCIE_CAP_LINK_STAT_ACTIVE_X1_2_5GT,
    );
    let slot = with_le_u32(link_status, cap + PCIE_CAP_SLOT_CAP, pcie_slot_cap(devfn));
    let slot_control = with_le_u16(slot, cap + PCIE_CAP_SLOT_CTL, PCIE_CAP_SLOT_INDICATORS_OFF);
    with_le_u32(slot_control, cap + PCIE_CAP_DEV_CAP2, PCIE_CAP_ARI as u32)
}

/// The write mask after the control registers of the PCI Express capability
/// at `cap` became writable.
pub open spec fn pcie_cap_write_mask(mask: Seq<u8>, cap: int) -> Seq<u8> {
    let device = with_le_u16(mask, cap + PCIE_CAP_DEV_CTL, PCIE_CAP_DEV_CTL_ERRORS);
    let slot = with_le_u16(device, cap + PCIE_CAP_SLOT_CTL, PCIE_CAP_SLOT_CTL_WRITE_MASK);
    let root = with_le_u16(slot, cap + PCIE_CAP_ROOT_CTL, PCIE_CAP_ROOT_CTL_ERRORS);
    with_le_u16(root, cap + PCIE_CAP_DEV_CTL2, PCIE_CAP_ARI)
}

/// The write-clear mask after the status registers of the PCI Express
/// capability at `cap` became clear-on-write.
pub open spec fn pcie_cap_write_clear_mask(mask: Seq<u8>, cap: int) -> Seq<u8> {
    let device = with_le_u16(mask, cap + PCIE_CAP_DEV_STAT, PCIE_CAP_DEV_STAT_ERRORS);
    with_le_u16(device, cap + PCIE_CAP_SLOT_STAT, PCIE_CAP_SLOT_STAT_EVENTS)
}

/// Offset of base address register `id`.
pub open spec fn bar_offset(id: int) -> int {
    BAR_0 + id * REG_SIZE
}

/// The bits of the low half of a base address register that select the
/// address of a region of `size` bytes.
pub open spec fn bar_size_mask_low(size: u64) -> u32 {
    (!((size - 1) as u64) % 0x1_0000_0000) as u32
}

/// The write mask after base address register `id` was set up for a region
/// of `size` bytes.
pub open spec fn bar_write_mask(mask: Seq<u8>, id: int, region_type: RegionType, size: u64) -> Seq<
    u8,
> {
    match region_type {
        RegionType::Io => with_le_u32(
            mask,
            bar_offset(id),
            bar_size_mask_low(size) & IO_BASE_ADDR_MASK,
        ),
        RegionType::Mem32Bit => with_le_u32(
            mask,
            bar_offset(id),
            bar_size_mask_low(size) & MEM32_BASE_ADDR_MASK,
        ),
        RegionType::Mem64Bit => with_le_u64(
            mask,
            bar_offset(id),
            !((size - 1) as u64) & MEM_BASE_ADDR_MASK,
        ),
    }
}

/// The low byte of a base address register after it was set up: the flags
/// that tell its kind.
pub open spec fn bar_flags(old_byte: u8, region_type: RegionType, prefetchable: bool) -> u8 {
    let kind = match region_type {
        RegionType::Io => BAR_IO_SPACE,
        RegionType::Mem32Bit => old_byte,
        RegionType::Mem64Bit => BAR_MEM_64BIT,
    };
    if prefetchable {
        kind | BAR_PREFETCH
    } else {
        kind
    }
}

/// The address that base address register `id` decodes, as the register
/// bytes say: the address bits of the register while the command register
/// enables its kind of access, `BAR_SPACE_UNMAPPED` otherwise.
pub open spec fn bar_address(config: Seq<u8>, region_type: RegionType, id: int) -> u64 {
    let command = le_u16_at(config, COMMAND as int);
    let offset = bar_offset(id);
    if config[offset] & BAR_IO_SPACE != 0 {
        if command & COMMAND_IO_SPACE == 0 {
            BAR_SPACE_UNMAPPED
        } else {
            (le_u32_at(config, offset) & IO_BASE_ADDR_MASK) as u64
        }
    } else if command & COMMAND_MEMORY_SPACE == 0 {
        BAR_SPACE_UNMAPPED
    } else {
        match region_type {
            RegionType::Io => BAR_SPACE_UNMAPPED,
            RegionType::Mem32Bit => (le_u32_at(config, offset) & MEM32_BASE_ADDR_MASK) as u64,
            RegionType::Mem64Bit => le_u64_at(config, offset) & MEM_BASE_ADDR_MASK,
        }
    }
}

/// The container that a base address register maps its region into.
pub open spec fn bar_container(bar: Bar, io_region: usize, mem_region: usize) -> usize {
    if bar.region_type == RegionType::Io {
        io_region
    } else {
        mem_region
    }
}

/// One base address register and the region tree after the register was
/// brought in line with the register bytes, and the error that stopped this.
pub struct BarRemap {
    /// The register.
    pub bar: Bar,
    /// The region tree.
    pub tree: Seq<RegionModel>,
    /// Why the region is not where the register bytes say, if it is not.
    pub error: Option<PciError>,
}

/// All base address registers and the region tree after the registers were
/// brought in line with the register bytes, and the error that stopped this.
pub struct BarsRemap {
    /// The registers.
    pub bars: Seq<Bar>,
    /// The region tree.
    pub tree: Seq<RegionModel>,
    /// Why a region is not where the register bytes say, if one is not.
    pub error: Option<PciError>,
}

/// Brings base address register `id` in line with the register bytes: a
/// register in use whose region is not where the bytes place it has the
/// region taken out of its container and, where the bytes give an address,
/// mapped at that address. A region that cannot be mapped stays unmapped.
pub open spec fn bar_remapped(
    config: Seq<u8>,
    bar: Bar,
    id: int,
    io_region: usize,
    mem_region: usize,
    tree: Seq<RegionModel>,
) -> BarRemap {
    let new_address = bar_address(config, bar.region_type, id);
    let container = bar_container(bar, io_region, mem_region);
    let region = bar.region->0;
    if bar.size == 0 || bar.address == new_address {
        BarRemap { bar, tree, error: None }
    } else if bar.address != BAR_SPACE_UNMAPPED && delete_subregion_error(tree, container, region)
        is Some {
        BarRemap { bar, tree, error: delete_subregion_error(tree, container, region) }
    } else {
        let unmapped = if bar.address != BAR_SPACE_UNMAPPED {
            tree_without_subregion(tree, container, region)
        } else {
            tree
        };
        if new_address == BAR_SPACE_UNMAPPED {
            BarRemap { bar: Bar { address: BAR_SPACE_UNMAPPED, ..bar }, tree: unmapped, error: None }
        } else if add_subregion_error(unmapped, container, region, new_address) is Some {
            BarRemap {
                bar: Bar { address: BAR_SPACE_UNMAPPED, ..bar },
                tree: unmapped,
                error: add_subregion_error(unmapped, container, region, new_address),
            }
        } else {
            BarRemap {
                bar: Bar { address: new_address, ..bar },
                tree: tree_with_subregion(unmapped, container, region, new_address),
                error: None,
            }
        }
    }
}

/// Brings the base address registers from `from` on in line with the
/// register bytes, one after the other, and stops at the first that fails.
pub open spec fn bars_remapped(
    config: Seq<u8>,
    bars: Seq<Bar>,
    io_region: usize,
    mem_region: usize,
    tree: Seq<RegionModel>,
    from: int,
) -> BarsRemap
    decreases bars.len() - from,
{
    if from < 0 || from >= bars.len() {
        BarsRemap { bars, tree, error: None }
    } else {
        let step = bar_remapped(config, bars[from], from, io_region, mem_region, tree);
        if step.error is Some {
            BarsRemap { bars: bars.update(from, step.bar), tree: step.tree, error: step.error }
        } else {
            bars_remapped(
                config,
                bars.update(from, step.bar),
                io_region,
                mem_region,
                step.tree,
                from + 1,
            )
        }
    }
}

impl PciConfig {
    /// The invariant of a configuration space: it has one of the two sizes,
    /// the masks cover it, a base address register in use has a region, and
    /// the MSI-X capability lies inside the space.
    pub open spec fn wf(&self) -> bool {
        &&& (self.config.len() == PCI_CONFIG_SPACE_SIZE || self.config.len()
            == PCIE_CONFIG_SPACE_SIZE)
        &&& self.write_mask.len() == self.config.len()
        &&& self.write_clear_mask.len() == self.config.len()
        &&& self.bars.len() <= 6
        &&& forall|i: int|
            0 <= i < self.bars.len() && (#[trigger] self.bars[i]).size != 0
                ==> self.bars[i].region is Some
        &&& (self.msix matches Some(m) ==> m.cap_offset + 4 <= PCI_CONFIG_SPACE_SIZE)
    }

    /// Tells whether the configuration space is in order; see
    /// [`PciConfig::wf`].
    pub fn is_wf(&self) -> (r: bool)
        ensures
            r == self.wf(),
    {
        let len: usize = self.config.len();
        if (len != PCI_CONFIG_SPACE_SIZE && len != PCIE_CONFIG_SPACE_SIZE) || self.write_mask.len()
            != len || self.write_clear_mask.len() != len || self.bars.len() > 6 {
            return false;
        }
        match self.msix {
            Some(msix) => {
                if msix.cap_offset as usize + 4 > PCI_CONFIG_SPACE_SIZE {
                    return false;
                }
            },
            None => {},
        }
        let n: usize = self.bars.len();
        let mut i: usize = 0;
        while i < n
            invariant
                i <= n,
                n == self.bars.len(),
                forall|k: int|
                    0 <= k < i && (#[trigger] self.bars[k]).size != 0 ==> self.bars[k].region
                        is Some,
            decreases n - i,
        {
            if self.bars[i].size != 0 && self.bars[i].region.is_none() {
                return false;
            }
            i = i + 1;
        }
        true
    }

    /// A configuration space of `config_size` zero bytes with `nr_bar` base
    /// address registers, none of them in use, and no capability.
    pub fn new(config_size: usize, nr_bar: u8) -> (config: PciConfig)
        requires
            config_size == PCI_CONFIG_SPACE_SIZE || config_size == PCIE_CONFIG_SPACE_SIZE,
            nr_bar <= 6,
        ensures
            config.wf(),
            config.config@ == Seq::new(config_size as nat, |i: int| 0u8),
            config.write_mask@ == Seq::new(config_size as nat, |i: int| 0u8),
            config.write_clear_mask@ == Seq::new(config_size as nat, |i: int| 0u8),
            config.bars.len() == nr_bar,
            forall|i: int|
                0 <= i < nr_bar ==> {
                    &&& (#[trigger] config.bars[i]).size == 0
                    &&& config.bars[i].address == 0
                    &&& config.bars[i].region_type == RegionType::Mem32Bit
                    &&& config.bars[i].region is None
                },
            config.last_cap_end == PCI_CONFIG_HEAD_END,
            config.last_ext_cap_offset == 0,
            config.last_ext_cap_end == PCI_CONFIG_SPACE_SIZE,
            config.msix is None,
    {
        let mut bars: Vec<Bar> = Vec::new();
        let mut i: u8 = 0;
        while i < nr_bar
            invariant
                i <= nr_bar,
                bars.len() == i,
                forall|k: int|
                    0 <= k < i ==> {
                        &&& (#[trigger] bars[k]).size == 0
                        &&& bars[k].address == 0
                        &&& bars[k].region_type == RegionType::Mem32Bit
                        &&& bars[k].region is None
                    },
            decreases nr_bar - i,
        {
            bars.push(Bar { region_type: RegionType::Mem32Bit, address: 0, size: 0, region: None });
            i = i + 1;
        }
        let config = PciConfig {
            config: vec![0u8; config_size],
            write_mask: vec![0u8; config_size],
            write_clear_mask: vec![0u8; config_size],
            bars,
            last_cap_end: PCI_CONFIG_HEAD_END as u16,
            last_ext_cap_offset: 0,
            last_ext_cap_end: PCI_CONFIG_SPACE_SIZE as u16,
            msix: None,
        };
        config
    }

    /// Whether everything but the write mask is as in `before`.
    pub open spec fn same_but_write_mask(&self, before: &PciConfig) -> bool {
        &&& self.config == before.config
        &&& self.write_clear_mask == before.write_clear_mask
        &&& self.bars == before.bars
        &&& self.last_cap_end == before.last_cap_end
        &&& self.last_ext_cap_offset == before.last_ext_cap_offset
        &&& self.last_ext_cap_end == before.last_ext_cap_end
        &&& self.msix == before.msix
    }

    /// Whether everything but the write-clear mask is as in `before`.
    pub open spec fn same_but_write_clear_mask(&self, before: &PciConfig) -> bool {
        &&& self.config == before.config
        &&& self.write_mask == before.write_mask
        &&& self.bars == before.bars
        &&& self.last_cap_end == before.last_cap_end
        &&& self.last_ext_cap_offset == before.last_ext_cap_offset
        &&& self.last_ext_cap_end == before.last_ext_cap_end
        &&& self.msix == before.msix
    }

    /// Makes the common header fields writable; see [`common_write_mask`].
    pub fn init_common_write_mask(&mut self) -> (r: Result<(), PciError>)
        requires
            old(self).wf(),
        ensures
            r is Ok,
            final(self).wf(),
            final(self).write_mask@ == common_write_mask(old(self).write_mask@),
            final(self).same_but_write_mask(old(self)),
    {
        self.write_mask[CACHE_LINE_SIZE as usize] = 0xff;
        self.write_mask[INTERRUPT_LINE as usize] = 0xff;
        le_write_u16(self.write_mask.as_mut_slice(), COMMAND as usize, COMMAND_WRITE_MASK)?;
        let ghost header = self.write_mask@;
        let len: usize = self.config.len();
        let mut offset: usize = PCI_CONFIG_HEAD_END as usize;
        while offset < len
            invariant
                PCI_CONFIG_HEAD_END <= offset <= len,
                (len - offset) % 4 == 0,
                len == self.write_mask.len(),
                len == self.config.len(),
                self.same_but_write_mask(old(self)),
                forall|i: int| 0 <= i < PCI_CONFIG_HEAD_END ==> self.write_mask@[i] == header[i],
                forall|i: int| PCI_CONFIG_HEAD_END <= i < offset ==> self.write_mask@[i] == 0xffu8,
            decreases len - offset,
        {
            le_write_u32(self.write_mask.as_mut_slice(), offset, 0xffff_ffff)?;
            offset = offset + 4;
        }
        Ok(())
    }

    /// Makes the error bits of the status register clear on a write; see
    /// [`common_write_clear_mask`].
    pub fn init_common_write_clear_mask(&mut self) -> (r: Result<(), PciError>)
        requires
            old(self).wf(),
        ensures
            r is Ok,
            final(self).wf(),
            final(self).write_clear_mask@ == common_write_clear_mask(old(self).write_clear_mask@),
            final(self).same_but_write_clear_mask(old(self)),
    {
        le_write_u16(self.write_clear_mask.as_mut_slice(), STATUS as usize, STATUS_ERROR_BITS)
    }

    /// Makes the bridge fields of the header writable; see
    /// [`bridge_write_mask`].
    pub fn init_bridge_write_mask(&mut self) -> (r: Result<(), PciError>)
        requires
            old(self).wf(),
        ensures
            r is Ok,
            final(self).wf(),
            final(self).write_mask@ == bridge_write_mask(old(self).write_mask@),
            final(self).same_but_write_mask(old(self)),
    {
        self.write_mask[IO_BASE as usize] = 0xf0;
        self.write_mask[IO_LIMIT as usize] = 0xf0;
        le_write_u32(self.write_mask.as_mut_slice(), PRIMARY_BUS_NUM as usize, 0xffff_ffff)?;
        le_write_u32(self.write_mask.as_mut_slice(), MEMORY_BASE as usize, 0xfff0_fff0)?;
        le_write_u32(self.write_mask.as_mut_slice(), PREF_MEMORY_BASE as usize, 0xfff0_fff0)?;
        le_write_u64(
            self.write_mask.as_mut_slice(),
            PREF_MEM_BASE_UPPER as usize,
            0xffff_ffff_ffff_ffff,
        )?;
        le_write_u16(
            self.write_mask.as_mut_slice(),
            BRIDGE_CONTROL as usize,
            BRIDGE_CONTROL_WRITE_MASK,
        )
    }

    /// Makes the discard timer status of a bridge clear on a write; see
    /// [`bridge_write_clear_mask`].
    pub fn init_bridge_write_clear_mask(&mut self) -> (r: Result<(), PciError>)
        requires
            old(self).wf(),
        ensures
            r is Ok,
            final(self).wf(),
            final(self).write_clear_mask@ == bridge_write_clear_mask(old(self).write_clear_mask@),
            final(self).same_but_write_clear_mask(old(self)),
    {
        le_write_u16(
            self.write_clear_mask.as_mut_slice(),
            BRIDGE_CONTROL as usize,
            BRIDGE_CTL_DISCARD_TIMER_STATUS,
        )
    }

    /// Tells whether the space accepts an access of `size` bytes at `offset`.
    pub fn validate_config_boundary(&self, offset: usize, size: usize) -> (r: Result<(), PciError>)
        ensures
            r == if access_valid(self.config@.len() as int, offset as int, size as int) {
                Ok::<(), PciError>(())
            } else {
                Err::<(), PciError>(PciError::InvalidAccess { offset, size })
            },
    {
        let len: usize = self.config.len();
        if size > MAX_ACCESS_SIZE || offset > len || size > len - offset {
            Err(PciError::InvalidAccess { offset, size })
        } else {
            Ok(())
        }
    }

    /// Copies the register bytes at `offset` into `buf`, as they are. An
    /// access that the space does not accept leaves `buf` as it was.
    pub fn read(&self, offset: usize, buf: &mut [u8])
        ensures
            final(buf)@ == if access_valid(
                self.config@.len() as int,
                offset as int,
                old(buf)@.len() as int,
            ) {
                self.config@.subrange(offset as int, offset + old(buf)@.len())
            } else {
                old(buf)@
            },
    {
        let size: usize = buf.len();
        if self.validate_config_boundary(offset, size).is_err() {
            return ;
        }
        let mut i: usize = 0;
        while i < size
            invariant
                i <= size,
                size == buf.len(),
                offset + size <= self.config.len(),
                forall|k: int| 0 <= k < i ==> buf@[k] == self.config@[offset + k],
            decreases size - i,
        {
            buf[i] = self.config[offset + i];
            i = i + 1;
        }
    }

    /// Whether everything but the register bytes and the MSI-X state is as
    /// in `before`.
    pub open spec fn same_but_registers(&self, before: &PciConfig) -> bool {
        &&& self.write_mask == before.write_mask
        &&& self.write_clear_mask == before.write_clear_mask
        &&& self.bars == before.bars
        &&& self.last_cap_end == before.last_cap_end
        &&& self.last_ext_cap_offset == before.last_ext_cap_offset
        &&& self.last_ext_cap_end == before.last_ext_cap_end
    }

    /// Applies a guest write of `data` at `offset`, byte by byte as
    /// [`written_byte`] says, and lets the MSI-X state follow. An access that
    /// the space does not accept changes nothing at all.
    pub fn write(&mut self, offset: usize, data: &[u8], dev_id: u16)
        requires
            old(self).wf(),
        ensures
            final(self).wf(),
            final(self).same_but_registers(old(self)),
            access_valid(old(self).config@.len() as int, offset as int, data@.len() as int) ==> {
                &&& final(self).config@ == written_config(
                    old(self).config@,
                    old(self).write_mask@,
                    old(self).write_clear_mask@,
                    offset as int,
                    data@,
                )
                &&& final(self).msix == msix_after_write(old(self).msix, final(self).config@, dev_id)
            },
            !access_valid(old(self).config@.len() as int, offset as int, data@.len() as int)
                ==> *final(self) == *old(self),
    {
        let size: usize = data.len();
        if self.validate_config_boundary(offset, size).is_err() {
            return ;
        }
        let mut i: usize = 0;
        while i < size
            invariant
                i <= size,
                size == data.len(),
                offset + size <= self.config.len(),
                self.wf(),
                self.same_but_registers(old(self)),
                self.msix == old(self).msix,
                self.config.len() == old(self).config.len(),
                forall|k: int|
                    0 <= k < offset + i ==> self.config@[k] == written_config(
                        old(self).config@,
                        old(self).write_mask@,
                        old(self).write_clear_mask@,
                        offset as int,
                        data@,
                    )[k],
                forall|k: int|
                    offset + i <= k < self.config.len() ==> self.config@[k] == old(self).config@[k],
            decreases size - i,
        {
            let at: usize = offset + i;
            let old_byte: u8 = self.config[at];
            let write_mask: u8 = self.write_mask[at];
            let write_clear_mask: u8 = self.write_clear_mask[at];
            self.config[at] = ((old_byte & !write_mask) | (data[i] & write_mask)) & !write_clear_mask;
            i = i + 1;
        }
        assert(self.config@ =~= written_config(
            old(self).config@,
            old(self).write_mask@,
            old(self).write_clear_mask@,
            offset as int,
            data@,
        ));
        match self.msix {
            Some(m) => {
                let control: usize = m.cap_offset as usize + MSIX_CAP_CONTROL as usize;
                let low: u16 = self.config[control] as u16;
                let high: u16 = self.config[control + 1] as u16;
                let value: u16 = low + 0x100 * high;
                self.msix = Some(
                    Msix {
                        cap_offset: m.cap_offset,
                        table_size: m.table_size,
                        pba_size: m.pba_size,
                        enabled: value & MSIX_CAP_ENABLE != 0,
                        func_masked: value & MSIX_CAP_FUNC_MASK != 0,
                        dev_id,
                    },
                );
            },
            None => {},
        }
    }
}


impl PciConfig {
    /// Whether everything but the register bytes, the two masks and the end
    /// of the capabilities is as in `before`.
    pub open spec fn same_but_capabilities(&self, before: &PciConfig) -> bool {
        &&& self.bars == before.bars
        &&& self.last_ext_cap_offset == before.last_ext_cap_offset
        &&& self.last_ext_cap_end == before.last_ext_cap_end
        &&& self.msix == before.msix
    }

    /// Appends a capability with identifier `id` and `size` bytes behind the
    /// last one, makes it the head of the capability chain, and makes its
    /// registers read-only. Returns the offset of the capability. Nothing
    /// changes when the capability does not fit; see [`cap_fits`].
    pub fn add_pci_cap(&mut self, id: u8, size: usize) -> (r: Result<usize, PciError>)
        requires
            old(self).wf(),
        ensures
            final(self).wf(),
            match r {
                Ok(offset) => {
                    &&& cap_fits(old(self).last_cap_end as int, size as int)
                    &&& offset == old(self).last_cap_end
                    &&& final(self).config@ == config_with_cap(old(self).config@, offset as int, id)
                    &&& final(self).write_mask@ == write_mask_with_cap(
                        old(self).write_mask@,
                        offset as int,
                        size as int,
                    )
                    &&& final(self).write_clear_mask == old(self).write_clear_mask
                    &&& final(self).last_cap_end == cap_regs_end(offset as int, size as int)
                    &&& final(self).same_but_capabilities(old(self))
                },
                Err(e) => {
                    &&& !cap_fits(old(self).last_cap_end as int, size as int)
                    &&& e == PciError::AddPciCap { id, size }
                    &&& *final(self) == *old(self)
                },
            },
    {
        let offset: usize = self.last_cap_end as usize;
        if size < 2 || size > PCI_CONFIG_SPACE_SIZE || offset > PCI_CONFIG_SPACE_SIZE || (size
            + REG_SIZE - 1) / REG_SIZE * REG_SIZE > PCI_CONFIG_SPACE_SIZE - offset {
            return Err(PciError::AddPciCap { id, size });
        }
        let head: u8 = self.config[CAP_LIST as usize];
        let status: u8 = self.config[STATUS as usize];
        self.config[offset] = id;
        self.config[offset + NEXT_CAP_OFFSET as usize] = head;
        self.config[CAP_LIST as usize] = offset as u8;
        self.config[STATUS as usize] = status | STATUS_CAP_LIST as u8;

        let ghost registers = self.config;
        let regs_num: usize = (size + REG_SIZE - 1) / REG_SIZE;
        let mut i: usize = 0;
        while i < regs_num
            invariant
                i <= regs_num,
                regs_num == (size + REG_SIZE - 1) / REG_SIZE as int,
                offset + REG_SIZE * regs_num <= PCI_CONFIG_SPACE_SIZE,
                offset == old(self).last_cap_end,
                self.last_cap_end == offset + REG_SIZE * i,
                self.write_mask.len() == old(self).write_mask.len(),
                self.write_mask.len() >= PCI_CONFIG_SPACE_SIZE,
                self.config == registers,
                self.write_clear_mask == old(self).write_clear_mask,
                self.same_but_capabilities(old(self)),
                forall|k: int|
                    0 <= k < self.write_mask.len() ==> self.write_mask@[k] == if offset <= k < offset
                        + REG_SIZE * i {
                        0u8
                    } else {
                        old(self).write_mask@[k]
                    },
            decreases regs_num - i,
        {
            let at: usize = self.last_cap_end as usize;
            le_write_u32(self.write_mask.as_mut_slice(), at, 0)?;
            self.last_cap_end = self.last_cap_end + REG_SIZE as u16;
            i = i + 1;
        }
        assert(self.write_mask@ =~= write_mask_with_cap(
            old(self).write_mask@,
            offset as int,
            size as int,
        ));
        Ok(offset)
    }

    /// Appends the PCI Express capability of a function of kind `dev_type`
    /// at `devfn`, behind port `port_num`, and returns its offset. Nothing
    /// changes when the capability does not fit.
    pub fn add_pcie_cap(&mut self, devfn: u8, port_num: u8, dev_type: u8) -> (r: Result<
        usize,
        PciError,
    >)
        requires
            old(self).wf(),
        ensures
            final(self).wf(),
            match r {
                Ok(offset) => {
                    &&& cap_fits(old(self).last_cap_end as int, PCIE_CAP_SIZE as int)
                    &&& offset == old(self).last_cap_end
                    &&& final(self).config@ == pcie_cap_config(
                        config_with_cap(old(self).config@, offset as int, CAP_ID_PCIE),
                        offset as int,
                        devfn,
                        port_num,
                        dev_type,
                    )
                    &&& final(self).write_mask@ == pcie_cap_write_mask(
                        write_mask_with_cap(
                            old(self).write_mask@,
                            offset as int,
                            PCIE_CAP_SIZE as int,
                        ),
                        offset as int,
                    )
                    &&& final(self).write_clear_mask@ == pcie_cap_write_clear_mask(
                        old(self).write_clear_mask@,
                        offset as int,
                    )
                    &&& final(self).last_cap_end == cap_regs_end(offset as int, PCIE_CAP_SIZE as int)
                    &&& final(self).same_but_capabilities(old(self))
                },
                Err(e) => {
                    &&& !cap_fits(old(self).last_cap_end as int, PCIE_CAP_SIZE as int)
                    &&& e == PciError::AddPciCap { id: CAP_ID_PCIE, size: PCIE_CAP_SIZE as usize }
                    &&& *final(self) == *old(self)
                },
            },
    {
        let cap: usize = self.add_pci_cap(CAP_ID_PCIE, PCIE_CAP_SIZE as usize)?;
        let flags: u16 = (((dev_type % 16) * 16) as u16) | PCIE_CAP_VERSION_2
            | PCIE_CAP_SLOT_IMPLEMENTED;
        let link: u32 = PCIE_CAP_LINK_X1_2_5GT | (port_num as u32 * 0x0100_0000);
        let slot: u32 = PCIE_CAP_SLOT_HOTPLUG | ((devfn / 8) as u32 * 0x0008_0000);

        let config = self.config.as_mut_slice();
        le_write_u16(config, cap + PCIE_CAP_REG as usize, flags)?;
        le_write_u32(config, cap + PCIE_CAP_DEV_CAP as usize, PCIE_CAP_DEV_RBER)?;
        le_write_u32(config, cap + PCIE_CAP_LINK_CAP as usize, link)?;
        le_write_u16(config, cap + PCIE_CAP_LINK_STAT as usize, PCIE_CAP_LINK_STAT_ACTIVE_X1_2_5GT)?;
        le_write_u32(config, cap + PCIE_CAP_SLOT_CAP as usize, slot)?;
        le_write_u16(config, cap + PCIE_CAP_SLOT_CTL as usize, PCIE_CAP_SLOT_INDICATORS_OFF)?;
        le_write_u32(config, cap + PCIE_CAP_DEV_CAP2 as usize, PCIE_CAP_ARI as u32)?;

        let write_mask = self.write_mask.as_mut_slice();
        le_write_u16(write_mask, cap + PCIE_CAP_DEV_CTL as usize, PCIE_CAP_DEV_CTL_ERRORS)?;
        le_write_u16(write_mask, cap + PCIE_CAP_SLOT_CTL as usize, PCIE_CAP_SLOT_CTL_WRITE_MASK)?;
        le_write_u16(write_mask, cap + PCIE_CAP_ROOT_CTL as usize, PCIE_CAP_ROOT_CTL_ERRORS)?;
        le_write_u16(write_mask, cap + PCIE_CAP_DEV_CTL2 as usize, PCIE_CAP_ARI)?;

        let write_clear_mask = self.write_clear_mask.as_mut_slice();
        le_write_u16(write_clear_mask, cap + PCIE_CAP_DEV_STAT as usize, PCIE_CAP_DEV_STAT_ERRORS)?;
        le_write_u16(
            write_clear_mask,
            cap + PCIE_CAP_SLOT_STAT as usize,
            PCIE_CAP_SLOT_STAT_EVENTS,
        )?;
        Ok(cap)
    }

    /// Whether everything but the register bytes, the write mask and the base
    /// address registers is as in `before`.
    pub open spec fn same_but_bars(&self, before: &PciConfig) -> bool {
        &&& self.write_clear_mask == before.write_clear_mask
        &&& self.last_cap_end == before.last_cap_end
        &&& self.last_ext_cap_offset == before.last_ext_cap_offset
        &&& self.last_ext_cap_end == before.last_ext_cap_end
        &&& self.msix == before.msix
    }

    /// Sets up base address register `id` for `region`, a region of `size`
    /// bytes: the register shows the kind of the region, a guest may write
    /// the address bits that the size leaves free, and the region starts
    /// out unmapped.
    pub fn register_bar(
        &mut self,
        id: usize,
        region: usize,
        region_type: RegionType,
        prefetchable: bool,
        size: u64,
    )
        requires
            old(self).wf(),
            id < old(self).bars.len(),
            size > 0,
        ensures
            final(self).wf(),
            final(self).config@ == old(self).config@.update(
                bar_offset(id as int),
                bar_flags(old(self).config@[bar_offset(id as int)], region_type, prefetchable),
            ),
            final(self).write_mask@ == bar_write_mask(
                old(self).write_mask@,
                id as int,
                region_type,
                size,
            ),
            final(self).bars@ == old(self).bars@.update(
                id as int,
                Bar { region_type, address: BAR_SPACE_UNMAPPED, size, region: Some(region) },
            ),
            final(self).same_but_bars(old(self)),
    {
        let offset: usize = BAR_0 as usize + id * REG_SIZE;
        let inverse: u64 = !(size - 1);
        let low: u32 = (inverse % 0x1_0000_0000) as u32;
        let old_byte: u8 = self.config[offset];
        let mut flags: u8 = old_byte;
        match region_type {
            RegionType::Io => {
                le_write_u32(self.write_mask.as_mut_slice(), offset, low & IO_BASE_ADDR_MASK)
                    .unwrap();
                flags = BAR_IO_SPACE;
            },
            RegionType::Mem32Bit => {
                le_write_u32(self.write_mask.as_mut_slice(), offset, low & MEM32_BASE_ADDR_MASK)
                    .unwrap();
            },
            RegionType::Mem64Bit => {
                le_write_u64(self.write_mask.as_mut_slice(), offset, inverse & MEM_BASE_ADDR_MASK)
                    .unwrap();
                flags = BAR_MEM_64BIT;
            },
        }
        if prefetchable {
            flags = flags | BAR_PREFETCH;
        }
        self.config[offset] = flags;
        self.bars[id] = Bar { region_type, address: BAR_SPACE_UNMAPPED, size, region: Some(region) };
    }

    /// The address that base address register `id` decodes now; see
    /// [`bar_address`].
    pub fn get_bar_address(&self, id: usize) -> (address: u64)
        requires
            self.wf(),
            id < self.bars.len(),
        ensures
            address == bar_address(self.config@, self.bars[id as int].region_type, id as int),
    {
        let low: u16 = self.config[COMMAND as usize] as u16;
        let high: u16 = self.config[COMMAND as usize + 1] as u16;
        let command: u16 = low + 0x100 * high;
        let offset: usize = BAR_0 as usize + id * REG_SIZE;
        if self.config[offset] & BAR_IO_SPACE != 0 {
            if command & COMMAND_IO_SPACE == 0 {
                return BAR_SPACE_UNMAPPED;
            }
            return match le_read_u32(self.config.as_slice(), offset) {
                Ok(value) => (value & IO_BASE_ADDR_MASK) as u64,
                Err(_) => BAR_SPACE_UNMAPPED,
            };
        }
        if command & COMMAND_MEMORY_SPACE == 0 {
            return BAR_SPACE_UNMAPPED;
        }
        match self.bars[id].region_type {
            RegionType::Io => BAR_SPACE_UNMAPPED,
            RegionType::Mem32Bit => match le_read_u32(self.config.as_slice(), offset) {
                Ok(value) => (value & MEM32_BASE_ADDR_MASK) as u64,
                Err(_) => BAR_SPACE_UNMAPPED,
            },
            RegionType::Mem64Bit => match le_read_u64(self.config.as_slice(), offset) {
                Ok(value) => value & MEM_BASE_ADDR_MASK,
                Err(_) => BAR_SPACE_UNMAPPED,
            },
        }
    }

    /// Whether everything but the base address registers is as in `before`.
    pub open spec fn same_but_bar_state(&self, before: &PciConfig) -> bool {
        &&& self.config == before.config
        &&& self.write_mask == before.write_mask
        &&& self.write_clear_mask == before.write_clear_mask
        &&& self.last_cap_end == before.last_cap_end
        &&& self.last_ext_cap_offset == before.last_ext_cap_offset
        &&& self.last_ext_cap_end == before.last_ext_cap_end
        &&& self.msix == before.msix
    }

    /// Brings base address register `id` in line with the register bytes;
    /// see [`bar_remapped`].
    fn remap_bar(
        &mut self,
        id: usize,
        io_region: usize,
        mem_region: usize,
        regions: &mut RegionTree,
    ) -> (r: Result<(), PciError>)
        requires
            old(self).wf(),
            old(regions).wf(),
            id < old(self).bars.len(),
        ensures
            final(self).wf(),
            final(regions).wf(),
            final(self).same_but_bar_state(old(self)),
            ({
                let step = bar_remapped(
                    old(self).config@,
                    old(self).bars[id as int],
                    id as int,
                    io_region,
                    mem_region,
                    old(regions)@,
                );
                &&& final(self).bars@ == old(self).bars@.update(id as int, step.bar)
                &&& final(regions)@ == step.tree
                &&& match r {
                    Ok(()) => step.error is None,
                    Err(e) => step.error == Some(e),
                }
            }),
    {
        let bar: Bar = self.bars[id];
        if bar.size == 0 {
            return Ok(());
        }
        let new_address: u64 = self.get_bar_address(id);
        if bar.address == new_address {
            return Ok(());
        }
        let container: usize = match bar.region_type {
            RegionType::Io => io_region,
            _ => mem_region,
        };
        let region: usize = match bar.region {
            Some(region) => region,
            None => 0,
        };
        if bar.address != BAR_SPACE_UNMAPPED {
            match regions.delete_subregion(container, region) {
                Ok(()) => {},
                Err(e) => {
                    return Err(e);
                },
            }
            self.bars[id].address = BAR_SPACE_UNMAPPED;
        }
        if new_address != BAR_SPACE_UNMAPPED {
            match regions.add_subregion(container, region, new_address) {
                Ok(()) => {},
                Err(e) => {
                    assert(self.bars@ =~= old(self).bars@.update(
                        id as int,
                        Bar { address: BAR_SPACE_UNMAPPED, ..bar },
                    ));
                    return Err(e);
                },
            }
            self.bars[id].address = new_address;
        }
        Ok(())
    }

    /// Brings every base address register in line with the register bytes,
    /// in the containers `io_region` and `mem_region`; see [`bars_remapped`].
    /// The first region that cannot be moved stops the work and is reported.
    pub fn update_bar_mapping(
        &mut self,
        io_region: usize,
        mem_region: usize,
        regions: &mut RegionTree,
    ) -> (r: Result<(), PciError>)
        requires
            old(self).wf(),
            old(regions).wf(),
        ensures
            final(self).wf(),
            final(regions).wf(),
            final(self).same_but_bar_state(old(self)),
            ({
                let done = bars_remapped(
                    old(self).config@,
                    old(self).bars@,
                    io_region,
                    mem_region,
                    old(regions)@,
                    0,
                );
                &&& final(self).bars@ == done.bars
                &&& final(regions)@ == done.tree
                &&& match r {
                    Ok(()) => done.error is None,
                    Err(e) => done.error == Some(e),
                }
            }),
    {
        let n: usize = self.bars.len();
        let mut id: usize = 0;
        while id < n
            invariant
                id <= n,
                n == self.bars.len(),
                self.wf(),
                regions.wf(),
                self.same_but_bar_state(old(self)),
                bars_remapped(self.config@, self.bars@, io_region, mem_region, regions@, id as int)
                    == bars_remapped(
                    old(self).config@,
                    old(self).bars@,
                    io_region,
                    mem_region,
                    old(regions)@,
                    0,
                ),
            decreases n - id,
        {
            self.remap_bar(id, io_region, mem_region, regions)?;
            id = id + 1;
        }
        Ok(())
    }
}


/// A write of one byte at a place inside the space changes that byte
/// alone: bits under the write mask take the written value, the others keep
/// theirs, and bits under the write-clear mask are then cleared.
pub proof fn lemma_single_byte_write(
    config: Seq<u8>,
    write_mask: Seq<u8>,
    write_clear_mask: Seq<u8>,
    offset: int,
    byte: u8,
)
    requires
        0 <= offset < config.len(),
    ensures
        written_config(config, write_mask, write_clear_mask, offset, seq![byte]) == config.update(
            offset,
            ((config[offset] & !write_mask[offset]) | (byte & write_mask[offset]))
                & !write_clear_mask[offset],
        ),
{
    assert(written_config(config, write_mask, write_clear_mask, offset, seq![byte])
        =~= config.update(
        offset,
        ((config[offset] & !write_mask[offset]) | (byte & write_mask[offset]))
            & !write_clear_mask[offset],
    ));
}

/// A write reaches no bit that the masks do not give it: a bit outside both
/// masks keeps its value whatever is written, a bit under the write mask
/// alone takes the written value, and a bit under the write-clear mask is
/// clear afterwards.
pub proof fn lemma_written_byte_respects_masks(
    old_byte: u8,
    data: u8,
    write_mask: u8,
    write_clear_mask: u8,
)
    ensures
        written_byte(old_byte, data, write_mask, write_clear_mask) & !write_mask
            & !write_clear_mask == old_byte & !write_mask & !write_clear_mask,
        written_byte(old_byte, data, write_mask, write_clear_mask) & write_mask
            & !write_clear_mask == data & write_mask & !write_clear_mask,
        written_byte(old_byte, data, write_mask, write_clear_mask) & write_clear_mask == 0,
{
    assert(written_byte(old_byte, data, write_mask, write_clear_mask) & !write_mask
        & !write_clear_mask == old_byte & !write_mask & !write_clear_mask && written_byte(
        old_byte,
        data,
        write_mask,
        write_clear_mask,
    ) & write_mask & !write_clear_mask == data & write_mask & !write_clear_mask && written_byte(
        old_byte,
        data,
        write_mask,
        write_clear_mask,
    ) & write_clear_mask == 0) by (bit_vector);
}

/// A write changes no byte outside the range it is made to, and keeps the
/// size of the space.
pub proof fn lemma_write_stays_in_range(
    config: Seq<u8>,
    write_mask: Seq<u8>,
    write_clear_mask: Seq<u8>,
    offset: int,
    data: Seq<u8>,
    at: int,
)
    requires
        0 <= at < config.len(),
        at < offset || at >= offset + data.len(),
    ensures
        written_config(config, write_mask, write_clear_mask, offset, data).len() == config.len(),
        written_config(config, write_mask, write_clear_mask, offset, data)[at] == config[at],
{
}

/// Moving the regions behind base address registers leaves the regions
/// themselves, and the number of registers, as they are.
pub proof fn lemma_bars_remapped_same_regions(
    config: Seq<u8>,
    bars: Seq<Bar>,
    io_region: usize,
    mem_region: usize,
    tree: Seq<RegionModel>,
    from: int,
)
    ensures
        same_regions(tree, bars_remapped(config, bars, io_region, mem_region, tree, from).tree),
        bars_remapped(config, bars, io_region, mem_region, tree, from).bars.len() == bars.len(),
    decreases bars.len() - from,
{
    if 0 <= from < bars.len() {
        let step = bar_remapped(config, bars[from], from, io_region, mem_region, tree);
        assert(same_regions(tree, step.tree));
        if step.error is None {
            lemma_bars_remapped_same_regions(
                config,
                bars.update(from, step.bar),
                io_region,
                mem_region,
                step.tree,
                from + 1,
            );
            let done = bars_remapped(
                config,
                bars.update(from, step.bar),
                io_region,
                mem_region,
                step.tree,
                from + 1,
            );
            assert forall|i: int| 0 <= i < tree.len() implies (#[trigger] tree[i]).kind
                == done.tree[i].kind && tree[i].size == done.tree[i].size by {
                assert(step.tree[i].kind == done.tree[i].kind);
            }
        }
    }
}


/// Moving the regions behind base address registers leaves a region tree
/// that is in order in order, whether or not every region finds its place.
pub proof fn lemma_bars_remapped_keeps_wf(
    config: Seq<u8>,
    bars: Seq<Bar>,
    io_region: usize,
    mem_region: usize,
    tree: Seq<RegionModel>,
    from: int,
)
    requires
        tree_wf(tree),
    ensures
        tree_wf(bars_remapped(config, bars, io_region, mem_region, tree, from).tree),
    decreases bars.len() - from,
{
    if 0 <= from < bars.len() {
        let bar = bars[from];
        let step = bar_remapped(config, bar, from, io_region, mem_region, tree);
        let container = bar_container(bar, io_region, mem_region);
        let region = bar.region->0;
        let new_address = bar_address(config, bar.region_type, from);
        if bar.size != 0 && bar.address != new_address {
            if bar.address != BAR_SPACE_UNMAPPED && delete_subregion_error(tree, container, region)
                is None {
                lemma_delete_keeps_wf(tree, container, region);
            }
            let unmapped = if bar.address != BAR_SPACE_UNMAPPED {
                tree_without_subregion(tree, container, region)
            } else {
                tree
            };
            if (bar.address == BAR_SPACE_UNMAPPED || delete_subregion_error(tree, container, region)
                is None) && new_address != BAR_SPACE_UNMAPPED && add_subregion_error(
                unmapped,
                container,
                region,
                new_address,
            ) is None {
                lemma_add_keeps_wf(unmapped, container, region, new_address);
            }
        }
        assert(tree_wf(step.tree));
        if step.error is None {
            lemma_bars_remapped_keeps_wf(
                config,
                bars.update(from, step.bar),
                io_region,
                mem_region,
                step.tree,
                from + 1,
            );
        }
    }
}


/// Moving the regions behind base address registers changes the entries of
/// the two windows only: every other region of the tree is as it was.
pub proof fn lemma_bars_remapped_elsewhere(
    config: Seq<u8>,
    bars: Seq<Bar>,
    io_region: usize,
    mem_region: usize,
    tree: Seq<RegionModel>,
    from: int,
    elsewhere: int,
)
    requires
        0 <= elsewhere < tree.len(),
        elsewhere != io_region,
        elsewhere != mem_region,
    ensures
        bars_remapped(config, bars, io_region, mem_region, tree, from).tree[elsewhere]
            == tree[elsewhere],
    decreases bars.len() - from,
{
    if 0 <= from < bars.len() {
        let step = bar_remapped(config, bars[from], from, io_region, mem_region, tree);
        assert(step.tree[elsewhere] == tree[elsewhere]);
        assert(step.tree.len() == tree.len());
        if step.error is None {
            lemma_bars_remapped_elsewhere(
                config,
                bars.update(from, step.bar),
                io_region,
                mem_region,
                step.tree,
                from + 1,
                elsewhere,
            );
        }
    }
}

} // verus!
