//! The MSI-X capability of a function: its registers in the configuration
//! space and the region that holds the vector table and the pending bits.

use vstd::prelude::*;
use crate::config::{
    cap_fits, cap_regs_end, config_with_cap, le_write_u16, le_write_u32, with_le_u16, with_le_u32,
    write_mask_with_cap, bar_flags, bar_offset, bar_write_mask, Bar, Msix, PciConfig, RegionType,
    BAR_SPACE_UNMAPPED, CAP_ID_MSIX, MSIX_CAP_CONTROL, MSIX_CAP_ENABLE, MSIX_CAP_FUNC_MASK,
};
use crate::errors::PciError;
use crate::num_ops::{round_up, round_up_value};
use crate::region::{RegionKind, RegionModel, RegionTree, SubRegion};

verus! {

/// Size in bytes of the MSI-X capability.
pub const MSIX_CAP_SIZE: u8 = 12;

/// Offset of the table offset register inside the MSI-X capability.
pub const MSIX_CAP_TABLE: u8 = 0x04;

/// Offset of the pending bit array offset register inside the MSI-X
/// capability.
pub const MSIX_CAP_PBA: u8 = 0x08;

/// Size in bytes of one entry of the vector table.
pub const MSIX_TABLE_ENTRY_SIZE: u32 = 16;

/// Largest number of vectors that a function can have.
pub const MSIX_VECTORS_MAX: u32 = 2048;

/// Smallest size of a memory region behind a base address register.
pub const MINIMUM_BAR_SIZE_FOR_MMIO: u64 = 0x1000;

/// The first of `p`, `2p`, `4p`, ... that is not below `x`.
pub open spec fn doubled_up_to(p: int, x: int) -> int
    decreases
            (if p < x {
                x - p
            } else {
                0
            }),
{
    if p >= x || p <= 0 {
        p
    } else {
        doubled_up_to(2 * p, x)
    }
}

/// The smallest power of two that is not below `x`.
pub open spec fn next_power_of_two(x: int) -> int {
    doubled_up_to(1, x)
}

/// Size in bytes of the vector table for `vector_nr` vectors.
pub open spec fn msix_table_size(vector_nr: u32) -> int {
    vector_nr * MSIX_TABLE_ENTRY_SIZE
}

/// Size in bytes of the pending bit array for `vector_nr` vectors: one bit
/// for each vector, in words of 64 bits.
pub open spec fn msix_pba_size(vector_nr: u32) -> int {
    round_up_value(vector_nr as int, 64) / 64 * 8
}

/// Size in bytes of the region that holds the table and the pending bits of
/// `vector_nr` vectors: a power of two, and at least one page.
pub open spec fn msix_bar_size(vector_nr: u32) -> int {
    round_up_value(
        next_power_of_two(msix_table_size(vector_nr) + msix_pba_size(vector_nr)),
        MINIMUM_BAR_SIZE_FOR_MMIO as int,
    )
}

/// Why a function whose capabilities end at `last_cap_end` and that has
/// `nr_bar` base address registers cannot get an MSI-X capability with
/// `vector_nr` vectors behind register `bar_id`, if it cannot.
pub open spec fn init_msix_error(bar_id: usize, vector_nr: u32, nr_bar: int, last_cap_end: int) -> Option<
    PciError,
> {
    if vector_nr == 0 || vector_nr > MSIX_VECTORS_MAX {
        Some(PciError::InvalidVectorNumber { vector_nr })
    } else if bar_id >= nr_bar {
        Some(PciError::InvalidBar { id: bar_id })
    } else if !cap_fits(last_cap_end, MSIX_CAP_SIZE as int) {
        Some(PciError::AddPciCap { id: CAP_ID_MSIX, size: MSIX_CAP_SIZE as usize })
    } else {
        None
    }
}

/// The register bytes after the MSI-X capability at `cap` was filled in for
/// `vector_nr` vectors whose table and pending bits lie behind base address
/// register `bar_id`.
pub open spec fn msix_cap_config(config: Seq<u8>, cap: int, bar_id: usize, vector_nr: u32) -> Seq<u8> {
    let control = with_le_u16(config, cap + MSIX_CAP_CONTROL, (vector_nr - 1) as u16);
    let table = with_le_u32(control, cap + MSIX_CAP_TABLE, bar_id as u32);
    with_le_u32(table, cap + MSIX_CAP_PBA, (msix_table_size(vector_nr) as u32) | (bar_id as u32))
}

/// The write mask after the enable and mask bits of the MSI-X capability at
/// `cap` became writable.
pub open spec fn msix_cap_write_mask(mask: Seq<u8>, cap: int) -> Seq<u8> {
    with_le_u16(mask, cap + MSIX_CAP_CONTROL, MSIX_CAP_FUNC_MASK | MSIX_CAP_ENABLE)
}

/// Doubling reaches the bound and does not pass twice the bound.
pub proof fn lemma_doubled_up_to_bounds(p: int, x: int)
    requires
        0 < p,
    ensures
        doubled_up_to(p, x) >= x,
        doubled_up_to(p, x) >= p,
        p <= x ==> doubled_up_to(p, x) < 2 * x,
        p > x ==> doubled_up_to(p, x) == p,
    decreases
            (if p < x {
                x - p
            } else {
                0
            }),
{
    if p < x {
        lemma_doubled_up_to_bounds(2 * p, x);
    }
}

/// The smallest power of two that is not below `x`, for an `x` whose double
/// fits in 64 bits.
fn next_power_of_two_u64(x: u64) -> (r: u64)
    requires
        x <= 0x4000_0000_0000_0000,
    ensures
        r == next_power_of_two(x as int),
        r >= x,
        r >= 1,
        r < 2 * x || r == 1,
{
    proof {
        lemma_doubled_up_to_bounds(1, x as int);
    }
    let mut p: u64 = 1;
    while p < x
        invariant
            0 < p,
            p < 2 * x || p == 1,
            x <= 0x4000_0000_0000_0000,
            doubled_up_to(p as int, x as int) == doubled_up_to(1, x as int),
        decreases
                (if p < x {
                    x - p
                } else {
                    0
                }),
    {
        p = 2 * p;
    }
    p
}

/// Size in bytes of the region for `vector_nr` vectors; see
/// [`msix_bar_size`].
fn bar_size_for(vector_nr: u32) -> (r: (u32, u32, u64))
    requires
        0 < vector_nr <= MSIX_VECTORS_MAX,
    ensures
        r.0 == msix_table_size(vector_nr),
        r.1 == msix_pba_size(vector_nr),
        r.2 == msix_bar_size(vector_nr),
        r.2 > 0,
{
    let table_size: u32 = vector_nr * MSIX_TABLE_ENTRY_SIZE;
    let words: u64 = match round_up(vector_nr as u64, 64) {
        Some(rounded) => rounded / 64,
        None => 0,
    };
    proof {
        crate::num_ops::lemma_round_brackets(vector_nr as int, 64);
    }
    let pba_size: u32 = (words * 8) as u32;
    let needed: u64 = table_size as u64 + pba_size as u64;
    let power: u64 = next_power_of_two_u64(needed);
    proof {
        crate::num_ops::lemma_round_brackets(power as int, MINIMUM_BAR_SIZE_FOR_MMIO as int);
    }
    let bar_size: u64 = match round_up(power, MINIMUM_BAR_SIZE_FOR_MMIO) {
        Some(size) => size,
        None => MINIMUM_BAR_SIZE_FOR_MMIO,
    };
    (table_size, pba_size, bar_size)
}

/// Gives the function an MSI-X capability with `vector_nr` vectors: appends
/// the capability, creates a memory region for the vector table and the
/// pending bits, and sets up base address register `bar_id` for it. Nothing
/// changes when this fails; see [`init_msix_error`].
pub fn init_msix(
    bar_id: usize,
    vector_nr: u32,
    config: &mut PciConfig,
    regions: &mut RegionTree,
    dev_id: u16,
) -> (r: Result<(), PciError>)
    requires
        old(config).wf(),
        old(regions).wf(),
    ensures
        final(config).wf(),
        final(regions).wf(),
        match r {
            Ok(()) => {
                let cap = old(config).last_cap_end as int;
                let with_cap = msix_cap_config(
                    config_with_cap(old(config).config@, cap, CAP_ID_MSIX),
                    cap,
                    bar_id,
                    vector_nr,
                );
                let region = old(regions)@.len() as usize;
                &&& init_msix_error(
                    bar_id,
                    vector_nr,
                    old(config).bars.len() as int,
                    old(config).last_cap_end as int,
                ) is None
                &&& final(config).config@ == with_cap.update(
                    bar_offset(bar_id as int),
                    bar_flags(with_cap[bar_offset(bar_id as int)], RegionType::Mem32Bit, false),
                )
                &&& final(config).write_mask@ == bar_write_mask(
                    msix_cap_write_mask(
                        write_mask_with_cap(old(config).write_mask@, cap, MSIX_CAP_SIZE as int),
                        cap,
                    ),
                    bar_id as int,
                    RegionType::Mem32Bit,
                    msix_bar_size(vector_nr) as u64,
                )
                &&& final(config).write_clear_mask == old(config).write_clear_mask
                &&& final(config).bars@ == old(config).bars@.update(
                    bar_id as int,
                    Bar {
                        region_type: RegionType::Mem32Bit,
                        address: BAR_SPACE_UNMAPPED,
                        size: msix_bar_size(vector_nr) as u64,
                        region: Some(region),
                    },
                )
                &&& final(config).last_cap_end == cap_regs_end(cap, MSIX_CAP_SIZE as int)
                &&& final(config).last_ext_cap_offset == old(config).last_ext_cap_offset
                &&& final(config).last_ext_cap_end == old(config).last_ext_cap_end
                &&& final(config).msix == Some(
                    Msix {
                        cap_offset: cap as u16,
                        table_size: msix_table_size(vector_nr) as u32,
                        pba_size: msix_pba_size(vector_nr) as u32,
                        enabled: false,
                        func_masked: false,
                        dev_id,
                    },
                )
                &&& final(regions)@ == old(regions)@.push(
                    RegionModel {
                        kind: RegionKind::Memory,
                        size: msix_bar_size(vector_nr) as u64,
                        subregions: Seq::<SubRegion>::empty(),
                    },
                )
            },
            Err(e) => {
                &&& init_msix_error(
                    bar_id,
                    vector_nr,
                    old(config).bars.len() as int,
                    old(config).last_cap_end as int,
                ) == Some(e)
                &&& *final(config) == *old(config)
                &&& final(regions)@ == old(regions)@
            },
        },
{
    if vector_nr == 0 || vector_nr > MSIX_VECTORS_MAX {
        return Err(PciError::InvalidVectorNumber { vector_nr });
    }
    if bar_id >= config.bars.len() {
        return Err(PciError::InvalidBar { id: bar_id });
    }
    let cap: usize = config.add_pci_cap(CAP_ID_MSIX, MSIX_CAP_SIZE as usize)?;
    let (table_size, pba_size, bar_size) = bar_size_for(vector_nr);

    let registers = config.config.as_mut_slice();
    le_write_u16(registers, cap + MSIX_CAP_CONTROL as usize, (vector_nr - 1) as u16)?;
    le_write_u32(registers, cap + MSIX_CAP_TABLE as usize, bar_id as u32)?;
    le_write_u32(registers, cap + MSIX_CAP_PBA as usize, table_size | (bar_id as u32))?;
    le_write_u16(
        config.write_mask.as_mut_slice(),
        cap + MSIX_CAP_CONTROL as usize,
        MSIX_CAP_FUNC_MASK | MSIX_CAP_ENABLE,
    )?;

    let region: usize = regions.init_container_region(RegionKind::Memory, bar_size);
    config.register_bar(bar_id, region, RegionType::Mem32Bit, false, bar_size);
    config.msix = Some(
        Msix {
            cap_offset: cap as u16,
            table_size,
            pba_size,
            enabled: false,
            func_masked: false,
            dev_id,
        },
    );
    Ok(())
}

} // verus!
