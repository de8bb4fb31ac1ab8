//! The PCI Express root port: a bridge function with a secondary bus and
//! two forwarded address windows.

use vstd::prelude::*;
use crate::bus::PciBus;
use crate::config::{
    access_valid, bar_flags, bar_offset, bar_write_mask, bars_remapped, bridge_write_clear_mask,
    bridge_write_mask, cap_fits, cap_regs_end, common_write_clear_mask, common_write_mask,
    config_with_cap, le_read_u16, le_u16_at, le_write_u16, lemma_bars_remapped_elsewhere,
    lemma_bars_remapped_keeps_wf,
    lemma_bars_remapped_same_regions, msix_after_write, pcie_cap_config,
    pcie_cap_write_clear_mask, pcie_cap_write_mask, ranges_overlap, spec_ranges_overlap,
    with_le_u16, write_mask_with_cap, written_config, Bar, BarsRemap, Msix, PciConfig,
    PcieDevType, RegionType, BAR_0, BAR_SPACE_UNMAPPED, CAP_ID_MSIX, CAP_ID_PCIE,
    CLASS_CODE_PCI_BRIDGE, COMMAND, COMMAND_IO_SPACE, COMMAND_MEMORY_SPACE, DEVICE_ID,
    HEADER_TYPE, HEADER_TYPE_BRIDGE, IO_BASE, MAX_ACCESS_SIZE, MEMORY_BASE, PCIE_CAP_SIZE,
    PCIE_CONFIG_SPACE_SIZE, PCI_CONFIG_HEAD_END, PCI_CONFIG_SPACE_SIZE, PCI_VENDOR_ID_REDHAT,
    PREF_MEMORY_BASE, PREF_MEMORY_LIMIT, PREF_MEM_RANGE_64BIT, REG_SIZE, SUB_CLASS_CODE,
    VENDOR_ID,
};
use crate::errors::PciError;
use crate::host::{init_multifunction, multifunction_error, with_multifunction, PciHost};
use crate::msix::{
    init_msix, init_msix_error, msix_bar_size, msix_cap_config, msix_cap_write_mask,
    msix_pba_size, msix_table_size, MSIX_CAP_SIZE,
};
use crate::migration::{
    decode_state, encode_state, padded, RootPortState, StateModel, UNKNOWN_DEVICE_ALIAS,
};
use crate::region::{
    lemma_remap_fixed_point_is_local, lemma_remap_idempotent, lemma_remap_is_local,
    lemma_remap_keeps_other_entries, lemma_remap_keeps_wf, lemma_remap_same_regions, mapped_at,
    add_subregion_error, lemma_add_error_after_push, lemma_add_error_elsewhere,
    remap_subregion_error, same_regions, tree_remapped, tree_wf, tree_with_subregion,
    RegionKind, RegionModel, RegionTree, SubRegion,
};

verus! {

/// Device ID of the root port.
pub const DEVICE_ID_RP: u16 = 0x000c;

/// Size in bytes of the I/O window of a root port.
pub const IO_WINDOW_SIZE: u64 = 0x1_0000;

/// Size in bytes of the memory window of a root port.
pub const MEM_WINDOW_SIZE: u64 = 0xffff_ffff_ffff_ffff;

/// A PCI Express root port.
#[derive(Debug)]
pub struct RootPort {
    /// Name of the port; the secondary bus carries it too.
    pub name: String,
    /// Slot and function number on the parent bus.
    pub devfn: u8,
    /// Number of the port in the root complex.
    pub port_num: u8,
    /// The configuration space.
    pub config: PciConfig,
    /// Handle of the bus that the port sits on. It names the bus and does
    /// not keep it alive.
    pub parent_bus: usize,
    /// Handle of the secondary bus.
    pub sec_bus: usize,
    /// Handle of the forwarded I/O window: the I/O container of the
    /// secondary bus.
    pub io_region: usize,
    /// Handle of the forwarded memory window: the memory container of the
    /// secondary bus.
    pub mem_region: usize,
    /// Requester identifier of the port.
    pub dev_id: u16,
    /// Whether the slot of the port holds more functions.
    pub multifunction: bool,
}

/// What a write to the configuration space of a root port came to.
#[derive(Debug)]
pub struct WriteOutcome {
    /// Whether the access was one that the configuration space accepts. A
    /// write that was not accepted changed nothing.
    pub accepted: bool,
    /// Why a region behind a base address register is not where the
    /// registers place it, if one is not.
    pub bar_error: Option<PciError>,
    /// Why the I/O window is not mapped into the parent, if it should be
    /// and is not.
    pub io_error: Option<PciError>,
    /// Why the memory window is not mapped into the parent, if it should be
    /// and is not.
    pub mem_error: Option<PciError>,
}

/// Whether a write to `[offset, end)` calls for the base address registers
/// to be looked at again: it writes a byte of the command register or of
/// one of the two base address registers of a bridge.
pub open spec fn write_touches_bars(offset: int, end: int) -> bool {
    spec_ranges_overlap(offset, end, COMMAND as int, COMMAND + 2) || spec_ranges_overlap(
        offset,
        end,
        BAR_0 as int,
        BAR_0 + REG_SIZE * 2,
    )
}

/// Whether a write to `[offset, end)` calls for the forwarded windows to be
/// looked at again: it writes a byte of the command register, of the I/O
/// base and limit, or of the memory and prefetchable base and limit
/// registers.
pub open spec fn write_touches_windows(offset: int, end: int) -> bool {
    spec_ranges_overlap(offset, end, COMMAND as int, COMMAND + 2) || spec_ranges_overlap(
        offset,
        end,
        IO_BASE as int,
        IO_BASE + 2,
    ) || spec_ranges_overlap(offset, end, MEMORY_BASE as int, MEMORY_BASE + 20)
}

/// What an accepted write does beyond the register bytes.
pub struct WriteEffect {
    /// The base address registers after the write.
    pub bars: Seq<Bar>,
    /// The region tree after the write.
    pub tree: Seq<RegionModel>,
    /// The error that stopped the work on the base address registers.
    pub bar_error: Option<PciError>,
    /// The error that kept the I/O window from being mapped.
    pub io_error: Option<PciError>,
    /// The error that kept the memory window from being mapped.
    pub mem_error: Option<PciError>,
}

/// What an accepted write to `[offset, end)` that left the register bytes
/// `config` does to the base address registers and to the region tree.
///
/// Where the write touches the command register or a base address register,
/// the regions behind the registers are moved to where the registers now
/// place them, inside the windows `io_region` and `mem_region` of the port.
/// Where it touches the command register or a window register, each window
/// whose kind of access the command register enables is mapped anew at the
/// start of the parent's container.
pub open spec fn write_effect(
    config: Seq<u8>,
    bars: Seq<Bar>,
    io_region: usize,
    mem_region: usize,
    parent_io: usize,
    parent_mem: usize,
    tree: Seq<RegionModel>,
    offset: int,
    end: int,
) -> WriteEffect {
    let remap = if write_touches_bars(offset, end) {
        bars_remapped(config, bars, io_region, mem_region, tree, 0)
    } else {
        BarsRemap { bars, tree, error: None }
    };
    let command = le_u16_at(config, COMMAND as int);
    let io_on = write_touches_windows(offset, end) && command & COMMAND_IO_SPACE != 0;
    let mem_on = write_touches_windows(offset, end) && command & COMMAND_MEMORY_SPACE != 0;
    let with_io = if io_on {
        tree_remapped(remap.tree, parent_io, io_region, 0)
    } else {
        remap.tree
    };
    let with_mem = if mem_on {
        tree_remapped(with_io, parent_mem, mem_region, 0)
    } else {
        with_io
    };
    WriteEffect {
        bars: remap.bars,
        tree: with_mem,
        bar_error: remap.error,
        io_error: if io_on {
            remap_subregion_error(remap.tree, parent_io, io_region, 0)
        } else {
            None
        },
        mem_error: if mem_on {
            remap_subregion_error(with_io, parent_mem, mem_region, 0)
        } else {
            None
        },
    }
}

/// A write leaves the regions themselves and the number of base address
/// registers as they are, whatever it does to the entries of the regions.
pub proof fn lemma_write_effect_same_regions(
    config: Seq<u8>,
    bars: Seq<Bar>,
    io_region: usize,
    mem_region: usize,
    parent_io: usize,
    parent_mem: usize,
    tree: Seq<RegionModel>,
    offset: int,
    end: int,
)
    ensures
        same_regions(
            tree,
            write_effect(
                config,
                bars,
                io_region,
                mem_region,
                parent_io,
                parent_mem,
                tree,
                offset,
                end,
            ).tree,
        ),
        write_effect(
            config,
            bars,
            io_region,
            mem_region,
            parent_io,
            parent_mem,
            tree,
            offset,
            end,
        ).bars.len() == bars.len(),
{
    lemma_bars_remapped_same_regions(config, bars, io_region, mem_region, tree, 0);
    let remapped = if write_touches_bars(offset, end) {
        bars_remapped(config, bars, io_region, mem_region, tree, 0).tree
    } else {
        tree
    };
    lemma_remap_same_regions(remapped, parent_io, io_region, 0);
    let with_io = if write_touches_windows(offset, end) && le_u16_at(config, COMMAND as int)
        & COMMAND_IO_SPACE != 0 {
        tree_remapped(remapped, parent_io, io_region, 0)
    } else {
        remapped
    };
    lemma_remap_same_regions(with_io, parent_mem, mem_region, 0);
}

/// Enabling a kind of access maps its window: after an accepted write that
/// touches the command register or a window register, each window whose
/// kind of access the command register enables lies at the start of the
/// parent's container, unless the outcome of the write says why it does
/// not. The region tree is in order afterwards, as it was before.
#[verifier::spinoff_prover]
pub proof fn lemma_enabled_windows_are_mapped(
    config: Seq<u8>,
    bars: Seq<Bar>,
    io_region: usize,
    mem_region: usize,
    parent_io: usize,
    parent_mem: usize,
    tree: Seq<RegionModel>,
    offset: int,
    end: int,
)
    requires
        tree_wf(tree),
        io_region != mem_region,
        write_touches_windows(offset, end),
    ensures
        ({
            let effect = write_effect(
                config,
                bars,
                io_region,
                mem_region,
                parent_io,
                parent_mem,
                tree,
                offset,
                end,
            );
            let command = le_u16_at(config, COMMAND as int);
            &&& tree_wf(effect.tree)
            &&& command & COMMAND_IO_SPACE != 0 && effect.io_error is None ==> mapped_at(
                effect.tree,
                parent_io,
                io_region,
                0,
            )
            &&& command & COMMAND_MEMORY_SPACE != 0 && effect.mem_error is None ==> mapped_at(
                effect.tree,
                parent_mem,
                mem_region,
                0,
            )
        }),
{
    lemma_bars_remapped_keeps_wf(config, bars, io_region, mem_region, tree, 0);
    let remapped = if write_touches_bars(offset, end) {
        bars_remapped(config, bars, io_region, mem_region, tree, 0).tree
    } else {
        tree
    };
    let command = le_u16_at(config, COMMAND as int);
    let io_on = command & COMMAND_IO_SPACE != 0;
    let mem_on = command & COMMAND_MEMORY_SPACE != 0;
    lemma_remap_keeps_wf(remapped, parent_io, io_region, 0);
    let with_io = if io_on {
        tree_remapped(remapped, parent_io, io_region, 0)
    } else {
        remapped
    };
    lemma_remap_keeps_wf(with_io, parent_mem, mem_region, 0);
    if io_on && remap_subregion_error(remapped, parent_io, io_region, 0) is None {
        lemma_remap_idempotent(remapped, parent_io, io_region, 0);
        if mem_on {
            lemma_remap_keeps_other_entries(
                with_io,
                parent_mem,
                mem_region,
                0,
                parent_io,
                io_region,
                0,
            );
        }
    }
    if mem_on && remap_subregion_error(with_io, parent_mem, mem_region, 0) is None {
        lemma_remap_idempotent(with_io, parent_mem, mem_region, 0);
    }
}

/// Enabling again what is enabled changes nothing: once the two windows
/// were mapped anew without error, mapping them anew again raises no error
/// and leaves the region tree as it is. So cycles of disabling and enabling
/// leave no stale entries behind and do not block themselves.
#[verifier::spinoff_prover]
pub proof fn lemma_window_remap_idempotent(
    tree: Seq<RegionModel>,
    io_region: usize,
    mem_region: usize,
    parent_io: usize,
    parent_mem: usize,
)
    requires
        tree_wf(tree),
        parent_io != parent_mem,
        remap_subregion_error(tree, parent_io, io_region, 0) is None,
        remap_subregion_error(
            tree_remapped(tree, parent_io, io_region, 0),
            parent_mem,
            mem_region,
            0,
        ) is None,
    ensures
        ({
            let once = tree_remapped(
                tree_remapped(tree, parent_io, io_region, 0),
                parent_mem,
                mem_region,
                0,
            );
            &&& remap_subregion_error(once, parent_io, io_region, 0) is None
            &&& tree_remapped(once, parent_io, io_region, 0) == once
            &&& remap_subregion_error(once, parent_mem, mem_region, 0) is None
            &&& tree_remapped(once, parent_mem, mem_region, 0) == once
        }),
{
    let with_io = tree_remapped(tree, parent_io, io_region, 0);
    let once = tree_remapped(with_io, parent_mem, mem_region, 0);
    assert(tree_wf(with_io) && tree_wf(once)) by {
        lemma_remap_keeps_wf(tree, parent_io, io_region, 0);
        lemma_remap_keeps_wf(with_io, parent_mem, mem_region, 0);
    }
    // mapping the memory window anew leaves the tree as the first time
    assert(remap_subregion_error(once, parent_mem, mem_region, 0) is None && tree_remapped(
        once,
        parent_mem,
        mem_region,
        0,
    ) == once) by {
        lemma_remap_idempotent(with_io, parent_mem, mem_region, 0);
    }
    // the memory window went into another container, so the container of
    // the I/O window is as the first mapping left it
    assert(remap_subregion_error(with_io, parent_io, io_region, 0) is None && tree_remapped(
        with_io,
        parent_io,
        io_region,
        0,
    ) == with_io) by {
        lemma_remap_idempotent(tree, parent_io, io_region, 0);
    }
    assert(same_regions(with_io, once)) by {
        lemma_remap_same_regions(with_io, parent_mem, mem_region, 0);
    }
    assert(once[parent_io as int] == with_io[parent_io as int]) by {
        lemma_remap_is_local(with_io, with_io, parent_mem, mem_region, 0);
    }
    lemma_remap_fixed_point_is_local(with_io, once, parent_io, io_region, 0);
}

/// What becomes of the windows does not hang on the base address
/// registers: where the parent's containers are other regions than the two
/// windows of the port, a window is mapped, or fails to be, as mapping it
/// anew in the tree before the write would have it.
#[verifier::spinoff_prover]
pub proof fn lemma_window_errors(
    config: Seq<u8>,
    bars: Seq<Bar>,
    io_region: usize,
    mem_region: usize,
    parent_io: usize,
    parent_mem: usize,
    tree: Seq<RegionModel>,
    offset: int,
    end: int,
)
    requires
        tree_wf(tree),
        parent_io != parent_mem,
        parent_io != io_region,
        parent_io != mem_region,
        parent_mem != io_region,
        parent_mem != mem_region,
        write_touches_windows(offset, end),
    ensures
        ({
            let effect = write_effect(
                config,
                bars,
                io_region,
                mem_region,
                parent_io,
                parent_mem,
                tree,
                offset,
                end,
            );
            let command = le_u16_at(config, COMMAND as int);
            &&& command & COMMAND_IO_SPACE != 0 ==> effect.io_error == remap_subregion_error(
                tree,
                parent_io,
                io_region,
                0,
            )
            &&& command & COMMAND_MEMORY_SPACE != 0 ==> effect.mem_error == remap_subregion_error(
                tree,
                parent_mem,
                mem_region,
                0,
            )
        }),
{
    let remapped = if write_touches_bars(offset, end) {
        bars_remapped(config, bars, io_region, mem_region, tree, 0).tree
    } else {
        tree
    };
    assert(tree_wf(remapped) && same_regions(tree, remapped)) by {
        lemma_bars_remapped_keeps_wf(config, bars, io_region, mem_region, tree, 0);
        lemma_bars_remapped_same_regions(config, bars, io_region, mem_region, tree, 0);
    }
    let command = le_u16_at(config, COMMAND as int);
    let io_on = command & COMMAND_IO_SPACE != 0;
    let with_io = if io_on {
        tree_remapped(remapped, parent_io, io_region, 0)
    } else {
        remapped
    };
    assert(tree_wf(with_io) && same_regions(tree, with_io)) by {
        lemma_remap_keeps_wf(remapped, parent_io, io_region, 0);
        lemma_remap_same_regions(remapped, parent_io, io_region, 0);
    }
    if parent_io < tree.len() {
        assert(remapped[parent_io as int] == tree[parent_io as int]) by {
            lemma_bars_remapped_elsewhere(
                config,
                bars,
                io_region,
                mem_region,
                tree,
                0,
                parent_io as int,
            );
        }
        lemma_remap_is_local(tree, remapped, parent_io, io_region, 0);
    }
    if parent_mem < tree.len() {
        assert(remapped[parent_mem as int] == tree[parent_mem as int]) by {
            lemma_bars_remapped_elsewhere(
                config,
                bars,
                io_region,
                mem_region,
                tree,
                0,
                parent_mem as int,
            );
        }
        assert(with_io[parent_mem as int] == remapped[parent_mem as int]) by {
            if io_on && parent_io < tree.len() {
                lemma_remap_is_local(remapped, remapped, parent_io, io_region, 0);
            }
        }
        lemma_remap_is_local(tree, with_io, parent_mem, mem_region, 0);
    }
}

/// A write that touches none of the registers that place regions leaves
/// every region where it is: the base address registers and the region
/// tree are as before, and there is no error to report.
pub proof fn lemma_untouched_write_maps_nothing(
    config: Seq<u8>,
    bars: Seq<Bar>,
    io_region: usize,
    mem_region: usize,
    parent_io: usize,
    parent_mem: usize,
    tree: Seq<RegionModel>,
    offset: int,
    end: int,
)
    requires
        !write_touches_bars(offset, end),
        !write_touches_windows(offset, end),
    ensures
        ({
            let effect = write_effect(
                config,
                bars,
                io_region,
                mem_region,
                parent_io,
                parent_mem,
                tree,
                offset,
                end,
            );
            &&& effect.bars == bars
            &&& effect.tree == tree
            &&& effect.bar_error is None
            &&& effect.io_error is None
            &&& effect.mem_error is None
        }),
{
}

impl RootPort {
    /// The invariant of a root port: its configuration space is in order
    /// and has the size of a PCI Express function.
    pub open spec fn wf(&self) -> bool {
        &&& self.config.wf()
        &&& self.config.config.len() == PCIE_CONFIG_SPACE_SIZE
    }

    /// Tells whether the port is in order; see [`RootPort::wf`].
    pub fn is_wf(&self) -> (r: bool)
        ensures
            r == self.wf(),
    {
        self.config.is_wf() && self.config.config.len() == PCIE_CONFIG_SPACE_SIZE
    }

    /// Whether everything but the configuration space is as in `before`.
    pub open spec fn same_identity(&self, before: &RootPort) -> bool {
        &&& self.name == before.name
        &&& self.devfn == before.devfn
        &&& self.port_num == before.port_num
        &&& self.parent_bus == before.parent_bus
        &&& self.sec_bus == before.sec_bus
        &&& self.io_region == before.io_region
        &&& self.mem_region == before.mem_region
        &&& self.dev_id == before.dev_id
        &&& self.multifunction == before.multifunction
    }

    /// Whether the two regions and the bus that a new port brings with it
    /// are the newest of `after`, with everything that `before` held as it
    /// was: the I/O window, the memory window, and a secondary bus named
    /// like the port over the two windows, without functions and without
    /// bridge above it.
    pub open spec fn created_in(&self, before: &PciHost, after: &PciHost) -> bool {
        &&& self.io_region == before.regions@.len()
        &&& self.mem_region == before.regions@.len() + 1
        &&& self.sec_bus == before.buses.len()
        &&& after.regions@ == before.regions@.push(
            RegionModel {
                kind: RegionKind::Io,
                size: IO_WINDOW_SIZE,
                subregions: Seq::<SubRegion>::empty(),
            },
        ).push(
            RegionModel {
                kind: RegionKind::Memory,
                size: MEM_WINDOW_SIZE,
                subregions: Seq::<SubRegion>::empty(),
            },
        )
        &&& after.devices == before.devices
        &&& after.buses.len() == before.buses.len() + 1
        &&& forall|b: int| 0 <= b < before.buses.len() ==> after.buses[b] == before.buses[b]
        &&& after.buses[self.sec_bus as int].name == self.name
        &&& after.buses[self.sec_bus as int].devices@ == Map::<u8, usize>::empty()
        &&& after.buses[self.sec_bus as int].child_buses@ == Seq::<usize>::empty()
        &&& after.buses[self.sec_bus as int].parent_bridge is None
        &&& after.buses[self.sec_bus as int].io_region == self.io_region
        &&& after.buses[self.sec_bus as int].mem_region == self.mem_region
    }

    /// A root port named `name` for the slot `devfn` of the bus `parent_bus`,
    /// with its two windows and its secondary bus, which are made in `host`;
    /// see [`RootPort::created_in`]. The port is not on its bus yet: the
    /// parent bus is as it was, no container holds the windows, and no
    /// device map holds the port.
    pub fn new(
        name: String,
        devfn: u8,
        port_num: u8,
        parent_bus: usize,
        multifunction: bool,
        host: &mut PciHost,
    ) -> (port: RootPort)
        requires
            old(host).wf(),
        ensures
            final(host).wf(),
            port.wf(),
            port.created_in(old(host), final(host)),
            port.name == name,
            port.devfn == devfn,
            port.port_num == port_num,
            port.parent_bus == parent_bus,
            port.dev_id == 0,
            port.multifunction == multifunction,
            port.config.config@ == Seq::new(PCIE_CONFIG_SPACE_SIZE as nat, |i: int| 0u8),
            port.config.write_mask@ == Seq::new(PCIE_CONFIG_SPACE_SIZE as nat, |i: int| 0u8),
            port.config.write_clear_mask@ == Seq::new(PCIE_CONFIG_SPACE_SIZE as nat, |i: int| 0u8),
            port.config.bars.len() == 2,
            port.config.bars[0].size == 0,
            port.config.bars[1].size == 0,
            port.config.last_cap_end == PCI_CONFIG_HEAD_END,
            port.config.last_ext_cap_offset == 0,
            port.config.last_ext_cap_end == PCI_CONFIG_SPACE_SIZE,
            port.config.msix is None,
    {
        let io_region: usize = host.regions.init_container_region(RegionKind::Io, IO_WINDOW_SIZE);
        let mem_region: usize = host.regions.init_container_region(
            RegionKind::Memory,
            MEM_WINDOW_SIZE,
        );
        let sec_bus: usize = host.buses.len();
        host.buses.push(PciBus::new(name.clone(), io_region, mem_region));
        proof {
            let before = old(host);
            assert forall|b: int| 0 <= b < host.buses.len() implies #[trigger] host.bus_wf(b) by {
                if b < sec_bus {
                    assert(before.bus_wf(b));
                }
            }
            assert forall|d: int| 0 <= d < host.devices.len() implies #[trigger] host.device_wf(
                d,
            ) by {
                assert(before.device_wf(d));
            }
        }
        RootPort {
            name,
            devfn,
            port_num,
            config: PciConfig::new(PCIE_CONFIG_SPACE_SIZE, 2),
            parent_bus,
            sec_bus,
            io_region,
            mem_region,
            dev_id: 0,
            multifunction,
        }
    }

    /// The name of the port.
    pub fn name(&self) -> (name: String)
        ensures
            name == self.name,
    {
        self.name.clone()
    }

    /// Copies the register bytes at `offset` into `data`, as they are. An
    /// access that does not lie inside the configuration space, or is wider
    /// than four bytes, leaves `data` as it was.
    pub fn read_config(&self, offset: usize, data: &mut [u8])
        ensures
            final(data)@ == if access_valid(
                PCIE_CONFIG_SPACE_SIZE as int,
                offset as int,
                old(data)@.len() as int,
            ) && access_valid(self.config.config@.len() as int, offset as int, old(data)@.len() as int) {
                self.config.config@.subrange(offset as int, offset + old(data)@.len())
            } else {
                old(data)@
            },
    {
        let size: usize = data.len();
        if size > MAX_ACCESS_SIZE || offset > PCIE_CONFIG_SPACE_SIZE || size > PCIE_CONFIG_SPACE_SIZE
            - offset {
            return ;
        }
        self.config.read(offset, data);
    }

    /// Applies a guest write of `data` at `offset` and lets the address
    /// windows follow; see [`written_config`] for the register bytes and
    /// [`write_effect`] for the rest. An access that does not lie inside the
    /// configuration space, or is wider than four bytes, changes nothing.
    pub fn write_config(
        &mut self,
        offset: usize,
        data: &[u8],
        parent_bus: &PciBus,
        regions: &mut RegionTree,
    ) -> (outcome: WriteOutcome)
        requires
            old(self).wf(),
            old(regions).wf(),
        ensures
            final(self).wf(),
            final(regions).wf(),
            final(self).same_identity(old(self)),
            outcome.accepted == access_valid(
                PCIE_CONFIG_SPACE_SIZE as int,
                offset as int,
                data@.len() as int,
            ),
            !outcome.accepted ==> {
                &&& *final(self) == *old(self)
                &&& final(regions)@ == old(regions)@
                &&& outcome.bar_error is None
                &&& outcome.io_error is None
                &&& outcome.mem_error is None
            },
            outcome.accepted ==> {
                let registers = written_config(
                    old(self).config.config@,
                    old(self).config.write_mask@,
                    old(self).config.write_clear_mask@,
                    offset as int,
                    data@,
                );
                let effect = write_effect(
                    registers,
                    old(self).config.bars@,
                    old(self).io_region,
                    old(self).mem_region,
                    parent_bus.io_region,
                    parent_bus.mem_region,
                    old(regions)@,
                    offset as int,
                    offset + data@.len(),
                );
                &&& final(self).config.config@ == registers
                &&& final(self).config.msix == msix_after_write(
                    old(self).config.msix,
                    registers,
                    old(self).dev_id,
                )
                &&& final(self).config.bars@ == effect.bars
                &&& final(self).config.write_mask == old(self).config.write_mask
                &&& final(self).config.write_clear_mask == old(self).config.write_clear_mask
                &&& final(self).config.last_cap_end == old(self).config.last_cap_end
                &&& final(self).config.last_ext_cap_offset == old(self).config.last_ext_cap_offset
                &&& final(self).config.last_ext_cap_end == old(self).config.last_ext_cap_end
                &&& final(regions)@ == effect.tree
                &&& outcome.bar_error == effect.bar_error
                &&& outcome.io_error == effect.io_error
                &&& outcome.mem_error == effect.mem_error
            },
    {
        let size: usize = data.len();
        let mut outcome = WriteOutcome {
            accepted: false,
            bar_error: None,
            io_error: None,
            mem_error: None,
        };
        if size > MAX_ACCESS_SIZE || offset > PCIE_CONFIG_SPACE_SIZE || size > PCIE_CONFIG_SPACE_SIZE
            - offset {
            return outcome;
        }
        let end: usize = offset + size;
        outcome.accepted = true;
        let io_region: usize = self.io_region;
        let mem_region: usize = self.mem_region;

        self.config.write(offset, data, self.dev_id);
        if ranges_overlap(offset, end, COMMAND as usize, COMMAND as usize + 2) || ranges_overlap(
            offset,
            end,
            BAR_0 as usize,
            BAR_0 as usize + REG_SIZE * 2,
        ) {
            match self.config.update_bar_mapping(io_region, mem_region, regions) {
                Ok(()) => {},
                Err(e) => {
                    outcome.bar_error = Some(e);
                },
            }
        }
        if ranges_overlap(offset, end, COMMAND as usize, COMMAND as usize + 2) || ranges_overlap(
            offset,
            end,
            IO_BASE as usize,
            IO_BASE as usize + 2,
        ) || ranges_overlap(offset, end, MEMORY_BASE as usize, MEMORY_BASE as usize + 20) {
            let command: u16 = match le_read_u16(self.config.config.as_slice(), COMMAND as usize) {
                Ok(value) => value,
                Err(_) => 0,
            };
            if command & COMMAND_IO_SPACE != 0 {
                match regions.remap_subregion(parent_bus.io_region, io_region, 0) {
                    Ok(()) => {},
                    Err(e) => {
                        outcome.io_error = Some(e);
                    },
                }
            }
            if command & COMMAND_MEMORY_SPACE != 0 {
                match regions.remap_subregion(parent_bus.mem_region, mem_region, 0) {
                    Ok(()) => {},
                    Err(e) => {
                        outcome.mem_error = Some(e);
                    },
                }
            }
        }
        outcome
    }

    /// The state of the port that a snapshot keeps.
    pub open spec fn state(&self) -> StateModel {
        StateModel {
            config_space: padded(self.config.config@),
            write_mask: padded(self.config.write_mask@),
            write_clear_mask: padded(self.config.write_clear_mask@),
            last_cap_end: self.config.last_cap_end,
            last_ext_cap_offset: self.config.last_ext_cap_offset,
            last_ext_cap_end: self.config.last_ext_cap_end,
        }
    }

    /// The state of the port as bytes; see [`encode_state`]. This never
    /// fails.
    pub fn get_state_vec(&self) -> (r: Result<Vec<u8>, PciError>)
        requires
            self.wf(),
        ensures
            r matches Ok(bytes) && bytes@ == encode_state(self.state()),
    {
        let mut state = RootPortState::default();
        let n: usize = self.config.config.len();
        let mut idx: usize = 0;
        while idx < n
            invariant
                idx <= n,
                n == self.config.config.len(),
                n == PCIE_CONFIG_SPACE_SIZE,
                self.wf(),
                state.last_cap_end == 0,
                state.last_ext_cap_offset == 0,
                state.last_ext_cap_end == 0,
                forall|k: int| 0 <= k < idx ==> state.config_space@[k] == self.config.config@[k],
                forall|k: int| 0 <= k < idx ==> state.write_mask@[k] == self.config.write_mask@[k],
                forall|k: int|
                    0 <= k < idx ==> state.write_clear_mask@[k] == self.config.write_clear_mask@[k],
            decreases n - idx,
        {
            state.config_space[idx] = self.config.config[idx];
            state.write_mask[idx] = self.config.write_mask[idx];
            state.write_clear_mask[idx] = self.config.write_clear_mask[idx];
            idx = idx + 1;
        }
        state.last_cap_end = self.config.last_cap_end;
        state.last_ext_cap_end = self.config.last_ext_cap_end;
        state.last_ext_cap_offset = self.config.last_ext_cap_offset;
        Ok(state.as_bytes())
    }

    /// Takes the state of the port from `state`, bytes as [`encode_state`]
    /// lays them out: the register bytes, both masks and the three offsets
    /// of the capability chain are replaced together. Bytes of another size
    /// are refused, and the port stays as it is.
    pub fn set_state_mut(&mut self, state: &[u8]) -> (r: Result<(), PciError>)
        requires
            old(self).wf(),
        ensures
            final(self).wf(),
            final(self).same_identity(old(self)),
            final(self).config.bars == old(self).config.bars,
            final(self).config.msix == old(self).config.msix,
            match r {
                Ok(()) => {
                    &&& decode_state(state@) matches Some(saved)
                    &&& final(self).config.config@ == saved.config_space
                    &&& final(self).config.write_mask@ == saved.write_mask
                    &&& final(self).config.write_clear_mask@ == saved.write_clear_mask
                    &&& final(self).config.last_cap_end == saved.last_cap_end
                    &&& final(self).config.last_ext_cap_offset == saved.last_ext_cap_offset
                    &&& final(self).config.last_ext_cap_end == saved.last_ext_cap_end
                },
                Err(e) => {
                    &&& decode_state(state@) is None
                    &&& e matches PciError::FromBytesError { device }
                    &&& device@ == "ROOT_PORT"@
                    &&& *final(self) == *old(self)
                },
            },
    {
        let root_port_state = match RootPortState::from_bytes(state) {
            Some(saved) => saved,
            None => {
                return Err(PciError::FromBytesError { device: "ROOT_PORT".to_string() });
            },
        };
        let length: usize = self.config.config.len();
        let mut idx: usize = 0;
        while idx < length
            invariant
                idx <= length,
                length == PCIE_CONFIG_SPACE_SIZE,
                length == self.config.config.len(),
                length == self.config.write_mask.len(),
                length == self.config.write_clear_mask.len(),
                self.same_identity(old(self)),
                self.wf(),
                self.config.bars == old(self).config.bars,
                self.config.msix == old(self).config.msix,
                forall|k: int|
                    0 <= k < idx ==> self.config.config@[k] == root_port_state.config_space@[k],
                forall|k: int|
                    0 <= k < idx ==> self.config.write_mask@[k] == root_port_state.write_mask@[k],
                forall|k: int|
                    0 <= k < idx ==> self.config.write_clear_mask@[k]
                        == root_port_state.write_clear_mask@[k],
            decreases length - idx,
        {
            self.config.config[idx] = root_port_state.config_space[idx];
            self.config.write_mask[idx] = root_port_state.write_mask[idx];
            self.config.write_clear_mask[idx] = root_port_state.write_clear_mask[idx];
            idx = idx + 1;
        }
        self.config.last_cap_end = root_port_state.last_cap_end;
        self.config.last_ext_cap_end = root_port_state.last_ext_cap_end;
        self.config.last_ext_cap_offset = root_port_state.last_ext_cap_offset;
        Ok(())
    }

    /// Saving the state of a port and taking it back changes nothing: the
    /// bytes of [`RootPort::get_state_vec`] decode to the register bytes,
    /// the two masks and the three offsets that the port has.
    pub proof fn lemma_state_round_trip(&self)
        requires
            self.wf(),
        ensures
            decode_state(encode_state(self.state())) == Some(self.state()),
            self.state().config_space == self.config.config@,
            self.state().write_mask == self.config.write_mask@,
            self.state().write_clear_mask == self.config.write_clear_mask@,
            self.state().last_cap_end == self.config.last_cap_end,
            self.state().last_ext_cap_offset == self.config.last_ext_cap_offset,
            self.state().last_ext_cap_end == self.config.last_ext_cap_end,
    {
        crate::migration::lemma_decode_of_encode(self.state());
    }

    /// The alias under which the registry of saved states knows the kind of
    /// this device: `registered` is what the registry answered when asked
    /// for the state's name. A kind that it does not know has the alias
    /// `UNKNOWN_DEVICE_ALIAS`.
    pub fn get_device_alias(&self, registered: Option<u64>) -> (alias: u64)
        ensures
            alias == match registered {
                Some(known) => known,
                None => UNKNOWN_DEVICE_ALIAS,
            },
    {
        if let Some(alias) = registered {
            alias
        } else {
            UNKNOWN_DEVICE_ALIAS
        }
    }
}


/// The register bytes with the header fields of a root port: the vendor and
/// device identifiers, the class of a PCI-to-PCI bridge, the header layout
/// of a bridge, and prefetchable windows with 64-bit addresses.
pub open spec fn root_port_header(config: Seq<u8>) -> Seq<u8> {
    let vendor = with_le_u16(config, VENDOR_ID as int, PCI_VENDOR_ID_REDHAT);
    let device = with_le_u16(vendor, DEVICE_ID as int, DEVICE_ID_RP);
    let class = with_le_u16(device, SUB_CLASS_CODE as int, CLASS_CODE_PCI_BRIDGE);
    class.update(HEADER_TYPE as int, HEADER_TYPE_BRIDGE).update(
        PREF_MEMORY_BASE as int,
        PREF_MEM_RANGE_64BIT,
    ).update(PREF_MEMORY_LIMIT as int, PREF_MEM_RANGE_64BIT)
}

impl RootPort {
    /// Makes the header fields writable that a guest may change on a
    /// bridge.
    pub fn init_write_mask(&mut self) -> (r: Result<(), PciError>)
        requires
            old(self).wf(),
        ensures
            r is Ok,
            final(self).wf(),
            final(self).same_identity(old(self)),
            final(self).config.write_mask@ == bridge_write_mask(
                common_write_mask(old(self).config.write_mask@),
            ),
            final(self).config.same_but_write_mask(&old(self).config),
    {
        self.config.init_common_write_mask()?;
        self.config.init_bridge_write_mask()
    }

    /// Makes the status bits clear on a write that a guest may only clear on
    /// a bridge.
    pub fn init_write_clear_mask(&mut self) -> (r: Result<(), PciError>)
        requires
            old(self).wf(),
        ensures
            r is Ok,
            final(self).wf(),
            final(self).same_identity(old(self)),
            final(self).config.write_clear_mask@ == bridge_write_clear_mask(
                common_write_clear_mask(old(self).config.write_clear_mask@),
            ),
            final(self).config.same_but_write_clear_mask(&old(self).config),
    {
        self.config.init_common_write_clear_mask()?;
        self.config.init_bridge_write_clear_mask()
    }

    /// Offset at which the port gets its PCI Express capability.
    pub open spec fn pcie_cap_offset(&self) -> int {
        self.config.last_cap_end as int
    }

    /// Offset at which the port gets its MSI-X capability.
    pub open spec fn msix_cap_offset(&self) -> int {
        cap_regs_end(self.pcie_cap_offset(), PCIE_CAP_SIZE as int)
    }

    /// The register bytes of the port once it is on its bus: the header of a
    /// root port with the multi-function bit, the PCI Express capability of
    /// a root port, and the MSI-X capability with one vector behind base
    /// address register 0.
    pub open spec fn realized_registers(&self) -> Seq<u8> {
        let header = with_multifunction(root_port_header(self.config.config@), self.multifunction);
        let pcie = pcie_cap_config(
            config_with_cap(header, self.pcie_cap_offset(), CAP_ID_PCIE),
            self.pcie_cap_offset(),
            self.devfn,
            self.port_num,
            PcieDevType::RootPort.spec_code(),
        );
        let msix = msix_cap_config(
            config_with_cap(pcie, self.msix_cap_offset(), CAP_ID_MSIX),
            self.msix_cap_offset(),
            0,
            1,
        );
        msix.update(bar_offset(0), bar_flags(msix[bar_offset(0)], RegionType::Mem32Bit, false))
    }

    /// The write mask of the port once it is on its bus.
    pub open spec fn realized_write_mask(&self) -> Seq<u8> {
        let header = bridge_write_mask(common_write_mask(self.config.write_mask@));
        let pcie = pcie_cap_write_mask(
            write_mask_with_cap(header, self.pcie_cap_offset(), PCIE_CAP_SIZE as int),
            self.pcie_cap_offset(),
        );
        bar_write_mask(
            msix_cap_write_mask(
                write_mask_with_cap(pcie, self.msix_cap_offset(), MSIX_CAP_SIZE as int),
                self.msix_cap_offset(),
            ),
            0,
            RegionType::Mem32Bit,
            msix_bar_size(1) as u64,
        )
    }

    /// The write-clear mask of the port once it is on its bus.
    pub open spec fn realized_write_clear_mask(&self) -> Seq<u8> {
        pcie_cap_write_clear_mask(
            bridge_write_clear_mask(common_write_clear_mask(self.config.write_clear_mask@)),
            self.pcie_cap_offset(),
        )
    }

    /// Whether `after` is this port put on its bus, with `bar_region` behind
    /// base address register 0.
    pub open spec fn realized_as(&self, after: &RootPort, bar_region: usize) -> bool {
        &&& after.same_identity(self)
        &&& after.config.config@ == self.realized_registers()
        &&& after.config.write_mask@ == self.realized_write_mask()
        &&& after.config.write_clear_mask@ == self.realized_write_clear_mask()
        &&& after.config.bars@ == self.config.bars@.update(
            0,
            Bar {
                region_type: RegionType::Mem32Bit,
                address: BAR_SPACE_UNMAPPED,
                size: msix_bar_size(1) as u64,
                region: Some(bar_region),
            },
        )
        &&& after.config.last_cap_end == cap_regs_end(self.msix_cap_offset(), MSIX_CAP_SIZE as int)
        &&& after.config.last_ext_cap_offset == self.config.last_ext_cap_offset
        &&& after.config.last_ext_cap_end == self.config.last_ext_cap_end
        &&& after.config.msix == Some(
            Msix {
                cap_offset: self.msix_cap_offset() as u16,
                table_size: msix_table_size(1) as u32,
                pba_size: msix_pba_size(1) as u32,
                enabled: false,
                func_masked: false,
                dev_id: self.dev_id,
            },
        )
    }

    /// Whether the secondary bus of the port is a bus of `host` that can be
    /// hung below the parent bus: it is not the parent bus, its containers
    /// are the windows of the port, and the windows are not the containers
    /// of the parent bus.
    pub open spec fn secondary_bus_fits(&self, host: &PciHost) -> bool {
        let parent = host.buses[self.parent_bus as int];
        let secondary = host.buses[self.sec_bus as int];
        &&& self.sec_bus != self.parent_bus
        &&& secondary.io_region == self.io_region
        &&& secondary.mem_region == self.mem_region
        &&& self.io_region != parent.io_region
        &&& self.mem_region != parent.mem_region
    }

    /// Why the port cannot be put on its bus in `host`, if it cannot. The
    /// checks are made in this order: its parent bus and its secondary bus
    /// exist; the secondary bus fits, see [`RootPort::secondary_bus_fits`],
    /// and has no bridge above it yet; the port fits the multi-function
    /// layout of its slot; its two capabilities find room; its slot is
    /// free; and the parent's containers have room for its windows.
    pub open spec fn realize_error(&self, host: &PciHost) -> Option<PciError> {
        let parent = host.buses[self.parent_bus as int];
        if self.parent_bus >= host.buses.len() {
            Some(PciError::UnknownHandle { handle: self.parent_bus })
        } else if self.sec_bus >= host.buses.len() {
            Some(PciError::UnknownHandle { handle: self.sec_bus })
        } else if !self.secondary_bus_fits(host) {
            Some(PciError::InvalidSecondaryBus { bus: self.sec_bus })
        } else if host.buses[self.sec_bus as int].parent_bridge is Some {
            Some(PciError::AlreadyRealized)
        } else if multifunction_error(self.multifunction, self.devfn, parent.devices@, host.devices@)
            is Some {
            multifunction_error(self.multifunction, self.devfn, parent.devices@, host.devices@)
        } else if !cap_fits(self.pcie_cap_offset(), PCIE_CAP_SIZE as int) {
            Some(PciError::AddPciCap { id: CAP_ID_PCIE, size: PCIE_CAP_SIZE as usize })
        } else if init_msix_error(0, 1, self.config.bars.len() as int, self.msix_cap_offset())
            is Some {
            init_msix_error(0, 1, self.config.bars.len() as int, self.msix_cap_offset())
        } else if parent.devices@.contains_key(self.devfn) {
            Some(
                PciError::DevfnConflict {
                    devfn: self.devfn,
                    name: host.devices[parent.devices@[self.devfn] as int].name,
                },
            )
        } else if add_subregion_error(host.regions@, parent.io_region, self.io_region, 0) is Some {
            add_subregion_error(host.regions@, parent.io_region, self.io_region, 0)
        } else {
            add_subregion_error(host.regions@, parent.mem_region, self.mem_region, 0)
        }
    }

    /// The region of the MSI-X table of a root port.
    pub open spec fn msix_region() -> RegionModel {
        RegionModel {
            kind: RegionKind::Memory,
            size: msix_bar_size(1) as u64,
            subregions: Seq::<SubRegion>::empty(),
        }
    }

    /// Whether `after` is `before` with this port put on its bus: the port
    /// is the newest function and the region of its MSI-X table the newest
    /// region; the windows lie at the start of the parent's containers; the
    /// parent bus has the port in its slot and the secondary bus as its last
    /// child; the secondary bus has the port as the bridge above it; and
    /// nothing else has changed.
    pub open spec fn realized_in(&self, before: &PciHost, after: &PciHost) -> bool {
        let device = before.devices.len() as usize;
        let bar_region = before.regions@.len() as usize;
        let parent = self.parent_bus as int;
        let secondary = self.sec_bus as int;
        &&& after.regions@ == tree_with_subregion(
            tree_with_subregion(
                before.regions@.push(Self::msix_region()),
                before.buses[parent].io_region,
                self.io_region,
                0,
            ),
            before.buses[parent].mem_region,
            self.mem_region,
            0,
        )
        &&& after.devices.len() == device + 1
        &&& forall|d: int| 0 <= d < device ==> after.devices[d] == before.devices[d]
        &&& self.realized_as(&after.devices[device as int], bar_region)
        &&& after.buses.len() == before.buses.len()
        &&& forall|b: int|
            0 <= b < before.buses.len() && b != parent && b != secondary ==> after.buses[b]
                == before.buses[b]
        &&& after.buses[parent].name == before.buses[parent].name
        &&& after.buses[parent].devices@ == before.buses[parent].devices@.insert(self.devfn, device)
        &&& after.buses[parent].child_buses@ == before.buses[parent].child_buses@.push(self.sec_bus)
        &&& after.buses[parent].parent_bridge == before.buses[parent].parent_bridge
        &&& after.buses[parent].io_region == before.buses[parent].io_region
        &&& after.buses[parent].mem_region == before.buses[parent].mem_region
        &&& after.buses[secondary].name == before.buses[secondary].name
        &&& after.buses[secondary].devices == before.buses[secondary].devices
        &&& after.buses[secondary].child_buses == before.buses[secondary].child_buses
        &&& after.buses[secondary].parent_bridge == Some(device)
        &&& after.buses[secondary].io_region == before.buses[secondary].io_region
        &&& after.buses[secondary].mem_region == before.buses[secondary].mem_region
    }

    /// Fills in the header of a root port.
    fn init_header(&mut self)
        requires
            old(self).wf(),
        ensures
            final(self).wf(),
            final(self).same_identity(old(self)),
            final(self).config.config@ == root_port_header(old(self).config.config@),
            final(self).config.same_but_registers(&old(self).config),
            final(self).config.msix == old(self).config.msix,
    {
        let config = self.config.config.as_mut_slice();
        le_write_u16(config, VENDOR_ID as usize, PCI_VENDOR_ID_REDHAT).unwrap();
        le_write_u16(config, DEVICE_ID as usize, DEVICE_ID_RP).unwrap();
        le_write_u16(config, SUB_CLASS_CODE as usize, CLASS_CODE_PCI_BRIDGE).unwrap();
        config[HEADER_TYPE as usize] = HEADER_TYPE_BRIDGE;
        config[PREF_MEMORY_BASE as usize] = PREF_MEM_RANGE_64BIT;
        config[PREF_MEMORY_LIMIT as usize] = PREF_MEM_RANGE_64BIT;
    }

    /// Puts the port on its bus: sets up its configuration space, maps its
    /// windows at the start of the parent's containers, hangs its secondary
    /// bus below the parent bus, and takes the slot `devfn` of the parent
    /// bus; see [`RootPort::realized_in`]. When this fails the host is as it
    /// was and the port is on no bus; see [`RootPort::realize_error`].
    #[verifier::spinoff_prover]
    pub fn realize(self, host: &mut PciHost) -> (r: Result<(), PciError>)
        requires
            self.wf(),
            old(host).wf(),
        ensures
            final(host).wf(),
            match r {
                Ok(()) => self.realize_error(old(host)) is None && self.realized_in(
                    old(host),
                    final(host),
                ),
                Err(e) => self.realize_error(old(host)) == Some(e) && *final(host) == *old(host),
            },
    {
        let mut port = self;
        let parent: usize = port.parent_bus;
        let sec_bus: usize = port.sec_bus;
        if parent >= host.buses.len() {
            return Err(PciError::UnknownHandle { handle: parent });
        }
        if sec_bus >= host.buses.len() {
            return Err(PciError::UnknownHandle { handle: sec_bus });
        }
        assert(host.bus_wf(parent as int));
        assert(host.bus_wf(sec_bus as int));
        let parent_io: usize = host.buses[parent].io_region;
        let parent_mem: usize = host.buses[parent].mem_region;
        let io_region: usize = port.io_region;
        let mem_region: usize = port.mem_region;
        if sec_bus == parent || host.buses[sec_bus].io_region != io_region
            || host.buses[sec_bus].mem_region != mem_region || io_region == parent_io || mem_region
            == parent_mem {
            return Err(PciError::InvalidSecondaryBus { bus: sec_bus });
        }
        if host.buses[sec_bus].parent_bridge.is_some() {
            return Err(PciError::AlreadyRealized);
        }
        port.init_write_mask()?;
        port.init_write_clear_mask()?;
        port.init_header();
        let ghost on_bus = host.buses[parent as int].devices@;
        assert forall|key: u8| #[trigger] on_bus.contains_key(key) implies on_bus[key]
            < host.devices.len() && host.devices[on_bus[key] as int].config.config.len()
            > HEADER_TYPE by {
            assert(host.device_wf(on_bus[key] as int));
        }
        init_multifunction(
            port.multifunction,
            port.config.config.as_mut_slice(),
            port.devfn,
            &host.buses[parent],
            &host.devices,
        )?;
        port.config.add_pcie_cap(port.devfn, port.port_num, PcieDevType::RootPort.code())?;
        if port.config.bars.len() == 0 {
            return Err(PciError::InvalidBar { id: 0 });
        }
        let msix_cap: usize = port.config.last_cap_end as usize;
        if msix_cap > PCI_CONFIG_SPACE_SIZE - MSIX_CAP_SIZE as usize {
            return Err(PciError::AddPciCap { id: CAP_ID_MSIX, size: MSIX_CAP_SIZE as usize });
        }
        match host.buses[parent].get_device(port.devfn) {
            Some(occupant) => {
                return Err(
                    PciError::DevfnConflict {
                        devfn: port.devfn,
                        name: host.devices[occupant].name.clone(),
                    },
                );
            },
            None => {},
        }
        host.regions.can_add_subregion(parent_io, io_region, 0)?;
        host.regions.can_add_subregion(parent_mem, mem_region, 0)?;

        let ghost before_tree = host.regions@;
        init_msix(0, 1, &mut port.config, &mut host.regions, port.dev_id)?;
        proof {
            lemma_add_error_after_push(before_tree, Self::msix_region(), parent_io, io_region, 0);
            lemma_add_error_after_push(before_tree, Self::msix_region(), parent_mem, mem_region, 0);
        }
        let ghost with_table = host.regions@;
        host.regions.add_subregion(parent_io, io_region, 0)?;
        proof {
            lemma_add_error_elsewhere(
                with_table,
                parent_io,
                io_region,
                0,
                parent_mem,
                mem_region,
                0,
            );
        }
        host.regions.add_subregion(parent_mem, mem_region, 0)?;

        let device: usize = host.devices.len();
        host.buses[sec_bus].parent_bridge = Some(device);
        host.buses[parent].child_buses.push(sec_bus);
        host.buses[parent].devices.insert(port.devfn, device);
        host.devices.push(port);
        proof {
            let before = old(host);
            assert forall|i: int| 0 <= i < before.regions@.len() implies (
            #[trigger] host.regions@[i]).kind == before.regions@[i].kind by {}
            assert forall|b: int| 0 <= b < host.buses.len() implies #[trigger] host.bus_wf(b) by {
                let bus = host.buses[b];
                assert(before.bus_wf(b));
                assert forall|devfn: u8| #[trigger] bus.devices@.contains_key(devfn) implies {
                    &&& bus.devices@[devfn] < host.devices.len()
                    &&& host.devices[bus.devices@[devfn] as int].devfn == devfn
                    &&& host.devices[bus.devices@[devfn] as int].parent_bus == b
                } by {}
            }
            assert forall|d: int| 0 <= d < host.devices.len() implies #[trigger] host.device_wf(
                d,
            ) by {
                if d < device {
                    assert(before.device_wf(d));
                }
            }
        }
        Ok(())
    }
}

} // verus!
