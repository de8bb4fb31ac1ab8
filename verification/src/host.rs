//! The whole topology: every region, bus and function of one PCI Express
//! hierarchy, held in one place and named by handles.

use vstd::prelude::*;
use crate::bus::PciBus;
use crate::config::{
    access_valid, le_u16_at, msix_after_write, written_config, COMMAND, COMMAND_IO_SPACE,
    COMMAND_MEMORY_SPACE, HEADER_TYPE, HEADER_TYPE_MULTIFUNC, MAX_FUNC, PCIE_CONFIG_SPACE_SIZE,
    SECONDARY_BUS_NUM,
};
use crate::errors::PciError;
use crate::region::{
    lemma_remap_where_mapped, mapped_at, remap_subregion_error, same_regions, RegionKind,
    RegionModel, RegionTree,
};
use crate::root_port::{
    lemma_enabled_windows_are_mapped, lemma_window_errors, lemma_write_effect_same_regions,
    write_effect, write_touches_bars, write_touches_windows, RootPort, WriteOutcome,
};

verus! {

/// Handle of the root bus of every host.
pub const ROOT_BUS: usize = 0;

/// A PCI Express hierarchy. A handle of a bus or a function is its index
/// in `buses` or `devices`; nothing is ever taken out, so a handle stays
/// good.
#[derive(Debug)]
pub struct PciHost {
    /// The address regions of the hierarchy.
    pub regions: RegionTree,
    /// The buses; the first is the root bus. The secondary bus of a port is
    /// among them from the construction of the port on, and hangs below its
    /// parent bus once the port is on that bus.
    pub buses: Vec<PciBus>,
    /// The functions that are on a bus.
    pub devices: Vec<RootPort>,
}

/// Why a function for `devfn` does not fit the multi-function layout of its
/// slot on a bus with the functions `on_bus`, if it does not: a function
/// other than the first needs a first function that shows the
/// multi-function bit, if there is a first function; and a first function
/// that is alone by its own account must be alone in its slot.
pub open spec fn multifunction_error(
    multifunction: bool,
    devfn: u8,
    on_bus: Map<u8, usize>,
    devices: Seq<RootPort>,
) -> Option<PciError> {
    let first = (devfn - devfn % 8) as u8;
    if devfn % 8 != 0 {
        if on_bus.contains_key(first) && devices[on_bus[first] as int].config.config@[HEADER_TYPE as int]
            & HEADER_TYPE_MULTIFUNC == 0 {
            Some(PciError::MultifunctionConflict { devfn })
        } else {
            None
        }
    } else if !multifunction && exists|func: u8|
        1 <= func < MAX_FUNC && on_bus.contains_key(#[trigger] sibling(devfn, func)) {
        Some(PciError::MultifunctionConflict { devfn })
    } else {
        None
    }
}

/// The key of function `func` in the slot whose first function is `first`.
pub open spec fn sibling(first: u8, func: u8) -> u8 {
    (first + func) as u8
}

/// The register bytes with the multi-function bit of the header type set as
/// `multifunction` says.
pub open spec fn with_multifunction(config: Seq<u8>, multifunction: bool) -> Seq<u8> {
    config.update(
        HEADER_TYPE as int,
        if multifunction {
            (config[HEADER_TYPE as int] & !HEADER_TYPE_MULTIFUNC) | HEADER_TYPE_MULTIFUNC
        } else {
            config[HEADER_TYPE as int] & !HEADER_TYPE_MULTIFUNC
        },
    )
}

/// Shows in the header type of `config` whether the function is one of
/// several in its slot, and checks that this fits the functions that are on
/// `parent_bus` already; see [`multifunction_error`]. The header type is
/// written in either case.
pub fn init_multifunction(
    multifunction: bool,
    config: &mut [u8],
    devfn: u8,
    parent_bus: &PciBus,
    devices: &Vec<RootPort>,
) -> (r: Result<(), PciError>)
    requires
        old(config).len() > HEADER_TYPE,
        forall|key: u8| #[trigger]
            parent_bus.devices@.contains_key(key) ==> parent_bus.devices@[key] < devices.len()
                && devices[parent_bus.devices@[key] as int].config.config.len() > HEADER_TYPE,
    ensures
        final(config)@ == with_multifunction(old(config)@, multifunction),
        match r {
            Ok(()) => multifunction_error(multifunction, devfn, parent_bus.devices@, devices@)
                is None,
            Err(e) => multifunction_error(multifunction, devfn, parent_bus.devices@, devices@)
                == Some(e),
        },
{
    let cleared: u8 = config[HEADER_TYPE as usize] & !HEADER_TYPE_MULTIFUNC;
    if multifunction {
        config[HEADER_TYPE as usize] = cleared | HEADER_TYPE_MULTIFUNC;
    } else {
        config[HEADER_TYPE as usize] = cleared;
    }
    let func: u8 = devfn % 8;
    if func != 0 {
        let first: u8 = devfn - func;
        return match parent_bus.get_device(first) {
            None => Ok(()),
            Some(handle) => {
                if devices[handle].config.config[HEADER_TYPE as usize] & HEADER_TYPE_MULTIFUNC == 0 {
                    Err(PciError::MultifunctionConflict { devfn })
                } else {
                    Ok(())
                }
            },
        };
    }
    if multifunction {
        return Ok(());
    }
    let mut other: u8 = 1;
    while other < MAX_FUNC
        invariant
            1 <= other <= MAX_FUNC,
            devfn % 8 == 0,
            !multifunction,
            config@ == with_multifunction(old(config)@, multifunction),
            forall|func: u8|
                1 <= func < other ==> !parent_bus.devices@.contains_key(
                    #[trigger] sibling(devfn, func),
                ),
        decreases MAX_FUNC - other,
    {
        if parent_bus.get_device(devfn + other).is_some() {
            assert(parent_bus.devices@.contains_key(sibling(devfn, other)));
            return Err(PciError::MultifunctionConflict { devfn });
        }
        other = other + 1;
    }
    Ok(())
}

impl PciHost {
    /// What holds of bus `b`: its two containers are regions of their
    /// address spaces, and each function on it is a function of the host
    /// that knows its place.
    pub open spec fn bus_wf(&self, b: int) -> bool {
        let bus = self.buses[b];
        &&& bus.io_region < self.regions@.len()
        &&& bus.mem_region < self.regions@.len()
        &&& self.regions@[bus.io_region as int].kind == RegionKind::Io
        &&& self.regions@[bus.mem_region as int].kind == RegionKind::Memory
        &&& forall|devfn: u8| #[trigger]
            bus.devices@.contains_key(devfn) ==> {
                &&& bus.devices@[devfn] < self.devices.len()
                &&& self.devices[bus.devices@[devfn] as int].devfn == devfn
                &&& self.devices[bus.devices@[devfn] as int].parent_bus == b
            }
    }

    /// What holds of function `d`: it is in order and on its bus; its
    /// secondary bus is another bus than its parent bus and has it as the
    /// bridge above; its windows are the containers of its secondary bus,
    /// and not those of its parent bus.
    pub open spec fn device_wf(&self, d: int) -> bool {
        let device = self.devices[d];
        &&& device.wf()
        &&& device.parent_bus < self.buses.len()
        &&& device.sec_bus < self.buses.len()
        &&& device.sec_bus != device.parent_bus
        &&& self.buses[device.sec_bus as int].parent_bridge == Some(d as usize)
        &&& device.io_region == self.buses[device.sec_bus as int].io_region
        &&& device.mem_region == self.buses[device.sec_bus as int].mem_region
        &&& device.io_region != self.buses[device.parent_bus as int].io_region
        &&& device.mem_region != self.buses[device.parent_bus as int].mem_region
        &&& self.buses[device.parent_bus as int].devices@.contains_key(device.devfn)
        &&& self.buses[device.parent_bus as int].devices@[device.devfn] == d
    }

    /// The invariant of a host: the region tree is in order, there is a
    /// root bus, and every bus and function is in order.
    pub open spec fn wf(&self) -> bool {
        &&& self.regions.wf()
        &&& self.buses.len() > 0
        &&& forall|b: int| 0 <= b < self.buses.len() ==> #[trigger] self.bus_wf(b)
        &&& forall|d: int| 0 <= d < self.devices.len() ==> #[trigger] self.device_wf(d)
    }

    /// Tells whether bus `b` is in order; see [`PciHost::bus_wf`].
    fn bus_is_wf(&self, b: usize) -> (r: bool)
        requires
            b < self.buses.len(),
        ensures
            r == self.bus_wf(b as int),
    {
        let bus = &self.buses[b];
        let io_ok = match self.regions.region_kind(bus.io_region) {
            Some(RegionKind::Io) => true,
            _ => false,
        };
        let mem_ok = match self.regions.region_kind(bus.mem_region) {
            Some(RegionKind::Memory) => true,
            _ => false,
        };
        if !io_ok || !mem_ok {
            return false;
        }
        let mut next: u16 = 0;
        while next < 256
            invariant
                next <= 256,
                b < self.buses.len(),
                bus == self.buses[b as int],
                forall|devfn: u8|
                    devfn < next && #[trigger] bus.devices@.contains_key(devfn) ==> {
                        &&& bus.devices@[devfn] < self.devices.len()
                        &&& self.devices[bus.devices@[devfn] as int].devfn == devfn
                        &&& self.devices[bus.devices@[devfn] as int].parent_bus == b
                    },
            decreases 256 - next,
        {
            let devfn: u8 = next as u8;
            match bus.get_device(devfn) {
                Some(handle) => {
                    if handle >= self.devices.len() || self.devices[handle].devfn != devfn
                        || self.devices[handle].parent_bus != b {
                        return false;
                    }
                },
                None => {},
            }
            next = next + 1;
        }
        true
    }

    /// Tells whether function `d` is in order; see [`PciHost::device_wf`].
    fn device_is_wf(&self, d: usize) -> (r: bool)
        requires
            d < self.devices.len(),
        ensures
            r == self.device_wf(d as int),
    {
        let device = &self.devices[d];
        if !device.is_wf() || device.parent_bus >= self.buses.len() || device.sec_bus
            >= self.buses.len() || device.sec_bus == device.parent_bus {
            return false;
        }
        let parent = &self.buses[device.parent_bus];
        let secondary = &self.buses[device.sec_bus];
        let bridged = match secondary.parent_bridge {
            Some(bridge) => bridge == d,
            None => false,
        };
        if !bridged || device.io_region != secondary.io_region || device.mem_region
            != secondary.mem_region || device.io_region == parent.io_region || device.mem_region
            == parent.mem_region {
            return false;
        }
        match parent.get_device(device.devfn) {
            Some(handle) => handle == d,
            None => false,
        }
    }

    /// Tells whether the host is in order; see [`PciHost::wf`].
    pub fn is_wf(&self) -> (r: bool)
        ensures
            r == self.wf(),
    {
        if !self.regions.is_wf() || self.buses.len() == 0 {
            return false;
        }
        let mut b: usize = 0;
        while b < self.buses.len()
            invariant
                b <= self.buses.len(),
                forall|k: int| 0 <= k < b ==> #[trigger] self.bus_wf(k),
            decreases self.buses.len() - b,
        {
            if !self.bus_is_wf(b) {
                return false;
            }
            b = b + 1;
        }
        let mut d: usize = 0;
        while d < self.devices.len()
            invariant
                d <= self.devices.len(),
                forall|k: int| 0 <= k < self.buses.len() ==> #[trigger] self.bus_wf(k),
                forall|k: int| 0 <= k < d ==> #[trigger] self.device_wf(k),
            decreases self.devices.len() - d,
        {
            if !self.device_is_wf(d) {
                return false;
            }
            d = d + 1;
        }
        true
    }

    /// A host with an empty root bus named `pcie.0`, whose containers have
    /// `io_size` and `mem_size` bytes.
    pub fn new(io_size: u64, mem_size: u64) -> (host: PciHost)
        ensures
            host.wf(),
            host.buses.len() == 1,
            host.devices.len() == 0,
            host.regions@.len() == 2,
            host.buses[0].name@ == "pcie.0"@,
            host.buses[0].devices@ == Map::<u8, usize>::empty(),
            host.buses[0].child_buses@ == Seq::<usize>::empty(),
            host.buses[0].parent_bridge is None,
            host.buses[0].io_region == 0,
            host.buses[0].mem_region == 1,
            host.regions@[0].kind == RegionKind::Io,
            host.regions@[0].size == io_size,
            host.regions@[0].subregions.len() == 0,
            host.regions@[1].kind == RegionKind::Memory,
            host.regions@[1].size == mem_size,
            host.regions@[1].subregions.len() == 0,
    {
        let mut regions = RegionTree::new();
        let io_region: usize = regions.init_container_region(RegionKind::Io, io_size);
        let mem_region: usize = regions.init_container_region(RegionKind::Memory, mem_size);
        let mut buses: Vec<PciBus> = Vec::new();
        buses.push(PciBus::new("pcie.0".to_string(), io_region, mem_region));
        let host = PciHost { regions, buses, devices: Vec::new() };
        host
    }

    /// Handle of the root bus.
    pub fn root_bus(&self) -> (bus: usize)
        ensures
            bus == ROOT_BUS,
    {
        ROOT_BUS
    }

    /// The number of bus `b`, as its bridge has it in the secondary bus
    /// number register; 0 for a bus without bridge.
    pub open spec fn bus_number(&self, b: int) -> u8 {
        match self.buses[b].parent_bridge {
            Some(bridge) => if bridge < self.devices.len() {
                self.devices[bridge as int].config.config@[SECONDARY_BUS_NUM as int]
            } else {
                0u8
            },
            None => 0u8,
        }
    }

    /// Handle of the function at `devfn` on the bus with number `bus_num`:
    /// the first bus with that number counts, in the order the buses were
    /// made. `None` when there is no such bus, or the slot is free.
    pub fn find_device(&self, bus_num: u8, devfn: u8) -> (r: Option<usize>)
        requires
            self.wf(),
        ensures
            match r {
                Some(handle) => exists|b: int|
                    {
                        &&& 0 <= b < self.buses.len()
                        &&& #[trigger] self.bus_number(b) == bus_num
                        &&& forall|earlier: int|
                            0 <= earlier < b ==> #[trigger] self.bus_number(earlier) != bus_num
                        &&& self.buses[b].devices@.contains_key(devfn)
                        &&& self.buses[b].devices@[devfn] == handle
                        &&& handle < self.devices.len()
                    },
                None => forall|b: int|
                    {
                        &&& 0 <= b < self.buses.len()
                        &&& #[trigger] self.bus_number(b) == bus_num
                        &&& forall|earlier: int|
                            0 <= earlier < b ==> #[trigger] self.bus_number(earlier) != bus_num
                    } ==> !self.buses[b].devices@.contains_key(devfn),
            },
    {
        let n: usize = self.buses.len();
        let mut b: usize = 0;
        while b < n
            invariant
                b <= n,
                n == self.buses.len(),
                self.wf(),
                forall|earlier: int| 0 <= earlier < b ==> #[trigger] self.bus_number(earlier) != bus_num,
            decreases n - b,
        {
            let number: u8 = match self.buses[b].parent_bridge {
                Some(bridge) => if bridge < self.devices.len() {
                    assert(self.device_wf(bridge as int));
                    self.devices[bridge].config.config[SECONDARY_BUS_NUM as usize]
                } else {
                    0
                },
                None => 0,
            };
            if number == bus_num {
                assert(self.bus_number(b as int) == bus_num);
                assert(self.bus_wf(b as int));
                let found = self.buses[b].get_device(devfn);
                proof {
                    if found is None {
                        assert forall|c: int|
                            {
                                &&& 0 <= c < self.buses.len()
                                &&& #[trigger] self.bus_number(c) == bus_num
                                &&& forall|earlier: int|
                                    0 <= earlier < c ==> #[trigger] self.bus_number(earlier)
                                        != bus_num
                            } implies !self.buses[c].devices@.contains_key(devfn) by {}
                    }
                }
                return found;
            }
            b = b + 1;
        }
        None
    }

    /// Handle of the first function named `name`, in the order the
    /// functions came onto their buses.
    pub fn find_device_by_name(&self, name: &String) -> (r: Option<usize>)
        ensures
            match r {
                Some(handle) => {
                    &&& handle < self.devices.len()
                    &&& self.devices[handle as int].name@ == name@
                    &&& forall|earlier: int|
                        0 <= earlier < handle ==> (#[trigger] self.devices[earlier]).name@ != name@
                },
                None => forall|d: int|
                    0 <= d < self.devices.len() ==> (#[trigger] self.devices[d]).name@ != name@,
            },
    {
        let n: usize = self.devices.len();
        let mut d: usize = 0;
        while d < n
            invariant
                d <= n,
                n == self.devices.len(),
                forall|earlier: int|
                    0 <= earlier < d ==> (#[trigger] self.devices[earlier]).name@ != name@,
            decreases n - d,
        {
            if self.devices[d].name == *name {
                return Some(d);
            }
            d = d + 1;
        }
        None
    }

    /// Reads from the configuration space of the function `device`; see
    /// [`RootPort::read_config`]. A handle that names no function leaves
    /// `data` as it was.
    pub fn read_config(&self, device: usize, offset: usize, data: &mut [u8])
        ensures
            final(data)@ == if device < self.devices.len() && access_valid(
                PCIE_CONFIG_SPACE_SIZE as int,
                offset as int,
                old(data)@.len() as int,
            ) && access_valid(
                self.devices[device as int].config.config@.len() as int,
                offset as int,
                old(data)@.len() as int,
            ) {
                self.devices[device as int].config.config@.subrange(
                    offset as int,
                    offset + old(data)@.len(),
                )
            } else {
                old(data)@
            },
    {
        if device < self.devices.len() {
            self.devices[device].read_config(offset, data);
        }
    }

    /// What an accepted write to `[offset, end)` that left the register
    /// bytes `registers` of the function `device` comes to for its windows.
    ///
    /// A write that touches neither the command register nor a window
    /// register nor a base address register leaves the region tree as it
    /// was. A write that touches the command register or a window register
    /// while the command register enables a kind of access maps the window
    /// of that kind anew at the start of the parent's container. This fails
    /// only where the range of the window meets another entry of that
    /// container, whatever became of the base address registers; it does
    /// not fail for a window that was mapped there before the write; and
    /// where it does not fail, the window is mapped there afterwards.
    pub open spec fn windows_follow(
        &self,
        device: usize,
        before: Seq<RegionModel>,
        after: Seq<RegionModel>,
        registers: Seq<u8>,
        offset: int,
        end: int,
        outcome: WriteOutcome,
    ) -> bool {
        let port = self.devices[device as int];
        let parent = self.buses[port.parent_bus as int];
        let command = le_u16_at(registers, COMMAND as int);
        &&& !write_touches_bars(offset, end) && !write_touches_windows(offset, end) ==> {
            &&& after == before
            &&& outcome.bar_error is None
            &&& outcome.io_error is None
            &&& outcome.mem_error is None
        }
        &&& write_touches_windows(offset, end) && command & COMMAND_IO_SPACE != 0 ==> {
            &&& outcome.io_error == remap_subregion_error(before, parent.io_region, port.io_region, 0)
            &&& mapped_at(before, parent.io_region, port.io_region, 0) ==> outcome.io_error
                is None
            &&& outcome.io_error is None ==> mapped_at(after, parent.io_region, port.io_region, 0)
        }
        &&& write_touches_windows(offset, end) && command & COMMAND_MEMORY_SPACE != 0 ==> {
            &&& outcome.mem_error == remap_subregion_error(
                before,
                parent.mem_region,
                port.mem_region,
                0,
            )
            &&& mapped_at(before, parent.mem_region, port.mem_region, 0) ==> outcome.mem_error
                is None
            &&& outcome.mem_error is None ==> mapped_at(
                after,
                parent.mem_region,
                port.mem_region,
                0,
            )
        }
    }

    /// Writes to the configuration space of the function `device` and lets
    /// the address windows follow; see [`RootPort::write_config`]. The
    /// parent of the function is the bus it sits on. A handle that names no
    /// function is refused, and nothing changes.
    #[verifier::spinoff_prover]
    pub fn write_config(&mut self, device: usize, offset: usize, data: &[u8]) -> (r: Result<
        WriteOutcome,
        PciError,
    >)
        requires
            old(self).wf(),
        ensures
            final(self).wf(),
            final(self).buses == old(self).buses,
            final(self).devices.len() == old(self).devices.len(),
            forall|d: int|
                0 <= d < old(self).devices.len() && d != device ==> final(self).devices[d] == old(
                    self,
                ).devices[d],
            match r {
                Err(e) => {
                    &&& device >= old(self).devices.len()
                    &&& e == PciError::UnknownHandle { handle: device }
                    &&& *final(self) == *old(self)
                },
                Ok(outcome) => {
                    let before = old(self).devices[device as int];
                    let after = final(self).devices[device as int];
                    let parent = old(self).buses[before.parent_bus as int];
                    &&& device < old(self).devices.len()
                    &&& after.same_identity(&before)
                    &&& outcome.accepted == access_valid(
                        PCIE_CONFIG_SPACE_SIZE as int,
                        offset as int,
                        data@.len() as int,
                    )
                    &&& !outcome.accepted ==> {
                        &&& final(self).regions@ == old(self).regions@
                        &&& final(self).devices@ == old(self).devices@
                        &&& outcome.bar_error is None
                        &&& outcome.io_error is None
                        &&& outcome.mem_error is None
                    }
                    &&& outcome.accepted ==> {
                        let registers = written_config(
                            before.config.config@,
                            before.config.write_mask@,
                            before.config.write_clear_mask@,
                            offset as int,
                            data@,
                        );
                        let effect = write_effect(
                            registers,
                            before.config.bars@,
                            before.io_region,
                            before.mem_region,
                            parent.io_region,
                            parent.mem_region,
                            old(self).regions@,
                            offset as int,
                            offset + data@.len(),
                        );
                        &&& after.config.config@ == registers
                        &&& after.config.msix == msix_after_write(
                            before.config.msix,
                            registers,
                            before.dev_id,
                        )
                        &&& after.config.bars@ == effect.bars
                        &&& after.config.write_mask == before.config.write_mask
                        &&& after.config.write_clear_mask == before.config.write_clear_mask
                        &&& after.config.last_cap_end == before.config.last_cap_end
                        &&& after.config.last_ext_cap_offset == before.config.last_ext_cap_offset
                        &&& after.config.last_ext_cap_end == before.config.last_ext_cap_end
                        &&& final(self).regions@ == effect.tree
                        &&& outcome.bar_error == effect.bar_error
                        &&& outcome.io_error == effect.io_error
                        &&& outcome.mem_error == effect.mem_error
                        &&& old(self).windows_follow(
                            device,
                            old(self).regions@,
                            final(self).regions@,
                            registers,
                            offset as int,
                            offset + data@.len(),
                            outcome,
                        )
                    }
                },
            },
    {
        if device >= self.devices.len() {
            return Err(PciError::UnknownHandle { handle: device });
        }
        assert(self.device_wf(device as int));
        let parent: usize = self.devices[device].parent_bus;
        let ghost before = self.devices[device as int];
        let ghost tree = self.regions@;
        let outcome = self.devices[device].write_config(
            offset,
            data,
            &self.buses[parent],
            &mut self.regions,
        );
        proof {
            if outcome.accepted {
                let registers = written_config(
                    before.config.config@,
                    before.config.write_mask@,
                    before.config.write_clear_mask@,
                    offset as int,
                    data@,
                );
                let parent_io = self.buses[parent as int].io_region;
                let parent_mem = self.buses[parent as int].mem_region;
                assert(old(self).bus_wf(parent as int));
                assert(old(self).bus_wf(before.sec_bus as int));
                if write_touches_windows(offset as int, offset + data@.len()) {
                    lemma_window_errors(
                        registers,
                        before.config.bars@,
                        before.io_region,
                        before.mem_region,
                        parent_io,
                        parent_mem,
                        tree,
                        offset as int,
                        offset + data@.len(),
                    );
                    lemma_enabled_windows_are_mapped(
                        registers,
                        before.config.bars@,
                        before.io_region,
                        before.mem_region,
                        parent_io,
                        parent_mem,
                        tree,
                        offset as int,
                        offset + data@.len(),
                    );
                    if mapped_at(tree, parent_io, before.io_region, 0) {
                        lemma_remap_where_mapped(tree, parent_io, before.io_region, 0);
                    }
                    if mapped_at(tree, parent_mem, before.mem_region, 0) {
                        lemma_remap_where_mapped(tree, parent_mem, before.mem_region, 0);
                    }
                }
                lemma_write_effect_same_regions(
                    written_config(
                        before.config.config@,
                        before.config.write_mask@,
                        before.config.write_clear_mask@,
                        offset as int,
                        data@,
                    ),
                    before.config.bars@,
                    before.io_region,
                    before.mem_region,
                    self.buses[parent as int].io_region,
                    self.buses[parent as int].mem_region,
                    tree,
                    offset as int,
                    offset + data@.len(),
                );
            }
            assert forall|b: int| 0 <= b < self.buses.len() implies #[trigger] self.bus_wf(b) by {
                assert(old(self).bus_wf(b));
                let bus = self.buses[b];
                assert forall|devfn: u8| #[trigger] bus.devices@.contains_key(devfn) implies {
                    &&& bus.devices@[devfn] < self.devices.len()
                    &&& self.devices[bus.devices@[devfn] as int].devfn == devfn
                    &&& self.devices[bus.devices@[devfn] as int].parent_bus == b
                } by {}
            }
            assert forall|d: int| 0 <= d < self.devices.len() implies #[trigger] self.device_wf(
                d,
            ) by {
                assert(old(self).device_wf(d));
            }
        }
        Ok(outcome)
    }
}

} // verus!
