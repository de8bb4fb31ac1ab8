//! One bus of the topology: the functions on it, by slot, and the two
//! containers that its address windows are mapped into.

use vstd::prelude::*;
use std::collections::HashMap;

verus! {

/// A bus. Functions and buses are named by their handles in the
/// [`crate::host::PciHost`] that holds them.
#[derive(Debug)]
pub struct PciBus {
    /// Name of the bus.
    pub name: String,
    /// The functions on the bus: slot and function number to handle.
    pub devices: HashMap<u8, usize>,
    /// Handles of the secondary buses of the bridges on this bus, in the
    /// order the bridges appeared.
    pub child_buses: Vec<usize>,
    /// Handle of the bridge whose secondary bus this is; `None` for a root
    /// bus. It names the bridge and does not keep it alive.
    pub parent_bridge: Option<usize>,
    /// Handle of the container for I/O ports behind this bus.
    pub io_region: usize,
    /// Handle of the container for memory behind this bus.
    pub mem_region: usize,
}

/// The slot that `devfn` lies in.
pub open spec fn spec_pci_slot(devfn: u8) -> u8 {
    devfn / 8
}

/// The function number of `devfn` inside its slot.
pub open spec fn spec_pci_func(devfn: u8) -> u8 {
    devfn % 8
}

/// The slot that `devfn` lies in.
#[verifier::when_used_as_spec(spec_pci_slot)]
pub fn pci_slot(devfn: u8) -> (slot: u8)
    ensures
        slot == spec_pci_slot(devfn),
        slot < 32,
{
    devfn / 8
}

/// The function number of `devfn` inside its slot.
#[verifier::when_used_as_spec(spec_pci_func)]
pub fn pci_func(devfn: u8) -> (func: u8)
    ensures
        func == spec_pci_func(devfn),
        func < 8,
{
    devfn % 8
}

/// The key of function `func` of slot `slot`; both are taken modulo their
/// range.
pub fn pci_devfn(slot: u8, func: u8) -> (devfn: u8)
    ensures
        devfn == (slot % 32) * 8 + func % 8,
        spec_pci_slot(devfn) == slot % 32,
        spec_pci_func(devfn) == func % 8,
{
    (slot % 32) * 8 + func % 8
}

impl PciBus {
    /// A bus without functions and without bridge above it.
    pub fn new(name: String, io_region: usize, mem_region: usize) -> (bus: PciBus)
        ensures
            bus.name == name,
            bus.devices@ == Map::<u8, usize>::empty(),
            bus.child_buses@ == Seq::<usize>::empty(),
            bus.parent_bridge is None,
            bus.io_region == io_region,
            bus.mem_region == mem_region,
    {
        PciBus {
            name,
            devices: HashMap::new(),
            child_buses: Vec::new(),
            parent_bridge: None,
            io_region,
            mem_region,
        }
    }

    /// Handle of the function at `devfn`, if the slot is taken.
    pub fn get_device(&self, devfn: u8) -> (r: Option<usize>)
        ensures
            r == if self.devices@.contains_key(devfn) {
                Some(self.devices@[devfn])
            } else {
                None
            },
    {
        match self.devices.get(&devfn) {
            Some(handle) => Some(*handle),
            None => None,
        }
    }
}

} // verus!
