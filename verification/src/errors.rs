//! The failures that configuration-space and topology operations report.

use vstd::prelude::*;

verus! {

/// Why an operation on the configuration space, the region tree or the bus
/// topology did not take place.
#[derive(Debug)]
#[allow(inconsistent_fields)]
pub enum PciError {
    /// An access of `size` bytes at `offset` does not lie inside the buffer,
    /// or is wider than a configuration access may be.
    InvalidAccess { offset: usize, size: usize },
    /// No room is left in the standard capability area for a capability
    /// with this identifier and size.
    AddPciCap { id: u8, size: usize },
    /// No region, bus or device stands behind this handle.
    UnknownHandle { handle: usize },
    /// The two regions belong to different address spaces.
    RegionKindMismatch { container: usize, region: usize },
    /// The region is already an entry of the container.
    RegionAlreadyMapped { container: usize, region: usize },
    /// The region is no entry of the container.
    RegionNotMapped { container: usize, region: usize },
    /// The range of `size` bytes at `offset` overlaps an entry of the
    /// container.
    RegionOverlap { container: usize, offset: u64, size: u64 },
    /// The base address register is not implemented, or is already in use.
    InvalidBar { id: usize },
    /// The slot on the bus is taken by the device with this name.
    DevfnConflict { devfn: u8, name: String },
    /// The function does not fit the multi-function layout of its slot.
    MultifunctionConflict { devfn: u8 },
    /// A function cannot have this number of MSI-X vectors.
    InvalidVectorNumber { vector_nr: u32 },
    /// The bus is not the secondary bus of the port: it is the port's parent
    /// bus, or its containers are not the port's windows, or a window of the
    /// port is a container of the parent bus.
    InvalidSecondaryBus { bus: usize },
    /// The device was already made visible on a bus.
    AlreadyRealized,
    /// The bytes are not a saved state of the device named here.
    FromBytesError { device: String },
}

} // verus!
