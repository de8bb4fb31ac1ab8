//! Configuration-space and bus-topology core for emulated PCI Express
//! devices: register access control, address-window bookkeeping and the
//! byte-exact device state used for snapshots, with machine-checked
//! contracts.

pub mod bus;
pub mod config;
pub mod errors;
pub mod host;
pub mod mem_layout;
pub mod migration;
pub mod msix;
pub mod num_ops;
pub mod region;
pub mod root_port;
