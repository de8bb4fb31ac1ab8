//! Where the fixed parts of a machine lie in the guest's address space: one
//! table for each architecture.

pub mod aarch64;
pub mod x86_64;
