//! From the boot loader to the kernel's configuration.

pub mod adt;
pub mod adt_layout;
pub mod entry;
pub mod fdt;
