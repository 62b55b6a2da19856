//! NVIDIA GPUs.

pub mod gsp;
pub mod pci;
