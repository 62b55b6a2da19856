//! Apple SoC coprocessor infrastructure.
//!
//! Apple's ASC-based coprocessors (ANS2 storage, SEP, ...) speak the same RTKit
//! boot and management protocol over the same mailbox hardware. Those that have
//! no IOMMU of their own use the same SART allow-list to limit their DMA.

pub mod apple_mailbox;
pub mod apple_rtkit;
pub mod apple_sart;
pub mod hvcall;
