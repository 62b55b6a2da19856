//! Verified building blocks of the zCore kernel.

pub mod boot;
pub mod bus;
pub mod bytes;
pub mod display;
pub mod error;
pub mod fs;
pub mod gpu;
pub mod hal;
pub mod hw;
pub mod irq;
pub mod lang;
pub mod nvme;
pub mod scheme;
pub mod soc;
pub mod start;
pub mod sync;
pub mod text;
pub mod uart;
pub mod utils;
pub mod words;
pub mod xtask;
