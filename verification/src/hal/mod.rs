//! Hardware abstraction: what the kernel does per platform.

pub mod config;
pub mod console;
pub mod cpu;
pub mod drivers;
pub mod early;
pub mod init;
pub mod interrupt;
pub mod mem;
pub mod pmgr;
pub mod smp;
pub mod trap;
