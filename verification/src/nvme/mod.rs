//! NVMe storage.

pub mod apple_ans;
pub mod bringup;
pub mod command;
pub mod disk;
pub mod queue;
pub mod transfers;
