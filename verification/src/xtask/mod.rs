//! Building and testing the kernel.
//!
//! What is to be done is worked out here, as plans: lists of commands to run and
//! files to change. Nothing in here runs a command or touches a file.

pub mod arch;
pub mod commands;
pub mod errors;
pub mod image;
pub mod kernel;
pub mod plan;
pub mod rootfs;
pub mod suites;
pub mod tasks;
