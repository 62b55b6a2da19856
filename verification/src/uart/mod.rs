//! Serial ports.

pub mod uart_s5l;
