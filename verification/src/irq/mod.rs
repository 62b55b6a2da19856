//! Interrupt controllers.

pub mod aic;
