//! Waiting for events.

pub mod event_bus;
