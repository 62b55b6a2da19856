//! Helpers that drivers share.

pub mod event_listener;
pub mod rest;
