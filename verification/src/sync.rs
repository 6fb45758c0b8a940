//! Channels, observers and liveness tokens.

pub mod types;
pub mod usage_counter;
pub mod broadcast;
pub mod mpcc;
pub mod callback_event;
pub mod observable_fn;
