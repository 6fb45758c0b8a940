//! Containers and message-passing primitives for actor-style and event-driven
//! programs: a generation-checked arena, a keyed arena, registries of one value
//! per type, a fan-out and a single-delivery channel, and observer registries
//! with deferred removal.

pub mod containers;
pub mod sync;
