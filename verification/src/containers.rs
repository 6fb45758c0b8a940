//! Slot arenas and registries.

pub mod arena_laws;
pub mod arena_model;
pub mod free_slots;
pub mod multi_type_dict;
pub mod object_map_pool;
pub mod object_pool;
pub mod ordered_pool;
pub mod sendable_multi_type_dict;
pub mod type_table;
