//! Time-sortable 64-bit identifiers in the Snowflake layout.
//!
//! An identifier holds, from the most significant bit down, 42 bits of
//! milliseconds elapsed since a configurable epoch (of which the generator
//! fills the low 41), 10 bits of shard number and 12 bits of a per-slot
//! sequence counter.
mod clock;
pub mod generator;
pub mod laws;
pub mod layout;

pub use generator::{IdGenerator, DEFAULT_EPOCH};
