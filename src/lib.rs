//! A configurable Snowflake identifier generator.
//!
//! An identifier is a 64-bit word packed from a timestamp (milliseconds since a
//! configurable epoch), a node identifier and a per-millisecond sequence number.
//! Successive identifiers from one generator increase as long as the sequence does
//! not run past its field within one millisecond.
pub mod clock;
pub mod codec;
pub mod generator;

pub use generator::Flaken;
