//! Reader for the HWiNFO sensors shared-memory layout.
//!
//! The provider publishes a versioned binary image: a fixed header describing
//! two variable-length sections (sensor descriptors and reading descriptors),
//! followed by those sections.  This crate decodes such an image into an
//! in-process snapshot (a sensor catalog with per-sensor reading maps) and
//! answers exact and substring queries over it.  Opening and mapping the
//! OS shared-memory segment is left to the embedding program, which hands
//! the raw bytes in.

pub mod bytes;
pub mod error;
pub mod header;
pub mod laws;
pub mod query;
pub mod records;
pub mod snapshot;
pub mod text;
