//! A decoder for a simple container format around texture data.
//!
//! A container starts with a 30-byte header:
//! - a 12-byte signature `A5 7C C7 5A 4F F4 5F 5F 4F F4 5F 5F`,
//! - a 2-byte little-endian version,
//! - an 8-byte little-endian width and an 8-byte little-endian height,
//!   each narrowed to 32 bits.
//!
//! The payload starts at byte 32, after the header padded to whole 32-bit
//! units, and holds one 32-bit unit per RGBA pixel, row by row.
pub mod error;
pub mod header;
pub mod loader;

pub use error::DecodeError;
pub use header::decode_header;
pub use loader::{decode_container, load_from_memory};
