//! Splits a byte payload that is too large for one QR symbol into a sequence
//! of index-tagged chunks, each small enough for one symbol of a chosen
//! version and error-correction level, and encodes every chunk.

pub mod capacity;
pub mod error;
pub mod multi;
pub mod render;
pub mod segment;
pub mod symbol;

pub use capacity::{capacity, EcLevel, Version, QR_DATA_LENGTHS, QR_VERSION_SLACK};
pub use error::SegmentError;
pub use multi::{MultiQrCode, DEFAULT_EC_LEVEL, DEFAULT_QR_VERSION};
pub use render::{pack_modules, QrData};
pub use segment::{per_chunk_data, plan_chunks, split_payload, MAX_CHUNKS};
