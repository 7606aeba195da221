//! Deterministic recording and replay containers.
pub mod crc;
pub mod digest;
pub mod error;
pub mod mcap;
pub mod model;
pub mod native;
pub mod recording;
pub mod strmap;
pub mod mcap_import;
pub mod mcap_write;
