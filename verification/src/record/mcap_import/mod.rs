//! Bounded, synchronous semantic MCAP import.
//!
//! Supports uncompressed data/chunks and one LZ4 frame per compressed chunk.
//! Schema languages and message encodings stay opaque. Attachments, unknown
//! opcodes, nested chunks and extension fields reject explicitly. Known indexes
//! are retained opaquely and never used for traversal. All messages are visited.
//!
//! The visitor provides backpressure: no next record is processed until it
//! returns. Events remain provisional until the whole input, its structure and
//! available CRC checks all succeed; a failed import can have delivered a prefix.
pub mod chunk;
pub mod limits;
pub mod model;
pub mod parse;
pub mod preflight;
pub mod projection;
pub mod same;
pub mod state;
pub mod steps;
