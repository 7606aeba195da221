//! Typed recording errors.
use vstd::prelude::*;

verus! {

/// Errors from writing, reading, decoding or verifying a recording.
#[derive(Debug, Clone, PartialEq, Eq)]
pub enum RecordError {
    /// An I/O failure reported by the caller's sink or source.
    Io(String),
    /// The recording manifest could not be (de)serialized.
    Manifest(String),
    /// The byte stream is not a Neuradix recording (bad magic).
    BadMagic,
    /// The recording uses an unsupported format version.
    UnsupportedVersion(u8),
    /// The recording ended unexpectedly or is corrupt at the given byte offset.
    Truncated(usize),
    /// A record payload exceeds the maximum encodable size.
    PayloadTooLarge(usize),
    /// A record referenced an unknown clock-domain code.
    UnknownClockDomain(u8),
    /// A codec failed to decode a payload.
    Decode(String),
    /// A sequence number does not fit the MCAP `u32` sequence field.
    SequenceTooLarge(u64),
    /// A timestamp does not fit the MCAP unsigned nanosecond log time.
    TimestampOutOfRange(i128),
    /// More channels than the MCAP schema id space admits.
    TooManyChannels(usize),
    /// Malformed MCAP structure.
    Mcap(&'static str),
    /// A valid MCAP feature outside the supported import profile.
    UnsupportedMcap(&'static str),
    /// An MCAP opcode outside the supported import profile.
    UnsupportedMcapRecord(u8),
    /// An import budget was exceeded.
    ImportLimit {
        /// The budget that was exceeded.
        kind: &'static str,
        /// The inclusive limit.
        limit: u64,
    },
    /// An import budget setter received an out-of-range value.
    InvalidImportLimit(&'static str),
    /// A write budget setter received an out-of-range value.
    InvalidWriteLimit(&'static str),
    /// A write budget was exceeded.
    WriteLimit {
        /// The budget that was exceeded.
        kind: &'static str,
        /// The inclusive limit.
        limit: u64,
    },
    /// An MCAP write request was invalid.
    InvalidMcapWrite(&'static str),
    /// The output sink failed during an MCAP write.
    McapWrite(&'static str),
    /// A previous write failed; the writer never recovers.
    McapWriterFailed,
}

} // verus!
