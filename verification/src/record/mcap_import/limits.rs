//! Validated import budgets. Equality is accepted; one more rejects.
use crate::record::error::RecordError;
use vstd::prelude::*;

verus! {

/// Bounded MCAP import policy. Setters reject zero and excessive values.
/// Sizes count bytes, record limits count record bodies (without the 9-byte
/// envelope), and retained/state budgets include conservative object charges.
#[derive(Debug, Clone, Copy, PartialEq, Eq)]
pub struct McapImportLimits {
    input_bytes: u64,
    record_bytes: usize,
    chunk_bytes: usize,
    decoded_bytes: u64,
    message_bytes: usize,
    string_bytes: usize,
    records: u64,
    messages: u64,
    schemas: usize,
    channels: usize,
    entries: usize,
    state_bytes: usize,
    retained_bytes: usize,
}

/// The abstract value of an import policy.
#[derive(Debug, Clone, Copy, PartialEq, Eq)]
pub struct ImportLimitsView {
    /// Maximum input bytes (32..=1 TiB).
    pub input_bytes: u64,
    /// Maximum record body bytes (32..=64 MiB).
    pub record_bytes: usize,
    /// Maximum decoded bytes per chunk (1..=64 MiB).
    pub chunk_bytes: usize,
    /// Maximum cumulative decoded chunk bytes (1..=1 TiB).
    pub decoded_bytes: u64,
    /// Maximum message payload bytes (1..=64 MiB).
    pub message_bytes: usize,
    /// Maximum UTF-8 string bytes (1..=1 MiB).
    pub string_bytes: usize,
    /// Maximum record count, including chunks and inner records (1..=20 million).
    pub records: u64,
    /// Maximum message count (1..=10 million).
    pub messages: u64,
    /// Maximum unique schema count (1..=65,535).
    pub schemas: usize,
    /// Maximum unique channel count (1..=65,536).
    pub channels: usize,
    /// Maximum entries per map/array (1..=65,536).
    pub entries: usize,
    /// Maximum accounted persistent definition bytes (1 KiB..=256 MiB).
    pub state_bytes: usize,
    /// Maximum accounted materialized bytes (1 KiB..=1 GiB).
    pub retained_bytes: usize,
}

impl View for McapImportLimits {
    type V = ImportLimitsView;

    closed spec fn view(&self) -> ImportLimitsView {
        ImportLimitsView {
            input_bytes: self.input_bytes,
            record_bytes: self.record_bytes,
            chunk_bytes: self.chunk_bytes,
            decoded_bytes: self.decoded_bytes,
            message_bytes: self.message_bytes,
            string_bytes: self.string_bytes,
            records: self.records,
            messages: self.messages,
            schemas: self.schemas,
            channels: self.channels,
            entries: self.entries,
            state_bytes: self.state_bytes,
            retained_bytes: self.retained_bytes,
        }
    }
}

/// Every budget lies in its documented inclusive range.
pub open spec fn import_limits_valid(l: ImportLimitsView) -> bool {
    &&& 32 <= l.input_bytes <= 0x100_0000_0000
    &&& 32 <= l.record_bytes <= 0x400_0000
    &&& 1 <= l.chunk_bytes <= 0x400_0000
    &&& 1 <= l.decoded_bytes <= 0x100_0000_0000
    &&& 1 <= l.message_bytes <= 0x400_0000
    &&& 1 <= l.string_bytes <= 0x10_0000
    &&& 1 <= l.records <= 20_000_000
    &&& 1 <= l.messages <= 10_000_000
    &&& 1 <= l.schemas <= 65_535
    &&& 1 <= l.channels <= 65_536
    &&& 1 <= l.entries <= 65_536
    &&& 1024 <= l.state_bytes <= 0x1000_0000
    &&& 1024 <= l.retained_bytes <= 0x4000_0000
}

impl Default for McapImportLimits {
    fn default() -> (l: Self)
        ensures
            import_limits_valid(l@),
            l@.input_bytes == 0x400_0000,
            l@.record_bytes == 0x40_0000,
            l@.chunk_bytes == 0x80_0000,
            l@.decoded_bytes == 0x1000_0000,
            l@.message_bytes == 0x10_0000,
            l@.string_bytes == 0x1_0000,
            l@.records == 2_000_000,
            l@.messages == 1_000_000,
            l@.schemas == 4096,
            l@.channels == 4096,
            l@.entries == 4096,
            l@.state_bytes == 0x40_0000,
            l@.retained_bytes == 0x400_0000,
    {
        McapImportLimits {
            input_bytes: 0x400_0000,
            record_bytes: 0x40_0000,
            chunk_bytes: 0x80_0000,
            decoded_bytes: 0x1000_0000,
            message_bytes: 0x10_0000,
            string_bytes: 0x1_0000,
            records: 2_000_000,
            messages: 1_000_000,
            schemas: 4096,
            channels: 4096,
            entries: 4096,
            state_bytes: 0x40_0000,
            retained_bytes: 0x400_0000,
        }
    }
}

impl McapImportLimits {
    /// Maximum input bytes (32..=1 TiB).
    pub fn input_bytes(self) -> (v: u64)
        ensures
            v == self@.input_bytes,
    {
        self.input_bytes
    }

    /// Set the maximum input bytes (32..=1 TiB). Values outside the documented range reject.
    pub fn with_input_bytes(self, value: u64) -> (r: Result<Self, RecordError>)
        ensures
            import_limits_valid(self@) && r is Ok ==> import_limits_valid(r->Ok_0@),
            32 <= value <= 0x100_0000_0000 ==> r is Ok && r->Ok_0@ == (ImportLimitsView { input_bytes: value, ..self@ }),
            !(32 <= value <= 0x100_0000_0000) ==> r == Err::<Self, RecordError>(RecordError::InvalidImportLimit("input_bytes")),
    {
        if !(32 <= value && value <= 0x100_0000_0000) {
            return Err(RecordError::InvalidImportLimit("input_bytes"));
        }
        Ok(McapImportLimits { input_bytes: value, ..self })
    }

    /// Maximum record body bytes (32..=64 MiB).
    pub fn record_bytes(self) -> (v: usize)
        ensures
            v == self@.record_bytes,
    {
        self.record_bytes
    }

    /// Set the maximum record body bytes (32..=64 MiB). Values outside the documented range reject.
    pub fn with_record_bytes(self, value: usize) -> (r: Result<Self, RecordError>)
        ensures
            import_limits_valid(self@) && r is Ok ==> import_limits_valid(r->Ok_0@),
            32 <= value <= 0x400_0000 ==> r is Ok && r->Ok_0@ == (ImportLimitsView { record_bytes: value, ..self@ }),
            !(32 <= value <= 0x400_0000) ==> r == Err::<Self, RecordError>(RecordError::InvalidImportLimit("record_bytes")),
    {
        if !(32 <= value && value <= 0x400_0000) {
            return Err(RecordError::InvalidImportLimit("record_bytes"));
        }
        Ok(McapImportLimits { record_bytes: value, ..self })
    }

    /// Maximum decoded bytes per chunk (1..=64 MiB).
    pub fn chunk_bytes(self) -> (v: usize)
        ensures
            v == self@.chunk_bytes,
    {
        self.chunk_bytes
    }

    /// Set the maximum decoded bytes per chunk (1..=64 MiB). Values outside the documented range reject.
    pub fn with_chunk_bytes(self, value: usize) -> (r: Result<Self, RecordError>)
        ensures
            import_limits_valid(self@) && r is Ok ==> import_limits_valid(r->Ok_0@),
            1 <= value <= 0x400_0000 ==> r is Ok && r->Ok_0@ == (ImportLimitsView { chunk_bytes: value, ..self@ }),
            !(1 <= value <= 0x400_0000) ==> r == Err::<Self, RecordError>(RecordError::InvalidImportLimit("chunk_bytes")),
    {
        if !(1 <= value && value <= 0x400_0000) {
            return Err(RecordError::InvalidImportLimit("chunk_bytes"));
        }
        Ok(McapImportLimits { chunk_bytes: value, ..self })
    }

    /// Maximum cumulative decoded chunk bytes (1..=1 TiB).
    pub fn decoded_bytes(self) -> (v: u64)
        ensures
            v == self@.decoded_bytes,
    {
        self.decoded_bytes
    }

    /// Set the maximum cumulative decoded chunk bytes (1..=1 TiB). Values outside the documented range reject.
    pub fn with_decoded_bytes(self, value: u64) -> (r: Result<Self, RecordError>)
        ensures
            import_limits_valid(self@) && r is Ok ==> import_limits_valid(r->Ok_0@),
            1 <= value <= 0x100_0000_0000 ==> r is Ok && r->Ok_0@ == (ImportLimitsView { decoded_bytes: value, ..self@ }),
            !(1 <= value <= 0x100_0000_0000) ==> r == Err::<Self, RecordError>(RecordError::InvalidImportLimit("decoded_bytes")),
    {
        if !(1 <= value && value <= 0x100_0000_0000) {
            return Err(RecordError::InvalidImportLimit("decoded_bytes"));
        }
        Ok(McapImportLimits { decoded_bytes: value, ..self })
    }

    /// Maximum message payload bytes (1..=64 MiB).
    pub fn message_bytes(self) -> (v: usize)
        ensures
            v == self@.message_bytes,
    {
        self.message_bytes
    }

    /// Set the maximum message payload bytes (1..=64 MiB). Values outside the documented range reject.
    pub fn with_message_bytes(self, value: usize) -> (r: Result<Self, RecordError>)
        ensures
            import_limits_valid(self@) && r is Ok ==> import_limits_valid(r->Ok_0@),
            1 <= value <= 0x400_0000 ==> r is Ok && r->Ok_0@ == (ImportLimitsView { message_bytes: value, ..self@ }),
            !(1 <= value <= 0x400_0000) ==> r == Err::<Self, RecordError>(RecordError::InvalidImportLimit("message_bytes")),
    {
        if !(1 <= value && value <= 0x400_0000) {
            return Err(RecordError::InvalidImportLimit("message_bytes"));
        }
        Ok(McapImportLimits { message_bytes: value, ..self })
    }

    /// Maximum UTF-8 string bytes (1..=1 MiB).
    pub fn string_bytes(self) -> (v: usize)
        ensures
            v == self@.string_bytes,
    {
        self.string_bytes
    }

    /// Set the maximum UTF-8 string bytes (1..=1 MiB). Values outside the documented range reject.
    pub fn with_string_bytes(self, value: usize) -> (r: Result<Self, RecordError>)
        ensures
            import_limits_valid(self@) && r is Ok ==> import_limits_valid(r->Ok_0@),
            1 <= value <= 0x10_0000 ==> r is Ok && r->Ok_0@ == (ImportLimitsView { string_bytes: value, ..self@ }),
            !(1 <= value <= 0x10_0000) ==> r == Err::<Self, RecordError>(RecordError::InvalidImportLimit("string_bytes")),
    {
        if !(1 <= value && value <= 0x10_0000) {
            return Err(RecordError::InvalidImportLimit("string_bytes"));
        }
        Ok(McapImportLimits { string_bytes: value, ..self })
    }

    /// Maximum record count, including chunks and inner records (1..=20 million).
    pub fn records(self) -> (v: u64)
        ensures
            v == self@.records,
    {
        self.records
    }

    /// Set the maximum record count, including chunks and inner records (1..=20 million). Values outside the documented range reject.
    pub fn with_records(self, value: u64) -> (r: Result<Self, RecordError>)
        ensures
            import_limits_valid(self@) && r is Ok ==> import_limits_valid(r->Ok_0@),
            1 <= value <= 20_000_000 ==> r is Ok && r->Ok_0@ == (ImportLimitsView { records: value, ..self@ }),
            !(1 <= value <= 20_000_000) ==> r == Err::<Self, RecordError>(RecordError::InvalidImportLimit("records")),
    {
        if !(1 <= value && value <= 20_000_000) {
            return Err(RecordError::InvalidImportLimit("records"));
        }
        Ok(McapImportLimits { records: value, ..self })
    }

    /// Maximum message count (1..=10 million).
    pub fn messages(self) -> (v: u64)
        ensures
            v == self@.messages,
    {
        self.messages
    }

    /// Set the maximum message count (1..=10 million). Values outside the documented range reject.
    pub fn with_messages(self, value: u64) -> (r: Result<Self, RecordError>)
        ensures
            import_limits_valid(self@) && r is Ok ==> import_limits_valid(r->Ok_0@),
            1 <= value <= 10_000_000 ==> r is Ok && r->Ok_0@ == (ImportLimitsView { messages: value, ..self@ }),
            !(1 <= value <= 10_000_000) ==> r == Err::<Self, RecordError>(RecordError::InvalidImportLimit("messages")),
    {
        if !(1 <= value && value <= 10_000_000) {
            return Err(RecordError::InvalidImportLimit("messages"));
        }
        Ok(McapImportLimits { messages: value, ..self })
    }

    /// Maximum unique schema count (1..=65,535).
    pub fn schemas(self) -> (v: usize)
        ensures
            v == self@.schemas,
    {
        self.schemas
    }

    /// Set the maximum unique schema count (1..=65,535). Values outside the documented range reject.
    pub fn with_schemas(self, value: usize) -> (r: Result<Self, RecordError>)
        ensures
            import_limits_valid(self@) && r is Ok ==> import_limits_valid(r->Ok_0@),
            1 <= value <= 65_535 ==> r is Ok && r->Ok_0@ == (ImportLimitsView { schemas: value, ..self@ }),
            !(1 <= value <= 65_535) ==> r == Err::<Self, RecordError>(RecordError::InvalidImportLimit("schemas")),
    {
        if !(1 <= value && value <= 65_535) {
            return Err(RecordError::InvalidImportLimit("schemas"));
        }
        Ok(McapImportLimits { schemas: value, ..self })
    }

    /// Maximum unique channel count (1..=65,536).
    pub fn channels(self) -> (v: usize)
        ensures
            v == self@.channels,
    {
        self.channels
    }

    /// Set the maximum unique channel count (1..=65,536). Values outside the documented range reject.
    pub fn with_channels(self, value: usize) -> (r: Result<Self, RecordError>)
        ensures
            import_limits_valid(self@) && r is Ok ==> import_limits_valid(r->Ok_0@),
            1 <= value <= 65_536 ==> r is Ok && r->Ok_0@ == (ImportLimitsView { channels: value, ..self@ }),
            !(1 <= value <= 65_536) ==> r == Err::<Self, RecordError>(RecordError::InvalidImportLimit("channels")),
    {
        if !(1 <= value && value <= 65_536) {
            return Err(RecordError::InvalidImportLimit("channels"));
        }
        Ok(McapImportLimits { channels: value, ..self })
    }

    /// Maximum entries per map/array (1..=65,536).
    pub fn entries(self) -> (v: usize)
        ensures
            v == self@.entries,
    {
        self.entries
    }

    /// Set the maximum entries per map/array (1..=65,536). Values outside the documented range reject.
    pub fn with_entries(self, value: usize) -> (r: Result<Self, RecordError>)
        ensures
            import_limits_valid(self@) && r is Ok ==> import_limits_valid(r->Ok_0@),
            1 <= value <= 65_536 ==> r is Ok && r->Ok_0@ == (ImportLimitsView { entries: value, ..self@ }),
            !(1 <= value <= 65_536) ==> r == Err::<Self, RecordError>(RecordError::InvalidImportLimit("entries")),
    {
        if !(1 <= value && value <= 65_536) {
            return Err(RecordError::InvalidImportLimit("entries"));
        }
        Ok(McapImportLimits { entries: value, ..self })
    }

    /// Maximum accounted persistent definition bytes (1 KiB..=256 MiB).
    pub fn state_bytes(self) -> (v: usize)
        ensures
            v == self@.state_bytes,
    {
        self.state_bytes
    }

    /// Set the maximum accounted persistent definition bytes (1 KiB..=256 MiB). Values outside the documented range reject.
    pub fn with_state_bytes(self, value: usize) -> (r: Result<Self, RecordError>)
        ensures
            import_limits_valid(self@) && r is Ok ==> import_limits_valid(r->Ok_0@),
            1024 <= value <= 0x1000_0000 ==> r is Ok && r->Ok_0@ == (ImportLimitsView { state_bytes: value, ..self@ }),
            !(1024 <= value <= 0x1000_0000) ==> r == Err::<Self, RecordError>(RecordError::InvalidImportLimit("state_bytes")),
    {
        if !(1024 <= value && value <= 0x1000_0000) {
            return Err(RecordError::InvalidImportLimit("state_bytes"));
        }
        Ok(McapImportLimits { state_bytes: value, ..self })
    }

    /// Maximum accounted materialized bytes (1 KiB..=1 GiB).
    pub fn retained_bytes(self) -> (v: usize)
        ensures
            v == self@.retained_bytes,
    {
        self.retained_bytes
    }

    /// Set the maximum accounted materialized bytes (1 KiB..=1 GiB). Values outside the documented range reject.
    pub fn with_retained_bytes(self, value: usize) -> (r: Result<Self, RecordError>)
        ensures
            import_limits_valid(self@) && r is Ok ==> import_limits_valid(r->Ok_0@),
            1024 <= value <= 0x4000_0000 ==> r is Ok && r->Ok_0@ == (ImportLimitsView { retained_bytes: value, ..self@ }),
            !(1024 <= value <= 0x4000_0000) ==> r == Err::<Self, RecordError>(RecordError::InvalidImportLimit("retained_bytes")),
    {
        if !(1024 <= value && value <= 0x4000_0000) {
            return Err(RecordError::InvalidImportLimit("retained_bytes"));
        }
        Ok(McapImportLimits { retained_bytes: value, ..self })
    }
}

/// Reject a value above its inclusive limit.
pub fn check(value: u64, limit: u64, kind: &'static str) -> (r: Result<(), RecordError>)
    ensures
        value <= limit ==> r == Ok::<(), RecordError>(()),
        value > limit ==> r == Err::<(), RecordError>(RecordError::ImportLimit { kind, limit }),
{
    if value > limit {
        Err(RecordError::ImportLimit { kind, limit })
    } else {
        Ok(())
    }
}

/// Add `amount` to a counter unless the sum exceeds `limit` (or `u64`).
pub fn add(value: &mut u64, amount: u64, limit: u64, kind: &'static str) -> (r: Result<(), RecordError>)
    ensures
        *old(value) + amount <= limit ==> r == Ok::<(), RecordError>(()) && *final(value) == *old(value) + amount,
        *old(value) + amount > limit ==> r == Err::<(), RecordError>(RecordError::ImportLimit { kind, limit })
            && *final(value) == *old(value),
{
    let next = match value.checked_add(amount) {
        Some(n) => n,
        None => return Err(RecordError::ImportLimit { kind, limit }),
    };
    check(next, limit, kind)?;
    *value = next;
    Ok(())
}

} // verus!
