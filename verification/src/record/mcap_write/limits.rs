//! Validated limits and allocation-free serialization sizing.
use crate::record::error::RecordError;
use crate::record::mcap_import::model::{McapChannel, McapHeader, McapMetadata, McapSchema};
use crate::record::strmap::{key_bytes, StringMap};
use vstd::prelude::*;

verus! {

/// Validated uncompressed writer policy; limits are inclusive. State bytes are
/// conservative accounting, not a universal process RSS limit.
#[derive(Debug, Clone, Copy, PartialEq, Eq)]
pub struct McapWriteLimits {
    output_bytes: u64,
    record_bytes: usize,
    message_bytes: usize,
    string_bytes: usize,
    records: u64,
    messages: u64,
    schemas: usize,
    channels: usize,
    metadata: usize,
    entries: usize,
    state_bytes: usize,
}

/// The abstract value of a write policy.
#[derive(Debug, Clone, Copy, PartialEq, Eq)]
pub struct WriteLimitsView {
    /// File bytes including finalization.
    pub output_bytes: u64,
    /// Record body bytes.
    pub record_bytes: usize,
    /// Payload bytes.
    pub message_bytes: usize,
    /// UTF-8 bytes per string.
    pub string_bytes: usize,
    /// Records including finalization.
    pub records: u64,
    /// Messages.
    pub messages: u64,
    /// Unique schema IDs.
    pub schemas: usize,
    /// Unique channel IDs.
    pub channels: usize,
    /// Unique metadata names.
    pub metadata: usize,
    /// Map entries.
    pub entries: usize,
    /// Accounted storage.
    pub state_bytes: usize,
}

impl View for McapWriteLimits {
    type V = WriteLimitsView;

    closed spec fn view(&self) -> WriteLimitsView {
        WriteLimitsView {
            output_bytes: self.output_bytes,
            record_bytes: self.record_bytes,
            message_bytes: self.message_bytes,
            string_bytes: self.string_bytes,
            records: self.records,
            messages: self.messages,
            schemas: self.schemas,
            channels: self.channels,
            metadata: self.metadata,
            entries: self.entries,
            state_bytes: self.state_bytes,
        }
    }
}

/// Every budget lies in its documented inclusive range.
pub open spec fn write_limits_valid(l: WriteLimitsView) -> bool {
    &&& 32 <= l.output_bytes <= 0x100_0000_0000
    &&& 32 <= l.record_bytes <= 0x400_0000
    &&& 1 <= l.message_bytes <= 0x400_0000
    &&& 1 <= l.string_bytes <= 0x10_0000
    &&& 1 <= l.records <= 20_000_000
    &&& 1 <= l.messages <= 10_000_000
    &&& 1 <= l.schemas <= 65_535
    &&& 1 <= l.channels <= 65_536
    &&& 1 <= l.metadata <= 65_536
    &&& 1 <= l.entries <= 65_536
    &&& 1024 <= l.state_bytes <= 0x1000_0000
}

impl Default for McapWriteLimits {
    fn default() -> (l: Self)
        ensures
            l@.output_bytes == 0x400_0000 && l@.record_bytes == 0x40_0000 && l@.message_bytes == 0x10_0000
                && l@.string_bytes == 0x1_0000 && l@.records == 2_000_000 && l@.messages == 1_000_000
                && l@.schemas == 4096 && l@.channels == 4096 && l@.metadata == 4096 && l@.entries == 4096
                && l@.state_bytes == 0x40_0000,
            write_limits_valid(l@),
    {
        McapWriteLimits {
            output_bytes: 0x400_0000,
            record_bytes: 0x40_0000,
            message_bytes: 0x10_0000,
            string_bytes: 0x1_0000,
            records: 2_000_000,
            messages: 1_000_000,
            schemas: 4096,
            channels: 4096,
            metadata: 4096,
            entries: 4096,
            state_bytes: 0x40_0000,
        }
    }
}

impl McapWriteLimits {
    /// File bytes including finalization (32 B..=1 TiB).
    pub fn output_bytes(self) -> (v: u64)
        ensures
            v == self@.output_bytes,
    {
        self.output_bytes
    }

    /// Set file bytes including finalization (32 B..=1 TiB). Equality is accepted.
    pub fn with_output_bytes(self, value: u64) -> (r: Result<Self, RecordError>)
        ensures
            write_limits_valid(self@) && r is Ok ==> write_limits_valid(r->Ok_0@),
            32 <= value <= 0x100_0000_0000 ==> r is Ok && r->Ok_0@ == (WriteLimitsView { output_bytes: value, ..self@ }),
            !(32 <= value <= 0x100_0000_0000) ==> r == Err::<Self, RecordError>(RecordError::InvalidWriteLimit("output_bytes")),
    {
        if !(32 <= value && value <= 0x100_0000_0000) {
            return Err(RecordError::InvalidWriteLimit("output_bytes"));
        }
        Ok(McapWriteLimits { output_bytes: value, ..self })
    }

    /// Record body bytes (32 B..=64 MiB).
    pub fn record_bytes(self) -> (v: usize)
        ensures
            v == self@.record_bytes,
    {
        self.record_bytes
    }

    /// Set record body bytes (32 B..=64 MiB). Equality is accepted.
    pub fn with_record_bytes(self, value: usize) -> (r: Result<Self, RecordError>)
        ensures
            write_limits_valid(self@) && r is Ok ==> write_limits_valid(r->Ok_0@),
            32 <= value <= 0x400_0000 ==> r is Ok && r->Ok_0@ == (WriteLimitsView { record_bytes: value, ..self@ }),
            !(32 <= value <= 0x400_0000) ==> r == Err::<Self, RecordError>(RecordError::InvalidWriteLimit("record_bytes")),
    {
        if !(32 <= value && value <= 0x400_0000) {
            return Err(RecordError::InvalidWriteLimit("record_bytes"));
        }
        Ok(McapWriteLimits { record_bytes: value, ..self })
    }

    /// Payload bytes (1 B..=64 MiB).
    pub fn message_bytes(self) -> (v: usize)
        ensures
            v == self@.message_bytes,
    {
        self.message_bytes
    }

    /// Set payload bytes (1 B..=64 MiB). Equality is accepted.
    pub fn with_message_bytes(self, value: usize) -> (r: Result<Self, RecordError>)
        ensures
            write_limits_valid(self@) && r is Ok ==> write_limits_valid(r->Ok_0@),
            1 <= value <= 0x400_0000 ==> r is Ok && r->Ok_0@ == (WriteLimitsView { message_bytes: value, ..self@ }),
            !(1 <= value <= 0x400_0000) ==> r == Err::<Self, RecordError>(RecordError::InvalidWriteLimit("message_bytes")),
    {
        if !(1 <= value && value <= 0x400_0000) {
            return Err(RecordError::InvalidWriteLimit("message_bytes"));
        }
        Ok(McapWriteLimits { message_bytes: value, ..self })
    }

    /// UTF-8 bytes per string (1 B..=1 MiB).
    pub fn string_bytes(self) -> (v: usize)
        ensures
            v == self@.string_bytes,
    {
        self.string_bytes
    }

    /// Set UTF-8 bytes per string (1 B..=1 MiB). Equality is accepted.
    pub fn with_string_bytes(self, value: usize) -> (r: Result<Self, RecordError>)
        ensures
            write_limits_valid(self@) && r is Ok ==> write_limits_valid(r->Ok_0@),
            1 <= value <= 0x10_0000 ==> r is Ok && r->Ok_0@ == (WriteLimitsView { string_bytes: value, ..self@ }),
            !(1 <= value <= 0x10_0000) ==> r == Err::<Self, RecordError>(RecordError::InvalidWriteLimit("string_bytes")),
    {
        if !(1 <= value && value <= 0x10_0000) {
            return Err(RecordError::InvalidWriteLimit("string_bytes"));
        }
        Ok(McapWriteLimits { string_bytes: value, ..self })
    }

    /// Records including finalization (1..=20 million).
    pub fn records(self) -> (v: u64)
        ensures
            v == self@.records,
    {
        self.records
    }

    /// Set records including finalization (1..=20 million). Equality is accepted.
    pub fn with_records(self, value: u64) -> (r: Result<Self, RecordError>)
        ensures
            write_limits_valid(self@) && r is Ok ==> write_limits_valid(r->Ok_0@),
            1 <= value <= 20_000_000 ==> r is Ok && r->Ok_0@ == (WriteLimitsView { records: value, ..self@ }),
            !(1 <= value <= 20_000_000) ==> r == Err::<Self, RecordError>(RecordError::InvalidWriteLimit("records")),
    {
        if !(1 <= value && value <= 20_000_000) {
            return Err(RecordError::InvalidWriteLimit("records"));
        }
        Ok(McapWriteLimits { records: value, ..self })
    }

    /// Messages (1..=10 million).
    pub fn messages(self) -> (v: u64)
        ensures
            v == self@.messages,
    {
        self.messages
    }

    /// Set messages (1..=10 million). Equality is accepted.
    pub fn with_messages(self, value: u64) -> (r: Result<Self, RecordError>)
        ensures
            write_limits_valid(self@) && r is Ok ==> write_limits_valid(r->Ok_0@),
            1 <= value <= 10_000_000 ==> r is Ok && r->Ok_0@ == (WriteLimitsView { messages: value, ..self@ }),
            !(1 <= value <= 10_000_000) ==> r == Err::<Self, RecordError>(RecordError::InvalidWriteLimit("messages")),
    {
        if !(1 <= value && value <= 10_000_000) {
            return Err(RecordError::InvalidWriteLimit("messages"));
        }
        Ok(McapWriteLimits { messages: value, ..self })
    }

    /// Unique schema IDs (1..=65,535).
    pub fn schemas(self) -> (v: usize)
        ensures
            v == self@.schemas,
    {
        self.schemas
    }

    /// Set unique schema IDs (1..=65,535). Equality is accepted.
    pub fn with_schemas(self, value: usize) -> (r: Result<Self, RecordError>)
        ensures
            write_limits_valid(self@) && r is Ok ==> write_limits_valid(r->Ok_0@),
            1 <= value <= 65_535 ==> r is Ok && r->Ok_0@ == (WriteLimitsView { schemas: value, ..self@ }),
            !(1 <= value <= 65_535) ==> r == Err::<Self, RecordError>(RecordError::InvalidWriteLimit("schemas")),
    {
        if !(1 <= value && value <= 65_535) {
            return Err(RecordError::InvalidWriteLimit("schemas"));
        }
        Ok(McapWriteLimits { schemas: value, ..self })
    }

    /// Unique channel IDs (1..=65,536).
    pub fn channels(self) -> (v: usize)
        ensures
            v == self@.channels,
    {
        self.channels
    }

    /// Set unique channel IDs (1..=65,536). Equality is accepted.
    pub fn with_channels(self, value: usize) -> (r: Result<Self, RecordError>)
        ensures
            write_limits_valid(self@) && r is Ok ==> write_limits_valid(r->Ok_0@),
            1 <= value <= 65_536 ==> r is Ok && r->Ok_0@ == (WriteLimitsView { channels: value, ..self@ }),
            !(1 <= value <= 65_536) ==> r == Err::<Self, RecordError>(RecordError::InvalidWriteLimit("channels")),
    {
        if !(1 <= value && value <= 65_536) {
            return Err(RecordError::InvalidWriteLimit("channels"));
        }
        Ok(McapWriteLimits { channels: value, ..self })
    }

    /// Unique metadata names (1..=65,536).
    pub fn metadata(self) -> (v: usize)
        ensures
            v == self@.metadata,
    {
        self.metadata
    }

    /// Set unique metadata names (1..=65,536). Equality is accepted.
    pub fn with_metadata(self, value: usize) -> (r: Result<Self, RecordError>)
        ensures
            write_limits_valid(self@) && r is Ok ==> write_limits_valid(r->Ok_0@),
            1 <= value <= 65_536 ==> r is Ok && r->Ok_0@ == (WriteLimitsView { metadata: value, ..self@ }),
            !(1 <= value <= 65_536) ==> r == Err::<Self, RecordError>(RecordError::InvalidWriteLimit("metadata")),
    {
        if !(1 <= value && value <= 65_536) {
            return Err(RecordError::InvalidWriteLimit("metadata"));
        }
        Ok(McapWriteLimits { metadata: value, ..self })
    }

    /// Map entries (1..=65,536).
    pub fn entries(self) -> (v: usize)
        ensures
            v == self@.entries,
    {
        self.entries
    }

    /// Set map entries (1..=65,536). Equality is accepted.
    pub fn with_entries(self, value: usize) -> (r: Result<Self, RecordError>)
        ensures
            write_limits_valid(self@) && r is Ok ==> write_limits_valid(r->Ok_0@),
            1 <= value <= 65_536 ==> r is Ok && r->Ok_0@ == (WriteLimitsView { entries: value, ..self@ }),
            !(1 <= value <= 65_536) ==> r == Err::<Self, RecordError>(RecordError::InvalidWriteLimit("entries")),
    {
        if !(1 <= value && value <= 65_536) {
            return Err(RecordError::InvalidWriteLimit("entries"));
        }
        Ok(McapWriteLimits { entries: value, ..self })
    }

    /// Accounted definition/finalization storage (1 KiB..=256 MiB).
    pub fn state_bytes(self) -> (v: usize)
        ensures
            v == self@.state_bytes,
    {
        self.state_bytes
    }

    /// Set accounted storage (1 KiB..=256 MiB). Equality is accepted.
    pub fn with_state_bytes(self, value: usize) -> (r: Result<Self, RecordError>)
        ensures
            write_limits_valid(self@) && r is Ok ==> write_limits_valid(r->Ok_0@),
            1024 <= value <= 0x1000_0000 ==> r is Ok && r->Ok_0@ == (WriteLimitsView { state_bytes: value, ..self@ }),
            !(1024 <= value <= 0x1000_0000) ==> r == Err::<Self, RecordError>(RecordError::InvalidWriteLimit("state_bytes")),
    {
        if !(1024 <= value && value <= 0x1000_0000) {
            return Err(RecordError::InvalidWriteLimit("state_bytes"));
        }
        Ok(McapWriteLimits { state_bytes: value, ..self })
    }
}

/// Reject a value above its inclusive limit.
pub fn check(value: u64, limit: u64, kind: &'static str) -> (r: Result<(), RecordError>)
    ensures
        value <= limit ==> r == Ok::<(), RecordError>(()),
        value > limit ==> r == Err::<(), RecordError>(RecordError::WriteLimit { kind, limit }),
{
    if value > limit {
        Err(RecordError::WriteLimit { kind, limit })
    } else {
        Ok(())
    }
}

/// Checked sum of sizes or counters.
pub fn add(a: u64, b: u64) -> (r: Result<u64, RecordError>)
    ensures
        a + b <= u64::MAX ==> r == Ok::<u64, RecordError>((a + b) as u64),
        a + b > u64::MAX ==> r == Err::<u64, RecordError>(RecordError::InvalidMcapWrite("size/counter overflow")),
{
    match a.checked_add(b) {
        Some(n) => Ok(n),
        None => Err(RecordError::InvalidMcapWrite("size/counter overflow")),
    }
}

/// The conservative storage charge of a definition: four bytes per body byte,
/// a fixed object allowance and a per-map-entry allowance.
pub open spec fn spec_charge(body: u64, entries: usize) -> int {
    4 * body + 2048 + 256 * entries
}

/// Conservative storage charge for a definition body with `entries` map entries.
pub fn charge(body: u64, entries: usize) -> (r: Result<u64, RecordError>)
    ensures
        spec_charge(body, entries) <= u64::MAX ==> r == Ok::<u64, RecordError>(spec_charge(body, entries) as u64),
        4 * body > u64::MAX ==> r == Err::<u64, RecordError>(RecordError::InvalidMcapWrite("state overflow")),
        4 * body <= u64::MAX && 4 * body + 2048 > u64::MAX
            ==> r == Err::<u64, RecordError>(RecordError::InvalidMcapWrite("size/counter overflow")),
        4 * body + 2048 <= u64::MAX && 256 * entries > u64::MAX
            ==> r == Err::<u64, RecordError>(RecordError::InvalidMcapWrite("map storage overflow")),
        4 * body + 2048 <= u64::MAX && 256 * entries <= u64::MAX && spec_charge(body, entries) > u64::MAX
            ==> r == Err::<u64, RecordError>(RecordError::InvalidMcapWrite("size/counter overflow")),
{
    let times = match body.checked_mul(4) {
        Some(n) => n,
        None => return Err(RecordError::InvalidMcapWrite("state overflow")),
    };
    let first = self::add(times, 2048)?;
    let wide: u64 = entries as u64;
    let slots = match wide.checked_mul(256) {
        Some(n) => n,
        None => return Err(RecordError::InvalidMcapWrite("map storage overflow")),
    };
    self::add(first, slots)
}

/// Length of a string's UTF-8 encoding.
pub open spec fn str_len(s: Seq<char>) -> nat {
    key_bytes(s).len()
}

/// Encoded size of a length-prefixed string.
pub fn string(value: &str, limits: McapWriteLimits) -> (r: Result<u64, RecordError>)
    requires
        write_limits_valid(limits@),
    ensures
        str_len(value@) <= limits@.string_bytes ==> r == Ok::<u64, RecordError>((4 + str_len(value@)) as u64),
        str_len(value@) > limits@.string_bytes ==> r == Err::<u64, RecordError>(
            RecordError::WriteLimit { kind: "string bytes", limit: limits@.string_bytes as u64 },
        ),
{
    let n = value.as_bytes().len();
    check(n as u64, limits.string_bytes as u64, "string bytes")?;
    self::add(4, n as u64)
}

/// Sum of the encoded key/value string sizes of map entries (eight prefix bytes each).
pub open spec fn entries_bytes(e: Seq<(Seq<char>, Seq<char>)>) -> nat
    decreases e.len(),
{
    if e.len() == 0 {
        0
    } else {
        entries_bytes(e.drop_last()) + 8 + str_len(e.last().0) + str_len(e.last().1)
    }
}

/// Every key and value fits the string budget.
pub open spec fn entries_strings_fit(e: Seq<(Seq<char>, Seq<char>)>, max: nat) -> bool {
    forall|i: int| 0 <= i < e.len() ==> str_len(#[trigger] e[i].0) <= max && str_len(e[i].1) <= max
}

proof fn lemma_entries_bytes_bound(e: Seq<(Seq<char>, Seq<char>)>, max: nat)
    requires
        entries_strings_fit(e, max),
    ensures
        entries_bytes(e) <= e.len() * (8 + 2 * max),
    decreases e.len(),
{
    if e.len() > 0 {
        let d = e.drop_last();
        assert(entries_strings_fit(d, max)) by {
            assert forall|i: int| 0 <= i < d.len() implies str_len(#[trigger] d[i].0) <= max && str_len(d[i].1) <= max by {
                assert(d[i] == e[i]);
            }
        }
        lemma_entries_bytes_bound(d, max);
        assert(e.last() == e[e.len() - 1]);
        assert(e.len() * (8 + 2 * max) == d.len() * (8 + 2 * max) + (8 + 2 * max)) by (nonlinear_arith)
            requires e.len() == d.len() + 1;
    }
}

/// Encoded size of a `u32`-length-prefixed string map.
pub fn map(value: &StringMap, limits: McapWriteLimits) -> (r: Result<u64, RecordError>)
    requires
        write_limits_valid(limits@),
    ensures
        value.spec_entries().len() > limits@.entries ==> r == Err::<u64, RecordError>(
            RecordError::WriteLimit { kind: "map entries", limit: limits@.entries as u64 },
        ),
        value.spec_entries().len() <= limits@.entries && !entries_strings_fit(value.spec_entries(), limits@.string_bytes as nat)
            ==> r == Err::<u64, RecordError>(RecordError::WriteLimit { kind: "string bytes", limit: limits@.string_bytes as u64 }),
        value.spec_entries().len() <= limits@.entries && entries_strings_fit(value.spec_entries(), limits@.string_bytes as nat)
            && entries_bytes(value.spec_entries()) > u32::MAX
            ==> r == Err::<u64, RecordError>(RecordError::WriteLimit { kind: "encoded map bytes", limit: u32::MAX as u64 }),
        value.spec_entries().len() <= limits@.entries && entries_strings_fit(value.spec_entries(), limits@.string_bytes as nat)
            && entries_bytes(value.spec_entries()) <= u32::MAX
            ==> r == Ok::<u64, RecordError>((4 + entries_bytes(value.spec_entries())) as u64),
{
    let ghost e = value.spec_entries();
    let n = value.len();
    check(n as u64, limits.entries as u64, "map entries")?;
    let mut bytes: u64 = 0;
    let mut i: usize = 0;
    while i < n
        invariant
            n == e.len(),
            n <= limits@.entries,
            write_limits_valid(limits@),
            value.spec_entries() == e,
            i <= n,
            entries_strings_fit(e.take(i as int), limits@.string_bytes as nat),
            bytes == entries_bytes(e.take(i as int)),
            bytes <= i * (8 + 2 * limits@.string_bytes),
        decreases n - i,
    {
        let (k, v) = value.entry(i);
        assert(e.take(i + 1).drop_last() =~= e.take(i as int));
        assert(e.take(i + 1).last() == e[i as int]);
        let a = match string(k.as_str(), limits) {
            Ok(a) => a,
            Err(err) => {
                assert(e[i as int].0 == k@);
                assert(!entries_strings_fit(e, limits@.string_bytes as nat));
                return Err(err);
            },
        };
        let b = match string(v.as_str(), limits) {
            Ok(b) => b,
            Err(err) => {
                assert(e[i as int].1 == v@);
                assert(!entries_strings_fit(e, limits@.string_bytes as nat));
                return Err(err);
            },
        };
        assert(i * (8 + 2 * limits@.string_bytes) + 8 + 2 * limits@.string_bytes == (i + 1) * (8 + 2 * limits@.string_bytes)) by (nonlinear_arith);
        assert(i * (8 + 2 * limits@.string_bytes) <= 65_536 * (8 + 2 * 0x10_0000)) by (nonlinear_arith)
            requires i <= 65_536, limits@.string_bytes <= 0x10_0000;
        let ab = self::add(a, b)?;
        bytes = self::add(bytes, ab)?;
        assert(e[i as int] == (k@, v@));
        i = i + 1;
        assert forall|j: int| 0 <= j < e.take(i as int).len() implies
            str_len(#[trigger] e.take(i as int)[j].0) <= limits@.string_bytes && str_len(e.take(i as int)[j].1) <= limits@.string_bytes by {
            assert(e.take(i as int)[j] == e[j]);
            if j < i - 1 {
                assert(e.take(i - 1)[j] == e[j]);
            }
        }
    }
    assert(e.take(n as int) =~= e);
    check(bytes, 0xffff_ffff, "encoded map bytes")?;
    self::add(4, bytes)
}

/// Encoded size of a length-prefixed string, or the budget it exceeds.
pub open spec fn string_size(s: Seq<char>, l: WriteLimitsView) -> Result<u64, RecordError> {
    if str_len(s) <= l.string_bytes {
        Ok((4 + str_len(s)) as u64)
    } else {
        Err(RecordError::WriteLimit { kind: "string bytes", limit: l.string_bytes as u64 })
    }
}

/// Encoded size of a string map, or the budget it exceeds.
pub open spec fn map_size(e: Seq<(Seq<char>, Seq<char>)>, l: WriteLimitsView) -> Result<u64, RecordError> {
    if e.len() > l.entries {
        Err(RecordError::WriteLimit { kind: "map entries", limit: l.entries as u64 })
    } else if !entries_strings_fit(e, l.string_bytes as nat) {
        Err(RecordError::WriteLimit { kind: "string bytes", limit: l.string_bytes as u64 })
    } else if entries_bytes(e) > u32::MAX {
        Err(RecordError::WriteLimit { kind: "encoded map bytes", limit: u32::MAX as u64 })
    } else {
        Ok((4 + entries_bytes(e)) as u64)
    }
}

/// Body size of a header record, or the budget it exceeds.
pub open spec fn header_size(h: McapHeader, l: WriteLimitsView) -> Result<u64, RecordError> {
    match string_size(h.profile@, l) {
        Err(e) => Err(e),
        Ok(a) => match string_size(h.library@, l) {
            Err(e) => Err(e),
            Ok(b) => Ok((a + b) as u64),
        },
    }
}

/// Whether a schema has a zero ID, or data without an encoding.
pub open spec fn schema_invalid(s: McapSchema) -> bool {
    s.id == 0 || (s.encoding@.len() == 0 && s.data@.len() != 0)
}

/// Body size of a schema record, or why it cannot be written.
pub open spec fn schema_size(s: McapSchema, l: WriteLimitsView) -> Result<u64, RecordError> {
    if schema_invalid(s) {
        Err(RecordError::InvalidMcapWrite("invalid schema ID/encoding"))
    } else if s.data@.len() > u32::MAX {
        Err(RecordError::WriteLimit { kind: "encoded schema bytes", limit: u32::MAX as u64 })
    } else if str_len(s.name@) > l.string_bytes || str_len(s.encoding@) > l.string_bytes {
        Err(RecordError::WriteLimit { kind: "string bytes", limit: l.string_bytes as u64 })
    } else {
        Ok((14 + str_len(s.name@) + str_len(s.encoding@) + s.data@.len()) as u64)
    }
}

/// Body size of a channel record, or the budget it exceeds.
pub open spec fn channel_size(c: McapChannel, l: WriteLimitsView) -> Result<u64, RecordError> {
    match string_size(c.topic@, l) {
        Err(e) => Err(e),
        Ok(a) => match string_size(c.message_encoding@, l) {
            Err(e) => Err(e),
            Ok(b) => match map_size(c.metadata.spec_entries(), l) {
                Err(e) => Err(e),
                Ok(m) => Ok((4 + a + b + m) as u64),
            },
        },
    }
}

/// Body size of a metadata record, or the budget it exceeds.
pub open spec fn metadata_size(m: McapMetadata, l: WriteLimitsView) -> Result<u64, RecordError> {
    match string_size(m.name@, l) {
        Err(e) => Err(e),
        Ok(a) => match map_size(m.entries.spec_entries(), l) {
            Err(e) => Err(e),
            Ok(b) => Ok((a + b) as u64),
        },
    }
}

/// Encoded body size of a header record.
pub fn header(value: &McapHeader, limits: McapWriteLimits) -> (r: Result<u64, RecordError>)
    requires
        write_limits_valid(limits@),
    ensures
        r == header_size(*value, limits@),
{
    let a = string(value.profile.as_str(), limits)?;
    let b = string(value.library.as_str(), limits)?;
    self::add(a, b)
}

/// Encoded body size of a schema record.
pub fn schema(value: &McapSchema, limits: McapWriteLimits) -> (r: Result<u64, RecordError>)
    requires
        write_limits_valid(limits@),
    ensures
        r == schema_size(*value, limits@),
{
    if value.id == 0 || (value.encoding.as_str().is_empty() && value.data.len() != 0) {
        return Err(RecordError::InvalidMcapWrite("invalid schema ID/encoding"));
    }
    check(value.data.len() as u64, 0xffff_ffff, "encoded schema bytes")?;
    let a = string(value.name.as_str(), limits)?;
    let b = string(value.encoding.as_str(), limits)?;
    let ab = self::add(a, b)?;
    let s = self::add(6, ab)?;
    self::add(s, value.data.len() as u64)
}

/// Encoded body size of a channel record.
pub fn channel(value: &McapChannel, limits: McapWriteLimits) -> (r: Result<u64, RecordError>)
    requires
        write_limits_valid(limits@),
    ensures
        r == channel_size(*value, limits@),
{
    let a = string(value.topic.as_str(), limits)?;
    let b = string(value.message_encoding.as_str(), limits)?;
    let ab = self::add(a, b)?;
    let m = map(&value.metadata, limits)?;
    let abm = self::add(ab, m)?;
    self::add(4, abm)
}

/// Encoded body size of a metadata record.
pub fn metadata(value: &McapMetadata, limits: McapWriteLimits) -> (r: Result<u64, RecordError>)
    requires
        write_limits_valid(limits@),
    ensures
        r == metadata_size(*value, limits@),
{
    let a = string(value.name.as_str(), limits)?;
    let m = map(&value.entries, limits)?;
    self::add(a, m)
}

} // verus!
