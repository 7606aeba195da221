//! What importing an MCAP file does, as plain values: the state after each
//! record, the events handed to the visitor, and the first refusal.
use crate::record::crc::crc32;
use crate::record::error::RecordError;
use crate::record::mcap_import::chunk::{lz4_frame_check, lz4_frame_decode};
use crate::record::mcap_import::limits::ImportLimitsView;
use crate::record::mcap_import::model::McapImportStats;
use crate::record::mcap_import::parse::{record_spec, RecordSpec};
use crate::record::mcap_import::preflight::{le_u64_at, past_end, spec_validate};
use vstd::prelude::*;

verus! {

/// What an event carries, as plain values.
pub enum EventKind {
    /// Profile and library.
    Header(Seq<char>, Seq<char>),
    /// Id, name, encoding and data of a new schema.
    Schema(u16, Seq<char>, Seq<char>, Seq<u8>),
    /// Id, schema id, topic, message encoding and metadata of a new channel.
    Channel(u16, u16, Seq<char>, Seq<char>, Map<Seq<char>, Seq<char>>),
    /// Name and entries of new named metadata.
    Metadata(Seq<char>, Map<Seq<char>, Seq<char>>),
    /// Channel, sequence, log time, publish time and payload of a message.
    Message(u16, u32, u64, u64, Seq<u8>),
    /// Opcode and body of an index, statistics or summary-offset record.
    Auxiliary(u8, Seq<u8>),
}

/// An event handed to a visitor: what it carries, its record ordinal and
/// its retained-storage charge.
pub struct Handed {
    /// What the event carries.
    pub kind: EventKind,
    /// Logical record ordinal.
    pub ordinal: u64,
    /// Retained-storage charge.
    pub accounted: u64,
}

/// The import state between records.
#[verifier::ext_equal]
pub struct ImportView {
    /// Budgets.
    pub limits: ImportLimitsView,
    /// Profile and library of the header.
    pub header: (Seq<char>, Seq<char>),
    /// Schemas by id: name, encoding, data.
    pub schemas: Map<u16, (Seq<char>, Seq<char>, Seq<u8>)>,
    /// Channels by id: schema id, topic, message encoding, metadata.
    pub channels: Map<u16, (u16, Seq<char>, Seq<char>, Map<Seq<char>, Seq<char>>)>,
    /// Named metadata by name.
    pub metadata: Map<Seq<char>, Map<Seq<char>, Seq<char>>>,
    /// Counters.
    pub stats: McapImportStats,
    /// A header was read.
    pub started: bool,
    /// `DataEnd` was read.
    pub data_end: bool,
    /// The footer was read.
    pub finished: bool,
    /// A statistics record was read.
    pub statistics: bool,
    /// Metadata records read, repeats included.
    pub metadata_records: u64,
    /// Messages per channel.
    pub per_channel: Map<u16, u64>,
    /// Earliest message log time.
    pub min_time: Option<u64>,
    /// Latest message log time.
    pub max_time: Option<u64>,
    /// Offset of the next outer record.
    pub outer_offset: u64,
    /// Start of the summary section, or zero.
    pub summary_start: u64,
    /// Start of the summary-offset section, or zero.
    pub offset_start: u64,
    /// Summary groups: opcode, start, end.
    pub summary_groups: Seq<(u8, u64, u64)>,
    /// Opcodes whose summary offsets were read.
    pub offset_groups: Seq<u8>,
}

/// The outcome of one step: the state after it, the events it hands out in
/// order, and its refusal, if any, which comes after those events.
pub struct Stepped {
    /// The state after the step (meaningful without a refusal).
    pub state: ImportView,
    /// The events handed out, in order.
    pub events: Seq<Handed>,
    /// The refusal, if any.
    pub error: Option<RecordError>,
}

/// A step that hands out nothing and ends in state `s`.
pub open spec fn quiet(s: ImportView) -> Stepped {
    Stepped { state: s, events: Seq::empty(), error: None }
}

/// A step refused with `e` before any event.
pub open spec fn refused(s: ImportView, e: RecordError) -> Stepped {
    Stepped { state: s, events: Seq::empty(), error: Some(e) }
}

/// A step that hands out one event and ends in state `s`.
pub open spec fn handing(s: ImportView, kind: EventKind, ordinal: u64, accounted: u64) -> Stepped {
    Stepped { state: s, events: seq![Handed { kind, ordinal, accounted }], error: None }
}

/// One step followed by another.
pub open spec fn then(a: Stepped, b: Stepped) -> Stepped {
    Stepped { state: b.state, events: a.events + b.events, error: b.error }
}

/// What a visitor saw and answered during a step, from log `before` to log
/// `after`: a prefix of the step's events, every one but the last accepted;
/// a refused event ends the step with the visitor's answer, otherwise every
/// event was handed and the step ends with its own result.
pub open spec fn ran(
    before: Seq<(Handed, Result<(), RecordError>)>,
    after: Seq<(Handed, Result<(), RecordError>)>,
    st: Stepped,
    r: Result<(), RecordError>,
) -> bool {
    let new = after.skip(before.len() as int);
    &&& before.len() <= after.len()
    &&& after.take(before.len() as int) == before
    &&& new.len() <= st.events.len()
    &&& forall|i: int| 0 <= i < new.len() ==> #[trigger] new[i].0 == st.events[i]
    &&& forall|i: int| 0 <= i < new.len() - 1 ==> (#[trigger] new[i]).1 is Ok
    &&& if new.len() > 0 && new.last().1 is Err {
        r == new.last().1
    } else {
        new.len() == st.events.len() && match st.error {
            Some(x) => r == Err::<(), RecordError>(x),
            None => r is Ok,
        }
    }
}

/// Whether an opcode belongs to the summary section.
pub open spec fn summary_op(op: u8) -> bool {
    op == 8 || op == 0x0b || op == 0x0d || op == 0x0e
}

/// The first summary group of an opcode, or the group count.
pub open spec fn first_group(gs: Seq<(u8, u64, u64)>, op: u8) -> int
    decreases gs.len(),
{
    if gs.len() == 0 {
        0
    } else if gs[0].0 == op {
        0
    } else {
        1 + first_group(gs.drop_first(), op)
    }
}

/// Where an outer record of `len` body bytes lies, and the summary groups it
/// extends when it follows `DataEnd`.
pub open spec fn place(s: ImportView, op: u8, len: nat) -> Result<ImportView, RecordError> {
    let start = s.outer_offset;
    if start + 9 + len > u64::MAX {
        Err(RecordError::Mcap("record offset overflow"))
    } else {
        let end = (start + 9 + len) as u64;
        let s2 = ImportView { outer_offset: end, ..s };
        if s2.data_end && op != 2 {
            if op == 0x0e {
                if s2.summary_start == 0 {
                    Err(RecordError::Mcap("offsets without summary"))
                } else if s2.offset_start == 0 {
                    Ok(ImportView { offset_start: start, ..s2 })
                } else {
                    Ok(s2)
                }
            } else if s2.offset_start != 0 {
                Err(RecordError::Mcap("summary after offset section"))
            } else {
                let s3 = if s2.summary_start == 0 { ImportView { summary_start: start, ..s2 } } else { s2 };
                let gs = s3.summary_groups;
                let g = first_group(gs, op);
                if g < gs.len() {
                    if gs[g].2 != start {
                        Err(RecordError::Mcap("noncontiguous summary group"))
                    } else {
                        Ok(ImportView { summary_groups: gs.update(g, (op, gs[g].1, end)), ..s3 })
                    }
                } else {
                    Ok(ImportView { summary_groups: gs.push((op, start, end)), ..s3 })
                }
            }
        } else {
            Ok(s2)
        }
    }
}

/// The checks every record passes before its kind is handled, in order: the
/// record budget, the layout and budgets of its body, the header first, only
/// definitions and messages inside chunks, nothing after the footer, data and
/// summary records on their side of `DataEnd`, well-formed fields, and (for
/// an outer record) its place in the file. The state after them, the body's
/// state-byte charge and its fields.
pub open spec fn entry(s: ImportView, op: u8, d: Seq<u8>, inside: bool) -> Result<(ImportView, u64, RecordSpec), RecordError> {
    if s.stats.records + 1 > s.limits.records {
        Err(RecordError::ImportLimit { kind: "records", limit: s.limits.records })
    } else {
        let s1 = ImportView { stats: McapImportStats { records: (s.stats.records + 1) as u64, ..s.stats }, ..s };
        match spec_validate(op, d, s.limits) {
            Err(e) => Err(e),
            Ok(charge) => if !s.started && op != 1 {
                Err(RecordError::Mcap("header must be first"))
            } else if inside && !(3 <= op && op <= 5) {
                Err(RecordError::UnsupportedMcap("non-definition/message inside chunk"))
            } else if s.finished {
                Err(RecordError::Mcap("records after footer"))
            } else if s.data_end && !((2 <= op && op <= 4) || summary_op(op)) {
                Err(RecordError::Mcap("data record after DataEnd"))
            } else if !s.data_end && summary_op(op) {
                Err(RecordError::Mcap("summary record before DataEnd"))
            } else {
                match record_spec(op, d) {
                    Err(e) => Err(e),
                    Ok(rec) => if inside {
                        Ok((s1, charge, rec))
                    } else {
                        match place(s1, op, d.len()) {
                            Err(e) => Err(e),
                            Ok(s2) => Ok((s2, charge, rec)),
                        }
                    },
                }
            },
        }
    }
}

/// Charge `charge` state bytes, if they fit.
pub open spec fn charged(s: ImportView, charge: u64) -> Result<ImportView, RecordError> {
    if s.stats.state_bytes + charge > s.limits.state_bytes {
        Err(RecordError::ImportLimit { kind: "state bytes", limit: s.limits.state_bytes as u64 })
    } else {
        Ok(ImportView { stats: McapImportStats { state_bytes: (s.stats.state_bytes + charge) as u64, ..s.stats }, ..s })
    }
}

/// The smaller of an optional time and a time.
pub open spec fn earlier(t: Option<u64>, x: u64) -> u64 {
    match t {
        Some(v) => if x < v { x } else { v },
        None => x,
    }
}

/// The larger of an optional time and a time.
pub open spec fn later(t: Option<u64>, x: u64) -> u64 {
    match t {
        Some(v) => if x > v { x } else { v },
        None => x,
    }
}

/// A time, or zero.
pub open spec fn or_zero(t: Option<u64>) -> u64 {
    match t {
        Some(v) => v,
        None => 0,
    }
}

/// A schema record.
pub open spec fn schema_step(s: ImportView, charge: u64, ordinal: u64, id: u16, name: Seq<char>, encoding: Seq<char>, data: Seq<u8>) -> Stepped {
    if id == 0 {
        refused(s, RecordError::Mcap("schema ID zero"))
    } else if encoding.len() == 0 && data.len() != 0 {
        refused(s, RecordError::Mcap("empty schema encoding with data"))
    } else if s.schemas.contains_key(id) {
        if s.schemas[id] == (name, encoding, data) {
            quiet(s)
        } else {
            refused(s, RecordError::Mcap("conflicting schema definition"))
        }
    } else if s.data_end {
        refused(s, RecordError::Mcap("new schema in summary"))
    } else if s.schemas.len() + 1 > s.limits.schemas {
        refused(s, RecordError::ImportLimit { kind: "schemas", limit: s.limits.schemas as u64 })
    } else {
        match charged(s, charge) {
            Err(e) => refused(s, e),
            Ok(t) => handing(
                ImportView { schemas: t.schemas.insert(id, (name, encoding, data)), ..t },
                EventKind::Schema(id, name, encoding, data),
                ordinal,
                charge,
            ),
        }
    }
}

/// A channel record.
pub open spec fn channel_step(
    s: ImportView,
    charge: u64,
    ordinal: u64,
    id: u16,
    schema_id: u16,
    topic: Seq<char>,
    encoding: Seq<char>,
    metadata: Map<Seq<char>, Seq<char>>,
) -> Stepped {
    if schema_id != 0 && !s.schemas.contains_key(schema_id) {
        refused(s, RecordError::Mcap("channel references missing schema"))
    } else if s.channels.contains_key(id) {
        if s.channels[id] == (schema_id, topic, encoding, metadata) {
            quiet(s)
        } else {
            refused(s, RecordError::Mcap("conflicting channel definition"))
        }
    } else if s.data_end {
        refused(s, RecordError::Mcap("new channel in summary"))
    } else if s.channels.len() + 1 > s.limits.channels {
        refused(s, RecordError::ImportLimit { kind: "channels", limit: s.limits.channels as u64 })
    } else {
        match charged(s, charge) {
            Err(e) => refused(s, e),
            Ok(t) => handing(
                ImportView {
                    channels: t.channels.insert(id, (schema_id, topic, encoding, metadata)),
                    per_channel: t.per_channel.insert(id, 0),
                    ..t
                },
                EventKind::Channel(id, schema_id, topic, encoding, metadata),
                ordinal,
                charge,
            ),
        }
    }
}

/// A message record.
pub open spec fn message_step(
    s: ImportView,
    charge: u64,
    ordinal: u64,
    channel_id: u16,
    sequence: u32,
    log_time: u64,
    publish_time: u64,
    payload: Seq<u8>,
) -> Stepped {
    if !s.per_channel.contains_key(channel_id) {
        refused(s, RecordError::Mcap("message references missing channel"))
    } else if s.stats.messages + 1 > s.limits.messages {
        refused(s, RecordError::ImportLimit { kind: "messages", limit: s.limits.messages })
    } else {
        handing(
            ImportView {
                stats: McapImportStats { messages: (s.stats.messages + 1) as u64, ..s.stats },
                per_channel: s.per_channel.insert(channel_id, (s.per_channel[channel_id] + 1) as u64),
                min_time: Some(earlier(s.min_time, log_time)),
                max_time: Some(later(s.max_time, log_time)),
                ..s
            },
            EventKind::Message(channel_id, sequence, log_time, publish_time, payload),
            ordinal,
            charge,
        )
    }
}

/// A named metadata record.
pub open spec fn metadata_step(s: ImportView, charge: u64, ordinal: u64, name: Seq<char>, entries: Map<Seq<char>, Seq<char>>) -> Stepped {
    let s1 = ImportView { metadata_records: (s.metadata_records + 1) as u64, ..s };
    if s.metadata.contains_key(name) {
        if s.metadata[name] == entries {
            quiet(s1)
        } else {
            refused(s1, RecordError::Mcap("conflicting named metadata"))
        }
    } else {
        match charged(s1, charge) {
            Err(e) => refused(s1, e),
            Ok(t) => handing(
                ImportView { metadata: t.metadata.insert(name, entries), ..t },
                EventKind::Metadata(name, entries),
                ordinal,
                charge,
            ),
        }
    }
}

/// Whether a statistics record agrees with what was read.
pub open spec fn statistics_agree(
    s: ImportView,
    message_count: u64,
    schema_count: u16,
    channel_count: u32,
    attachment_count: u32,
    metadata_count: u32,
    chunk_count: u32,
    start: u64,
    end: u64,
) -> bool {
    &&& !s.statistics
    &&& message_count == s.stats.messages
    &&& schema_count == s.schemas.len()
    &&& channel_count == s.channels.len()
    &&& attachment_count == 0
    &&& metadata_count == s.metadata_records
    &&& chunk_count == s.stats.chunks
    &&& start == or_zero(s.min_time)
    &&& end == or_zero(s.max_time)
}

/// A summary-offset record.
pub open spec fn summary_offset_step(s: ImportView, op: u8, d: Seq<u8>, charge: u64, ordinal: u64, group: u8, start: u64, length: u64) -> Stepped {
    if start + length > u64::MAX {
        refused(s, RecordError::Mcap("summary group offset overflow"))
    } else {
        let end = start + length;
        let gs = s.summary_groups;
        let g = first_group(gs, group);
        let known = g < gs.len();
        let starts_group = start == s.offset_start || exists|k: int| 0 <= k < gs.len() && #[trigger] gs[k].1 == start;
        let summarizable = group == 3 || group == 4 || group == 8 || group == 0x0a || group == 0x0b || group == 0x0d;
        let empty = length == 0 && summarizable && !known && starts_group;
        let matches_group = known && gs[g].1 == start && gs[g].2 == end;
        if (!empty && !matches_group) || s.offset_groups.contains(group) {
            refused(s, RecordError::Mcap("summary offset disagrees with group"))
        } else {
            handing(ImportView { offset_groups: s.offset_groups.push(group), ..s }, EventKind::Auxiliary(op, d), ordinal, charge)
        }
    }
}

/// A header record.
pub open spec fn header_step(s: ImportView, charge: u64, ordinal: u64, profile: Seq<char>, library: Seq<char>) -> Stepped {
    if s.started {
        refused(s, RecordError::Mcap("repeated header"))
    } else {
        match charged(s, charge) {
            Err(e) => refused(s, e),
            Ok(t) => handing(
                ImportView { started: true, header: (profile, library), ..t },
                EventKind::Header(profile, library),
                ordinal,
                charge,
            ),
        }
    }
}

/// A statistics record whose totals agree: its per-channel counts.
pub open spec fn counts_step(s: ImportView, op: u8, d: Seq<u8>, charge: u64, ordinal: u64, counts: Seq<(u16, u64)>) -> Stepped {
    if exists|k: int|
        0 <= k < counts.len() && !(s.per_channel.contains_key(#[trigger] counts[k].0) && s.per_channel[counts[k].0]
            == counts[k].1) {
        refused(s, RecordError::Mcap("channel statistics mismatch"))
    } else {
        handing(ImportView { statistics: true, ..s }, EventKind::Auxiliary(op, d), ordinal, charge)
    }
}

/// A record other than a chunk, past `entry`.
pub open spec fn kind_step(s: ImportView, op: u8, d: Seq<u8>, charge: u64, rec: RecordSpec) -> Stepped {
    let ordinal = s.stats.records;
    match rec {
        RecordSpec::Header(profile, library) => header_step(s, charge, ordinal, profile, library),
        RecordSpec::Schema(id, name, encoding, data) => schema_step(s, charge, ordinal, id, name, encoding, data),
        RecordSpec::Channel(id, schema_id, topic, encoding, metadata) => channel_step(
            s,
            charge,
            ordinal,
            id,
            schema_id,
            topic,
            encoding,
            metadata,
        ),
        RecordSpec::Message(channel_id, sequence, log_time, publish_time, payload) => message_step(
            s,
            charge,
            ordinal,
            channel_id,
            sequence,
            log_time,
            publish_time,
            payload,
        ),
        RecordSpec::Metadata(name, entries) => metadata_step(s, charge, ordinal, name, entries),
        RecordSpec::DataEnd(_) => if s.data_end {
            refused(s, RecordError::Mcap("repeated DataEnd"))
        } else {
            quiet(ImportView { data_end: true, ..s })
        },
        RecordSpec::Footer(summary_start, offset_start, _) => if !s.data_end {
            refused(s, RecordError::Mcap("missing DataEnd"))
        } else if summary_start != s.summary_start || offset_start != s.offset_start {
            refused(s, RecordError::Mcap("footer section offsets disagree with file"))
        } else {
            quiet(ImportView { finished: true, ..s })
        },
        RecordSpec::Statistics(messages, schemas, channels, attachments, metadata, chunks, start, end, counts) => {
            if !statistics_agree(s, messages, schemas, channels, attachments, metadata, chunks, start, end) {
                refused(s, RecordError::Mcap("statistics disagree with observed data"))
            } else {
                counts_step(s, op, d, charge, ordinal, counts)
            }
        },
        RecordSpec::SummaryOffset(group, start, length) => summary_offset_step(s, op, d, charge, ordinal, group, start, length),
        RecordSpec::Chunk(..) => quiet(s),
        _ => handing(s, EventKind::Auxiliary(op, d), ordinal, charge),
    }
}

/// A definition or message record inside a chunk.
#[verifier::opaque]
pub open spec fn inner_step(s: ImportView, op: u8, d: Seq<u8>) -> Stepped {
    match entry(s, op, d, true) {
        Err(e) => refused(s, e),
        Ok((t, charge, rec)) => kind_step(t, op, d, charge, rec),
    }
}

/// The decoded records of a chunk from `pos` on: their layout is checked
/// and the log times of their messages are gathered, starting from
/// `(lo, hi)`.
pub open spec fn chunk_scan(b: Seq<u8>, pos: int, l: ImportLimitsView, lo: Option<u64>, hi: Option<u64>) -> Result<
    (Option<u64>, Option<u64>),
    RecordError,
>
    decreases b.len() - pos,
{
    if pos < 0 || pos >= b.len() {
        Ok((lo, hi))
    } else if pos + 9 > b.len() {
        Err(past_end())
    } else {
        let n = le_u64_at(b, pos + 1) as int;
        let op = b[pos];
        if n > l.record_bytes {
            Err(RecordError::ImportLimit { kind: "record bytes", limit: l.record_bytes as u64 })
        } else if n > b.len() - pos - 9 {
            Err(past_end())
        } else if !(3 <= op && op <= 5) {
            Err(RecordError::UnsupportedMcap("non-definition/message inside chunk"))
        } else {
            let inner = b.subrange(pos + 9, pos + 9 + n);
            match spec_validate(op, inner, l) {
                Err(e) => Err(e),
                Ok(_) => if op == 5 && inner.len() < 14 {
                    Err(RecordError::Mcap("message record too short"))
                } else if op == 5 {
                    let t = le_u64_at(inner, 6);
                    chunk_scan(b, pos + 9 + n, l, Some(earlier(lo, t)), Some(later(hi, t)))
                } else {
                    chunk_scan(b, pos + 9 + n, l, lo, hi)
                },
            }
        }
    }
}

/// The decoded records of a chunk from `pos` on, handled in order.
pub open spec fn chunk_replay(s: ImportView, b: Seq<u8>, pos: int) -> Stepped
    decreases b.len() - pos,
{
    if pos < 0 || pos >= b.len() {
        quiet(s)
    } else if pos + 9 > b.len() {
        refused(s, past_end())
    } else {
        let n = le_u64_at(b, pos + 1) as int;
        let op = b[pos];
        if n > b.len() - pos - 9 {
            refused(s, RecordError::Mcap("field extends past record"))
        } else if !(3 <= op && op <= 5) {
            refused(s, RecordError::UnsupportedMcap("non-definition/message inside chunk"))
        } else {
            let st = inner_step(s, op, b.subrange(pos + 9, pos + 9 + n));
            if st.error is Some {
                st
            } else {
                then(st, chunk_replay(st.state, b, pos + 9 + n))
            }
        }
    }
}

/// The decoded bytes of a chunk body, or the refusal.
pub open spec fn chunk_bytes(compression: Seq<char>, body: Seq<u8>, size: u64) -> Result<Seq<u8>, RecordError> {
    if compression.len() == 0 {
        if body.len() != size {
            Err(RecordError::Mcap("uncompressed chunk length mismatch"))
        } else {
            Ok(body)
        }
    } else if compression == "lz4"@ {
        match lz4_frame_check(body, size as nat) {
            Err(e) => Err(e),
            Ok(()) => match lz4_frame_decode(body, size as nat) {
                None => Err(RecordError::Mcap("LZ4 frame does not decode to the advertised size")),
                Some((out, extra, finished)) => if extra != 0 {
                    Err(RecordError::Mcap("decoded chunk exceeds advertised size"))
                } else if !finished {
                    Err(RecordError::Mcap("LZ4 frame is incomplete"))
                } else {
                    Ok(out)
                },
            },
        }
    } else {
        Err(RecordError::UnsupportedMcap("compression: only uncompressed and LZ4 are enabled"))
    }
}

/// A chunk record, past `entry`.
pub open spec fn chunk_step(
    s: ImportView,
    start: u64,
    end: u64,
    size: u64,
    crc: u32,
    compression: Seq<char>,
    body: Seq<u8>,
) -> Stepped {
    if size > s.limits.chunk_bytes {
        refused(s, RecordError::ImportLimit { kind: "decoded chunk bytes", limit: s.limits.chunk_bytes as u64 })
    } else if s.stats.decoded_bytes + size > s.limits.decoded_bytes {
        refused(s, RecordError::ImportLimit { kind: "decoded bytes", limit: s.limits.decoded_bytes })
    } else {
        let s1 = ImportView {
            stats: McapImportStats {
                decoded_bytes: (s.stats.decoded_bytes + size) as u64,
                chunks: (s.stats.chunks + 1) as u64,
                ..s.stats
            },
            ..s
        };
        match chunk_bytes(compression, body, size) {
            Err(e) => refused(s1, e),
            Ok(b) => {
                let s2 = if b.len() > s1.stats.largest_chunk_bytes {
                    ImportView { stats: McapImportStats { largest_chunk_bytes: b.len() as usize, ..s1.stats }, ..s1 }
                } else {
                    s1
                };
                if crc != 0 && crc32(b) != crc {
                    refused(s2, RecordError::Mcap("chunk CRC mismatch"))
                } else {
                    match chunk_scan(b, 0, s2.limits, None, None) {
                        Err(e) => refused(s2, e),
                        Ok((lo, hi)) => if or_zero(lo) != start || or_zero(hi) != end {
                            refused(s2, RecordError::Mcap("chunk message-time bounds mismatch"))
                        } else {
                            chunk_replay(s2, b, 0)
                        },
                    }
                }
            },
        }
    }
}

/// An outer record.
#[verifier::opaque]
pub open spec fn outer_step(s: ImportView, op: u8, d: Seq<u8>) -> Stepped {
    match entry(s, op, d, false) {
        Err(e) => refused(s, e),
        Ok((t, charge, rec)) => match rec {
            RecordSpec::Chunk(start, end, size, crc, compression, body) => chunk_step(t, start, end, size, crc, compression, body),
            _ => kind_step(t, op, d, charge, rec),
        },
    }
}

/// A step that hands out nothing leaves the visitor's log as it is.
pub proof fn lemma_ran_none(v: Seq<(Handed, Result<(), RecordError>)>, st: Stepped)
    requires
        st.events.len() == 0,
    ensures
        st.error is None ==> ran(v, v, st, Ok(())),
        st.error matches Some(e) ==> ran(v, v, st, Err(e)),
{
    assert(v.take(v.len() as int) =~= v);
    assert(v.skip(v.len() as int).len() == 0);
}

/// A log is its own prefix, with nothing after it.
pub proof fn lemma_log_same(v: Seq<(Handed, Result<(), RecordError>)>)
    ensures
        v.take(v.len() as int) == v,
        v.skip(v.len() as int) == Seq::<(Handed, Result<(), RecordError>)>::empty(),
{
    assert(v.take(v.len() as int) =~= v);
    assert(v.skip(v.len() as int) =~= Seq::<(Handed, Result<(), RecordError>)>::empty());
}

/// A step that hands out one event, answered `a`, ends with `a`.
pub proof fn lemma_ran_one(v: Seq<(Handed, Result<(), RecordError>)>, a: Result<(), RecordError>, st: Stepped)
    requires
        st.events.len() == 1,
        st.error is None,
    ensures
        ran(v, v.push((st.events[0], a)), st, a),
{
    let w = v.push((st.events[0], a));
    assert(w.take(v.len() as int) =~= v);
    assert(w.skip(v.len() as int) =~= seq![(st.events[0], a)]);
    let nn = w.skip(v.len() as int);
    assert(nn.last() == (st.events[0], a));
}

/// A step that ended without a refusal, followed by another.
pub proof fn lemma_ran_then(
    v0: Seq<(Handed, Result<(), RecordError>)>,
    v1: Seq<(Handed, Result<(), RecordError>)>,
    v2: Seq<(Handed, Result<(), RecordError>)>,
    a: Stepped,
    b: Stepped,
    r: Result<(), RecordError>,
)
    requires
        ran(v0, v1, a, Ok(())),
        a.error is None,
        ran(v1, v2, b, r),
    ensures
        ran(v0, v2, then(a, b), r),
{
    let n0 = v0.len() as int;
    let n1 = v1.len() as int;
    let na = v1.skip(n0);
    let nb = v2.skip(n1);
    let nn = v2.skip(n0);
    assert(na.len() == a.events.len());
    assert(v2.take(n0) =~= v0) by {
        assert(v2.take(n1).take(n0) =~= v2.take(n0));
    }
    assert(nn =~= na + nb) by {
        assert(v1 =~= v0 + na);
        assert(v2 =~= v1 + nb);
    }
    let ev = then(a, b).events;
    assert forall|i: int| 0 <= i < nn.len() implies #[trigger] nn[i].0 == ev[i] by {
        if i < na.len() {
            assert(nn[i] == na[i]);
        } else {
            assert(nn[i] == nb[i - na.len()]);
        }
    }
    assert forall|i: int| 0 <= i < nn.len() - 1 implies (#[trigger] nn[i]).1 is Ok by {
        if i < na.len() {
            assert(nn[i] == na[i]);
            if na.len() > 0 && i == na.len() - 1 {
                assert(na.last() == na[i]);
            }
        } else {
            assert(nn[i] == nb[i - na.len()]);
        }
    }
    if nb.len() > 0 {
        assert(nn.last() == nb.last());
    } else {
        assert(nn =~= na);
        if na.len() > 0 {
            assert(na.last() == na[na.len() - 1]);
        }
    }
}

/// A visitor's refusal ends every step whose events begin with the events
/// handed so far.
pub proof fn lemma_ran_refusal(
    v0: Seq<(Handed, Result<(), RecordError>)>,
    v1: Seq<(Handed, Result<(), RecordError>)>,
    a: Stepped,
    b: Stepped,
    r: Result<(), RecordError>,
)
    requires
        ran(v0, v1, a, r),
        r is Err,
        a.error is None,
        a.events.len() <= b.events.len(),
        b.events.take(a.events.len() as int) == a.events,
    ensures
        ran(v0, v1, b, r),
{
    let nn = v1.skip(v0.len() as int);
    assert forall|i: int| 0 <= i < nn.len() implies #[trigger] nn[i].0 == b.events[i] by {
        assert(b.events.take(a.events.len() as int)[i] == b.events[i]);
    }
}

/// A step that ended without a refusal, then refused before any event.
pub proof fn lemma_ran_stop(
    v0: Seq<(Handed, Result<(), RecordError>)>,
    v1: Seq<(Handed, Result<(), RecordError>)>,
    a: Stepped,
    s: ImportView,
    e: RecordError,
)
    requires
        ran(v0, v1, a, Ok(())),
        a.error is None,
    ensures
        ran(v0, v1, then(a, refused(s, e)), Err(e)),
{
    lemma_log_same(v1);
    lemma_ran_then(v0, v1, v1, a, refused(s, e), Err(e));
}

/// A visitor that accepts every event it is handed is handed every event of
/// the step, and the step's result is its own: success exactly when it has
/// no refusal.
pub proof fn accepting_visitor_sees_all(
    v0: Seq<(Handed, Result<(), RecordError>)>,
    v1: Seq<(Handed, Result<(), RecordError>)>,
    st: Stepped,
    r: Result<(), RecordError>,
)
    requires
        ran(v0, v1, st, r),
        forall|i: int| v0.len() <= i < v1.len() ==> (#[trigger] v1[i]).1 is Ok,
    ensures
        v1.skip(v0.len() as int).map_values(|x: (Handed, Result<(), RecordError>)| x.0) == st.events,
        r is Ok <==> st.error is None,
        st.error matches Some(e) ==> r == Err::<(), RecordError>(e),
{
    let new = v1.skip(v0.len() as int);
    if new.len() > 0 {
        assert(new.last() == v1[v1.len() - 1]);
    }
    assert(new.map_values(|x: (Handed, Result<(), RecordError>)| x.0) =~= st.events);
}

/// Steps compose associatively.
pub proof fn lemma_then_assoc(a: Stepped, b: Stepped, c: Stepped)
    ensures
        then(then(a, b), c) == then(a, then(b, c)),
{
    assert(then(then(a, b), c).events =~= then(a, then(b, c)).events);
}

/// The events of a step begin with those of its first part.
pub proof fn lemma_then_prefix(acc: Stepped, a: Stepped, rest: Stepped)
    ensures
        then(acc, a).events.len() <= then(acc, then(a, rest)).events.len(),
        then(acc, then(a, rest)).events.take(then(acc, a).events.len() as int) == then(acc, a).events,
{
    assert(then(acc, then(a, rest)).events.take(then(acc, a).events.len() as int) =~= then(acc, a).events);
}

/// A quiet step changes nothing before another.
pub proof fn lemma_then_quiet(s: ImportView, b: Stepped)
    ensures
        then(quiet(s), b) == b,
{
    assert(then(quiet(s), b).events =~= b.events);
}

/// A step followed by a quiet step ends in the quiet step's state.
pub proof fn lemma_quiet_after(v0: Seq<(Handed, Result<(), RecordError>)>, v1: Seq<(Handed, Result<(), RecordError>)>, a: Stepped, s: ImportView)
    requires
        ran(v0, v1, a, Ok(())),
        a.error is None,
    ensures
        ran(v0, v1, then(a, quiet(s)), Ok(())),
{
    assert(then(a, quiet(s)).events =~= a.events);
}

/// The first summary group of an opcode is the one a scan from the front finds.
pub proof fn lemma_first_group(gs: Seq<(u8, u64, u64)>, op: u8, g: int)
    requires
        0 <= g <= gs.len(),
        forall|k: int| 0 <= k < g ==> gs[k].0 != op,
        g < gs.len() ==> gs[g].0 == op,
    ensures
        first_group(gs, op) == g,
    decreases gs.len(),
{
    if gs.len() > 0 && g > 0 {
        assert forall|k: int| 0 <= k < g - 1 implies gs.drop_first()[k].0 != op by {
            assert(gs.drop_first()[k] == gs[k + 1]);
        }
        lemma_first_group(gs.drop_first(), op, g - 1);
    }
}

} // verus!
