//! Materialize one validated MCAP record body into typed fields.
use crate::record::error::RecordError;
use crate::record::mcap_import::model::{McapChannel, McapHeader, McapMetadata, McapSchema};
use crate::record::mcap_import::preflight::{cursor_wf, le_u32_at, le_u64_at, past_end, Cursor};
use crate::record::strmap::{entries_map, lemma_empty_map, StringMap};
use crate::text::{copy_bytes, utf8_string};
use vstd::bytes::{spec_u16_from_le_bytes, u16_from_le_bytes};
use vstd::prelude::*;

verus! {

/// Little-endian `u16` at a byte position.
pub open spec fn le_u16_at(d: Seq<u8>, p: int) -> u16 {
    spec_u16_from_le_bytes(d.subrange(p, p + 2))
}

/// A typed MCAP record. Bodies of index records stay opaque.
#[derive(Debug)]
pub enum McapRecord<'a> {
    /// Profile and library.
    Header(McapHeader),
    /// Section offsets and summary CRC.
    Footer {
        /// Start of the summary section, or zero.
        summary_start: u64,
        /// Start of the summary-offset section, or zero.
        summary_offset_start: u64,
        /// CRC of the summary section, or zero.
        summary_crc: u32,
    },
    /// A schema definition.
    Schema(McapSchema),
    /// A channel definition.
    Channel(McapChannel),
    /// A message.
    Message {
        /// Channel.
        channel_id: u16,
        /// Sequence counter.
        sequence: u32,
        /// Logging time.
        log_time: u64,
        /// Publishing time.
        publish_time: u64,
        /// Payload.
        data: &'a [u8],
    },
    /// A chunk of definition and message records.
    Chunk {
        /// Earliest message log time.
        message_start_time: u64,
        /// Latest message log time.
        message_end_time: u64,
        /// Decoded size.
        uncompressed_size: u64,
        /// CRC of the decoded bytes, or zero.
        uncompressed_crc: u32,
        /// Compression name.
        compression: String,
        /// Encoded records.
        data: &'a [u8],
    },
    /// A message index (opaque).
    MessageIndex,
    /// A chunk index (opaque).
    ChunkIndex,
    /// Summary statistics.
    Statistics {
        /// Messages.
        message_count: u64,
        /// Schemas.
        schema_count: u16,
        /// Channels.
        channel_count: u32,
        /// Attachments.
        attachment_count: u32,
        /// Metadata records.
        metadata_count: u32,
        /// Chunks.
        chunk_count: u32,
        /// Earliest message log time.
        message_start_time: u64,
        /// Latest message log time.
        message_end_time: u64,
        /// Per-channel message counts; a repeated channel keeps its last count.
        channel_message_counts: Vec<(u16, u64)>,
    },
    /// Named metadata.
    Metadata(McapMetadata),
    /// A metadata index (opaque).
    MetadataIndex,
    /// A summary-offset record.
    SummaryOffset {
        /// Opcode of the summarized group.
        group_opcode: u8,
        /// Group start.
        group_start: u64,
        /// Group byte length.
        group_length: u64,
    },
    /// End of the data section.
    DataEnd {
        /// CRC of the data section, or zero.
        data_section_crc: u32,
    },
}

/// A byte at `p`, and the position after it.
pub open spec fn u8_at(d: Seq<u8>, p: int) -> Result<(u8, int), RecordError> {
    if p + 1 <= d.len() { Ok((d[p], p + 1)) } else { Err(past_end()) }
}

/// A little-endian `u16` at `p`, and the position after it.
pub open spec fn u16_at(d: Seq<u8>, p: int) -> Result<(u16, int), RecordError> {
    if p + 2 <= d.len() { Ok((le_u16_at(d, p), p + 2)) } else { Err(past_end()) }
}

/// A little-endian `u32` at `p`, and the position after it.
pub open spec fn u32_at(d: Seq<u8>, p: int) -> Result<(u32, int), RecordError> {
    if p + 4 <= d.len() { Ok((le_u32_at(d, p), p + 4)) } else { Err(past_end()) }
}

/// A little-endian `u64` at `p`, and the position after it.
pub open spec fn u64_at(d: Seq<u8>, p: int) -> Result<(u64, int), RecordError> {
    if p + 8 <= d.len() { Ok((le_u64_at(d, p), p + 8)) } else { Err(past_end()) }
}

/// A `u32`-length-prefixed byte array at `p`, and the position after it.
pub open spec fn bytes32_at(d: Seq<u8>, p: int) -> Result<(Seq<u8>, int), RecordError> {
    if p + 4 > d.len() {
        Err(past_end())
    } else {
        let n = le_u32_at(d, p) as int;
        if p + 4 + n > d.len() {
            Err(past_end())
        } else {
            Ok((d.subrange(p + 4, p + 4 + n), p + 4 + n))
        }
    }
}

/// A `u32`-length-prefixed UTF-8 string at `p`, and the position after it.
pub open spec fn string_at(d: Seq<u8>, p: int) -> Result<(Seq<char>, int), RecordError> {
    match bytes32_at(d, p) {
        Err(e) => Err(e),
        Ok((b, q)) => if vstd::utf8::valid_utf8(b) {
            Ok((vstd::utf8::decode_utf8(b), q))
        } else {
            Err(RecordError::Mcap("invalid UTF-8"))
        },
    }
}

/// The key/value string pairs of a map body from `p` on.
pub open spec fn string_pairs(d: Seq<u8>, p: int) -> Result<Seq<(Seq<char>, Seq<char>)>, RecordError>
    decreases d.len() - p,
{
    if p < 0 || p >= d.len() {
        Ok(Seq::empty())
    } else {
        match string_at(d, p) {
            Err(e) => Err(e),
            Ok((k, q)) => match string_at(d, q) {
                Err(e) => Err(e),
                Ok((v, r)) => if r <= p || r > d.len() {
                    Ok(Seq::empty())
                } else {
                    match string_pairs(d, r) {
                        Err(e) => Err(e),
                        Ok(rest) => Ok(seq![(k, v)] + rest),
                    }
                },
            },
        }
    }
}

/// The map that inserting pairs in order gives (a later key wins).
pub open spec fn pairs_map(ps: Seq<(Seq<char>, Seq<char>)>) -> Map<Seq<char>, Seq<char>>
    decreases ps.len(),
{
    if ps.len() == 0 {
        Map::empty()
    } else {
        pairs_map(ps.drop_last()).insert(ps.last().0, ps.last().1)
    }
}

/// A `u32`-byte-length string map at `p`, and the position after it.
pub open spec fn string_map_at(d: Seq<u8>, p: int) -> Result<(Map<Seq<char>, Seq<char>>, int), RecordError> {
    if p + 4 > d.len() {
        Err(past_end())
    } else {
        let n = le_u32_at(d, p) as int;
        if p + 4 + n > d.len() {
            Err(past_end())
        } else {
            match string_pairs(d.subrange(p + 4, p + 4 + n), 0) {
                Err(e) => Err(e),
                Ok(ps) => Ok((pairs_map(ps), p + 4 + n)),
            }
        }
    }
}

/// The channel/count pairs of a count-map body from `p` on.
pub open spec fn count_pairs(d: Seq<u8>, p: int) -> Result<Seq<(u16, u64)>, RecordError>
    decreases d.len() - p,
{
    if p < 0 || p >= d.len() {
        Ok(Seq::empty())
    } else if p + 10 > d.len() {
        Err(past_end())
    } else {
        match count_pairs(d, p + 10) {
            Err(e) => Err(e),
            Ok(rest) => Ok(seq![(le_u16_at(d, p), le_u64_at(d, p + 2))] + rest),
        }
    }
}

/// Whether a count list holds a channel.
pub open spec fn has_channel(v: Seq<(u16, u64)>, id: u16) -> bool {
    exists|i: int| 0 <= i < v.len() && #[trigger] v[i].0 == id
}

/// Set a channel's count: replace its entry, or append one.
pub open spec fn upsert(v: Seq<(u16, u64)>, x: (u16, u64)) -> Seq<(u16, u64)> {
    if has_channel(v, x.0) {
        v.update(choose|i: int| 0 <= i < v.len() && #[trigger] v[i].0 == x.0, x)
    } else {
        v.push(x)
    }
}

/// The counts that setting pairs in order gives (a repeated channel keeps its
/// last count, at its first position).
pub open spec fn upsert_all(ps: Seq<(u16, u64)>) -> Seq<(u16, u64)>
    decreases ps.len(),
{
    if ps.len() == 0 {
        Seq::empty()
    } else {
        upsert(upsert_all(ps.drop_last()), ps.last())
    }
}

/// A `u32`-byte-length count map at `p`, and the position after it.
pub open spec fn count_map_at(d: Seq<u8>, p: int) -> Result<(Seq<(u16, u64)>, int), RecordError> {
    if p + 4 > d.len() {
        Err(past_end())
    } else {
        let n = le_u32_at(d, p) as int;
        if p + 4 + n > d.len() {
            Err(past_end())
        } else {
            match count_pairs(d.subrange(p + 4, p + 4 + n), 0) {
                Err(e) => Err(e),
                Ok(ps) => Ok((upsert_all(ps), p + 4 + n)),
            }
        }
    }
}

/// Pairs parsed so far followed by what the rest of the body gives.
pub open spec fn followed_by<T>(done: Seq<T>, rest: Result<Seq<T>, RecordError>) -> Result<Seq<T>, RecordError> {
    match rest {
        Ok(r) => Ok(done + r),
        Err(e) => Err(e),
    }
}

/// What a record body holds, field by field.
pub enum RecordSpec {
    /// Profile and library.
    Header(Seq<char>, Seq<char>),
    /// Summary start, summary-offset start, summary CRC.
    Footer(u64, u64, u32),
    /// Id, name, encoding, data.
    Schema(u16, Seq<char>, Seq<char>, Seq<u8>),
    /// Id, schema id, topic, message encoding, metadata.
    Channel(u16, u16, Seq<char>, Seq<char>, Map<Seq<char>, Seq<char>>),
    /// Channel, sequence, log time, publish time, payload.
    Message(u16, u32, u64, u64, Seq<u8>),
    /// Start and end times, decoded size and CRC, compression, records.
    Chunk(u64, u64, u64, u32, Seq<char>, Seq<u8>),
    /// An opaque message index.
    MessageIndex,
    /// An opaque chunk index.
    ChunkIndex,
    /// Counts, time range and per-channel message counts.
    Statistics(u64, u16, u32, u32, u32, u32, u64, u64, Seq<(u16, u64)>),
    /// Name and entries.
    Metadata(Seq<char>, Map<Seq<char>, Seq<char>>),
    /// An opaque metadata index.
    MetadataIndex,
    /// Group opcode, start and length.
    SummaryOffset(u8, u64, u64),
    /// Data-section CRC.
    DataEnd(u32),
}

/// The fields of a record body of a supported opcode, read in order, or the
/// first failure.
pub open spec fn record_spec(op: u8, d: Seq<u8>) -> Result<RecordSpec, RecordError> {
    if op == 0x01 {
        match string_at(d, 0) {
            Err(e) => Err(e),
            Ok((a, p)) => match string_at(d, p) {
                Err(e) => Err(e),
                Ok((b, _)) => Ok(RecordSpec::Header(a, b)),
            },
        }
    } else if op == 0x02 {
        match (u64_at(d, 0), u64_at(d, 8), u32_at(d, 16)) {
            (Ok((a, _)), Ok((b, _)), Ok((c, _))) => Ok(RecordSpec::Footer(a, b, c)),
            _ => Err(past_end()),
        }
    } else if op == 0x03 {
        match u16_at(d, 0) {
            Err(e) => Err(e),
            Ok((id, p1)) => match string_at(d, p1) {
                Err(e) => Err(e),
                Ok((name, p2)) => match string_at(d, p2) {
                    Err(e) => Err(e),
                    Ok((enc, p3)) => match bytes32_at(d, p3) {
                        Err(e) => Err(e),
                        Ok((data, _)) => Ok(RecordSpec::Schema(id, name, enc, data)),
                    },
                },
            },
        }
    } else if op == 0x04 {
        match (u16_at(d, 0), u16_at(d, 2)) {
            (Ok((id, _)), Ok((schema, _))) => match string_at(d, 4) {
                Err(e) => Err(e),
                Ok((topic, p1)) => match string_at(d, p1) {
                    Err(e) => Err(e),
                    Ok((enc, p2)) => match string_map_at(d, p2) {
                        Err(e) => Err(e),
                        Ok((m, _)) => Ok(RecordSpec::Channel(id, schema, topic, enc, m)),
                    },
                },
            },
            _ => Err(past_end()),
        }
    } else if op == 0x05 {
        if d.len() < 22 {
            Err(past_end())
        } else {
            Ok(
                RecordSpec::Message(
                    le_u16_at(d, 0),
                    le_u32_at(d, 2),
                    le_u64_at(d, 6),
                    le_u64_at(d, 14),
                    d.subrange(22, d.len() as int),
                ),
            )
        }
    } else if op == 0x06 {
        if d.len() < 28 {
            Err(past_end())
        } else {
            match string_at(d, 28) {
                Err(e) => Err(e),
                Ok((compression, p)) => match u64_at(d, p) {
                    Err(e) => Err(e),
                    Ok((n, q)) => if n > d.len() - q {
                        Err(RecordError::Mcap("malformed record fields"))
                    } else {
                        Ok(
                            RecordSpec::Chunk(
                                le_u64_at(d, 0),
                                le_u64_at(d, 8),
                                le_u64_at(d, 16),
                                le_u32_at(d, 24),
                                compression,
                                d.subrange(q, q + n),
                            ),
                        )
                    },
                },
            }
        }
    } else if op == 0x07 {
        Ok(RecordSpec::MessageIndex)
    } else if op == 0x08 {
        Ok(RecordSpec::ChunkIndex)
    } else if op == 0x0b {
        if d.len() < 42 {
            Err(past_end())
        } else {
            match count_map_at(d, 42) {
                Err(e) => Err(e),
                Ok((counts, _)) => Ok(
                    RecordSpec::Statistics(
                        le_u64_at(d, 0),
                        le_u16_at(d, 8),
                        le_u32_at(d, 10),
                        le_u32_at(d, 14),
                        le_u32_at(d, 18),
                        le_u32_at(d, 22),
                        le_u64_at(d, 26),
                        le_u64_at(d, 34),
                        counts,
                    ),
                ),
            }
        }
    } else if op == 0x0c {
        match string_at(d, 0) {
            Err(e) => Err(e),
            Ok((name, p)) => match string_map_at(d, p) {
                Err(e) => Err(e),
                Ok((m, _)) => Ok(RecordSpec::Metadata(name, m)),
            },
        }
    } else if op == 0x0d {
        Ok(RecordSpec::MetadataIndex)
    } else if op == 0x0e {
        if d.len() < 17 {
            Err(past_end())
        } else {
            Ok(RecordSpec::SummaryOffset(d[0], le_u64_at(d, 1), le_u64_at(d, 9)))
        }
    } else if op == 0x0f {
        match u32_at(d, 0) {
            Err(e) => Err(e),
            Ok((c, _)) => Ok(RecordSpec::DataEnd(c)),
        }
    } else {
        Err(RecordError::UnsupportedMcapRecord(op))
    }
}

/// The fields of a parsed record.
pub open spec fn record_view<'a>(r: McapRecord<'a>) -> RecordSpec {
    match r {
        McapRecord::Header(h) => RecordSpec::Header(h.profile@, h.library@),
        McapRecord::Footer { summary_start, summary_offset_start, summary_crc } => RecordSpec::Footer(
            summary_start,
            summary_offset_start,
            summary_crc,
        ),
        McapRecord::Schema(s) => RecordSpec::Schema(s.id, s.name@, s.encoding@, s.data@),
        McapRecord::Channel(c) => RecordSpec::Channel(
            c.id,
            c.schema_id,
            c.topic@,
            c.message_encoding@,
            entries_map(c.metadata.spec_entries()),
        ),
        McapRecord::Message { channel_id, sequence, log_time, publish_time, data } => RecordSpec::Message(
            channel_id,
            sequence,
            log_time,
            publish_time,
            data@,
        ),
        McapRecord::Chunk {
            message_start_time,
            message_end_time,
            uncompressed_size,
            uncompressed_crc,
            compression,
            data,
        } => RecordSpec::Chunk(
            message_start_time,
            message_end_time,
            uncompressed_size,
            uncompressed_crc,
            compression@,
            data@,
        ),
        McapRecord::MessageIndex => RecordSpec::MessageIndex,
        McapRecord::ChunkIndex => RecordSpec::ChunkIndex,
        McapRecord::Statistics {
            message_count,
            schema_count,
            channel_count,
            attachment_count,
            metadata_count,
            chunk_count,
            message_start_time,
            message_end_time,
            channel_message_counts,
        } => RecordSpec::Statistics(
            message_count,
            schema_count,
            channel_count,
            attachment_count,
            metadata_count,
            chunk_count,
            message_start_time,
            message_end_time,
            channel_message_counts@,
        ),
        McapRecord::Metadata(m) => RecordSpec::Metadata(m.name@, entries_map(m.entries.spec_entries())),
        McapRecord::MetadataIndex => RecordSpec::MetadataIndex,
        McapRecord::SummaryOffset { group_opcode, group_start, group_length } => RecordSpec::SummaryOffset(
            group_opcode,
            group_start,
            group_length,
        ),
        McapRecord::DataEnd { data_section_crc } => RecordSpec::DataEnd(data_section_crc),
    }
}

fn malformed() -> (e: RecordError)
    ensures
        e == RecordError::Mcap("malformed record fields"),
{
    RecordError::Mcap("malformed record fields")
}

fn read_u8(c: &mut Cursor) -> (r: Result<u8, RecordError>)
    requires
        cursor_wf(old(c)@),
    ensures
        cursor_wf(final(c)@),
        final(c)@.0 == old(c)@.0,
        r matches Ok(v) ==> old(c)@.1 + 1 <= old(c)@.0.len() && v == old(c)@.0[old(c)@.1] && final(c)@.1 == old(c)@.1 + 1,
        match u8_at(old(c)@.0, old(c)@.1) {
            Ok((v, q)) => r == Ok::<u8, RecordError>(v) && final(c)@.1 == q,
            Err(e) => r == Err::<u8, RecordError>(e),
        },
{
    let b = c.take(1)?;
    Ok(b[0])
}

fn read_u16(c: &mut Cursor) -> (r: Result<u16, RecordError>)
    requires
        cursor_wf(old(c)@),
    ensures
        cursor_wf(final(c)@),
        final(c)@.0 == old(c)@.0,
        r matches Ok(v) ==> old(c)@.1 + 2 <= old(c)@.0.len() && v == le_u16_at(old(c)@.0, old(c)@.1) && final(c)@.1 == old(c)@.1 + 2,
        match u16_at(old(c)@.0, old(c)@.1) {
            Ok((v, q)) => r == Ok::<u16, RecordError>(v) && final(c)@.1 == q,
            Err(e) => r == Err::<u16, RecordError>(e),
        },
{
    let b = c.take(2)?;
    Ok(u16_from_le_bytes(b))
}

fn read_u32(c: &mut Cursor) -> (r: Result<u32, RecordError>)
    requires
        cursor_wf(old(c)@),
    ensures
        cursor_wf(final(c)@),
        final(c)@.0 == old(c)@.0,
        r matches Ok(v) ==> old(c)@.1 + 4 <= old(c)@.0.len() && v == le_u32_at(old(c)@.0, old(c)@.1) && final(c)@.1 == old(c)@.1 + 4,
        match u32_at(old(c)@.0, old(c)@.1) {
            Ok((v, q)) => r == Ok::<u32, RecordError>(v) && final(c)@.1 == q,
            Err(e) => r == Err::<u32, RecordError>(e),
        },
{
    let n = c.u32()?;
    Ok(n as u32)
}

fn read_u64(c: &mut Cursor) -> (r: Result<u64, RecordError>)
    requires
        cursor_wf(old(c)@),
    ensures
        cursor_wf(final(c)@),
        final(c)@.0 == old(c)@.0,
        r matches Ok(v) ==> old(c)@.1 + 8 <= old(c)@.0.len() && v == le_u64_at(old(c)@.0, old(c)@.1) && final(c)@.1 == old(c)@.1 + 8,
        match u64_at(old(c)@.0, old(c)@.1) {
            Ok((v, q)) => r == Ok::<u64, RecordError>(v) && final(c)@.1 == q,
            Err(e) => r == Err::<u64, RecordError>(e),
        },
{
    c.u64()
}

fn read_string(c: &mut Cursor) -> (r: Result<String, RecordError>)
    requires
        cursor_wf(old(c)@),
    ensures
        cursor_wf(final(c)@),
        final(c)@.0 == old(c)@.0,
        r is Ok ==> final(c)@.1 >= old(c)@.1 + 4,
        match string_at(old(c)@.0, old(c)@.1) {
            Ok((v, q)) => (r matches Ok(x) && x@ == v) && final(c)@.1 == q,
            Err(e) => r == Err::<String, RecordError>(e),
        },
{
    let n = c.u32()?;
    let b = c.take(n)?;
    match utf8_string(b) {
        Some(s) => Ok(s),
        None => Err(RecordError::Mcap("invalid UTF-8")),
    }
}

fn read_bytes32<'a>(c: &mut Cursor<'a>) -> (r: Result<&'a [u8], RecordError>)
    requires
        cursor_wf(old(c)@),
    ensures
        cursor_wf(final(c)@),
        final(c)@.0 == old(c)@.0,
        match bytes32_at(old(c)@.0, old(c)@.1) {
            Ok((v, q)) => (r matches Ok(x) && x@ == v) && final(c)@.1 == q,
            Err(e) => r == Err::<&'a [u8], RecordError>(e),
        },
{
    let n = c.u32()?;
    c.take(n)
}

fn read_string_map(c: &mut Cursor) -> (r: Result<StringMap, RecordError>)
    requires
        cursor_wf(old(c)@),
    ensures
        cursor_wf(final(c)@),
        final(c)@.0 == old(c)@.0,
        r matches Ok(m) ==> m.wf(),
        match string_map_at(old(c)@.0, old(c)@.1) {
            Ok((v, q)) => (r matches Ok(m) && entries_map(m.spec_entries()) == v) && final(c)@.1 == q,
            Err(e) => r == Err::<StringMap, RecordError>(e),
        },
{
    let n = c.u32()?;
    let body = c.take(n)?;
    assert(body@ == old(c)@.0.subrange(old(c)@.1 + 4, old(c)@.1 + 4 + n));
    let mut inner = Cursor::new(body);
    let mut m = StringMap::new();
    let ghost mut done: Seq<(Seq<char>, Seq<char>)> = Seq::empty();
    proof {
        lemma_empty_map();
        assert(string_pairs(body@, 0) == followed_by(done, string_pairs(body@, 0)));
    }
    while inner.remaining() > 0
        invariant
            cursor_wf(c@),
            c@.0 == old(c)@.0,
            cursor_wf(inner@),
            inner@.0 == body@,
            m.wf(),
            entries_map(m.spec_entries()) == pairs_map(done),
            string_pairs(body@, 0) == followed_by(done, string_pairs(body@, inner@.1)),
            string_map_at(old(c)@.0, old(c)@.1) == match string_pairs(body@, 0) {
                Ok(ps) => Ok((pairs_map(ps), c@.1)),
                Err(e) => Err::<(Map<Seq<char>, Seq<char>>, int), RecordError>(e),
            },
        decreases body@.len() - inner@.1,
    {
        let ghost p = inner@.1;
        let k = match read_string(&mut inner) {
            Ok(k) => k,
            Err(e) => {
                assert(string_pairs(body@, p) == Err::<Seq<(Seq<char>, Seq<char>)>, RecordError>(e));
                return Err(e);
            },
        };
        let ghost q = inner@.1;
        let v = match read_string(&mut inner) {
            Ok(v) => v,
            Err(e) => {
                assert(string_pairs(body@, p) == Err::<Seq<(Seq<char>, Seq<char>)>, RecordError>(e));
                return Err(e);
            },
        };
        let ghost old_e = m.spec_entries();
        let ghost kv = (k@, v@);
        m.insert(k, v);
        proof {
            assert(entries_map(m.spec_entries()) == entries_map(old_e).insert(kv.0, kv.1));
            let rest = string_pairs(body@, inner@.1);
            match rest {
                Ok(r) => {
                    assert(done + (seq![kv] + r) =~= done.push(kv) + r);
                },
                Err(_) => {},
            }
            assert(done.push(kv).drop_last() =~= done);
            assert(done.push(kv).last() == kv);
            assert(pairs_map(done.push(kv)) == pairs_map(done).insert(kv.0, kv.1));
            done = done.push(kv);
        }
    }
    proof {
        assert(done + Seq::<(Seq<char>, Seq<char>)>::empty() =~= done);
    }
    Ok(m)
}

fn read_count_map(c: &mut Cursor) -> (r: Result<Vec<(u16, u64)>, RecordError>)
    requires
        cursor_wf(old(c)@),
    ensures
        cursor_wf(final(c)@),
        final(c)@.0 == old(c)@.0,
        r matches Ok(v) ==> forall|i: int, j: int| 0 <= i < j < v@.len() ==> v@[i].0 != v@[j].0,
        match count_map_at(old(c)@.0, old(c)@.1) {
            Ok((m, q)) => (r matches Ok(v) && v@ == m) && final(c)@.1 == q,
            Err(e) => r == Err::<Vec<(u16, u64)>, RecordError>(e),
        },
{
    let n = c.u32()?;
    let body = c.take(n)?;
    assert(body@ == old(c)@.0.subrange(old(c)@.1 + 4, old(c)@.1 + 4 + n));
    let mut inner = Cursor::new(body);
    let mut v: Vec<(u16, u64)> = Vec::new();
    let ghost mut done: Seq<(u16, u64)> = Seq::empty();
    proof {
        assert(count_pairs(body@, 0) == followed_by(done, count_pairs(body@, 0)));
        assert(v@ =~= upsert_all(done));
    }
    while inner.remaining() > 0
        invariant
            cursor_wf(c@),
            c@.0 == old(c)@.0,
            cursor_wf(inner@),
            inner@.0 == body@,
            forall|i: int, j: int| 0 <= i < j < v@.len() ==> v@[i].0 != v@[j].0,
            v@ == upsert_all(done),
            count_pairs(body@, 0) == followed_by(done, count_pairs(body@, inner@.1)),
            count_map_at(old(c)@.0, old(c)@.1) == match count_pairs(body@, 0) {
                Ok(ps) => Ok((upsert_all(ps), c@.1)),
                Err(e) => Err::<(Seq<(u16, u64)>, int), RecordError>(e),
            },
        decreases body@.len() - inner@.1,
    {
        let ghost p = inner@.1;
        let id = match read_u16(&mut inner) {
            Ok(id) => id,
            Err(e) => {
                assert(count_pairs(body@, p) == Err::<Seq<(u16, u64)>, RecordError>(past_end()));
                return Err(e);
            },
        };
        let count = match read_u64(&mut inner) {
            Ok(x) => x,
            Err(e) => {
                assert(count_pairs(body@, p) == Err::<Seq<(u16, u64)>, RecordError>(past_end()));
                return Err(e);
            },
        };
        let ghost before = v@;
        let mut i: usize = 0;
        while i < v.len() && v[i].0 != id
            invariant
                i <= v@.len(),
                forall|k: int| 0 <= k < i ==> v@[k].0 != id,
            decreases v@.len() - i,
        {
            i = i + 1;
        }
        if i < v.len() {
            v.set(i, (id, count));
            proof {
                assert(has_channel(before, id));
                let c = choose|j: int| 0 <= j < before.len() && #[trigger] before[j].0 == id;
                assert(c == i);
            }
        } else {
            v.push((id, count));
            proof {
                assert(!has_channel(before, id));
            }
        }
        proof {
            let x = (id, count);
            assert(x == (le_u16_at(body@, p), le_u64_at(body@, p + 2)));
            match count_pairs(body@, p + 10) {
                Ok(r) => {
                    assert(done + (seq![x] + r) =~= done.push(x) + r);
                },
                Err(_) => {},
            }
            assert(done.push(x).drop_last() =~= done);
            done = done.push(x);
        }
    }
    proof {
        assert(done + Seq::<(u16, u64)>::empty() =~= done);
    }
    Ok(v)
}

/// Parse a record body into typed fields. Unsupported opcodes reject.
pub fn parse_record<'a>(op: u8, data: &'a [u8]) -> (r: Result<McapRecord<'a>, RecordError>)
    ensures
        r matches Ok(McapRecord::Footer { summary_start, summary_offset_start, summary_crc }) ==> op == 0x02
            && data@.len() >= 20 && summary_start == le_u64_at(data@, 0) && summary_offset_start == le_u64_at(data@, 8)
            && summary_crc == le_u32_at(data@, 16),
        r matches Ok(McapRecord::Message { channel_id, sequence, log_time, publish_time, data: payload }) ==> op == 0x05
            && data@.len() >= 22 && channel_id == le_u16_at(data@, 0) && sequence == le_u32_at(data@, 2)
            && log_time == le_u64_at(data@, 6) && publish_time == le_u64_at(data@, 14)
            && payload@ == data@.subrange(22, data@.len() as int),
        r matches Ok(McapRecord::DataEnd { data_section_crc }) ==> op == 0x0f && data@.len() >= 4
            && data_section_crc == le_u32_at(data@, 0),
        r matches Ok(McapRecord::SummaryOffset { group_opcode, group_start, group_length }) ==> op == 0x0e
            && data@.len() >= 17 && group_opcode == data@[0] && group_start == le_u64_at(data@, 1)
            && group_length == le_u64_at(data@, 9),
        r matches Ok(McapRecord::Chunk { message_start_time, message_end_time, uncompressed_size, uncompressed_crc, .. })
            ==> op == 0x06 && data@.len() >= 28 && message_start_time == le_u64_at(data@, 0)
            && message_end_time == le_u64_at(data@, 8) && uncompressed_size == le_u64_at(data@, 16)
            && uncompressed_crc == le_u32_at(data@, 24),
        r matches Ok(McapRecord::Header(_)) ==> op == 0x01,
        r matches Ok(McapRecord::Schema(_)) ==> op == 0x03,
        r matches Ok(McapRecord::Channel(ch)) ==> op == 0x04 && ch.metadata.wf(),
        r matches Ok(McapRecord::Metadata(m)) ==> op == 0x0c && m.entries.wf(),
        r matches Ok(McapRecord::Statistics { .. }) ==> op == 0x0b,
        r matches Ok(McapRecord::MessageIndex) ==> op == 0x07,
        r matches Ok(McapRecord::ChunkIndex) ==> op == 0x08,
        r matches Ok(McapRecord::MetadataIndex) ==> op == 0x0d,
        match record_spec(op, data@) {
            Ok(v) => (r matches Ok(rec) && record_view(rec) == v),
            Err(e) => r matches Err(x) && x == e,
        },
{
    let mut c = Cursor::new(data);
    if op == 0x01 {
        let profile = read_string(&mut c)?;
        let library = read_string(&mut c)?;
        Ok(McapRecord::Header(McapHeader { profile, library }))
    } else if op == 0x02 {
        let summary_start = read_u64(&mut c)?;
        let summary_offset_start = read_u64(&mut c)?;
        let summary_crc = read_u32(&mut c)?;
        Ok(McapRecord::Footer { summary_start, summary_offset_start, summary_crc })
    } else if op == 0x03 {
        let id = read_u16(&mut c)?;
        let name = read_string(&mut c)?;
        let encoding = read_string(&mut c)?;
        let bytes = read_bytes32(&mut c)?;
        Ok(McapRecord::Schema(McapSchema { id, name, encoding, data: copy_bytes(bytes) }))
    } else if op == 0x04 {
        let id = read_u16(&mut c)?;
        let schema_id = read_u16(&mut c)?;
        let topic = read_string(&mut c)?;
        let message_encoding = read_string(&mut c)?;
        let metadata = read_string_map(&mut c)?;
        Ok(McapRecord::Channel(McapChannel { id, schema_id, topic, message_encoding, metadata }))
    } else if op == 0x05 {
        let channel_id = read_u16(&mut c)?;
        let sequence = read_u32(&mut c)?;
        let log_time = read_u64(&mut c)?;
        let publish_time = read_u64(&mut c)?;
        let rest = c.remaining();
        let payload = c.take(rest)?;
        Ok(McapRecord::Message { channel_id, sequence, log_time, publish_time, data: payload })
    } else if op == 0x06 {
        let message_start_time = read_u64(&mut c)?;
        let message_end_time = read_u64(&mut c)?;
        let uncompressed_size = read_u64(&mut c)?;
        let uncompressed_crc = read_u32(&mut c)?;
        let compression = read_string(&mut c)?;
        let n = read_u64(&mut c)?;
        if n > c.remaining() as u64 {
            return Err(malformed());
        }
        let records = c.take(n as usize)?;
        Ok(McapRecord::Chunk { message_start_time, message_end_time, uncompressed_size, uncompressed_crc, compression, data: records })
    } else if op == 0x07 {
        Ok(McapRecord::MessageIndex)
    } else if op == 0x08 {
        Ok(McapRecord::ChunkIndex)
    } else if op == 0x0b {
        let message_count = read_u64(&mut c)?;
        let schema_count = read_u16(&mut c)?;
        let channel_count = read_u32(&mut c)?;
        let attachment_count = read_u32(&mut c)?;
        let metadata_count = read_u32(&mut c)?;
        let chunk_count = read_u32(&mut c)?;
        let message_start_time = read_u64(&mut c)?;
        let message_end_time = read_u64(&mut c)?;
        let channel_message_counts = read_count_map(&mut c)?;
        Ok(McapRecord::Statistics {
            message_count,
            schema_count,
            channel_count,
            attachment_count,
            metadata_count,
            chunk_count,
            message_start_time,
            message_end_time,
            channel_message_counts,
        })
    } else if op == 0x0c {
        let name = read_string(&mut c)?;
        let entries = read_string_map(&mut c)?;
        Ok(McapRecord::Metadata(McapMetadata { name, entries }))
    } else if op == 0x0d {
        Ok(McapRecord::MetadataIndex)
    } else if op == 0x0e {
        let group_opcode = read_u8(&mut c)?;
        let group_start = read_u64(&mut c)?;
        let group_length = read_u64(&mut c)?;
        Ok(McapRecord::SummaryOffset { group_opcode, group_start, group_length })
    } else if op == 0x0f {
        let data_section_crc = read_u32(&mut c)?;
        Ok(McapRecord::DataEnd { data_section_crc })
    } else {
        Err(RecordError::UnsupportedMcapRecord(op))
    }
}

} // verus!
