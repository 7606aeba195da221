//! The MCAP recording container of the historical Neuradix profile.
//!
//! ```text
//! magic (8) | Header | Metadata(manifest) | {Schema,Channel}* | Message* | DataEnd
//!           | Schema* Channel* Statistics (summary) | Footer | magic (8)
//! ```
//!
//! Message payloads are opaque bytes (message encoding `neuradix`); each
//! channel records its clock domain and the payload's schema identity in its
//! metadata, and the manifest travels as JSON in one metadata record. CRC
//! fields are written as 0, "not computed". Summary records are grouped by
//! opcode, as readers that index the summary expect. The writer buffers records and
//! emits the whole file at the end, when the statistics are known; the JSON
//! text of the manifest is the caller's part.
use crate::record::error::RecordError;
use crate::record::mcap_import::state::{after, magic_seq, outer_records};
use crate::record::model::{domain_name, domain_named, Channel, ClockDomain, RecordingManifest, Timestamp};
use crate::text::{append_bytes, append_decimal, append_str, decimal, utf8_bytes};
use std::collections::{BTreeMap, BTreeSet};
use vstd::bytes::{
    spec_u16_to_le_bytes, spec_u32_to_le_bytes, spec_u64_from_le_bytes, spec_u64_to_le_bytes, u16_to_le_bytes,
    u32_to_le_bytes, u64_to_le_bytes,
};
use vstd::prelude::*;

verus! {

broadcast use vstd::laws_cmp::group_laws_cmp, vstd::std_specs::btree::group_btree_axioms;

/// The profile this container declares.
pub open spec fn profile() -> Seq<u8> {
    utf8_bytes("neuradix"@)
}

/// The library this container declares.
pub open spec fn library() -> Seq<u8> {
    utf8_bytes("neuradix-record/0.0.1"@)
}

/// A `u32`-length-prefixed byte string.
pub open spec fn prefixed(b: Seq<u8>) -> Seq<u8> {
    spec_u32_to_le_bytes(b.len() as u32) + b
}

/// A record: opcode, `u64` content length, content.
pub open spec fn framed(op: u8, content: Seq<u8>) -> Seq<u8> {
    seq![op] + spec_u64_to_le_bytes(content.len() as u64) + content
}

/// A string map: its `u32` byte length, then each key and value prefixed.
pub open spec fn map_bytes(pairs: Seq<(Seq<u8>, Seq<u8>)>) -> Seq<u8> {
    prefixed(map_entries(pairs))
}

/// The key and value strings of a map, in order.
pub open spec fn map_entries(pairs: Seq<(Seq<u8>, Seq<u8>)>) -> Seq<u8>
    decreases pairs.len(),
{
    if pairs.len() == 0 {
        Seq::empty()
    } else {
        map_entries(pairs.drop_last()) + prefixed(pairs.last().0) + prefixed(pairs.last().1)
    }
}

/// A buffered message.
pub struct MessageView {
    /// The channel.
    pub channel_id: u16,
    /// The sequence number.
    pub sequence: u32,
    /// Log (and publish) time in nanoseconds.
    pub log_time: u64,
    /// The payload.
    pub payload: Seq<u8>,
}

/// A channel as the container writes it.
pub struct ResolvedView {
    /// The channel id.
    pub channel_id: u16,
    /// Its schema id, from 1 on.
    pub schema_id: u16,
    /// Its name.
    pub name: Seq<u8>,
    /// Its payload's schema identity, possibly empty.
    pub identity: Seq<u8>,
    /// Its clock domain.
    pub domain: ClockDomain,
}

/// What a writer holds: the manifest's channels, the domain of each channel
/// that carried records (its first record's), those channels in order of
/// first record, and the buffered messages.
pub struct McapWriterView {
    /// The manifest's channels.
    pub channels: Seq<Channel>,
    /// Domain by record-bearing channel.
    pub domains: Map<u16, ClockDomain>,
    /// Record-bearing channels, in order of first record.
    pub order: Seq<u16>,
    /// Buffered messages, in recorded order.
    pub messages: Seq<MessageView>,
}

/// A manifest channel's domain, monotonic where its spelling names none.
pub open spec fn declared_domain(c: Channel) -> ClockDomain {
    match domain_named(c.clock_domain@) {
        Some(d) => d,
        None => ClockDomain::Monotonic,
    }
}

/// Channel candidates: record-bearing channels first, then manifest channels.
pub open spec fn candidates(v: McapWriterView) -> Seq<(u16, ClockDomain)> {
    v.order.map_values(|id: u16| (id, v.domains[id])) + v.channels.map_values(
        |c: Channel| (c.id, declared_domain(c)),
    )
}

/// Whether a candidate list holds a channel id.
pub open spec fn has_id(s: Seq<(u16, ClockDomain)>, id: u16) -> bool {
    exists|i: int| 0 <= i < s.len() && #[trigger] s[i].0 == id
}

/// The first candidate of each channel id, in order.
pub open spec fn first_occurrences(s: Seq<(u16, ClockDomain)>) -> Seq<(u16, ClockDomain)>
    decreases s.len(),
{
    if s.len() == 0 {
        Seq::empty()
    } else {
        let d = first_occurrences(s.drop_last());
        if has_id(d, s.last().0) {
            d
        } else {
            d.push(s.last())
        }
    }
}

/// The last manifest channel with an id (a later definition wins).
pub open spec fn last_channel(cs: Seq<Channel>, id: u16) -> Option<Channel>
    decreases cs.len(),
{
    if cs.len() == 0 {
        None
    } else if cs.last().id == id {
        Some(cs.last())
    } else {
        last_channel(cs.drop_last(), id)
    }
}

/// The channel written at position `i`.
pub open spec fn resolved_at(cs: Seq<Channel>, cand: (u16, ClockDomain), i: int) -> ResolvedView {
    let (name, identity) = match last_channel(cs, cand.0) {
        Some(c) => (utf8_bytes(c.name@), utf8_bytes(c.schema_id@)),
        None => (utf8_bytes("channel-"@) + decimal(cand.0 as nat), Seq::empty()),
    };
    ResolvedView { channel_id: cand.0, schema_id: (i + 1) as u16, name, identity, domain: cand.1 }
}

/// The distinct channels to write.
pub open spec fn distinct_channels(v: McapWriterView) -> Seq<(u16, ClockDomain)> {
    first_occurrences(candidates(v))
}

/// The channels to write, each with its schema id.
pub open spec fn resolved(v: McapWriterView) -> Seq<ResolvedView> {
    let d = distinct_channels(v);
    Seq::new(d.len(), |i: int| resolved_at(v.channels, d[i], i))
}

/// The Schema record of a channel: its schema id and name, the schema
/// encoding, and the schema identity as the schema's data.
pub open spec fn schema_record(r: ResolvedView) -> Seq<u8> {
    framed(
        0x03,
        spec_u16_to_le_bytes(r.schema_id) + prefixed(r.name) + prefixed(utf8_bytes("neuradix/schema-id"@))
            + prefixed(r.identity),
    )
}

/// The metadata of a channel: its clock domain and schema identity.
pub open spec fn channel_metadata(r: ResolvedView) -> Seq<(Seq<u8>, Seq<u8>)> {
    seq![
        (utf8_bytes("clockDomain"@), utf8_bytes(domain_name(r.domain))),
        (utf8_bytes("schemaIdentity"@), r.identity),
    ]
}

/// The Channel record of a channel.
pub open spec fn channel_record(r: ResolvedView) -> Seq<u8> {
    framed(
        0x04,
        spec_u16_to_le_bytes(r.channel_id) + spec_u16_to_le_bytes(r.schema_id) + prefixed(r.name)
            + prefixed(utf8_bytes("neuradix"@)) + map_bytes(channel_metadata(r)),
    )
}

/// The Schema and Channel records of a channel.
pub open spec fn definition_bytes(r: ResolvedView) -> Seq<u8> {
    schema_record(r) + channel_record(r)
}

/// The Schema records of several channels, in order.
pub open spec fn schema_records(rs: Seq<ResolvedView>) -> Seq<u8>
    decreases rs.len(),
{
    if rs.len() == 0 {
        Seq::empty()
    } else {
        schema_records(rs.drop_last()) + schema_record(rs.last())
    }
}

/// The Channel records of several channels, in order.
pub open spec fn channel_records(rs: Seq<ResolvedView>) -> Seq<u8>
    decreases rs.len(),
{
    if rs.len() == 0 {
        Seq::empty()
    } else {
        channel_records(rs.drop_last()) + channel_record(rs.last())
    }
}

/// The definitions of several channels, in order.
pub open spec fn definitions(rs: Seq<ResolvedView>) -> Seq<u8>
    decreases rs.len(),
{
    if rs.len() == 0 {
        Seq::empty()
    } else {
        definitions(rs.drop_last()) + definition_bytes(rs.last())
    }
}

/// The Message record of a buffered message (publish time = log time).
pub open spec fn message_bytes(m: MessageView) -> Seq<u8> {
    framed(
        0x05,
        spec_u16_to_le_bytes(m.channel_id) + spec_u32_to_le_bytes(m.sequence) + spec_u64_to_le_bytes(
            m.log_time,
        ) + spec_u64_to_le_bytes(m.log_time) + m.payload,
    )
}

/// The Message records, in recorded order.
pub open spec fn messages_bytes(ms: Seq<MessageView>) -> Seq<u8>
    decreases ms.len(),
{
    if ms.len() == 0 {
        Seq::empty()
    } else {
        messages_bytes(ms.drop_last()) + message_bytes(ms.last())
    }
}

/// The number of messages on a channel.
pub open spec fn messages_on(ms: Seq<MessageView>, id: u16) -> nat
    decreases ms.len(),
{
    if ms.len() == 0 {
        0
    } else {
        messages_on(ms.drop_last(), id) + if ms.last().channel_id == id {
            1nat
        } else {
            0nat
        }
    }
}

/// The earliest log time, `u64::MAX` for none.
pub open spec fn earliest(ms: Seq<MessageView>) -> u64
    decreases ms.len(),
{
    if ms.len() == 0 {
        u64::MAX
    } else {
        let e = earliest(ms.drop_last());
        if ms.last().log_time < e {
            ms.last().log_time
        } else {
            e
        }
    }
}

/// The latest log time, 0 for none.
pub open spec fn latest(ms: Seq<MessageView>) -> u64
    decreases ms.len(),
{
    if ms.len() == 0 {
        0
    } else {
        let l = latest(ms.drop_last());
        if ms.last().log_time > l {
            ms.last().log_time
        } else {
            l
        }
    }
}

/// The statistics time range spans every message: the start is the smallest
/// log time and the end the largest, each the log time of some message.
pub proof fn law_statistics_time_range(ms: Seq<MessageView>)
    ensures
        forall|i: int| 0 <= i < ms.len() ==> earliest(ms) <= #[trigger] ms[i].log_time && ms[i].log_time <= latest(ms),
        ms.len() > 0 ==> exists|i: int| 0 <= i < ms.len() && #[trigger] ms[i].log_time == earliest(ms),
        ms.len() > 0 ==> exists|i: int| 0 <= i < ms.len() && #[trigger] ms[i].log_time == latest(ms),
    decreases ms.len(),
{
    if ms.len() > 0 {
        let front = ms.drop_last();
        law_statistics_time_range(front);
        assert forall|i: int| 0 <= i < ms.len() implies earliest(ms) <= #[trigger] ms[i].log_time && ms[i].log_time
            <= latest(ms) by {
            if i < front.len() {
                assert(ms[i] == front[i]);
            }
        }
        if front.len() == 0 {
            assert(ms[0].log_time == earliest(ms));
            assert(ms[0].log_time == latest(ms));
        } else {
            if ms.last().log_time < earliest(front) {
                assert(ms[ms.len() - 1].log_time == earliest(ms));
            } else {
                let k = choose|k: int| 0 <= k < front.len() && #[trigger] front[k].log_time == earliest(front);
                assert(ms[k] == front[k]);
            }
            if ms.last().log_time > latest(front) {
                assert(ms[ms.len() - 1].log_time == latest(ms));
            } else {
                let k = choose|k: int| 0 <= k < front.len() && #[trigger] front[k].log_time == latest(front);
                assert(ms[k] == front[k]);
            }
        }
    }
}

/// The statistics count of a channel is the number of messages written on it.
pub proof fn law_channel_message_count(ms: Seq<MessageView>, id: u16)
    ensures
        messages_on(ms, id) == ms.filter(|m: MessageView| m.channel_id == id).len(),
    decreases ms.len(),
{
    reveal(Seq::filter);
    if ms.len() > 0 {
        law_channel_message_count(ms.drop_last(), id);
    }
}

/// The per-channel message counts of the statistics.
pub open spec fn channel_counts(rs: Seq<ResolvedView>, ms: Seq<MessageView>) -> Seq<u8>
    decreases rs.len(),
{
    if rs.len() == 0 {
        Seq::empty()
    } else {
        channel_counts(rs.drop_last(), ms) + spec_u16_to_le_bytes(rs.last().channel_id)
            + spec_u64_to_le_bytes(messages_on(ms, rs.last().channel_id) as u64)
    }
}

/// The Statistics record: counts of messages, schemas, channels, attachments
/// (none), metadata (the manifest) and chunks (none), the time range, and the
/// message count of each channel.
pub open spec fn statistics_bytes(rs: Seq<ResolvedView>, ms: Seq<MessageView>) -> Seq<u8> {
    let start = if ms.len() == 0 { 0u64 } else { earliest(ms) };
    framed(
        0x0b,
        spec_u64_to_le_bytes(ms.len() as u64) + spec_u16_to_le_bytes(rs.len() as u16) + spec_u32_to_le_bytes(
            rs.len() as u32,
        ) + spec_u32_to_le_bytes(0) + spec_u32_to_le_bytes(1) + spec_u32_to_le_bytes(0) + spec_u64_to_le_bytes(
            start,
        ) + spec_u64_to_le_bytes(latest(ms)) + spec_u32_to_le_bytes((10 * rs.len()) as u32) + channel_counts(
            rs,
            ms,
        ),
    )
}

/// The Header and manifest Metadata records.
pub open spec fn opening_bytes(json: Seq<u8>) -> Seq<u8> {
    framed(0x01, prefixed(profile()) + prefixed(library())) + framed(
        0x0c,
        prefixed(utf8_bytes("neuradix.manifest"@)) + map_bytes(seq![(utf8_bytes("json"@), json)]),
    )
}

/// Everything before the summary section.
pub open spec fn data_section(v: McapWriterView, json: Seq<u8>) -> Seq<u8> {
    magic_seq() + opening_bytes(json) + definitions(resolved(v)) + messages_bytes(v.messages) + framed(
        0x0f,
        spec_u32_to_le_bytes(0),
    )
}

/// The complete file for a writer's state and manifest JSON.
pub open spec fn mcap_image(v: McapWriterView, json: Seq<u8>) -> Seq<u8> {
    let data = data_section(v, json);
    data + schema_records(resolved(v)) + channel_records(resolved(v)) + statistics_bytes(resolved(v), v.messages)
        + framed(
        0x02,
        spec_u64_to_le_bytes(data.len() as u64) + spec_u64_to_le_bytes(0) + spec_u32_to_le_bytes(0),
    ) + magic_seq()
}

/// Whether every length-prefixed field of the file fits its `u32` length.
pub open spec fn fields_fit(v: McapWriterView, json: Seq<u8>) -> bool {
    &&& map_entries(seq![(utf8_bytes("json"@), json)]).len() <= u32::MAX
    &&& forall|i: int| 0 <= i < resolved(v).len() ==> #[trigger] definition_fits(resolved(v)[i])
}

/// Whether a channel's length-prefixed fields fit.
pub open spec fn definition_fits(r: ResolvedView) -> bool {
    &&& r.name.len() <= u32::MAX
    &&& map_entries(channel_metadata(r)).len() <= u32::MAX
}

/// Whether a channel's Schema record fits.
pub open spec fn schema_fits(r: ResolvedView) -> bool {
    r.name.len() <= u32::MAX && r.identity.len() <= u32::MAX
}

fn put_u16(out: &mut Vec<u8>, v: u16)
    ensures
        final(out)@ == old(out)@ + spec_u16_to_le_bytes(v),
{
    let b = u16_to_le_bytes(v);
    append_bytes(out, b.as_slice());
}

fn put_u32(out: &mut Vec<u8>, v: u32)
    ensures
        final(out)@ == old(out)@ + spec_u32_to_le_bytes(v),
{
    let b = u32_to_le_bytes(v);
    append_bytes(out, b.as_slice());
}

fn put_u64(out: &mut Vec<u8>, v: u64)
    ensures
        final(out)@ == old(out)@ + spec_u64_to_le_bytes(v),
{
    let b = u64_to_le_bytes(v);
    append_bytes(out, b.as_slice());
}

/// Append a `u32`-length-prefixed byte string.
fn put_bytes(out: &mut Vec<u8>, b: &[u8]) -> (r: Result<(), RecordError>)
    ensures
        b@.len() <= u32::MAX ==> r is Ok && final(out)@ == old(out)@ + prefixed(b@),
        b@.len() > u32::MAX ==> (r matches Err(RecordError::PayloadTooLarge(n)) && n == b@.len()),
{
    if b.len() > 0xffff_ffff {
        return Err(RecordError::PayloadTooLarge(b.len()));
    }
    put_u32(out, b.len() as u32);
    append_bytes(out, b);
    Ok(())
}

/// Append a record.
fn frame(out: &mut Vec<u8>, op: u8, content: &[u8])
    ensures
        final(out)@ == old(out)@ + framed(op, content@),
{
    out.push(op);
    put_u64(out, content.len() as u64);
    append_bytes(out, content);
    assert(out@ =~= old(out)@ + framed(op, content@));
}

/// The views of byte-string pairs.
pub open spec fn pair_views(pairs: Seq<(Vec<u8>, Vec<u8>)>) -> Seq<(Seq<u8>, Seq<u8>)> {
    pairs.map_values(|p: (Vec<u8>, Vec<u8>)| (p.0@, p.1@))
}

proof fn lemma_entries_prefix(pairs: Seq<(Seq<u8>, Seq<u8>)>, i: int)
    requires
        0 <= i <= pairs.len(),
    ensures
        map_entries(pairs.take(i)).len() <= map_entries(pairs).len(),
    decreases pairs.len(),
{
    if i < pairs.len() {
        assert(pairs.drop_last().take(i) =~= pairs.take(i));
        lemma_entries_prefix(pairs.drop_last(), i);
    } else {
        assert(pairs.take(i) =~= pairs);
    }
}

/// Append a string map.
fn put_map(out: &mut Vec<u8>, pairs: &Vec<(Vec<u8>, Vec<u8>)>) -> (r: Result<(), RecordError>)
    ensures
        map_entries(pair_views(pairs@)).len() <= u32::MAX ==> r is Ok && final(out)@ == old(out)@ + map_bytes(
            pair_views(pairs@),
        ),
        map_entries(pair_views(pairs@)).len() > u32::MAX ==> (r matches Err(RecordError::PayloadTooLarge(n))
            && n > u32::MAX),
{
    let ghost all = pair_views(pairs@);
    let mut inner: Vec<u8> = Vec::new();
    let mut i: usize = 0;
    while i < pairs.len()
        invariant
            i <= pairs@.len(),
            all == pair_views(pairs@),
            inner@ == map_entries(all.take(i as int)),
        decreases pairs@.len() - i,
    {
        proof {
            assert(all.take(i + 1).drop_last() =~= all.take(i as int));
            assert(all.take(i + 1).last() == all[i as int]);
            assert(all[i as int] == (pairs@[i as int].0@, pairs@[i as int].1@));
            lemma_entries_prefix(all, i + 1);
        }
        let k = put_bytes(&mut inner, pairs[i].0.as_slice());
        if k.is_err() {
            return k;
        }
        let v = put_bytes(&mut inner, pairs[i].1.as_slice());
        if v.is_err() {
            return v;
        }
        i = i + 1;
    }
    assert(all.take(i as int) =~= all);
    if inner.len() > 0xffff_ffff {
        return Err(RecordError::PayloadTooLarge(inner.len()));
    }
    put_u32(out, inner.len() as u32);
    append_bytes(out, inner.as_slice());
    Ok(())
}

/// One buffered record.
#[derive(Debug)]
struct BufferedRecord {
    channel_id: u16,
    sequence: u32,
    log_time: u64,
    payload: Vec<u8>,
}

impl View for BufferedRecord {
    type V = MessageView;

    closed spec fn view(&self) -> MessageView {
        MessageView {
            channel_id: self.channel_id,
            sequence: self.sequence,
            log_time: self.log_time,
            payload: self.payload@,
        }
    }
}

/// The views of buffered records.
spec fn message_views(rs: Seq<BufferedRecord>) -> Seq<MessageView> {
    rs.map_values(|r: BufferedRecord| r@)
}

/// Streaming writer for the MCAP container. Records are buffered; the whole
/// file is emitted by [`McapWriter::finish`], when its statistics are known.
#[derive(Debug)]
pub struct McapWriter {
    channels: Vec<Channel>,
    channel_domains: BTreeMap<u16, ClockDomain>,
    channel_order: Vec<u16>,
    records: Vec<BufferedRecord>,
}

impl View for McapWriter {
    type V = McapWriterView;

    closed spec fn view(&self) -> McapWriterView {
        McapWriterView {
            channels: self.channels@,
            domains: self.channel_domains@,
            order: self.channel_order@,
            messages: message_views(self.records@),
        }
    }
}

/// Whether record-bearing channels are listed once each, with their domains.
pub open spec fn writer_wf(v: McapWriterView) -> bool {
    &&& forall|i: int, j: int| 0 <= i < j < v.order.len() ==> v.order[i] != v.order[j]
    &&& forall|id: u16| #[trigger] v.domains.contains_key(id) <==> v.order.contains(id)
}

proof fn lemma_wf_keeps(a: McapWriterView, b: McapWriterView)
    requires
        writer_wf(a),
        a.domains == b.domains,
        a.order == b.order,
    ensures
        writer_wf(b),
{
}

/// A copy of a channel.
fn copy_channel(c: &Channel) -> (r: Channel)
    ensures
        r == *c,
{
    Channel {
        id: c.id,
        name: c.name.clone(),
        schema_id: c.schema_id.clone(),
        clock_domain: c.clock_domain.clone(),
    }
}

impl McapWriter {
    /// Begin an MCAP recording of a manifest's channels.
    pub fn new(manifest: &RecordingManifest) -> (r: Result<McapWriter, RecordError>)
        ensures
            r matches Ok(w) && w@.channels == manifest.channels@ && w@.domains == Map::<u16, ClockDomain>::empty()
                && w@.order.len() == 0 && w@.messages.len() == 0 && writer_wf(w@),
    {
        let mut channels: Vec<Channel> = Vec::new();
        let mut i: usize = 0;
        while i < manifest.channels.len()
            invariant
                i <= manifest.channels@.len(),
                channels@ == manifest.channels@.take(i as int),
            decreases manifest.channels@.len() - i,
        {
            channels.push(copy_channel(&manifest.channels[i]));
            i = i + 1;
            assert(channels@ =~= manifest.channels@.take(i as int));
        }
        assert(manifest.channels@.take(i as int) =~= manifest.channels@);
        let w = McapWriter {
            channels,
            channel_domains: BTreeMap::new(),
            channel_order: Vec::new(),
            records: Vec::new(),
        };
        assert(w@.messages =~= Seq::<MessageView>::empty());
        Ok(w)
    }

    /// Buffer one record. The sequence must fit `u32` and the timestamp be a
    /// nonnegative `u64` of nanoseconds; a channel's first record fixes its
    /// clock domain.
    pub fn write_record(&mut self, channel_id: u16, sequence: u64, timestamp: Timestamp, payload: &[u8]) -> (r:
        Result<(), RecordError>)
        requires
            writer_wf(old(self)@),
        ensures
            writer_wf(final(self)@),
            sequence > u32::MAX ==> r == Err::<(), RecordError>(RecordError::SequenceTooLarge(sequence))
                && final(self)@ == old(self)@,
            sequence <= u32::MAX && !(0 <= timestamp.spec_nanos() <= u64::MAX) ==> r == Err::<(), RecordError>(
                RecordError::TimestampOutOfRange(timestamp.spec_nanos()),
            ) && final(self)@ == old(self)@,
            sequence <= u32::MAX && 0 <= timestamp.spec_nanos() <= u64::MAX ==> {
                &&& r is Ok
                &&& final(self)@.channels == old(self)@.channels
                &&& final(self)@.messages == old(self)@.messages.push(
                    MessageView {
                        channel_id,
                        sequence: sequence as u32,
                        log_time: timestamp.spec_nanos() as u64,
                        payload: payload@,
                    },
                )
                &&& if old(self)@.domains.contains_key(channel_id) {
                    final(self)@.domains == old(self)@.domains && final(self)@.order == old(self)@.order
                } else {
                    final(self)@.domains == old(self)@.domains.insert(channel_id, timestamp.spec_domain())
                        && final(self)@.order == old(self)@.order.push(channel_id)
                }
            },
    {
        if sequence > 0xffff_ffff {
            return Err(RecordError::SequenceTooLarge(sequence));
        }
        let nanos = timestamp.as_nanos();
        if nanos < 0 || nanos > 0xffff_ffff_ffff_ffff {
            return Err(RecordError::TimestampOutOfRange(nanos));
        }
        let log_time = nanos as u64;
        let ghost before = self.records@;
        if !self.channel_domains.contains_key(&channel_id) {
            self.channel_domains.insert(channel_id, timestamp.domain());
            self.channel_order.push(channel_id);
            proof {
                assert(self.channel_domains@ == old(self).channel_domains@.insert(channel_id, timestamp.spec_domain()));
                assert(self.channel_order@ == old(self).channel_order@.push(channel_id));
                assert(!old(self).channel_domains@.contains_key(channel_id));
                assert(!old(self)@.domains.contains_key(channel_id));
                assert(!old(self).channel_order@.contains(channel_id));
                assert forall|id: u16| #[trigger] self.channel_domains@.contains_key(id) <==> self.channel_order@.contains(id) by {
                    if id == channel_id {
                        assert(self.channel_order@[self.channel_order@.len() - 1] == id);
                    } else if old(self).channel_order@.contains(id) {
                        let k = choose|k: int| 0 <= k < old(self).channel_order@.len() && old(self).channel_order@[k] == id;
                        assert(self.channel_order@[k] == id);
                    } else if self.channel_order@.contains(id) {
                        let k = choose|k: int| 0 <= k < self.channel_order@.len() && self.channel_order@[k] == id;
                        assert(k < old(self).channel_order@.len());
                        assert(old(self).channel_order@[k] == id);
                    }
                }
                assert forall|i: int, j: int| 0 <= i < j < self.channel_order@.len() implies self.channel_order@[i]
                    != self.channel_order@[j] by {
                    if j == self.channel_order@.len() - 1 {
                        assert(old(self).channel_order@.contains(self.channel_order@[i]));
                    }
                }
                assert(writer_wf(self@));
            }
        }
        assert(writer_wf(self@));
        let ghost v0 = self@;
        let p = crate::text::copy_bytes(payload);
        self.records.push(BufferedRecord { channel_id, sequence: sequence as u32, log_time, payload: p });
        proof {
            assert(message_views(self.records@) =~= message_views(before).push(self.records@.last()@));
            lemma_wf_keeps(v0, self@);
        }
        Ok(())
    }
}

/// A channel ready to be written.
struct ResolvedChannel {
    channel_id: u16,
    schema_id: u16,
    name: Vec<u8>,
    identity: Vec<u8>,
    domain: ClockDomain,
}

impl View for ResolvedChannel {
    type V = ResolvedView;

    closed spec fn view(&self) -> ResolvedView {
        ResolvedView {
            channel_id: self.channel_id,
            schema_id: self.schema_id,
            name: self.name@,
            identity: self.identity@,
            domain: self.domain,
        }
    }
}

/// The views of resolved channels.
spec fn resolved_views(rs: Seq<ResolvedChannel>) -> Seq<ResolvedView> {
    rs.map_values(|r: ResolvedChannel| r@)
}

/// The channels written for the first occurrences of some candidates.
spec fn resolved_of(cs: Seq<Channel>, d: Seq<(u16, ClockDomain)>) -> Seq<ResolvedView> {
    Seq::new(d.len(), |i: int| resolved_at(cs, d[i], i))
}

proof fn lemma_first_occurrences_push(s: Seq<(u16, ClockDomain)>, x: (u16, ClockDomain))
    ensures
        first_occurrences(s.push(x)) == if has_id(first_occurrences(s), x.0) {
            first_occurrences(s)
        } else {
            first_occurrences(s).push(x)
        },
{
    assert(s.push(x).drop_last() =~= s);
}

proof fn lemma_first_occurrences_grow(s: Seq<(u16, ClockDomain)>, t: Seq<(u16, ClockDomain)>)
    ensures
        first_occurrences(s).len() <= first_occurrences(s + t).len(),
    decreases t.len(),
{
    if t.len() == 0 {
        assert(s + t =~= s);
    } else {
        lemma_first_occurrences_grow(s, t.drop_last());
        assert(s + t =~= (s + t.drop_last()).push(t.last()));
        lemma_first_occurrences_push(s + t.drop_last(), t.last());
    }
}

/// Whether an index maps each channel id to its last manifest channel.
spec fn by_id_ok(by_id: Map<u16, usize>, cs: Seq<Channel>) -> bool {
    forall|id: u16|
        #![trigger by_id.contains_key(id)]
        (by_id.contains_key(id) <==> last_channel(cs, id) is Some) && (by_id.contains_key(id) ==> by_id[id]
            < cs.len() && last_channel(cs, id) == Some(cs[by_id[id] as int]))
}

impl McapWriter {
    /// Index the manifest channels by id; a later definition wins.
    fn channel_index(&self) -> (by_id: BTreeMap<u16, usize>)
        ensures
            by_id_ok(by_id@, self.channels@),
    {
        let mut by_id: BTreeMap<u16, usize> = BTreeMap::new();
        let mut i: usize = 0;
        while i < self.channels.len()
            invariant
                i <= self.channels@.len(),
                by_id_ok(by_id@, self.channels@.take(i as int)),
                forall|id: u16| #[trigger] by_id@.contains_key(id) ==> by_id@[id] < i,
            decreases self.channels@.len() - i,
        {
            let ghost before = by_id@;
            by_id.insert(self.channels[i].id, i);
            proof {
                let t = self.channels@.take(i + 1);
                assert(t.drop_last() =~= self.channels@.take(i as int));
                assert(t.last() == self.channels@[i as int]);
                assert forall|id: u16| #![trigger by_id@.contains_key(id)]
                    (by_id@.contains_key(id) <==> last_channel(t, id) is Some) && (by_id@.contains_key(id)
                        ==> by_id@[id] < t.len() && last_channel(t, id) == Some(t[by_id@[id] as int])) by {
                    if id != self.channels@[i as int].id {
                        assert(before.contains_key(id) ==> t[before[id] as int] == self.channels@.take(i as int)[before[id] as int]);
                    }
                }
            }
            i = i + 1;
        }
        assert(self.channels@.take(i as int) =~= self.channels@);
        by_id
    }

    /// Add a candidate channel unless its id was seen; schema ids run from 1
    /// and cannot pass `u16::MAX`.
    fn push_candidate(
        &self,
        resolved: &mut Vec<ResolvedChannel>,
        seen: &mut BTreeSet<u16>,
        by_id: &BTreeMap<u16, usize>,
        id: u16,
        domain: ClockDomain,
        Ghost(done): Ghost<Seq<(u16, ClockDomain)>>,
    ) -> (r: Result<(), RecordError>)
        requires
            by_id_ok(by_id@, self.channels@),
            resolved_views(old(resolved)@) == resolved_of(self.channels@, first_occurrences(done)),
            forall|c: u16| #[trigger] old(seen)@.contains(c) <==> has_id(first_occurrences(done), c),
            old(resolved)@.len() <= 65535,
        ensures
            r is Ok ==> {
                &&& resolved_views(final(resolved)@) == resolved_of(
                    self.channels@,
                    first_occurrences(done.push((id, domain))),
                )
                &&& forall|c: u16| #[trigger] final(seen)@.contains(c) <==> has_id(
                    first_occurrences(done.push((id, domain))),
                    c,
                )
                &&& final(resolved)@.len() <= 65535
            },
            r is Err ==> r == Err::<(), RecordError>(RecordError::TooManyChannels(65536)) && first_occurrences(
                done.push((id, domain)),
            ).len() == 65536,
    {
        proof {
            lemma_first_occurrences_push(done, (id, domain));
        }
        let ghost fo = first_occurrences(done);
        if seen.contains(&id) {
            return Ok(());
        }
        proof {
            assert(!has_id(fo, id));
            assert(resolved_views(resolved@).len() == resolved@.len());
            assert(resolved@.len() == fo.len());
        }
        if resolved.len() + 1 > 65535 {
            return Err(RecordError::TooManyChannels(resolved.len() + 1));
        }
        let schema_id = (resolved.len() + 1) as u16;
        let (name, identity) = match by_id.get(&id) {
            Some(k) => {
                let c = &self.channels[*k];
                broadcast use vstd::utf8::group_utf8_lib;
                let n = c.name.as_str().as_bytes();
                let t = c.schema_id.as_str().as_bytes();
                (crate::text::copy_bytes(n), crate::text::copy_bytes(t))
            },
            None => {
                let mut n: Vec<u8> = Vec::new();
                append_str(&mut n, "channel-");
                append_decimal(&mut n, id as u64);
                (n, Vec::new())
            },
        };
        seen.insert(id);
        let ghost before = resolved@;
        resolved.push(ResolvedChannel { channel_id: id, schema_id, name, identity, domain });
        proof {
            let fo2 = fo.push((id, domain));
            assert(resolved_views(resolved@) =~= resolved_of(self.channels@, fo2)) by {
                assert forall|i: int| 0 <= i < fo2.len() implies #[trigger] resolved_views(resolved@)[i]
                    == resolved_of(self.channels@, fo2)[i] by {
                    if i < fo.len() {
                        assert(resolved@[i] == before[i]);
                        assert(resolved_views(resolved@)[i] == resolved_views(before)[i]);
                    }
                }
            }
            assert forall|c: u16| #[trigger] seen@.contains(c) <==> has_id(fo2, c) by {
                if c == id {
                    assert(fo2[fo.len() as int].0 == id);
                } else if has_id(fo2, c) {
                    let k = choose|k: int| 0 <= k < fo2.len() && #[trigger] fo2[k].0 == c;
                    assert(k < fo.len());
                    assert(fo[k].0 == c);
                } else if has_id(fo, c) {
                    let k = choose|k: int| 0 <= k < fo.len() && #[trigger] fo[k].0 == c;
                    assert(fo2[k].0 == c);
                }
            }
        }
        Ok(())
    }
}

impl McapWriter {
    /// The channels to write, each with a schema id from 1 on, in a fixed
    /// order: record-bearing channels first, then manifest-only channels.
    fn resolve_channels(&self) -> (r: Result<Vec<ResolvedChannel>, RecordError>)
        requires
            writer_wf(self@),
        ensures
            distinct_channels(self@).len() <= 65535 ==> (r matches Ok(rs) && resolved_views(rs@) == resolved(self@)),
            distinct_channels(self@).len() > 65535 ==> r == Err::<Vec<ResolvedChannel>, RecordError>(
                RecordError::TooManyChannels(65536),
            ),
    {
        let by_id = self.channel_index();
        let mut resolved: Vec<ResolvedChannel> = Vec::new();
        let mut seen: BTreeSet<u16> = BTreeSet::new();
        let ghost cands = candidates(self@);
        let ghost n = self.channel_order@.len();
        let ghost mut done: Seq<(u16, ClockDomain)> = Seq::empty();
        proof {
            assert(resolved_views(resolved@) =~= resolved_of(self.channels@, first_occurrences(done)));
        }
        let mut i: usize = 0;
        while i < self.channel_order.len()
            invariant
                writer_wf(self@),
                cands == candidates(self@),
                n == self.channel_order@.len(),
                cands.len() == n + self.channels@.len(),
                i <= n,
                done == cands.take(i as int),
                by_id_ok(by_id@, self.channels@),
                resolved_views(resolved@) == resolved_of(self.channels@, first_occurrences(done)),
                forall|c: u16| #[trigger] seen@.contains(c) <==> has_id(first_occurrences(done), c),
                resolved@.len() <= 65535,
            decreases n - i,
        {
            let id = self.channel_order[i];
            proof {
                assert(self@.order.contains(id));
                assert(self@.domains.contains_key(id));
            }
            let domain = match self.channel_domains.get(&id) {
                Some(d) => *d,
                None => ClockDomain::Monotonic,
            };
            proof {
                assert(cands[i as int] == (id, domain));
                assert(done.push((id, domain)) =~= cands.take(i + 1));
            }
            match self.push_candidate(&mut resolved, &mut seen, &by_id, id, domain, Ghost(done)) {
                Ok(()) => {},
                Err(e) => {
                    proof {
                        assert(cands =~= cands.take(i + 1) + cands.skip(i + 1));
                        lemma_first_occurrences_grow(cands.take(i + 1), cands.skip(i + 1));
                    }
                    return Err(e);
                },
            }
            proof {
                done = done.push((id, domain));
            }
            i = i + 1;
        }
        let mut j: usize = 0;
        while j < self.channels.len()
            invariant
                writer_wf(self@),
                cands == candidates(self@),
                n == self.channel_order@.len(),
                cands.len() == n + self.channels@.len(),
                j <= self.channels@.len(),
                done == cands.take(n + j),
                by_id_ok(by_id@, self.channels@),
                resolved_views(resolved@) == resolved_of(self.channels@, first_occurrences(done)),
                forall|c: u16| #[trigger] seen@.contains(c) <==> has_id(first_occurrences(done), c),
                resolved@.len() <= 65535,
            decreases self.channels@.len() - j,
        {
            let c = &self.channels[j];
            let domain = match ClockDomain::parse(c.clock_domain.as_str()) {
                Some(d) => d,
                None => ClockDomain::Monotonic,
            };
            let id = c.id;
            proof {
                assert(cands[n + j] == (id, domain));
                assert(done.push((id, domain)) =~= cands.take(n + j + 1));
            }
            match self.push_candidate(&mut resolved, &mut seen, &by_id, id, domain, Ghost(done)) {
                Ok(()) => {},
                Err(e) => {
                    proof {
                        assert(cands =~= cands.take(n + j + 1) + cands.skip(n + j + 1));
                        lemma_first_occurrences_grow(cands.take(n + j + 1), cands.skip(n + j + 1));
                    }
                    return Err(e);
                },
            }
            proof {
                done = done.push((id, domain));
            }
            j = j + 1;
        }
        proof {
            assert(done =~= cands);
            assert(resolved_views(resolved@).len() == resolved@.len());
        }
        Ok(resolved)
    }
}

/// The UTF-8 bytes of a string.
fn text_bytes(s: &str) -> (v: Vec<u8>)
    ensures
        v@ == utf8_bytes(s@),
{
    let mut v: Vec<u8> = Vec::new();
    append_str(&mut v, s);
    assert(v@ =~= utf8_bytes(s@));
    v
}

proof fn lemma_map_one(a: (Seq<u8>, Seq<u8>))
    ensures
        map_entries(seq![a]) == prefixed(a.0) + prefixed(a.1),
{
    let e = Seq::<(Seq<u8>, Seq<u8>)>::empty();
    assert(seq![a].drop_last() =~= e);
    assert(seq![a].last() == a);
    assert(map_entries(e) == Seq::<u8>::empty());
    assert(Seq::<u8>::empty() + prefixed(a.0) + prefixed(a.1) =~= prefixed(a.0) + prefixed(a.1));
}

proof fn lemma_map_two(a: (Seq<u8>, Seq<u8>), b: (Seq<u8>, Seq<u8>))
    ensures
        map_entries(seq![a, b]) == prefixed(a.0) + prefixed(a.1) + prefixed(b.0) + prefixed(b.1),
{
    assert(seq![a, b].drop_last() =~= seq![a]);
    assert(seq![a, b].last() == b);
    lemma_map_one(a);
}

/// Append a channel's Schema record.
fn write_schema(out: &mut Vec<u8>, ch: &ResolvedChannel) -> (r: Result<(), RecordError>)
    ensures
        schema_fits(ch@) ==> r is Ok && final(out)@ == old(out)@ + schema_record(ch@),
        !schema_fits(ch@) ==> (r matches Err(RecordError::PayloadTooLarge(n)) && n > u32::MAX),
{
    assert(ch@.name == ch.name@ && ch@.identity == ch.identity@);
    let mut schema: Vec<u8> = Vec::new();
    put_u16(&mut schema, ch.schema_id);
    let r = put_bytes(&mut schema, ch.name.as_slice());
    if r.is_err() {
        return r;
    }
    let encoding = text_bytes("neuradix/schema-id");
    proof {
        reveal_strlit("neuradix/schema-id");
        crate::text::lemma_utf8_len_bound("neuradix/schema-id"@);
    }
    put_short(&mut schema, encoding.as_slice());
    let r = put_bytes(&mut schema, ch.identity.as_slice());
    if r.is_err() {
        return r;
    }
    frame(out, 0x03, schema.as_slice());
    assert(final(out)@ =~= old(out)@ + schema_record(ch@));
    Ok(())
}

/// Append a channel's Channel record.
fn write_channel(out: &mut Vec<u8>, ch: &ResolvedChannel) -> (r: Result<(), RecordError>)
    ensures
        definition_fits(ch@) ==> r is Ok && final(out)@ == old(out)@ + channel_record(ch@),
        !definition_fits(ch@) ==> (r matches Err(RecordError::PayloadTooLarge(n)) && n > u32::MAX),
{
    let ghost pairs_view = channel_metadata(ch@);
    assert(ch@.name == ch.name@ && ch@.identity == ch.identity@ && ch@.domain == ch.domain);
    let mut channel: Vec<u8> = Vec::new();
    put_u16(&mut channel, ch.channel_id);
    put_u16(&mut channel, ch.schema_id);
    let r = put_bytes(&mut channel, ch.name.as_slice());
    if r.is_err() {
        return r;
    }
    let message_encoding = text_bytes("neuradix");
    proof {
        reveal_strlit("neuradix");
        crate::text::lemma_utf8_len_bound("neuradix"@);
    }
    put_short(&mut channel, message_encoding.as_slice());
    let mut pairs: Vec<(Vec<u8>, Vec<u8>)> = Vec::new();
    pairs.push((text_bytes("clockDomain"), text_bytes(ch.domain.as_str())));
    pairs.push((text_bytes("schemaIdentity"), crate::text::copy_bytes(ch.identity.as_slice())));
    assert(pair_views(pairs@) =~= pairs_view);
    let r = put_map(&mut channel, &pairs);
    if r.is_err() {
        return r;
    }
    frame(out, 0x04, channel.as_slice());
    assert(final(out)@ =~= old(out)@ + channel_record(ch@));
    Ok(())
}

/// A channel whose metadata fits has a Schema record that fits.
proof fn lemma_definition_fits_schema(r: ResolvedView)
    requires
        definition_fits(r),
    ensures
        schema_fits(r),
{
    let m = channel_metadata(r);
    lemma_map_two(m[0], m[1]);
    assert(seq![m[0], m[1]] =~= m);
}

/// Append a channel's Schema and Channel records.
fn write_definition(out: &mut Vec<u8>, ch: &ResolvedChannel) -> (r: Result<(), RecordError>)
    ensures
        definition_fits(ch@) ==> r is Ok && final(out)@ == old(out)@ + definition_bytes(ch@),
        !definition_fits(ch@) ==> (r matches Err(RecordError::PayloadTooLarge(n)) && n > u32::MAX),
{
    proof {
        if definition_fits(ch@) {
            lemma_definition_fits_schema(ch@);
        }
    }
    let r = write_schema(out, ch);
    if r.is_err() {
        return r;
    }
    let r = write_channel(out, ch);
    if r.is_err() {
        return r;
    }
    assert(final(out)@ =~= old(out)@ + definition_bytes(ch@));
    Ok(())
}

proof fn lemma_counts_len(rs: Seq<ResolvedView>, ms: Seq<MessageView>)
    ensures
        channel_counts(rs, ms).len() == 10 * rs.len(),
    decreases rs.len(),
{
    vstd::bytes::lemma_auto_spec_u16_to_from_le_bytes();
    vstd::bytes::lemma_auto_spec_u64_to_from_le_bytes();
    if rs.len() > 0 {
        lemma_counts_len(rs.drop_last(), ms);
    }
}

impl McapWriter {
    /// The number of buffered records on a channel.
    fn count_on(&self, id: u16) -> (n: u64)
        ensures
            n == messages_on(message_views(self.records@), id),
    {
        let ghost ms = message_views(self.records@);
        let mut n: u64 = 0;
        let mut i: usize = 0;
        while i < self.records.len()
            invariant
                i <= self.records@.len(),
                ms == message_views(self.records@),
                n == messages_on(ms.take(i as int), id),
                n <= i,
            decreases self.records@.len() - i,
        {
            proof {
                assert(ms.take(i + 1).drop_last() =~= ms.take(i as int));
                assert(ms.take(i + 1).last() == self.records@[i as int]@);
            }
            if self.records[i].channel_id == id {
                n = n + 1;
            }
            i = i + 1;
        }
        assert(ms.take(i as int) =~= ms);
        n
    }

    /// Append the Statistics record.
    fn write_statistics(&self, out: &mut Vec<u8>, channels: &Vec<ResolvedChannel>)
        requires
            channels@.len() <= 65535,
        ensures
            final(out)@ == old(out)@ + statistics_bytes(resolved_views(channels@), message_views(self.records@)),
    {
        let ghost ms = message_views(self.records@);
        let ghost rs = resolved_views(channels@);
        let mut lo: u64 = 0xffff_ffff_ffff_ffff;
        let mut hi: u64 = 0;
        let mut i: usize = 0;
        while i < self.records.len()
            invariant
                i <= self.records@.len(),
                ms == message_views(self.records@),
                lo == earliest(ms.take(i as int)),
                hi == latest(ms.take(i as int)),
            decreases self.records@.len() - i,
        {
            proof {
                assert(ms.take(i + 1).drop_last() =~= ms.take(i as int));
                assert(ms.take(i + 1).last() == self.records@[i as int]@);
            }
            let t = self.records[i].log_time;
            if t < lo {
                lo = t;
            }
            if t > hi {
                hi = t;
            }
            i = i + 1;
        }
        assert(ms.take(i as int) =~= ms);
        let start = if self.records.len() == 0 { 0 } else { lo };
        let mut counts: Vec<u8> = Vec::new();
        let mut k: usize = 0;
        while k < channels.len()
            invariant
                k <= channels@.len(),
                channels@.len() <= 65535,
                rs == resolved_views(channels@),
                ms == message_views(self.records@),
                counts@ == channel_counts(rs.take(k as int), ms),
            decreases channels@.len() - k,
        {
            proof {
                assert(rs.take(k + 1).drop_last() =~= rs.take(k as int));
                assert(rs.take(k + 1).last() == channels@[k as int]@);
            }
            put_u16(&mut counts, channels[k].channel_id);
            let n = self.count_on(channels[k].channel_id);
            put_u64(&mut counts, n);
            k = k + 1;
        }
        proof {
            assert(rs.take(k as int) =~= rs);
            lemma_counts_len(rs, ms);
        }
        let mut stats: Vec<u8> = Vec::new();
        put_u64(&mut stats, self.records.len() as u64);
        put_u16(&mut stats, channels.len() as u16);
        put_u32(&mut stats, channels.len() as u32);
        put_u32(&mut stats, 0);
        put_u32(&mut stats, 1);
        put_u32(&mut stats, 0);
        put_u64(&mut stats, start);
        put_u64(&mut stats, hi);
        put_u32(&mut stats, counts.len() as u32);
        append_bytes(&mut stats, counts.as_slice());
        frame(out, 0x0b, stats.as_slice());
        assert(final(out)@ =~= old(out)@ + statistics_bytes(rs, ms));
    }
}

/// Append a byte string known to fit its `u32` length prefix.
fn put_short(out: &mut Vec<u8>, b: &[u8])
    requires
        b@.len() <= u32::MAX,
    ensures
        final(out)@ == old(out)@ + prefixed(b@),
{
    put_u32(out, b.len() as u32);
    append_bytes(out, b);
}

/// Append the MCAP magic.
fn put_magic(out: &mut Vec<u8>)
    ensures
        final(out)@ == old(out)@ + magic_seq(),
{
    out.push(0x89);
    out.push(0x4d);
    out.push(0x43);
    out.push(0x41);
    out.push(0x50);
    out.push(0x30);
    out.push(0x0d);
    out.push(0x0a);
    assert(out@ =~= old(out)@ + magic_seq());
}

impl McapWriter {
    /// Emit the complete MCAP file, with `manifest_json` (the manifest's
    /// JSON text) embedded as its metadata record.
    pub fn finish(self, manifest_json: &str) -> (r: Result<Vec<u8>, RecordError>)
        requires
            writer_wf(self@),
        ensures
            distinct_channels(self@).len() > 65535 ==> r == Err::<Vec<u8>, RecordError>(
                RecordError::TooManyChannels(65536),
            ),
            distinct_channels(self@).len() <= 65535 && fields_fit(self@, utf8_bytes(manifest_json@)) ==> (r matches Ok(
                b,
            ) && b@ == mcap_image(self@, utf8_bytes(manifest_json@))),
            distinct_channels(self@).len() <= 65535 && !fields_fit(self@, utf8_bytes(manifest_json@)) ==> (r matches Err(
                RecordError::PayloadTooLarge(n),
            ) && n > u32::MAX),
    {
        let channels = match self.resolve_channels() {
            Ok(c) => c,
            Err(e) => return Err(e),
        };
        let ghost v = self@;
        let ghost json = utf8_bytes(manifest_json@);
        let ghost rs = resolved(v);
        let ghost ms = v.messages;
        let mut out: Vec<u8> = Vec::new();
        put_magic(&mut out);
        let mut header: Vec<u8> = Vec::new();
        let profile_bytes = text_bytes("neuradix");
        let library_bytes = text_bytes("neuradix-record/0.0.1");
        proof {
            reveal_strlit("neuradix");
            reveal_strlit("neuradix-record/0.0.1");
            crate::text::lemma_utf8_len_bound("neuradix"@);
            crate::text::lemma_utf8_len_bound("neuradix-record/0.0.1"@);
        }
        put_short(&mut header, profile_bytes.as_slice());
        put_short(&mut header, library_bytes.as_slice());
        frame(&mut out, 0x01, header.as_slice());
        let mut meta: Vec<u8> = Vec::new();
        let name_bytes = text_bytes("neuradix.manifest");
        proof {
            reveal_strlit("neuradix.manifest");
            crate::text::lemma_utf8_len_bound("neuradix.manifest"@);
        }
        put_short(&mut meta, name_bytes.as_slice());
        let mut pairs: Vec<(Vec<u8>, Vec<u8>)> = Vec::new();
        pairs.push((text_bytes("json"), text_bytes(manifest_json)));
        assert(pair_views(pairs@) =~= seq![(utf8_bytes("json"@), json)]);
        match put_map(&mut meta, &pairs) {
            Ok(()) => {},
            Err(e) => return Err(e),
        }
        frame(&mut out, 0x0c, meta.as_slice());
        assert(resolved_views(channels@) == rs);
        let ghost opening = magic_seq() + opening_bytes(json);
        assert(out@ =~= opening);
        let mut k: usize = 0;
        while k < channels.len()
            invariant
                k <= channels@.len(),
                rs == resolved_views(channels@),
                v == self@,
                json == utf8_bytes(manifest_json@),
                rs == resolved(v),
                distinct_channels(v).len() <= 65535,
                map_entries(seq![(utf8_bytes("json"@), json)]).len() <= u32::MAX,
                out@ == opening + definitions(rs.take(k as int)),
                forall|q: int| 0 <= q < k ==> #[trigger] definition_fits(rs[q]),
            decreases channels@.len() - k,
        {
            proof {
                assert(rs.take(k + 1).drop_last() =~= rs.take(k as int));
                assert(rs.take(k + 1).last() == channels@[k as int]@);
            }
            match write_definition(&mut out, &channels[k]) {
                Ok(()) => {},
                Err(e) => return Err(e),
            }
            assert(out@ =~= opening + definitions(rs.take(k + 1)));
            k = k + 1;
        }
        assert(rs.take(k as int) =~= rs);
        let ghost with_definitions = out@;
        let mut i: usize = 0;
        while i < self.records.len()
            invariant
                i <= self.records@.len(),
                ms == message_views(self.records@),
                out@ == with_definitions + messages_bytes(ms.take(i as int)),
            decreases self.records@.len() - i,
        {
            proof {
                assert(ms.take(i + 1).drop_last() =~= ms.take(i as int));
                assert(ms.take(i + 1).last() == self.records@[i as int]@);
            }
            let r = &self.records[i];
            let mut m: Vec<u8> = Vec::new();
            put_u16(&mut m, r.channel_id);
            put_u32(&mut m, r.sequence);
            put_u64(&mut m, r.log_time);
            put_u64(&mut m, r.log_time);
            append_bytes(&mut m, r.payload.as_slice());
            frame(&mut out, 0x05, m.as_slice());
            assert(out@ =~= with_definitions + messages_bytes(ms.take(i + 1)));
            i = i + 1;
        }
        assert(ms.take(i as int) =~= ms);
        let mut data_end: Vec<u8> = Vec::new();
        put_u32(&mut data_end, 0);
        frame(&mut out, 0x0f, data_end.as_slice());
        assert(out@ =~= data_section(v, json));
        let summary_start = out.len() as u64;
        let ghost data = out@;
        let mut k: usize = 0;
        while k < channels.len()
            invariant
                k <= channels@.len(),
                rs == resolved_views(channels@),
                out@ == data + schema_records(rs.take(k as int)),
                forall|q: int| 0 <= q < rs.len() ==> #[trigger] definition_fits(rs[q]),
            decreases channels@.len() - k,
        {
            proof {
                assert(rs.take(k + 1).drop_last() =~= rs.take(k as int));
                assert(rs.take(k + 1).last() == channels@[k as int]@);
                assert(definition_fits(rs[k as int]));
                lemma_definition_fits_schema(rs[k as int]);
            }
            match write_schema(&mut out, &channels[k]) {
                Ok(()) => {},
                Err(e) => return Err(e),
            }
            assert(out@ =~= data + schema_records(rs.take(k + 1)));
            k = k + 1;
        }
        assert(rs.take(k as int) =~= rs);
        let ghost with_schemas = out@;
        let mut k: usize = 0;
        while k < channels.len()
            invariant
                k <= channels@.len(),
                rs == resolved_views(channels@),
                out@ == with_schemas + channel_records(rs.take(k as int)),
                forall|q: int| 0 <= q < rs.len() ==> #[trigger] definition_fits(rs[q]),
            decreases channels@.len() - k,
        {
            proof {
                assert(rs.take(k + 1).drop_last() =~= rs.take(k as int));
                assert(rs.take(k + 1).last() == channels@[k as int]@);
                assert(definition_fits(rs[k as int]));
            }
            match write_channel(&mut out, &channels[k]) {
                Ok(()) => {},
                Err(e) => return Err(e),
            }
            assert(out@ =~= with_schemas + channel_records(rs.take(k + 1)));
            k = k + 1;
        }
        assert(rs.take(k as int) =~= rs);
        self.write_statistics(&mut out, &channels);
        let mut footer: Vec<u8> = Vec::new();
        put_u64(&mut footer, summary_start);
        put_u64(&mut footer, 0);
        put_u32(&mut footer, 0);
        frame(&mut out, 0x02, footer.as_slice());
        put_magic(&mut out);
        assert(out@ =~= mcap_image(v, json));
        Ok(out)
    }
}

/// A list of records as bytes.
pub open spec fn record_list(fs: Seq<(u8, Seq<u8>)>) -> Seq<u8>
    decreases fs.len(),
{
    if fs.len() == 0 {
        Seq::empty()
    } else {
        record_list(fs.drop_last()) + framed(fs.last().0, fs.last().1)
    }
}

proof fn lemma_record_list_concat(a: Seq<(u8, Seq<u8>)>, b: Seq<(u8, Seq<u8>)>)
    ensures
        record_list(a + b) == record_list(a) + record_list(b),
    decreases b.len(),
{
    if b.len() == 0 {
        assert(a + b =~= a);
        assert(record_list(a) + record_list(b) =~= record_list(a));
    } else {
        lemma_record_list_concat(a, b.drop_last());
        assert((a + b).drop_last() =~= a + b.drop_last());
        assert((a + b).last() == b.last());
        assert(record_list(a + b) =~= record_list(a) + record_list(b));
    }
}

/// The records of the channel definitions, in order.
pub open spec fn definition_list(rs: Seq<ResolvedView>) -> Seq<(u8, Seq<u8>)>
    decreases rs.len(),
{
    if rs.len() == 0 {
        Seq::empty()
    } else {
        definition_list(rs.drop_last()) + seq![
            (0x03u8, schema_content(rs.last())),
            (0x04u8, channel_content(rs.last())),
        ]
    }
}

/// The content of a channel's Schema record.
pub open spec fn schema_content(r: ResolvedView) -> Seq<u8> {
    spec_u16_to_le_bytes(r.schema_id) + prefixed(r.name) + prefixed(utf8_bytes("neuradix/schema-id"@))
        + prefixed(r.identity)
}

/// The content of a channel's Channel record.
pub open spec fn channel_content(r: ResolvedView) -> Seq<u8> {
    spec_u16_to_le_bytes(r.channel_id) + spec_u16_to_le_bytes(r.schema_id) + prefixed(r.name) + prefixed(
        utf8_bytes("neuradix"@),
    ) + map_bytes(channel_metadata(r))
}

/// The Schema records alone, in order.
pub open spec fn schema_list(rs: Seq<ResolvedView>) -> Seq<(u8, Seq<u8>)> {
    rs.map_values(|r: ResolvedView| (0x03u8, schema_content(r)))
}

/// The Channel records alone, in order.
pub open spec fn channel_list(rs: Seq<ResolvedView>) -> Seq<(u8, Seq<u8>)> {
    rs.map_values(|r: ResolvedView| (0x04u8, channel_content(r)))
}

/// The content of a message's record.
pub open spec fn message_content(m: MessageView) -> Seq<u8> {
    spec_u16_to_le_bytes(m.channel_id) + spec_u32_to_le_bytes(m.sequence) + spec_u64_to_le_bytes(m.log_time)
        + spec_u64_to_le_bytes(m.log_time) + m.payload
}

/// The Message records, in order.
pub open spec fn message_list(ms: Seq<MessageView>) -> Seq<(u8, Seq<u8>)> {
    ms.map_values(|m: MessageView| (0x05u8, message_content(m)))
}

proof fn lemma_definition_list(rs: Seq<ResolvedView>)
    ensures
        record_list(definition_list(rs)) == definitions(rs),
        forall|i: int| 0 <= i < definition_list(rs).len() ==> #[trigger] definition_list(rs)[i].0 != 0x02,
    decreases rs.len(),
{
    if rs.len() > 0 {
        lemma_definition_list(rs.drop_last());
        let pair = seq![(0x03u8, schema_content(rs.last())), (0x04u8, channel_content(rs.last()))];
        lemma_record_list_concat(definition_list(rs.drop_last()), pair);
        assert(pair.drop_last() =~= seq![(0x03u8, schema_content(rs.last()))]);
        assert(seq![(0x03u8, schema_content(rs.last()))].drop_last() =~= Seq::<(u8, Seq<u8>)>::empty());
        let one = seq![(0x03u8, schema_content(rs.last()))];
        assert(record_list(Seq::<(u8, Seq<u8>)>::empty()) == Seq::<u8>::empty());
        assert(one.last() == (0x03u8, schema_content(rs.last())));
        assert(record_list(one) =~= schema_record(rs.last()));
        assert(pair.last() == (0x04u8, channel_content(rs.last())));
        assert(record_list(pair) =~= schema_record(rs.last()) + channel_record(rs.last()));
        assert forall|i: int| 0 <= i < definition_list(rs).len() implies #[trigger] definition_list(rs)[i].0
            != 0x02 by {
            if i >= definition_list(rs.drop_last()).len() {
                assert(definition_list(rs)[i] == pair[i - definition_list(rs.drop_last()).len()]);
            } else {
                assert(definition_list(rs)[i] == definition_list(rs.drop_last())[i]);
            }
        }
    }
}

proof fn lemma_schema_list(rs: Seq<ResolvedView>)
    ensures
        record_list(schema_list(rs)) == schema_records(rs),
    decreases rs.len(),
{
    if rs.len() > 0 {
        lemma_schema_list(rs.drop_last());
        assert(schema_list(rs).drop_last() =~= schema_list(rs.drop_last()));
    }
}

proof fn lemma_channel_list(rs: Seq<ResolvedView>)
    ensures
        record_list(channel_list(rs)) == channel_records(rs),
    decreases rs.len(),
{
    if rs.len() > 0 {
        lemma_channel_list(rs.drop_last());
        assert(channel_list(rs).drop_last() =~= channel_list(rs.drop_last()));
    }
}

proof fn lemma_message_list(ms: Seq<MessageView>)
    ensures
        record_list(message_list(ms)) == messages_bytes(ms),
    decreases ms.len(),
{
    if ms.len() > 0 {
        lemma_message_list(ms.drop_last());
        assert(message_list(ms).drop_last() =~= message_list(ms.drop_last()));
    }
}

proof fn lemma_outer_step(s: Seq<u8>, pos: int, op: u8, c: Seq<u8>)
    requires
        0 <= pos,
        pos + 9 + c.len() <= s.len(),
        c.len() <= u64::MAX,
        s.subrange(pos, pos + 9 + c.len()) == framed(op, c),
    ensures
        outer_records(s, pos) == if op == 0x02 {
            Some(seq![(op, pos + 9, pos + 9 + c.len())])
        } else {
            after(seq![(op, pos + 9, pos + 9 + c.len())], outer_records(s, pos + 9 + c.len()))
        },
{
    vstd::bytes::lemma_auto_spec_u64_to_from_le_bytes();
    let f = framed(op, c);
    assert(s[pos] == f[0]);
    assert(s.subrange(pos + 1, pos + 9) =~= f.subrange(1, 9));
    assert(f.subrange(1, 9) =~= spec_u64_to_le_bytes(c.len() as u64));
    match outer_records(s, pos + 9 + c.len()) {
        Some(rest) => {},
        None => {},
    }
}

proof fn lemma_outer_list(s: Seq<u8>, pos: int, fs: Seq<(u8, Seq<u8>)>)
    requires
        0 <= pos,
        pos + record_list(fs).len() <= s.len(),
        s.subrange(pos, pos + record_list(fs).len()) == record_list(fs),
        forall|i: int| 0 <= i < fs.len() ==> #[trigger] fs[i].0 != 0x02,
        forall|i: int| 0 <= i < fs.len() ==> #[trigger] fs[i].1.len() <= u64::MAX,
    ensures
        (outer_records(s, pos) is Some) == (outer_records(s, pos + record_list(fs).len()) is Some),
        outer_records(s, pos) matches Some(r) ==> {
            let rest = outer_records(s, pos + record_list(fs).len())->0;
            &&& r.len() == fs.len() + rest.len()
            &&& fs.len() > 0 ==> r[0].0 == fs[0].0
            &&& r.last() == rest.last()
        },
    decreases fs.len(),
{
    if fs.len() == 0 {
        assert(record_list(fs).len() == 0);
    } else {
        let first = seq![fs[0]];
        let tail = fs.drop_first();
        assert(fs =~= first + tail);
        lemma_record_list_concat(first, tail);
        assert(first.drop_last() =~= Seq::<(u8, Seq<u8>)>::empty());
        assert(record_list(Seq::<(u8, Seq<u8>)>::empty()) == Seq::<u8>::empty());
        assert(record_list(first) =~= framed(fs[0].0, fs[0].1));
        let n = fs[0].1.len() as int;
        let next = pos + 9 + n;
        vstd::bytes::lemma_auto_spec_u64_to_from_le_bytes();
        assert(record_list(fs) == framed(fs[0].0, fs[0].1) + record_list(tail));
        assert(framed(fs[0].0, fs[0].1).len() == 9 + n);
        let whole = s.subrange(pos, pos + record_list(fs).len());
        assert(whole.subrange(0, 9 + n) =~= framed(fs[0].0, fs[0].1));
        assert(s.subrange(pos, next) =~= whole.subrange(0, 9 + n));
        assert(whole.subrange(9 + n, whole.len() as int) =~= record_list(tail));
        assert(s.subrange(next, next + record_list(tail).len()) =~= whole.subrange(9 + n, whole.len() as int));
        assert(fs[0].0 != 0x02);
        lemma_outer_step(s, pos, fs[0].0, fs[0].1);
        assert forall|i: int| 0 <= i < tail.len() implies #[trigger] tail[i].0 != 0x02 && tail[i].1.len() <= u64::MAX by {
            assert(tail[i] == fs[i + 1]);
        }
        lemma_outer_list(s, next, tail);
        assert(next + record_list(tail).len() == pos + record_list(fs).len());
        match outer_records(s, next) {
            Some(r) => {
                assert(outer_records(s, next + record_list(tail).len()) is Some);
                let rest = outer_records(s, next + record_list(tail).len())->0;
                assert(rest.len() > 0) by {
                    lemma_outer_nonempty(s, next + record_list(tail).len());
                }
            },
            None => {},
        }
    }
}

proof fn lemma_outer_nonempty(s: Seq<u8>, pos: int)
    ensures
        outer_records(s, pos) matches Some(r) ==> r.len() > 0,
    decreases s.len() - pos,
{
    if 0 <= pos && pos + 9 <= s.len() {
        let n = spec_u64_from_le_bytes(s.subrange(pos + 1, pos + 9)) as int;
        if n <= s.len() - pos - 9 && s[pos] != 0x02 {
            lemma_outer_nonempty(s, pos + 9 + n);
        }
    }
}

/// The content of the Header record.
pub open spec fn header_content() -> Seq<u8> {
    prefixed(profile()) + prefixed(library())
}

/// The content of the manifest Metadata record.
pub open spec fn metadata_content(json: Seq<u8>) -> Seq<u8> {
    prefixed(utf8_bytes("neuradix.manifest"@)) + map_bytes(seq![(utf8_bytes("json"@), json)])
}

/// The content of the Statistics record.
pub open spec fn statistics_content(rs: Seq<ResolvedView>, ms: Seq<MessageView>) -> Seq<u8> {
    let start = if ms.len() == 0 { 0u64 } else { earliest(ms) };
    spec_u64_to_le_bytes(ms.len() as u64) + spec_u16_to_le_bytes(rs.len() as u16) + spec_u32_to_le_bytes(
        rs.len() as u32,
    ) + spec_u32_to_le_bytes(0) + spec_u32_to_le_bytes(1) + spec_u32_to_le_bytes(0) + spec_u64_to_le_bytes(start)
        + spec_u64_to_le_bytes(latest(ms)) + spec_u32_to_le_bytes((10 * rs.len()) as u32) + channel_counts(rs, ms)
}

/// Every record of a written file before its Footer, in order.
pub open spec fn written_records(v: McapWriterView, json: Seq<u8>) -> Seq<(u8, Seq<u8>)> {
    let rs = resolved(v);
    seq![(0x01u8, header_content()), (0x0cu8, metadata_content(json))] + definition_list(rs) + message_list(
        v.messages,
    ) + seq![(0x0fu8, spec_u32_to_le_bytes(0))] + schema_list(rs) + channel_list(rs) + seq![
        (0x0bu8, statistics_content(rs, v.messages)),
    ]
}

proof fn lemma_two(a: (u8, Seq<u8>), b: (u8, Seq<u8>))
    ensures
        record_list(seq![a, b]) == framed(a.0, a.1) + framed(b.0, b.1),
{
    assert(seq![a, b].drop_last() =~= seq![a]);
    assert(seq![a].drop_last() =~= Seq::<(u8, Seq<u8>)>::empty());
    assert(record_list(Seq::<(u8, Seq<u8>)>::empty()) == Seq::<u8>::empty());
    assert(record_list(seq![a]) =~= framed(a.0, a.1));
}

proof fn lemma_one(a: (u8, Seq<u8>))
    ensures
        record_list(seq![a]) == framed(a.0, a.1),
{
    assert(seq![a].drop_last() =~= Seq::<(u8, Seq<u8>)>::empty());
    assert(record_list(Seq::<(u8, Seq<u8>)>::empty()) == Seq::<u8>::empty());
    assert(record_list(seq![a]) =~= framed(a.0, a.1));
}

/// The Footer content of a written file.
pub open spec fn footer_content(v: McapWriterView, json: Seq<u8>) -> Seq<u8> {
    spec_u64_to_le_bytes(data_section(v, json).len() as u64) + spec_u64_to_le_bytes(0) + spec_u32_to_le_bytes(0)
}

#[verifier::spinoff_prover]
#[verifier::rlimit(50)]
proof fn lemma_written_bytes(v: McapWriterView, json: Seq<u8>)
    ensures
        mcap_image(v, json) == magic_seq() + record_list(written_records(v, json)) + framed(
            0x02,
            footer_content(v, json),
        ) + magic_seq(),
{
    let rs = resolved(v);
    let ms = v.messages;
    let opening = seq![(0x01u8, header_content()), (0x0cu8, metadata_content(json))];
    let de = seq![(0x0fu8, spec_u32_to_le_bytes(0))];
    let st = seq![(0x0bu8, statistics_content(rs, ms))];
    lemma_two(opening[0], opening[1]);
    lemma_one(de[0]);
    lemma_one(st[0]);
    lemma_definition_list(rs);
    lemma_message_list(ms);
    lemma_schema_list(rs);
    lemma_channel_list(rs);
    let l1 = opening + definition_list(rs);
    let l2 = l1 + message_list(ms);
    let l3 = l2 + de;
    let l4 = l3 + schema_list(rs);
    let l5 = l4 + channel_list(rs);
    assert(written_records(v, json) == l5 + st);
    lemma_record_list_concat(opening, definition_list(rs));
    lemma_record_list_concat(l1, message_list(ms));
    lemma_record_list_concat(l2, de);
    lemma_record_list_concat(l3, schema_list(rs));
    lemma_record_list_concat(l4, channel_list(rs));
    lemma_record_list_concat(l5, st);
    assert(record_list(written_records(v, json)) =~= opening_bytes(json) + definitions(rs) + messages_bytes(ms)
        + framed(0x0f, spec_u32_to_le_bytes(0)) + schema_records(rs) + channel_records(rs) + statistics_bytes(
        rs,
        ms,
    ));
    assert(mcap_image(v, json) =~= magic_seq() + record_list(written_records(v, json)) + framed(
        0x02,
        footer_content(v, json),
    ) + magic_seq());
}

#[verifier::spinoff_prover]
proof fn lemma_written_ops(v: McapWriterView, json: Seq<u8>)
    ensures
        forall|i: int| 0 <= i < written_records(v, json).len() ==> #[trigger] written_records(v, json)[i].0 != 0x02,
        written_records(v, json)[0].0 == 0x01,
{
    let rs = resolved(v);
    let ms = v.messages;
    let l = written_records(v, json);
    let opening = seq![(0x01u8, header_content()), (0x0cu8, metadata_content(json))];
    let de = seq![(0x0fu8, spec_u32_to_le_bytes(0))];
    let st = seq![(0x0bu8, statistics_content(rs, ms))];
    lemma_definition_list(rs);
    let l1 = opening + definition_list(rs);
    let l2 = l1 + message_list(ms);
    let l3 = l2 + de;
    let l4 = l3 + schema_list(rs);
    let l5 = l4 + channel_list(rs);
    assert(l == l5 + st);
    assert forall|i: int| 0 <= i < l.len() implies #[trigger] l[i].0 != 0x02 by {
        if i < l5.len() {
            assert(l[i] == l5[i]);
            if i < l4.len() {
                assert(l5[i] == l4[i]);
                if i < l3.len() {
                    assert(l4[i] == l3[i]);
                    if i < l2.len() {
                        assert(l3[i] == l2[i]);
                        if i < l1.len() {
                            assert(l2[i] == l1[i]);
                            if i >= 2 {
                                assert(l1[i] == definition_list(rs)[i - 2]);
                            }
                        } else {
                            assert(l2[i] == message_list(ms)[i - l1.len()]);
                        }
                    }
                } else {
                    assert(l4[i] == schema_list(rs)[i - l3.len()]);
                }
            } else {
                assert(l5[i] == channel_list(rs)[i - l4.len()]);
            }
        }
    }
    assert(l[0] == l1[0]);
}

/// Every file the writer emits frames as the importer reads it: its outer
/// records run from the Header to the first Footer, and the end magic follows
/// that Footer directly. (Any file held in memory has a length that fits `u64`.)
pub proof fn law_written_files_frame(v: McapWriterView, json: Seq<u8>)
    requires
        mcap_image(v, json).len() <= u64::MAX,
    ensures
        ({
            let b = mcap_image(v, json);
            &&& outer_records(b, 8) matches Some(rs)
            &&& rs.len() == written_records(v, json).len() + 1
            &&& rs[0].0 == 0x01
            &&& rs.last().0 == 0x02
            &&& rs.last().2 == b.len() - 8
        }),
{
    let b = mcap_image(v, json);
    let l = written_records(v, json);
    let footer = footer_content(v, json);
    lemma_written_bytes(v, json);
    lemma_written_ops(v, json);
    vstd::bytes::lemma_auto_spec_u64_to_from_le_bytes();
    let end: int = 8 + record_list(l).len() as int;
    assert(b.subrange(8, end) =~= record_list(l));
    assert(framed(0x02, footer).len() == 9 + footer.len());
    assert(b.subrange(end, end + 9 + footer.len() as int) =~= framed(0x02, footer));
    assert forall|i: int| 0 <= i < l.len() implies #[trigger] l[i].1.len() <= u64::MAX by {
        lemma_list_entry_len(l, i);
    }
    lemma_outer_step(b, end, 0x02, footer);
    lemma_outer_list(b, 8, l);
}

/// Each record of a list takes at least its content's length.
proof fn lemma_list_entry_len(fs: Seq<(u8, Seq<u8>)>, i: int)
    requires
        0 <= i < fs.len(),
    ensures
        fs[i].1.len() <= record_list(fs).len(),
    decreases fs.len(),
{
    if i < fs.len() - 1 {
        lemma_list_entry_len(fs.drop_last(), i);
        assert(fs.drop_last()[i] == fs[i]);
    }
}

} // verus!
