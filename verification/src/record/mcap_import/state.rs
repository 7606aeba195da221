//! The streaming MCAP import state machine and the bounded materializer.
use crate::record::crc::{crc32, crc32_of};
use crate::record::error::RecordError;
use crate::record::mcap_import::chunk;
use crate::record::mcap_import::limits::{check, import_limits_valid, ImportLimitsView, McapImportLimits};
use crate::record::mcap_import::model::{
    McapAuxiliary, McapChannel, McapEvent, McapEventKind, McapHeader, McapImportStats, McapMessage,
    McapMessageRef, McapMetadata, McapSchema,
};
use crate::record::mcap_import::parse::{parse_record, record_spec, record_view, McapRecord, RecordSpec};
use crate::record::mcap_import::preflight::{self, cursor_wf, le_u32_at, le_u64_at, spec_validate, Cursor};
use crate::record::mcap_import::same::{same_channel, same_metadata, same_schema};
use crate::record::strmap::{entries_map, StringMap};
use crate::record::strmap::{
    bytes_less, bytes_lt, key_bytes, lemma_bytes_lt_irreflexive, lemma_bytes_lt_total, lemma_bytes_lt_transitive,
};
use crate::record::mcap_import::steps::{
    accepting_visitor_sees_all, chunk_bytes, chunk_replay, chunk_scan, chunk_step, channel_step, charged, entry,
    inner_step, kind_step, lemma_first_group, lemma_log_same, lemma_quiet_after, lemma_ran_none, lemma_ran_one,
    lemma_ran_refusal, lemma_ran_stop, lemma_ran_then, lemma_then_assoc, lemma_then_prefix, lemma_then_quiet, message_step, metadata_step,
    outer_step, quiet, ran, refused, schema_step, then, header_step, counts_step, summary_offset_step, EventKind, Handed,
    ImportView, Stepped,
};
use crate::text::{copy_bytes, str_equal};
use std::collections::BTreeMap;
use vstd::bytes::{spec_u64_from_le_bytes, u32_from_le_bytes, u64_from_le_bytes};
use vstd::prelude::*;
use vstd::slice::slice_subrange;

verus! {

broadcast use vstd::laws_cmp::group_laws_cmp, vstd::std_specs::btree::group_btree_axioms;

/// The 8-byte MCAP magic at the start and end of every file.
pub const MCAP_MAGIC: [u8; 8] = [0x89, 0x4d, 0x43, 0x41, 0x50, 0x30, 0x0d, 0x0a];

/// The MCAP magic as a sequence.
pub open spec fn magic_seq() -> Seq<u8> {
    seq![0x89u8, 0x4du8, 0x43u8, 0x41u8, 0x50u8, 0x30u8, 0x0du8, 0x0au8]
}

/// The outer records of an MCAP file from `pos` on, each as its opcode and
/// the range of its body, up to and including the first footer; `None` where
/// a record header or body runs past the input.
pub open spec fn outer_records(s: Seq<u8>, pos: int) -> Option<Seq<(u8, int, int)>>
    decreases s.len() - pos,
{
    if pos < 0 || pos + 9 > s.len() {
        None
    } else {
        let n = spec_u64_from_le_bytes(s.subrange(pos + 1, pos + 9)) as int;
        if n > s.len() - pos - 9 {
            None
        } else {
            let here = (s[pos], pos + 9, pos + 9 + n);
            if s[pos] == 0x02 {
                Some(seq![here])
            } else {
                match outer_records(s, pos + 9 + n) {
                    Some(rest) => Some(seq![here] + rest),
                    None => None,
                }
            }
        }
    }
}

/// Records seen so far, followed by those still to come.
pub open spec fn after(done: Seq<(u8, int, int)>, rest: Option<Seq<(u8, int, int)>>) -> Option<Seq<(u8, int, int)>> {
    match rest {
        Some(r) => Some(done + r),
        None => None,
    }
}

fn malformed(message: &'static str) -> (e: RecordError)
    ensures
        e == RecordError::Mcap(message),
{
    RecordError::Mcap(message)
}

/// The plain values of an event.
pub open spec fn handed<'a>(e: McapEvent<'a>) -> Handed {
    Handed {
        kind: match e.kind {
            McapEventKind::Header(h) => EventKind::Header(h.profile@, h.library@),
            McapEventKind::Schema(s) => EventKind::Schema(s.id, s.name@, s.encoding@, s.data@),
            McapEventKind::Channel(c) => EventKind::Channel(
                c.id,
                c.schema_id,
                c.topic@,
                c.message_encoding@,
                entries_map(c.metadata.spec_entries()),
            ),
            McapEventKind::Metadata(m) => EventKind::Metadata(m.name@, entries_map(m.entries.spec_entries())),
            McapEventKind::Message(m) => EventKind::Message(m.channel_id, m.sequence, m.log_time, m.publish_time, m.data@),
            McapEventKind::Auxiliary { opcode, data } => EventKind::Auxiliary(opcode, data@),
        },
        ordinal: e.ordinal,
        accounted: e.accounted_bytes,
    }
}

/// A synchronous consumer of import events. An error stops the import.
pub trait McapVisitor {
    /// Whether this visitor keeps a log of the events it is handed; one that
    /// keeps none says nothing of them.
    open spec fn logs(&self) -> bool {
        false
    }

    /// The events handed to this visitor so far, each with its answer, for a
    /// visitor that keeps a log.
    open spec fn visits(&self) -> Seq<(Handed, Result<(), RecordError>)> {
        Seq::empty()
    }

    /// What this visitor keeps true between events.
    open spec fn inv(&self) -> bool {
        true
    }

    /// What the visitor was set up with; handing it events leaves it as it is.
    open spec fn budget(&self) -> int {
        0
    }

    /// Receive one provisional event; a logging visitor logs it with its answer.
    fn visit(&mut self, event: &McapEvent) -> (r: Result<(), RecordError>)
        requires
            old(self).inv(),
        ensures
            final(self).inv(),
            final(self).budget() == old(self).budget(),
            final(self).logs() == old(self).logs(),
            old(self).logs() ==> final(self).visits() == old(self).visits().push((handed(*event), r)),
    ;
}

#[derive(Debug, Clone)]
pub struct McapImportSummary {
    header: McapHeader,
    schemas: BTreeMap<u16, McapSchema>,
    channels: BTreeMap<u16, McapChannel>,
    metadata: Vec<McapMetadata>,
    stats: McapImportStats,
}

/// The abstract content of an import summary.
pub struct SummaryView {
    /// Producer declarations.
    pub header: McapHeader,
    /// Schemas by id.
    pub schemas: Map<u16, McapSchema>,
    /// Channels by id.
    pub channels: Map<u16, McapChannel>,
    /// Named metadata, in byte order of names.
    pub metadata: Seq<McapMetadata>,
    /// Counters.
    pub stats: McapImportStats,
}

impl View for McapImportSummary {
    type V = SummaryView;

    closed spec fn view(&self) -> SummaryView {
        SummaryView {
            header: self.header,
            schemas: self.schemas@,
            channels: self.channels@,
            metadata: self.metadata@,
            stats: self.stats,
        }
    }
}

/// A summary respects its budgets and its channels reference defined schemas.
pub open spec fn summary_bounded(s: SummaryView, l: crate::record::mcap_import::limits::ImportLimitsView) -> bool {
    &&& s.stats.records <= l.records
    &&& s.stats.messages <= l.messages
    &&& s.stats.state_bytes <= l.state_bytes
    &&& s.stats.decoded_bytes <= l.decoded_bytes
    &&& s.stats.chunks <= s.stats.records
    &&& s.schemas.len() <= l.schemas
    &&& s.channels.len() <= l.channels
    &&& forall|id: u16| #[trigger] s.schemas.contains_key(id) ==> s.schemas[id].id == id && s.schemas[id].id != 0
    &&& forall|id: u16| #[trigger] s.channels.contains_key(id) ==> s.channels[id].id == id
        && (s.channels[id].schema_id == 0 || s.schemas.contains_key(s.channels[id].schema_id))
    &&& names_sorted(s.metadata)
}

/// Named metadata in strictly increasing byte order of names.
pub open spec fn names_sorted(ms: Seq<McapMetadata>) -> bool {
    forall|a: int, b: int|
        0 <= a < b < ms.len() ==> bytes_lt(#[trigger] key_bytes(ms[a].name@), #[trigger] key_bytes(ms[b].name@))
}

impl McapImportSummary {
    /// Producer profile/library, preserved without authentication claims.
    pub fn header(&self) -> (h: &McapHeader)
        ensures
            *h == self@.header,
    {
        &self.header
    }

    /// Full, immutable schema definitions.
    pub fn schemas(&self) -> (m: &BTreeMap<u16, McapSchema>)
        ensures
            m@ == self@.schemas,
    {
        &self.schemas
    }

    /// Full, immutable channel definitions.
    pub fn channels(&self) -> (m: &BTreeMap<u16, McapChannel>)
        ensures
            m@ == self@.channels,
    {
        &self.channels
    }

    /// Complete named metadata definitions, in byte order of their names.
    pub fn metadata(&self) -> (m: &[McapMetadata])
        ensures
            m@ == self@.metadata,
    {
        self.metadata.as_slice()
    }

    /// Executed budget counters.
    pub fn stats(&self) -> (s: &McapImportStats)
        ensures
            *s == self@.stats,
    {
        &self.stats
    }
}

struct State {
    limits: McapImportLimits,
    summary: McapImportSummary,
    started: bool,
    data_end: bool,
    finished: bool,
    statistics: bool,
    metadata_records: u64,
    per_channel: BTreeMap<u16, u64>,
    min_time: Option<u64>,
    max_time: Option<u64>,
    outer_offset: u64,
    summary_start: u64,
    offset_start: u64,
    summary_groups: Vec<(u8, u64, u64)>,
    offset_groups: Vec<u8>,
}

/// A step that ends without a refusal in state `s`.
pub open spec fn lands(st: Stepped, s: ImportView) -> bool {
    st.error is None && st.state == s
}

/// The plain values of a schema definition.
pub open spec fn schema_value(s: McapSchema) -> (Seq<char>, Seq<char>, Seq<u8>) {
    (s.name@, s.encoding@, s.data@)
}

/// The plain values of a channel definition.
pub open spec fn channel_value(c: McapChannel) -> (u16, Seq<char>, Seq<char>, Map<Seq<char>, Seq<char>>) {
    (c.schema_id, c.topic@, c.message_encoding@, entries_map(c.metadata.spec_entries()))
}

/// The position of the named metadata called `name`, if there is one.
pub open spec fn metadata_position(ms: Seq<McapMetadata>, name: Seq<char>) -> int {
    choose|i: int| 0 <= i < ms.len() && #[trigger] ms[i].name@ == name
}

/// Whether named metadata called `name` is defined.
pub open spec fn metadata_known(ms: Seq<McapMetadata>, name: Seq<char>) -> bool {
    exists|i: int| 0 <= i < ms.len() && #[trigger] ms[i].name@ == name
}

/// Named metadata as a map from name to entries.
pub open spec fn metadata_map(ms: Seq<McapMetadata>) -> Map<Seq<char>, Map<Seq<char>, Seq<char>>> {
    Map::new(
        |n: Seq<char>| metadata_known(ms, n),
        |n: Seq<char>| entries_map(ms[metadata_position(ms, n)].entries.spec_entries()),
    )
}

/// A summary holds the header, definitions and counters of an import state.
pub open spec fn summary_holds(s: SummaryView, v: ImportView) -> bool {
    &&& (s.header.profile@, s.header.library@) == v.header
    &&& s.schemas.map_values(|x: McapSchema| schema_value(x)) == v.schemas
    &&& s.channels.map_values(|x: McapChannel| channel_value(x)) == v.channels
    &&& metadata_map(s.metadata) == v.metadata
    &&& names_sorted(s.metadata)
    &&& s.stats == v.stats
}

/// Inserting new named metadata into sorted named metadata inserts it into
/// their map.
proof fn lemma_metadata_insert(ms: Seq<McapMetadata>, p: int, m: McapMetadata)
    requires
        0 <= p <= ms.len(),
        !metadata_known(ms, m.name@),
        forall|i: int, j: int| 0 <= i < ms.len() && 0 <= j < ms.len() && i != j ==> #[trigger] ms[i].name@ != #[trigger] ms[j].name@,
    ensures
        metadata_map(ms.insert(p, m)) == metadata_map(ms).insert(m.name@, entries_map(m.entries.spec_entries())),
{
    let post = ms.insert(p, m);
    let a = metadata_map(post);
    let b = metadata_map(ms).insert(m.name@, entries_map(m.entries.spec_entries()));
    assert forall|n: Seq<char>| a.contains_key(n) <==> b.contains_key(n) by {
        if a.contains_key(n) {
            let i = choose|i: int| 0 <= i < post.len() && #[trigger] post[i].name@ == n;
            if i < p {
                assert(post[i] == ms[i]);
            } else if i > p {
                assert(post[i] == ms[i - 1]);
            }
        }
        if b.contains_key(n) && n != m.name@ {
            let i = choose|i: int| 0 <= i < ms.len() && #[trigger] ms[i].name@ == n;
            if i < p {
                assert(post[i] == ms[i]);
            } else {
                assert(post[i + 1] == ms[i]);
            }
        }
        if n == m.name@ {
            assert(post[p] == m);
        }
    }
    assert forall|n: Seq<char>| a.contains_key(n) implies a[n] == b[n] by {
        let q = metadata_position(post, n);
        assert(0 <= q < post.len() && post[q].name@ == n);
        if n == m.name@ {
            if q != p {
                if q < p {
                    assert(post[q] == ms[q]);
                } else {
                    assert(post[q] == ms[q - 1]);
                }
            }
        } else {
            let q0 = if q < p { q } else { q - 1 };
            assert(q != p);
            assert(post[q] == ms[q0]);
            let r = metadata_position(ms, n);
            assert(0 <= r < ms.len() && ms[r].name@ == n);
            if r != q0 {
                assert(ms[r].name@ != ms[q0].name@);
            }
        }
    }
    assert(a =~= b);
}

impl State {
    spec fn view(&self) -> ImportView {
        ImportView {
            limits: self.limits@,
            header: (self.summary.header.profile@, self.summary.header.library@),
            schemas: self.summary.schemas@.map_values(|x: McapSchema| schema_value(x)),
            channels: self.summary.channels@.map_values(|x: McapChannel| channel_value(x)),
            metadata: metadata_map(self.summary.metadata@),
            stats: self.summary.stats,
            started: self.started,
            data_end: self.data_end,
            finished: self.finished,
            statistics: self.statistics,
            metadata_records: self.metadata_records,
            per_channel: self.per_channel@,
            min_time: self.min_time,
            max_time: self.max_time,
            outer_offset: self.outer_offset,
            summary_start: self.summary_start,
            offset_start: self.offset_start,
            summary_groups: self.summary_groups@,
            offset_groups: self.offset_groups@,
        }
    }

    spec fn wf(&self) -> bool {
        &&& import_limits_valid(self.limits@)
        &&& summary_bounded(self.summary@, self.limits@)
        &&& self.metadata_records <= self.summary.stats.records
        &&& forall|id: u16| #[trigger] self.per_channel@.contains_key(id) <==> self.summary.channels@.contains_key(id)
        &&& forall|id: u16| #[trigger] self.per_channel@.contains_key(id) ==> self.per_channel@[id] <= self.summary.stats.messages
        &&& forall|id: u16| #[trigger] self.summary.channels@.contains_key(id) ==> self.summary.channels@[id].metadata.wf()
        &&& forall|i: int| 0 <= i < self.summary.metadata@.len() ==> #[trigger] self.summary.metadata@[i].entries.wf()
        &&& forall|i: int, j: int| 0 <= i < self.summary.metadata@.len() && 0 <= j < self.summary.metadata@.len() && i != j
            ==> #[trigger] self.summary.metadata@[i].name@ != #[trigger] self.summary.metadata@[j].name@
    }

    fn charge(&mut self, n: u64) -> (r: Result<(), RecordError>)
        requires
            old(self).wf(),
        ensures
            final(self).wf(),
            final(self).limits == old(self).limits,
            match charged(old(self)@, n) {
                Err(e) => r == Err::<(), RecordError>(e) && *final(self) == *old(self),
                Ok(t) => r is Ok && final(self)@ == t,
            },
            final(self).limits == old(self).limits,
            final(self).summary.stats.records == old(self).summary.stats.records,
            final(self).summary.schemas@ == old(self).summary.schemas@,
            final(self).summary.channels@ == old(self).summary.channels@,
            final(self).summary.metadata@ == old(self).summary.metadata@,
            final(self).summary.header == old(self).summary.header,
            final(self).per_channel@ == old(self).per_channel@,
            final(self).summary.stats.messages == old(self).summary.stats.messages,
            final(self).summary.stats.chunks == old(self).summary.stats.chunks,
            final(self).metadata_records == old(self).metadata_records,
    {
        let limit = self.limits.state_bytes() as u64;
        crate::record::mcap_import::limits::add(&mut self.summary.stats.state_bytes, n, limit, "state bytes")
    }

    /// Define a schema, or accept an identical redefinition.
    fn define_schema<V: McapVisitor>(&mut self, schema: McapSchema, charge: u64, ordinal: u64, visit: &mut V) -> (r: Result<
        (),
        RecordError,
    >)
        requires
            old(self).wf(),
            old(visit).inv(),
        ensures
            final(self).wf(),
            final(self).limits == old(self).limits,
            final(visit).inv(),
        final(visit).budget() == old(visit).budget(),
            final(visit).logs() == old(visit).logs(),
            final(visit).budget() == old(visit).budget(),
            old(visit).logs() ==> ran(
                old(visit).visits(),
                final(visit).visits(),
                schema_step(old(self)@, charge, ordinal, schema.id, schema.name@, schema.encoding@, schema.data@),
                r,
            ),
            r is Ok ==> lands(schema_step(
                old(self)@,
                charge,
                ordinal,
                schema.id,
                schema.name@,
                schema.encoding@,
                schema.data@,
            ), final(self)@),
    {
        let ghost v0 = visit.visits();
        let ghost st = schema_step(self@, charge, ordinal, schema.id, schema.name@, schema.encoding@, schema.data@);
        proof {
            assert(self@.schemas.dom() =~= self.summary.schemas@.dom());
            assert(self@.channels.dom() =~= self.summary.channels@.dom());
        }
        proof {
            lemma_log_same(v0);
        }
        if schema.id == 0 {
            return Err(malformed("schema ID zero"));
        }
        if schema.encoding.as_str().is_empty() && schema.data.len() != 0 {
            proof {
                lemma_ran_none(v0, st);
            }
            return Err(malformed("empty schema encoding with data"));
        }
        match self.summary.schemas.get(&schema.id) {
            Some(old) => {
                proof {
                    lemma_ran_none(v0, st);
                }
                if !same_schema(old, &schema) {
                    return Err(malformed("conflicting schema definition"));
                }
            },
            None => {
                if self.data_end {
                    proof {
                        lemma_ran_none(v0, st);
                    }
                    return Err(malformed("new schema in summary"));
                }
                let limit = self.limits.schemas() as u64;
                if self.summary.schemas.len() as u64 + 1 > limit {
                    proof {
                        lemma_ran_none(v0, st);
                    }
                    return Err(RecordError::ImportLimit { kind: "schemas", limit });
                }
                let ghost before = *self;
                let c = self.charge(charge);
                if c.is_err() {
                    proof {
                        lemma_ran_none(v0, st);
                    }
                    return c;
                }
                let res = visit.visit(&McapEvent { kind: McapEventKind::Schema(&schema), ordinal, accounted_bytes: charge });
                proof {
                    if old(visit).logs() {
                        lemma_ran_one(v0, res, st);
                    }
                }
                if res.is_err() {
                    return res;
                }
                let id = schema.id;
                let ghost mid = self@;
                let ghost value = schema_value(schema);
                self.summary.schemas.insert(id, schema);
                proof {
                    assert(self@.schemas =~= mid.schemas.insert(id, value));
                    assert(self@ =~= st.state);
                }
            },
        }
        Ok(())
    }
}

impl State {
    /// Define a channel, or accept an identical redefinition.
    fn define_channel<V: McapVisitor>(&mut self, channel: McapChannel, charge: u64, ordinal: u64, visit: &mut V) -> (r: Result<
        (),
        RecordError,
    >)
        requires
            old(self).wf(),
            old(visit).inv(),
            channel.metadata.wf(),
        ensures
            final(self).wf(),
            final(self).limits == old(self).limits,
            final(visit).inv(),
        final(visit).budget() == old(visit).budget(),
            final(visit).logs() == old(visit).logs(),
            final(visit).budget() == old(visit).budget(),
            old(visit).logs() ==> ran(
                old(visit).visits(),
                final(visit).visits(),
                channel_step(
                    old(self)@,
                    charge,
                    ordinal,
                    channel.id,
                    channel.schema_id,
                    channel.topic@,
                    channel.message_encoding@,
                    entries_map(channel.metadata.spec_entries()),
                ),
                r,
            ),
            r is Ok ==> lands(channel_step(
                old(self)@,
                charge,
                ordinal,
                channel.id,
                channel.schema_id,
                channel.topic@,
                channel.message_encoding@,
                entries_map(channel.metadata.spec_entries()),
            ), final(self)@),
    {
        let ghost v0 = visit.visits();
        let ghost st = channel_step(
            self@,
            charge,
            ordinal,
            channel.id,
            channel.schema_id,
            channel.topic@,
            channel.message_encoding@,
            entries_map(channel.metadata.spec_entries()),
        );
        proof {
            assert(self@.schemas.dom() =~= self.summary.schemas@.dom());
            assert(self@.channels.dom() =~= self.summary.channels@.dom());
        }
        if channel.schema_id != 0 && !self.summary.schemas.contains_key(&channel.schema_id) {
            proof {
                lemma_ran_none(v0, st);
            }
            return Err(malformed("channel references missing schema"));
        }
        match self.summary.channels.get(&channel.id) {
            Some(old) => {
                proof {
                    if entries_map(old.metadata.spec_entries()) == entries_map(channel.metadata.spec_entries()) {
                        StringMap::lemma_same_content(&old.metadata, &channel.metadata);
                    }
                    lemma_ran_none(v0, st);
                }
                if !same_channel(old, &channel) {
                    return Err(malformed("conflicting channel definition"));
                }
            },
            None => {
                if self.data_end {
                    proof {
                        lemma_ran_none(v0, st);
                    }
                    return Err(malformed("new channel in summary"));
                }
                let limit = self.limits.channels() as u64;
                if self.summary.channels.len() as u64 + 1 > limit {
                    proof {
                        lemma_ran_none(v0, st);
                    }
                    return Err(RecordError::ImportLimit { kind: "channels", limit });
                }
                let c = self.charge(charge);
                if c.is_err() {
                    proof {
                        lemma_ran_none(v0, st);
                    }
                    return c;
                }
                let res = visit.visit(&McapEvent { kind: McapEventKind::Channel(&channel), ordinal, accounted_bytes: charge });
                proof {
                    if old(visit).logs() {
                        lemma_ran_one(v0, res, st);
                    }
                }
                if res.is_err() {
                    return res;
                }
                let id = channel.id;
                let ghost mid = self@;
                let ghost value = channel_value(channel);
                self.per_channel.insert(id, 0);
                self.summary.channels.insert(id, channel);
                proof {
                    assert(self@.channels =~= mid.channels.insert(id, value));
                    assert(self@.per_channel =~= mid.per_channel.insert(id, 0));
                    assert(self@ =~= st.state);
                }
            },
        }
        Ok(())
    }

    /// Count a message against its channel and hand it to the visitor.
    fn count_message<V: McapVisitor>(&mut self, message: McapMessageRef, charge: u64, ordinal: u64, visit: &mut V) -> (r:
        Result<(), RecordError>)
        requires
            old(self).wf(),
            old(visit).inv(),
        ensures
            final(self).wf(),
            final(self).limits == old(self).limits,
            final(visit).inv(),
        final(visit).budget() == old(visit).budget(),
            final(visit).logs() == old(visit).logs(),
            final(visit).budget() == old(visit).budget(),
            old(visit).logs() ==> ran(
                old(visit).visits(),
                final(visit).visits(),
                message_step(
                    old(self)@,
                    charge,
                    ordinal,
                    message.channel_id,
                    message.sequence,
                    message.log_time,
                    message.publish_time,
                    message.data@,
                ),
                r,
            ),
            r is Ok ==> lands(message_step(
                old(self)@,
                charge,
                ordinal,
                message.channel_id,
                message.sequence,
                message.log_time,
                message.publish_time,
                message.data@,
            ), final(self)@),
    {
        let ghost v0 = visit.visits();
        let ghost st = message_step(
            self@,
            charge,
            ordinal,
            message.channel_id,
            message.sequence,
            message.log_time,
            message.publish_time,
            message.data@,
        );
        let channel_id = message.channel_id;
        let log_time = message.log_time;
        let count = match self.per_channel.get(&channel_id) {
            Some(c) => *c,
            None => {
                proof {
                    lemma_ran_none(v0, st);
                }
                return Err(malformed("message references missing channel"));
            },
        };
        let limit = self.limits.messages();
        let a = crate::record::mcap_import::limits::add(&mut self.summary.stats.messages, 1, limit, "messages");
        if a.is_err() {
            proof {
                lemma_ran_none(v0, st);
            }
            return a;
        }
        self.per_channel.insert(channel_id, count + 1);
        self.min_time = Some(
            match self.min_time {
                Some(t) => if log_time < t { log_time } else { t },
                None => log_time,
            },
        );
        self.max_time = Some(
            match self.max_time {
                Some(t) => if log_time > t { log_time } else { t },
                None => log_time,
            },
        );
        proof {
            assert(self@ =~= st.state);
        }
        let res = visit.visit(&McapEvent { kind: McapEventKind::Message(message), ordinal, accounted_bytes: charge });
        proof {
            if old(visit).logs() {
                lemma_ran_one(v0, res, st);
            }
        }
        res
    }

    /// Define named metadata, or accept an identical redefinition; names stay
    /// in byte order.
    #[verifier::loop_isolation(false)]
    fn define_metadata<V: McapVisitor>(&mut self, metadata: McapMetadata, charge: u64, ordinal: u64, visit: &mut V) -> (r:
        Result<(), RecordError>)
        requires
            old(self).wf(),
            old(visit).inv(),
            old(self).metadata_records < old(self).summary.stats.records,
            metadata.entries.wf(),
        ensures
            final(self).wf(),
            final(self).limits == old(self).limits,
            final(visit).inv(),
        final(visit).budget() == old(visit).budget(),
            final(visit).logs() == old(visit).logs(),
            final(visit).budget() == old(visit).budget(),
            old(visit).logs() ==> ran(
                old(visit).visits(),
                final(visit).visits(),
                metadata_step(old(self)@, charge, ordinal, metadata.name@, entries_map(metadata.entries.spec_entries())),
                r,
            ),
            r is Ok ==> lands(metadata_step(
                old(self)@,
                charge,
                ordinal,
                metadata.name@,
                entries_map(metadata.entries.spec_entries()),
            ), final(self)@),
    {
        let ghost v0 = visit.visits();
        let ghost st = metadata_step(self@, charge, ordinal, metadata.name@, entries_map(metadata.entries.spec_entries()));
        self.metadata_records = self.metadata_records + 1;
        let mut i: usize = 0;
        while i < self.summary.metadata.len() && !str_equal(self.summary.metadata[i].name.as_str(), metadata.name.as_str())
            invariant
                i <= self.summary.metadata@.len(),
                forall|k: int| 0 <= k < i ==> #[trigger] self.summary.metadata@[k].name@ != metadata.name@,
            decreases self.summary.metadata@.len() - i,
        {
            i = i + 1;
        }
        if i < self.summary.metadata.len() {
            proof {
                let ms = self.summary.metadata@;
                assert(metadata_known(ms, metadata.name@));
                let q = metadata_position(ms, metadata.name@);
                if q != i {
                    assert(ms[q].name@ != ms[i as int].name@);
                }
                if entries_map(ms[i as int].entries.spec_entries()) == entries_map(metadata.entries.spec_entries()) {
                    StringMap::lemma_same_content(&ms[i as int].entries, &metadata.entries);
                }
                lemma_ran_none(v0, st);
                assert(self@ =~= st.state);
            }
            if !same_metadata(&self.summary.metadata[i], &metadata) {
                return Err(malformed("conflicting named metadata"));
            }
        } else {
            assert(!metadata_known(self.summary.metadata@, metadata.name@));
            let c = self.charge(charge);
            if c.is_err() {
                proof {
                    lemma_ran_none(v0, st);
                }
                return c;
            }
            let res = visit.visit(&McapEvent { kind: McapEventKind::Metadata(&metadata), ordinal, accounted_bytes: charge });
            proof {
                if old(visit).logs() {
                    lemma_ran_one(v0, res, st);
                }
            }
            if res.is_err() {
                return res;
            }
            let ghost ms = self.summary.metadata@;
            let ghost mid = self@;
            let mut p: usize = 0;
            while p < self.summary.metadata.len()
                && bytes_less(self.summary.metadata[p].name.as_str().as_bytes(), metadata.name.as_str().as_bytes())
                invariant
                    p <= self.summary.metadata@.len(),
                    forall|k: int| 0 <= k < p ==> bytes_lt(#[trigger] key_bytes(ms[k].name@), key_bytes(metadata.name@)),
                decreases self.summary.metadata@.len() - p,
            {
                p = p + 1;
            }
            proof {
                if p < ms.len() {
                    lemma_bytes_lt_total(key_bytes(ms[p as int].name@), key_bytes(metadata.name@));
                    if key_bytes(ms[p as int].name@) == key_bytes(metadata.name@) {
                        vstd::utf8::encode_utf8_decode_utf8(ms[p as int].name@);
                        vstd::utf8::encode_utf8_decode_utf8(metadata.name@);
                    }
                    assert(bytes_lt(key_bytes(metadata.name@), key_bytes(ms[p as int].name@)));
                }
                lemma_metadata_insert(ms, p as int, metadata);
            }
            self.summary.metadata.insert(p, metadata);
            proof {
                let post = self.summary.metadata@;
                assert(post == ms.insert(p as int, metadata));
                assert forall|a: int, b: int| 0 <= a < b < post.len() implies bytes_lt(
                    #[trigger] key_bytes(post[a].name@),
                    #[trigger] key_bytes(post[b].name@),
                ) by {
                    let i = p as int;
                    if b < i {
                        assert(post[a] == ms[a] && post[b] == ms[b]);
                    } else if b == i {
                        assert(post[a] == ms[a]);
                    } else if a == i {
                        assert(post[b] == ms[b - 1]);
                        if b > i + 1 {
                            assert(bytes_lt(key_bytes(ms[i].name@), key_bytes(ms[b - 1].name@)));
                            lemma_bytes_lt_transitive(key_bytes(metadata.name@), key_bytes(ms[i].name@), key_bytes(ms[b - 1].name@));
                        }
                    } else if a < i {
                        assert(post[a] == ms[a] && post[b] == ms[b - 1]);
                        if b > i + 1 {
                            assert(bytes_lt(key_bytes(ms[i].name@), key_bytes(ms[b - 1].name@)));
                            lemma_bytes_lt_transitive(key_bytes(metadata.name@), key_bytes(ms[i].name@), key_bytes(ms[b - 1].name@));
                        }
                        lemma_bytes_lt_transitive(key_bytes(ms[a].name@), key_bytes(metadata.name@), key_bytes(ms[b - 1].name@));
                    } else {
                        assert(post[a] == ms[a - 1] && post[b] == ms[b - 1]);
                    }
                }
                assert forall|a: int, b: int| 0 <= a < post.len() && 0 <= b < post.len() && a != b implies #[trigger] post[a].name@
                    != #[trigger] post[b].name@ by {
                    if a < b {
                        lemma_bytes_lt_irreflexive(key_bytes(post[a].name@));
                    } else {
                        lemma_bytes_lt_irreflexive(key_bytes(post[b].name@));
                    }
                }
                assert forall|k: int| 0 <= k < post.len() implies #[trigger] post[k].entries.wf() by {
                    if k != p {
                        let k0 = if k < p { k } else { k - 1 };
                        assert(post[k] == ms[k0]);
                    }
                }
                assert(self@ =~= st.state);
            }
        }
        Ok(())
    }
}

impl State {
    /// The checks every record passes before its kind is handled (see
    /// `entry`), and, for an outer record, its place in the file.
    #[verifier::loop_isolation(false)]
    fn enter<'a>(&mut self, op: u8, data: &'a [u8], inside: bool) -> (r: Result<(u64, McapRecord<'a>), RecordError>)
        requires
            old(self).wf(),
        ensures
            final(self).wf(),
            final(self).limits == old(self).limits,
            match entry(old(self)@, op, data@, inside) {
                Err(e) => r == Err::<(u64, McapRecord<'a>), RecordError>(e),
                Ok((t, charge, rec)) => r matches Ok((c, x)) && c == charge && record_view(x) == rec && final(self)@ == t,
            },
            r matches Ok((_, x)) ==> {
                &&& final(self).metadata_records < final(self).summary.stats.records
                &&& final(self).summary.stats.chunks < final(self).summary.stats.records
                &&& record_spec(op, data@) == Ok::<RecordSpec, RecordError>(record_view(x))
                &&& (x matches McapRecord::Channel(ch) ==> ch.metadata.wf())
                &&& (x matches McapRecord::Metadata(m) ==> m.entries.wf())
                &&& (x matches McapRecord::Message { data: payload, .. } ==> payload@ == data@.subrange(22, data@.len() as int))
            },
    {
        let limit_records = self.limits.records();
        crate::record::mcap_import::limits::add(&mut self.summary.stats.records, 1, limit_records, "records")?;
        let charge = preflight::validate(op, data, self.limits)?;
        if !self.started && op != 1 {
            return Err(malformed("header must be first"));
        }
        if inside && !(3 <= op && op <= 5) {
            return Err(RecordError::UnsupportedMcap("non-definition/message inside chunk"));
        }
        if self.finished {
            return Err(malformed("records after footer"));
        }
        let summary_op = op == 8 || op == 0x0b || op == 0x0d || op == 0x0e;
        if self.data_end && !((2 <= op && op <= 4) || summary_op) {
            return Err(malformed("data record after DataEnd"));
        }
        if !self.data_end && summary_op {
            return Err(malformed("summary record before DataEnd"));
        }
        let record = parse_record(op, data)?;
        let start = self.outer_offset;
        if !inside {
            let size: u64 = 9 + data.len() as u64;
            self.outer_offset = match start.checked_add(size) {
                Some(n) => n,
                None => return Err(malformed("record offset overflow")),
            };
            if self.data_end && op != 2 {
                if op == 0x0e {
                    if self.summary_start == 0 {
                        return Err(malformed("offsets without summary"));
                    }
                    if self.offset_start == 0 {
                        self.offset_start = start;
                    }
                } else {
                    if self.offset_start != 0 {
                        return Err(malformed("summary after offset section"));
                    }
                    if self.summary_start == 0 {
                        self.summary_start = start;
                    }
                    let mut g: usize = 0;
                    while g < self.summary_groups.len() && self.summary_groups[g].0 != op
                        invariant
                            g <= self.summary_groups@.len(),
                            forall|k: int| 0 <= k < g ==> self.summary_groups@[k].0 != op,
                        decreases self.summary_groups@.len() - g,
                    {
                        g = g + 1;
                    }
                    proof {
                        lemma_first_group(self.summary_groups@, op, g as int);
                    }
                    if g < self.summary_groups.len() {
                        if self.summary_groups[g].2 != start {
                            return Err(malformed("noncontiguous summary group"));
                        }
                        let first = self.summary_groups[g].1;
                        self.summary_groups.set(g, (op, first, self.outer_offset));
                    } else {
                        self.summary_groups.push((op, start, self.outer_offset));
                    }
                }
            }
        }
        proof {
            assert(self@ =~= entry(old(self)@, op, data@, inside)->Ok_0.0);
        }
        Ok((charge, record))
    }

    /// A header record.
    fn header<V: McapVisitor>(&mut self, h: McapHeader, charge: u64, ordinal: u64, visit: &mut V) -> (r: Result<(), RecordError>)
        requires
            old(self).wf(),
            old(visit).inv(),
        ensures
            final(self).wf(),
            final(self).limits == old(self).limits,
            final(visit).inv(),
        final(visit).budget() == old(visit).budget(),
            final(visit).logs() == old(visit).logs(),
            final(visit).budget() == old(visit).budget(),
            old(visit).logs() ==> ran(old(visit).visits(), final(visit).visits(), header_step(old(self)@, charge, ordinal, h.profile@, h.library@), r),
            r is Ok ==> lands(header_step(old(self)@, charge, ordinal, h.profile@, h.library@), final(self)@),
    {
        let ghost v0 = visit.visits();
        let ghost st = header_step(self@, charge, ordinal, h.profile@, h.library@);
        if self.started {
            proof {
                lemma_ran_none(v0, st);
            }
            return Err(malformed("repeated header"));
        }
        let c = self.charge(charge);
        if c.is_err() {
            proof {
                lemma_ran_none(v0, st);
            }
            return c;
        }
        self.started = true;
        self.summary.header = h;
        proof {
            assert(self@ =~= st.state);
        }
        let res = visit.visit(&McapEvent { kind: McapEventKind::Header(&self.summary.header), ordinal, accounted_bytes: charge });
        proof {
            if old(visit).logs() {
                lemma_ran_one(v0, res, st);
            }
        }
        res
    }

    /// The per-channel counts of a statistics record whose totals agree.
    #[verifier::loop_isolation(false)]
    fn counts<V: McapVisitor>(
        &mut self,
        op: u8,
        data: &[u8],
        charge: u64,
        ordinal: u64,
        channel_message_counts: Vec<(u16, u64)>,
        visit: &mut V,
    ) -> (r: Result<(), RecordError>)
        requires
            old(self).wf(),
            old(visit).inv(),
        ensures
            final(self).wf(),
            final(self).limits == old(self).limits,
            final(visit).inv(),
        final(visit).budget() == old(visit).budget(),
            final(visit).logs() == old(visit).logs(),
            final(visit).budget() == old(visit).budget(),
            old(visit).logs() ==> ran(old(visit).visits(), final(visit).visits(), counts_step(old(self)@, op, data@, charge, ordinal, channel_message_counts@), r),
            r is Ok ==> lands(counts_step(old(self)@, op, data@, charge, ordinal, channel_message_counts@), final(self)@),
    {
        let ghost v0 = visit.visits();
        let ghost st = counts_step(self@, op, data@, charge, ordinal, channel_message_counts@);
        let mut k: usize = 0;
        while k < channel_message_counts.len()
            invariant
                k <= channel_message_counts@.len(),
                forall|j: int| 0 <= j < k ==> self.per_channel@.contains_key(#[trigger] channel_message_counts@[j].0)
                    && self.per_channel@[channel_message_counts@[j].0] == channel_message_counts@[j].1,
            decreases channel_message_counts@.len() - k,
        {
            let (id, count) = channel_message_counts[k];
            match self.per_channel.get(&id) {
                Some(c) => {
                    if *c != count {
                        proof {
                            assert(!(self.per_channel@.contains_key(channel_message_counts@[k as int].0)
                                && self.per_channel@[channel_message_counts@[k as int].0] == channel_message_counts@[k as int].1));
                            lemma_ran_none(v0, st);
                        }
                        return Err(malformed("channel statistics mismatch"));
                    }
                },
                None => {
                    proof {
                        assert(!self.per_channel@.contains_key(channel_message_counts@[k as int].0));
                        lemma_ran_none(v0, st);
                    }
                    return Err(malformed("channel statistics mismatch"));
                },
            }
            k = k + 1;
        }
        self.statistics = true;
        proof {
            assert(self@ =~= st.state);
        }
        let res = visit.visit(&McapEvent { kind: McapEventKind::Auxiliary { opcode: op, data }, ordinal, accounted_bytes: charge });
        proof {
            if old(visit).logs() {
                lemma_ran_one(v0, res, st);
            }
        }
        res
    }

    /// A summary-offset record.
    #[verifier::loop_isolation(false)]
    fn summary_offset<V: McapVisitor>(
        &mut self,
        op: u8,
        data: &[u8],
        charge: u64,
        ordinal: u64,
        group_opcode: u8,
        group_start: u64,
        group_length: u64,
        visit: &mut V,
    ) -> (r: Result<(), RecordError>)
        requires
            old(self).wf(),
            old(visit).inv(),
        ensures
            final(self).wf(),
            final(self).limits == old(self).limits,
            final(visit).inv(),
        final(visit).budget() == old(visit).budget(),
            final(visit).logs() == old(visit).logs(),
            final(visit).budget() == old(visit).budget(),
            old(visit).logs() ==> ran(
                old(visit).visits(),
                final(visit).visits(),
                summary_offset_step(old(self)@, op, data@, charge, ordinal, group_opcode, group_start, group_length),
                r,
            ),
            r is Ok ==> lands(summary_offset_step(
                old(self)@,
                op,
                data@,
                charge,
                ordinal,
                group_opcode,
                group_start,
                group_length,
            ), final(self)@),
    {
        let ghost v0 = visit.visits();
        let ghost st = summary_offset_step(self@, op, data@, charge, ordinal, group_opcode, group_start, group_length);
        let end = match group_start.checked_add(group_length) {
            Some(e) => e,
            None => {
                proof {
                    lemma_ran_none(v0, st);
                }
                return Err(malformed("summary group offset overflow"));
            },
        };
        let mut g: usize = 0;
        while g < self.summary_groups.len() && self.summary_groups[g].0 != group_opcode
            invariant
                g <= self.summary_groups@.len(),
                forall|k: int| 0 <= k < g ==> self.summary_groups@[k].0 != group_opcode,
            decreases self.summary_groups@.len() - g,
        {
            g = g + 1;
        }
        proof {
            lemma_first_group(self.summary_groups@, group_opcode, g as int);
        }
        let known = g < self.summary_groups.len();
        let mut starts_group = group_start == self.offset_start;
        let mut s: usize = 0;
        while s < self.summary_groups.len()
            invariant
                s <= self.summary_groups@.len(),
                starts_group == (group_start == self.offset_start || exists|k: int|
                    0 <= k < s && #[trigger] self.summary_groups@[k].1 == group_start),
            decreases self.summary_groups@.len() - s,
        {
            if self.summary_groups[s].1 == group_start {
                starts_group = true;
            }
            s = s + 1;
        }
        let summarizable = group_opcode == 3 || group_opcode == 4 || group_opcode == 8 || group_opcode == 0x0a
            || group_opcode == 0x0b || group_opcode == 0x0d;
        let empty = group_length == 0 && summarizable && !known && starts_group;
        let matches_group = known && self.summary_groups[g].1 == group_start && self.summary_groups[g].2 == end;
        let mut seen = false;
        let mut o: usize = 0;
        while o < self.offset_groups.len()
            invariant
                o <= self.offset_groups@.len(),
                seen == (exists|k: int| 0 <= k < o && #[trigger] self.offset_groups@[k] == group_opcode),
            decreases self.offset_groups@.len() - o,
        {
            if self.offset_groups[o] == group_opcode {
                seen = true;
            }
            o = o + 1;
        }
        proof {
            if seen {
                let k = choose|k: int| 0 <= k < o && #[trigger] self.offset_groups@[k] == group_opcode;
                assert(self.offset_groups@.contains(group_opcode));
            }
        }
        if (!empty && !matches_group) || seen {
            proof {
                lemma_ran_none(v0, st);
            }
            return Err(malformed("summary offset disagrees with group"));
        }
        self.offset_groups.push(group_opcode);
        proof {
            assert(self@ =~= st.state);
        }
        let res = visit.visit(&McapEvent { kind: McapEventKind::Auxiliary { opcode: op, data }, ordinal, accounted_bytes: charge });
        proof {
            if old(visit).logs() {
                lemma_ran_one(v0, res, st);
            }
        }
        res

    }

    /// Handle a record other than a chunk, past `entry`.
    #[verifier::loop_isolation(false)]
    fn kind<'a, V: McapVisitor>(&mut self, op: u8, data: &'a [u8], charge: u64, record: McapRecord<'a>, visit: &mut V) -> (r:
        Result<(), RecordError>)
        requires
            old(self).wf(),
            old(visit).inv(),
            old(self).metadata_records < old(self).summary.stats.records,
            record_spec(op, data@) == Ok::<RecordSpec, RecordError>(record_view(record)),
            record matches McapRecord::Channel(ch) ==> ch.metadata.wf(),
            record matches McapRecord::Metadata(m) ==> m.entries.wf(),
        ensures
            final(self).wf(),
            final(self).limits == old(self).limits,
            final(visit).inv(),
        final(visit).budget() == old(visit).budget(),
            final(visit).logs() == old(visit).logs(),
            final(visit).budget() == old(visit).budget(),
            old(visit).logs() ==> ran(old(visit).visits(), final(visit).visits(), kind_step(old(self)@, op, data@, charge, record_view(record)), r),
            r is Ok ==> lands(kind_step(old(self)@, op, data@, charge, record_view(record)), final(self)@),
    {
        let ghost v0 = visit.visits();
        let ghost st = kind_step(self@, op, data@, charge, record_view(record));
        proof {
            assert(self@.schemas.dom() =~= self.summary.schemas@.dom());
            assert(self@.channels.dom() =~= self.summary.channels@.dom());
        }
        let ordinal = self.summary.stats.records;
        match record {
            McapRecord::Header(h) => self.header(h, charge, ordinal, visit),
            McapRecord::Schema(schema) => self.define_schema(schema, charge, ordinal, visit),
            McapRecord::Channel(channel) => self.define_channel(channel, charge, ordinal, visit),
            McapRecord::Message { channel_id, sequence, log_time, publish_time, data: payload } => {
                let message = McapMessageRef { channel_id, sequence, log_time, publish_time, data: payload };
                self.count_message(message, charge, ordinal, visit)
            },
            McapRecord::Metadata(metadata) => self.define_metadata(metadata, charge, ordinal, visit),
            McapRecord::Chunk { .. } => {
                proof {
                    lemma_ran_none(v0, st);
                }
                Ok(())
            },
            McapRecord::DataEnd { .. } => {
                proof {
                    lemma_ran_none(v0, st);
                }
                if self.data_end {
                    return Err(malformed("repeated DataEnd"));
                }
                self.data_end = true;
                proof {
                    assert(self@ =~= st.state);
                }
                Ok(())
            },
            McapRecord::Footer { summary_start, summary_offset_start, .. } => {
                proof {
                    lemma_ran_none(v0, st);
                }
                if !self.data_end {
                    return Err(malformed("missing DataEnd"));
                }
                if summary_start != self.summary_start || summary_offset_start != self.offset_start {
                    return Err(malformed("footer section offsets disagree with file"));
                }
                self.finished = true;
                proof {
                    assert(self@ =~= st.state);
                }
                Ok(())
            },
            McapRecord::Statistics {
                message_count,
                schema_count,
                channel_count,
                attachment_count,
                metadata_count,
                chunk_count,
                message_start_time,
                message_end_time,
                channel_message_counts,
            } => {
                let lo = match self.min_time { Some(v) => v, None => 0 };
                let hi = match self.max_time { Some(v) => v, None => 0 };
                if self.statistics || message_count != self.summary.stats.messages
                    || schema_count as usize != self.summary.schemas.len()
                    || channel_count as usize != self.summary.channels.len() || attachment_count != 0
                    || metadata_count as u64 != self.metadata_records || chunk_count as u64 != self.summary.stats.chunks
                    || message_start_time != lo || message_end_time != hi {
                    proof {
                        lemma_ran_none(v0, st);
                    }
                    return Err(malformed("statistics disagree with observed data"));
                }
                self.counts(op, data, charge, ordinal, channel_message_counts, visit)
            },
            McapRecord::SummaryOffset { group_opcode, group_start, group_length } => self.summary_offset(
                op,
                data,
                charge,
                ordinal,
                group_opcode,
                group_start,
                group_length,
                visit,
            ),
            McapRecord::MessageIndex | McapRecord::ChunkIndex | McapRecord::MetadataIndex => {
                let res = visit.visit(&McapEvent { kind: McapEventKind::Auxiliary { opcode: op, data }, ordinal, accounted_bytes: charge });
                proof {
                    if old(visit).logs() {
                        lemma_ran_one(v0, res, st);
                    }
                }
                res
            },
        }
    }

    /// A definition or message record inside a chunk.
    fn inner_record<V: McapVisitor>(&mut self, op: u8, data: &[u8], visit: &mut V) -> (r: Result<(), RecordError>)
        requires
            old(self).wf(),
            old(visit).inv(),
        ensures
            final(self).wf(),
            final(self).limits == old(self).limits,
            final(visit).inv(),
        final(visit).budget() == old(visit).budget(),
            final(visit).logs() == old(visit).logs(),
            final(visit).budget() == old(visit).budget(),
            old(visit).logs() ==> ran(old(visit).visits(), final(visit).visits(), inner_step(old(self)@, op, data@), r),
            r is Ok ==> lands(inner_step(old(self)@, op, data@), final(self)@),
    {
        proof {
            reveal(inner_step);
        }
        let ghost v0 = visit.visits();
        let (charge, record) = match self.enter(op, data, true) {
            Ok(x) => x,
            Err(e) => {
                proof {
                    lemma_ran_none(v0, inner_step(old(self)@, op, data@));
                }
                return Err(e);
            },
        };
        self.kind(op, data, charge, record, visit)
    }
}

impl State {
    /// A chunk record, past `entry`: decode and check its records, then
    /// handle them in order.
    #[verifier::loop_isolation(false)]
    fn chunk<V: McapVisitor>(
        &mut self,
        start: u64,
        end: u64,
        size: u64,
        crc: u32,
        compression: String,
        body: &[u8],
        visit: &mut V,
    ) -> (r: Result<(), RecordError>)
        requires
            old(self).wf(),
            old(visit).inv(),
            old(self).summary.stats.chunks < old(self).summary.stats.records,
        ensures
            final(self).wf(),
            final(self).limits == old(self).limits,
            final(visit).inv(),
        final(visit).budget() == old(visit).budget(),
            final(visit).logs() == old(visit).logs(),
            final(visit).budget() == old(visit).budget(),
            old(visit).logs() ==> ran(old(visit).visits(), final(visit).visits(), chunk_step(old(self)@, start, end, size, crc, compression@, body@), r),
            r is Ok ==> lands(chunk_step(old(self)@, start, end, size, crc, compression@, body@), final(self)@),
    {
        let ghost v0 = visit.visits();
        let ghost st = chunk_step(self@, start, end, size, crc, compression@, body@);
        proof {
            lemma_log_same(v0);
        }
        let limit_chunk = self.limits.chunk_bytes() as u64;
        if size > limit_chunk {
            return Err(RecordError::ImportLimit { kind: "decoded chunk bytes", limit: limit_chunk });
        }
        let limit_decoded = self.limits.decoded_bytes();
        crate::record::mcap_import::limits::add(&mut self.summary.stats.decoded_bytes, size, limit_decoded, "decoded bytes")?;
        self.summary.stats.chunks = self.summary.stats.chunks + 1;
        let decoded: Vec<u8>;
        let bytes: &[u8] = if compression.as_str().is_empty() {
            if body.len() as u64 != size {
                return Err(malformed("uncompressed chunk length mismatch"));
            }
            body
        } else if str_equal(compression.as_str(), "lz4") {
            decoded = chunk::decode(body, size as usize)?;
            decoded.as_slice()
        } else {
            return Err(RecordError::UnsupportedMcap("compression: only uncompressed and LZ4 are enabled"));
        };
        proof {
            reveal_strlit("lz4");
            assert(chunk_bytes(compression@, body@, size) == Ok::<Seq<u8>, RecordError>(bytes@));
        }
        if bytes.len() > self.summary.stats.largest_chunk_bytes {
            self.summary.stats.largest_chunk_bytes = bytes.len();
        }
        if crc != 0 && crc32_of(bytes) != crc {
            return Err(malformed("chunk CRC mismatch"));
        }
        let ghost s2 = self@;
        let (min, max) = match scan(bytes, self.limits) {
            Ok(x) => x,
            Err(e) => {
                return Err(e);
            },
        };
        let lo = match min { Some(v) => v, None => 0 };
        let hi = match max { Some(v) => v, None => 0 };
        if lo != start || hi != end {
            return Err(malformed("chunk message-time bounds mismatch"));
        }
        self.replay(bytes, visit)
    }

    /// The decoded records of a chunk, handled in order.
    #[verifier::loop_isolation(false)]
    #[verifier::rlimit(100)]
    #[verifier::spinoff_prover]
    fn replay<V: McapVisitor>(&mut self, bytes: &[u8], visit: &mut V) -> (r: Result<(), RecordError>)
        requires
            old(self).wf(),
            old(visit).inv(),
        ensures
            final(self).wf(),
            final(self).limits == old(self).limits,
            final(visit).inv(),
        final(visit).budget() == old(visit).budget(),
            final(visit).logs() == old(visit).logs(),
            final(visit).budget() == old(visit).budget(),
            old(visit).logs() ==> ran(old(visit).visits(), final(visit).visits(), chunk_replay(old(self)@, bytes@, 0), r),
            r is Ok ==> lands(chunk_replay(old(self)@, bytes@, 0), final(self)@),
    {
        let ghost v0 = visit.visits();
        let ghost s2 = self@;
        let ghost st = chunk_replay(s2, bytes@, 0);
        proof {
            lemma_log_same(v0);
        }
        let mut cursor = Cursor::new(bytes);
        let ghost mut acc = quiet(s2);
        proof {
            lemma_then_quiet(s2, chunk_replay(s2, bytes@, 0));
        }
        while cursor.remaining() > 0
            invariant
                cursor_wf(cursor@),
                cursor@.0 == bytes@,
                self.wf(),
                self.limits == old(self).limits,
                visit.inv(),
            visit.budget() == old(visit).budget(),
            visit.logs() == old(visit).logs(),
                visit.budget() == old(visit).budget(),
            visit.logs() == old(visit).logs(),
                visit.logs() == old(visit).logs(),
                old(visit).logs() ==> ran(v0, visit.visits(), acc, Ok(())),
                acc.error is None,
                acc.state == self@,
                st == then(acc, chunk_replay(self@, bytes@, cursor@.1)),
            decreases bytes@.len() - cursor@.1,
        {
            let ghost p = cursor@.1;
            let ghost here = self@;
            let ghost v1 = visit.visits();
            let op_inner = cursor.take(1)?[0];
            let n = match cursor.u64() {
                Ok(n) => n,
                Err(e) => {
                    proof {
                        lemma_ran_none(v1, refused(here, e));
                        if old(visit).logs() {
                            lemma_ran_then(v0, v1, v1, acc, refused(here, e), Err(e));
                        }
                    }
                    return Err(e);
                },
            };
            if n > cursor.remaining() as u64 {
                proof {
                    let e = RecordError::Mcap("field extends past record");
                    lemma_ran_none(v1, refused(here, e));
                    if old(visit).logs() {
                        lemma_ran_then(v0, v1, v1, acc, refused(here, e), Err(e));
                    }
                }
                return Err(malformed("field extends past record"));
            }
            let inner = cursor.take(n as usize)?;
            if !(3 <= op_inner && op_inner <= 5) {
                proof {
                    let e = RecordError::UnsupportedMcap("non-definition/message inside chunk");
                    lemma_ran_none(v1, refused(here, e));
                    if old(visit).logs() {
                        lemma_ran_then(v0, v1, v1, acc, refused(here, e), Err(e));
                    }
                }
                return Err(RecordError::UnsupportedMcap("non-definition/message inside chunk"));
            }
            proof {
                assert(inner@ == bytes@.subrange(p + 9, p + 9 + n));
            }
            let res = self.inner_record(op_inner, inner, visit);
            proof {
                let one = inner_step(here, op_inner, inner@);
                if old(visit).logs() {
                    lemma_ran_then(v0, v1, visit.visits(), acc, one, res);
                }
                if one.error is None {
                    lemma_then_assoc(acc, one, chunk_replay(one.state, bytes@, cursor@.1));
                    if res is Err {
                        lemma_then_prefix(acc, one, chunk_replay(one.state, bytes@, cursor@.1));
                        if old(visit).logs() {
                            lemma_ran_refusal(
                                v0,
                                visit.visits(),
                                then(acc, one),
                                then(acc, then(one, chunk_replay(one.state, bytes@, cursor@.1))),
                                res,
                            );
                        }
                    }
                }
            }
            if res.is_err() {
                return res;
            }
            proof {
                acc = then(acc, inner_step(here, op_inner, inner@));
            }
        }
        proof {
            if old(visit).logs() {
                lemma_quiet_after(v0, visit.visits(), acc, self@);
            }
        }
        Ok(())
    }
}

/// Check the layout of a chunk's decoded records and gather the log times
/// of their messages.
#[verifier::loop_isolation(false)]
fn scan(bytes: &[u8], limits: McapImportLimits) -> (r: Result<(Option<u64>, Option<u64>), RecordError>)
    requires
        import_limits_valid(limits@),
    ensures
        r == chunk_scan(bytes@, 0, limits@, None, None),
{
    let mut cursor = Cursor::new(bytes);
    let mut min: Option<u64> = None;
    let mut max: Option<u64> = None;
    while cursor.remaining() > 0
        invariant
            cursor_wf(cursor@),
            cursor@.0 == bytes@,
            import_limits_valid(limits@),
            chunk_scan(bytes@, 0, limits@, None, None) == chunk_scan(bytes@, cursor@.1, limits@, min, max),
        decreases bytes@.len() - cursor@.1,
    {
        let ghost p = cursor@.1;
        let op_inner = cursor.take(1)?[0];
        let n = cursor.u64()?;
        check(n, limits.record_bytes() as u64, "record bytes")?;
        let inner = cursor.take(n as usize)?;
        if !(3 <= op_inner && op_inner <= 5) {
            return Err(RecordError::UnsupportedMcap("non-definition/message inside chunk"));
        }
        proof {
            assert(inner@ == bytes@.subrange(p + 9, p + 9 + n));
        }
        preflight::validate(op_inner, inner, limits)?;
        if op_inner == 5 {
            if inner.len() < 14 {
                return Err(malformed("message record too short"));
            }
            let time = u64_from_le_bytes(slice_subrange(inner, 6, 14));
            min = Some(
                match min {
                    Some(v) => if time < v { time } else { v },
                    None => time,
                },
            );
            max = Some(
                match max {
                    Some(v) => if time > v { time } else { v },
                    None => time,
                },
            );
        }
    }
    Ok((min, max))
}

impl State {
    /// An outer record.
    fn record<V: McapVisitor>(&mut self, op: u8, data: &[u8], visit: &mut V) -> (r: Result<(), RecordError>)
        requires
            old(self).wf(),
            old(visit).inv(),
        ensures
            final(self).wf(),
            final(self).limits == old(self).limits,
            final(visit).inv(),
        final(visit).budget() == old(visit).budget(),
            final(visit).logs() == old(visit).logs(),
            final(visit).budget() == old(visit).budget(),
            old(visit).logs() ==> ran(old(visit).visits(), final(visit).visits(), outer_step(old(self)@, op, data@), r),
            r is Ok ==> lands(outer_step(old(self)@, op, data@), final(self)@),
    {
        proof {
            reveal(outer_step);
        }
        let ghost v0 = visit.visits();
        let (charge, record) = match self.enter(op, data, false) {
            Ok(x) => x,
            Err(e) => {
                proof {
                    lemma_ran_none(v0, outer_step(old(self)@, op, data@));
                }
                return Err(e);
            },
        };
        match record {
            McapRecord::Chunk { message_start_time, message_end_time, uncompressed_size, uncompressed_crc, compression, data: body } => {
                self.chunk(message_start_time, message_end_time, uncompressed_size, uncompressed_crc, compression, body, visit)
            },
            _ => self.kind(op, data, charge, record, visit),
        }
    }
}

/// The import state before the first record of `s`.
pub open spec fn initial(s: Seq<u8>, l: ImportLimitsView) -> ImportView {
    ImportView {
        limits: l,
        header: (Seq::empty(), Seq::empty()),
        schemas: Map::empty(),
        channels: Map::empty(),
        metadata: Map::empty(),
        stats: McapImportStats {
            input_bytes: s.len() as u64,
            records: 0,
            messages: 0,
            chunks: 0,
            decoded_bytes: 0,
            state_bytes: 0,
            read_buffer_bytes: s.len() as usize,
            largest_chunk_bytes: 0,
        },
        started: false,
        data_end: false,
        finished: false,
        statistics: false,
        metadata_records: 0,
        per_channel: Map::empty(),
        min_time: None,
        max_time: None,
        outer_offset: 8,
        summary_start: 0,
        offset_start: 0,
        summary_groups: Seq::empty(),
        offset_groups: Seq::empty(),
    }
}

/// The checksum refusal of the outer record at `pos`, ending at `end`: a
/// nonzero `DataEnd` CRC that is not that of every byte before the record, or
/// a nonzero footer summary CRC that is not that of the bytes from `q` (the
/// end of `DataEnd`) through the footer's own offsets.
pub open spec fn checksum_error(s: Seq<u8>, pos: int, end: int, op: u8, q: Option<int>) -> Option<RecordError> {
    let n = end - pos - 9;
    if op == 0x0f && n >= 4 && le_u32_at(s, pos + 9) != 0 && crc32(s.subrange(0, pos)) != le_u32_at(s, pos + 9) {
        Some(RecordError::Mcap("data section CRC mismatch"))
    } else if op == 0x02 && n >= 20 && q is Some && le_u32_at(s, pos + 25) != 0 && crc32(s.subrange(q->0, pos + 25))
        != le_u32_at(s, pos + 25) {
        Some(RecordError::Mcap("summary section CRC mismatch"))
    } else {
        None
    }
}

/// The outer records of `s` from `pos` on, handled in order, then the end
/// magic; `q` is where the summary section starts, once `DataEnd` was read.
pub open spec fn run(s: Seq<u8>, st: ImportView, pos: int, q: Option<int>) -> Stepped
    decreases s.len() - pos,
{
    if st.finished {
        if pos < 0 || s.len() - pos != 8 || s.subrange(pos, pos + 8) != magic_seq() {
            refused(st, RecordError::Mcap("end magic missing or followed by data"))
        } else {
            quiet(st)
        }
    } else if pos < 0 || pos >= s.len() {
        refused(st, RecordError::Mcap("incomplete MCAP"))
    } else if s.len() - pos < 9 {
        refused(st, RecordError::Mcap("truncated MCAP record"))
    } else {
        let n = spec_u64_from_le_bytes(s.subrange(pos + 1, pos + 9)) as int;
        if n > st.limits.record_bytes {
            refused(st, RecordError::ImportLimit { kind: "record bytes", limit: st.limits.record_bytes as u64 })
        } else if n > s.len() - pos - 9 {
            refused(st, RecordError::Mcap("truncated MCAP record"))
        } else {
            let end = pos + 9 + n;
            match checksum_error(s, pos, end, s[pos], q) {
                Some(e) => refused(st, e),
                None => {
                    let a = outer_step(st, s[pos], s.subrange(pos + 9, end));
                    if a.error is Some {
                        a
                    } else {
                        then(a, run(s, a.state, end, if s[pos] == 0x0f { Some(end) } else { q }))
                    }
                },
            }
        }
    }
}

/// Importing `s` under budgets `l` when the visitor accepts every event: the
/// state at the end, the events handed out in order, and the refusal, if any.
#[verifier::opaque]
pub open spec fn import_run(s: Seq<u8>, l: ImportLimitsView) -> Stepped {
    if s.len() > l.input_bytes {
        refused(initial(s, l), RecordError::ImportLimit { kind: "input bytes", limit: l.input_bytes })
    } else if s.len() < 8 || s.subrange(0, 8) != magic_seq() {
        refused(initial(s, l), RecordError::Mcap("bad MCAP magic"))
    } else {
        run(s, initial(s, l), 8, None)
    }
}

/// Whether `s` is one complete MCAP file that this import supports, within
/// the budgets `l`.
pub open spec fn accepted_file(s: Seq<u8>, l: ImportLimitsView) -> bool {
    import_run(s, l).error is None
}

/// The events that importing `s` hands out, in order, when every one is
/// accepted (up to the refusal, for a file that is not accepted).
pub open spec fn events_of(s: Seq<u8>, l: ImportLimitsView) -> Seq<Handed> {
    import_run(s, l).events
}

/// A result without its value.
pub open spec fn unit_of<T>(r: Result<T, RecordError>) -> Result<(), RecordError> {
    match r {
        Ok(_) => Ok(()),
        Err(e) => Err(e),
    }
}

/// A summary position as an integer.
spec fn opt_int(o: Option<usize>) -> Option<int> {
    match o {
        Some(x) => Some(x as int),
        None => None,
    }
}
fn magic_at(input: &[u8], pos: usize) -> (b: bool)
    requires
        pos + 8 <= input@.len(),
    ensures
        b == (input@.subrange(pos as int, pos + 8) == magic_seq()),
{
    let ok = input[pos] == 0x89 && input[pos + 1] == 0x4d && input[pos + 2] == 0x43 && input[pos + 3] == 0x41
        && input[pos + 4] == 0x50 && input[pos + 5] == 0x30 && input[pos + 6] == 0x0d && input[pos + 7] == 0x0a;
    assert(ok ==> input@.subrange(pos as int, pos + 8) =~= magic_seq());
    assert(input@.subrange(pos as int, pos + 8) == magic_seq() ==> input@.subrange(pos as int, pos + 8)[0] == 0x89u8);
    ok
}

/// Check the CRCs of a `DataEnd` record (over every byte before it) and of
/// a footer (over the summary section, from the end of `DataEnd`), each when
/// nonzero.

/// Check the CRCs of a `DataEnd` record (over every byte before it) and of
/// a footer (over the summary section, from the end of `DataEnd`), each when
/// nonzero.
fn check_checksums(input: &[u8], pos: usize, end: usize, op: u8, summary_section: Option<usize>) -> (r: Result<
    (),
    RecordError,
>)
    requires
        pos + 9 <= end <= input@.len(),
        summary_section matches Some(q) ==> q <= pos,
    ensures
        r == match checksum_error(input@, pos as int, end as int, op, opt_int(summary_section)) {
            Some(e) => Err::<(), RecordError>(e),
            None => Ok(()),
        },
{
    let n = end - pos - 9;
    if op == 0x0f && n >= 4 {
        let crc = u32_from_le_bytes(slice_subrange(input, pos + 9, pos + 13));
        if crc != 0 && crc32_of(slice_subrange(input, 0, pos)) != crc {
            return Err(malformed("data section CRC mismatch"));
        }
    }
    if op == 0x02 && n >= 20 {
        if let Some(q) = summary_section {
            let crc = u32_from_le_bytes(slice_subrange(input, pos + 25, pos + 29));
            if crc != 0 && crc32_of(slice_subrange(input, q, pos + 25)) != crc {
                return Err(malformed("summary section CRC mismatch"));
            }
        }
    }
    Ok(())
}

/// Stream one complete MCAP file through a synchronous visitor under
/// validated budgets; the whole input is supplied as one buffer. A visitor
/// that keeps a log is handed the events of `events_of(input, limits)` in
/// order, until it refuses one; when it accepts every event it is handed, it
/// is handed them all and the import succeeds exactly for an accepted file.
/// The summary holds the definitions and counters read.
pub fn import_mcap<V: McapVisitor>(input: &[u8], limits: McapImportLimits, visit: &mut V) -> (r: Result<
    McapImportSummary,
    RecordError,
>)
    requires
        import_limits_valid(limits@),
        old(visit).inv(),
    ensures
        final(visit).inv(),
        final(visit).budget() == old(visit).budget(),
        final(visit).logs() == old(visit).logs(),
        old(visit).logs() ==> ran(old(visit).visits(), final(visit).visits(), import_run(input@, limits@), unit_of(r)),
        old(visit).logs() && (forall|i: int|
            old(visit).visits().len() <= i < final(visit).visits().len() ==> (#[trigger] final(visit).visits()[i]).1 is Ok)
            ==> {
            &&& (r is Ok <==> accepted_file(input@, limits@))
            &&& final(visit).visits().skip(old(visit).visits().len() as int).map_values(
                |x: (Handed, Result<(), RecordError>)| x.0,
            ) == events_of(input@, limits@)
        },
        r matches Ok(s) ==> summary_holds(s@, import_run(input@, limits@).state) && summary_bounded(s@, limits@),
{
    let ghost v0 = visit.visits();
    let r = import_stream(input, limits, visit);
    proof {
        if old(visit).logs() && forall|i: int| v0.len() <= i < visit.visits().len() ==> (#[trigger] visit.visits()[i]).1 is Ok {
            accepting_visitor_sees_all(v0, visit.visits(), import_run(input@, limits@), unit_of(r));
        }
    }
    r
}

/// The import loop: every outer record in turn, then the end magic.
#[verifier::loop_isolation(false)]
#[verifier::rlimit(100)]
#[verifier::spinoff_prover]
fn import_stream<V: McapVisitor>(input: &[u8], limits: McapImportLimits, visit: &mut V) -> (r: Result<
    McapImportSummary,
    RecordError,
>)
    requires
        import_limits_valid(limits@),
        old(visit).inv(),
    ensures
        final(visit).inv(),
        final(visit).budget() == old(visit).budget(),
            final(visit).logs() == old(visit).logs(),
        old(visit).logs() ==> ran(old(visit).visits(), final(visit).visits(), import_run(input@, limits@), unit_of(r)),
        r matches Ok(s) ==> summary_holds(s@, import_run(input@, limits@).state) && summary_bounded(s@, limits@),
{
    proof {
        reveal(import_run);
    }
    let ghost v0 = visit.visits();
    proof {
        lemma_log_same(v0);
    }
    if input.len() as u64 > limits.input_bytes() {
        return Err(RecordError::ImportLimit { kind: "input bytes", limit: limits.input_bytes() });
    }
    if input.len() < 8 || !magic_at(input, 0) {
        return Err(RecordError::Mcap("bad MCAP magic"));
    }
    let mut stats = McapImportStats::zero();
    stats.input_bytes = input.len() as u64;
    stats.read_buffer_bytes = input.len();
    let mut state = State {
        limits,
        summary: McapImportSummary {
            header: McapHeader { profile: String::new(), library: String::new() },
            schemas: BTreeMap::new(),
            channels: BTreeMap::new(),
            metadata: Vec::new(),
            stats,
        },
        started: false,
        data_end: false,
        finished: false,
        statistics: false,
        metadata_records: 0,
        per_channel: BTreeMap::new(),
        min_time: None,
        max_time: None,
        outer_offset: 8,
        summary_start: 0,
        offset_start: 0,
        summary_groups: Vec::new(),
        offset_groups: Vec::new(),
    };
    proof {
        assert(state@.schemas =~= Map::empty());
        assert(state@.channels =~= Map::empty());
        assert(state@.metadata =~= Map::empty());
        assert(state@.per_channel =~= Map::empty());
        assert(state@ =~= initial(input@, limits@));
        lemma_then_quiet(state@, run(input@, state@, 8, None));
    }
    let mut pos: usize = 8;
    let mut summary_section: Option<usize> = None;
    let ghost mut acc = quiet(state@);
    while !state.finished
        invariant
            state.wf(),
            state.limits == limits,
            visit.inv(),
            visit.budget() == old(visit).budget(),
            visit.logs() == old(visit).logs(),
            8 <= pos <= input@.len(),
            summary_section matches Some(q) ==> q <= pos,
            old(visit).logs() ==> ran(v0, visit.visits(), acc, Ok(())),
            acc.error is None,
            acc.state == state@,
            import_run(input@, limits@) == then(acc, run(input@, state@, pos as int, opt_int(summary_section))),
        decreases input@.len() - pos,
    {
        let ghost v1 = visit.visits();
        let ghost here = state@;
        let ghost rest = run(input@, here, pos as int, opt_int(summary_section));
        proof {
            lemma_log_same(v1);
        }
        if pos == input.len() {
            proof {
                if old(visit).logs() {
                    lemma_ran_stop(v0, v1, acc, here, RecordError::Mcap("incomplete MCAP"));
                }
            }
            return Err(malformed("incomplete MCAP"));
        }
        if input.len() - pos < 9 {
            proof {
                if old(visit).logs() {
                    lemma_ran_stop(v0, v1, acc, here, RecordError::Mcap("truncated MCAP record"));
                }
            }
            return Err(malformed("truncated MCAP record"));
        }
        let op = input[pos];
        let n = u64_from_le_bytes(slice_subrange(input, pos + 1, pos + 9));
        if n > limits.record_bytes() as u64 {
            proof {
                if old(visit).logs() {
                    lemma_ran_stop(
                        v0,
                        v1,
                        acc,
                        here,
                        RecordError::ImportLimit { kind: "record bytes", limit: limits@.record_bytes as u64 },
                    );
                }
            }
            return Err(RecordError::ImportLimit { kind: "record bytes", limit: limits.record_bytes() as u64 });
        }
        let n = n as usize;
        if n > input.len() - pos - 9 {
            proof {
                if old(visit).logs() {
                    lemma_ran_stop(v0, v1, acc, here, RecordError::Mcap("truncated MCAP record"));
                }
            }
            return Err(malformed("truncated MCAP record"));
        }
        let end = pos + 9 + n;
        let body = slice_subrange(input, pos + 9, end);
        match check_checksums(input, pos, end, op, summary_section) {
            Err(e) => {
                proof {
                    if old(visit).logs() {
                        lemma_ran_stop(v0, v1, acc, here, e);
                    }
                }
                return Err(e);
            },
            Ok(()) => {},
        }
        let res = state.record(op, body, visit);
        proof {
            let a = outer_step(here, op, body@);
            if old(visit).logs() {
                lemma_ran_then(v0, v1, visit.visits(), acc, a, res);
            }
            if a.error is None {
                let q2 = if op == 0x0f { Some(end as int) } else { opt_int(summary_section) };
                lemma_then_assoc(acc, a, run(input@, a.state, end as int, q2));
                if res is Err {
                    lemma_then_prefix(acc, a, run(input@, a.state, end as int, q2));
                    if old(visit).logs() {
                        lemma_ran_refusal(v0, visit.visits(), then(acc, a), then(acc, then(a, run(input@, a.state, end as int, q2))), res);
                    }
                }
            }
        }
        match res {
            Err(e) => {
                return Err(e);
            },
            Ok(()) => {},
        }
        proof {
            acc = then(acc, outer_step(here, op, body@));
        }
        if op == 0x0f {
            summary_section = Some(end);
        }
        pos = end;
    }
    if input.len() - pos != 8 || !magic_at(input, pos) {
        proof {
            if old(visit).logs() {
                lemma_ran_stop(v0, visit.visits(), acc, state@, RecordError::Mcap("end magic missing or followed by data"));
            }
        }
        return Err(malformed("end magic missing or followed by data"));
    }
    proof {
        if old(visit).logs() {
            lemma_quiet_after(v0, visit.visits(), acc, state@);
        }
    }
    Ok(state.summary)
}

/// Accepted events of a log whose every entry was accepted are its events.
proof fn lemma_all_accepted(log: Seq<(Handed, Result<(), RecordError>)>)
    requires
        forall|i: int| 0 <= i < log.len() ==> (#[trigger] log[i]).1 is Ok,
    ensures
        accepted_events(log) == log.map_values(|x: (Handed, Result<(), RecordError>)| x.0),
    decreases log.len(),
{
    if log.len() > 0 {
        let d = log.drop_last();
        assert forall|i: int| 0 <= i < d.len() implies (#[trigger] d[i]).1 is Ok by {
            assert(d[i] == log[i]);
        }
        lemma_all_accepted(d);
        assert(log[log.len() - 1].1 is Ok);
        assert(log.map_values(|x: (Handed, Result<(), RecordError>)| x.0) =~= d.map_values(
            |x: (Handed, Result<(), RecordError>)| x.0,
        ).push(log.last().0));
    }
}

/// Charges grow with the events charged.
proof fn lemma_total_prefix(evs: Seq<Handed>, k: int)
    requires
        0 <= k <= evs.len(),
    ensures
        accounted_total(evs.take(k)) <= accounted_total(evs),
    decreases evs.len(),
{
    if k < evs.len() {
        assert(evs.drop_last().take(k) =~= evs.take(k));
        lemma_total_prefix(evs.drop_last(), k);
    } else {
        assert(evs.take(k) =~= evs);
    }
}

/// A collector that accepted every event it was handed kept them all, and
/// the step's own result stands.
proof fn lemma_collected_all(log: Seq<(Handed, Result<(), RecordError>)>, st: Stepped, r: Result<(), RecordError>)
    requires
        ran(Seq::empty(), log, st, r),
        forall|i: int| 0 <= i < log.len() ==> (#[trigger] log[i]).1 is Ok,
    ensures
        accepted_events(log) == st.events,
        match st.error {
            Some(e) => r == Err::<(), RecordError>(e),
            None => r is Ok,
        },
{
    assert(log.skip(0) =~= log);
    accepting_visitor_sees_all(Seq::empty(), log, st, r);
    lemma_all_accepted(log);
}

/// A collector that refused an event was handed more than its limit, and
/// its refusal is the result.
#[verifier::rlimit(100)]
#[verifier::spinoff_prover]
proof fn lemma_collected_refused(log: Seq<(Handed, Result<(), RecordError>)>, st: Stepped, r: Result<(), RecordError>, limit: u64, j: int)
    requires
        ran(Seq::empty(), log, st, r),
        0 <= j < log.len(),
        log[j].1 is Err,
        forall|i: int|
            0 <= i < log.len() ==> collector_answers(
                accounted_total(accepted_events(log.take(i))),
                (#[trigger] log[i]).0.accounted,
                limit,
                log[i].1,
            ),
    ensures
        accounted_total(st.events) > limit,
        r == Err::<(), RecordError>(RecordError::ImportLimit { kind: "retained bytes", limit }),
{
    let new = log.skip(0);
    assert(new =~= log);
    let k = log.len() - 1;
    if j < k {
        assert(new[j] == log[j]);
    }
    assert(j == k);
    assert(new.last() == log[k]);
    let pre = log.take(k);
    assert forall|i: int| 0 <= i < pre.len() implies (#[trigger] pre[i]).1 is Ok by {
        assert(pre[i] == new[i]);
    }
    lemma_all_accepted(pre);
    assert(pre.map_values(|x: (Handed, Result<(), RecordError>)| x.0) =~= st.events.take(k)) by {
        assert forall|i: int| 0 <= i < k implies pre[i].0 == st.events[i] by {
            assert(new[i] == log[i]);
        }
    }
    assert(new[k].0 == st.events[k]);
    assert(st.events.take(k + 1).drop_last() =~= st.events.take(k));
    assert(st.events.take(k + 1).last() == st.events[k]);
    lemma_total_prefix(st.events, k + 1);
}

/// The events of a log that the visitor accepted, in order.
pub open spec fn accepted_events(log: Seq<(Handed, Result<(), RecordError>)>) -> Seq<Handed>
    decreases log.len(),
{
    if log.len() == 0 {
        Seq::empty()
    } else if log.last().1 is Ok {
        accepted_events(log.drop_last()).push(log.last().0)
    } else {
        accepted_events(log.drop_last())
    }
}

/// The retained-storage charges of events, summed.
pub open spec fn accounted_total(evs: Seq<Handed>) -> int
    decreases evs.len(),
{
    if evs.len() == 0 {
        0
    } else {
        accounted_total(evs.drop_last()) + evs.last().accounted
    }
}

/// The messages among events, in order: channel, sequence, log time,
/// publish time and payload.
pub open spec fn messages_of(evs: Seq<Handed>) -> Seq<(u16, u32, u64, u64, Seq<u8>)>
    decreases evs.len(),
{
    if evs.len() == 0 {
        Seq::empty()
    } else {
        let rest = messages_of(evs.drop_last());
        match evs.last().kind {
            EventKind::Message(c, s, l, p, d) => rest.push((c, s, l, p, d)),
            _ => rest,
        }
    }
}

/// The index, statistics and summary-offset records among events, in order:
/// opcode, ordinal and body.
pub open spec fn auxiliary_of(evs: Seq<Handed>) -> Seq<(u8, u64, Seq<u8>)>
    decreases evs.len(),
{
    if evs.len() == 0 {
        Seq::empty()
    } else {
        let rest = auxiliary_of(evs.drop_last());
        match evs.last().kind {
            EventKind::Auxiliary(op, d) => rest.push((op, evs.last().ordinal, d)),
            _ => rest,
        }
    }
}

/// The plain values of a retained message.
pub open spec fn message_value(m: McapMessage) -> (u16, u32, u64, u64, Seq<u8>) {
    (m.channel_id, m.sequence, m.log_time, m.publish_time, m.data@)
}

/// The plain values of a retained index or statistics record.
pub open spec fn auxiliary_value(a: McapAuxiliary) -> (u8, u64, Seq<u8>) {
    (a.opcode, a.ordinal, a.data@)
}

/// The collector's answer to an event of charge `accounted` after retaining
/// `retained` bytes: accepted while the total stays within `limit`.
pub open spec fn collector_answers(retained: int, accounted: u64, limit: u64, answer: Result<(), RecordError>) -> bool {
    if retained + accounted <= limit {
        answer is Ok
    } else {
        answer == Err::<(), RecordError>(RecordError::ImportLimit { kind: "retained bytes", limit })
    }
}

struct Collector {
    messages: Vec<McapMessage>,
    auxiliary: Vec<McapAuxiliary>,
    retained: u64,
    limit: u64,
    log: Ghost<Seq<(Handed, Result<(), RecordError>)>>,
}

impl McapVisitor for Collector {
    closed spec fn visits(&self) -> Seq<(Handed, Result<(), RecordError>)> {
        self.log@
    }

    /// The collector keeps what it accepted, and accepted each event exactly
    /// while the retained total stayed within its limit.
    closed spec fn logs(&self) -> bool {
        true
    }

    closed spec fn budget(&self) -> int {
        self.limit as int
    }

    closed spec fn inv(&self) -> bool {
        let kept = accepted_events(self.log@);
        &&& self.retained == accounted_total(kept)
        &&& self.retained <= self.limit
        &&& self.messages@.map_values(|m: McapMessage| message_value(m)) == messages_of(kept)
        &&& self.auxiliary@.map_values(|a: McapAuxiliary| auxiliary_value(a)) == auxiliary_of(kept)
        &&& forall|i: int|
            0 <= i < self.log@.len() ==> collector_answers(
                accounted_total(accepted_events(self.log@.take(i))),
                (#[trigger] self.log@[i]).0.accounted,
                self.limit,
                self.log@[i].1,
            )
    }

    /// Charge the event's accounted bytes to the retained budget, then keep
    /// a copy of each message and of each index/statistics record.
    fn visit(&mut self, event: &McapEvent) -> (r: Result<(), RecordError>) {
        let ghost h = handed(*event);
        let ghost log0 = self.log@;
        let ghost m0 = self.messages@;
        let ghost a0 = self.auxiliary@;
        let r = crate::record::mcap_import::limits::add(&mut self.retained, event.accounted_bytes, self.limit, "retained bytes");
        if r.is_ok() {
            match &event.kind {
                McapEventKind::Message(m) => {
                    self.messages.push(
                        McapMessage {
                            channel_id: m.channel_id,
                            sequence: m.sequence,
                            log_time: m.log_time,
                            publish_time: m.publish_time,
                            data: copy_bytes(m.data),
                        },
                    );
                },
                McapEventKind::Auxiliary { opcode, data } => {
                    self.auxiliary.push(McapAuxiliary { opcode: *opcode, ordinal: event.ordinal, data: copy_bytes(data) });
                },
                _ => {},
            }
        }
        proof {
            self.log = Ghost(log0.push((h, r)));
            let log1 = self.log@;
            assert(log1.drop_last() =~= log0);
            assert forall|i: int| 0 <= i < log1.len() implies collector_answers(
                accounted_total(accepted_events(log1.take(i))),
                (#[trigger] log1[i]).0.accounted,
                self.limit,
                log1[i].1,
            ) by {
                if i < log0.len() {
                    assert(log1.take(i) =~= log0.take(i));
                    assert(log1[i] == log0[i]);
                } else {
                    assert(log1.take(i) =~= log0);
                }
            }
            let kept0 = accepted_events(log0);
            if r is Ok {
                assert(accepted_events(log1) == kept0.push(h));
                assert(kept0.push(h).drop_last() =~= kept0);
                assert(self.messages@.map_values(|m: McapMessage| message_value(m)) =~= messages_of(kept0.push(h)));
                assert(self.auxiliary@.map_values(|a: McapAuxiliary| auxiliary_value(a)) =~= auxiliary_of(kept0.push(h)));
            } else {
                assert(accepted_events(log1) == kept0);
            }
        }
        r
    }
}

/// A bounded materialization preserving both timestamps and opaque encodings.
#[derive(Debug, Clone)]
pub struct McapArchive {
    summary: McapImportSummary,
    messages: Vec<McapMessage>,
    auxiliary: Vec<McapAuxiliary>,
    retained_bytes: u64,
}

/// The abstract content of an archive.
pub struct ArchiveView {
    /// The import summary.
    pub summary: SummaryView,
    /// Messages in file order.
    pub messages: Seq<McapMessage>,
    /// Retained index and statistics records.
    pub auxiliary: Seq<McapAuxiliary>,
    /// Accounted retained bytes.
    pub retained_bytes: u64,
}

impl View for McapArchive {
    type V = ArchiveView;

    closed spec fn view(&self) -> ArchiveView {
        ArchiveView {
            summary: self.summary@,
            messages: self.messages@,
            auxiliary: self.auxiliary@,
            retained_bytes: self.retained_bytes,
        }
    }
}

impl McapArchive {
    /// Materialize within the validated budget. Failure returns no partial
    /// archive. Every event of the import is charged to the retained budget;
    /// the archive keeps the messages, in file order, and the index and
    /// statistics records.
    #[verifier::rlimit(100)]
    #[verifier::spinoff_prover]
    pub fn from_reader(input: &[u8], limits: McapImportLimits) -> (r: Result<Self, RecordError>)
        requires
            import_limits_valid(limits@),
        ensures
            ({
                let st = import_run(input@, limits@);
                &&& accounted_total(st.events) > limits@.retained_bytes ==> r == Err::<Self, RecordError>(
                    RecordError::ImportLimit { kind: "retained bytes", limit: limits@.retained_bytes as u64 },
                )
                &&& accounted_total(st.events) <= limits@.retained_bytes ==> match st.error {
                    Some(e) => r == Err::<Self, RecordError>(e),
                    None => r is Ok,
                }
                &&& r matches Ok(a) ==> {
                    &&& summary_holds(a@.summary, st.state)
                    &&& summary_bounded(a@.summary, limits@)
                    &&& a@.messages.map_values(|m: McapMessage| message_value(m)) == messages_of(st.events)
                    &&& a@.auxiliary.map_values(|x: McapAuxiliary| auxiliary_value(x)) == auxiliary_of(st.events)
                    &&& a@.retained_bytes == accounted_total(st.events)
                }
            }),
    {
        let mut collector = Collector {
            messages: Vec::new(),
            auxiliary: Vec::new(),
            retained: 0,
            limit: limits.retained_bytes() as u64,
            log: Ghost(Seq::empty()),
        };
        proof {
            assert(collector.messages@.map_values(|m: McapMessage| message_value(m)) =~= Seq::empty());
            assert(collector.auxiliary@.map_values(|a: McapAuxiliary| auxiliary_value(a)) =~= Seq::empty());
        }
        let result = import_stream(input, limits, &mut collector);
        proof {
            let log = collector.log@;
            let st = import_run(input@, limits@);
            assert(collector.limit == limits@.retained_bytes as u64);
            if forall|i: int| 0 <= i < log.len() ==> (#[trigger] log[i]).1 is Ok {
                lemma_collected_all(log, st, unit_of(result));
            } else {
                let j = choose|j: int| 0 <= j < log.len() && !((#[trigger] log[j]).1 is Ok);
                lemma_collected_refused(log, st, unit_of(result), collector.limit, j);
            }
        }
        let summary = match result {
            Ok(s) => s,
            Err(e) => return Err(e),
        };
        Ok(McapArchive {
            summary,
            messages: collector.messages,
            auxiliary: collector.auxiliary,
            retained_bytes: collector.retained,
        })
    }

    /// Header, definitions, metadata and successful import counters.
    pub fn summary(&self) -> (s: &McapImportSummary)
        ensures
            s@ == self@.summary,
    {
        &self.summary
    }

    /// All messages in file order, including original publishing/logging times.
    pub fn messages(&self) -> (m: &[McapMessage])
        ensures
            m@ == self@.messages,
    {
        self.messages.as_slice()
    }

    /// Preserved index/statistics bodies; no index target correctness is claimed.
    pub fn auxiliary(&self) -> (a: &[McapAuxiliary])
        ensures
            a@ == self@.auxiliary,
    {
        self.auxiliary.as_slice()
    }

    /// Accounted retained bytes, including object/node allowances.
    pub fn retained_bytes(&self) -> (n: u64)
        ensures
            n == self@.retained_bytes,
    {
        self.retained_bytes
    }
}

} // verus!
