//! Bounded direct uncompressed MCAP output: the admission state of a stream.
//!
//! The maintained MCAP writer performs the byte output; this state decides,
//! before anything reaches it, whether a definition or message fits the policy.
//! Every operation first asks the state (`schema`, `channel`, `metadata`,
//! `message`). An admitted operation is handed to the outside writer, and its
//! outcome is reported back: `confirm` on success, `reject` on failure.
//! Definitions precede use. Payloads are never retained. The finalization
//! (data end, statistics, footer and closing magic) is reserved from the start,
//! so the final file never exceeds the output budget. Every returned error
//! latches failure; a failed stream never recovers.
pub mod legacy;
pub mod limits;

use crate::record::error::RecordError;
use crate::record::mcap_import::model::{McapChannel, McapHeader, McapMessageRef, McapMetadata, McapSchema};
use crate::record::mcap_import::same::{metadata_key, same_metadata};
use crate::record::mcap_write::limits::{
    channel_size, header_size, metadata_size, schema_size, spec_charge, write_limits_valid, McapWriteLimits,
    WriteLimitsView,
};
use crate::text::str_equal;
use vstd::prelude::*;

verus! {

/// Successful admission counters; partial bytes from failed sink calls are not included.
#[derive(Debug, Clone, Copy, PartialEq, Eq)]
pub struct McapWriteStats {
    /// Header/magic and completed data record bytes, excluding reserved finalization.
    pub accepted_bytes: u64,
    /// Completed records, excluding three reserved finalization records.
    pub records: u64,
    /// Completed messages.
    pub messages: u64,
    /// Unique schema IDs.
    pub schemas: usize,
    /// Unique channel IDs.
    pub channels: usize,
    /// Unique metadata names.
    pub metadata: usize,
    /// Conservative definition and finalization storage charge, excluding caller sink.
    pub state_bytes: u64,
}

impl Default for McapWriteStats {
    fn default() -> (s: Self)
        ensures
            s == (McapWriteStats {
                accepted_bytes: 0,
                records: 0,
                messages: 0,
                schemas: 0,
                channels: 0,
                metadata: 0,
                state_bytes: 0,
            }),
    {
        McapWriteStats { accepted_bytes: 0, records: 0, messages: 0, schemas: 0, channels: 0, metadata: 0, state_bytes: 0 }
    }
}

/// What the caller does with its MCAP writer after an admitted operation.
#[derive(Debug, Clone, Copy, PartialEq, Eq)]
pub enum McapWriteAction {
    /// Hand the definition or message to the MCAP writer, then report the outcome.
    Write,
    /// An identical definition was already written: write nothing.
    Skip,
}

/// An admitted operation awaiting the outcome of its write.
pub enum PendingView {
    /// Nothing awaits confirmation.
    Idle,
    /// A repeated definition: the writer normalizes or refuses it; counters stay.
    Repeat,
    /// A new schema.
    Schema { id: u16, body: u64, charge: u64 },
    /// A new channel.
    Channel { id: u16, body: u64, charge: u64 },
    /// New named metadata.
    Metadata { name: Seq<char>, entries: Seq<(Seq<char>, Seq<char>)>, body: u64, charge: u64 },
    /// A message, with the number of channels that have messages once it is written.
    Message { channel_id: u16, body: u64, active: usize },
}

enum Pending {
    Idle,
    Repeat,
    Schema { id: u16, body: u64, charge: u64 },
    Channel { id: u16, body: u64, charge: u64 },
    Metadata { metadata: McapMetadata, body: u64, charge: u64 },
    Message { channel_id: u16, body: u64, active: usize },
}

impl View for Pending {
    type V = PendingView;

    closed spec fn view(&self) -> PendingView {
        match self {
            Pending::Idle => PendingView::Idle,
            Pending::Repeat => PendingView::Repeat,
            Pending::Schema { id, body, charge } => PendingView::Schema { id: *id, body: *body, charge: *charge },
            Pending::Channel { id, body, charge } => PendingView::Channel { id: *id, body: *body, charge: *charge },
            Pending::Metadata { metadata, body, charge } => PendingView::Metadata {
                name: metadata.name@,
                entries: metadata.entries.spec_entries(),
                body: *body,
                charge: *charge,
            },
            Pending::Message { channel_id, body, active } => PendingView::Message {
                channel_id: *channel_id,
                body: *body,
                active: *active,
            },
        }
    }
}

/// The abstract state of a stream.
pub struct WriterView {
    /// The policy.
    pub limits: WriteLimitsView,
    /// Admission counters.
    pub stats: McapWriteStats,
    /// Written schema IDs, in definition order.
    pub schemas: Seq<u16>,
    /// Written channel IDs, each with whether a message was written on it.
    pub channels: Seq<(u16, bool)>,
    /// Written named metadata.
    pub metadata: Seq<(Seq<char>, Seq<(Seq<char>, Seq<char>)>)>,
    /// Channels with at least one message: statistics map entries.
    pub active: usize,
    /// Whether an operation failed.
    pub failed: bool,
    /// The admitted operation awaiting its outcome.
    pub pending: PendingView,
}

/// Admission state of a bounded uncompressed MCAP stream.
pub struct McapStreamWriter {
    limits: McapWriteLimits,
    stats: McapWriteStats,
    schemas: Vec<u16>,
    channels: Vec<(u16, bool)>,
    metadata: Vec<McapMetadata>,
    active_channels: usize,
    failed: bool,
    pending: Pending,
}

impl View for McapStreamWriter {
    type V = WriterView;

    closed spec fn view(&self) -> WriterView {
        WriterView {
            limits: self.limits@,
            stats: self.stats,
            schemas: self.schemas@,
            channels: self.channels@,
            metadata: self.metadata@.map_values(|m: McapMetadata| metadata_key(m)),
            active: self.active_channels,
            failed: self.failed,
            pending: self.pending@,
        }
    }
}

/// The error of an exceeded inclusive budget.
pub open spec fn limit_err(kind: &'static str, limit: u64) -> RecordError {
    RecordError::WriteLimit { kind, limit }
}

/// Bytes of the reserved finalization with `active` statistics map entries:
/// data end (13), statistics (55 + 10 per entry), footer (29) and magic (8).
pub open spec fn tail_bytes(active: int) -> int {
    105 + 10 * active
}

/// Whether a record of `body` bytes with storage `charge`, leaving `active`
/// statistics entries, still fits every budget once finalization is added.
pub open spec fn reserve_result(v: WriterView, body: int, charge: int, active: int) -> Result<(), RecordError> {
    let l = v.limits;
    if body > l.record_bytes {
        Err(limit_err("record bytes", l.record_bytes as u64))
    } else if 46 + 10 * active > l.record_bytes {
        Err(limit_err("statistics record bytes", l.record_bytes as u64))
    } else if v.stats.accepted_bytes + 9 + body + tail_bytes(active) > l.output_bytes {
        Err(limit_err("output bytes", l.output_bytes))
    } else if v.stats.records + 4 > l.records {
        Err(limit_err("records", l.records))
    } else if v.stats.state_bytes + charge > l.state_bytes {
        Err(limit_err("state bytes", l.state_bytes as u64))
    } else {
        Ok(())
    }
}

/// Whether a channel ID was written.
pub open spec fn channel_known(v: WriterView, id: u16) -> bool {
    exists|i: int| 0 <= i < v.channels.len() && v.channels[i].0 == id
}

/// Whether a message was written on a channel.
pub open spec fn channel_used(v: WriterView, id: u16) -> bool {
    exists|i: int| 0 <= i < v.channels.len() && v.channels[i].0 == id && v.channels[i].1
}

/// Whether metadata of a name was written.
pub open spec fn metadata_named(v: WriterView, name: Seq<char>) -> bool {
    exists|i: int| 0 <= i < v.metadata.len() && v.metadata[i].0 == name
}

/// The decision on a schema definition.
pub open spec fn schema_plan(v: WriterView, s: McapSchema) -> Result<PendingView, RecordError> {
    match schema_size(s, v.limits) {
        Err(e) => Err(e),
        Ok(body) => if body > v.limits.record_bytes {
            Err(limit_err("record bytes", v.limits.record_bytes as u64))
        } else if v.schemas.contains(s.id) {
            Ok(PendingView::Repeat)
        } else if v.schemas.len() + 1 > v.limits.schemas {
            Err(limit_err("schemas", v.limits.schemas as u64))
        } else {
            match reserve_result(v, body as int, spec_charge(body, 0), v.active as int) {
                Err(e) => Err(e),
                Ok(_) => Ok(PendingView::Schema { id: s.id, body, charge: spec_charge(body, 0) as u64 }),
            }
        },
    }
}

/// The decision on a channel definition.
pub open spec fn channel_plan(v: WriterView, c: McapChannel) -> Result<PendingView, RecordError> {
    let n = c.metadata.spec_entries().len() as usize;
    match channel_size(c, v.limits) {
        Err(e) => Err(e),
        Ok(body) => if body > v.limits.record_bytes {
            Err(limit_err("record bytes", v.limits.record_bytes as u64))
        } else if c.schema_id != 0 && !v.schemas.contains(c.schema_id) {
            Err(RecordError::InvalidMcapWrite("missing schema"))
        } else if channel_known(v, c.id) {
            Ok(PendingView::Repeat)
        } else if v.channels.len() + 1 > v.limits.channels {
            Err(limit_err("channels", v.limits.channels as u64))
        } else {
            match reserve_result(v, body as int, spec_charge(body, n), v.active as int) {
                Err(e) => Err(e),
                Ok(_) => Ok(PendingView::Channel { id: c.id, body, charge: spec_charge(body, n) as u64 }),
            }
        },
    }
}

/// The decision on named metadata: an identical repeat needs no write.
pub open spec fn metadata_plan(v: WriterView, m: McapMetadata) -> Result<PendingView, RecordError> {
    let n = m.entries.spec_entries().len() as usize;
    match metadata_size(m, v.limits) {
        Err(e) => Err(e),
        Ok(body) => if body > v.limits.record_bytes {
            Err(limit_err("record bytes", v.limits.record_bytes as u64))
        } else if metadata_named(v, m.name@) {
            if v.metadata.contains(metadata_key(m)) {
                Ok(PendingView::Idle)
            } else {
                Err(RecordError::InvalidMcapWrite("conflicting metadata"))
            }
        } else if v.metadata.len() + 1 > v.limits.metadata {
            Err(limit_err("metadata names", v.limits.metadata as u64))
        } else {
            match reserve_result(v, body as int, spec_charge(body, n), v.active as int) {
                Err(e) => Err(e),
                Ok(_) => Ok(PendingView::Metadata {
                    name: m.name@,
                    entries: m.entries.spec_entries(),
                    body,
                    charge: spec_charge(body, n) as u64,
                }),
            }
        },
    }
}

/// The decision on a message.
pub open spec fn message_plan(v: WriterView, channel_id: u16, len: nat) -> Result<PendingView, RecordError> {
    let active = if channel_used(v, channel_id) { v.active as int } else { v.active + 1 };
    if !channel_known(v, channel_id) {
        Err(RecordError::InvalidMcapWrite("missing channel"))
    } else if len > v.limits.message_bytes {
        Err(limit_err("message bytes", v.limits.message_bytes as u64))
    } else if v.stats.messages + 1 > v.limits.messages {
        Err(limit_err("messages", v.limits.messages))
    } else if active > v.limits.entries {
        Err(limit_err("statistics map entries", v.limits.entries as u64))
    } else {
        match reserve_result(v, (22 + len) as int, 0, active) {
            Err(e) => Err(e),
            Ok(_) => Ok(PendingView::Message { channel_id, body: (22 + len) as u64, active: active as usize }),
        }
    }
}

/// The outcome of asking a stream to admit an operation with a decision.
pub open spec fn admission(v: WriterView, plan: Result<PendingView, RecordError>) -> (Result<McapWriteAction, RecordError>, WriterView) {
    if v.failed {
        (Err(RecordError::McapWriterFailed), v)
    } else {
        match plan {
            Err(e) => (Err(e), WriterView { failed: true, pending: PendingView::Idle, ..v }),
            Ok(p) => (
                Ok(if p is Idle { McapWriteAction::Skip } else { McapWriteAction::Write }),
                WriterView { pending: p, ..v },
            ),
        }
    }
}

/// Counters after a record of `body` bytes and storage `charge` was written.
pub open spec fn accept(s: McapWriteStats, body: u64, charge: u64) -> McapWriteStats {
    McapWriteStats {
        accepted_bytes: (s.accepted_bytes + 9 + body) as u64,
        records: (s.records + 1) as u64,
        state_bytes: (s.state_bytes + charge) as u64,
        ..s
    }
}

/// Channels after a message was written on one of them.
pub open spec fn mark_used(ch: Seq<(u16, bool)>, id: u16) -> Seq<(u16, bool)> {
    ch.map_values(|p: (u16, bool)| if p.0 == id { (p.0, true) } else { p })
}

/// The state after the pending operation was written.
pub open spec fn confirmed(v: WriterView) -> WriterView {
    match v.pending {
        PendingView::Schema { id, body, charge } => WriterView {
            schemas: v.schemas.push(id),
            stats: McapWriteStats { schemas: (v.stats.schemas + 1) as usize, ..accept(v.stats, body, charge) },
            pending: PendingView::Idle,
            ..v
        },
        PendingView::Channel { id, body, charge } => WriterView {
            channels: v.channels.push((id, false)),
            stats: McapWriteStats { channels: (v.stats.channels + 1) as usize, ..accept(v.stats, body, charge) },
            pending: PendingView::Idle,
            ..v
        },
        PendingView::Metadata { name, entries, body, charge } => WriterView {
            metadata: v.metadata.push((name, entries)),
            stats: McapWriteStats { metadata: (v.stats.metadata + 1) as usize, ..accept(v.stats, body, charge) },
            pending: PendingView::Idle,
            ..v
        },
        PendingView::Message { channel_id, body, active } => WriterView {
            channels: mark_used(v.channels, channel_id),
            active,
            stats: McapWriteStats { messages: (v.stats.messages + 1) as u64, ..accept(v.stats, body, 0) },
            pending: PendingView::Idle,
            ..v
        },
        _ => WriterView { pending: PendingView::Idle, ..v },
    }
}

/// The error returned and the state after an operation's write failed.
pub open spec fn rejected(v: WriterView, e: RecordError) -> (RecordError, WriterView) {
    if v.failed {
        (RecordError::McapWriterFailed, v)
    } else {
        (e, WriterView { failed: true, pending: PendingView::Idle, ..v })
    }
}

/// The exact final file size for the accepted data.
pub open spec fn projected(v: WriterView) -> int {
    v.stats.accepted_bytes + tail_bytes(v.active as int)
}

/// The admitted operation still fits every budget.
pub open spec fn pending_fits(v: WriterView) -> bool {
    match v.pending {
        PendingView::Schema { id, body, charge } => !v.schemas.contains(id) && v.schemas.len() + 1 <= v.limits.schemas
            && reserve_result(v, body as int, charge as int, v.active as int) is Ok,
        PendingView::Channel { id, body, charge } => !channel_known(v, id) && v.channels.len() + 1 <= v.limits.channels
            && reserve_result(v, body as int, charge as int, v.active as int) is Ok,
        PendingView::Metadata { name, entries, body, charge } => !metadata_named(v, name) && v.metadata.len() + 1
            <= v.limits.metadata && reserve_result(v, body as int, charge as int, v.active as int) is Ok,
        PendingView::Message { channel_id, body, active } => channel_known(v, channel_id) && v.stats.messages + 1
            <= v.limits.messages && v.active <= active <= v.limits.entries
            && reserve_result(v, body as int, 0, active as int) is Ok,
        _ => true,
    }
}

/// The stream invariant: every counter within its budget, the finalization
/// reserved, definitions unique, and the pending operation admissible.
pub open spec fn writer_wf(v: WriterView) -> bool {
    &&& write_limits_valid(v.limits)
    &&& projected(v) <= v.limits.output_bytes
    &&& v.stats.records + 3 <= v.limits.records
    &&& v.stats.state_bytes <= v.limits.state_bytes
    &&& v.stats.messages <= v.limits.messages
    &&& v.stats.schemas == v.schemas.len() && v.schemas.len() <= v.limits.schemas
    &&& v.stats.channels == v.channels.len() && v.channels.len() <= v.limits.channels
    &&& v.stats.metadata == v.metadata.len() && v.metadata.len() <= v.limits.metadata
    &&& v.active <= v.limits.entries && 46 + 10 * v.active <= v.limits.record_bytes
    &&& v.schemas.no_duplicates()
    &&& forall|i: int, j: int| 0 <= i < j < v.channels.len() ==> v.channels[i].0 != v.channels[j].0
    &&& forall|i: int, j: int| 0 <= i < j < v.metadata.len() ==> v.metadata[i].0 != v.metadata[j].0
    &&& !v.failed ==> pending_fits(v)
    &&& v.failed ==> v.pending is Idle
}

/// The decision on a stream's header, with the header body size.
pub open spec fn open_result(h: McapHeader, l: WriteLimitsView) -> Result<u64, RecordError> {
    match header_size(h, l) {
        Err(e) => Err(e),
        Ok(body) => if body > l.record_bytes {
            Err(limit_err("record bytes", l.record_bytes as u64))
        } else if 46 > l.record_bytes {
            Err(limit_err("statistics record bytes", l.record_bytes as u64))
        } else if 17 + body + tail_bytes(0) > l.output_bytes {
            Err(limit_err("output bytes", l.output_bytes))
        } else if 4 > l.records {
            Err(limit_err("records", l.records))
        } else if spec_charge(body, 0) > l.state_bytes {
            Err(limit_err("state bytes", l.state_bytes as u64))
        } else {
            Ok(body)
        },
    }
}

/// A fresh stream after its magic and header (of `body` bytes) were written.
pub open spec fn opened(body: u64, l: WriteLimitsView) -> WriterView {
    WriterView {
        limits: l,
        stats: McapWriteStats {
            accepted_bytes: (17 + body) as u64,
            records: 1,
            messages: 0,
            schemas: 0,
            channels: 0,
            metadata: 0,
            state_bytes: spec_charge(body, 0) as u64,
        },
        schemas: Seq::empty(),
        channels: Seq::empty(),
        metadata: Seq::empty(),
        active: 0,
        failed: false,
        pending: PendingView::Idle,
    }
}

/// Writing an admitted operation keeps every counter within its budget, the
/// finalization reserved and every definition unique.
pub proof fn lemma_confirm_keeps_budgets(v: WriterView)
    requires
        writer_wf(v),
    ensures
        writer_wf(confirmed(v)),
{
    let c = confirmed(v);
    match v.pending {
        PendingView::Schema { id, body, charge } => {
            assert forall|i: int, j: int| 0 <= i < c.schemas.len() && 0 <= j < c.schemas.len() && i != j
                implies c.schemas[i] != c.schemas[j] by {
                if i < v.schemas.len() && j < v.schemas.len() {
                } else if i == v.schemas.len() {
                    assert(v.schemas.contains(v.schemas[j]));
                } else {
                    assert(v.schemas.contains(v.schemas[i]));
                }
            }
        },
        PendingView::Channel { id, body, charge } => {
            assert forall|i: int, j: int| 0 <= i < j < c.channels.len() implies c.channels[i].0 != c.channels[j].0 by {
                if j == v.channels.len() {
                    assert(!(0 <= i < v.channels.len() && v.channels[i].0 == id));
                }
            }
        },
        PendingView::Metadata { name, entries, body, charge } => {
            assert forall|i: int, j: int| 0 <= i < j < c.metadata.len() implies c.metadata[i].0 != c.metadata[j].0 by {
                if j == v.metadata.len() {
                    assert(!(0 <= i < v.metadata.len() && v.metadata[i].0 == name));
                }
            }
        },
        PendingView::Message { channel_id, body, active } => {
            assert forall|i: int, j: int| 0 <= i < j < c.channels.len() implies c.channels[i].0 != c.channels[j].0 by {
                assert(c.channels[i].0 == v.channels[i].0);
                assert(c.channels[j].0 == v.channels[j].0);
            }
        },
        _ => {},
    }
}

/// A failed stream refuses every operation with `McapWriterFailed` and never changes.
pub proof fn law_failure_latches(v: WriterView, plan: Result<PendingView, RecordError>, e: RecordError)
    requires
        v.failed,
    ensures
        admission(v, plan) == (Err::<McapWriteAction, RecordError>(RecordError::McapWriterFailed), v),
        rejected(v, e) == (RecordError::McapWriterFailed, v),
        confirmed(v).failed,
{
}

/// Every refused operation leaves the stream failed.
pub proof fn law_errors_latch(v: WriterView, plan: Result<PendingView, RecordError>, e: RecordError)
    ensures
        admission(v, plan).0 is Err ==> admission(v, plan).1.failed,
        rejected(v, e).1.failed,
{
}

/// A valid stream's final file never exceeds the output budget, and writing an
/// admitted operation keeps it so.
pub proof fn law_final_size_within_budget(v: WriterView)
    requires
        writer_wf(v),
    ensures
        projected(v) <= v.limits.output_bytes,
        projected(confirmed(v)) <= v.limits.output_bytes,
{
    lemma_confirm_keeps_budgets(v);
}

/// Repeating an identical schema, channel or metadata definition leaves every
/// counter unchanged.
pub proof fn law_repeats_keep_counters(v: WriterView, s: McapSchema, c: McapChannel, m: McapMetadata)
    requires
        writer_wf(v),
        !v.failed,
        v.schemas.contains(s.id),
        channel_known(v, c.id),
        v.metadata.contains(metadata_key(m)),
    ensures
        schema_plan(v, s) is Ok ==> confirmed(admission(v, schema_plan(v, s)).1).stats == v.stats,
        channel_plan(v, c) is Ok ==> confirmed(admission(v, channel_plan(v, c)).1).stats == v.stats,
        metadata_plan(v, m) is Ok ==> admission(v, metadata_plan(v, m)).0 == Ok::<McapWriteAction, RecordError>(
            McapWriteAction::Skip) && confirmed(admission(v, metadata_plan(v, m)).1).stats == v.stats,
{
    let k = choose|i: int| 0 <= i < v.metadata.len() && v.metadata[i] == metadata_key(m);
    assert(v.metadata[k].0 == m.name@);
}

/// Messages never add to the accounted storage: only definitions are retained.
pub proof fn law_messages_keep_state_bytes(v: WriterView, channel_id: u16, len: nat)
    requires
        !v.failed,
        message_plan(v, channel_id, len) is Ok,
    ensures
        confirmed(admission(v, message_plan(v, channel_id, len)).1).stats.state_bytes == v.stats.state_bytes,
        confirmed(admission(v, message_plan(v, channel_id, len)).1).stats.messages == v.stats.messages + 1,
{
}

spec fn plan_matches(r: Result<Pending, RecordError>, s: Result<PendingView, RecordError>) -> bool {
    match r {
        Ok(p) => s == Ok::<PendingView, RecordError>(p@),
        Err(e) => s == Err::<PendingView, RecordError>(e),
    }
}

fn contains_id(ids: &Vec<u16>, id: u16) -> (r: bool)
    ensures
        r == ids@.contains(id),
{
    let mut i: usize = 0;
    while i < ids.len()
        invariant
            i <= ids@.len(),
            forall|k: int| 0 <= k < i ==> ids@[k] != id,
        decreases ids@.len() - i,
    {
        if ids[i] == id {
            assert(ids@[i as int] == id);
            return true;
        }
        i = i + 1;
    }
    false
}

impl McapStreamWriter {
    /// The stream invariant holds.
    pub closed spec fn wf(&self) -> bool {
        writer_wf(self@)
    }

    /// Validate policy and header, and reserve finalization, before the outside
    /// writer writes the magic and header.
    pub fn new(header: &McapHeader, limits: McapWriteLimits) -> (r: Result<Self, RecordError>)
        requires
            write_limits_valid(limits@),
        ensures
            match open_result(*header, limits@) {
                Ok(body) => r is Ok && r->Ok_0.wf() && r->Ok_0@ == opened(body, limits@),
                Err(e) => r is Err && r->Err_0 == e,
            },
    {
        let body = limits::header(header, limits)?;
        let rb = limits.record_bytes() as u64;
        if body > rb {
            return Err(RecordError::WriteLimit { kind: "record bytes", limit: rb });
        }
        if 46 > rb {
            return Err(RecordError::WriteLimit { kind: "statistics record bytes", limit: rb });
        }
        let accepted_bytes = 17 + body;
        if accepted_bytes + 105 > limits.output_bytes() {
            return Err(RecordError::WriteLimit { kind: "output bytes", limit: limits.output_bytes() });
        }
        if 4 > limits.records() {
            return Err(RecordError::WriteLimit { kind: "records", limit: limits.records() });
        }
        let state_bytes = 4 * body + 2048;
        if state_bytes > limits.state_bytes() as u64 {
            return Err(RecordError::WriteLimit { kind: "state bytes", limit: limits.state_bytes() as u64 });
        }
        let w = McapStreamWriter {
            limits,
            stats: McapWriteStats {
                accepted_bytes,
                records: 1,
                messages: 0,
                schemas: 0,
                channels: 0,
                metadata: 0,
                state_bytes,
            },
            schemas: Vec::new(),
            channels: Vec::new(),
            metadata: Vec::new(),
            active_channels: 0,
            failed: false,
            pending: Pending::Idle,
        };
        assert(w@.metadata =~= Seq::<(Seq<char>, Seq<(Seq<char>, Seq<char>)>)>::empty());
        assert(w@ == opened(body, limits@));
        Ok(w)
    }

    /// Admission counters. Failure does not undo bytes already accepted by the sink.
    pub fn stats(&self) -> (s: &McapWriteStats)
        ensures
            *s == self@.stats,
    {
        &self.stats
    }

    /// Whether an earlier operation failed; this state never recovers.
    pub fn is_failed(&self) -> (b: bool)
        ensures
            b == self@.failed,
    {
        self.failed
    }

    /// Exact successful final file size for current accepted data.
    pub fn projected_final_bytes(&self) -> (n: u64)
        requires
            self.wf(),
        ensures
            n == projected(self@),
            n <= self@.limits.output_bytes,
    {
        self.stats.accepted_bytes + 105 + self.active_channels as u64 * 10
    }

    fn reserve(&self, body: u64, charge: u64, active: usize) -> (r: Result<(), RecordError>)
        requires
            writer_wf(self@),
            body <= 0x1_0000_0000_0000,
            charge <= 0x1_0000_0000_0000,
            active <= 65_537,
        ensures
            r == reserve_result(self@, body as int, charge as int, active as int),
    {
        let rb = self.limits.record_bytes() as u64;
        let wide: u64 = active as u64;
        if body > rb {
            return Err(RecordError::WriteLimit { kind: "record bytes", limit: rb });
        }
        if 46 + wide * 10 > rb {
            return Err(RecordError::WriteLimit { kind: "statistics record bytes", limit: rb });
        }
        if self.stats.accepted_bytes + 9 + body + (105 + wide * 10) > self.limits.output_bytes() {
            return Err(RecordError::WriteLimit { kind: "output bytes", limit: self.limits.output_bytes() });
        }
        if self.stats.records + 4 > self.limits.records() {
            return Err(RecordError::WriteLimit { kind: "records", limit: self.limits.records() });
        }
        if self.stats.state_bytes + charge > self.limits.state_bytes() as u64 {
            return Err(RecordError::WriteLimit { kind: "state bytes", limit: self.limits.state_bytes() as u64 });
        }
        Ok(())
    }

    fn find_channel(&self, id: u16) -> (r: Option<usize>)
        ensures
            match r {
                Some(i) => i < self@.channels.len() && self@.channels[i as int].0 == id,
                None => !channel_known(self@, id),
            },
    {
        let mut i: usize = 0;
        while i < self.channels.len()
            invariant
                i <= self.channels@.len(),
                forall|k: int| 0 <= k < i ==> self.channels@[k].0 != id,
            decreases self.channels@.len() - i,
        {
            if self.channels[i].0 == id {
                return Some(i);
            }
            i = i + 1;
        }
        None
    }

    fn find_metadata(&self, name: &str) -> (r: Option<usize>)
        ensures
            match r {
                Some(i) => i < self@.metadata.len() && self@.metadata[i as int].0 == name@,
                None => !metadata_named(self@, name@),
            },
    {
        let mut i: usize = 0;
        while i < self.metadata.len()
            invariant
                i <= self.metadata@.len(),
                forall|k: int| 0 <= k < i ==> self@.metadata[k].0 != name@,
            decreases self.metadata@.len() - i,
        {
            if str_equal(self.metadata[i].name.as_str(), name) {
                assert(self@.metadata[i as int] == metadata_key(self.metadata@[i as int]));
                return Some(i);
            }
            assert(self@.metadata[i as int] == metadata_key(self.metadata@[i as int]));
            i = i + 1;
        }
        None
    }

    fn plan_schema(&self, schema: &McapSchema) -> (r: Result<Pending, RecordError>)
        requires
            writer_wf(self@),
        ensures
            plan_matches(r, schema_plan(self@, *schema)),
    {
        let body = limits::schema(schema, self.limits)?;
        let rb = self.limits.record_bytes() as u64;
        if body > rb {
            return Err(RecordError::WriteLimit { kind: "record bytes", limit: rb });
        }
        if contains_id(&self.schemas, schema.id) {
            return Ok(Pending::Repeat);
        }
        if self.schemas.len() as u64 + 1 > self.limits.schemas() as u64 {
            return Err(RecordError::WriteLimit { kind: "schemas", limit: self.limits.schemas() as u64 });
        }
        let charge = 4 * body + 2048;
        self.reserve(body, charge, self.active_channels)?;
        Ok(Pending::Schema { id: schema.id, body, charge })
    }

    fn plan_channel(&self, channel: &McapChannel) -> (r: Result<Pending, RecordError>)
        requires
            writer_wf(self@),
        ensures
            plan_matches(r, channel_plan(self@, *channel)),
    {
        let body = limits::channel(channel, self.limits)?;
        let rb = self.limits.record_bytes() as u64;
        if body > rb {
            return Err(RecordError::WriteLimit { kind: "record bytes", limit: rb });
        }
        if channel.schema_id != 0 && !contains_id(&self.schemas, channel.schema_id) {
            return Err(RecordError::InvalidMcapWrite("missing schema"));
        }
        if self.find_channel(channel.id).is_some() {
            return Ok(Pending::Repeat);
        }
        if self.channels.len() as u64 + 1 > self.limits.channels() as u64 {
            return Err(RecordError::WriteLimit { kind: "channels", limit: self.limits.channels() as u64 });
        }
        let n: usize = channel.metadata.len();
        let charge = 4 * body + 2048 + (n as u64) * 256;
        self.reserve(body, charge, self.active_channels)?;
        Ok(Pending::Channel { id: channel.id, body, charge })
    }

    fn plan_metadata(&self, metadata: &McapMetadata) -> (r: Result<Pending, RecordError>)
        requires
            writer_wf(self@),
        ensures
            plan_matches(r, metadata_plan(self@, *metadata)),
    {
        let body = limits::metadata(metadata, self.limits)?;
        let rb = self.limits.record_bytes() as u64;
        if body > rb {
            return Err(RecordError::WriteLimit { kind: "record bytes", limit: rb });
        }
        match self.find_metadata(metadata.name.as_str()) {
            Some(i) => {
                let same = same_metadata(&self.metadata[i], metadata);
                proof {
                    assert(self@.metadata[i as int] == metadata_key(self.metadata@[i as int]));
                    if !same && self@.metadata.contains(metadata_key(*metadata)) {
                        let j = choose|j: int| 0 <= j < self@.metadata.len() && self@.metadata[j] == metadata_key(*metadata);
                        assert(self@.metadata[j].0 == self@.metadata[i as int].0);
                        assert(j == i as int);
                    }
                }
                if same {
                    return Ok(Pending::Idle);
                } else {
                    return Err(RecordError::InvalidMcapWrite("conflicting metadata"));
                }
            },
            None => {},
        }
        if self.metadata.len() as u64 + 1 > self.limits.metadata() as u64 {
            return Err(RecordError::WriteLimit { kind: "metadata names", limit: self.limits.metadata() as u64 });
        }
        let n: usize = metadata.entries.len();
        let charge = 4 * body + 2048 + (n as u64) * 256;
        self.reserve(body, charge, self.active_channels)?;
        let copy = McapMetadata { name: metadata.name.clone(), entries: metadata.entries.copy() };
        Ok(Pending::Metadata { metadata: copy, body, charge })
    }

    fn plan_message(&self, message: &McapMessageRef) -> (r: Result<Pending, RecordError>)
        requires
            writer_wf(self@),
        ensures
            plan_matches(r, message_plan(self@, message.channel_id, message.data@.len())),
    {
        let i = match self.find_channel(message.channel_id) {
            Some(i) => i,
            None => return Err(RecordError::InvalidMcapWrite("missing channel")),
        };
        let used = self.channels[i].1;
        proof {
            if channel_used(self@, message.channel_id) {
                let j = choose|j: int| 0 <= j < self@.channels.len() && self@.channels[j].0 == message.channel_id
                    && self@.channels[j].1;
                assert(j == i as int);
            }
        }
        let mb = self.limits.message_bytes() as u64;
        let n = message.data.len() as u64;
        if n > mb {
            return Err(RecordError::WriteLimit { kind: "message bytes", limit: mb });
        }
        if self.stats.messages + 1 > self.limits.messages() {
            return Err(RecordError::WriteLimit { kind: "messages", limit: self.limits.messages() });
        }
        let active = if used { self.active_channels } else { self.active_channels + 1 };
        if active as u64 > self.limits.entries() as u64 {
            return Err(RecordError::WriteLimit { kind: "statistics map entries", limit: self.limits.entries() as u64 });
        }
        let body = 22 + n;
        self.reserve(body, 0, active)?;
        Ok(Pending::Message { channel_id: message.channel_id, body, active })
    }

    fn accepted(&mut self, body: u64, charge: u64)
        requires
            old(self).stats.accepted_bytes + 9 + body <= u64::MAX,
            old(self).stats.records + 1 <= u64::MAX,
            old(self).stats.state_bytes + charge <= u64::MAX,
        ensures
            final(self).stats == accept(old(self).stats, body, charge),
            final(self).limits == old(self).limits,
            final(self).schemas == old(self).schemas,
            final(self).channels == old(self).channels,
            final(self).metadata == old(self).metadata,
            final(self).active_channels == old(self).active_channels,
            final(self).failed == old(self).failed,
            final(self).pending == old(self).pending,
    {
        self.stats.accepted_bytes = self.stats.accepted_bytes + 9 + body;
        self.stats.records = self.stats.records + 1;
        self.stats.state_bytes = self.stats.state_bytes + charge;
    }

    fn mark_channel_used(&mut self, id: u16)
        ensures
            final(self).channels@ == mark_used(old(self).channels@, id),
            final(self).stats == old(self).stats,
            final(self).limits == old(self).limits,
            final(self).schemas == old(self).schemas,
            final(self).metadata == old(self).metadata,
            final(self).active_channels == old(self).active_channels,
            final(self).failed == old(self).failed,
            final(self).pending == old(self).pending,
    {
        let ghost before = self.channels@;
        let mut i: usize = 0;
        while i < self.channels.len()
            invariant
                self.channels@.len() == before.len(),
                i <= before.len(),
                forall|k: int| 0 <= k < i ==> self.channels@[k] == mark_used(before, id)[k],
                forall|k: int| i <= k < before.len() ==> self.channels@[k] == before[k],
                self.stats == old(self).stats,
                self.limits == old(self).limits,
                self.schemas == old(self).schemas,
                self.metadata == old(self).metadata,
                self.active_channels == old(self).active_channels,
                self.failed == old(self).failed,
                self.pending == old(self).pending,
                before == old(self).channels@,
            decreases before.len() - i,
        {
            if self.channels[i].0 == id {
                self.channels.set(i, (id, true));
            }
            i = i + 1;
        }
        assert(self.channels@ =~= mark_used(before, id));
    }

    fn settle(&mut self, plan: Result<Pending, RecordError>) -> (r: Result<McapWriteAction, RecordError>)
        requires
            !old(self)@.failed,
        ensures
            (r, final(self)@) == admission(old(self)@, match plan {
                Ok(p) => Ok::<PendingView, RecordError>(p@),
                Err(e) => Err::<PendingView, RecordError>(e),
            }),
    {
        match plan {
            Ok(p) => {
                let action = match p {
                    Pending::Idle => McapWriteAction::Skip,
                    _ => McapWriteAction::Write,
                };
                self.pending = p;
                Ok(action)
            },
            Err(e) => {
                self.failed = true;
                self.pending = Pending::Idle;
                Err(e)
            },
        }
    }

    /// Admit a complete schema definition. A repeated ID is still handed to the
    /// writer, which normalizes an identical definition and refuses a conflict.
    pub fn schema(&mut self, schema: &McapSchema) -> (r: Result<McapWriteAction, RecordError>)
        requires
            old(self).wf(),
        ensures
            final(self).wf(),
            (r, final(self)@) == admission(old(self)@, schema_plan(old(self)@, *schema)),
    {
        if self.failed {
            return Err(RecordError::McapWriterFailed);
        }
        let plan = self.plan_schema(schema);
        self.settle(plan)
    }

    /// Admit a complete channel definition; a nonzero schema must be defined already.
    pub fn channel(&mut self, channel: &McapChannel) -> (r: Result<McapWriteAction, RecordError>)
        requires
            old(self).wf(),
        ensures
            final(self).wf(),
            (r, final(self)@) == admission(old(self)@, channel_plan(old(self)@, *channel)),
    {
        if self.failed {
            return Err(RecordError::McapWriterFailed);
        }
        let plan = self.plan_channel(channel);
        self.settle(plan)
    }

    /// Admit bounded named metadata. An identical repeat is skipped; a conflict fails.
    pub fn metadata(&mut self, metadata: &McapMetadata) -> (r: Result<McapWriteAction, RecordError>)
        requires
            old(self).wf(),
        ensures
            final(self).wf(),
            (r, final(self)@) == admission(old(self)@, metadata_plan(old(self)@, *metadata)),
    {
        if self.failed {
            return Err(RecordError::McapWriterFailed);
        }
        let plan = self.plan_metadata(metadata);
        self.settle(plan)
    }

    /// Admit a message on a defined channel; its bytes are never retained.
    pub fn message(&mut self, message: McapMessageRef) -> (r: Result<McapWriteAction, RecordError>)
        requires
            old(self).wf(),
        ensures
            final(self).wf(),
            (r, final(self)@) == admission(old(self)@, message_plan(old(self)@, message.channel_id, message.data@.len())),
    {
        if self.failed {
            return Err(RecordError::McapWriterFailed);
        }
        let plan = self.plan_message(&message);
        self.settle(plan)
    }

    /// The admitted operation was written: count it.
    pub fn confirm(&mut self)
        requires
            old(self).wf(),
        ensures
            final(self).wf(),
            final(self)@ == confirmed(old(self)@),
    {
        proof {
            lemma_confirm_keeps_budgets(self@);
        }
        let ghost v = self@;
        let mut p = Pending::Idle;
        std::mem::swap(&mut p, &mut self.pending);
        assert(p@ == v.pending);
        match p {
            Pending::Schema { id, body, charge } => {
                self.schemas.push(id);
                self.stats.schemas = self.stats.schemas + 1;
                self.accepted(body, charge);
                assert(self@.metadata =~= v.metadata);
            },
            Pending::Channel { id, body, charge } => {
                self.channels.push((id, false));
                self.stats.channels = self.stats.channels + 1;
                self.accepted(body, charge);
                assert(self@.metadata =~= v.metadata);
            },
            Pending::Metadata { metadata, body, charge } => {
                let ghost key = metadata_key(metadata);
                self.metadata.push(metadata);
                self.stats.metadata = self.stats.metadata + 1;
                self.accepted(body, charge);
                assert(self@.metadata =~= v.metadata.push(key));
            },
            Pending::Message { channel_id, body, active } => {
                self.mark_channel_used(channel_id);
                self.active_channels = active;
                self.stats.messages = self.stats.messages + 1;
                self.accepted(body, 0);
                assert(self@.metadata =~= v.metadata);
            },
            _ => {
                assert(self@.metadata =~= v.metadata);
            },
        }
    }

    /// The admitted operation's write failed, or the caller refuses it: latch
    /// failure. Once failed, every later error is `McapWriterFailed`.
    pub fn reject(&mut self, error: RecordError) -> (e: RecordError)
        requires
            old(self).wf(),
        ensures
            final(self).wf(),
            (e, final(self)@) == rejected(old(self)@, error),
    {
        if self.failed {
            return RecordError::McapWriterFailed;
        }
        self.failed = true;
        self.pending = Pending::Idle;
        error
    }

    /// May the outside writer flush? A flush error is then reported with `reject`.
    pub fn flush(&self) -> (r: Result<(), RecordError>)
        ensures
            self@.failed ==> r == Err::<(), RecordError>(RecordError::McapWriterFailed),
            !self@.failed ==> r == Ok::<(), RecordError>(()),
    {
        if self.failed {
            Err(RecordError::McapWriterFailed)
        } else {
            Ok(())
        }
    }

    /// May the outside writer complete the reserved summary and footer? Gives the
    /// exact final file size. Failure is never retried.
    pub fn finish(&self) -> (r: Result<u64, RecordError>)
        requires
            self.wf(),
        ensures
            self@.failed ==> r == Err::<u64, RecordError>(RecordError::McapWriterFailed),
            !self@.failed ==> r == Ok::<u64, RecordError>(projected(self@) as u64),
            r is Ok ==> r->Ok_0 <= self@.limits.output_bytes,
    {
        if self.failed {
            return Err(RecordError::McapWriterFailed);
        }
        Ok(self.projected_final_bytes())
    }

    /// Abandon the stream without a footer; the caller must discard the partial
    /// file. Gives the counters of what was accepted.
    pub fn abort(self) -> (s: McapWriteStats)
        ensures
            s == self@.stats,
    {
        self.stats
    }
}

} // verus!
