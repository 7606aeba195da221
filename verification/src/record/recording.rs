//! The container-neutral recording surface and payload codecs.
//!
//! A recording is a manifest plus an ordered list of raw records, whatever the
//! container it was read from. The native container and the MCAP projection
//! both implement [`Recording`], so counting and selecting records by channel
//! is written once here.
use crate::record::error::RecordError;
use crate::record::model::{RawRecord, RecordingManifest};
use vstd::prelude::*;

verus! {

/// The number of records on a channel.
pub open spec fn count_on(rs: Seq<RawRecord>, channel_id: u16) -> nat
    decreases rs.len(),
{
    if rs.len() == 0 {
        0
    } else {
        count_on(rs.drop_last(), channel_id) + if rs.last().channel_id == channel_id {
            1nat
        } else {
            0nat
        }
    }
}

/// The records on a channel, in recorded order.
pub open spec fn records_on(rs: Seq<RawRecord>, channel_id: u16) -> Seq<RawRecord> {
    rs.filter(|r: RawRecord| r.channel_id == channel_id)
}

/// A parsed recording: a manifest and its ordered records.
pub trait Recording {
    /// The manifest that the recording holds.
    spec fn recording_manifest(&self) -> RecordingManifest;

    /// The records that the recording holds, in recorded order.
    spec fn recording_records(&self) -> Seq<RawRecord>;

    /// The recording manifest.
    fn manifest(&self) -> (m: &RecordingManifest)
        ensures
            *m == self.recording_manifest(),
    ;

    /// All records, in recorded order.
    fn records(&self) -> (rs: &[RawRecord])
        ensures
            rs@ == self.recording_records(),
    ;

    /// The number of records on a given channel.
    fn count_for(&self, channel_id: u16) -> (n: usize)
        ensures
            n == count_on(self.recording_records(), channel_id),
    {
        let records = self.records();
        let mut n: usize = 0;
        let mut i: usize = 0;
        while i < records.len()
            invariant
                i <= records@.len(),
                n == count_on(records@.take(i as int), channel_id),
                n <= i,
            decreases records@.len() - i,
        {
            assert(records@.take(i + 1).drop_last() =~= records@.take(i as int));
            if records[i].channel_id == channel_id {
                n = n + 1;
            }
            i = i + 1;
        }
        assert(records@.take(i as int) =~= records@);
        n
    }

    /// The records on a given channel, in recorded order.
    fn records_for(&self, channel_id: u16) -> (rs: Vec<&RawRecord>)
        ensures
            rs@.map_values(|r: &RawRecord| *r) == records_on(self.recording_records(), channel_id),
    {
        let records = self.records();
        let mut out: Vec<&RawRecord> = Vec::new();
        let mut i: usize = 0;
        while i < records.len()
            invariant
                i <= records@.len(),
                out@.map_values(|r: &RawRecord| *r) == records_on(records@.take(i as int), channel_id),
            decreases records@.len() - i,
        {
            let ghost before = out@;
            proof {
                let t = records@.take(i + 1);
                assert(t.drop_last() =~= records@.take(i as int));
                assert(t.last() == records@[i as int]);
                t.filter_lemma(|r: RawRecord| r.channel_id == channel_id);
                reveal(Seq::filter);
            }
            if records[i].channel_id == channel_id {
                out.push(&records[i]);
                assert(out@.map_values(|r: &RawRecord| *r) =~= before.map_values(|r: &RawRecord| *r).push(
                    records@[i as int],
                ));
            }
            i = i + 1;
        }
        assert(records@.take(i as int) =~= records@);
        out
    }
}

/// Encode and decode a typed message to and from recorded payload bytes.
///
/// Implementations must be deterministic: encoding the same message twice
/// gives identical bytes, and decoding an encoding gives the message back.
pub trait RecordCodec {
    /// The message type this codec encodes.
    type Message;

    /// Encode a message to bytes.
    fn encode(&self, message: &Self::Message) -> Vec<u8>;

    /// Decode a message from bytes.
    fn decode(&self, bytes: &[u8]) -> Result<Self::Message, RecordError>;
}

} // verus!
