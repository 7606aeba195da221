//! The native, self-describing recording container.
//!
//! ```text
//! magic    : "NRXREC"            (6 bytes)
//! version  : u8                  (= FORMAT_VERSION)
//! manifest : u32 length (LE) + UTF-8 JSON manifest
//! records  : repeated
//!            channel_id : u16  (LE)
//!            sequence   : u64  (LE)
//!            domain     : u8   (ClockDomain code)
//!            nanos      : i128 (16 bytes, LE)
//!            length     : u32  (LE)
//!            payload    : `length` bytes
//! ```
//!
//! The format is fixed-endian and length-prefixed, so a recording round-trips
//! byte-for-byte and reads back with no ambiguity. The manifest travels as its
//! JSON bytes; turning it into a `RecordingManifest` is the caller's part.
use crate::record::error::RecordError;
use crate::record::recording::{count_on, records_on, Recording};
use crate::record::model::{
    domain_code, domain_of_code, ClockDomain, RawRecord, RecordingManifest, Timestamp, FORMAT_VERSION,
};
use vstd::bytes::{
    lemma_auto_spec_u128_to_from_le_bytes, lemma_auto_spec_u16_to_from_le_bytes,
    lemma_auto_spec_u32_to_from_le_bytes, lemma_auto_spec_u64_to_from_le_bytes, spec_u128_from_le_bytes,
    spec_u128_to_le_bytes, spec_u16_from_le_bytes, spec_u16_to_le_bytes, spec_u32_from_le_bytes,
    spec_u32_to_le_bytes, spec_u64_from_le_bytes, spec_u64_to_le_bytes, u128_from_le_bytes, u128_to_le_bytes,
    u16_from_le_bytes, u16_to_le_bytes, u32_from_le_bytes, u32_to_le_bytes, u64_from_le_bytes, u64_to_le_bytes,
};
use crate::text::copy_bytes;
use vstd::prelude::*;
use vstd::slice::slice_subrange;

verus! {

/// The magic bytes identifying a native recording: `NRXREC`.
pub open spec fn magic() -> Seq<u8> {
    seq![0x4eu8, 0x52u8, 0x58u8, 0x52u8, 0x45u8, 0x43u8]
}

/// The plain value of a record.
pub struct RecordView {
    /// Channel.
    pub channel_id: u16,
    /// Sequence number.
    pub sequence: u64,
    /// Clock domain of the timestamp.
    pub domain: ClockDomain,
    /// Timestamp in nanoseconds.
    pub nanos: i128,
    /// Payload bytes.
    pub payload: Seq<u8>,
}

/// The plain value of a record.
pub open spec fn record_view(r: RawRecord) -> RecordView {
    RecordView {
        channel_id: r.channel_id,
        sequence: r.sequence,
        domain: r.timestamp.spec_domain(),
        nanos: r.timestamp.spec_nanos(),
        payload: r.payload@,
    }
}

/// The plain values of records.
pub open spec fn record_views(rs: Seq<RawRecord>) -> Seq<RecordView> {
    rs.map_values(|r: RawRecord| record_view(r))
}

/// The container header carrying manifest JSON bytes.
pub open spec fn encode_header(manifest: Seq<u8>) -> Seq<u8> {
    magic() + seq![FORMAT_VERSION] + spec_u32_to_le_bytes(manifest.len() as u32) + manifest
}

/// The bytes of one record.
pub open spec fn encode_record(r: RecordView) -> Seq<u8> {
    spec_u16_to_le_bytes(r.channel_id) + spec_u64_to_le_bytes(r.sequence) + seq![domain_code(r.domain)]
        + spec_u128_to_le_bytes(r.nanos as u128) + spec_u32_to_le_bytes(r.payload.len() as u32) + r.payload
}

/// The bytes of records, in order.
pub open spec fn encode_records(rs: Seq<RecordView>) -> Seq<u8>
    decreases rs.len(),
{
    if rs.len() == 0 {
        Seq::empty()
    } else {
        encode_record(rs[0]) + encode_records(rs.drop_first())
    }
}

/// Every payload's length fits the `u32` length field.
pub open spec fn payloads_fit(rs: Seq<RecordView>) -> bool {
    forall|i: int| 0 <= i < rs.len() ==> #[trigger] rs[i].payload.len() <= u32::MAX
}

/// The manifest byte range of a container, or why its header is refused.
pub open spec fn decode_header(b: Seq<u8>) -> Result<(int, int), RecordError> {
    if b.len() < 6 {
        Err(RecordError::Truncated(0))
    } else if b.subrange(0, 6) != magic() {
        Err(RecordError::BadMagic)
    } else if b.len() < 7 {
        Err(RecordError::Truncated(6))
    } else if b[6] != FORMAT_VERSION {
        Err(RecordError::UnsupportedVersion(b[6]))
    } else if b.len() < 11 {
        Err(RecordError::Truncated(7))
    } else if 11 + spec_u32_from_le_bytes(b.subrange(7, 11)) > b.len() {
        Err(RecordError::Truncated(11))
    } else {
        Ok((11, 11 + spec_u32_from_le_bytes(b.subrange(7, 11))))
    }
}

/// The records of a byte string starting at offset `base` of its container, or
/// the first corruption.
pub open spec fn decode_records(s: Seq<u8>, base: int) -> Result<Seq<RecordView>, RecordError>
    decreases s.len(),
{
    if s.len() == 0 {
        Ok(Seq::empty())
    } else if s.len() < 2 {
        Err(RecordError::Truncated(base as usize))
    } else if s.len() < 10 {
        Err(RecordError::Truncated((base + 2) as usize))
    } else if s.len() < 11 {
        Err(RecordError::Truncated((base + 10) as usize))
    } else if domain_of_code(s[10]) is None {
        Err(RecordError::UnknownClockDomain(s[10]))
    } else if s.len() < 27 {
        Err(RecordError::Truncated((base + 11) as usize))
    } else if s.len() < 31 {
        Err(RecordError::Truncated((base + 27) as usize))
    } else {
        let n = spec_u32_from_le_bytes(s.subrange(27, 31)) as int;
        if 31 + n > s.len() {
            Err(RecordError::Truncated((base + 31) as usize))
        } else {
            let r = RecordView {
                channel_id: spec_u16_from_le_bytes(s.subrange(0, 2)),
                sequence: spec_u64_from_le_bytes(s.subrange(2, 10)),
                domain: domain_of_code(s[10])->Some_0,
                nanos: spec_u128_from_le_bytes(s.subrange(11, 27)) as i128,
                payload: s.subrange(31, 31 + n),
            };
            match decode_records(s.subrange(31 + n, s.len() as int), base + 31 + n) {
                Ok(rest) => Ok(seq![r] + rest),
                Err(e) => Err(e),
            }
        }
    }
}

proof fn lemma_i128_bits(n: i128)
    ensures
        ((n as u128) as i128) == n,
{
    assert(((n as u128) as i128) == n) by (bit_vector);
}

/// Decoding a record's bytes followed by more bytes gives the record, then
/// whatever the rest decodes to.
pub proof fn lemma_decode_record(r: RecordView, rest: Seq<u8>, base: int)
    requires
        r.payload.len() <= u32::MAX,
    ensures
        decode_records(encode_record(r) + rest, base) == match decode_records(rest, base + encode_record(r).len()) {
            Ok(tail) => Ok::<Seq<RecordView>, RecordError>(seq![r] + tail),
            Err(e) => Err::<Seq<RecordView>, RecordError>(e),
        },
        encode_record(r).len() == 31 + r.payload.len(),
{
    lemma_auto_spec_u16_to_from_le_bytes();
    lemma_auto_spec_u32_to_from_le_bytes();
    lemma_auto_spec_u64_to_from_le_bytes();
    lemma_auto_spec_u128_to_from_le_bytes();
    lemma_i128_bits(r.nanos);
    let a = spec_u16_to_le_bytes(r.channel_id);
    let b = spec_u64_to_le_bytes(r.sequence);
    let c = spec_u128_to_le_bytes(r.nanos as u128);
    let d = spec_u32_to_le_bytes(r.payload.len() as u32);
    let e = encode_record(r);
    let s = e + rest;
    let n = r.payload.len();
    assert(e.len() == 31 + n);
    assert(s.subrange(0, 2) =~= a);
    assert(s.subrange(2, 10) =~= b);
    assert(s[10] == domain_code(r.domain));
    assert(s.subrange(11, 27) =~= c);
    assert(s.subrange(27, 31) =~= d);
    assert(s.subrange(31, 31 + n as int) =~= r.payload);
    assert(s.subrange(31 + n as int, s.len() as int) =~= rest);
    assert(domain_of_code(domain_code(r.domain)) == Some(r.domain)) by {
        match r.domain {
            ClockDomain::Monotonic => {},
            ClockDomain::Simulation => {},
        }
    }
}

/// Encoded records decode back to themselves.
pub proof fn lemma_decode_records(rs: Seq<RecordView>, base: int)
    requires
        payloads_fit(rs),
    ensures
        decode_records(encode_records(rs), base) == Ok::<Seq<RecordView>, RecordError>(rs),
    decreases rs.len(),
{
    if rs.len() > 0 {
        let t = rs.drop_first();
        assert(payloads_fit(t)) by {
            assert forall|i: int| 0 <= i < t.len() implies #[trigger] t[i].payload.len() <= u32::MAX by {
                assert(t[i] == rs[i + 1]);
            }
        }
        assert(rs[0].payload.len() <= u32::MAX);
        lemma_decode_record(rs[0], encode_records(t), base);
        lemma_decode_records(t, base + encode_record(rs[0]).len());
        assert(seq![rs[0]] + t =~= rs);
    } else {
        assert(rs =~= Seq::<RecordView>::empty());
    }
}

/// Appending a record appends its bytes.
pub proof fn lemma_encode_push(rs: Seq<RecordView>, r: RecordView)
    ensures
        encode_records(rs.push(r)) == encode_records(rs) + encode_record(r),
    decreases rs.len(),
{
    if rs.len() == 0 {
        assert(rs.push(r).drop_first() =~= Seq::<RecordView>::empty());
        assert(encode_records(rs.push(r).drop_first()) =~= Seq::<u8>::empty());
        assert(encode_records(rs) =~= Seq::<u8>::empty());
        assert(encode_records(rs.push(r)) =~= encode_records(rs) + encode_record(r));
    } else {
        lemma_encode_push(rs.drop_first(), r);
        assert(rs.push(r).drop_first() =~= rs.drop_first().push(r));
        assert(rs.push(r)[0] == rs[0]);
        assert(encode_records(rs.push(r)) =~= encode_records(rs) + encode_record(r));
    }
}

/// A written container reads back: the header gives the manifest bytes, and the
/// records after it decode to exactly the records written, in order.
pub proof fn law_native_round_trip(manifest: Seq<u8>, rs: Seq<RecordView>)
    requires
        manifest.len() <= u32::MAX,
        payloads_fit(rs),
    ensures
        ({
            let bytes = encode_header(manifest) + encode_records(rs);
            let end = 11 + manifest.len() as int;
            &&& decode_header(bytes) == Ok::<(int, int), RecordError>((11, end))
            &&& bytes.subrange(11, end) == manifest
            &&& decode_records(bytes.subrange(end, bytes.len() as int), end) == Ok::<Seq<RecordView>, RecordError>(rs)
        }),
{
    lemma_auto_spec_u32_to_from_le_bytes();
    let h = encode_header(manifest);
    let bytes = h + encode_records(rs);
    let end = 11 + manifest.len() as int;
    assert(h.len() == end);
    assert(bytes.subrange(0, 6) =~= magic());
    assert(bytes[6] == FORMAT_VERSION);
    assert(bytes.subrange(7, 11) =~= spec_u32_to_le_bytes(manifest.len() as u32));
    assert(bytes.subrange(11, end) =~= manifest);
    assert(bytes.subrange(end, bytes.len() as int) =~= encode_records(rs));
    lemma_decode_records(rs, end);
}

/// Streaming writer for the native recording container, holding the bytes
/// written so far.
pub struct NativeRecordWriter {
    out: Vec<u8>,
}

impl View for NativeRecordWriter {
    type V = Seq<u8>;

    closed spec fn view(&self) -> Seq<u8> {
        self.out@
    }
}

impl NativeRecordWriter {
    /// Begin a recording with the header and the manifest's JSON bytes.
    pub fn new(manifest_json: &[u8]) -> (r: Result<Self, RecordError>)
        ensures
            manifest_json@.len() > u32::MAX ==> r == Err::<Self, RecordError>(
                RecordError::PayloadTooLarge(manifest_json@.len() as usize),
            ),
            manifest_json@.len() <= u32::MAX ==> r is Ok && r->Ok_0@ == encode_header(manifest_json@),
    {
        let n = manifest_json.len();
        if n > 0xffff_ffff {
            return Err(RecordError::PayloadTooLarge(n));
        }
        let mut out: Vec<u8> = vec![0x4eu8, 0x52u8, 0x58u8, 0x52u8, 0x45u8, 0x43u8];
        out.push(FORMAT_VERSION);
        let mut len = u32_to_le_bytes(n as u32);
        out.append(&mut len);
        let mut i: usize = 0;
        let ghost prefix = out@;
        while i < n
            invariant
                n == manifest_json@.len(),
                i <= n,
                out@ == prefix + manifest_json@.take(i as int),
            decreases n - i,
        {
            out.push(manifest_json[i]);
            i = i + 1;
            assert(out@ =~= prefix + manifest_json@.take(i as int));
        }
        assert(manifest_json@.take(n as int) =~= manifest_json@);
        assert(out@ =~= encode_header(manifest_json@));
        Ok(NativeRecordWriter { out })
    }

    /// Append one record; a payload longer than the `u32` length field is refused.
    pub fn write_record(&mut self, channel_id: u16, sequence: u64, timestamp: Timestamp, payload: &[u8]) -> (r: Result<
        (),
        RecordError,
    >)
        ensures
            payload@.len() > u32::MAX ==> r == Err::<(), RecordError>(RecordError::PayloadTooLarge(payload@.len() as usize))
                && final(self)@ == old(self)@,
            payload@.len() <= u32::MAX ==> r is Ok && final(self)@ == old(self)@ + encode_record(
                RecordView {
                    channel_id,
                    sequence,
                    domain: timestamp.spec_domain(),
                    nanos: timestamp.spec_nanos(),
                    payload: payload@,
                },
            ),
    {
        let n = payload.len();
        if n > 0xffff_ffff {
            return Err(RecordError::PayloadTooLarge(n));
        }
        let ghost before = self.out@;
        let mut a = u16_to_le_bytes(channel_id);
        self.out.append(&mut a);
        let mut b = u64_to_le_bytes(sequence);
        self.out.append(&mut b);
        self.out.push(timestamp.domain().code());
        let mut c = u128_to_le_bytes(timestamp.as_nanos() as u128);
        self.out.append(&mut c);
        let mut d = u32_to_le_bytes(n as u32);
        self.out.append(&mut d);
        let ghost prefix = self.out@;
        let mut i: usize = 0;
        while i < n
            invariant
                n == payload@.len(),
                i <= n,
                self.out@ == prefix + payload@.take(i as int),
            decreases n - i,
        {
            self.out.push(payload[i]);
            i = i + 1;
            assert(self.out@ =~= prefix + payload@.take(i as int));
        }
        assert(payload@.take(n as int) =~= payload@);
        assert(self.out@ =~= before + encode_record(
            RecordView {
                channel_id,
                sequence,
                domain: timestamp.spec_domain(),
                nanos: timestamp.spec_nanos(),
                payload: payload@,
            },
        ));
        Ok(())
    }

    /// The bytes written.
    pub fn finish(self) -> (b: Vec<u8>)
        ensures
            b@ == self@,
    {
        self.out
    }
}

/// Read a container's header: the byte range of its manifest JSON.
pub fn read_header(bytes: &[u8]) -> (r: Result<(usize, usize), RecordError>)
    ensures
        match decode_header(bytes@) {
            Ok((s, e)) => r == Ok::<(usize, usize), RecordError>((s as usize, e as usize)),
            Err(e) => r == Err::<(usize, usize), RecordError>(e),
        },
{
    let len = bytes.len();
    if len < 6 {
        return Err(RecordError::Truncated(0));
    }
    let m: [u8; 6] = [0x4eu8, 0x52u8, 0x58u8, 0x52u8, 0x45u8, 0x43u8];
    let mut i: usize = 0;
    while i < 6
        invariant
            len == bytes@.len(),
            len >= 6,
            i <= 6,
            m@ == magic(),
            forall|k: int| 0 <= k < i ==> bytes@[k] == magic()[k],
        decreases 6 - i,
    {
        if bytes[i] != m[i] {
            assert(bytes@.subrange(0, 6)[i as int] != magic()[i as int]);
            return Err(RecordError::BadMagic);
        }
        i = i + 1;
    }
    assert(bytes@.subrange(0, 6) =~= magic());
    if len < 7 {
        return Err(RecordError::Truncated(6));
    }
    if bytes[6] != FORMAT_VERSION {
        return Err(RecordError::UnsupportedVersion(bytes[6]));
    }
    if len < 11 {
        return Err(RecordError::Truncated(7));
    }
    let n = u32_from_le_bytes(slice_subrange(bytes, 7, 11)) as usize;
    if n > len - 11 {
        return Err(RecordError::Truncated(11));
    }
    Ok((11, 11 + n))
}

/// Records already read, followed by what the rest decodes to.
pub open spec fn prepend(xs: Seq<RecordView>, r: Result<Seq<RecordView>, RecordError>) -> Result<Seq<RecordView>, RecordError> {
    match r {
        Ok(ys) => Ok(xs + ys),
        Err(e) => Err(e),
    }
}

/// Read the records of a container from `start` (the end of its manifest) to the end.
pub fn read_records(bytes: &[u8], start: usize) -> (r: Result<Vec<RawRecord>, RecordError>)
    requires
        start <= bytes@.len(),
    ensures
        match decode_records(bytes@.subrange(start as int, bytes@.len() as int), start as int) {
            Ok(rs) => r is Ok && record_views(r->Ok_0@) == rs,
            Err(e) => r is Err && r->Err_0 == e,
        },
{
    let len = bytes.len();
    let ghost all = bytes@.subrange(start as int, len as int);
    let mut pos = start;
    let mut out: Vec<RawRecord> = Vec::new();
    assert(record_views(out@) =~= Seq::<RecordView>::empty());
    assert(all =~= bytes@.subrange(pos as int, len as int));
    while pos < len
        invariant
            len == bytes@.len(),
            start <= pos <= len,
            all == bytes@.subrange(start as int, len as int),
            decode_records(all, start as int) == prepend(
                record_views(out@),
                decode_records(bytes@.subrange(pos as int, len as int), pos as int),
            ),
        decreases len - pos,
    {
        let ghost sub = bytes@.subrange(pos as int, len as int);
        let rem = len - pos;
        if rem < 2 {
            return Err(RecordError::Truncated(pos));
        }
        if rem < 10 {
            return Err(RecordError::Truncated(pos + 2));
        }
        if rem < 11 {
            return Err(RecordError::Truncated(pos + 10));
        }
        let code = bytes[pos + 10];
        assert(sub[10] == code);
        let domain = match ClockDomain::from_code(code) {
            Some(d) => d,
            None => return Err(RecordError::UnknownClockDomain(code)),
        };
        if rem < 27 {
            return Err(RecordError::Truncated(pos + 11));
        }
        if rem < 31 {
            return Err(RecordError::Truncated(pos + 27));
        }
        let n = u32_from_le_bytes(slice_subrange(bytes, pos + 27, pos + 31)) as usize;
        assert(sub.subrange(27, 31) =~= bytes@.subrange(pos + 27, pos + 31));
        if n > rem - 31 {
            return Err(RecordError::Truncated(pos + 31));
        }
        let channel_id = u16_from_le_bytes(slice_subrange(bytes, pos, pos + 2));
        assert(sub.subrange(0, 2) =~= bytes@.subrange(pos as int, pos + 2));
        let sequence = u64_from_le_bytes(slice_subrange(bytes, pos + 2, pos + 10));
        assert(sub.subrange(2, 10) =~= bytes@.subrange(pos + 2, pos + 10));
        let bits = u128_from_le_bytes(slice_subrange(bytes, pos + 11, pos + 27));
        assert(sub.subrange(11, 27) =~= bytes@.subrange(pos + 11, pos + 27));
        let payload = copy_bytes(slice_subrange(bytes, pos + 31, pos + 31 + n));
        assert(sub.subrange(31, 31 + n as int) =~= bytes@.subrange(pos + 31, pos + 31 + n));
        let record = RawRecord { channel_id, sequence, timestamp: Timestamp::new(domain, bits as i128), payload };
        let ghost before = out@;
        out.push(record);
        let next = pos + 31 + n;
        proof {
            assert(sub.subrange(31 + n as int, sub.len() as int) =~= bytes@.subrange(next as int, len as int));
            assert(record_views(out@) =~= record_views(before).push(record_view(record)));
            let t = decode_records(bytes@.subrange(next as int, len as int), next as int);
            match t {
                Ok(ys) => {
                    assert(record_views(before) + (seq![record_view(record)] + ys) =~= record_views(out@) + ys);
                },
                Err(e) => {},
            }
        }
        pos = next;
    }
    assert(bytes@.subrange(pos as int, len as int) =~= Seq::<u8>::empty());
    assert(record_views(out@) + Seq::<RecordView>::empty() =~= record_views(out@));
    Ok(out)
}

/// A fully parsed recording held in memory.
#[derive(Debug, Clone)]
pub struct NativeRecording {
    manifest: RecordingManifest,
    records: Vec<RawRecord>,
}

impl NativeRecording {
    /// The parsed manifest.
    pub closed spec fn spec_manifest(&self) -> RecordingManifest {
        self.manifest
    }

    /// The records, in recorded order.
    pub closed spec fn spec_records(&self) -> Seq<RawRecord> {
        self.records@
    }

    /// A recording from its parsed manifest and records.
    pub fn from_parts(manifest: RecordingManifest, records: Vec<RawRecord>) -> (r: Self)
        ensures
            r.spec_manifest() == manifest,
            r.spec_records() == records@,
    {
        NativeRecording { manifest, records }
    }

    /// The number of records on a given channel.
    pub fn count_for(&self, channel_id: u16) -> (n: usize)
        ensures
            n == count_on(self.spec_records(), channel_id),
    {
        Recording::count_for(self, channel_id)
    }

    /// The records on a given channel, in recorded order.
    pub fn records_for(&self, channel_id: u16) -> (rs: Vec<&RawRecord>)
        ensures
            rs@.map_values(|r: &RawRecord| *r) == records_on(self.spec_records(), channel_id),
    {
        Recording::records_for(self, channel_id)
    }
}

impl Recording for NativeRecording {
    open spec fn recording_manifest(&self) -> RecordingManifest {
        self.spec_manifest()
    }

    open spec fn recording_records(&self) -> Seq<RawRecord> {
        self.spec_records()
    }

    fn manifest(&self) -> (m: &RecordingManifest) {
        &self.manifest
    }

    fn records(&self) -> (rs: &[RawRecord]) {
        self.records.as_slice()
    }
}

} // verus!
