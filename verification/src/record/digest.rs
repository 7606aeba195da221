//! The replay digest: a deterministic content hash over a recording's records.
//!
//! Two replays of the same recording produce the same digest, and any change to
//! the ordered records changes the hashed bytes. The manifest is deliberately
//! excluded, so provenance notes do not perturb the behavioural digest.
use crate::graph::identity::{hex_text, push_hex, push_lit, sha256, sha256_digest};
use crate::record::model::domain_code;
use crate::record::model::ClockDomain;
use crate::record::native::{record_view, record_views, RecordView};
use crate::record::recording::Recording;
use crate::text::string_from_chars;
use vstd::bytes::{
    lemma_auto_spec_u128_to_from_le_bytes, lemma_auto_spec_u16_to_from_le_bytes, lemma_auto_spec_u64_to_from_le_bytes,
    spec_u128_from_le_bytes, spec_u128_to_le_bytes, spec_u16_from_le_bytes, spec_u16_to_le_bytes,
    spec_u64_from_le_bytes, spec_u64_to_le_bytes, u128_to_le_bytes, u16_to_le_bytes, u64_to_le_bytes,
};
use vstd::prelude::*;

verus! {

/// The hashed bytes of one record: channel id, sequence, clock domain code,
/// timestamp, payload length and payload.
pub open spec fn digest_entry(r: RecordView) -> Seq<u8> {
    spec_u16_to_le_bytes(r.channel_id) + spec_u64_to_le_bytes(r.sequence) + seq![domain_code(r.domain)]
        + spec_u128_to_le_bytes(r.nanos as u128) + spec_u64_to_le_bytes(r.payload.len() as u64) + r.payload
}

/// The hashed bytes of records, in order.
pub open spec fn digest_input(rs: Seq<RecordView>) -> Seq<u8>
    decreases rs.len(),
{
    if rs.len() == 0 {
        Seq::empty()
    } else {
        digest_input(rs.drop_last()) + digest_entry(rs.last())
    }
}

/// The `sha256:<hex>` replay digest of records.
pub open spec fn replay_digest_of(rs: Seq<RecordView>) -> Seq<char> {
    "sha256:"@ + hex_text(sha256(digest_input(rs)))
}

/// The hashed bytes start with the first record's entry.
proof fn lemma_digest_input_first(rs: Seq<RecordView>)
    requires
        rs.len() > 0,
    ensures
        digest_input(rs) == digest_entry(rs[0]) + digest_input(rs.drop_first()),
    decreases rs.len(),
{
    if rs.len() == 1 {
        assert(rs.drop_last() =~= Seq::<RecordView>::empty());
        assert(rs.drop_first() =~= Seq::<RecordView>::empty());
        assert(digest_input(rs) =~= digest_entry(rs[0]) + digest_input(rs.drop_first()));
    } else {
        lemma_digest_input_first(rs.drop_last());
        assert(rs.drop_last().drop_first() =~= rs.drop_first().drop_last());
        assert(rs.drop_first().last() == rs.last());
        assert(rs.drop_last()[0] == rs[0]);
        assert(digest_input(rs) =~= digest_entry(rs[0]) + digest_input(rs.drop_first()));
    }
}

proof fn lemma_i128_bits_injective(a: i128, b: i128)
    ensures
        (a as u128) == (b as u128) ==> a == b,
{
    assert((a as u128) == (b as u128) ==> a == b) by (bit_vector);
}

/// The hashed bytes of one entry followed by more bytes determine the entry and the rest.
proof fn lemma_digest_entry_unique(r1: RecordView, r2: RecordView, rest1: Seq<u8>, rest2: Seq<u8>)
    requires
        r1.payload.len() <= u64::MAX,
        r2.payload.len() <= u64::MAX,
        digest_entry(r1) + rest1 == digest_entry(r2) + rest2,
    ensures
        r1 == r2,
        rest1 == rest2,
{
    lemma_auto_spec_u16_to_from_le_bytes();
    lemma_auto_spec_u64_to_from_le_bytes();
    lemma_auto_spec_u128_to_from_le_bytes();
    let s1 = digest_entry(r1) + rest1;
    let s2 = digest_entry(r2) + rest2;
    let n1 = r1.payload.len();
    let n2 = r2.payload.len();
    assert(s1.subrange(0, 2) =~= spec_u16_to_le_bytes(r1.channel_id));
    assert(s2.subrange(0, 2) =~= spec_u16_to_le_bytes(r2.channel_id));
    assert(s1.subrange(2, 10) =~= spec_u64_to_le_bytes(r1.sequence));
    assert(s2.subrange(2, 10) =~= spec_u64_to_le_bytes(r2.sequence));
    assert(s1[10] == domain_code(r1.domain) && s2[10] == domain_code(r2.domain));
    assert(s1.subrange(11, 27) =~= spec_u128_to_le_bytes(r1.nanos as u128));
    assert(s2.subrange(11, 27) =~= spec_u128_to_le_bytes(r2.nanos as u128));
    assert(s1.subrange(27, 35) =~= spec_u64_to_le_bytes(n1 as u64));
    assert(s2.subrange(27, 35) =~= spec_u64_to_le_bytes(n2 as u64));
    assert(spec_u16_from_le_bytes(s1.subrange(0, 2)) == r1.channel_id);
    assert(spec_u64_from_le_bytes(s1.subrange(2, 10)) == r1.sequence);
    assert(spec_u128_from_le_bytes(s1.subrange(11, 27)) == r1.nanos as u128);
    assert(spec_u128_from_le_bytes(s2.subrange(11, 27)) == r2.nanos as u128);
    assert(spec_u64_from_le_bytes(s1.subrange(27, 35)) == n1 as u64);
    assert(spec_u64_from_le_bytes(s2.subrange(27, 35)) == n2 as u64);
    lemma_i128_bits_injective(r1.nanos, r2.nanos);
    assert(r1.domain == r2.domain) by {
        match r1.domain {
            ClockDomain::Monotonic => {},
            ClockDomain::Simulation => {},
        }
        match r2.domain {
            ClockDomain::Monotonic => {},
            ClockDomain::Simulation => {},
        }
    }
    assert(n1 == n2);
    assert(s1.subrange(35, 35 + n1 as int) =~= r1.payload);
    assert(s2.subrange(35, 35 + n2 as int) =~= r2.payload);
    assert(s1.subrange(35 + n1 as int, s1.len() as int) =~= rest1);
    assert(s2.subrange(35 + n2 as int, s2.len() as int) =~= rest2);
}

/// The hashed bytes are unambiguous: recordings whose hashed bytes are equal
/// have equal records, in the same order. A change to the ordered records
/// therefore changes what is hashed.
pub proof fn law_digest_input_unambiguous(rs1: Seq<RecordView>, rs2: Seq<RecordView>)
    requires
        forall|i: int| 0 <= i < rs1.len() ==> #[trigger] rs1[i].payload.len() <= u64::MAX,
        forall|i: int| 0 <= i < rs2.len() ==> #[trigger] rs2[i].payload.len() <= u64::MAX,
        digest_input(rs1) == digest_input(rs2),
    ensures
        rs1 == rs2,
    decreases rs1.len(),
{
    if rs1.len() == 0 && rs2.len() == 0 {
        assert(rs1 =~= rs2);
    } else if rs1.len() == 0 {
        lemma_digest_input_first(rs2);
        assert(digest_input(rs2).len() >= 35);
    } else if rs2.len() == 0 {
        lemma_digest_input_first(rs1);
        assert(digest_input(rs1).len() >= 35);
    } else {
        lemma_digest_input_first(rs1);
        lemma_digest_input_first(rs2);
        lemma_digest_entry_unique(rs1[0], rs2[0], digest_input(rs1.drop_first()), digest_input(rs2.drop_first()));
        assert forall|i: int| 0 <= i < rs1.drop_first().len() implies #[trigger] rs1.drop_first()[i].payload.len()
            <= u64::MAX by {
            assert(rs1.drop_first()[i] == rs1[i + 1]);
        }
        assert forall|i: int| 0 <= i < rs2.drop_first().len() implies #[trigger] rs2.drop_first()[i].payload.len()
            <= u64::MAX by {
            assert(rs2.drop_first()[i] == rs2[i + 1]);
        }
        law_digest_input_unambiguous(rs1.drop_first(), rs2.drop_first());
        assert(rs1 =~= seq![rs1[0]] + rs1.drop_first());
        assert(rs2 =~= seq![rs2[0]] + rs2.drop_first());
    }
}

fn append(out: &mut Vec<u8>, bytes: &Vec<u8>)
    ensures
        final(out)@ == old(out)@ + bytes@,
{
    let mut i: usize = 0;
    let ghost start = out@;
    while i < bytes.len()
        invariant
            i <= bytes@.len(),
            out@ == start + bytes@.take(i as int),
        decreases bytes@.len() - i,
    {
        out.push(bytes[i]);
        i = i + 1;
        assert(out@ =~= start + bytes@.take(i as int));
    }
    assert(bytes@.take(i as int) =~= bytes@);
}

/// Compute the `sha256:<hex>` replay digest of a recording.
///
/// The digest covers, for every record in order: channel id, sequence, clock
/// domain, timestamp and payload bytes; the manifest is excluded.
pub fn replay_digest<R: Recording>(recording: &R) -> (s: String)
    ensures
        s@ == replay_digest_of(record_views(recording.recording_records())),
{
    let records = recording.records();
    let ghost rs = record_views(records@);
    let mut input: Vec<u8> = Vec::new();
    let mut i: usize = 0;
    while i < records.len()
        invariant
            i <= records@.len(),
            rs == record_views(records@),
            input@ == digest_input(rs.take(i as int)),
        decreases records@.len() - i,
    {
        let r = &records[i];
        append(&mut input, &u16_to_le_bytes(r.channel_id));
        append(&mut input, &u64_to_le_bytes(r.sequence));
        input.push(r.timestamp.domain().code());
        append(&mut input, &u128_to_le_bytes(r.timestamp.as_nanos() as u128));
        append(&mut input, &u64_to_le_bytes(r.payload.len() as u64));
        let n = r.payload.len();
        let ghost before = input@;
        let mut j: usize = 0;
        while j < n
            invariant
                n == r.payload@.len(),
                j <= n,
                input@ == before + r.payload@.take(j as int),
            decreases n - j,
        {
            input.push(r.payload[j]);
            j = j + 1;
            assert(input@ =~= before + r.payload@.take(j as int));
        }
        proof {
            assert(r.payload@.take(n as int) =~= r.payload@);
            assert(rs.take(i + 1).drop_last() =~= rs.take(i as int));
            assert(rs.take(i + 1).last() == record_view(*r));
            assert(input@ =~= digest_input(rs.take(i as int)) + digest_entry(record_view(*r)));
        }
        i = i + 1;
    }
    assert(rs.take(i as int) =~= rs);
    let digest = sha256_digest(input.as_slice());
    let mut out: Vec<char> = Vec::new();
    push_lit(&mut out, "sha256:");
    push_hex(&mut out, &digest);
    string_from_chars(&out)
}

} // verus!
