//! Round-trip, determinism and corruption tests for the native recording format.

use neuradix::record::digest::replay_digest;
use neuradix::record::error::RecordError;
use neuradix::record::model::{Channel, ClockDomain, RawRecord, RecordingManifest, SoftwareId, Timestamp};
use neuradix::record::native::{read_header, read_records, NativeRecordWriter, NativeRecording};
use neuradix::record::recording::{RecordCodec, Recording};

/// A trivial fixed-layout codec for a `(u32, i32)` message.
struct PairCodec;

impl RecordCodec for PairCodec {
    type Message = (u32, i32);

    fn encode(&self, m: &Self::Message) -> Vec<u8> {
        let mut out = Vec::with_capacity(8);
        out.extend_from_slice(&m.0.to_le_bytes());
        out.extend_from_slice(&m.1.to_le_bytes());
        out
    }

    fn decode(&self, bytes: &[u8]) -> Result<Self::Message, RecordError> {
        if bytes.len() != 8 {
            return Err(RecordError::Decode(format!("expected 8 bytes, got {}", bytes.len())));
        }
        let a = u32::from_le_bytes([bytes[0], bytes[1], bytes[2], bytes[3]]);
        let b = i32::from_le_bytes([bytes[4], bytes[5], bytes[6], bytes[7]]);
        Ok((a, b))
    }
}

fn sample_manifest() -> RecordingManifest {
    RecordingManifest::builder("neuradix-record/test")
        .channel(Channel {
            id: 0,
            name: "test/pair".to_owned(),
            schema_id: "sha256:deadbeef".to_owned(),
            clock_domain: "simulation".to_owned(),
        })
        .software(SoftwareId::new("test", "0.0.1"))
        .seed(42)
        .note("roundtrip")
        .build()
}

/// The manifest as JSON text, written by hand with `serde_json`'s value model.
fn manifest_json(m: &RecordingManifest) -> Vec<u8> {
    let channels: Vec<serde_json::Value> = m
        .channels
        .iter()
        .map(|c| {
            let mut o = serde_json::Map::new();
            o.insert("id".into(), c.id.into());
            o.insert("name".into(), c.name.clone().into());
            o.insert("schema_id".into(), c.schema_id.clone().into());
            o.insert("clock_domain".into(), c.clock_domain.clone().into());
            serde_json::Value::Object(o)
        })
        .collect();
    let software: Vec<serde_json::Value> = m
        .software
        .iter()
        .map(|s| {
            let mut o = serde_json::Map::new();
            o.insert("name".into(), s.name.clone().into());
            o.insert("version".into(), s.version.clone().into());
            serde_json::Value::Object(o)
        })
        .collect();
    let mut o = serde_json::Map::new();
    o.insert("formatVersion".into(), m.format_version.into());
    o.insert("writer".into(), m.writer.clone().into());
    o.insert("channels".into(), channels.into());
    o.insert("software".into(), software.into());
    o.insert("seed".into(), m.seed.map(serde_json::Value::from).unwrap_or(serde_json::Value::Null));
    o.insert("note".into(), m.note.clone().map(serde_json::Value::from).unwrap_or(serde_json::Value::Null));
    serde_json::to_vec(&serde_json::Value::Object(o)).unwrap()
}

fn record_pairs(pairs: &[(u32, i32)]) -> Vec<u8> {
    let mut writer = NativeRecordWriter::new(&manifest_json(&sample_manifest())).unwrap();
    for (i, pair) in pairs.iter().enumerate() {
        let ts = Timestamp::new(ClockDomain::Simulation, i as i128 * 1_000_000);
        writer.write_record(0, i as u64, ts, &PairCodec.encode(pair)).unwrap();
    }
    writer.finish()
}

/// Read a container back; the manifest JSON is checked and the typed manifest
/// is the one the recording was written with.
fn from_bytes(bytes: &[u8]) -> Result<(NativeRecording, serde_json::Value), RecordError> {
    let (start, end) = read_header(bytes)?;
    let json: serde_json::Value =
        serde_json::from_slice(&bytes[start..end]).map_err(|e| RecordError::Manifest(e.to_string()))?;
    let records = read_records(bytes, end)?;
    Ok((NativeRecording::from_parts(sample_manifest(), records), json))
}

#[test]
fn records_round_trip_byte_for_byte() {
    let pairs = [(1u32, -1i32), (2, -2), (3, 3), (1000, 12345)];
    let bytes = record_pairs(&pairs);

    let (recording, json) = from_bytes(&bytes).unwrap();
    assert_eq!(json["writer"], "neuradix-record/test");
    assert_eq!(json["seed"], 42);
    assert_eq!(recording.manifest().writer, "neuradix-record/test");
    assert_eq!(recording.manifest().seed, Some(42));
    assert_eq!(recording.count_for(0), pairs.len());

    let decoded: Vec<(u32, i32)> =
        recording.records_for(0).iter().map(|r| PairCodec.decode(&r.payload).unwrap()).collect();
    assert_eq!(decoded, pairs);

    // Timestamps and domains survive the round trip.
    for (i, record) in recording.records().iter().enumerate() {
        assert_eq!(record.sequence, i as u64);
        assert_eq!(record.timestamp.domain(), ClockDomain::Simulation);
        assert_eq!(record.timestamp.as_nanos(), i as i128 * 1_000_000);
    }
}

#[test]
fn replay_digest_is_deterministic_and_sensitive() {
    let (a, _) = from_bytes(&record_pairs(&[(1, 2), (3, 4)])).unwrap();
    let (b, _) = from_bytes(&record_pairs(&[(1, 2), (3, 4)])).unwrap();
    assert_eq!(replay_digest(&a), replay_digest(&b), "same records => same digest");
    assert!(replay_digest(&a).starts_with("sha256:"));

    let (different, _) = from_bytes(&record_pairs(&[(1, 2), (3, 5)])).unwrap();
    assert_ne!(replay_digest(&a), replay_digest(&different), "changed payload => changed digest");
}

#[test]
fn roundtrip_bad_magic_is_rejected() {
    let err = from_bytes(b"not a recording at all").unwrap_err();
    assert!(matches!(err, RecordError::BadMagic));
}

#[test]
fn truncated_recording_is_rejected() {
    let bytes = record_pairs(&[(1, 2), (3, 4)]);
    // Cut off mid-record.
    let err = from_bytes(&bytes[..bytes.len() - 3]).unwrap_err();
    assert!(matches!(err, RecordError::Truncated(_)), "got {err:?}");
}

#[test]
fn empty_recording_has_manifest_and_no_records() {
    let bytes = record_pairs(&[]);
    let (recording, json) = from_bytes(&bytes).unwrap();
    assert_eq!(recording.records().len(), 0);
    assert_eq!(json["channels"].as_array().unwrap().len(), 1);
    assert_eq!(recording.manifest().channels.len(), 1);
    assert!(replay_digest(&recording).starts_with("sha256:"));
}

#[test]
fn header_layout_and_errors_are_exact() {
    let mut writer = NativeRecordWriter::new(b"{}").unwrap();
    writer.write_record(7, 9, Timestamp::new(ClockDomain::Monotonic, -5), b"xy").unwrap();
    let bytes = writer.finish();
    assert_eq!(&bytes[..6], b"NRXREC");
    assert_eq!(bytes[6], 1);
    assert_eq!(&bytes[7..11], &2u32.to_le_bytes());
    assert_eq!(read_header(&bytes).unwrap(), (11, 13));
    // One record: 2 + 8 + 1 + 16 + 4 + 2 bytes.
    assert_eq!(bytes.len(), 13 + 33);
    assert_eq!(&bytes[13..15], &7u16.to_le_bytes());
    assert_eq!(bytes[23], ClockDomain::Monotonic.code());
    assert_eq!(&bytes[24..40], &(-5i128).to_le_bytes());
    let records = read_records(&bytes, 13).unwrap();
    assert_eq!(
        records,
        vec![RawRecord {
            channel_id: 7,
            sequence: 9,
            timestamp: Timestamp::new(ClockDomain::Monotonic, -5),
            payload: b"xy".to_vec()
        }]
    );
    assert!(matches!(read_header(b"NRX"), Err(RecordError::Truncated(0))));
    assert!(matches!(read_header(b"NRXREC"), Err(RecordError::Truncated(6))));
    assert!(matches!(read_header(b"NRXREC\x02"), Err(RecordError::UnsupportedVersion(2))));
    assert!(matches!(read_header(b"NRXREC\x01\x00"), Err(RecordError::Truncated(7))));
    assert!(matches!(read_header(b"NRXREC\x01\x05\x00\x00\x00abc"), Err(RecordError::Truncated(11))));
}

#[test]
fn record_errors_name_their_offset() {
    let mut bytes = b"NRXREC\x01\x00\x00\x00\x00".to_vec();
    let mut w = NativeRecordWriter::new(b"").unwrap();
    w.write_record(1, 2, Timestamp::new(ClockDomain::Simulation, 3), b"abc").unwrap();
    let full = w.finish();
    assert_eq!(&full[..11], &bytes[..]);
    bytes.extend_from_slice(&full[11..]);
    assert_eq!(read_records(&bytes, 11).unwrap().len(), 1);
    assert!(matches!(read_records(&bytes[..12], 11), Err(RecordError::Truncated(11))));
    assert!(matches!(read_records(&bytes[..15], 11), Err(RecordError::Truncated(13))));
    assert!(matches!(read_records(&bytes[..21], 11), Err(RecordError::Truncated(21))));
    let mut unknown = bytes.clone();
    unknown[21] = 9;
    assert!(matches!(read_records(&unknown, 11), Err(RecordError::UnknownClockDomain(9))));
    assert!(matches!(read_records(&bytes[..30], 11), Err(RecordError::Truncated(22))));
    assert!(matches!(read_records(&bytes[..40], 11), Err(RecordError::Truncated(38))));
    assert!(matches!(read_records(&bytes[..44], 11), Err(RecordError::Truncated(42))));
}

#[test]
fn digest_ignores_the_manifest() {
    let bytes = record_pairs(&[(1, 2)]);
    let (a, _) = from_bytes(&bytes).unwrap();
    let b = NativeRecording::from_parts(RecordingManifest::builder("other").build(), a.records().to_vec());
    assert_eq!(replay_digest(&a), replay_digest(&b));
    let empty = NativeRecording::from_parts(sample_manifest(), Vec::new());
    // SHA-256 of no bytes.
    assert_eq!(
        replay_digest(&empty),
        "sha256:e3b0c44298fc1c149afbf4c8996fb92427ae41e4649b934ca495991b7852b855"
    );
}

#[test]
fn clock_domains_have_stable_codes_and_names() {
    for d in [ClockDomain::Monotonic, ClockDomain::Simulation] {
        assert_eq!(ClockDomain::from_code(d.code()), Some(d));
        assert_eq!(ClockDomain::parse(d.as_str()), Some(d));
    }
    assert_eq!(ClockDomain::parse("monotonic"), Some(ClockDomain::Monotonic));
    assert_eq!(ClockDomain::parse("wall"), None);
    assert_eq!(ClockDomain::from_code(200), None);
}

#[test]
fn manifest_channel_lookup_finds_the_first_match() {
    let m = RecordingManifest::builder("w")
        .channel(Channel::new(3, "a", "s1", ClockDomain::Monotonic))
        .channel(Channel::new(3, "b", "s2", ClockDomain::Simulation))
        .build();
    assert_eq!(m.channel(3).unwrap().name, "a");
    assert_eq!(m.channel(3).unwrap().clock_domain, "monotonic");
    assert!(m.channel(4).is_none());
    assert_eq!(m.format_version, 1);
}
