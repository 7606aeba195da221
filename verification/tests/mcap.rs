//! MCAP container tests: round-trip fidelity, cross-container replay
//! equivalence, byte-structure conformance and corruption handling.

use neuradix::record::digest::replay_digest;
use neuradix::record::error::RecordError;
use neuradix::record::mcap::McapWriter;
use neuradix::record::mcap_import::limits::McapImportLimits;
use neuradix::record::mcap_import::projection::McapRecording;
use neuradix::record::mcap_import::state::{McapArchive, MCAP_MAGIC};
use neuradix::record::model::{Channel, ClockDomain, RecordingManifest, SoftwareId, Timestamp};
use neuradix::record::native::{read_header, read_records, NativeRecordWriter, NativeRecording};
use neuradix::record::recording::Recording;

fn manifest() -> RecordingManifest {
    RecordingManifest::builder("neuradix-record/test")
        .channel(Channel {
            id: 0,
            name: "navigation/vehicle-depth".to_owned(),
            schema_id: "sha256:deadbeef".to_owned(),
            clock_domain: "simulation".to_owned(),
        })
        .channel(Channel {
            id: 1,
            name: "actuation/thrust".to_owned(),
            schema_id: "sha256:c0ffee".to_owned(),
            clock_domain: "monotonic".to_owned(),
        })
        .software(SoftwareId::new("test", "0.0.1"))
        .seed(7)
        .note("mcap-roundtrip")
        .build()
}

/// The manifest as JSON text, written with `serde_json`'s value model.
fn manifest_json(m: &RecordingManifest) -> String {
    let channels: Vec<serde_json::Value> = m
        .channels
        .iter()
        .map(|c| {
            let mut o = serde_json::Map::new();
            o.insert("id".into(), c.id.into());
            o.insert("name".into(), c.name.clone().into());
            o.insert("schema_id".into(), c.schema_id.clone().into());
            o.insert("clock_domain".into(), c.clock_domain.clone().into());
            serde_json::Value::Object(o)
        })
        .collect();
    let software: Vec<serde_json::Value> = m
        .software
        .iter()
        .map(|s| {
            let mut o = serde_json::Map::new();
            o.insert("name".into(), s.name.clone().into());
            o.insert("version".into(), s.version.clone().into());
            serde_json::Value::Object(o)
        })
        .collect();
    let mut o = serde_json::Map::new();
    o.insert("formatVersion".into(), m.format_version.into());
    o.insert("writer".into(), m.writer.clone().into());
    o.insert("channels".into(), channels.into());
    o.insert("software".into(), software.into());
    o.insert("seed".into(), m.seed.map(serde_json::Value::from).unwrap_or(serde_json::Value::Null));
    o.insert("note".into(), m.note.clone().map(serde_json::Value::from).unwrap_or(serde_json::Value::Null));
    serde_json::to_string(&serde_json::Value::Object(o)).unwrap()
}

fn domain_of(channel: u16) -> ClockDomain {
    if channel == 1 {
        ClockDomain::Monotonic
    } else {
        ClockDomain::Simulation
    }
}

/// Write a two-channel recording with the given payloads to MCAP bytes.
fn write_mcap(samples: &[(u16, u64, i128, &[u8])]) -> Vec<u8> {
    let mut w = McapWriter::new(&manifest()).unwrap();
    for &(channel, seq, nanos, payload) in samples {
        w.write_record(channel, seq, Timestamp::new(domain_of(channel), nanos), payload).unwrap();
    }
    w.finish(&manifest_json(&manifest())).unwrap()
}

/// Read MCAP bytes back: the embedded manifest JSON must be the one written,
/// and the typed manifest is the one the recording was written with.
fn read_mcap(bytes: &[u8]) -> Result<McapRecording, RecordError> {
    let archive = McapArchive::from_reader(bytes, McapImportLimits::default())?;
    let json: serde_json::Value = serde_json::from_str(&archive.legacy_manifest_json()?)
        .map_err(|e| RecordError::Manifest(e.to_string()))?;
    let expected: serde_json::Value = serde_json::from_str(&manifest_json(&manifest())).unwrap();
    assert_eq!(json, expected);
    archive.try_into_recording(manifest())
}

fn samples() -> Vec<(u16, u64, i128, &'static [u8])> {
    vec![
        (0, 0, 0, b"depth-0".as_slice()),
        (0, 1, 1_000_000, b"depth-1".as_slice()),
        (1, 0, 1_500_000, b"thr".as_slice()),
        (0, 2, 2_000_000, b"depth-2".as_slice()),
    ]
}

#[test]
fn mcap_starts_and_ends_with_magic() {
    let bytes = write_mcap(&samples());
    assert_eq!(&bytes[..8], &MCAP_MAGIC);
    assert_eq!(&bytes[bytes.len() - 8..], &MCAP_MAGIC);
    // First record after the magic is the Header (opcode 0x01).
    assert_eq!(bytes[8], 0x01);
}

#[test]
fn mcap_round_trips_records_and_manifest() {
    let bytes = write_mcap(&samples());
    let rec = read_mcap(&bytes).unwrap();

    assert_eq!(rec.manifest().writer, "neuradix-record/test");
    assert_eq!(rec.manifest().seed, Some(7));
    assert_eq!(rec.manifest().note.as_deref(), Some("mcap-roundtrip"));
    assert_eq!(rec.manifest().channels.len(), 2);
    assert_eq!(rec.manifest().software.len(), 1);

    let expect = samples();
    assert_eq!(rec.records().len(), expect.len());
    for (got, (ch, seq, nanos, payload)) in rec.records().iter().zip(expect) {
        assert_eq!(got.channel_id, ch);
        assert_eq!(got.sequence, seq);
        assert_eq!(got.timestamp.as_nanos(), nanos);
        assert_eq!(got.payload, payload);
        assert_eq!(got.timestamp.domain(), domain_of(ch));
    }
    assert_eq!(rec.count_for(0), 3);
    assert_eq!(rec.count_for(1), 1);
}

#[test]
fn native_and_mcap_agree_on_replay_digest() {
    let mut native = NativeRecordWriter::new(manifest_json(&manifest()).as_bytes()).unwrap();
    for &(channel, seq, nanos, payload) in &samples() {
        native.write_record(channel, seq, Timestamp::new(domain_of(channel), nanos), payload).unwrap();
    }
    let native_bytes = native.finish();
    let (_, end) = read_header(&native_bytes).unwrap();
    let native_rec = NativeRecording::from_parts(manifest(), read_records(&native_bytes, end).unwrap());
    let mcap_rec = read_mcap(&write_mcap(&samples())).unwrap();

    assert_eq!(
        replay_digest(&native_rec),
        replay_digest(&mcap_rec),
        "native and MCAP recordings of the same records must share a replay digest"
    );
}

#[test]
fn mcap_output_is_deterministic() {
    assert_eq!(write_mcap(&samples()), write_mcap(&samples()), "MCAP encoding must be byte-stable");
}

#[test]
fn empty_mcap_round_trips() {
    let bytes = write_mcap(&[]);
    assert_eq!(&bytes[..8], &MCAP_MAGIC);
    let rec = read_mcap(&bytes).unwrap();
    assert_eq!(rec.records().len(), 0);
    // The two manifest channels survive even with no messages.
    assert_eq!(rec.manifest().channels.len(), 2);
    assert!(replay_digest(&rec).starts_with("sha256:"));
}

#[test]
fn mcap_bad_magic_is_rejected() {
    let err = read_mcap(b"definitely not an mcap file!!!!!").unwrap_err();
    assert!(matches!(err, RecordError::Mcap(_)), "got {err:?}");
}

#[test]
fn truncated_mcap_is_rejected() {
    let bytes = write_mcap(&samples());
    let err = read_mcap(&bytes[..bytes.len() - 12]).unwrap_err();
    assert!(matches!(err, RecordError::Mcap(_) | RecordError::Truncated(_)), "got {err:?}");
}

#[test]
fn a_negative_timestamp_is_rejected() {
    let mut w = McapWriter::new(&manifest()).unwrap();
    let err = w.write_record(0, 0, Timestamp::new(ClockDomain::Simulation, -1), b"x").unwrap_err();
    assert!(matches!(err, RecordError::TimestampOutOfRange(-1)), "got {err:?}");
}

#[test]
fn a_sequence_beyond_u32_is_rejected() {
    let mut w = McapWriter::new(&manifest()).unwrap();
    let seq = u64::from(u32::MAX) + 1;
    let err = w.write_record(0, seq, Timestamp::new(ClockDomain::Simulation, 0), b"x").unwrap_err();
    assert!(matches!(err, RecordError::SequenceTooLarge(_)), "got {err:?}");
}

/// Locate the summary `Statistics` record (opcode 0x0B) and return its content,
/// by walking the `opcode(u8) + length(u64 LE) + content` record framing.
fn find_statistics(bytes: &[u8]) -> Vec<u8> {
    let mut pos = 8;
    let end = bytes.len() - 8;
    while pos < end {
        let opcode = bytes[pos];
        pos += 1;
        let len = u64::from_le_bytes(bytes[pos..pos + 8].try_into().unwrap()) as usize;
        pos += 8;
        let content = &bytes[pos..pos + len];
        pos += len;
        if opcode == 0x0B {
            return content.to_vec();
        }
    }
    panic!("no Statistics record found");
}

#[test]
fn statistics_reports_message_and_metadata_counts() {
    let bytes = write_mcap(&samples());
    let stats = find_statistics(&bytes);
    let message_count = u64::from_le_bytes(stats[0..8].try_into().unwrap());
    let metadata_count = u32::from_le_bytes(stats[18..22].try_into().unwrap());
    assert_eq!(message_count, samples().len() as u64);
    assert_eq!(metadata_count, 1, "statistics must count the manifest metadata record");
}

#[test]
fn too_many_channels_is_rejected() {
    // Schema ids are u16 with 0 reserved, so at most 65535 channels fit.
    let mut builder = RecordingManifest::builder("neuradix-record/test");
    for id in 0..=u16::MAX {
        builder = builder.channel(Channel {
            id,
            name: format!("c{id}"),
            schema_id: String::new(),
            clock_domain: "monotonic".to_owned(),
        });
    }
    let m = builder.build();
    let err = McapWriter::new(&m).unwrap().finish("{}").unwrap_err();
    assert!(matches!(err, RecordError::TooManyChannels(_)), "got {err:?}");
}

#[test]
fn exactly_the_largest_channel_count_is_written() {
    let mut builder = RecordingManifest::builder("neuradix-record/test");
    for id in 0..u16::MAX {
        builder = builder.channel(Channel {
            id,
            name: String::new(),
            schema_id: String::new(),
            clock_domain: "monotonic".to_owned(),
        });
    }
    let bytes = McapWriter::new(&builder.build()).unwrap().finish("{}").unwrap();
    assert_eq!(&bytes[bytes.len() - 8..], &MCAP_MAGIC);
}

#[test]
fn record_channels_come_first_and_unknown_channels_are_named() {
    let mut w = McapWriter::new(&manifest()).unwrap();
    w.write_record(7, 0, Timestamp::new(ClockDomain::Simulation, 5), b"p").unwrap();
    let bytes = w.finish("{}").unwrap();
    // Header, metadata, then the first Schema record: schema id 1 for the
    // record-bearing channel 7, named by its id.
    let mut pos = 8;
    for _ in 0..2 {
        let len = u64::from_le_bytes(bytes[pos + 1..pos + 9].try_into().unwrap()) as usize;
        pos += 9 + len;
    }
    assert_eq!(bytes[pos], 0x03);
    let body = &bytes[pos + 9..];
    assert_eq!(u16::from_le_bytes([body[0], body[1]]), 1);
    let name_len = u32::from_le_bytes(body[2..6].try_into().unwrap()) as usize;
    assert_eq!(&body[6..6 + name_len], b"channel-7");
}

#[test]
fn written_files_frame_from_header_to_footer() {
    for samples in [samples(), Vec::new()] {
        let bytes = write_mcap(&samples);
        let mut pos = 8;
        let mut ops = Vec::new();
        loop {
            let op = bytes[pos];
            let len = u64::from_le_bytes(bytes[pos + 1..pos + 9].try_into().unwrap()) as usize;
            ops.push(op);
            pos += 9 + len;
            if op == 0x02 {
                break;
            }
        }
        assert_eq!(ops[0], 0x01);
        assert_eq!(pos, bytes.len() - 8);
        // Header, metadata, two definitions, the messages, DataEnd, two
        // schemas, two channels, statistics and the footer.
        assert_eq!(ops.len(), 2 + 4 + samples.len() + 1 + 4 + 1 + 1);
    }
}
