//! The historical one-timestamp projection of an imported MCAP archive.

use neuradix::record::recording::Recording;
use neuradix::record::error::RecordError;
use neuradix::record::mcap_import::limits::McapImportLimits;
use neuradix::record::mcap_import::state::{McapArchive, MCAP_MAGIC};
use neuradix::record::model::{Channel, ClockDomain, RecordingManifest};

fn record(op: u8, body: &[u8]) -> Vec<u8> {
    let mut out = vec![op];
    out.extend_from_slice(&(body.len() as u64).to_le_bytes());
    out.extend_from_slice(body);
    out
}

fn string(s: &str) -> Vec<u8> {
    let mut out = (s.len() as u32).to_le_bytes().to_vec();
    out.extend_from_slice(s.as_bytes());
    out
}

fn map(pairs: &[(&str, &str)]) -> Vec<u8> {
    let mut body = Vec::new();
    for (k, v) in pairs {
        body.extend(string(k));
        body.extend(string(v));
    }
    let mut out = (body.len() as u32).to_le_bytes().to_vec();
    out.extend(body);
    out
}

const JSON: &str = "{\"formatVersion\":1}";

fn archive_bytes(library: &str, publish_time: u64, extra_metadata: bool) -> Vec<u8> {
    let mut out = MCAP_MAGIC.to_vec();
    let mut header = string("neuradix");
    header.extend(string(library));
    out.extend(record(0x01, &header));
    let mut metadata = string("neuradix.manifest");
    metadata.extend(map(&[("json", JSON)]));
    out.extend(record(0x0c, &metadata));
    if extra_metadata {
        let mut other = string("other");
        other.extend(map(&[]));
        out.extend(record(0x0c, &other));
    }
    let mut schema = 1u16.to_le_bytes().to_vec();
    schema.extend(string("nav/depth"));
    schema.extend(string("neuradix/schema-id"));
    schema.extend((3u32).to_le_bytes());
    schema.extend(b"sid");
    out.extend(record(0x03, &schema));
    let mut channel = 0u16.to_le_bytes().to_vec();
    channel.extend(1u16.to_le_bytes());
    channel.extend(string("nav/depth"));
    channel.extend(string("neuradix"));
    channel.extend(map(&[("clockDomain", "monotonic"), ("schemaIdentity", "sid")]));
    out.extend(record(0x04, &channel));
    for (sequence, payload) in [(5u32, b"xy".to_vec()), (6, b"z".to_vec())] {
        let mut message = 0u16.to_le_bytes().to_vec();
        message.extend(sequence.to_le_bytes());
        message.extend(100u64.to_le_bytes());
        message.extend(publish_time.to_le_bytes());
        message.extend(payload);
        out.extend(record(0x05, &message));
    }
    out.extend(record(0x0f, &0u32.to_le_bytes()));
    let mut footer = 0u64.to_le_bytes().to_vec();
    footer.extend(0u64.to_le_bytes());
    footer.extend(0u32.to_le_bytes());
    out.extend(record(0x02, &footer));
    out.extend(MCAP_MAGIC);
    out
}

fn manifest(name: &str) -> RecordingManifest {
    RecordingManifest::builder("neuradix-record/test")
        .channel(Channel { id: 0, name: name.into(), schema_id: "sid".into(), clock_domain: "monotonic".into() })
        .build()
}

fn archive(bytes: &[u8]) -> McapArchive {
    McapArchive::from_reader(bytes, McapImportLimits::default()).unwrap()
}

#[test]
fn the_historical_profile_projects_to_records() {
    let a = archive(&archive_bytes("neuradix-record/0.0.1", 100, false));
    assert_eq!(a.legacy_manifest_json().unwrap(), JSON);
    let recording = a.try_into_recording(manifest("nav/depth")).unwrap();
    let records = recording.records();
    assert_eq!(records.len(), 2);
    assert_eq!(records[0].channel_id, 0);
    assert_eq!(records[0].sequence, 5);
    assert_eq!(records[0].timestamp.domain(), ClockDomain::Monotonic);
    assert_eq!(records[0].timestamp.as_nanos(), 100);
    assert_eq!(records[0].payload, b"xy".to_vec());
    assert_eq!(records[1].sequence, 6);
    assert_eq!(recording.manifest().writer, "neuradix-record/test");
}

#[test]
fn unequal_publishing_time_is_refused() {
    let a = archive(&archive_bytes("neuradix-record/0.0.1", 101, false));
    assert!(matches!(a.try_into_recording(manifest("nav/depth")), Err(RecordError::UnsupportedMcap(_))));
}

#[test]
fn a_foreign_producer_or_extra_metadata_is_refused() {
    let a = archive(&archive_bytes("other-writer/1", 100, false));
    assert!(matches!(a.legacy_manifest_json(), Err(RecordError::UnsupportedMcap(_))));
    assert!(matches!(a.try_into_recording(manifest("nav/depth")), Err(RecordError::UnsupportedMcap(_))));
    let a = archive(&archive_bytes("neuradix-record/0.0.1", 100, true));
    assert!(matches!(a.legacy_manifest_json(), Err(RecordError::UnsupportedMcap(_))));
}

#[test]
fn manifest_mismatches_are_refused() {
    let bytes = archive_bytes("neuradix-record/0.0.1", 100, false);
    assert!(matches!(
        archive(&bytes).try_into_recording(manifest("other/topic")),
        Err(RecordError::UnsupportedMcap(_))
    ));
    let mut two = manifest("nav/depth");
    two.channels.push(two.channels[0].clone());
    assert!(matches!(
        archive(&bytes).try_into_recording(two),
        Err(RecordError::Mcap("manifest/channel set mismatch"))
    ));
    let mut old = manifest("nav/depth");
    old.format_version = 2;
    assert!(matches!(
        archive(&bytes).try_into_recording(old),
        Err(RecordError::Mcap("manifest/channel set mismatch"))
    ));
    let mut unknown = manifest("nav/depth");
    unknown.channels[0].clock_domain = "wall".into();
    assert!(matches!(archive(&bytes).try_into_recording(unknown), Err(RecordError::UnsupportedMcap(_))));
    let mut missing = manifest("nav/depth");
    missing.channels[0].id = 3;
    assert!(matches!(
        archive(&bytes).try_into_recording(missing),
        Err(RecordError::Mcap("manifest references missing channel"))
    ));
}
