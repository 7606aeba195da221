//! Admission decisions of the bounded MCAP stream and its write budgets.

use neuradix::record::error::RecordError;
use neuradix::record::mcap_import::model::{McapChannel, McapHeader, McapMessageRef, McapMetadata, McapSchema};
use neuradix::record::mcap_write::limits::{add, charge, McapWriteLimits};
use neuradix::record::mcap_write::{McapStreamWriter, McapWriteAction, McapWriteStats};
use neuradix::record::mcap_write::legacy::{legacy_header, legacy_prelude, LegacyChannels};
use neuradix::record::model::{Channel, ClockDomain, RecordingManifest, Timestamp};
use neuradix::record::strmap::StringMap;

fn header() -> McapHeader {
    McapHeader { profile: "test".into(), library: "writer-test".into() }
}
fn schema(id: u16) -> McapSchema {
    McapSchema { id, name: "schema".into(), encoding: "opaque".into(), data: vec![0, 255, 7] }
}
fn map(pairs: &[(&str, &str)]) -> StringMap {
    let mut m = StringMap::new();
    for (k, v) in pairs {
        m.insert((*k).to_owned(), (*v).to_owned());
    }
    m
}
fn channel(id: u16) -> McapChannel {
    McapChannel {
        id,
        schema_id: 1,
        topic: "topic".into(),
        message_encoding: "raw".into(),
        metadata: map(&[("clock.source", "device"), ("clock.log", "host")]),
    }
}
fn metadata(name: &str) -> McapMetadata {
    McapMetadata { name: name.into(), entries: map(&[("one", "value"), ("two", "value")]) }
}
fn message(id: u16) -> McapMessageRef<'static> {
    McapMessageRef { channel_id: id, sequence: u32::MAX, log_time: u64::MAX, publish_time: 0, data: b"payload" }
}

/// Admit and confirm, as a caller whose MCAP writer always succeeds.
fn write(w: &mut McapStreamWriter, r: Result<McapWriteAction, RecordError>) -> Result<McapWriteAction, RecordError> {
    let a = r?;
    w.confirm();
    Ok(a)
}

fn populate(w: &mut McapStreamWriter) -> Result<(), RecordError> {
    let r = w.schema(&schema(1));
    write(w, r)?;
    let r = w.schema(&schema(2));
    write(w, r)?;
    let r = w.channel(&channel(0));
    write(w, r)?;
    let r = w.channel(&channel(1));
    write(w, r)?;
    let r = w.metadata(&metadata("a"));
    write(w, r)?;
    let r = w.metadata(&metadata("b"));
    write(w, r)?;
    for id in [0, 1, 0] {
        let r = w.message(message(id));
        write(w, r)?;
    }
    Ok(())
}

fn output(policy: McapWriteLimits) -> Result<u64, RecordError> {
    let mut w = McapStreamWriter::new(&header(), policy)?;
    populate(&mut w)?;
    w.finish()
}

#[test]
fn arithmetic_overflow_is_rejected() {
    assert!(add(u64::MAX, 1).is_err());
    assert!(charge(u64::MAX, 0).is_err());
}

#[test]
fn sizes_and_charges_are_exact() {
    assert_eq!(add(2, 3).unwrap(), 5);
    assert_eq!(charge(10, 2).unwrap(), 4 * 10 + 2048 + 2 * 256);
    assert!(matches!(add(u64::MAX, 1), Err(RecordError::InvalidMcapWrite("size/counter overflow"))));
}

#[test]
fn an_empty_stream_reserves_its_finalization() {
    let p = McapWriteLimits::default();
    let w = McapStreamWriter::new(&header(), p).unwrap();
    // Magic (8) + header record (9 + 4 + 4 + 4 + 11) + reserved tail (105).
    assert_eq!(w.projected_final_bytes(), 8 + 9 + 23 + 105);
    assert_eq!(w.stats().records, 1);
    let size = w.projected_final_bytes();
    assert_eq!(w.finish().unwrap(), size);
    assert!(McapStreamWriter::new(&header(), p.with_output_bytes(size).unwrap()).is_ok());
    assert!(matches!(
        McapStreamWriter::new(&header(), p.with_output_bytes(size - 1).unwrap()),
        Err(RecordError::WriteLimit { kind: "output bytes", .. })
    ));
}

#[test]
fn streaming_counts_each_confirmed_record() {
    let mut w = McapStreamWriter::new(&header(), McapWriteLimits::default()).unwrap();
    let start = *w.stats();
    populate(&mut w).unwrap();
    let s = *w.stats();
    assert_eq!(s.schemas, 2);
    assert_eq!(s.channels, 2);
    assert_eq!(s.metadata, 2);
    assert_eq!(s.messages, 3);
    assert_eq!(s.records, start.records + 9);
    // A message record is 9 framing bytes plus 22 field bytes plus the payload.
    let mut w2 = McapStreamWriter::new(&header(), McapWriteLimits::default()).unwrap();
    let r = w2.schema(&schema(1));
    write(&mut w2, r).unwrap();
    let r = w2.channel(&channel(0));
    write(&mut w2, r).unwrap();
    let before = w2.stats().accepted_bytes;
    let r = w2.message(message(0));
    write(&mut w2, r).unwrap();
    assert_eq!(w2.stats().accepted_bytes - before, 31 + 7);
    // The first message on a channel adds a statistics entry.
    assert_eq!(w2.projected_final_bytes(), w2.stats().accepted_bytes + 105 + 10);
}

#[test]
fn exact_admission_boundaries() {
    let p = McapWriteLimits::default();
    let mut w = McapStreamWriter::new(&header(), p).unwrap();
    populate(&mut w).unwrap();
    let stats = *w.stats();
    let size = w.finish().unwrap();
    // The largest record body is the channel definition: 4 + 9 + 7 + 51 bytes.
    let largest = 71;
    for policy in [
        p.with_output_bytes(size).unwrap(),
        p.with_record_bytes(largest).unwrap(),
        p.with_records(stats.records + 3).unwrap(),
        p.with_messages(3).unwrap(),
        p.with_message_bytes(7).unwrap(),
        p.with_schemas(2).unwrap(),
        p.with_channels(2).unwrap(),
        p.with_metadata(2).unwrap(),
        p.with_entries(2).unwrap(),
        p.with_string_bytes(12).unwrap(),
        p.with_state_bytes(stats.state_bytes as usize).unwrap(),
    ] {
        assert_eq!(output(policy).unwrap(), size);
    }
    for policy in [
        p.with_output_bytes(size - 1).unwrap(),
        p.with_record_bytes(largest - 1).unwrap(),
        p.with_records(stats.records + 2).unwrap(),
        p.with_messages(2).unwrap(),
        p.with_message_bytes(6).unwrap(),
        p.with_schemas(1).unwrap(),
        p.with_channels(1).unwrap(),
        p.with_metadata(1).unwrap(),
        p.with_entries(1).unwrap(),
        p.with_string_bytes(11).unwrap(),
        p.with_state_bytes(stats.state_bytes as usize - 1).unwrap(),
    ] {
        assert!(output(policy).is_err());
    }
    let mut w = McapStreamWriter::new(&header(), p.with_record_bytes(55).unwrap()).unwrap();
    let mut c = channel(0);
    c.schema_id = 0;
    c.metadata = StringMap::new();
    let r = w.channel(&c);
    write(&mut w, r).unwrap();
    // Statistics would grow from 46 to 56 bytes.
    assert!(matches!(
        w.message(message(0)),
        Err(RecordError::WriteLimit { kind: "statistics record bytes", limit: 55 })
    ));
}

#[test]
fn invalid_configuration() {
    let p = McapWriteLimits::default();
    assert!(p.with_output_bytes(31).is_err());
    assert!(p.with_output_bytes(u64::MAX).is_err());
    assert!(p.with_record_bytes(31).is_err());
    assert!(p.with_records(0).is_err());
    assert!(p.with_schemas(65536).is_err());
    assert!(p.with_state_bytes(1023).is_err());
    for policy in [p.with_record_bytes(32).unwrap(), p.with_records(3).unwrap(), p.with_state_bytes(1024).unwrap()] {
        assert!(McapStreamWriter::new(&header(), policy).is_err());
    }
}

#[test]
fn definitions_and_conflicts() {
    let p = McapWriteLimits::default();
    for kind in 0..6 {
        let mut w = McapStreamWriter::new(&header(), p).unwrap();
        populate(&mut w).unwrap();
        let before: McapWriteStats = *w.stats();
        let r = w.schema(&schema(1));
        assert_eq!(write(&mut w, r).unwrap(), McapWriteAction::Write);
        let r = w.channel(&channel(0));
        assert_eq!(write(&mut w, r).unwrap(), McapWriteAction::Write);
        assert_eq!(w.metadata(&metadata("a")).unwrap(), McapWriteAction::Skip);
        w.confirm();
        assert_eq!(*w.stats(), before);
        let result = match kind {
            0 => {
                let mut m = metadata("a");
                m.entries = StringMap::new();
                w.metadata(&m)
            }
            1 => w.schema(&schema(0)),
            2 => {
                let mut c = channel(9);
                c.schema_id = 99;
                w.channel(&c)
            }
            3 => w.message(message(99)),
            4 => {
                let mut s = schema(5);
                s.encoding = String::new();
                w.schema(&s)
            }
            _ => Err(w.reject(RecordError::McapWrite("injected write failure"))),
        };
        assert!(result.is_err());
        assert!(w.is_failed());
        assert!(matches!(w.message(message(0)), Err(RecordError::McapWriterFailed)));
        assert!(matches!(w.flush(), Err(RecordError::McapWriterFailed)));
        assert!(matches!(w.reject(RecordError::McapWrite("again")), RecordError::McapWriterFailed));
        assert_eq!(*w.stats(), before);
        assert!(w.finish().is_err());
    }
}

#[test]
fn messages_need_a_defined_channel_and_channels_a_defined_schema() {
    let mut w = McapStreamWriter::new(&header(), McapWriteLimits::default()).unwrap();
    assert!(matches!(w.channel(&channel(0)), Err(RecordError::InvalidMcapWrite("missing schema"))));
    let mut w = McapStreamWriter::new(&header(), McapWriteLimits::default()).unwrap();
    assert!(matches!(w.message(message(0)), Err(RecordError::InvalidMcapWrite("missing channel"))));
}

#[test]
fn unconfirmed_operations_do_not_count() {
    let mut w = McapStreamWriter::new(&header(), McapWriteLimits::default()).unwrap();
    let before = *w.stats();
    assert_eq!(w.schema(&schema(1)).unwrap(), McapWriteAction::Write);
    assert_eq!(*w.stats(), before);
    let e = w.reject(RecordError::McapWrite("sink failed"));
    assert!(matches!(e, RecordError::McapWrite("sink failed")));
    assert_eq!(*w.stats(), before);
    assert!(w.is_failed());
    assert_eq!(w.abort(), before);
}

#[test]
fn bounded_state_across_messages() {
    let p = McapWriteLimits::default().with_output_bytes(256 << 20).unwrap();
    let mut w = McapStreamWriter::new(&header(), p).unwrap();
    let r = w.schema(&schema(1));
    write(&mut w, r).unwrap();
    let r = w.channel(&channel(0));
    write(&mut w, r).unwrap();
    let state = w.stats().state_bytes;
    let payload = vec![0; 64 << 10];
    for sequence in 0..2048 {
        let r = w.message(McapMessageRef { data: &payload, sequence, ..message(0) });
        write(&mut w, r).unwrap();
        assert_eq!(w.stats().state_bytes, state);
    }
    assert!(w.projected_final_bytes() > 128 << 20);
    assert!(w.finish().is_ok());
}

fn legacy_manifest() -> RecordingManifest {
    RecordingManifest::builder("legacy")
        .channel(Channel { id: 0, name: "channel".into(), schema_id: "identity".into(), clock_domain: "monotonic".into() })
        .build()
}

fn define_all(m: &RecordingManifest) -> Result<LegacyChannels, RecordError> {
    let mut channels = LegacyChannels::new();
    for (index, c) in m.channels.iter().enumerate() {
        channels.define(index, c)?;
    }
    Ok(channels)
}

#[test]
fn legacy_checked_migration() {
    let channels = define_all(&legacy_manifest()).unwrap();
    for (id, sequence, domain, nanos) in [
        (9, 0, ClockDomain::Monotonic, 0),
        (0, 0, ClockDomain::Simulation, 0),
        (0, u64::MAX, ClockDomain::Monotonic, 0),
        (0, 0, ClockDomain::Monotonic, -1),
        (0, 0, ClockDomain::Monotonic, i128::MAX),
    ] {
        assert!(channels.record(id, sequence, Timestamp::new(domain, nanos)).is_err());
    }
    assert_eq!(channels.record(0, 7, Timestamp::new(ClockDomain::Monotonic, 42)).unwrap(), (7, 42));
    let mut m = legacy_manifest();
    m.channels[0].clock_domain = "unknown".into();
    assert!(matches!(define_all(&m), Err(RecordError::InvalidMcapWrite("unknown manifest clock domain"))));
    let mut m = legacy_manifest();
    m.channels.push(m.channels[0].clone());
    assert!(matches!(define_all(&m), Err(RecordError::InvalidMcapWrite("duplicate manifest channel"))));
    let long = "x".repeat(65536);
    assert!(matches!(
        legacy_prelude(&legacy_manifest(), &format!("{{\"note\":\"{long}\"}}"), McapWriteLimits::default()),
        Err(RecordError::WriteLimit { kind: "manifest JSON bytes", .. })
    ));
    let mut m = legacy_manifest();
    m.format_version = 2;
    assert!(matches!(legacy_prelude(&m, "{}", McapWriteLimits::default()), Err(RecordError::UnsupportedVersion(2))));
}

#[test]
fn legacy_definitions_follow_manifest_order() {
    let m = RecordingManifest::builder("legacy")
        .channel(Channel { id: 4, name: "a".into(), schema_id: "sa".into(), clock_domain: "monotonic".into() })
        .channel(Channel { id: 2, name: "b".into(), schema_id: "sb".into(), clock_domain: "simulation".into() })
        .build();
    let mut channels = LegacyChannels::new();
    let (s0, c0) = channels.define(0, &m.channels[0]).unwrap();
    let (s1, c1) = channels.define(1, &m.channels[1]).unwrap();
    assert_eq!((s0.id, s1.id), (1, 2));
    assert_eq!((c0.id, c0.schema_id, c1.id, c1.schema_id), (4, 1, 2, 2));
    assert_eq!(s1.data, b"sb".to_vec());
    assert_eq!(s1.encoding, "neuradix/schema-id");
    assert_eq!(c1.message_encoding, "neuradix");
    assert_eq!(c1.metadata.get("clockDomain").unwrap(), "simulation");
    assert_eq!(c1.metadata.get("schemaIdentity").unwrap(), "sb");
    let h = legacy_header();
    assert_eq!(h.profile, "neuradix");
    let meta = legacy_prelude(&m, "{}", McapWriteLimits::default()).unwrap();
    assert_eq!(meta.name, "neuradix.manifest");
    assert_eq!(meta.entries.get("json").unwrap(), "{}");
    // The stream admits the historical definitions in order.
    let mut w = McapStreamWriter::new(&h, McapWriteLimits::default()).unwrap();
    let r = w.metadata(&meta);
    write(&mut w, r).unwrap();
    for (s, c) in [(s0, c0), (s1, c1)] {
        let r = w.schema(&s);
        write(&mut w, r).unwrap();
        let r = w.channel(&c);
        write(&mut w, r).unwrap();
    }
    assert_eq!(w.stats().channels, 2);
}
