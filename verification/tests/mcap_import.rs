//! Whole-file imports: definitions once, identical redefinitions, conflicts,
//! and what the first record decides.

use neuradix::record::error::RecordError;
use neuradix::record::mcap_import::limits::McapImportLimits;
use neuradix::record::mcap_import::model::{McapEvent, McapEventKind};
use neuradix::record::mcap_import::state::{import_mcap, McapArchive, McapVisitor, MCAP_MAGIC};

fn string(s: &str) -> Vec<u8> {
    let mut out = (s.len() as u32).to_le_bytes().to_vec();
    out.extend_from_slice(s.as_bytes());
    out
}
fn header() -> Vec<u8> {
    let mut b = string("profile");
    b.extend(string("library"));
    b
}
fn schema(id: u16, data: &[u8]) -> Vec<u8> {
    let mut b = id.to_le_bytes().to_vec();
    b.extend(string("schema"));
    b.extend(string("opaque"));
    b.extend((data.len() as u32).to_le_bytes());
    b.extend_from_slice(data);
    b
}
fn pairs(entries: &[(&str, &str)]) -> Vec<u8> {
    let mut body = Vec::new();
    for (k, v) in entries {
        body.extend(string(k));
        body.extend(string(v));
    }
    let mut out = (body.len() as u32).to_le_bytes().to_vec();
    out.extend(body);
    out
}
fn channel(id: u16, schema_id: u16, topic: &str) -> Vec<u8> {
    let mut b = id.to_le_bytes().to_vec();
    b.extend(schema_id.to_le_bytes());
    b.extend(string(topic));
    b.extend(string("raw"));
    b.extend(pairs(&[("a", "1")]));
    b
}
fn metadata(name: &str, value: &str) -> Vec<u8> {
    let mut b = string(name);
    b.extend(pairs(&[("key", value)]));
    b
}
fn message(channel_id: u16, log_time: u64) -> Vec<u8> {
    let mut b = channel_id.to_le_bytes().to_vec();
    b.extend(7u32.to_le_bytes());
    b.extend(log_time.to_le_bytes());
    b.extend(log_time.to_le_bytes());
    b.extend_from_slice(b"payload");
    b
}
fn file(records: &[(u8, Vec<u8>)]) -> Vec<u8> {
    let mut out = MCAP_MAGIC.to_vec();
    for (op, data) in records.iter().chain([(0x0fu8, vec![0u8; 4]), (0x02u8, vec![0u8; 20])].iter()) {
        out.push(*op);
        out.extend((data.len() as u64).to_le_bytes());
        out.extend_from_slice(data);
    }
    out.extend_from_slice(&MCAP_MAGIC);
    out
}
fn data_records() -> Vec<(u8, Vec<u8>)> {
    vec![
        (0x01, header()),
        (0x03, schema(1, b"abc")),
        (0x04, channel(1, 1, "topic")),
        (0x0c, metadata("info", "x")),
        (0x05, message(1, 10)),
        (0x05, message(1, 20)),
    ]
}

#[derive(Default)]
struct Kinds(Vec<&'static str>);

impl McapVisitor for Kinds {
    fn visit(&mut self, event: &McapEvent) -> Result<(), RecordError> {
        self.0.push(match event.kind {
            McapEventKind::Header(_) => "header",
            McapEventKind::Schema(_) => "schema",
            McapEventKind::Channel(_) => "channel",
            McapEventKind::Metadata(_) => "metadata",
            McapEventKind::Message(_) => "message",
            McapEventKind::Auxiliary { .. } => "auxiliary",
        });
        Ok(())
    }
}

fn import(records: &[(u8, Vec<u8>)]) -> (Result<(), RecordError>, Vec<&'static str>) {
    let mut kinds = Kinds::default();
    let r = import_mcap(&file(records), McapImportLimits::default(), &mut kinds).map(|_| ());
    (r, kinds.0)
}

#[test]
fn a_complete_file_imports_its_definitions_and_messages() {
    let (r, kinds) = import(&data_records());
    assert_eq!(r, Ok(()));
    assert_eq!(kinds, ["header", "schema", "channel", "metadata", "message", "message"]);
    let a = McapArchive::from_reader(&file(&data_records()), McapImportLimits::default()).unwrap();
    assert_eq!(a.summary().header().profile, "profile");
    assert_eq!(a.summary().header().library, "library");
    assert_eq!(a.summary().schemas().len(), 1);
    assert_eq!(a.summary().channels().len(), 1);
    assert_eq!(a.summary().metadata().len(), 1);
    assert_eq!(a.summary().stats().messages, 2);
    assert_eq!(a.messages().len(), 2);
    assert_eq!((a.messages()[0].log_time, a.messages()[1].log_time), (10, 20));
}

#[test]
fn identical_redefinitions_are_accepted_without_a_second_event() {
    for (op, body) in [(0x03, schema(1, b"abc")), (0x04, channel(1, 1, "topic")), (0x0c, metadata("info", "x"))] {
        let mut records = data_records();
        records.push((op, body));
        let (r, kinds) = import(&records);
        assert_eq!(r, Ok(()));
        assert_eq!(kinds, ["header", "schema", "channel", "metadata", "message", "message"]);
    }
}

#[test]
fn conflicting_redefinitions_are_refused() {
    let cases = [
        ((0x03, schema(1, b"abd")), "conflicting schema definition"),
        ((0x04, channel(1, 1, "other")), "conflicting channel definition"),
        ((0x0c, metadata("info", "y")), "conflicting named metadata"),
    ];
    for ((op, body), text) in cases {
        let mut records = data_records();
        records.push((op, body));
        assert_eq!(import(&records).0, Err(RecordError::Mcap(text)));
    }
}

#[test]
fn definitions_must_exist_before_use() {
    let mut records = data_records();
    records.push((0x05, message(9, 30)));
    assert_eq!(import(&records).0, Err(RecordError::Mcap("message references missing channel")));
    let mut records = data_records();
    records.push((0x04, channel(2, 9, "topic")));
    assert_eq!(import(&records).0, Err(RecordError::Mcap("channel references missing schema")));
    let mut records = data_records();
    records.push((0x03, schema(0, b"")));
    assert_eq!(import(&records).0, Err(RecordError::Mcap("schema ID zero")));
    let mut records = data_records();
    records.push((0x01, header()));
    assert_eq!(import(&records).0, Err(RecordError::Mcap("repeated header")));
}

#[test]
fn the_first_record_decides_before_any_event() {
    let mut records = data_records();
    records.remove(0);
    let (r, kinds) = import(&records);
    assert_eq!(r, Err(RecordError::Mcap("header must be first")));
    assert!(kinds.is_empty());
    let limits = McapImportLimits::default();
    let mut kinds = Kinds::default();
    assert_eq!(import_mcap(&MCAP_MAGIC, limits, &mut kinds).map(|_| ()), Err(RecordError::Mcap("incomplete MCAP")));
    let mut short = MCAP_MAGIC.to_vec();
    short.extend([1, 0, 0]);
    assert_eq!(import_mcap(&short, limits, &mut kinds).map(|_| ()), Err(RecordError::Mcap("truncated MCAP record")));
    let mut long = MCAP_MAGIC.to_vec();
    long.push(1);
    long.extend(u64::MAX.to_le_bytes());
    assert!(matches!(
        import_mcap(&long, limits, &mut kinds),
        Err(RecordError::ImportLimit { kind: "record bytes", .. })
    ));
    assert!(kinds.0.is_empty());
}

#[test]
fn a_data_section_checksum_is_checked_when_present() {
    let mut bytes = file(&data_records());
    // The DataEnd record (13 bytes) comes before the footer (29) and the end magic.
    let pos = bytes.len() - 8 - 29 - 13;
    assert_eq!(bytes[pos], 0x0f);
    let crc = crc32fast::hash(&bytes[..pos]);
    bytes[pos + 9..pos + 13].copy_from_slice(&crc.to_le_bytes());
    let mut kinds = Kinds::default();
    assert!(import_mcap(&bytes, McapImportLimits::default(), &mut kinds).is_ok());
    bytes[pos + 9] ^= 1;
    let mut kinds = Kinds::default();
    assert_eq!(
        import_mcap(&bytes, McapImportLimits::default(), &mut kinds).map(|_| ()),
        Err(RecordError::Mcap("data section CRC mismatch"))
    );
}

#[test]
fn named_metadata_is_kept_in_byte_order_of_names() {
    let mut records = data_records();
    records.insert(1, (0x0c, metadata("zeta", "1")));
    records.insert(1, (0x0c, metadata("alpha", "2")));
    let a = McapArchive::from_reader(&file(&records), McapImportLimits::default()).unwrap();
    let names: Vec<&str> = a.summary().metadata().iter().map(|m| m.name.as_str()).collect();
    assert_eq!(names, ["alpha", "info", "zeta"]);
}
