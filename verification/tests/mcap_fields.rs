//! Record bodies of the MCAP importer: typed fields, their failures, and the
//! LZ4 frames of compressed chunks.

use neuradix::record::error::RecordError;
use neuradix::record::mcap_import::chunk::decode;
use neuradix::record::mcap_import::parse::{parse_record, McapRecord};
use std::io::Write;

fn string(s: &str) -> Vec<u8> {
    let mut out = (s.len() as u32).to_le_bytes().to_vec();
    out.extend_from_slice(s.as_bytes());
    out
}

#[test]
fn data_end_and_footer_fields_are_read() {
    match parse_record(0x0f, &7u32.to_le_bytes()) {
        Ok(McapRecord::DataEnd { data_section_crc }) => assert_eq!(data_section_crc, 7),
        other => panic!("unexpected {other:?}"),
    }
    let mut footer = 5u64.to_le_bytes().to_vec();
    footer.extend(6u64.to_le_bytes());
    footer.extend(9u32.to_le_bytes());
    match parse_record(0x02, &footer) {
        Ok(McapRecord::Footer { summary_start, summary_offset_start, summary_crc }) => {
            assert_eq!((summary_start, summary_offset_start, summary_crc), (5, 6, 9))
        }
        other => panic!("unexpected {other:?}"),
    }
    assert!(matches!(parse_record(0x0f, &[1, 2, 3]), Err(RecordError::Mcap("field extends past record"))));
    assert!(matches!(parse_record(0x09, &[]), Err(RecordError::UnsupportedMcapRecord(0x09))));
}

#[test]
fn channel_metadata_keeps_the_last_value_of_a_key() {
    let mut body = 3u16.to_le_bytes().to_vec();
    body.extend(1u16.to_le_bytes());
    body.extend(string("topic"));
    body.extend(string("json"));
    let mut entries = string("b");
    entries.extend(string("1"));
    entries.extend(string("a"));
    entries.extend(string("2"));
    entries.extend(string("b"));
    entries.extend(string("3"));
    body.extend((entries.len() as u32).to_le_bytes());
    body.extend(entries);
    match parse_record(0x04, &body) {
        Ok(McapRecord::Channel(c)) => {
            assert_eq!((c.id, c.schema_id), (3, 1));
            assert_eq!(c.topic, "topic");
            assert_eq!(c.message_encoding, "json");
            assert_eq!(c.metadata.len(), 2);
            assert_eq!(c.metadata.get("a").map(String::as_str), Some("2"));
            assert_eq!(c.metadata.get("b").map(String::as_str), Some("3"));
        }
        other => panic!("unexpected {other:?}"),
    }
    let mut bad = 3u16.to_le_bytes().to_vec();
    bad.extend(1u16.to_le_bytes());
    bad.extend(string("topic"));
    bad.extend(4u32.to_le_bytes());
    bad.extend([0xff, 0xfe, 0xfd, 0xfc]);
    assert!(matches!(parse_record(0x04, &bad), Err(RecordError::Mcap("invalid UTF-8"))));
}

#[test]
fn statistics_counts_keep_the_last_count_of_a_channel() {
    let mut body = Vec::new();
    body.extend(4u64.to_le_bytes());
    body.extend(1u16.to_le_bytes());
    body.extend(2u32.to_le_bytes());
    body.extend(0u32.to_le_bytes());
    body.extend(1u32.to_le_bytes());
    body.extend(0u32.to_le_bytes());
    body.extend(10u64.to_le_bytes());
    body.extend(20u64.to_le_bytes());
    let mut counts = Vec::new();
    for (id, n) in [(1u16, 3u64), (2, 1), (1, 5)] {
        counts.extend(id.to_le_bytes());
        counts.extend(n.to_le_bytes());
    }
    body.extend((counts.len() as u32).to_le_bytes());
    body.extend(counts);
    match parse_record(0x0b, &body) {
        Ok(McapRecord::Statistics { message_count, channel_message_counts, .. }) => {
            assert_eq!(message_count, 4);
            assert_eq!(channel_message_counts, vec![(1, 5), (2, 1)]);
        }
        other => panic!("unexpected {other:?}"),
    }
}

fn lz4_frame(data: &[u8]) -> Vec<u8> {
    let mut encoder = lz4::EncoderBuilder::new().build(Vec::new()).unwrap();
    encoder.write_all(data).unwrap();
    let (frame, result) = encoder.finish();
    result.unwrap();
    frame
}

#[test]
fn an_lz4_frame_decodes_to_its_bytes() {
    let data: Vec<u8> = (0..5000u32).map(|i| (i % 251) as u8).collect();
    let frame = lz4_frame(&data);
    assert_eq!(decode(&frame, data.len()).unwrap(), data);
    assert!(decode(&frame, data.len() - 1).is_err());
    assert!(matches!(decode(&frame[1..], data.len()), Err(RecordError::UnsupportedMcap(_))));
    let mut trailing = frame.clone();
    trailing.push(0);
    assert!(matches!(decode(&trailing, data.len()), Err(RecordError::Mcap("trailing LZ4 data"))));
}
