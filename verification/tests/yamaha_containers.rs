use patchferret::formats::yamaha::mbdf::Container;
use patchferret::formats::yamaha::mms::{Payload, TYPE_STRING};
use patchferret::formats::yamaha::YamahaError;

const HEADER_LEN: usize = 0x48;
const REC_HEADER_LEN: usize = 36;
const MAGIC_PREFIX: &[u8] = b"#YAMAHA MBDF";

/// A container built to the documented layout.
fn container(subtype: &str, model: &str, records: &[(&str, &[u8], &[u8])]) -> Vec<u8> {
    let mut out = vec![0u8; HEADER_LEN];
    let magic = format!("#YAMAHA MBDF{subtype}");
    out[..magic.len()].copy_from_slice(magic.as_bytes());
    out[0x18..0x1C].copy_from_slice(&0x24u32.to_be_bytes());
    out[0x24..0x24 + model.len()].copy_from_slice(model.as_bytes());
    out[0x34..0x38].copy_from_slice(&[0x56, 0x04, 0x02, 0x00]);
    for (name, target, payload) in records {
        let mut hdr = vec![0u8; REC_HEADER_LEN];
        hdr[..10].copy_from_slice(b"#MMS FIELD");
        hdr[12..12 + name.len()].copy_from_slice(name.as_bytes());
        hdr[24..28].copy_from_slice(&(target.len() as u32).to_be_bytes());
        hdr[28..32].copy_from_slice(&(payload.len() as u32).to_be_bytes());
        out.extend_from_slice(&hdr);
        out.extend_from_slice(target);
        out.extend_from_slice(payload);
        while out.len() % 4 != 0 {
            out.push(0);
        }
    }
    let mut end = vec![0u8; REC_HEADER_LEN];
    end[..4].copy_from_slice(b"#END");
    out.extend_from_slice(&end);
    out
}

fn col(name: &str, offset: u32, datasize: u32, arraysize: u32) -> Vec<u8> {
    let mut r = vec![0u8; 48];
    r[..3].copy_from_slice(b"COL");
    r[3] = b'0';
    r[4..4 + name.len()].copy_from_slice(name.as_bytes());
    r[36..40].copy_from_slice(&offset.to_le_bytes());
    r[40..44].copy_from_slice(&datasize.to_le_bytes());
    r[44..48].copy_from_slice(&arraysize.to_le_bytes());
    r
}

fn pr(name: &str, type_code: u8, size: u16, arraysize: u16) -> Vec<u8> {
    let mut r = vec![0u8; 32];
    r[..3].copy_from_slice(b"PR ");
    r[3] = type_code;
    r[4..6].copy_from_slice(&size.to_le_bytes());
    r[6..8].copy_from_slice(&arraysize.to_le_bytes());
    r[8..8 + name.len()].copy_from_slice(name.as_bytes());
    r
}

fn payload(function: &str, schema: Vec<Vec<u8>>, values: &[u8]) -> Vec<u8> {
    let mut out = vec![0u8; 44];
    out[..7].copy_from_slice(b"MMSXLIT");
    out[8..8 + function.len()].copy_from_slice(function.as_bytes());
    for r in schema {
        out.extend_from_slice(&r);
    }
    out.extend_from_slice(values);
    out
}

/// Two channels of {Name[8], Source u32}, i.e. datasize 12 each.
fn sample() -> Vec<u8> {
    let schema = vec![
        col("Mixing", 0, 24, 1),
        col("InputChannel", 0, 12, 2),
        col("Label", 0, 8, 1),
        pr("Name", TYPE_STRING, 8, 1),
        col("Patch", 8, 4, 1),
        pr("Source", 0x02, 4, 1),
    ];
    let mut values = Vec::new();
    values.extend_from_slice(b"Kick\0\0\0\0");
    values.extend_from_slice(&0x0140_0000u32.to_le_bytes());
    values.extend_from_slice(b"Snare\0\0\0");
    values.extend_from_slice(&0x0140_0001u32.to_le_bytes());
    payload("Mixing", schema, &values)
}

#[test]
fn parses_a_two_record_container() {
    let raw = container(
        "Scene",
        "DM3",
        &[("Scene", b"", b"hello"), ("Mixing", b"CH\0\0\0\0\0\x01", b"world!!")],
    );
    let c = Container::parse(&raw).expect("parse");
    assert_eq!(c.subtype, "Scene");
    assert_eq!(c.model, "DM3");
    assert_eq!(c.records.len(), 2);
    assert_eq!(c.record("Scene").unwrap().payload, b"hello");
    let mixing = c.record("Mixing").unwrap();
    assert_eq!(mixing.payload, b"world!!");
    assert_eq!(mixing.target, b"CH\0\0\0\0\0\x01");
}

#[test]
fn payload_padding_does_not_shift_later_records() {
    let raw = container("Scene", "DM3", &[("A", b"", b"x"), ("B", b"", b"yy"), ("C", b"", b"zzz")]);
    let c = Container::parse(&raw).unwrap();
    assert_eq!(c.records.len(), 3);
    assert_eq!(c.record("C").unwrap().payload, b"zzz");
}

#[test]
fn rejects_non_mbdf() {
    assert!(matches!(Container::parse(b"not yamaha"), Err(YamahaError::NotMbdf)));
    assert!(!Container::looks_like(b""));
}

#[test]
fn rejects_truncated_container() {
    let raw = container("Scene", "DM3", &[("Mixing", b"", b"data")]);
    let end_tag_at = raw.len() - REC_HEADER_LEN;
    for cut in [0x10, 0x40, 0x50, end_tag_at, end_tag_at + 3] {
        assert!(Container::parse(&raw[..cut]).is_err(), "accepted a {cut}-byte prefix");
    }
    assert!(Container::parse(&raw[..end_tag_at + 12]).is_ok());
}

#[test]
fn rejects_a_payload_length_past_the_end() {
    let mut raw = container("Scene", "DM3", &[("Mixing", b"", b"data")]);
    let at = 0x48 + 28;
    raw[at..at + 4].copy_from_slice(&0xFFFF_FFFFu32.to_be_bytes());
    assert!(matches!(Container::parse(&raw), Err(YamahaError::Truncated(_))));
}

#[test]
fn mbdf_arbitrary_bytes_do_not_panic() {
    for len in [0, 1, 0x47, 0x48, 0x60] {
        let mut v: Vec<u8> = MAGIC_PREFIX.to_vec();
        v.resize(len.max(MAGIC_PREFIX.len()), 0xAB);
        let _ = Container::parse(&v);
    }
}

#[test]
fn a_container_carries_its_version_bytes() {
    let raw = container("Scene", "DM3", &[]);
    let c = Container::parse(&raw).unwrap();
    assert_eq!(c.version, [0x56, 0x04, 0x02, 0x00]);
    assert!(c.records.is_empty());
    assert!(Container::looks_like(&raw));
}

#[test]
fn rebuilds_the_tree_and_finds_the_value_block() {
    let p = Payload::parse(&sample()).expect("parse");
    assert_eq!(p.function, "Mixing");
    assert_eq!(p.collections, 4);
    assert_eq!(p.parameters, 2);
    assert_eq!(p.strip_table("InputChannel"), Some(2));
}

#[test]
fn children_sum_to_the_declared_parent_size() {
    let p = Payload::parse(&sample()).unwrap();
    let ic = p.root.child("InputChannel").unwrap();
    let summed: u32 = ic.children().iter().map(|c| c.span()).sum();
    assert_eq!(summed, ic.datasize, "InputChannel children do not fill it");
}

#[test]
fn reads_strings_and_integers_across_array_elements() {
    let p = Payload::parse(&sample()).unwrap();
    assert_eq!(p.string(&["InputChannel", "Label", "Name"], 0).as_deref(), Some("Kick"));
    assert_eq!(p.string(&["InputChannel", "Label", "Name"], 1).as_deref(), Some("Snare"));
    assert_eq!(p.uint(&["InputChannel", "Patch", "Source"], 0), Some(0x0140_0000));
    assert_eq!(p.uint(&["InputChannel", "Patch", "Source"], 1), Some(0x0140_0001));
}

#[test]
fn out_of_range_index_returns_none_rather_than_neighbouring_data() {
    let p = Payload::parse(&sample()).unwrap();
    assert_eq!(p.string(&["InputChannel", "Label", "Name"], 2), None);
    assert_eq!(p.string(&["InputChannel", "Label", "Nope"], 0), None);
    assert_eq!(p.string(&["Nope"], 0), None);
}

#[test]
fn rejects_a_non_mms_payload() {
    assert!(matches!(Payload::parse(b"not mms at all"), Err(YamahaError::NotMms)));
}

#[test]
fn rejects_a_schema_that_never_terminates() {
    let schema = vec![col("Mixing", 0, 9999, 1), pr("X", TYPE_STRING, 4, 1)];
    assert!(Payload::parse(&payload("Mixing", schema, b"aaaa")).is_err());
}

#[test]
fn truncated_payloads_do_not_panic() {
    let full = sample();
    for cut in (0..full.len()).step_by(7) {
        let _ = Payload::parse(&full[..cut]);
    }
}

#[test]
fn reading_past_the_value_block_returns_none() {
    let schema = vec![
        col("Mixing", 0, 24, 1),
        col("InputChannel", 0, 12, 2),
        col("Label", 0, 8, 1),
        pr("Name", TYPE_STRING, 8, 1),
        col("Patch", 8, 4, 1),
        pr("Source", 0x02, 4, 1),
    ];
    let p = Payload::parse(&payload("Mixing", schema, b"Kick\0\0\0\0\0\0\0\0")).unwrap();
    assert_eq!(p.string(&["InputChannel", "Label", "Name"], 0).as_deref(), Some("Kick"));
    assert_eq!(p.string(&["InputChannel", "Label", "Name"], 1), None);
}

#[test]
fn the_payload_reports_its_sizes() {
    let p = Payload::parse(&sample()).unwrap();
    assert_eq!(p.declared_size(), 24);
    assert_eq!(p.value_bytes(), 24);
    assert!(p.root.is_collection());
}

#[test]
fn error_messages_quote_the_unexpected_tag() {
    assert_eq!(
        YamahaError::BadRecord("X\"Y".to_string()).message(),
        "unexpected record tag \"X\\\"Y\""
    );
    assert_eq!(YamahaError::NotMbdf.message(), "not a Yamaha MBDF container");
    assert_eq!(YamahaError::Truncated("schema").message(), "truncated: schema");
}
