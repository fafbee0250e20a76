use volttrace::bundle::BundleDecoder;
use volttrace::checksum::crc32;
use volttrace::error::VoltError;
use volttrace::parse_bundle;

fn header(version: u8, flags: u8, count: u16, sequence: u32) -> Vec<u8> {
    let mut v = b"VTRC".to_vec();
    v.push(version);
    v.push(flags);
    v.extend_from_slice(&count.to_le_bytes());
    v.extend_from_slice(&sequence.to_le_bytes());
    v
}

fn section(out: &mut Vec<u8>, kind: u8, flags: u8, id: u16, payload: &[u8], checksum: u32) {
    out.push(kind);
    out.push(flags);
    out.extend_from_slice(&id.to_le_bytes());
    out.extend_from_slice(&(payload.len() as u32).to_le_bytes());
    out.extend_from_slice(&checksum.to_le_bytes());
    out.extend_from_slice(payload);
}

#[test]
fn bad_magic_and_short_input() {
    assert_eq!(parse_bundle(b"XTRC\x01\x00\x00\x00\x00\x00\x00\x00").unwrap_err(), VoltError::BadMagic);
    assert_eq!(
        parse_bundle(b"VT").unwrap_err(),
        VoltError::Truncated { needed: 4, remaining: 2, context: "bundle" }
    );
}

#[test]
fn unsupported_versions() {
    assert_eq!(parse_bundle(&header(0, 0, 0, 0)).unwrap_err(), VoltError::UnsupportedVersion(0));
    assert_eq!(parse_bundle(&header(4, 0, 0, 0)).unwrap_err(), VoltError::UnsupportedVersion(4));
}

#[test]
fn too_many_sections() {
    assert_eq!(parse_bundle(&header(1, 0, 129, 0)).unwrap_err(), VoltError::LimitExceeded("section count"));
    let b = parse_bundle(&header(1, 0, 128, 0)).unwrap();
    assert_eq!(b.section_count, 0);
}

#[test]
fn empty_bundle_keeps_header_fields() {
    let b = BundleDecoder::new().parse(&header(3, 0x5a, 0, 0xdead_beef)).unwrap();
    assert_eq!((b.version, b.flags, b.sequence, b.section_count), (3, 0x5a, 0xdead_beef, 0));
    assert!(b.telemetry.is_empty() && b.receipts.is_empty() && b.scripts.is_empty() && b.attachments.is_empty());
    assert_eq!(b.manifest.site_id, 0);
}

#[test]
fn manifest_section_with_checked_crc() {
    let mut data = header(1, 0, 1, 5);
    section(&mut data, 1, 0x01, 0, b"site=42", crc32(b"site=42"));
    let b = parse_bundle(&data).unwrap();
    assert_eq!(b.manifest.site_id, 42);
    assert_eq!(b.section_count, 1);
    assert_eq!(b.sequence, 5);
}

#[test]
fn checksum_mismatch_is_reported() {
    let mut data = header(1, 0, 1, 0);
    section(&mut data, 1, 0x01, 0, b"site=42", 0x1234);
    assert_eq!(
        parse_bundle(&data).unwrap_err(),
        VoltError::Checksum { expected: 0x1234, actual: 0x30f3_ded0 }
    );
    let mut unchecked = header(1, 0, 1, 0);
    section(&mut unchecked, 1, 0x00, 0, b"site=42", 0x1234);
    assert_eq!(parse_bundle(&unchecked).unwrap().manifest.site_id, 42);
}

#[test]
fn oversized_section_is_refused() {
    let mut data = header(1, 0, 1, 0);
    data.extend_from_slice(&[1, 0, 0, 0]);
    data.extend_from_slice(&0x0010_0001u32.to_le_bytes());
    data.extend_from_slice(&0u32.to_le_bytes());
    assert_eq!(parse_bundle(&data).unwrap_err(), VoltError::LimitExceeded("section size"));
}

#[test]
fn missing_sections_end_decoding_early() {
    let mut data = header(2, 0, 3, 0);
    section(&mut data, 0x33, 0, 0, b"ignored", 0);
    data.extend_from_slice(&[1, 2, 3]);
    let b = parse_bundle(&data).unwrap();
    assert_eq!(b.section_count, 1);
}

#[test]
fn short_payload_is_cut_to_what_remains() {
    let mut data = header(1, 0, 1, 0);
    data.extend_from_slice(&[1, 0, 0, 0]);
    data.extend_from_slice(&100u32.to_le_bytes());
    data.extend_from_slice(&0u32.to_le_bytes());
    data.extend_from_slice(b"site=9");
    assert_eq!(parse_bundle(&data).unwrap().manifest.site_id, 9);
}

#[test]
fn script_section_records_the_run() {
    let program = [7u8, 0, 0, 0, 4, 0, 0x01, 0, 5, 0, 0, 0, 0x01, 1, 7, 0, 0, 0, 0x03, 2, 0, 1, 0x0a, 2, 0xff];
    let mut data = header(1, 0, 1, 0);
    section(&mut data, 6, 0, 3, &program, 0);
    let b = parse_bundle(&data).unwrap();
    assert_eq!(b.scripts.len(), 1);
    assert_eq!(b.scripts[0].script_id, 7 ^ 3);
    assert_eq!(b.scripts[0].priority, 52);
    assert_eq!(b.scripts[0].bytecode, program.to_vec());
}

#[test]
fn attachment_section_lists_linked_slots() {
    let ops = [0x10u8, 1, 0x81, 3, 0, b'a', b'b', b'c', 0x10, 0, 0x84, 0, 0];
    let mut data = header(1, 0, 1, 0);
    section(&mut data, 5, 0, 2, &ops, 0);
    let b = parse_bundle(&data).unwrap();
    assert_eq!(b.attachments.len(), 2);
    let a = b.attachments[0];
    assert_eq!((a.attachment_id, a.kind, a.digest, a.len), (201, 1, 0xbb7c_de33_7711_6f15, 3));
    let e = b.attachments[1];
    assert_eq!((e.attachment_id, e.kind, e.len), (204, 0, 0));
}

#[test]
fn section_errors_propagate() {
    let mut data = header(1, 0, 1, 0);
    section(&mut data, 4, 0, 0, &[0xff], 0);
    assert_eq!(parse_bundle(&data).unwrap_err(), VoltError::InvalidUtf8);
}

#[test]
fn nested_stream_section_contributes_records() {
    let mut frames = vec![0x04u8, 0, 4, 0];
    frames.extend_from_slice(b"||||");
    let mut data = header(1, 0, 1, 0);
    section(&mut data, 7, 0, 0, &frames, 0);
    let b = parse_bundle(&data).unwrap();
    assert_eq!(b.receipts.len(), 1);
    assert_eq!(b.receipts[0].receipts.len(), 1);
}
