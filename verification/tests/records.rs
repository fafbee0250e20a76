use volttrace::dictionary::Dictionary;
use volttrace::error::VoltError;
use volttrace::manifest::parse_manifest;
use volttrace::model::{Compression, ReceiptStatus};
use volttrace::receipt::parse_receipts;
use volttrace::telemetry::parse_telemetry;

fn receipt_header() -> Vec<u8> {
    let mut v = Vec::new();
    v.extend_from_slice(&0x0102_0304u32.to_le_bytes());
    v.extend_from_slice(&7u16.to_le_bytes());
    v
}

#[test]
fn binary_receipt_with_token() {
    let mut input = receipt_header();
    input.push(0x40);
    input.extend_from_slice(&99u64.to_le_bytes());
    input.push(3);
    input.extend_from_slice(&25_000u32.to_le_bytes());
    input.extend_from_slice(&1_000u32.to_le_bytes());
    input.extend_from_slice(&0xabcdu32.to_le_bytes());
    input.push(2);
    input.extend_from_slice(&[0x7a, 2, b'T', b'K']);
    let mut d = Dictionary::new();
    let batch = parse_receipts(&input, &mut d).unwrap();
    assert_eq!(batch.merchant_id, 0x0102_0304);
    assert_eq!(batch.lane_id, 7);
    assert_eq!(batch.receipts.len(), 1);
    let r = batch.receipts[0];
    assert_eq!(r.session_id, 99);
    assert_eq!(r.token_alias, 3);
    assert_eq!(r.amount_cents, 25_000);
    assert_eq!(r.energy_wh, 1_000);
    assert_eq!(r.auth_code, 0xabcd);
    assert_eq!(r.status, ReceiptStatus::OfflineQueued);
    assert_eq!(d.len(), 1);
    assert_eq!(d.entry_text(0), Some("TK".to_string()));
}

#[test]
fn receipt_run_and_alias_bank() {
    let mut d = Dictionary::new();
    d.intern(volttrace::dictionary::TokenClass::Payment, 0, 0, b"card".to_vec());
    let mut input = receipt_header();
    input.extend_from_slice(&[0x41, 1, 9, 0x00]);
    input.push(0x42);
    input.extend_from_slice(&0x0000_0001_8000_0001u64.to_le_bytes());
    input.push(3);
    input.extend_from_slice(&500u32.to_le_bytes());
    input.extend_from_slice(&40u32.to_le_bytes());
    input.extend_from_slice(&[0x05, 1, 2, 3, 4, 5]);
    let batch = parse_receipts(&input, &mut d).unwrap();
    assert_eq!(d.resolve_alias(9), Some(b"card".to_vec()));
    assert_eq!(batch.receipts.len(), 3);
    let auth: Vec<u32> = batch.receipts.iter().map(|r| r.auth_code).collect();
    assert_eq!(auth, vec![0x8000_0001, 0x0000_0003, 0x0000_0006]);
    let energy: Vec<u32> = batch.receipts.iter().map(|r| r.energy_wh).collect();
    assert_eq!(energy, vec![40, 50, 60]);
    assert_eq!(batch.receipts[2].session_id, 0x0000_0001_8000_0003);
    assert_eq!(batch.receipts[2].token_alias, 2);
    assert_eq!(batch.receipts[1].status, ReceiptStatus::Captured);
}

#[test]
fn truncated_receipt_is_an_error() {
    let mut input = receipt_header();
    input.extend_from_slice(&[0x40, 1, 2]);
    let mut d = Dictionary::new();
    assert_eq!(
        parse_receipts(&input, &mut d).unwrap_err(),
        VoltError::Truncated { needed: 8, remaining: 2, context: "receipt batch" }
    );
}

#[test]
fn short_receipt_input_is_text() {
    let mut d = Dictionary::new();
    let batch = parse_receipts(b"||||", &mut d).unwrap();
    assert_eq!(batch.merchant_id, 0);
    assert_eq!(batch.receipts.len(), 1);
    assert_eq!(batch.receipts[0].session_id, 0);
    assert_eq!(batch.receipts[0].status, ReceiptStatus::OfflineQueued);
    assert_eq!(d.len(), 1);
    assert_eq!(parse_receipts(&[0xff], &mut d).unwrap_err(), VoltError::InvalidUtf8);
}

fn telemetry_header() -> Vec<u8> {
    let mut v = Vec::new();
    v.extend_from_slice(&0x1122_3344u32.to_le_bytes());
    v.extend_from_slice(&9u16.to_le_bytes());
    v.extend_from_slice(&1_000u64.to_le_bytes());
    v
}

#[test]
fn telemetry_sample_deltas_and_computed_summary() {
    let mut input = telemetry_header();
    input.extend_from_slice(&[0x30, 0x0a, 1, 0x04, 0x01, 0x00, 0x01, 0x00]);
    let mut d = Dictionary::new();
    let batch = parse_telemetry(&input, Compression::Raw, &mut d).unwrap();
    assert_eq!(batch.source_id, 0x1122_3344);
    assert_eq!(batch.port_id, 9);
    assert_eq!(batch.start_time, 1_000);
    assert_eq!(batch.samples.len(), 1);
    let s = batch.samples[0];
    assert_eq!((s.delta_ms, s.channel, s.voltage_mv, s.current_ma, s.temperature_mc, s.flags), (10, 1, 230_002, -1, 25_000, 1));
    assert_eq!(batch.summaries.len(), 1);
    let m = batch.summaries[0];
    assert_eq!((m.channel, m.min_value, m.max_value, m.mean_value, m.quality), (1, 230_002, 230_002, 230_002, 100));
}

#[test]
fn telemetry_mean_rounds_toward_zero() {
    let mut input = telemetry_header();
    input.extend_from_slice(&[0x30, 0, 0, 0xe5, 0x89, 0x1c, 0, 0, 0, 0]);
    input.extend_from_slice(&[0x30, 0, 0, 0x01, 0, 0, 0, 0]);
    let mut d = Dictionary::new();
    let batch = parse_telemetry(&input, Compression::Raw, &mut d).unwrap();
    let volts: Vec<i32> = batch.samples.iter().map(|s| s.voltage_mv).collect();
    assert_eq!(volts, vec![-3, -4]);
    let m = batch.summaries[0];
    assert_eq!((m.min_value, m.max_value, m.mean_value), (-4, -3, -3));
}

#[test]
fn telemetry_sparse_samples_and_explicit_summary() {
    let mut input = telemetry_header();
    input.extend_from_slice(&[0x33, 2, 2, 10, 0, 5, 0, 0xff, 0xff]);
    input.push(0x31);
    input.push(2);
    input.extend_from_slice(&1i32.to_le_bytes());
    input.extend_from_slice(&2i32.to_le_bytes());
    input.extend_from_slice(&3i32.to_le_bytes());
    input.extend_from_slice(&77u16.to_le_bytes());
    input.extend_from_slice(&[0x05, 1, 2, 3, 4, 5]);
    let mut d = Dictionary::new();
    let batch = parse_telemetry(&input, Compression::Raw, &mut d).unwrap();
    assert_eq!(batch.samples.len(), 2);
    let a = batch.samples[0];
    let b = batch.samples[1];
    assert_eq!((a.delta_ms, a.voltage_mv, a.current_ma, a.temperature_mc, a.flags), (0, 200_050, 85, 20_015, 0x40));
    assert_eq!((b.delta_ms, b.voltage_mv, b.current_ma, b.temperature_mc), (1000, 199_990, -17, 19_997));
    assert_eq!(batch.summaries.len(), 1);
    assert_eq!(batch.summaries[0].quality, 77);
}

#[test]
fn telemetry_meter_labels_go_to_the_dictionary() {
    let mut input = telemetry_header();
    input.extend_from_slice(&[0x32, 2, 1, 2, b'L', b'1', 3, 1, b'N']);
    let mut d = Dictionary::new();
    let batch = parse_telemetry(&input, Compression::Raw, &mut d).unwrap();
    assert!(batch.samples.is_empty());
    assert!(batch.summaries.is_empty());
    assert_eq!(d.len(), 2);
    assert_eq!(d.entry_text(1), Some("N".to_string()));
}

#[test]
fn telemetry_text_lines() {
    let mut d = Dictionary::new();
    let batch = parse_telemetry(b"1,2,3,4,5", Compression::Raw, &mut d).unwrap();
    assert_eq!(batch.samples.len(), 1);
    let s = batch.samples[0];
    assert_eq!((s.delta_ms, s.channel, s.voltage_mv, s.current_ma, s.temperature_mc, s.flags), (1, 2, 3, 4, 5, 0));
    assert_eq!(batch.summaries[0].channel, 2);
    assert_eq!(d.entry_text(0), Some("1,2,3,4,5".to_string()));
    assert_eq!(parse_telemetry(&[0xc3], Compression::Raw, &mut d).unwrap_err(), VoltError::InvalidUtf8);
}

#[test]
fn telemetry_compressed_payload() {
    let mut d = Dictionary::new();
    let batch = parse_telemetry(&[0x04, b'7', b',', b'1', b',', b'2', 0x82, b','], Compression::Rle, &mut d).unwrap();
    assert_eq!(batch.samples.len(), 1);
    assert_eq!(batch.samples[0].delta_ms, 7);
    assert_eq!(batch.samples[0].voltage_mv, 2);
    assert_eq!(batch.samples[0].current_ma, 0);
    assert_eq!(Compression::from_flags(0x02), Compression::Rle);
    assert_eq!(Compression::from_flags(0x06), Compression::DictionaryDelta);
}

#[test]
fn text_manifest_keys() {
    let mut d = Dictionary::new();
    let m = parse_manifest(b"site=42", &mut d).unwrap();
    assert_eq!(m.site_id, 42);
    assert_eq!(m.station_model, 0x1001);
    assert_eq!(m.firmware_major, 1);
    let m = parse_manifest(b"operator=5\n", &mut d).unwrap();
    assert_eq!(m.operators.len(), 1);
    assert_eq!(m.operators[0].operator_id, 5);
    assert_eq!(m.operators[0].name, "5".to_string());
    assert_eq!(m.operators[0].trust_tier, 1);
    let m = parse_manifest(b"x = y", &mut d).unwrap();
    assert_eq!(m.site_id, 0);
    assert_eq!(d.entry_text(1), Some("y".to_string()));
}

#[test]
fn binary_manifest_records() {
    let mut input = Vec::new();
    input.extend_from_slice(&77u32.to_le_bytes());
    input.extend_from_slice(&0x2002u16.to_le_bytes());
    input.extend_from_slice(&4u16.to_le_bytes());
    input.extend_from_slice(&2u16.to_le_bytes());
    input.extend_from_slice(&9u32.to_le_bytes());
    // routes
    input.push(0x21);
    input.extend_from_slice(&12u16.to_le_bytes());
    input.extend_from_slice(&[5, 0, 6, 0, 7, 0, 0, 0, 100, 0, 0, 0x40]);
    // operators
    input.push(0x20);
    input.extend_from_slice(&11u16.to_le_bytes());
    input.extend_from_slice(&[1, 0, 0, 0, 3, 0, 2, 3, b'A', b'c', b'e']);
    // capabilities
    input.push(0x22);
    input.extend_from_slice(&8u16.to_le_bytes());
    input.extend_from_slice(&[0x01, 0x30, 5, 0, 1, 0, 1, b'Q']);
    // unknown tag
    input.push(0x29);
    input.extend_from_slice(&2u16.to_le_bytes());
    input.extend_from_slice(&[1, 2]);
    let mut d = Dictionary::new();
    let m = parse_manifest(&input, &mut d).unwrap();
    assert_eq!((m.site_id, m.station_model, m.firmware_major, m.firmware_minor, m.policy_epoch), (77, 0x2002, 4, 2, 9));
    assert_eq!(m.routes.len(), 1);
    let r = m.routes[0];
    assert_eq!((r.route_id, r.feeder_id, r.transformer_id, r.station_count, r.risk_flags), (5, 6, 7, 100, 0x4000));
    assert_eq!(m.operators.len(), 1);
    assert_eq!(m.operators[0].name, "Ace".to_string());
    assert_eq!(m.operators[0].region, 3);
    assert_eq!(m.capabilities.len(), 1);
    assert_eq!(m.capabilities[0].code, 0x3001);
    assert_eq!(m.capabilities[0].description, "Q".to_string());
    assert_eq!(d.len(), 3);
    assert_eq!(d.entry_text(2), Some("\u{1}\u{2}".to_string()));
}

#[test]
fn manifest_dictionary_body_errors_propagate() {
    let mut input = vec![0u8; 14];
    input.push(0x23);
    input.extend_from_slice(&2u16.to_le_bytes());
    input.extend_from_slice(&[0x03, 0x01]);
    let mut d = Dictionary::new();
    assert_eq!(
        parse_manifest(&input, &mut d).unwrap_err(),
        VoltError::Truncated { needed: 2, remaining: 1, context: "dictionary ops" }
    );
}

#[test]
fn catalog_lookups_without_profiles() {
    assert!(volttrace::catalog::station_by_model(0x1001).is_none());
    assert!(volttrace::catalog::firmware_policy(1, 2).is_none());
    assert!(volttrace::catalog::rule_by_id(7).is_none());
    assert_eq!(volttrace::catalog::meter_quality_hint(3), 100);
}
