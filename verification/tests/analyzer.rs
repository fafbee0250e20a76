use volttrace::analyzer::Analyzer;
use volttrace::decode_and_analyze_bundle;
use volttrace::dictionary::TokenClass;
use volttrace::error::VoltError;
use volttrace::model::{
    AttachmentRecord, Bundle, MeterSummary, ReceiptBatch, ReceiptRecord, ReceiptStatus, RouteRecord, ScriptBundle,
    TelemetryBatch, TelemetrySample,
};

fn sample(channel: u8, voltage_mv: i32, current_ma: i32, temperature_mc: i32, flags: u16) -> TelemetrySample {
    TelemetrySample { delta_ms: 0, channel, voltage_mv, current_ma, temperature_mc, flags }
}

fn receipt(session_id: u64, amount_cents: u32, energy_wh: u32, status: ReceiptStatus) -> ReceiptRecord {
    ReceiptRecord { session_id, token_alias: 0, amount_cents, energy_wh, auth_code: 0, status }
}

#[test]
fn risky_route_is_reported_and_scored() {
    let mut b = Bundle::new(1, 0, 5);
    b.manifest.routes.push(RouteRecord { route_id: 7, feeder_id: 0, transformer_id: 0, station_count: 100, risk_flags: 0 });
    b.manifest.routes.push(RouteRecord { route_id: 8, feeder_id: 0, transformer_id: 0, station_count: 96, risk_flags: 0x3fff });
    let r = Analyzer::new().analyze(&b);
    assert_eq!((r.site_id, r.sequence), (0, 5));
    assert_eq!(r.findings.len(), 1);
    let f = &r.findings[0];
    assert_eq!((f.code, f.severity, f.evidence), (1100, 2, 7u64 << 32));
    assert_eq!(f.message, "route risk marker".to_string());
    assert_eq!(r.score, 3305);
}

#[test]
fn clean_bundle_scores_its_sequence() {
    let b = Bundle::new(1, 0, 42);
    let r = Analyzer::default().analyze(&b);
    assert!(r.findings.is_empty());
    assert_eq!(r.score, 42);
}

#[test]
fn every_heuristic_fires_in_order() {
    let mut b = Bundle::new(1, 0, 5);
    b.manifest.routes.push(RouteRecord { route_id: 7, feeder_id: 0, transformer_id: 0, station_count: 100, risk_flags: 0 });
    b.telemetry.push(TelemetryBatch {
        source_id: 0x1122_3344,
        port_id: 9,
        start_time: 0,
        samples: vec![sample(0, 170_000, -250_000, 25_000, 0x8000), sample(0, 230_000, 0, 70_000, 0)],
        summaries: vec![MeterSummary { channel: 1, min_value: 0, max_value: 0, mean_value: 0, quality: 10 }],
    });
    b.receipts.push(ReceiptBatch {
        merchant_id: 0,
        lane_id: 0,
        receipts: vec![
            receipt(77, 30_000, 0, ReceiptStatus::OfflineQueued),
            receipt(1, 50, 600_000, ReceiptStatus::Captured),
        ],
    });
    b.scripts.push(ScriptBundle { script_id: 1, priority: 230, bytecode: vec![1; 17] });
    let id = b.dictionary.intern(TokenClass::Station, 0x42, 0, b"x".to_vec());
    b.dictionary.bind_alias(3, id);
    b.attachments.push(AttachmentRecord { attachment_id: 1, kind: 0, digest: 0x0123_0000, len: 5 });
    let r = Analyzer::new().analyze(&b);
    let codes: Vec<u16> = r.findings.iter().map(|f| f.code).collect();
    assert_eq!(codes, vec![1100, 2001, 2002, 2003, 2100, 3001, 3002, 4001, 5001, 6001]);
    let evidence: Vec<u64> = r.findings.iter().map(|f| f.evidence).collect();
    assert_eq!(
        evidence,
        vec![
            0x7_0000_0000,
            0x165e_c34e_bf80_10dc,
            0xffff_ffff_fffc_2f70,
            70_000,
            0x1_0000_000a,
            77,
            600_000,
            0x00aa_0012,
            0x42,
            0x0123_0000,
        ]
    );
    let severities: Vec<u8> = r.findings.iter().map(|f| f.severity).collect();
    assert_eq!(severities, vec![2, 2, 3, 2, 1, 2, 3, 1, 1, 1]);
    assert_eq!(r.findings[1].message, "voltage outside service envelope".to_string());
    assert_eq!(r.findings[3].message, "temperature discontinuity".to_string());
    assert_eq!(r.findings[8].message, "dictionary alias audit marker".to_string());
    assert_eq!(r.score, 1_107_047_989);
}

#[test]
fn decode_and_analyze_reports_decode_errors() {
    assert_eq!(decode_and_analyze_bundle(b"nope").unwrap_err(), VoltError::BadMagic);
    let mut data = b"VTRC".to_vec();
    data.extend_from_slice(&[1, 0, 0, 0, 9, 0, 0, 0]);
    let r = decode_and_analyze_bundle(&data).unwrap();
    assert_eq!((r.sequence, r.score), (9, 9));
}
