use volttrace::error::VoltError;
use volttrace::parse_stream;
use volttrace::stream::StreamDecoder;

fn frame(out: &mut Vec<u8>, kind: u8, flags: u8, body: &[u8]) {
    out.push(kind);
    out.push(flags);
    out.extend_from_slice(&(body.len() as u16).to_le_bytes());
    out.extend_from_slice(body);
}

fn sample_stream() -> Vec<u8> {
    let program = [7u8, 0, 0, 0, 4, 0, 0x01, 0, 5, 0, 0, 0, 0x01, 1, 7, 0, 0, 0, 0x03, 2, 0, 1, 0x0a, 2, 0xff];
    let mut s = Vec::new();
    frame(&mut s, 0x01, 0, &[2, 5, 0x10, 0, 0, 0]);
    frame(&mut s, 0x06, 0, &program);
    frame(&mut s, 0x04, 0, b"||||");
    frame(&mut s, 0x08, 0, b"site=3");
    frame(&mut s, 0x02, 0, &[0x01, 0, 0, 0, 0, 0, 1, b'k']);
    frame(&mut s, 0x09, 0, &[1, 2, 3]);
    s
}

#[test]
fn frames_build_a_bundle() {
    let b = parse_stream(&sample_stream()).unwrap();
    assert_eq!((b.version, b.flags, b.sequence), (2, 5, 16));
    assert_eq!(b.scripts.len(), 1);
    assert_eq!(b.scripts[0].script_id, 7);
    assert_eq!(b.scripts[0].priority, 5);
    assert_eq!(b.receipts.len(), 1);
    assert_eq!(b.manifest.site_id, 3);
    assert_eq!(b.dictionary.len(), 2);
    assert_eq!(b.dictionary.entry_text(1), Some("k".to_string()));
}

#[test]
fn feeding_in_pieces_matches_feeding_at_once() {
    let data = sample_stream();
    let whole = parse_stream(&data).unwrap();
    for cut in 0..=data.len() {
        let mut d = StreamDecoder::new();
        assert_eq!(d.feed(&data[..cut]), Ok(()));
        assert_eq!(d.feed(&data[cut..]), Ok(()));
        let b = d.finish().unwrap();
        assert_eq!((b.version, b.flags, b.sequence), (whole.version, whole.flags, whole.sequence));
        assert_eq!(b.scripts.len(), whole.scripts.len());
        assert_eq!(b.receipts.len(), whole.receipts.len());
        assert_eq!(b.manifest.site_id, whole.manifest.site_id);
        assert_eq!(b.dictionary.len(), whole.dictionary.len());
        assert_eq!(b.dictionary.audit_hash(), whole.dictionary.audit_hash());
    }
}

#[test]
fn incomplete_frame_stays_pending() {
    let mut s = Vec::new();
    frame(&mut s, 0x01, 0, &[3, 0, 1, 0, 0, 0]);
    s.extend_from_slice(&[0x06, 0, 50, 0, 1, 2]);
    let b = parse_stream(&s).unwrap();
    assert_eq!(b.version, 3);
    assert!(b.scripts.is_empty());
}

#[test]
fn short_hello_is_ignored() {
    let mut s = Vec::new();
    frame(&mut s, 0x01, 0, &[3, 0]);
    let b = parse_stream(&s).unwrap();
    assert_eq!((b.version, b.flags, b.sequence), (1, 0, 0));
}

#[test]
fn frame_errors_propagate() {
    let mut s = Vec::new();
    frame(&mut s, 0x07, 0, b"NOPE");
    assert_eq!(parse_stream(&s).unwrap_err(), VoltError::BadMagic);
    let mut t = Vec::new();
    frame(&mut t, 0x03, 0, &[0xff]);
    assert_eq!(parse_stream(&t).unwrap_err(), VoltError::InvalidUtf8);
}

#[test]
fn nested_bundle_frame_adds_its_records() {
    let mut bundle = b"VTRC".to_vec();
    bundle.extend_from_slice(&[1, 0, 1, 0, 0, 0, 0, 0]);
    bundle.extend_from_slice(&[4, 0, 0, 0, 4, 0, 0, 0, 0, 0, 0, 0]);
    bundle.extend_from_slice(b"||||");
    let mut s = Vec::new();
    frame(&mut s, 0x07, 0, &bundle);
    let b = parse_stream(&s).unwrap();
    assert_eq!(b.receipts.len(), 1);
}
