use volttrace::codec::{decode_payload, normalize_text};
use volttrace::error::VoltError;
use volttrace::model::Compression;

#[test]
fn raw_payload_is_copied() {
    assert_eq!(decode_payload(Compression::Raw, b"abc"), Ok(b"abc".to_vec()));
}

#[test]
fn rle_literals_and_runs() {
    let input = [0x02u8, b'a', b'b', b'c', 0x81, b'z'];
    assert_eq!(decode_payload(Compression::Rle, &input), Ok(b"abczzzz".to_vec()));
}

#[test]
fn rle_truncated_literal_and_run() {
    assert_eq!(
        decode_payload(Compression::Rle, &[0x05, 1]),
        Err(VoltError::Truncated { needed: 6, remaining: 1, context: "rle payload" })
    );
    assert_eq!(
        decode_payload(Compression::Rle, &[0x81]),
        Err(VoltError::Truncated { needed: 1, remaining: 0, context: "rle payload" })
    );
}

#[test]
fn rle_output_limit() {
    // 16384 runs of 66 bytes exceed 1 MiB.
    let mut input = Vec::new();
    for _ in 0..16_384 {
        input.push(0xbf);
        input.push(0x55);
    }
    assert_eq!(decode_payload(Compression::Rle, &input), Err(VoltError::LimitExceeded("rle output")));
}

#[test]
fn backref_copies_overlapping_bytes() {
    let input = [0u8, 0, 0x02, b'a', b'b', b'c', 0x80, 0x03];
    assert_eq!(decode_payload(Compression::BitBackref, &input), Ok(b"abcabca".to_vec()));
}

#[test]
fn backref_distance_past_the_start_is_refused() {
    let input = [0u8, 0, 0x00, b'x', 0x80, 0x05];
    assert_eq!(
        decode_payload(Compression::BitBackref, &input),
        Err(VoltError::Decode("backref distance"))
    );
}

#[test]
fn backref_short_input_has_no_size_hint() {
    assert_eq!(decode_payload(Compression::BitBackref, &[0x00]), Ok(vec![]));
}

#[test]
fn delta_ramp_fill_and_literals() {
    let input = [0x42u8, 0x05, 0xc1, 0x02, 0x01, 0x03];
    assert_eq!(
        decode_payload(Compression::DictionaryDelta, &input),
        Ok(vec![5, 10, 15, 15, 15, 31, 61])
    );
}

#[test]
fn delta_backref() {
    let input = [0x02u8, 0x61, 0x62, 0x80, 0x01];
    assert_eq!(
        decode_payload(Compression::DictionaryDelta, &input),
        Ok(vec![0x61, 0xa0, 0x61, 0xa0, 0x61])
    );
}

#[test]
fn normalize_text_replaces_controls() {
    assert_eq!(normalize_text(b"a\tb\x01\r"), "a b. ".to_string());
}
