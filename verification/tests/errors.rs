use volttrace::error::VoltError;

#[test]
fn error_messages_read_like_their_display() {
    assert_eq!(VoltError::BadMagic.message(), "bad VoltTrace magic".to_string());
    assert_eq!(VoltError::UnsupportedVersion(9).message(), "unsupported VoltTrace version 9".to_string());
    assert_eq!(
        VoltError::Truncated { needed: 4, remaining: 2, context: "bundle" }.message(),
        "truncated bundle: needed 4, remaining 2".to_string()
    );
    assert_eq!(VoltError::InvalidSection(12).message(), "invalid section type 12".to_string());
    assert_eq!(VoltError::InvalidValue("x").message(), "invalid value: x".to_string());
    assert_eq!(VoltError::InvalidUtf8.message(), "invalid utf-8".to_string());
    assert_eq!(
        VoltError::Checksum { expected: 0x1234, actual: 0xdead_beef }.message(),
        "checksum mismatch: expected 0x00001234, actual 0xdeadbeef".to_string()
    );
    assert_eq!(VoltError::LimitExceeded("rle output").message(), "limit exceeded: rle output".to_string());
    assert_eq!(VoltError::Decode("backref distance").message(), "decode error: backref distance".to_string());
    assert_eq!(VoltError::Script("halt").message(), "script error: halt".to_string());
}
