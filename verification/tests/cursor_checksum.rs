use volttrace::checksum::{crc32, fold64, rolling_window_score, station_digest};
use volttrace::cursor::ByteCursor;
use volttrace::error::VoltError;

#[test]
fn cursor_reads_little_endian_values() {
    let data = [0x34u8, 0x12, 0x78, 0x56, 0x34, 0x12, 0xff, 0x01, 0x02, 0x03];
    let mut c = ByteCursor::new(&data, "test");
    assert_eq!(c.read_u16(), Ok(0x1234));
    assert_eq!(c.read_u32(), Ok(0x1234_5678));
    assert_eq!(c.read_i8(), Ok(-1));
    assert_eq!(c.position(), 7);
    assert_eq!(c.read_u24(), Ok(0x030201));
    assert_eq!(c.remaining(), 0);
    assert!(c.is_empty());
}

#[test]
fn cursor_reports_truncation_with_context() {
    let data = [0xaau8, 0xbb];
    let mut c = ByteCursor::new(&data, "header");
    assert_eq!(
        c.read_u32(),
        Err(VoltError::Truncated { needed: 4, remaining: 2, context: "header" })
    );
    assert_eq!(c.position(), 0);
    c.set_context("body");
    assert_eq!(c.take(5), Err(VoltError::Truncated { needed: 5, remaining: 2, context: "body" }));
    assert_eq!(c.take(2), Ok(&data[..]));
    assert_eq!(c.peek_u8(), Err(VoltError::Truncated { needed: 1, remaining: 0, context: "body" }));
}

#[test]
fn cursor_reads_signed_and_wide_values() {
    let data = [0xfeu8, 0xff, 0xfd, 0xff, 0xff, 0xff, 1, 2, 3, 4, 5, 6, 7, 8];
    let mut c = ByteCursor::new(&data, "wide");
    assert_eq!(c.read_i16(), Ok(-2));
    assert_eq!(c.read_i32(), Ok(-3));
    assert_eq!(c.read_u64(), Ok(0x0807_0605_0403_0201));
}

#[test]
fn cursor_decodes_varints() {
    let data = [0xacu8, 0x02, 0x03, 0x04, 0x80, 0x80, 0x80, 0x80, 0x80];
    let mut c = ByteCursor::new(&data, "varint");
    assert_eq!(c.read_var_u32(), Ok(300));
    assert_eq!(c.read_var_i32(), Ok(-2));
    assert_eq!(c.read_var_i32(), Ok(2));
    assert_eq!(c.read_var_u32(), Err(VoltError::InvalidValue("varint too long")));
}

#[test]
fn cursor_length_prefixed_bytes_and_forks() {
    let data = [2u8, b'a', b'b', 3, 0, b'x', b'y', b'z', 9];
    let mut c = ByteCursor::new(&data, "prefixed");
    assert_eq!(c.read_bytes_with_u8_len(), Ok(&b"ab"[..]));
    assert_eq!(c.read_bytes_with_u16_len(), Ok(&b"xyz"[..]));
    let fork = c.fork(1, "inner");
    assert!(fork.is_ok());
    let mut inner = fork.unwrap();
    assert_eq!(inner.context(), "inner");
    assert_eq!(inner.read_u8(), Ok(9));
    assert!(c.fork(2, "inner").is_err());
    assert_eq!(c.skip(1), Ok(()));
    assert_eq!(c.take_remaining(), &b""[..]);
}

#[test]
fn crc32_matches_the_standard_check_value() {
    assert_eq!(crc32(b"123456789"), 0xcbf4_3926);
    assert_eq!(crc32(b""), 0);
}

#[test]
fn rolling_score_is_adler32() {
    assert_eq!(rolling_window_score(b"Wikipedia"), 0x11e6_0398);
    assert_eq!(rolling_window_score(b""), 1);
}

#[test]
fn fold64_and_station_digest_values() {
    assert_eq!(fold64(0, b""), 0);
    assert_eq!(fold64(1, b"a"), 0x0006_0001_4640_a32c);
    assert_eq!(station_digest(7, 3, b"abc"), 0xb64b_a833_ea3d_b668);
}
