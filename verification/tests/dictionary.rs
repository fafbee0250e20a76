use volttrace::dictionary::{Dictionary, TokenClass};
use volttrace::error::VoltError;

fn intern_op(class: u8, scope: u16, score: u16, bytes: &[u8]) -> Vec<u8> {
    let mut v = vec![0x01, class];
    v.extend_from_slice(&scope.to_le_bytes());
    v.extend_from_slice(&score.to_le_bytes());
    v.push(bytes.len() as u8);
    v.extend_from_slice(bytes);
    v
}

#[test]
fn intern_and_alias_ops_resolve() {
    let mut d = Dictionary::new();
    let mut ops = intern_op(0, 2, 5, b"abc");
    ops.extend_from_slice(&[0x02, 1, 0x00]);
    assert_eq!(d.parse_ops(&ops), Ok(()));
    assert_eq!(d.len(), 1);
    assert!(!d.is_empty());
    assert_eq!(d.resolve_alias(1), Some(b"abc".to_vec()));
    assert_eq!(d.resolve_alias(0), None);
    assert_eq!(d.resolve_alias(64), None);
    assert_eq!(d.alias_class(1), Some(TokenClass::Station));
    assert_eq!(d.alias_score(1), Some(2));
    assert_eq!(d.alias_score(2), None);
    assert_eq!(d.entry_text(0), Some("abc".to_string()));
    assert_eq!(d.entry_text(1), None);
    assert_eq!(d.audit_hash(), 0x21de_b997);
}

#[test]
fn alias_to_missing_entry_is_ignored() {
    let mut d = Dictionary::new();
    assert_eq!(d.parse_ops(&[0x02, 3, 0x05]), Ok(()));
    assert_eq!(d.resolve_alias(3), None);
    assert_eq!(d.alias_class(3), None);
}

#[test]
fn oversized_token_is_refused() {
    let mut d = Dictionary::new();
    let ops = intern_op(1, 0, 0, &[7u8; 97]);
    assert_eq!(d.parse_ops(&ops), Err(VoltError::LimitExceeded("dictionary token")));
}

#[test]
fn scope_and_unknown_ops_are_audited() {
    let mut d = Dictionary::new();
    assert_eq!(d.parse_ops(&[0x03, 0x07, 0x00, 0x09]), Ok(()));
    let expected = (0x811c_9dc5u32.rotate_left(5) ^ 0x5300_0007).rotate_left(5) ^ ((0x09u32 << 24) | 4);
    assert_eq!(d.audit_hash(), expected);
}

#[test]
fn patch_xors_and_extends_entry() {
    let mut d = Dictionary::new();
    let mut ops = intern_op(0, 0, 0, b"abc");
    ops.extend_from_slice(&[0x05, 0x00, 4, 0x01, 0x01, 0x00, b'd']);
    assert_eq!(d.parse_ops(&ops), Ok(()));
    assert_eq!(d.entry_text(0), Some("`ccd".to_string()));
}

#[test]
fn import_block_interns_tokens_in_active_scope() {
    let mut d = Dictionary::new();
    assert_eq!(d.parse_ops(&[0x03, 0x09, 0x00, 0x06, 2, 4, 1, b'm', 2, b'n', b'o']), Ok(()));
    assert_eq!(d.len(), 2);
    assert_eq!(d.entry_text(0), Some("m".to_string()));
    assert_eq!(d.entry_text(1), Some("no".to_string()));
}

#[test]
fn compact_sorts_by_scope_score_and_length() {
    let mut d = Dictionary::new();
    assert_eq!(d.intern(TokenClass::Station, 3, 1, b"x".to_vec()), 0);
    assert_eq!(d.intern(TokenClass::Station, 1, 9, b"y".to_vec()), 1);
    assert_eq!(d.intern(TokenClass::Station, 1, 2, b"zz".to_vec()), 2);
    d.compact(0x04, 0);
    assert_eq!(d.entry_text(0), Some("zz".to_string()));
    assert_eq!(d.entry_text(1), Some("y".to_string()));
    assert_eq!(d.entry_text(2), Some("x".to_string()));
    assert_eq!(d.compactions(), 1);
    d.compact(0x01, 5);
    assert_eq!(d.len(), 1);
    assert_eq!(d.entry_text(0), Some("y".to_string()));
    assert_eq!(d.compactions(), 2);
}

#[test]
fn compact_drops_empty_and_duplicate_tokens() {
    let mut d = Dictionary::new();
    d.intern(TokenClass::Route, 4, 1, b"q".to_vec());
    d.intern(TokenClass::Route, 4, 2, b"q".to_vec());
    d.intern(TokenClass::Route, 4, 3, vec![0, 1]);
    d.intern(TokenClass::Route, 4, 4, vec![]);
    d.compact(0x02 | 0x08, 0);
    assert_eq!(d.len(), 1);
    assert_eq!(d.entry_text(0), Some("q".to_string()));
}

#[test]
fn compact_op_reads_flags_and_threshold() {
    let mut d = Dictionary::new();
    let mut ops = intern_op(0, 1, 10, b"a");
    ops.extend(intern_op(0, 2, 1, b"b"));
    ops.extend_from_slice(&[0x04, 0x01, 5, 0]);
    assert_eq!(d.parse_ops(&ops), Ok(()));
    assert_eq!(d.len(), 1);
    assert_eq!(d.entry_text(0), Some("a".to_string()));
    assert_eq!(d.parse_ops(&[0x04, 0x01]), Err(VoltError::Truncated { needed: 2, remaining: 0, context: "dictionary ops" }));
}

#[test]
fn bind_alias_then_resolve() {
    let mut d = Dictionary::new();
    let id = d.intern(TokenClass::Payment, 0, 0, b"token".to_vec());
    d.bind_alias(5, id);
    assert_eq!(d.resolve_alias(5), Some(b"token".to_vec()));
    assert_eq!(d.alias_class(5), Some(TokenClass::Payment));
    let empty = d.intern(TokenClass::Payment, 0, 0, vec![]);
    d.bind_alias(6, empty);
    assert_eq!(d.resolve_alias(6), None);
    assert_eq!(d.alias_score(6), Some(0));
}

#[test]
fn token_class_from_byte() {
    assert_eq!(TokenClass::from_byte(4), TokenClass::Meter);
    assert_eq!(TokenClass::from_byte(9), TokenClass::Unknown(9));
}

#[test]
fn alias_sees_later_patches_of_its_token() {
    let mut d = Dictionary::new();
    let mut ops = intern_op(0, 2, 5, b"abc");
    ops.extend(intern_op(0, 2, 5, b"other"));
    ops.extend_from_slice(&[0x02, 1, 0x00, 0x02, 2, 0x01]);
    ops.extend_from_slice(&[0x05, 0x00, 4, 0x01, 0x01, 0x00, b'd']);
    assert_eq!(d.parse_ops(&ops), Ok(()));
    assert_eq!(d.entry_text(0), Some("`ccd".to_string()));
    assert_eq!(d.resolve_alias(1), Some(b"`cc".to_vec()));
    assert_eq!(d.resolve_alias(2), Some(b"other".to_vec()));
    let expected = volttrace::checksum::rolling_window_score(b"`cc") ^ volttrace::checksum::rolling_window_score(b"abc") ^ 2;
    assert_eq!(d.alias_score(1), Some(expected));
    assert_eq!(d.alias_score(2), Some(2));
}

#[test]
fn alias_keeps_its_token_across_sorting() {
    let mut d = Dictionary::new();
    let a = d.intern(TokenClass::Station, 5, 0, b"late".to_vec());
    d.intern(TokenClass::Station, 1, 0, b"early".to_vec());
    d.bind_alias(0, a);
    d.compact(0x04, 0);
    assert_eq!(d.entry_text(1), Some("late".to_string()));
    assert_eq!(d.resolve_alias(0), Some(b"late".to_vec()));
}

#[test]
fn entry_text_replaces_invalid_utf8() {
    let mut d = Dictionary::new();
    d.intern(TokenClass::Meter, 0, 0, vec![b'a', 0xff, b'b']);
    assert_eq!(d.entry_text(0), Some("a\u{fffd}b".to_string()));
}

#[test]
fn alias_outlives_a_dropped_token() {
    let mut d = Dictionary::new();
    let id = d.intern(TokenClass::Payment, 1, 0, vec![0, 5]);
    d.bind_alias(4, id);
    d.compact(0x02, 0);
    assert_eq!(d.len(), 0);
    assert_eq!(d.resolve_alias(4), Some(vec![0, 5]));
    assert_eq!(d.alias_score(4), Some(1));
}

#[test]
fn there_are_sixty_four_alias_slots() {
    let mut d = Dictionary::new();
    let id = d.intern(TokenClass::Route, 0, 0, b"r".to_vec());
    d.bind_alias(63, id);
    d.bind_alias(64, id);
    assert_eq!(d.resolve_alias(63), Some(b"r".to_vec()));
    assert_eq!(d.resolve_alias(64), None);
    assert_eq!(d.alias_class(64), None);
}
