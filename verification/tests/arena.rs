use volttrace::arena::{AttachmentArena, AttachmentKind};
use volttrace::checksum::fold64;
use volttrace::error::VoltError;

#[test]
fn add_with_link_flag_links_a_slot() {
    let mut a = AttachmentArena::new();
    assert_eq!(a.parse_ops(&[0x10, 1, 0x81, 3, 0, b'a', b'b', b'c']), Ok(()));
    assert_eq!(a.slab_count(), 1);
    assert_eq!(a.retained_bytes(), 3);
    assert_eq!(a.read_handle(1), Some(b"abc".to_vec()));
    assert_eq!(a.handle_kind(1), Some(AttachmentKind::ReceiptImage));
    let digest = fold64(0xcbf2_9ce4_8422_2325, b"abc");
    assert_eq!(a.handle_digest(1), Some(fold64(digest ^ 1, b"abc")));
    assert_eq!(a.handle_digest(1), Some(0xbb7c_de33_7711_6f15));
    assert_eq!(a.read_handle(0), None);
    assert_eq!(a.read_handle(200), None);
}

#[test]
fn evict_drops_old_unretained_slabs() {
    let mut a = AttachmentArena::new();
    let ops = [
        0x10, 0, 0x01, 3, 0, b'a', b'b', b'c', // retained, epoch 1
        0x10, 0, 0x00, 2, 0, b'x', b'y', // epoch 2
        0x10, 2, 0x00, 1, 0, b'z', // epoch 3
        0x12, 2, 0, 0, 0, 0x00, // evict epochs up to 2
    ];
    assert_eq!(a.parse_ops(&ops), Ok(()));
    assert_eq!(a.slab_count(), 2);
    assert_eq!(a.retained_bytes(), 4);
}

#[test]
fn evict_flag_keeps_small_slabs() {
    let mut a = AttachmentArena::new();
    a.add(AttachmentKind::MeterSnapshot, vec![1, 2], false);
    a.add(AttachmentKind::MeterSnapshot, vec![0; 20], false);
    assert_eq!(a.retained_bytes(), 22);
    a.evict(10, 0x02);
    assert_eq!(a.slab_count(), 1);
    assert_eq!(a.retained_bytes(), 2);
}

#[test]
fn link_and_mark_ops() {
    let mut a = AttachmentArena::new();
    let ops = [
        0x10, 3, 0x00, 2, 0, b'h', b'i', //
        0x11, 7, 0x00, // link slot 7 to slab 0
        0x13, 0x00, 0x01, // retain slab 0
        0x12, 0xff, 0xff, 0xff, 0xff, 0x00, // evict everything not retained
        0x55, 0x00, // unknown op skips one byte
    ];
    assert_eq!(a.parse_ops(&ops), Ok(()));
    assert_eq!(a.slab_count(), 1);
    assert_eq!(a.read_handle(7), Some(b"hi".to_vec()));
    assert_eq!(a.handle_kind(7), Some(AttachmentKind::MaintenanceLog));
}

#[test]
fn oversized_block_is_refused() {
    let mut a = AttachmentArena::new();
    assert_eq!(a.parse_ops(&[0x10, 0, 0, 0x01, 0x10]), Err(VoltError::LimitExceeded("attachment block")));
}

#[test]
fn attachment_kind_codes() {
    assert_eq!(AttachmentKind::from_byte(2), AttachmentKind::MeterSnapshot);
    assert_eq!(AttachmentKind::from_byte(9).code(), 9);
    assert_eq!(AttachmentKind::FirmwareChunk.code(), 0);
}

#[test]
fn linked_slot_outlives_eviction_and_bytes_are_recounted() {
    let mut a = AttachmentArena::new();
    let i = a.add(AttachmentKind::FirmwareChunk, b"abcdef".to_vec(), false);
    a.add(AttachmentKind::FirmwareChunk, b"gh".to_vec(), true);
    assert_eq!(a.retained_bytes(), 8);
    a.link(3, i);
    a.evict(u32::MAX, 0);
    assert_eq!(a.slab_count(), 1);
    assert_eq!(a.retained_bytes(), 2);
    assert_eq!(a.read_handle(3), Some(b"abcdef".to_vec()));
    assert_eq!(a.handle_kind(3), Some(AttachmentKind::FirmwareChunk));
}

#[test]
fn there_are_one_hundred_twenty_eight_handle_slots() {
    let mut a = AttachmentArena::new();
    let i = a.add(AttachmentKind::MeterSnapshot, b"m".to_vec(), false);
    a.link(127, i);
    a.link(128, i);
    assert_eq!(a.read_handle(127), Some(b"m".to_vec()));
    assert_eq!(a.read_handle(128), None);
}
