use stepdb::btree::{read_be_u16, read_be_u32, read_leaf_cell};
use stepdb::errors::DbError;
use stepdb::pager::Pager;
use stepdb::record::{decode_be_int, decode_record, parse_varint, serial_size};
use stepdb::types::Value;

#[test]
fn varint_single_byte() {
    let b = vec![0x07u8, 0xff];
    assert_eq!(parse_varint(&b, 0, 2), Some((7, 1)));
}

#[test]
fn varint_two_bytes() {
    // 0x81 0x01 = (1 << 7) | 1 = 129
    let b = vec![0x81u8, 0x01];
    assert_eq!(parse_varint(&b, 0, 2), Some((129, 2)));
}

#[test]
fn varint_nine_bytes_uses_all_eight_bits_of_the_last() {
    let b = vec![0xffu8; 9];
    let (v, n) = parse_varint(&b, 0, 9).unwrap();
    assert_eq!(n, 9);
    assert_eq!(v, u64::MAX);
}

#[test]
fn varint_truncated_is_rejected() {
    let b = vec![0x81u8];
    assert_eq!(parse_varint(&b, 0, 1), None);
    // an in-range varint cut off by the end bound is also rejected
    let b2 = vec![0x81u8, 0x01];
    assert_eq!(parse_varint(&b2, 0, 1), None);
}

#[test]
fn serial_sizes_follow_the_format() {
    assert_eq!(serial_size(0), Some(0));
    assert_eq!(serial_size(1), Some(1));
    assert_eq!(serial_size(5), Some(6));
    assert_eq!(serial_size(6), Some(8));
    assert_eq!(serial_size(8), Some(0));
    assert_eq!(serial_size(9), Some(0));
    assert_eq!(serial_size(7), None); // floating point: uninterpreted here
    assert_eq!(serial_size(10), None);
    assert_eq!(serial_size(11), None);
    assert_eq!(serial_size(13), Some(0)); // empty text
    assert_eq!(serial_size(15), Some(1)); // one-byte text
    assert_eq!(serial_size(12), Some(0)); // empty blob
    assert_eq!(serial_size(18), Some(3)); // three-byte blob
}

#[test]
fn big_endian_integers_decode_with_sign_extension() {
    let b = vec![0xffu8, 0x7f, 0x00, 0x01];
    assert_eq!(decode_be_int(&b, 0, 1), -1);
    assert_eq!(decode_be_int(&b, 1, 1), 127);
    assert_eq!(decode_be_int(&b, 0, 2), -129); // 0xff7f
    assert_eq!(decode_be_int(&b, 2, 2), 1);
    let eight = vec![0x80u8, 0, 0, 0, 0, 0, 0, 0];
    assert_eq!(decode_be_int(&eight, 0, 8), i64::MIN);
}

#[test]
fn be_readers_match_the_wire_order() {
    let b = vec![0x12u8, 0x34, 0x56, 0x78];
    assert_eq!(read_be_u16(&b, 0), 0x1234);
    assert_eq!(read_be_u16(&b, 2), 0x5678);
    assert_eq!(read_be_u32(&b, 0), 0x12345678);
}

#[test]
fn record_decodes_null_int_text_and_blob_columns() {
    // header: length 5, serial types [0 (null), 1 (i8), 15 (1-char text), 14 (1-byte blob)]
    // bodies: [0x2a] [b'z'] [0x9c]
    let payload = vec![5u8, 0, 1, 15, 14, 0x2a, b'z', 0x9c];
    let rec = decode_record(&payload, 0, payload.len()).unwrap();
    assert_eq!(rec.values.len(), 4);
    assert!(matches!(rec.values[0], Value::Null));
    assert!(matches!(rec.values[1], Value::Integer(0x2a)));
    match &rec.values[2] {
        Value::Text(s) => assert_eq!(s, "z"),
        other => panic!("expected text, got {:?}", other),
    }
    match &rec.values[3] {
        Value::Blob(b) => assert_eq!(b.as_slice(), &[0x9c]),
        other => panic!("expected a blob, got {:?}", other),
    }
}

#[test]
fn record_with_constant_serial_types_has_no_bodies() {
    // serial types 8 and 9 stand for the constants 0 and 1
    let payload = vec![3u8, 8, 9];
    let rec = decode_record(&payload, 0, payload.len()).unwrap();
    assert_eq!(rec.values.len(), 2);
    assert!(matches!(rec.values[0], Value::Integer(0)));
    assert!(matches!(rec.values[1], Value::Integer(1)));
}

#[test]
fn record_with_float_serial_type_is_corrupt() {
    let payload = vec![2u8, 7, 0, 0, 0, 0, 0, 0, 0, 0];
    assert_eq!(decode_record(&payload, 0, payload.len()).unwrap_err(), DbError::Corrupt);
}

#[test]
fn record_with_truncated_body_is_corrupt() {
    // declares a 4-char text but only 2 bytes follow
    let payload = vec![2u8, 21, b'a', b'b'];
    assert_eq!(decode_record(&payload, 0, payload.len()).unwrap_err(), DbError::Corrupt);
}

#[test]
fn record_with_invalid_utf8_text_is_corrupt() {
    let payload = vec![2u8, 15, 0xff];
    assert_eq!(decode_record(&payload, 0, payload.len()).unwrap_err(), DbError::Corrupt);
}

#[test]
fn leaf_cell_yields_rowid_and_record() {
    let mut page = vec![0u8; 512];
    page[0] = 0x0d;
    page[4] = 1; // one cell
    page[8] = 0;
    page[9] = 100; // cell pointer
    // payload length 3, rowid 5, record: header 2, serial 15, 'q'
    page[100] = 3;
    page[101] = 5;
    page[102] = 2;
    page[103] = 15;
    page[104] = b'q';
    let (rowid, rec) = read_leaf_cell(&page, 2, 0).unwrap();
    assert_eq!(rowid, 5);
    match &rec.values[0] {
        Value::Text(s) => assert_eq!(s, "q"),
        other => panic!("expected text, got {:?}", other),
    }
}

#[test]
fn leaf_cell_on_interior_page_is_corrupt() {
    let mut page = vec![0u8; 512];
    page[0] = 0x05;
    assert_eq!(read_leaf_cell(&page, 2, 0).unwrap_err(), DbError::Corrupt);
}

#[test]
fn pager_requests_load_once_and_stay_ready() {
    let mut pager = Pager::new(512);
    assert_eq!(pager.page_size(), 512);
    assert!(!pager.request_page(3)); // miss: enqueued
    assert!(!pager.request_page(3)); // still loading, idempotent
    let pending = pager.pending_pages();
    assert_eq!(pending, vec![3]);
    pager.complete_page(3, vec![7u8; 512]);
    assert!(pager.request_page(3)); // resident now
    assert_eq!(pager.pending_pages().len(), 0);
    assert_eq!(pager.page(3)[0], 7);
}

#[test]
fn pager_tracks_multiple_pending_pages() {
    let mut pager = Pager::new(512);
    assert!(!pager.request_page(1));
    assert!(!pager.request_page(5));
    let mut pending = pager.pending_pages();
    pending.sort();
    assert_eq!(pending, vec![1, 5]);
    pager.complete_page(1, vec![0u8; 512]);
    assert_eq!(pager.pending_pages(), vec![5]);
}
