use rust_dbms::wal::{decode_records, encode_record, WalError, WalRecord, HEADER_SIZE};

fn rec(page_id: u64, offset: u64, data: Vec<u8>) -> WalRecord {
    WalRecord { page_id, offset, length: data.len() as u64, data }
}

fn fields(r: &WalRecord) -> (u64, u64, u64, Vec<u8>) {
    (r.page_id, r.offset, r.length, r.data.clone())
}

#[test]
fn frame_layout_is_little_endian_header_then_payload() {
    let bytes = encode_record(&rec(1, 2, vec![0xaa, 0xbb])).unwrap();
    let mut expected = vec![1, 0, 0, 0, 0, 0, 0, 0];
    expected.extend([2, 0, 0, 0, 0, 0, 0, 0]);
    expected.extend([2, 0, 0, 0, 0, 0, 0, 0]);
    expected.extend([0xaa, 0xbb]);
    assert_eq!(bytes, expected);
    assert_eq!(bytes.len(), HEADER_SIZE + 2);
}

#[test]
fn inconsistent_length_is_rejected() {
    let bad = WalRecord { page_id: 0, offset: 0, length: 3, data: vec![1, 2] };
    assert_eq!(encode_record(&bad), Err(WalError::LengthMismatch));
}

#[test]
fn region_past_the_page_is_rejected() {
    assert_eq!(encode_record(&rec(0, 4095, vec![1, 2])), Err(WalError::OutOfPage));
    assert_eq!(encode_record(&rec(0, u64::MAX, vec![1])), Err(WalError::OutOfPage));
    assert!(encode_record(&rec(0, 4094, vec![1, 2])).is_ok());
}

#[test]
fn appended_records_read_back_in_order() {
    let records = vec![rec(0, 0, vec![1, 2, 3]), rec(5, 4000, vec![]), rec(2, 10, vec![9; 96])];
    let mut log = Vec::new();
    for r in &records {
        log.extend(encode_record(r).unwrap());
    }
    let back = decode_records(&log);
    assert_eq!(back.len(), 3);
    for (a, b) in records.iter().zip(back.iter()) {
        assert_eq!(fields(a), fields(b));
        assert!(b.offset + b.length <= 4096);
    }
}

#[test]
fn truncated_last_record_is_dropped() {
    let mut log = encode_record(&rec(1, 0, vec![4, 5])).unwrap();
    let second = encode_record(&rec(2, 8, vec![6, 7, 8, 9])).unwrap();
    for cut in 0..second.len() {
        let mut partial = log.clone();
        partial.extend_from_slice(&second[..cut]);
        let back = decode_records(&partial);
        assert_eq!(back.len(), 1, "cut at {}", cut);
        assert_eq!(fields(&back[0]), (1, 0, 2, vec![4, 5]));
    }
    log.extend(second);
    assert_eq!(decode_records(&log).len(), 2);
}

#[test]
fn empty_log_has_no_records() {
    assert!(decode_records(&[]).is_empty());
    assert!(decode_records(&[0u8; 23]).is_empty());
}

#[test]
fn frame_outside_a_page_still_reads_back() {
    let mut log = encode_record(&rec(0, 0, vec![1])).unwrap();
    let mut odd = vec![0u8; 8];
    odd.extend(5000u64.to_le_bytes());
    odd.extend(0u64.to_le_bytes());
    log.extend(odd);
    log.extend(encode_record(&rec(0, 1, vec![2])).unwrap());
    let back = decode_records(&log);
    assert_eq!(back.len(), 3);
    assert_eq!(fields(&back[0]), (0, 0, 1, vec![1]));
    assert_eq!(fields(&back[1]), (0, 5000, 0, vec![]));
    assert!(!back[1].is_valid());
    assert_eq!(fields(&back[2]), (0, 1, 1, vec![2]));
}
