use stat_diary_tools::codec::{decode, encode, DataEntry, FormatError};

fn entry(hour: u8, m: u8, p: u8, tags: Vec<u16>) -> DataEntry {
    DataEntry::new(hour, m, p, tags)
}

#[test]
fn encode_exact_bytes() {
    let entries = vec![entry(13, 85, 81, vec![0, 1, 2])];
    let bytes = encode(&entries);
    assert_eq!(bytes, vec![13, 85, 81, 0, 0, 0, 1, 0, 2, 255, 255]);
}

#[test]
fn encode_no_tags() {
    let entries = vec![entry(9, 80, 70, vec![])];
    assert_eq!(encode(&entries), vec![9, 80, 70, 255, 255]);
}

#[test]
fn round_trip_two_entries() {
    let entries = vec![entry(9, 80, 70, vec![1]), entry(10, 90, 60, vec![2, 0xFFFE])];
    let bytes = encode(&entries);
    let back = decode(&bytes).unwrap();
    assert_eq!(back.len(), 2);
    assert_eq!(back[0].hour, 9);
    assert_eq!(back[0].mental_score, 80);
    assert_eq!(back[0].physical_score, 70);
    assert_eq!(back[0].tags, vec![1]);
    assert_eq!(back[1].hour, 10);
    assert_eq!(back[1].mental_score, 90);
    assert_eq!(back[1].physical_score, 60);
    assert_eq!(back[1].tags, vec![2, 0xFFFE]);
}

#[test]
fn round_trip_duplicate_tags_kept() {
    let entries = vec![entry(0, 0, 0, vec![5, 5, 5])];
    let back = decode(&encode(&entries)).unwrap();
    assert_eq!(back[0].tags, vec![5, 5, 5]);
}

#[test]
fn decode_empty_is_no_entries() {
    let back = decode(&Vec::new()).unwrap();
    assert_eq!(back.len(), 0);
}

#[test]
fn truncation_missing_final_byte_rejected() {
    let entries = vec![entry(9, 80, 70, vec![1]), entry(10, 90, 60, vec![2])];
    let mut bytes = encode(&entries);
    bytes.pop();
    assert_eq!(decode(&bytes), Err(FormatError));
}

#[test]
fn truncation_missing_sentinel_rejected() {
    let entries = vec![entry(9, 80, 70, vec![1])];
    let mut bytes = encode(&entries);
    bytes.pop();
    bytes.pop();
    assert_eq!(decode(&bytes), Err(FormatError));
}

#[test]
fn decode_partial_header_rejected() {
    assert_eq!(decode(&vec![1, 2]), Err(FormatError));
}

#[test]
fn decode_unterminated_tags_rejected() {
    assert_eq!(decode(&vec![1, 2, 3]), Err(FormatError));
    assert_eq!(decode(&vec![1, 2, 3, 0, 7]), Err(FormatError));
}
