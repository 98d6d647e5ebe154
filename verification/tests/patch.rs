use langpatch::error::CapacityError;
use langpatch::patch::{slot_bytes, write_excel_data};

fn file_of(len: usize) -> Vec<u8> {
    (0..len).map(|i| (i % 251) as u8 | 0x80).collect()
}

#[test]
fn payload_one_byte_too_long_is_refused_and_file_untouched() {
    let mut file = file_of(100);
    let before = file.clone();
    let payload = vec![1u8; 31];
    assert_eq!(write_excel_data(&mut file, 20, &payload, 30), Err(CapacityError::PayloadTooLarge));
    assert_eq!(file, before);
}

#[test]
fn shorter_payload_is_followed_by_zeros() {
    let mut file = file_of(100);
    let before = file.clone();
    let payload = vec![7u8; 20];
    assert_eq!(write_excel_data(&mut file, 40, &payload, 30), Ok(()));
    assert_eq!(&file[..40], &before[..40]);
    assert_eq!(&file[40..60], &payload[..]);
    assert_eq!(&file[60..70], &[0u8; 10]);
    assert_eq!(&file[70..], &before[70..]);
    assert_eq!(file.len(), before.len());
}

#[test]
fn payload_that_fills_the_slot_gets_no_padding() {
    let mut file = file_of(50);
    let before = file.clone();
    let payload = vec![9u8; 10];
    assert_eq!(write_excel_data(&mut file, 40, &payload, 10), Ok(()));
    assert_eq!(&file[..40], &before[..40]);
    assert_eq!(&file[40..], &payload[..]);
}

#[test]
fn empty_payload_zeroes_the_slot() {
    let mut file = file_of(10);
    assert_eq!(write_excel_data(&mut file, 2, &[], 5), Ok(()));
    assert_eq!(file, vec![0x80, 0x81, 0, 0, 0, 0, 0, 0x87, 0x88, 0x89]);
}

#[test]
fn empty_slot_takes_only_an_empty_payload() {
    let mut file = file_of(4);
    let before = file.clone();
    assert_eq!(write_excel_data(&mut file, 4, &[], 0), Ok(()));
    assert_eq!(file, before);
    assert_eq!(write_excel_data(&mut file, 4, &[1], 0), Err(CapacityError::PayloadTooLarge));
    assert_eq!(file, before);
}

#[test]
fn slot_bytes_are_payload_and_padding() {
    assert_eq!(slot_bytes(&[1, 2, 3], 5), Ok(vec![1, 2, 3, 0, 0]));
    assert_eq!(slot_bytes(&[1, 2, 3], 3), Ok(vec![1, 2, 3]));
    assert_eq!(slot_bytes(&[], 2), Ok(vec![0, 0]));
    assert_eq!(slot_bytes(&[], 0), Ok(vec![]));
}

#[test]
fn slot_bytes_refuse_a_payload_longer_than_the_slot() {
    assert_eq!(slot_bytes(&[1, 2, 3], 2), Err(CapacityError::PayloadTooLarge));
    assert_eq!(slot_bytes(&[1], 0), Err(CapacityError::PayloadTooLarge));
}

#[test]
fn capacity_error_in_words() {
    assert_eq!(
        CapacityError::PayloadTooLarge.message(),
        "the table no longer fits the place it was read from"
    );
}
