use langpatch::allowed_language::{AllowedLanguage, AllowedLanguageRow, ALLOWED_LANGUAGE_HASH};
use langpatch::design_index::{DataEntry, FileEntry};
use langpatch::error::{EncodeError, FormatError};

fn s(text: &str) -> Vec<u8> {
    text.as_bytes().to_vec()
}

fn entry() -> DataEntry {
    DataEntry { name_hash: ALLOWED_LANGUAGE_HASH, size: 64, offset: 128 }
}

fn file() -> FileEntry {
    FileEntry { file_hash: "00ff".to_string(), ..FileEntry::default() }
}

fn encode(rows: Vec<AllowedLanguageRow>) -> Result<Vec<u8>, EncodeError> {
    let (e, f) = (entry(), file());
    AllowedLanguage::new("dir".to_string(), &e, &f).serialize_rows(rows)
}

fn decode(data: &[u8]) -> Result<Vec<AllowedLanguageRow>, FormatError> {
    let (e, f) = (entry(), file());
    AllowedLanguage::new("dir".to_string(), &e, &f).parse(data)
}

fn full_row() -> AllowedLanguageRow {
    AllowedLanguageRow {
        area: Some(s("os")),
        row_type: Some(1),
        language_list: Some(vec![s("en"), s("jp"), s("kr")]),
        default_language: Some(s("en")),
    }
}

fn sample_rows() -> Vec<AllowedLanguageRow> {
    vec![
        full_row(),
        AllowedLanguageRow::default(),
        AllowedLanguageRow { area: Some(s("cn")), ..AllowedLanguageRow::default() },
        AllowedLanguageRow { row_type: Some(0), ..AllowedLanguageRow::default() },
        AllowedLanguageRow { language_list: Some(vec![]), ..AllowedLanguageRow::default() },
        AllowedLanguageRow { default_language: Some(vec![]), ..AllowedLanguageRow::default() },
        AllowedLanguageRow {
            area: Some(vec![0xFF, 0x00, 0xC3]),
            row_type: None,
            language_list: Some(vec![vec![], vec![0x80], s("cn")]),
            default_language: None,
        },
    ]
}

#[test]
fn table_hash_is_the_fixed_one() {
    assert_eq!(ALLOWED_LANGUAGE_HASH, -515329346);
}

#[test]
fn mask_of_row_with_only_default_language() {
    let row = AllowedLanguageRow { default_language: Some(s("en")), ..AllowedLanguageRow::default() };
    assert_eq!(row.mask(), 0b1000);
    assert_eq!(row.serialize().unwrap(), vec![0b1000, 2, b'e', b'n']);
}

#[test]
fn mask_of_row_with_all_fields() {
    assert_eq!(full_row().mask(), 0b1111);
    assert_eq!(
        full_row().serialize().unwrap(),
        vec![
            0b1111, 2, b'o', b's', 1, 0x06, 2, b'e', b'n', 2, b'j', b'p', 2, b'k', b'r', 2, b'e', b'n'
        ]
    );
}

#[test]
fn row_with_no_field_is_its_mask_alone() {
    let row = AllowedLanguageRow::default();
    assert_eq!(row.mask(), 0b0000);
    assert_eq!(row.serialize().unwrap(), vec![0b0000]);
}

#[test]
fn mask_of_every_combination() {
    for bits in 0u8..16 {
        let row = AllowedLanguageRow {
            area: if bits & 1 != 0 { Some(s("a")) } else { None },
            row_type: if bits & 2 != 0 { Some(9) } else { None },
            language_list: if bits & 4 != 0 { Some(vec![s("b")]) } else { None },
            default_language: if bits & 8 != 0 { Some(s("c")) } else { None },
        };
        assert_eq!(row.mask(), bits);
        let bytes = row.serialize().unwrap();
        assert_eq!(bytes[0], bits);
        let (back, taken) = AllowedLanguageRow::deserialize(&bytes).unwrap();
        assert_eq!(back, row);
        assert_eq!(taken, bytes.len());
    }
}

#[test]
fn fields_follow_in_the_order_of_their_bits() {
    let row = AllowedLanguageRow {
        area: Some(s("A")),
        row_type: Some(0x42),
        language_list: None,
        default_language: Some(s("D")),
    };
    assert_eq!(row.serialize().unwrap(), vec![0b1011, 1, b'A', 0x42, 1, b'D']);
}

#[test]
fn table_starts_with_version_and_count() {
    assert_eq!(encode(vec![]).unwrap(), vec![0x00, 0x00]);
    assert_eq!(encode(vec![AllowedLanguageRow::default()]).unwrap(), vec![0x00, 0x02, 0x00]);
    let rows: Vec<AllowedLanguageRow> = (0..64).map(|_| AllowedLanguageRow::default()).collect();
    let bytes = encode(rows).unwrap();
    assert_eq!(&bytes[..3], &[0x00, 0x80, 0x01]);
    assert_eq!(bytes.len(), 3 + 64);
}

#[test]
fn round_trip_of_sample_rows() {
    let bytes = encode(sample_rows()).unwrap();
    assert_eq!(decode(&bytes).unwrap(), sample_rows());
}

#[test]
fn round_trip_keeps_absence_apart_from_emptiness() {
    let rows = vec![
        AllowedLanguageRow { language_list: Some(vec![]), ..AllowedLanguageRow::default() },
        AllowedLanguageRow { language_list: None, ..AllowedLanguageRow::default() },
        AllowedLanguageRow { area: Some(vec![]), ..AllowedLanguageRow::default() },
        AllowedLanguageRow { area: None, ..AllowedLanguageRow::default() },
    ];
    let back = decode(&encode(rows.clone()).unwrap()).unwrap();
    assert_eq!(back, rows);
    assert_eq!(back[0].language_list, Some(vec![]));
    assert_eq!(back[1].language_list, None);
    assert_eq!(back[2].area, Some(vec![]));
    assert_eq!(back[3].area, None);
}

#[test]
fn round_trip_at_the_limits() {
    let long = vec![0x61u8; 255];
    let list: Vec<Vec<u8>> = (0..127).map(|i| vec![i as u8; (i % 4) as usize]).collect();
    let row = AllowedLanguageRow {
        area: Some(long.clone()),
        row_type: Some(255),
        language_list: Some(list),
        default_language: Some(long),
    };
    let rows: Vec<AllowedLanguageRow> = (0..127).map(|_| row.clone()).collect();
    let bytes = encode(rows.clone()).unwrap();
    assert_eq!(&bytes[..3], &[0x00, 0xFE, 0x01]);
    assert_eq!(decode(&bytes).unwrap(), rows);
}

#[test]
fn round_trip_ignores_what_follows_the_table() {
    let mut bytes = encode(sample_rows()).unwrap();
    bytes.extend_from_slice(&[0u8; 16]);
    assert_eq!(decode(&bytes).unwrap(), sample_rows());
}

#[test]
fn strings_need_not_be_text() {
    let bytes = [0x00, 0x02, 0b0001, 3, 0xFF, 0xFE, 0x00];
    let rows = decode(&bytes).unwrap();
    assert_eq!(rows[0].area, Some(vec![0xFF, 0xFE, 0x00]));
}

#[test]
fn unknown_version_byte_is_accepted() {
    assert_eq!(decode(&[0x07, 0x02, 0x00]).unwrap(), vec![AllowedLanguageRow::default()]);
    assert_eq!(decode(&[0xFF, 0x00]).unwrap(), vec![]);
}

#[test]
fn mask_bits_above_the_fourth_are_ignored() {
    let rows = decode(&[0x00, 0x02, 0xF2, 0x09]).unwrap();
    assert_eq!(rows, vec![AllowedLanguageRow { row_type: Some(9), ..AllowedLanguageRow::default() }]);
}

#[test]
fn string_truncated_in_the_middle_fails() {
    // one row, area of declared length 5 with 3 bytes present
    let bytes = [0x00, 0x02, 0b0001, 5, b'a', b'b', b'c'];
    assert_eq!(decode(&bytes), Err(FormatError::TruncatedRow));
    assert_eq!(AllowedLanguage::read_string(&[5, b'a', b'b', b'c']), None);
    assert_eq!(AllowedLanguageRow::deserialize(&bytes[2..]), Err(FormatError::TruncatedRow));
}

#[test]
fn every_truncation_of_the_table_is_detected() {
    let bytes = encode(sample_rows()).unwrap();
    for len in 0..bytes.len() {
        let result = decode(&bytes[..len]);
        assert!(
            result == Err(FormatError::TruncatedRow) || result == Err(FormatError::MalformedVarint),
            "length {}: {:?}",
            len,
            result
        );
    }
}

#[test]
fn empty_buffer_is_truncated() {
    assert_eq!(decode(&[]), Err(FormatError::TruncatedRow));
}

#[test]
fn missing_count_is_a_malformed_varint() {
    assert_eq!(decode(&[0x00]), Err(FormatError::MalformedVarint));
    assert_eq!(decode(&[0x00, 0x80]), Err(FormatError::MalformedVarint));
    assert_eq!(decode(&[0x00, 0x80, 0x80, 0x00]), Err(FormatError::MalformedVarint));
}

#[test]
fn malformed_list_count_is_reported() {
    assert_eq!(decode(&[0x00, 0x02, 0b0100]), Err(FormatError::MalformedVarint));
    assert_eq!(decode(&[0x00, 0x02, 0b0100, 0xFF, 0xFF]), Err(FormatError::MalformedVarint));
    assert_eq!(AllowedLanguage::read_string_array(&[0x80, 0x80]), Err(FormatError::MalformedVarint));
}

#[test]
fn missing_rows_fail() {
    assert_eq!(decode(&[0x00, 0x04, 0x00]), Err(FormatError::TruncatedRow));
    assert_eq!(decode(&[0x00, 0xFE, 0x01]), Err(FormatError::TruncatedRow));
}

#[test]
fn missing_fields_fail() {
    assert_eq!(decode(&[0x00, 0x02, 0b0001]), Err(FormatError::TruncatedRow));
    assert_eq!(decode(&[0x00, 0x02, 0b0010]), Err(FormatError::TruncatedRow));
    assert_eq!(decode(&[0x00, 0x02, 0b0100, 0x02]), Err(FormatError::TruncatedRow));
    assert_eq!(decode(&[0x00, 0x02, 0b0100, 0x04, 0x00]), Err(FormatError::TruncatedRow));
    assert_eq!(decode(&[0x00, 0x02, 0b1000]), Err(FormatError::TruncatedRow));
    assert_eq!(decode(&[0x00, 0x02, 0b1000, 0x01]), Err(FormatError::TruncatedRow));
}

#[test]
fn negative_count_announces_rows_that_are_missing() {
    assert_eq!(decode(&[0x00, 0x01]), Err(FormatError::TruncatedRow));
    assert_eq!(decode(&[0x00, 0xFF, 0x01]), Err(FormatError::TruncatedRow));
    assert_eq!(AllowedLanguage::read_count(&[0x01]), Err(FormatError::TruncatedRow));
    assert_eq!(AllowedLanguage::read_string_array(&[0x03, 0x00]), Err(FormatError::TruncatedRow));
}

#[test]
fn read_count_gives_count_and_length() {
    assert_eq!(AllowedLanguage::read_count(&[0x00]), Ok((0, 1)));
    assert_eq!(AllowedLanguage::read_count(&[0x06, 0xFF]), Ok((3, 1)));
    assert_eq!(AllowedLanguage::read_count(&[0xFE, 0x01]), Ok((127, 2)));
    assert_eq!(AllowedLanguage::read_count(&[]), Err(FormatError::MalformedVarint));
}

#[test]
fn read_string_gives_bytes_and_length() {
    assert_eq!(AllowedLanguage::read_string(&[0]), Some((vec![], 1)));
    assert_eq!(AllowedLanguage::read_string(&[2, b'e', b'n', b'x']), Some((s("en"), 3)));
    assert_eq!(AllowedLanguage::read_string(&[]), None);
    assert_eq!(AllowedLanguage::read_string(&[1]), None);
    let mut long = vec![255u8];
    long.extend_from_slice(&[7u8; 255]);
    assert_eq!(AllowedLanguage::read_string(&long), Some((vec![7u8; 255], 256)));
    assert_eq!(AllowedLanguage::read_string(&long[..255]), None);
}

#[test]
fn read_string_array_gives_strings_and_length() {
    assert_eq!(AllowedLanguage::read_string_array(&[0x00, 0xFF]), Ok((vec![], 1)));
    assert_eq!(
        AllowedLanguage::read_string_array(&[0x04, 2, b'c', b'n', 0, 9]),
        Ok((vec![s("cn"), vec![]], 5))
    );
    assert_eq!(AllowedLanguage::read_string_array(&[0x04, 2, b'c', b'n']), Err(FormatError::TruncatedRow));
}

#[test]
fn write_string_puts_length_first() {
    let mut out = vec![0xAA];
    assert_eq!(AllowedLanguageRow::write_string(&mut out, b"en"), Ok(()));
    assert_eq!(out, vec![0xAA, 2, b'e', b'n']);
    assert_eq!(AllowedLanguageRow::write_string(&mut out, b""), Ok(()));
    assert_eq!(out, vec![0xAA, 2, b'e', b'n', 0]);
}

#[test]
fn write_string_refuses_more_than_255_bytes() {
    let mut out = vec![0xAA];
    assert_eq!(AllowedLanguageRow::write_string(&mut out, &[0u8; 256]), Err(EncodeError::FieldTooLong));
    assert_eq!(out, vec![0xAA]);
    assert_eq!(AllowedLanguageRow::write_string(&mut out, &[1u8; 255]), Ok(()));
    assert_eq!(out.len(), 1 + 256);
    assert_eq!(out[1], 255);
}

#[test]
fn write_string_array_puts_count_first() {
    let mut out = vec![0xAA];
    assert_eq!(AllowedLanguageRow::write_string_array(&mut out, &[s("cn"), s("en")]), Ok(()));
    assert_eq!(out, vec![0xAA, 0x04, 2, b'c', b'n', 2, b'e', b'n']);
    let mut out = Vec::new();
    assert_eq!(AllowedLanguageRow::write_string_array(&mut out, &[]), Ok(()));
    assert_eq!(out, vec![0x00]);
}

#[test]
fn write_string_array_refuses_what_does_not_fit() {
    let mut out = vec![0xAA];
    let many: Vec<Vec<u8>> = (0..128).map(|_| Vec::new()).collect();
    assert_eq!(AllowedLanguageRow::write_string_array(&mut out, &many), Err(EncodeError::FieldTooLong));
    assert_eq!(out, vec![0xAA]);
    let long = vec![s("ok"), vec![0u8; 256]];
    assert_eq!(AllowedLanguageRow::write_string_array(&mut out, &long), Err(EncodeError::FieldTooLong));
    assert_eq!(out, vec![0xAA]);
    assert_eq!(AllowedLanguageRow::write_string_array(&mut out, &many[..127]), Ok(()));
    assert_eq!(out.len(), 1 + 2 + 127);
}

#[test]
fn serialize_refuses_fields_that_are_too_long() {
    let long = vec![0u8; 256];
    let rows = [
        AllowedLanguageRow { area: Some(long.clone()), ..AllowedLanguageRow::default() },
        AllowedLanguageRow { default_language: Some(long.clone()), ..AllowedLanguageRow::default() },
        AllowedLanguageRow { language_list: Some(vec![long.clone()]), ..AllowedLanguageRow::default() },
        AllowedLanguageRow {
            language_list: Some((0..128).map(|_| Vec::new()).collect()),
            ..AllowedLanguageRow::default()
        },
    ];
    for row in rows {
        assert!(!row.fits());
        assert_eq!(row.serialize(), Err(EncodeError::FieldTooLong));
        assert_eq!(encode(vec![AllowedLanguageRow::default(), row]), Err(EncodeError::FieldTooLong));
    }
    assert!(full_row().fits());
}

#[test]
fn serialize_rows_refuses_more_than_127_rows() {
    let rows: Vec<AllowedLanguageRow> = (0..128).map(|_| AllowedLanguageRow::default()).collect();
    assert_eq!(encode(rows), Err(EncodeError::FieldTooLong));
}

#[test]
fn deserialize_says_how_many_bytes_the_row_took() {
    let mut bytes = full_row().serialize().unwrap();
    let own = bytes.len();
    bytes.extend_from_slice(&[0xEE; 3]);
    assert_eq!(AllowedLanguageRow::deserialize(&bytes), Ok((full_row(), own)));
    assert_eq!(AllowedLanguageRow::deserialize(&[]), Err(FormatError::TruncatedRow));
}

#[test]
fn table_keeps_what_it_was_made_of() {
    let (e, f) = (entry(), file());
    let table = AllowedLanguage::new("some/dir".to_string(), &e, &f);
    assert_eq!(table.design_data_dir(), "some/dir");
    assert_eq!(*table.excel_data_entry(), e);
    assert_eq!(*table.excel_file_entry(), f);
    assert!(std::ptr::eq(table.excel_data_entry(), &e));
    assert!(std::ptr::eq(table.excel_file_entry(), &f));
}

#[test]
fn errors_in_words() {
    assert_eq!(FormatError::TruncatedInput.message(), "the index ends before a declared field or record");
    assert_eq!(FormatError::TruncatedRow.message(), "the table ends before a declared field");
    assert_eq!(FormatError::MalformedVarint.message(), "a count is malformed");
    assert_eq!(EncodeError::FieldTooLong.message(), "a string or a list is too long to be written");
}
