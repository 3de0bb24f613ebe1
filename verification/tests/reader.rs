use gdsii::reader::{RecordBody, RecordError, RecordIter};
use gdsii::{DataType, GdsEightByteReal, GdsVersion, RecordHeader, RecordType};

#[test]
fn iter_two_records() {
    // HEADER: 6 bytes (4 header + 2 body), version 6; ENDLIB: 4 bytes, header only
    let bytes: &[u8] = &[
        0x00, 0x06, 0x00, 0x02, // HEADER: length 6, type 0x00, data type 0x02
        0x00, 0x06, // body: version 6
        0x00, 0x04, 0x04, 0x00, // ENDLIB: length 4, type 0x04, data type 0x00
    ];

    let mut iter = RecordIter::new(bytes);

    let record = iter.next().expect("Couldn't get record").expect("body parse failed");
    assert_eq!(record.header.record_type(), RecordType::Header);
    assert_eq!(record.header.data_type(), DataType::TwoByteSignedInt);
    assert_eq!(record.body, RecordBody::TwoByteSignedInt(vec![6]));

    let record = iter.next().expect("Couldn't get record").expect("body parse failed");
    assert_eq!(record.header.record_type(), RecordType::EndLib);
    assert_eq!(record.header.data_type(), DataType::NoData);
    assert_eq!(record.body, RecordBody::NoData);

    assert!(iter.next().is_none());
}

#[test]
fn iter_empty_input() {
    assert!(RecordIter::new(&[]).next().is_none());
}

#[test]
fn iter_short_header() {
    // A header takes four bytes
    assert!(RecordIter::new(&[0x00, 0x00, 0x00]).next().is_none());
}

#[test]
fn length_below_header_is_invalid_and_stops() {
    let bytes: &[u8] = &[0x00, 0x02, 0x04, 0x00, 0x00, 0x04, 0x04, 0x00];
    let mut iter = RecordIter::new(bytes);
    assert_eq!(
        iter.next().unwrap().unwrap_err(),
        RecordError::InvalidLength { offset: 0, length: 2 }
    );
    assert!(iter.next().is_none());
}

#[test]
fn length_past_the_end_is_truncated() {
    let bytes: &[u8] = &[0x00, 0x04, 0x04, 0x00, 0x00, 0x0A, 0x00, 0x02, 0x00, 0x06];
    let mut iter = RecordIter::new(bytes);
    assert!(iter.next().unwrap().is_ok());
    assert_eq!(
        iter.next().unwrap().unwrap_err(),
        RecordError::Truncated { offset: 4, length: 10, available: 6 }
    );
    assert!(iter.next().is_none());
}

#[test]
fn odd_integer_body_is_invalid() {
    let bytes: &[u8] = &[0x00, 0x07, 0x0D, 0x02, 0x00, 0x01, 0x02];
    let mut iter = RecordIter::new(bytes);
    assert_eq!(
        iter.next().unwrap().unwrap_err(),
        RecordError::Invalid { expected: DataType::TwoByteSignedInt, found: vec![0x00, 0x01, 0x02] }
    );
    assert!(iter.next().is_none());
}

#[test]
fn strings_lose_their_padding_null_and_must_be_utf8() {
    let bytes: &[u8] = &[0x00, 0x08, 0x02, 0x06, b'A', b'B', b'C', 0x00];
    let mut iter = RecordIter::new(bytes);
    let record = iter.next().unwrap().unwrap();
    assert_eq!(record.header.record_type(), RecordType::LibName);
    assert_eq!(record.body, RecordBody::AsciiString("ABC"));

    let bad: &[u8] = &[0x00, 0x06, 0x02, 0x06, 0xFF, 0xFE];
    let mut iter = RecordIter::new(bad);
    assert_eq!(
        iter.next().unwrap().unwrap_err(),
        RecordError::Invalid { expected: DataType::AsciiString, found: vec![0xFF, 0xFE] }
    );
}

#[test]
fn numbers_decode_big_endian() {
    let bytes: &[u8] = &[
        0x00, 0x0C, 0x10, 0x03, // XY, two four-byte integers
        0xFF, 0xFF, 0xFF, 0xFE, 0x00, 0x01, 0x02, 0x03, //
        0x00, 0x06, 0x1A, 0x01, // STRANS, one bit array word
        0x80, 0x06, //
        0x00, 0x06, 0x0D, 0x02, // LAYER
        0xFF, 0x85, //
        0x00, 0x0C, 0x1B, 0x05, // MAG, one eight-byte real
        0x41, 0x20, 0, 0, 0, 0, 0, 0,
    ];
    let mut iter = RecordIter::new(bytes);
    assert_eq!(iter.next().unwrap().unwrap().body, RecordBody::FourByteSignedInt(vec![-2, 0x0001_0203]));
    assert_eq!(iter.next().unwrap().unwrap().body, RecordBody::BitArray(vec![0x8006]));
    assert_eq!(iter.next().unwrap().unwrap().body, RecordBody::TwoByteSignedInt(vec![-123]));
    assert_eq!(
        iter.next().unwrap().unwrap().body,
        RecordBody::EightByteReal(vec![GdsEightByteReal([0x41, 0x20, 0, 0, 0, 0, 0, 0])])
    );
    assert!(iter.next().is_none());
}

#[test]
fn unknown_record_type_ends_reading() {
    let bytes: &[u8] = &[0x00, 0x04, 0x7F, 0x00];
    assert!(RecordIter::new(bytes).next().is_none());
}

#[test]
fn header_round_trips_through_bytes() {
    let h = RecordHeader::new(0x1234, RecordType::Xy, DataType::FourByteSignedInt);
    assert_eq!(h.to_bytes(), [0x12, 0x34, 0x10, 0x03]);
    assert_eq!(RecordHeader::parse(&h.to_bytes()), Some(h));
    assert_eq!(h.length(), 0x1234);
    assert_eq!(RecordHeader::parse(&[0x00, 0x04, 0x04]), None);
    assert_eq!(RecordHeader::parse(&[0x00, 0x04, 0x04, 0x09]), None);
}

#[test]
fn record_and_data_type_codes() {
    assert_eq!(RecordType::from_code(0x30), Some(RecordType::BgnExtn));
    assert_eq!(RecordType::from_code(0x31), Some(RecordType::EndExtn));
    assert_eq!(RecordType::EndLib.code(), 0x04);
    assert_eq!(RecordType::from_code(0x3B), None);
    assert_eq!(DataType::from_code(5), Some(DataType::EightByteReal));
    assert_eq!(DataType::from_code(7), None);
    assert_eq!(DataType::AsciiString.code(), 6);
    assert_eq!(GdsVersion::V7.number(), 7);
}

#[test]
fn only_one_padding_null_is_removed() {
    let bytes: &[u8] = &[0x00, 0x08, 0x1F, 0x06, b'A', b'B', 0x00, 0x00];
    let mut iter = RecordIter::new(bytes);
    let record = iter.next().unwrap().unwrap();
    assert_eq!(record.header.record_type(), RecordType::Reflibs);
    assert_eq!(record.body, RecordBody::AsciiString("AB\0"));
}
