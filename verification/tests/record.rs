use rqlite::cell::{Cell, TableInteriorCell};
use rqlite::page::MyError;
use rqlite::record::{Column, Record};
use rqlite::serial_type::SerialType;
use rqlite::utils::write_variant;

fn record_bytes(tags: &[i64], body: &[u8]) -> Vec<u8> {
    let mut header: Vec<u8> = Vec::new();
    for t in tags {
        header.extend_from_slice(&write_variant(*t));
    }
    let mut size = header.len() + 1;
    if write_variant(size as i64).len() > 1 {
        size += 1;
    }
    let mut out = write_variant(size as i64);
    out.extend_from_slice(&header);
    out.extend_from_slice(body);
    out
}

fn values(record: &Record) -> Vec<SerialType> {
    record.columns.iter().map(|c| c.serial_type.clone()).collect()
}

#[test]
fn width_table_of_fixed_types() {
    let body = [
        0xff, // I8
        0xff, 0xfe, // I16
        0x80, 0x00, 0x00, // I24
        0x00, 0x00, 0x00, 0x2a, // I32
        0xff, 0xff, 0xff, 0xff, 0xff, 0xfd, // I48
        0x7f, 0xff, 0xff, 0xff, 0xff, 0xff, 0xff, 0xff, // I64
        0x3f, 0xf8, 0x00, 0x00, 0x00, 0x00, 0x00, 0x00, // 1.5
    ];
    let data = record_bytes(&[0, 1, 2, 3, 4, 5, 6, 7, 8, 9], &body);
    let record = Record::from(&data).unwrap();
    assert_eq!(
        values(&record),
        vec![
            SerialType::Null,
            SerialType::I8(-1),
            SerialType::I16(-2),
            SerialType::I24(-8388608),
            SerialType::I32(42),
            SerialType::I48(-3),
            SerialType::I64(i64::MAX),
            SerialType::Float(0x3ff8_0000_0000_0000),
            SerialType::Zero,
            SerialType::One,
        ]
    );
    let offsets: Vec<usize> = record.columns.iter().map(|c| c.offset).collect();
    assert_eq!(offsets, vec![11, 11, 12, 14, 17, 21, 27, 35, 43, 43]);
    match &record.columns[7].serial_type {
        SerialType::Float(bits) => assert_eq!(f64::from_bits(*bits), 1.5),
        other => panic!("not a float: {:?}", other),
    }
}

#[test]
fn sign_extension_at_every_width() {
    let data = record_bytes(&[1, 1, 2, 2, 3, 3, 5, 5], &[
        0x7f, 0x80, 0x7f, 0xff, 0x80, 0x00, 0x7f, 0xff, 0xff, 0xff, 0xff, 0xff, 0x7f, 0xff, 0xff,
        0xff, 0xff, 0xff, 0x80, 0x00, 0x00, 0x00, 0x00, 0x00,
    ]);
    assert_eq!(
        values(&Record::from(&data).unwrap()),
        vec![
            SerialType::I8(127),
            SerialType::I8(-128),
            SerialType::I16(32767),
            SerialType::I16(-32768),
            SerialType::I24(8388607),
            SerialType::I24(-1),
            SerialType::I48((1i64 << 47) - 1),
            SerialType::I48(-(1i64 << 47)),
        ]
    );
}

#[test]
fn blob_and_text_lengths() {
    for k in 0..40usize {
        let body: Vec<u8> = (0..k).map(|i| b'a' + (i % 26) as u8).collect();
        let blob = Record::from(&record_bytes(&[12 + 2 * k as i64], &body)).unwrap();
        assert_eq!(values(&blob), vec![SerialType::Blob(body.clone())]);
        let text = Record::from(&record_bytes(&[13 + 2 * k as i64], &body)).unwrap();
        assert_eq!(values(&text), vec![SerialType::String(String::from_utf8(body.clone()).unwrap())]);
        assert_eq!(text.columns[0].value().len(), k);
    }
}

#[test]
fn text_of_several_bytes_a_character() {
    let body = "héllo wörld €".as_bytes();
    let data = record_bytes(&[13 + 2 * body.len() as i64], body);
    let record = Record::from(&data).unwrap();
    assert_eq!(record.columns[0].value(), "héllo wörld €");
}

#[test]
fn text_that_is_not_utf8() {
    assert_eq!(Record::from(&record_bytes(&[15], &[0xff])), Err(MyError::Utf8));
    assert_eq!(Record::from(&record_bytes(&[17], &[0xc3, 0x28])), Err(MyError::Utf8));
    // An encoded surrogate and an overlong encoding are not UTF-8 either.
    assert_eq!(Record::from(&record_bytes(&[19], &[0xed, 0xa0, 0x80])), Err(MyError::Utf8));
    assert_eq!(Record::from(&record_bytes(&[17], &[0xc0, 0x80])), Err(MyError::Utf8));
    // The same bytes are a fine BLOB.
    assert_eq!(
        values(&Record::from(&record_bytes(&[14], &[0xff])).unwrap()),
        vec![SerialType::Blob(vec![0xff])]
    );
}

#[test]
fn reserved_and_negative_serial_types() {
    assert_eq!(Record::from(&record_bytes(&[10], &[])), Err(MyError::InvalidSerialType));
    assert_eq!(Record::from(&record_bytes(&[11], &[])), Err(MyError::InvalidSerialType));
    assert_eq!(Record::from(&record_bytes(&[1, 11], &[7])), Err(MyError::InvalidSerialType));
    assert_eq!(Record::from(&record_bytes(&[-1], &[])), Err(MyError::InvalidSerialType));
}

#[test]
fn value_past_the_end() {
    assert_eq!(Record::from(&record_bytes(&[4], &[0, 0, 0])), Err(MyError::Truncated));
    assert_eq!(Record::from(&record_bytes(&[23], b"hell")), Err(MyError::Truncated));
    assert_eq!(Record::from(&record_bytes(&[i64::MAX], b"x")), Err(MyError::Truncated));
    assert_eq!(Record::from(&record_bytes(&[1, 6], &[1, 2, 3, 4, 5, 6, 7, 8])), Err(MyError::Truncated));
}

#[test]
fn header_that_does_not_fit() {
    assert_eq!(Record::from(&[]), Err(MyError::Truncated));
    assert_eq!(Record::from(&[0x81]), Err(MyError::Truncated));
    assert_eq!(Record::from(&[0x03, 0x01]), Err(MyError::Truncated));
    assert_eq!(Record::from(&[0x00]), Err(MyError::InvalidSerialType));
    assert_eq!(Record::from(&[0x81, 0x00]), Err(MyError::Truncated));
    assert_eq!(Record::from(&[0x80, 0x01, 0x00]), Err(MyError::InvalidSerialType));
    // The header ends inside a serial type.
    assert_eq!(Record::from(&[0x02, 0x81, 0x00, 0x00]), Err(MyError::InvalidSerialType));
    assert_eq!(Record::from(&[0xff; 9]), Err(MyError::InvalidSerialType));
}

#[test]
fn record_without_columns() {
    assert_eq!(Record::from(&[0x01]), Ok(Record { columns: vec![] }));
    assert_eq!(Record::from(&[0x01, 0x99]), Ok(Record { columns: vec![] }));
}

#[test]
fn header_size_of_two_bytes() {
    let tags: Vec<i64> = (0..130).map(|_| 8).collect();
    let data = record_bytes(&tags, &[]);
    assert_eq!(&data[..2], &[0x81, 0x04]);
    let record = Record::from(&data).unwrap();
    assert_eq!(record.columns.len(), 130);
    assert!(record.columns.iter().all(|c| c.offset == 132 && c.serial_type == SerialType::Zero));
}

#[test]
fn string_column_hello() {
    let data = record_bytes(&[23], b"hello");
    assert_eq!(data, vec![0x02, 0x17, b'h', b'e', b'l', b'l', b'o']);
    assert_eq!(
        Record::from(&data),
        Ok(Record { columns: vec![Column { offset: 2, serial_type: SerialType::String("hello".to_string()) }] })
    );
    let data = record_bytes(&[1, 23, 9], &[9, b'h', b'e', b'l', b'l', b'o']);
    let record = Record::from(&data).unwrap();
    assert_eq!(record.columns[1], Column { offset: 5, serial_type: SerialType::String("hello".to_string()) });
    assert_eq!(record.columns[2], Column { offset: 10, serial_type: SerialType::One });
}

#[test]
fn column_value_is_the_text() {
    let data = record_bytes(&[23, 4, 0, 12 + 4], &[b'h', b'e', b'l', b'l', b'o', 0, 0, 0, 42, 1, 2]);
    let record = Record::from(&data).unwrap();
    assert_eq!(record.columns[0].value(), "hello");
    assert_eq!(record.columns[1].value(), "");
    assert_eq!(record.columns[2].value(), "");
    assert_eq!(record.columns[3].value(), "");
}

#[test]
fn clone_keeps_every_column() {
    let data = record_bytes(&[23, 4, 0, 16, 7], &[b'h', b'e', b'l', b'l', b'o', 0, 0, 0, 42, 1, 2, 0, 0, 0, 0, 0, 0, 0, 1]);
    let record = Record::from(&data).unwrap();
    assert_eq!(record.clone(), record);
}

#[test]
fn leaf_cell_with_one_integer() {
    let cell = Cell::from(&[0x05, 0x01, 0x02, 0x04, 0x00, 0x00, 0x00, 0x2a], 4096).unwrap();
    assert_eq!(cell.size_of_record, 5);
    assert_eq!(cell.rowid, 1);
    assert_eq!(cell.record.columns, vec![Column { offset: 2, serial_type: SerialType::I32(42) }]);
}

#[test]
fn leaf_cell_with_a_header_of_three_bytes() {
    let cell = Cell::from(&[0x05, 0x01, 0x03, 0x80, 0x04, 0x00, 0x00, 0x00, 0x2a], 4096).unwrap();
    assert_eq!(cell.size_of_record, 5);
    assert_eq!(cell.rowid, 1);
    assert_eq!(cell.record.columns, vec![Column { offset: 3, serial_type: SerialType::I32(42) }]);
}

#[test]
fn leaf_cell_that_overflows() {
    // 4096 - 35 = 4061 bytes is the most that stays on the page.
    let mut data = write_variant(4061);
    data.push(0x01);
    data.extend_from_slice(&record_bytes(&[12 + 2 * 4058], &vec![0u8; 4058]));
    let cell = Cell::from(&data, 4096).unwrap();
    assert_eq!(cell.size_of_record, 4061);
    let mut data = write_variant(4062);
    data.push(0x01);
    data.extend_from_slice(&record_bytes(&[12 + 2 * 4059], &vec![0u8; 4059]));
    assert_eq!(Cell::from(&data, 4096), Err(MyError::Overflow));
    assert_eq!(Cell::from(&[0x7f, 0x01, 0x01], 100), Err(MyError::Overflow));
    assert_eq!(Cell::from(&[0x01, 0x01, 0x01], 35), Err(MyError::Overflow));
    assert_eq!(Cell::from(&[0x01, 0x01, 0x01], 0), Err(MyError::Overflow));
    // A size with its sign bit set.
    let mut data = vec![0xff; 9];
    data.extend_from_slice(&[0x01, 0x01]);
    assert_eq!(Cell::from(&data, 4096), Err(MyError::Overflow));
}

#[test]
fn leaf_cell_cut_short() {
    assert_eq!(Cell::from(&[], 4096), Err(MyError::Truncated));
    assert_eq!(Cell::from(&[0x82], 4096), Err(MyError::Truncated));
    assert_eq!(Cell::from(&[0x02], 4096), Err(MyError::Truncated));
    assert_eq!(Cell::from(&[0x02, 0x81], 4096), Err(MyError::Truncated));
    assert_eq!(Cell::from(&[0x06, 0x01, 0x02, 0x04, 0x00], 4096), Err(MyError::Truncated));
    assert_eq!(Cell::from(&[0x03, 0x01, 0x02, 0x04, 0x00], 4096), Err(MyError::Truncated));
    assert_eq!(Cell::from(&[0x02, 0x01, 0x02, 0x0a], 4096), Err(MyError::InvalidSerialType));
    assert_eq!(Cell::from(&[0x03, 0x01, 0x02, 0x0f, 0xff], 4096), Err(MyError::Utf8));
}

#[test]
fn interior_cell() {
    assert_eq!(
        TableInteriorCell::from(&[0x00, 0x00, 0x01, 0x02, 0x81, 0x00, 0x77]),
        Ok(TableInteriorCell { left_child_page: 258, key: 128 })
    );
    assert_eq!(
        TableInteriorCell::from(&[0xff, 0xff, 0xff, 0xff, 0x00]),
        Ok(TableInteriorCell { left_child_page: u32::MAX, key: 0 })
    );
    assert_eq!(TableInteriorCell::from(&[0x00, 0x00, 0x01]), Err(MyError::Truncated));
    assert_eq!(TableInteriorCell::from(&[0x00, 0x00, 0x01, 0x02]), Err(MyError::Truncated));
    assert_eq!(TableInteriorCell::from(&[0x00, 0x00, 0x01, 0x02, 0x81]), Err(MyError::Truncated));
}

#[test]
fn value_from_any_position() {
    let data = [0x00, 0x00, 0x01, 0x02];
    assert_eq!(SerialType::decode(&data, 2, 2), Ok((SerialType::I16(258), 2)));
    assert_eq!(SerialType::decode(&data, 2, 3), Err(MyError::Truncated));
    assert_eq!(SerialType::decode(&data, 0, 4), Ok((SerialType::Null, 0)));
    assert_eq!(SerialType::decode(&data, 0, 5), Err(MyError::Truncated));
    assert_eq!(SerialType::decode(&data, 12, 4), Ok((SerialType::Blob(vec![]), 0)));
    assert_eq!(SerialType::decode(&data, 13, 4), Ok((SerialType::String(String::new()), 0)));
    assert_eq!(SerialType::decode(&data, 10, 9), Err(MyError::InvalidSerialType));
    assert_eq!(SerialType::decode(&data, 18, 1), Ok((SerialType::Blob(vec![0, 1, 2]), 3)));
}
