use param_sfo::error::ParseError;
use param_sfo::format::{ParamSfoDataType, ParamSfoEntry, ParamSfoHeader};
use param_sfo::parser::{
    parse_data, parse_entry, parse_header, parse_param_sfo, resolve_entry, ParamData,
};

/// One entry record, field by field.
#[derive(Clone, Copy)]
struct Record {
    key_offset: u16,
    reserved: u8,
    tag: u8,
    len: u32,
    max_len: u32,
    data_offset: u32,
}

fn record(key_offset: u16, tag: u8, len: u32, max_len: u32, data_offset: u32) -> Record {
    Record { key_offset, reserved: 4, tag, len, max_len, data_offset }
}

fn record_bytes(r: &Record) -> Vec<u8> {
    let mut out = Vec::new();
    out.extend_from_slice(&r.key_offset.to_le_bytes());
    out.push(r.reserved);
    out.push(r.tag);
    out.extend_from_slice(&r.len.to_le_bytes());
    out.extend_from_slice(&r.max_len.to_le_bytes());
    out.extend_from_slice(&r.data_offset.to_le_bytes());
    out
}

/// A buffer with a header, the given records, a key table and a data table,
/// laid out one behind the other.
fn buffer(records: &[Record], keys: &[u8], data: &[u8]) -> Vec<u8> {
    let key_table = 20 + 16 * records.len() as u32;
    let data_table = key_table + keys.len() as u32;
    let mut out = vec![0x00, b'P', b'S', b'F'];
    out.extend_from_slice(&0x0101u32.to_le_bytes());
    out.extend_from_slice(&key_table.to_le_bytes());
    out.extend_from_slice(&data_table.to_le_bytes());
    out.extend_from_slice(&(records.len() as u32).to_le_bytes());
    for r in records {
        out.extend_from_slice(&record_bytes(r));
    }
    out.extend_from_slice(keys);
    out.extend_from_slice(data);
    out
}

fn text(s: &str) -> ParamData {
    ParamData::String(s.to_string())
}

fn three_entries() -> Vec<u8> {
    buffer(
        &[record(0, 2, 10, 12, 0), record(6, 4, 4, 4, 12), record(21, 0, 4, 4, 16)],
        b"TITLE\0PARENTAL_LEVEL\0CATEGORY\0",
        b"Some Game\0\0\0\x07\0\0\0HG\0\0",
    )
}

#[test]
fn one_integer_entry_decodes_to_forty_two() {
    let buf = buffer(&[record(0, 4, 4, 4, 0)], b"PARENTAL_LEVEL\0", &[0x2A, 0x00, 0x00, 0x00]);
    let map = parse_param_sfo(&buf).unwrap();
    assert_eq!(map.len(), 1);
    assert_eq!(map.get("PARENTAL_LEVEL"), Some(&ParamData::U32(42)));
}

#[test]
fn zero_terminated_text_stops_at_the_first_zero() {
    let buf = buffer(&[record(0, 2, 4, 6, 0)], b"TITLE\0", b"ABC\0\0\0");
    let map = parse_param_sfo(&buf).unwrap();
    assert_eq!(map.len(), 1);
    assert_eq!(map.get("TITLE"), Some(&text("ABC")));
}

#[test]
fn header_fields_are_read_in_order() {
    let mut buf = vec![0x00, b'P', b'S', b'F'];
    buf.extend_from_slice(&[0x01, 0x02, 0x03, 0x04]);
    buf.extend_from_slice(&[0x78, 0x56, 0x34, 0x12]);
    buf.extend_from_slice(&[0xFF, 0xFF, 0xFF, 0xFF]);
    buf.extend_from_slice(&[0x00, 0x01, 0x00, 0x00]);
    buf.extend_from_slice(&[0xAA, 0xBB, 0xCC]);
    let (rest, header) = parse_header(&buf).unwrap();
    assert_eq!(
        header,
        ParamSfoHeader {
            version: 0x0403_0201,
            key_table_offset: 0x1234_5678,
            data_table_offset: 0xFFFF_FFFF,
            num_entries: 256,
        }
    );
    assert_eq!(rest, &[0xAA, 0xBB, 0xCC]);
}

#[test]
fn header_of_exactly_twenty_bytes_leaves_nothing() {
    let buf = buffer(&[], b"", b"");
    assert_eq!(buf.len(), 20);
    let (rest, header) = parse_header(&buf).unwrap();
    assert!(rest.is_empty());
    assert_eq!(header.num_entries, 0);
    assert_eq!(header.key_table_offset, 20);
    assert_eq!(header.data_table_offset, 20);
}

#[test]
fn cut_valid_buffer_is_truncated() {
    let buf = three_entries();
    assert!(parse_param_sfo(&buf).is_ok());
    for keep in 0..20 {
        assert_eq!(parse_param_sfo(&buf[..keep]).err(), Some(ParseError::TruncatedInput));
        assert_eq!(parse_header(&buf[..keep]).err(), Some(ParseError::TruncatedInput));
    }
}

#[test]
fn empty_buffer_is_truncated() {
    assert_eq!(parse_param_sfo(&[]).err(), Some(ParseError::TruncatedInput));
}

#[test]
fn wrong_magic_byte_is_a_malformed_header() {
    let good = three_entries();
    for at in 0..4 {
        let mut buf = good.clone();
        buf[at] ^= 0x20;
        assert_eq!(parse_param_sfo(&buf).err(), Some(ParseError::MalformedHeader));
        for keep in (at + 1)..buf.len() {
            assert_eq!(parse_param_sfo(&buf[..keep]).err(), Some(ParseError::MalformedHeader));
        }
    }
}

#[test]
fn wrong_magic_wins_over_garbage_behind_it() {
    let mut buf = vec![b'S', b'F', b'O', 0x00];
    buf.extend_from_slice(&[0xFF; 40]);
    assert_eq!(parse_param_sfo(&buf).err(), Some(ParseError::MalformedHeader));
    assert_eq!(parse_param_sfo(b"\x00PSG").err(), Some(ParseError::MalformedHeader));
    assert_eq!(parse_param_sfo(b"\x00X").err(), Some(ParseError::MalformedHeader));
    assert_eq!(parse_param_sfo(b"\x00P").err(), Some(ParseError::TruncatedInput));
}

#[test]
fn entry_fields_are_read_in_order() {
    let mut bytes = vec![0x34, 0x12, 0x04, 0x02];
    bytes.extend_from_slice(&[0x0A, 0x00, 0x00, 0x00]);
    bytes.extend_from_slice(&[0x00, 0x00, 0x01, 0x00]);
    bytes.extend_from_slice(&[0xEF, 0xBE, 0xAD, 0xDE]);
    bytes.extend_from_slice(&[0x99]);
    let (rest, entry) = parse_entry(&bytes).unwrap();
    assert_eq!(
        entry,
        ParamSfoEntry {
            key_offset: 0x1234,
            fmt: ParamSfoDataType::Utf8,
            len: 10,
            max_len: 0x0001_0000,
            data_offset: 0xDEAD_BEEF,
        }
    );
    assert_eq!(rest, &[0x99]);
}

#[test]
fn type_tags_map_to_storage_types() {
    for (tag, fmt) in [
        (0u8, ParamSfoDataType::Utf8NoNull),
        (2u8, ParamSfoDataType::Utf8),
        (4u8, ParamSfoDataType::U32),
    ] {
        let bytes = record_bytes(&record(0, tag, 0, 0, 0));
        assert_eq!(parse_entry(&bytes).unwrap().1.fmt, fmt);
    }
}

#[test]
fn other_type_tags_are_unknown() {
    for tag in 0..=255u8 {
        if tag == 0 || tag == 2 || tag == 4 {
            continue;
        }
        let bytes = record_bytes(&record(0, tag, 0, 0, 0));
        assert_eq!(parse_entry(&bytes).err(), Some(ParseError::UnknownFieldType));
        assert_eq!(parse_entry(&bytes[..4]).err(), Some(ParseError::UnknownFieldType));
    }
}

#[test]
fn wrong_reserved_byte_is_a_malformed_entry() {
    for reserved in [0u8, 3, 5, 0xFF] {
        let mut r = record(0, 4, 4, 4, 0);
        r.reserved = reserved;
        let bytes = record_bytes(&r);
        assert_eq!(parse_entry(&bytes).err(), Some(ParseError::MalformedEntry));
        assert_eq!(parse_entry(&bytes[..3]).err(), Some(ParseError::MalformedEntry));
    }
    let mut r = record(0, 9, 4, 4, 0);
    r.reserved = 0;
    assert_eq!(parse_entry(&record_bytes(&r)).err(), Some(ParseError::MalformedEntry));
}

#[test]
fn cut_record_is_truncated() {
    let bytes = record_bytes(&record(7, 2, 1, 2, 3));
    for keep in 0..16 {
        assert_eq!(parse_entry(&bytes[..keep]).err(), Some(ParseError::TruncatedInput));
    }
    assert!(parse_entry(&bytes).is_ok());
}

#[test]
fn more_entries_announced_than_present_is_truncated() {
    let mut buf = buffer(&[record(0, 4, 4, 4, 0)], b"K\0", &[4, 0, 0, 0]);
    buf[16] = 2;
    // The second record is read from the key and data tables: "K\0" and the
    // value give six bytes that start like a record and end too early.
    assert_eq!(parse_param_sfo(&buf).err(), Some(ParseError::TruncatedInput));
    let mut buf = buffer(&[record(0, 4, 4, 4, 0)], b"K\0", &[4, 0, 0, 0]);
    buf[16..20].copy_from_slice(&u32::MAX.to_le_bytes());
    assert_eq!(parse_param_sfo(&buf).err(), Some(ParseError::TruncatedInput));
}

#[test]
fn no_entries_give_an_empty_map() {
    let map = parse_param_sfo(&buffer(&[], b"", b"")).unwrap();
    assert_eq!(map.len(), 0);
    assert!(map.is_empty());
}

#[test]
fn valid_buffer_gives_one_key_for_each_entry() {
    let map = parse_param_sfo(&three_entries()).unwrap();
    assert_eq!(map.len(), 3);
    assert_eq!(map.get("TITLE"), Some(&text("Some Game")));
    assert_eq!(map.get("PARENTAL_LEVEL"), Some(&ParamData::U32(7)));
    assert_eq!(map.get("CATEGORY"), Some(&text("HG\0\0")));
    assert_eq!(map.get("MISSING"), None);
    assert!(map.contains_key("TITLE"));
}

#[test]
fn later_entry_with_the_same_key_replaces_the_earlier() {
    let buf = buffer(
        &[record(0, 4, 4, 4, 0), record(2, 4, 4, 4, 4), record(0, 4, 4, 4, 8)],
        b"A\0B\0",
        &[1, 0, 0, 0, 2, 0, 0, 0, 3, 0, 0, 0],
    );
    let map = parse_param_sfo(&buf).unwrap();
    assert_eq!(map.len(), 2);
    assert_eq!(map.get("A"), Some(&ParamData::U32(3)));
    assert_eq!(map.get("B"), Some(&ParamData::U32(2)));
}

#[test]
fn integer_is_little_endian() {
    let buf = buffer(&[record(0, 4, 4, 4, 0)], b"N\0", &[0x78, 0x56, 0x34, 0x12]);
    assert_eq!(parse_param_sfo(&buf).unwrap().get("N"), Some(&ParamData::U32(0x1234_5678)));
    let buf = buffer(&[record(0, 4, 4, 4, 0)], b"N\0", &[0xFF, 0xFF, 0xFF, 0xFF]);
    assert_eq!(parse_param_sfo(&buf).unwrap().get("N"), Some(&ParamData::U32(u32::MAX)));
}

#[test]
fn integer_does_not_depend_on_declared_lengths() {
    let data = [0x2A, 0, 0, 0, 9, 9, 9, 9];
    for (len, max_len) in [(4, 4), (0, 0), (8, 8), (1, 7), (1000, 5), (u32::MAX, 4)] {
        let buf = buffer(&[record(0, 4, len, max_len, 0)], b"N\0", &data);
        assert_eq!(parse_param_sfo(&buf).unwrap().get("N"), Some(&ParamData::U32(42)));
    }
}

#[test]
fn integer_without_four_bytes_is_truncated() {
    let buf = buffer(&[record(0, 4, 4, 3, 0)], b"N\0", &[1, 2, 3]);
    assert_eq!(parse_param_sfo(&buf).err(), Some(ParseError::TruncatedInput));
    let buf = buffer(&[record(0, 4, 4, 0, 0)], b"N\0", &[]);
    assert_eq!(parse_param_sfo(&buf).err(), Some(ParseError::TruncatedInput));
}

#[test]
fn raw_text_keeps_its_padding() {
    let buf = buffer(&[record(0, 0, 6, 8, 0)], b"RAW\0", b"AB\0\0CD\0\0");
    assert_eq!(parse_param_sfo(&buf).unwrap().get("RAW"), Some(&text("AB\0\0CD")));
    let buf = buffer(&[record(0, 0, 0, 8, 0)], b"RAW\0", b"AB\0\0CD\0\0");
    assert_eq!(parse_param_sfo(&buf).unwrap().get("RAW"), Some(&text("")));
}

#[test]
fn raw_text_longer_than_the_buffer_is_truncated() {
    let buf = buffer(&[record(0, 0, 5, 4, 0)], b"RAW\0", b"ABCD");
    assert_eq!(parse_param_sfo(&buf).err(), Some(ParseError::TruncatedInput));
}

#[test]
fn terminated_text_is_scanned_to_the_end_of_the_buffer() {
    // The reserved region is two bytes; the terminator lies behind it.
    let buf = buffer(&[record(0, 2, 4, 2, 0)], b"T\0", b"ABCDEF\0");
    assert_eq!(parse_param_sfo(&buf).unwrap().get("T"), Some(&text("ABCDEF")));
}

#[test]
fn terminated_text_has_no_zero_and_stays_inside_a_terminated_region() {
    for value in ["", "A", "ABC", "ABCDE"] {
        let mut data = value.as_bytes().to_vec();
        data.resize(6, 0);
        let buf = buffer(&[record(0, 2, value.len() as u32 + 1, 6, 0)], b"T\0", &data);
        let map = parse_param_sfo(&buf).unwrap();
        match map.get("T") {
            Some(ParamData::String(s)) => {
                assert_eq!(s, value);
                assert!(!s.contains('\0'));
                assert!(s.len() < 6);
            }
            other => panic!("unexpected value {:?}", other),
        }
    }
}

#[test]
fn terminated_text_without_terminator_is_malformed() {
    let buf = buffer(&[record(0, 2, 3, 3, 0)], b"T\0", b"ABC");
    assert_eq!(parse_param_sfo(&buf).err(), Some(ParseError::MalformedValue));
    let buf = buffer(&[record(0, 2, 0, 0, 0)], b"T\0", b"");
    assert_eq!(parse_param_sfo(&buf).err(), Some(ParseError::MalformedValue));
}

#[test]
fn key_without_terminator_is_malformed() {
    // The key is the last thing in the buffer and has no zero byte.
    let mut buf = buffer(&[record(0, 4, 4, 4, 0)], b"", b"\x01\x02\x03\x04KEY");
    let data_table = 36u32;
    buf[8..12].copy_from_slice(&(data_table + 4).to_le_bytes());
    buf[12..16].copy_from_slice(&data_table.to_le_bytes());
    assert_eq!(parse_param_sfo(&buf).err(), Some(ParseError::MalformedKey));
}

#[test]
fn key_is_the_text_in_front_of_the_first_zero() {
    let buf = buffer(&[record(2, 4, 4, 4, 0)], b"X\0KEY\0REST\0", &[5, 0, 0, 0]);
    let map = parse_param_sfo(&buf).unwrap();
    assert_eq!(map.get("KEY"), Some(&ParamData::U32(5)));
    assert_eq!(map.len(), 1);
    let buf = buffer(&[record(1, 4, 4, 4, 0)], b"X\0KEY\0", &[5, 0, 0, 0]);
    assert_eq!(parse_param_sfo(&buf).unwrap().get(""), Some(&ParamData::U32(5)));
}

#[test]
fn text_that_is_not_utf8_is_an_invalid_encoding() {
    let buf = buffer(&[record(0, 4, 4, 4, 0)], b"K\xFF\0", &[1, 0, 0, 0]);
    assert_eq!(parse_param_sfo(&buf).err(), Some(ParseError::InvalidEncoding));
    let buf = buffer(&[record(0, 2, 3, 3, 0)], b"K\0", b"\xC3\x28\0");
    assert_eq!(parse_param_sfo(&buf).err(), Some(ParseError::InvalidEncoding));
    let buf = buffer(&[record(0, 0, 2, 2, 0)], b"K\0", b"\xED\xA0");
    assert_eq!(parse_param_sfo(&buf).err(), Some(ParseError::InvalidEncoding));
    // The first two bytes of a three-byte character.
    let buf = buffer(&[record(0, 0, 2, 3, 0)], b"K\0", "\u{65E5}".as_bytes());
    assert_eq!(parse_param_sfo(&buf).err(), Some(ParseError::InvalidEncoding));
}

#[test]
fn text_beyond_ascii_is_decoded() {
    let value = "\u{65E5}\u{672C}\u{8A9E} \u{1F3AE} \u{E9}";
    let mut data = value.as_bytes().to_vec();
    data.push(0);
    let n = data.len() as u32;
    let buf = buffer(&[record(0, 2, n, n, 0), record(0, 0, n - 1, n, 0)], b"T\0", &data);
    let map = parse_param_sfo(&buf).unwrap();
    assert_eq!(map.get("T"), Some(&text(value)));
    let mut keys = "\u{30AD}\u{30FC}".as_bytes().to_vec();
    keys.push(0);
    let buf = buffer(&[record(0, 4, 4, 4, 0)], &keys, &[1, 0, 0, 0]);
    assert_eq!(parse_param_sfo(&buf).unwrap().get("\u{30AD}\u{30FC}"), Some(&ParamData::U32(1)));
}

#[test]
fn reserved_region_past_the_end_is_out_of_bounds() {
    // The value "AB\0" fits, the reserved region of eight bytes does not.
    let buf = buffer(&[record(0, 2, 3, 8, 0)], b"T\0", b"AB\0");
    assert_eq!(parse_param_sfo(&buf).err(), Some(ParseError::OutOfBounds));
    let buf = buffer(&[record(0, 4, 4, 5, 0)], b"N\0", &[1, 0, 0, 0]);
    assert_eq!(parse_param_sfo(&buf).err(), Some(ParseError::OutOfBounds));
    let buf = buffer(&[record(0, 4, 4, 4, 1)], b"N\0", &[1, 0, 0, 0]);
    assert_eq!(parse_param_sfo(&buf).err(), Some(ParseError::OutOfBounds));
    let buf = buffer(&[record(0, 4, 4, u32::MAX, u32::MAX)], b"N\0", &[1, 0, 0, 0]);
    assert_eq!(parse_param_sfo(&buf).err(), Some(ParseError::OutOfBounds));
}

#[test]
fn region_that_ends_with_the_buffer_is_in_bounds() {
    let buf = buffer(&[record(0, 4, 4, 4, 0)], b"N\0", &[1, 0, 0, 0]);
    assert!(parse_param_sfo(&buf).is_ok());
    let buf = buffer(&[record(0, 0, 0, 0, 4)], b"N\0", &[1, 0, 0, 0]);
    assert_eq!(parse_param_sfo(&buf).unwrap().get("N"), Some(&text("")));
}

#[test]
fn key_past_the_end_is_out_of_bounds() {
    let buf = buffer(&[record(6, 4, 0, 0, 0)], b"N\0", &[1, 0, 0, 0]);
    assert_eq!(parse_param_sfo(&buf).err(), Some(ParseError::OutOfBounds));
    let buf = buffer(&[record(u16::MAX, 4, 0, 0, 0)], b"N\0", &[1, 0, 0, 0]);
    assert_eq!(parse_param_sfo(&buf).err(), Some(ParseError::OutOfBounds));
    let mut buf = buffer(&[record(0, 4, 0, 0, 0)], b"N\0", &[1, 0, 0, 0]);
    buf[8..12].copy_from_slice(&u32::MAX.to_le_bytes());
    assert_eq!(parse_param_sfo(&buf).err(), Some(ParseError::OutOfBounds));
}

#[test]
fn first_failing_entry_decides_the_error() {
    let mut bad_tag = record(0, 7, 4, 4, 0);
    let out_of_bounds = record(0, 4, 4, 400, 0);
    let buf = buffer(&[out_of_bounds, bad_tag], b"N\0", &[1, 0, 0, 0]);
    assert_eq!(parse_param_sfo(&buf).err(), Some(ParseError::OutOfBounds));
    let buf = buffer(&[bad_tag, out_of_bounds], b"N\0", &[1, 0, 0, 0]);
    assert_eq!(parse_param_sfo(&buf).err(), Some(ParseError::UnknownFieldType));
    bad_tag.reserved = 1;
    let buf = buffer(&[record(0, 4, 4, 4, 0), bad_tag], b"N\0", &[1, 0, 0, 0]);
    assert_eq!(parse_param_sfo(&buf).err(), Some(ParseError::MalformedEntry));
}

#[test]
fn entries_are_resolved_against_the_whole_buffer() {
    let total = buffer(&[], b"KEY\0", b"VALUE\0");
    let header = ParamSfoHeader {
        version: 0,
        key_table_offset: 20,
        data_table_offset: 24,
        num_entries: 1,
    };
    let entry = ParamSfoEntry {
        key_offset: 0,
        fmt: ParamSfoDataType::Utf8,
        len: 6,
        max_len: 6,
        data_offset: 0,
    };
    assert_eq!(resolve_entry(&total, &header, &entry), Ok(("KEY".to_string(), text("VALUE"))));
    let raw = ParamSfoEntry { fmt: ParamSfoDataType::Utf8NoNull, len: 3, data_offset: 1, max_len: 5, ..entry };
    assert_eq!(resolve_entry(&total, &header, &raw), Ok(("KEY".to_string(), text("ALU"))));
    let number = ParamSfoEntry { fmt: ParamSfoDataType::U32, key_offset: 1, ..entry };
    assert_eq!(
        resolve_entry(&total, &header, &number),
        Ok(("EY".to_string(), ParamData::U32(0x554C_4156)))
    );
    let table = record_bytes(&record(0, 2, 6, 6, 0));
    let map = parse_data(&table, &total, &header).unwrap();
    assert_eq!(map.get("KEY"), Some(&text("VALUE")));
    assert_eq!(parse_data(&table[..15], &total, &header).err(), Some(ParseError::TruncatedInput));
}

#[test]
fn values_are_shown_as_text() {
    assert_eq!(ParamData::U32(0).to_string(), "0");
    assert_eq!(ParamData::U32(7).to_string(), "7");
    assert_eq!(ParamData::U32(10).to_string(), "10");
    assert_eq!(ParamData::U32(42).to_string(), "42");
    assert_eq!(ParamData::U32(1_000_000).to_string(), "1000000");
    assert_eq!(ParamData::U32(u32::MAX).to_string(), "4294967295");
    assert_eq!(text("NPWR00001_00").to_string(), "NPWR00001_00");
    assert_eq!(text("").to_string(), "");
}

/// Writes entries in the canonical layout: records in the given order, keys
/// and values packed in that order, text zero-terminated with its reserved
/// region rounded up to four bytes.
fn encode(entries: &[(&str, &ParamData)]) -> Vec<u8> {
    let mut records = Vec::new();
    let mut keys = Vec::new();
    let mut data = Vec::new();
    for (key, value) in entries {
        let key_offset = keys.len() as u16;
        keys.extend_from_slice(key.as_bytes());
        keys.push(0);
        let data_offset = data.len() as u32;
        match value {
            ParamData::U32(n) => {
                data.extend_from_slice(&n.to_le_bytes());
                records.push(record(key_offset, 4, 4, 4, data_offset));
            }
            ParamData::String(s) => {
                let len = s.len() as u32 + 1;
                let max_len = (len + 3) / 4 * 4;
                data.extend_from_slice(s.as_bytes());
                data.resize((data_offset + max_len) as usize, 0);
                records.push(record(key_offset, 2, len, max_len, data_offset));
            }
        }
    }
    buffer(&records, &keys, &data)
}

#[test]
fn canonical_buffer_survives_decoding_and_encoding() {
    let title = text("Some Game");
    let level = ParamData::U32(7);
    let id = text("BLES00001");
    let keys = ["TITLE", "PARENTAL_LEVEL", "TITLE_ID"];
    let canonical = encode(&[(keys[0], &title), (keys[1], &level), (keys[2], &id)]);
    let map = parse_param_sfo(&canonical).unwrap();
    assert_eq!(map.len(), keys.len());
    let decoded: Vec<(&str, &ParamData)> =
        keys.iter().map(|key| (*key, map.get(key).unwrap())).collect();
    let again = encode(&decoded);
    let sections = 20 + 16 * keys.len();
    assert_eq!(&again[..sections], &canonical[..sections]);
    assert_eq!(again, canonical);
}
