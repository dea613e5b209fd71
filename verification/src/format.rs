//! The PARAM.SFO layout as a mathematical model.
//!
//! Everything here is specification: functions from a sequence of bytes to
//! what a decoder must make of it. All integers are little-endian.
//!
//! ```text
//! 0        magic 00 'P' 'S' 'F'
//! 4        version            u32
//! 8        key table offset   u32
//! 12       data table offset  u32
//! 16       number of entries  u32
//! 20       entry records, 16 bytes each:
//!            +0  key offset   u16, relative to the key table
//!            +2  reserved     u8, always 04
//!            +3  type tag     u8: 0 raw text, 2 zero-terminated text, 4 u32
//!            +4  length       u32
//!            +8  max length   u32
//!            +12 data offset  u32, relative to the data table
//! ```

use vstd::prelude::*;
use vstd::utf8::{decode_utf8, valid_utf8};
use crate::error::ParseError;
use crate::text::decimal;

verus! {

/// Size of the header in bytes.
pub const HEADER_LEN: usize = 20;

/// Size of one entry record in bytes.
pub const ENTRY_LEN: usize = 16;

/// The value that the reserved byte of every entry record holds.
pub const RESERVED: u8 = 0x04;

/// The fixed fields at the start of the buffer.
#[derive(Debug, Clone, Copy, PartialEq, Eq, Structural)]
pub struct ParamSfoHeader {
    /// Format version. Carried along, never checked.
    pub version: u32,
    /// Where the key table starts, from the start of the buffer.
    pub key_table_offset: u32,
    /// Where the data table starts, from the start of the buffer.
    pub data_table_offset: u32,
    /// How many entry records follow the header.
    pub num_entries: u32,
}

/// How the value of an entry is stored.
#[derive(Debug, Clone, Copy, PartialEq, Eq, Structural)]
pub enum ParamSfoDataType {
    /// UTF-8 text of exactly the declared length, with no terminator.
    Utf8NoNull,
    /// UTF-8 text that ends before the first zero byte.
    Utf8,
    /// An unsigned 32-bit integer.
    U32,
}

/// One record of the entry table.
#[derive(Debug, Clone, Copy, PartialEq, Eq, Structural)]
pub struct ParamSfoEntry {
    /// Where the key name starts, from the start of the key table.
    pub key_offset: u16,
    /// How the value is stored.
    pub fmt: ParamSfoDataType,
    /// Declared length of the value.
    pub len: u32,
    /// Size of the region reserved for the value in the data table.
    pub max_len: u32,
    /// Where the value starts, from the start of the data table.
    pub data_offset: u32,
}

/// A decoded value as a mathematical object.
pub enum ParamValue {
    /// Text, as its sequence of characters.
    Text(Seq<char>),
    /// An integer.
    Number(u32),
}

/// The four bytes that open every PARAM.SFO buffer.
pub open spec fn magic() -> Seq<u8> {
    seq![0x00u8, 0x50u8, 0x53u8, 0x46u8]
}

/// The unsigned 16-bit integer stored little-endian at `at`.
pub open spec fn le_u16_at(bytes: Seq<u8>, at: int) -> int
    recommends
        0 <= at,
        at + 2 <= bytes.len(),
{
    bytes[at] + 0x100 * bytes[at + 1]
}

/// The unsigned 32-bit integer stored little-endian at `at`.
pub open spec fn le_u32_at(bytes: Seq<u8>, at: int) -> int
    recommends
        0 <= at,
        at + 4 <= bytes.len(),
{
    bytes[at] + 0x100 * bytes[at + 1] + 0x1_0000 * bytes[at + 2] + 0x100_0000 * bytes[at + 3]
}

/// One of the magic bytes that the buffer holds differs from the signature.
/// A buffer that merely stops early has no mismatch.
pub open spec fn magic_mismatch(buf: Seq<u8>) -> bool {
    exists|i: int| 0 <= i < 4 && i < buf.len() && buf[i] != magic()[i]
}

/// What the header reader makes of a buffer.
pub open spec fn header_of(buf: Seq<u8>) -> Result<ParamSfoHeader, ParseError> {
    if magic_mismatch(buf) {
        Err(ParseError::MalformedHeader)
    } else if buf.len() < HEADER_LEN {
        Err(ParseError::TruncatedInput)
    } else {
        Ok(
            ParamSfoHeader {
                version: le_u32_at(buf, 4) as u32,
                key_table_offset: le_u32_at(buf, 8) as u32,
                data_table_offset: le_u32_at(buf, 12) as u32,
                num_entries: le_u32_at(buf, 16) as u32,
            },
        )
    }
}

/// The storage type that a type tag stands for.
pub open spec fn data_type_of(tag: u8) -> Option<ParamSfoDataType> {
    if tag == 0 {
        Some(ParamSfoDataType::Utf8NoNull)
    } else if tag == 2 {
        Some(ParamSfoDataType::Utf8)
    } else if tag == 4 {
        Some(ParamSfoDataType::U32)
    } else {
        None
    }
}

/// What the entry reader makes of the bytes that start at a record.
///
/// A wrong reserved byte or an unknown tag is reported as soon as the byte is
/// there, even if the record is cut off behind it.
pub open spec fn entry_of(record: Seq<u8>) -> Result<ParamSfoEntry, ParseError> {
    if record.len() >= 3 && record[2] != RESERVED {
        Err(ParseError::MalformedEntry)
    } else if record.len() >= 4 && data_type_of(record[3]) is None {
        Err(ParseError::UnknownFieldType)
    } else if record.len() < ENTRY_LEN {
        Err(ParseError::TruncatedInput)
    } else {
        Ok(
            ParamSfoEntry {
                key_offset: le_u16_at(record, 0) as u16,
                fmt: data_type_of(record[3])->0,
                len: le_u32_at(record, 4) as u32,
                max_len: le_u32_at(record, 8) as u32,
                data_offset: le_u32_at(record, 12) as u32,
            },
        )
    }
}

/// `at` is the position of the first byte of `bytes` that equals `byte`.
pub open spec fn first_at(bytes: Seq<u8>, byte: u8, at: int) -> bool {
    &&& 0 <= at < bytes.len()
    &&& bytes[at] == byte
    &&& forall|j: int| 0 <= j < at ==> bytes[j] != byte
}

/// The bytes before the first zero byte, if there is a zero byte.
pub open spec fn before_nul(bytes: Seq<u8>) -> Option<Seq<u8>> {
    if exists|at: int| first_at(bytes, 0, at) {
        Some(bytes.take(choose|at: int| first_at(bytes, 0, at)))
    } else {
        None
    }
}

/// The text that a span of bytes encodes.
pub open spec fn text_of(bytes: Seq<u8>) -> Result<Seq<char>, ParseError> {
    if valid_utf8(bytes) {
        Ok(decode_utf8(bytes))
    } else {
        Err(ParseError::InvalidEncoding)
    }
}

/// Absolute position of an entry's key name.
pub open spec fn key_start(header: ParamSfoHeader, entry: ParamSfoEntry) -> int {
    header.key_table_offset + entry.key_offset
}

/// Absolute position of an entry's value.
pub open spec fn data_start(header: ParamSfoHeader, entry: ParamSfoEntry) -> int {
    header.data_table_offset + entry.data_offset
}

/// The first byte of the key and the whole reserved data region lie inside
/// the buffer.
pub open spec fn in_bounds(buf: Seq<u8>, header: ParamSfoHeader, entry: ParamSfoEntry) -> bool {
    &&& buf.len() >= key_start(header, entry) + 1
    &&& buf.len() >= data_start(header, entry) + entry.max_len
}

/// The key name found at `start`: the text before the first zero byte.
pub open spec fn key_at(buf: Seq<u8>, start: int) -> Result<Seq<char>, ParseError> {
    match before_nul(buf.skip(start)) {
        None => Err(ParseError::MalformedKey),
        Some(bytes) => text_of(bytes),
    }
}

/// The value found at `start`, read as the entry says.
///
/// Only the storage type and, for raw text, the declared length matter. A
/// zero-terminated text is searched for up to the end of the buffer.
pub open spec fn value_at(buf: Seq<u8>, start: int, entry: ParamSfoEntry) -> Result<
    ParamValue,
    ParseError,
> {
    let data = buf.skip(start);
    match entry.fmt {
        ParamSfoDataType::Utf8NoNull => {
            if data.len() < entry.len {
                Err(ParseError::TruncatedInput)
            } else {
                match text_of(data.take(entry.len as int)) {
                    Ok(text) => Ok(ParamValue::Text(text)),
                    Err(e) => Err(e),
                }
            }
        },
        ParamSfoDataType::Utf8 => {
            match before_nul(data) {
                None => Err(ParseError::MalformedValue),
                Some(bytes) => match text_of(bytes) {
                    Ok(text) => Ok(ParamValue::Text(text)),
                    Err(e) => Err(e),
                },
            }
        },
        ParamSfoDataType::U32 => {
            if data.len() < 4 {
                Err(ParseError::TruncatedInput)
            } else {
                Ok(ParamValue::Number(le_u32_at(data, 0) as u32))
            }
        },
    }
}

/// The key and value that an entry resolves to.
pub open spec fn pair_of(buf: Seq<u8>, header: ParamSfoHeader, entry: ParamSfoEntry) -> Result<
    (Seq<char>, ParamValue),
    ParseError,
> {
    if !in_bounds(buf, header, entry) {
        Err(ParseError::OutOfBounds)
    } else {
        match key_at(buf, key_start(header, entry)) {
            Err(e) => Err(e),
            Ok(key) => match value_at(buf, data_start(header, entry), entry) {
                Err(e) => Err(e),
                Ok(value) => Ok((key, value)),
            },
        }
    }
}

/// The bytes from the start of record `index` of an entry table on.
pub open spec fn record_at(table: Seq<u8>, index: nat) -> Seq<u8> {
    if ENTRY_LEN * index <= table.len() {
        table.skip(ENTRY_LEN * index)
    } else {
        Seq::empty()
    }
}

/// The key and value of record `index`.
pub open spec fn nth_pair(table: Seq<u8>, buf: Seq<u8>, header: ParamSfoHeader, index: nat) -> Result<
    (Seq<char>, ParamValue),
    ParseError,
> {
    match entry_of(record_at(table, index)) {
        Err(e) => Err(e),
        Ok(entry) => pair_of(buf, header, entry),
    }
}

/// The map that the first `count` records of `table` give, resolved against
/// `buf`. Records are taken in order; the first one that fails decides the
/// error, and a key that comes again replaces the earlier value.
pub open spec fn table_of(table: Seq<u8>, buf: Seq<u8>, header: ParamSfoHeader, count: nat) -> Result<
    Map<Seq<char>, ParamValue>,
    ParseError,
>
    decreases count,
{
    if count == 0 {
        Ok(Map::empty())
    } else {
        match table_of(table, buf, header, (count - 1) as nat) {
            Err(e) => Err(e),
            Ok(map) => match nth_pair(table, buf, header, (count - 1) as nat) {
                Err(e) => Err(e),
                Ok((key, value)) => Ok(map.insert(key, value)),
            },
        }
    }
}

/// A value as it is shown: text as it is, a number in decimal.
pub open spec fn shown(value: ParamValue) -> Seq<char> {
    match value {
        ParamValue::Text(text) => text,
        ParamValue::Number(number) => decimal(number as nat),
    }
}

/// What decoding a whole buffer gives.
pub open spec fn decode(buf: Seq<u8>) -> Result<Map<Seq<char>, ParamValue>, ParseError> {
    match header_of(buf) {
        Err(e) => Err(e),
        Ok(header) => table_of(buf.skip(HEADER_LEN as int), buf, header, header.num_entries as nat),
    }
}

} // verus!
