//! The decoder: executable code, proved against the model in
//! [`crate::format`].

use vstd::prelude::*;
use vstd::hash_map::StringHashMap;
use vstd::slice::slice_subrange;
use vstd::utf8::encode_utf8_decode_utf8;
use crate::error::ParseError;
use crate::format::{
    before_nul, decode, entry_of, header_of, key_at, magic_mismatch, pair_of, record_at, shown,
    table_of, text_of, value_at, ParamSfoDataType, ParamSfoEntry, ParamSfoHeader, ParamValue,
    ENTRY_LEN, HEADER_LEN, RESERVED,
};
use crate::primitives::{le_u16, le_u32, le_u8, tag, take, take_until};
use crate::text::{decimal, digit};
use crate::theorems::lemma_first_error;

verus! {

/// A decoded value: an owned copy, independent of the buffer it came from.
#[derive(Debug, PartialEq, Eq)]
pub enum ParamData {
    /// Text, from either of the two text storage types.
    String(String),
    /// An unsigned 32-bit integer.
    U32(u32),
}

impl View for ParamData {
    type V = ParamValue;

    open spec fn view(&self) -> ParamValue {
        match self {
            ParamData::String(text) => ParamValue::Text(text@),
            ParamData::U32(number) => ParamValue::Number(*number),
        }
    }
}

/// The string for one decimal digit.
fn digit_text(d: u32) -> (text: &'static str)
    requires
        d < 10,
    ensures
        text@ == seq![digit(d as nat)],
{
    proof {
        reveal_strlit("0");
        reveal_strlit("1");
        reveal_strlit("2");
        reveal_strlit("3");
        reveal_strlit("4");
        reveal_strlit("5");
        reveal_strlit("6");
        reveal_strlit("7");
        reveal_strlit("8");
        reveal_strlit("9");
    }
    let text = if d == 0 {
        "0"
    } else if d == 1 {
        "1"
    } else if d == 2 {
        "2"
    } else if d == 3 {
        "3"
    } else if d == 4 {
        "4"
    } else if d == 5 {
        "5"
    } else if d == 6 {
        "6"
    } else if d == 7 {
        "7"
    } else if d == 8 {
        "8"
    } else {
        "9"
    };
    text
}

/// Writes a number in decimal.
fn decimal_text(number: u32) -> (text: String)
    ensures
        text@ == decimal(number as nat),
    decreases number,
{
    if number < 10 {
        digit_text(number).to_owned()
    } else {
        let mut text = decimal_text(number / 10);
        text.append(digit_text(number % 10));
        text
    }
}

impl ParamData {
    /// The value as it is shown: text as it is, a number in decimal.
    pub fn to_string(&self) -> (text: String)
        ensures
            text@ == shown(self@),
    {
        match self {
            ParamData::String(text) => text.clone(),
            ParamData::U32(number) => decimal_text(*number),
        }
    }
}

/// The mathematical map that a decoded map stands for: the same keys, each
/// value taken by its view.
pub open spec fn values_of(map: Map<Seq<char>, ParamData>) -> Map<Seq<char>, ParamValue> {
    map.map_values(|value: ParamData| value@)
}

/// Tells whether one of the magic bytes that `input` holds is wrong.
fn has_magic_mismatch(input: &[u8]) -> (wrong: bool)
    ensures
        wrong == magic_mismatch(input@),
{
    let n = input.len();
    let wrong = (n > 0 && input[0] != 0x00) || (n > 1 && input[1] != 0x50) || (n > 2 && input[2]
        != 0x53) || (n > 3 && input[3] != 0x46);
    wrong
}

/// Reads the header at the start of `input` and hands back the input behind
/// it.
///
/// A magic byte that is present and wrong gives `MalformedHeader`; otherwise
/// an input of fewer than 20 bytes gives `TruncatedInput`.
pub fn parse_header(input: &[u8]) -> (r: Result<(&[u8], ParamSfoHeader), ParseError>)
    ensures
        match r {
            Ok((rest, header)) => header_of(input@) == Ok::<ParamSfoHeader, ParseError>(header)
                && rest@ == input@.skip(HEADER_LEN as int),
            Err(e) => header_of(input@) == Err::<ParamSfoHeader, ParseError>(e),
        },
{
    let signature: [u8; 4] = [0x00, 0x50, 0x53, 0x46];
    let fields = match tag(signature.as_slice(), input) {
        Ok((rest, _)) => rest,
        Err(_) => {
            if has_magic_mismatch(input) {
                return Err(ParseError::MalformedHeader);
            } else {
                return Err(ParseError::TruncatedInput);
            }
        },
    };
    let (fields, version) = match le_u32(fields) {
        Ok(read) => read,
        Err(_) => return Err(ParseError::TruncatedInput),
    };
    let (fields, key_table_offset) = match le_u32(fields) {
        Ok(read) => read,
        Err(_) => return Err(ParseError::TruncatedInput),
    };
    let (fields, data_table_offset) = match le_u32(fields) {
        Ok(read) => read,
        Err(_) => return Err(ParseError::TruncatedInput),
    };
    let (rest, num_entries) = match le_u32(fields) {
        Ok(read) => read,
        Err(_) => return Err(ParseError::TruncatedInput),
    };
    Ok((rest, ParamSfoHeader { version, key_table_offset, data_table_offset, num_entries }))
}

/// Reads the entry record at the start of `input` and hands back the input
/// behind it.
///
/// The fields are read in order, so the first thing wrong with the record
/// decides the error: a reserved byte other than `04` gives `MalformedEntry`,
/// a type tag other than 0, 2 and 4 gives `UnknownFieldType`, and an input
/// that ends inside the record gives `TruncatedInput`.
pub fn parse_entry(input: &[u8]) -> (r: Result<(&[u8], ParamSfoEntry), ParseError>)
    ensures
        match r {
            Ok((rest, entry)) => entry_of(input@) == Ok::<ParamSfoEntry, ParseError>(entry)
                && rest@ == input@.skip(ENTRY_LEN as int),
            Err(e) => entry_of(input@) == Err::<ParamSfoEntry, ParseError>(e),
        },
{
    let (after_key, key_offset) = match le_u16(input) {
        Ok(read) => read,
        Err(_) => return Err(ParseError::TruncatedInput),
    };
    let reserved: [u8; 1] = [RESERVED];
    let fields = match tag(reserved.as_slice(), after_key) {
        Ok((rest, _)) => rest,
        Err(_) => {
            if after_key.len() == 0 {
                return Err(ParseError::TruncatedInput);
            } else {
                return Err(ParseError::MalformedEntry);
            }
        },
    };
    let (fields, type_tag) = match le_u8(fields) {
        Ok(read) => read,
        Err(_) => return Err(ParseError::TruncatedInput),
    };
    let fmt = match type_tag {
        0 => ParamSfoDataType::Utf8NoNull,
        2 => ParamSfoDataType::Utf8,
        4 => ParamSfoDataType::U32,
        _ => return Err(ParseError::UnknownFieldType),
    };
    let (fields, len) = match le_u32(fields) {
        Ok(read) => read,
        Err(_) => return Err(ParseError::TruncatedInput),
    };
    let (fields, max_len) = match le_u32(fields) {
        Ok(read) => read,
        Err(_) => return Err(ParseError::TruncatedInput),
    };
    let (rest, data_offset) = match le_u32(fields) {
        Ok(read) => read,
        Err(_) => return Err(ParseError::TruncatedInput),
    };
    Ok((rest, ParamSfoEntry { key_offset, fmt, len, max_len, data_offset }))
}

/// Splits `bytes` in front of its first zero byte, if it has one.
fn until_nul(bytes: &[u8]) -> (r: Option<&[u8]>)
    ensures
        match r {
            Some(taken) => before_nul(bytes@) == Some(taken@),
            None => before_nul(bytes@) is None,
        },
{
    let nul: [u8; 1] = [0];
    match take_until(nul.as_slice(), bytes) {
        Ok((_, taken)) => Some(taken),
        Err(_) => None,
    }
}

/// Decodes a span of bytes as UTF-8 text and hands back an owned copy.
fn read_text(bytes: &[u8]) -> (r: Result<String, ParseError>)
    ensures
        match r {
            Ok(text) => text_of(bytes@) == Ok::<Seq<char>, ParseError>(text@),
            Err(e) => text_of(bytes@) == Err::<Seq<char>, ParseError>(e),
        },
{
    match core::str::from_utf8(bytes) {
        Ok(text) => {
            proof {
                encode_utf8_decode_utf8(text@);
            }
            Ok(text.to_owned())
        },
        Err(_) => Err(ParseError::InvalidEncoding),
    }
}

/// Reads the key name that starts at `start`: the UTF-8 text in front of the
/// first zero byte.
///
/// No zero byte before the end of the buffer gives `MalformedKey`; bytes that
/// are not UTF-8 give `InvalidEncoding`.
fn read_key(total_input: &[u8], start: usize) -> (r: Result<String, ParseError>)
    requires
        start <= total_input@.len(),
    ensures
        match r {
            Ok(key) => key_at(total_input@, start as int) == Ok::<Seq<char>, ParseError>(key@),
            Err(e) => key_at(total_input@, start as int) == Err::<Seq<char>, ParseError>(e),
        },
{
    let region = slice_subrange(total_input, start, total_input.len());
    match until_nul(region) {
        Some(name) => read_text(name),
        None => Err(ParseError::MalformedKey),
    }
}

/// Reads the value that starts at `start`, as the entry's storage type says.
///
/// Raw text takes exactly `entry.len` bytes and keeps any padding in them.
/// Zero-terminated text ends in front of the first zero byte, wherever in the
/// rest of the buffer that is; none gives `MalformedValue`. An integer takes
/// four bytes. Raw text or an integer that the buffer has no room for gives
/// `TruncatedInput`, and text that is not UTF-8 gives `InvalidEncoding`.
fn read_value(total_input: &[u8], start: usize, entry: &ParamSfoEntry) -> (r: Result<
    ParamData,
    ParseError,
>)
    requires
        start <= total_input@.len(),
    ensures
        match r {
            Ok(value) => value_at(total_input@, start as int, *entry) == Ok::<
                ParamValue,
                ParseError,
            >(value@),
            Err(e) => value_at(total_input@, start as int, *entry) == Err::<
                ParamValue,
                ParseError,
            >(e),
        },
{
    let region = slice_subrange(total_input, start, total_input.len());
    match entry.fmt {
        ParamSfoDataType::Utf8NoNull => {
            match take(entry.len, region) {
                Ok((_, bytes)) => match read_text(bytes) {
                    Ok(text) => Ok(ParamData::String(text)),
                    Err(e) => Err(e),
                },
                Err(_) => Err(ParseError::TruncatedInput),
            }
        },
        ParamSfoDataType::Utf8 => {
            match until_nul(region) {
                Some(bytes) => match read_text(bytes) {
                    Ok(text) => Ok(ParamData::String(text)),
                    Err(e) => Err(e),
                },
                None => Err(ParseError::MalformedValue),
            }
        },
        ParamSfoDataType::U32 => {
            match le_u32(region) {
                Ok((_, number)) => Ok(ParamData::U32(number)),
                Err(_) => Err(ParseError::TruncatedInput),
            }
        },
    }
}

/// Resolves an entry against the whole buffer: checks that its key and its
/// reserved data region lie inside the buffer, then reads the key and the
/// value.
///
/// The check uses `max_len`, not `len`: an entry whose reserved region runs
/// past the end of the buffer gives `OutOfBounds` whatever its value is.
pub fn resolve_entry(total_input: &[u8], header: &ParamSfoHeader, entry: &ParamSfoEntry) -> (r:
    Result<(String, ParamData), ParseError>)
    ensures
        match r {
            Ok((key, value)) => pair_of(total_input@, *header, *entry) == Ok::<
                (Seq<char>, ParamValue),
                ParseError,
            >((key@, value@)),
            Err(e) => pair_of(total_input@, *header, *entry) == Err::<
                (Seq<char>, ParamValue),
                ParseError,
            >(e),
        },
{
    let size = total_input.len() as u64;
    let key_offset: u64 = header.key_table_offset as u64 + entry.key_offset as u64;
    let data_offset: u64 = header.data_table_offset as u64 + entry.data_offset as u64;
    if size < key_offset + 1 || size < data_offset + entry.max_len as u64 {
        return Err(ParseError::OutOfBounds);
    }
    let key = match read_key(total_input, key_offset as usize) {
        Ok(key) => key,
        Err(e) => return Err(e),
    };
    let value = match read_value(total_input, data_offset as usize, entry) {
        Ok(value) => value,
        Err(e) => return Err(e),
    };
    Ok((key, value))
}

/// Reads `header.num_entries` records from `input`, resolves each against
/// `total_input` and collects the pairs.
///
/// The records are taken in order and the first failure ends the decode with
/// its error. A key that comes again replaces the earlier value.
pub fn parse_data(input: &[u8], total_input: &[u8], header: &ParamSfoHeader) -> (r: Result<
    StringHashMap<ParamData>,
    ParseError,
>)
    ensures
        match r {
            Ok(map) => table_of(input@, total_input@, *header, header.num_entries as nat) == Ok::<
                Map<Seq<char>, ParamValue>,
                ParseError,
            >(values_of(map@)),
            Err(e) => table_of(input@, total_input@, *header, header.num_entries as nat) == Err::<
                Map<Seq<char>, ParamValue>,
                ParseError,
            >(e),
        },
{
    let mut entry_input = input;
    let mut final_data: StringHashMap<ParamData> = StringHashMap::new();
    let mut index: u32 = 0;
    assert(values_of(final_data@) =~= Map::empty());
    while index < header.num_entries
        invariant
            index <= header.num_entries,
            ENTRY_LEN * index <= input@.len(),
            entry_input@ == record_at(input@, index as nat),
            table_of(input@, total_input@, *header, index as nat) == Ok::<
                Map<Seq<char>, ParamValue>,
                ParseError,
            >(values_of(final_data@)),
        decreases header.num_entries - index,
    {
        let (rest, entry) = match parse_entry(entry_input) {
            Ok(read) => read,
            Err(e) => {
                proof {
                    lemma_first_error(
                        input@,
                        total_input@,
                        *header,
                        index as nat,
                        header.num_entries as nat,
                    );
                }
                return Err(e);
            },
        };
        let (key, value) = match resolve_entry(total_input, header, &entry) {
            Ok(pair) => pair,
            Err(e) => {
                proof {
                    lemma_first_error(
                        input@,
                        total_input@,
                        *header,
                        index as nat,
                        header.num_entries as nat,
                    );
                }
                return Err(e);
            },
        };
        proof {
            assert(values_of(final_data@.insert(key@, value)) =~= values_of(final_data@).insert(
                key@,
                value@,
            ));
        }
        final_data.insert(key, value);
        entry_input = rest;
        index = index + 1;
    }
    Ok(final_data)
}

/// Decodes a PARAM.SFO buffer into a map from key names to values.
///
/// The result is exactly what [`decode`] says of the bytes: the map when
/// every step succeeds, and otherwise the error of the first step that fails.
/// No input makes this function panic.
pub fn parse_param_sfo(total_input: &[u8]) -> (r: Result<StringHashMap<ParamData>, ParseError>)
    ensures
        match r {
            Ok(map) => decode(total_input@) == Ok::<Map<Seq<char>, ParamValue>, ParseError>(
                values_of(map@),
            ),
            Err(e) => decode(total_input@) == Err::<Map<Seq<char>, ParamValue>, ParseError>(e),
        },
{
    let (input, header) = match parse_header(total_input) {
        Ok(read) => read,
        Err(e) => return Err(e),
    };
    parse_data(input, total_input, &header)
}

} // verus!
