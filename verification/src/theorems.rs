//! What holds of every buffer: theorems about [`crate::format::decode`], the
//! function that [`crate::parser::parse_param_sfo`] is proved to compute.

use vstd::prelude::*;
use vstd::utf8::{decode_utf8_encode_utf8, encode_scalar, encode_utf8};
use crate::error::ParseError;
use crate::format::{
    data_start, decode, entry_of, first_at, header_of, in_bounds, le_u32_at, magic, nth_pair,
    pair_of, record_at, table_of, value_at, ParamSfoDataType, ParamSfoEntry, ParamSfoHeader,
    ParamValue, HEADER_LEN,
};

verus! {

/// The key of record `index`, where that record resolves.
pub open spec fn nth_key(table: Seq<u8>, buf: Seq<u8>, header: ParamSfoHeader, index: nat) -> Seq<
    char,
> {
    nth_pair(table, buf, header, index)->Ok_0.0
}

/// The value of record `index`, where that record resolves.
pub open spec fn nth_value(table: Seq<u8>, buf: Seq<u8>, header: ParamSfoHeader, index: nat)
    -> ParamValue {
    nth_pair(table, buf, header, index)->Ok_0.1
}

/// Each of the first `count` records resolves to a key and a value.
pub open spec fn all_resolve(table: Seq<u8>, buf: Seq<u8>, header: ParamSfoHeader, count: nat)
    -> bool {
    forall|i: nat| i < count ==> (#[trigger] nth_pair(table, buf, header, i)) is Ok
}

/// No two of the first `count` records have the same key.
pub open spec fn keys_differ(table: Seq<u8>, buf: Seq<u8>, header: ParamSfoHeader, count: nat)
    -> bool {
    forall|i: nat, j: nat|
        i < j < count ==> #[trigger] nth_key(table, buf, header, i) != #[trigger] nth_key(
            table,
            buf,
            header,
            j,
        )
}

/// A buffer is valid when its header reads and every record that the header
/// announces resolves.
pub open spec fn is_valid(buf: Seq<u8>) -> bool {
    &&& header_of(buf) is Ok
    &&& all_resolve(
        buf.skip(HEADER_LEN as int),
        buf,
        header_of(buf)->Ok_0,
        header_of(buf)->Ok_0.num_entries as nat,
    )
}

/// A run of records gives a map exactly when each of them resolves. The map
/// then holds the keys of those records and no others, so it has at most as
/// many keys as there are records, and as many when no key comes twice. Each
/// key is mapped to the value of the last record that has it.
pub proof fn lemma_table(table: Seq<u8>, buf: Seq<u8>, header: ParamSfoHeader, count: nat)
    ensures
        table_of(table, buf, header, count) is Ok <==> all_resolve(table, buf, header, count),
        table_of(table, buf, header, count) matches Ok(map) ==> {
            &&& map.dom().finite()
            &&& map.dom().len() <= count
            &&& keys_differ(table, buf, header, count) ==> map.dom().len() == count
            &&& forall|key: Seq<char>|
                map.dom().contains(key) <==> exists|i: nat|
                    i < count && #[trigger] nth_key(table, buf, header, i) == key
            &&& forall|i: nat|
                i < count && (forall|j: nat|
                    i < j < count ==> nth_key(table, buf, header, j) != nth_key(
                        table,
                        buf,
                        header,
                        i,
                    )) ==> map[#[trigger] nth_key(table, buf, header, i)] == nth_value(
                    table,
                    buf,
                    header,
                    i,
                )
        },
    decreases count,
{
    if count > 0 {
        let before = (count - 1) as nat;
        lemma_table(table, buf, header, before);
        if table_of(table, buf, header, before) is Ok && nth_pair(table, buf, header, before) is Ok {
            let earlier = table_of(table, buf, header, before)->Ok_0;
            let last_key = nth_key(table, buf, header, before);
            if keys_differ(table, buf, header, count) {
                assert(!earlier.dom().contains(last_key)) by {
                    if earlier.dom().contains(last_key) {
                        let i = choose|i: nat|
                            i < before && #[trigger] nth_key(table, buf, header, i) == last_key;
                        assert(nth_key(table, buf, header, i) != nth_key(
                            table,
                            buf,
                            header,
                            before,
                        ));
                    }
                }
            }
        }
    }
}

/// A buffer decodes exactly when it is valid, and a valid buffer in which no
/// key comes twice decodes to a map with exactly `num_entries` keys.
pub proof fn lemma_valid_buffer_decodes(buf: Seq<u8>)
    ensures
        decode(buf) is Ok <==> is_valid(buf),
        is_valid(buf) && keys_differ(
            buf.skip(HEADER_LEN as int),
            buf,
            header_of(buf)->Ok_0,
            header_of(buf)->Ok_0.num_entries as nat,
        ) ==> decode(buf)->Ok_0.dom().finite() && decode(buf)->Ok_0.dom().len() == header_of(
            buf,
        )->Ok_0.num_entries,
{
    if header_of(buf) is Ok {
        let header = header_of(buf)->Ok_0;
        lemma_table(buf.skip(HEADER_LEN as int), buf, header, header.num_entries as nat);
    }
}

/// An integer entry decodes to the four little-endian bytes at its resolved
/// data offset. Its declared length and the size of its reserved region have
/// no part in the value.
pub proof fn lemma_integer_value(buf: Seq<u8>, header: ParamSfoHeader, entry: ParamSfoEntry)
    requires
        entry.fmt == ParamSfoDataType::U32,
        pair_of(buf, header, entry) is Ok,
    ensures
        data_start(header, entry) + 4 <= buf.len(),
        pair_of(buf, header, entry)->Ok_0.1 == ParamValue::Number(
            le_u32_at(buf, data_start(header, entry)) as u32,
        ),
{
}

/// Two integer entries at the same place decode alike, whatever their
/// declared lengths and reserved sizes are.
pub proof fn lemma_integer_ignores_lengths(
    buf: Seq<u8>,
    start: int,
    first: ParamSfoEntry,
    second: ParamSfoEntry,
)
    requires
        first.fmt == ParamSfoDataType::U32,
        second.fmt == ParamSfoDataType::U32,
    ensures
        value_at(buf, start, first) == value_at(buf, start, second),
{
}

/// Text that holds the character U+0000 has a zero byte in its encoding.
pub proof fn lemma_nul_encodes_to_zero(text: Seq<char>)
    requires
        text.contains('\0'),
    ensures
        encode_utf8(text).contains(0u8),
    decreases text.len(),
{
    let first = encode_scalar(text[0] as u32);
    let rest = encode_utf8(text.drop_first());
    if text[0] == '\0' {
        assert(0u32 & 0x7F == 0) by (bit_vector);
        assert((first + rest)[0] == 0u8);
    } else {
        let at = choose|at: int| 0 <= at < text.len() && text[at] == '\0';
        assert(text.drop_first()[at - 1] == '\0');
        lemma_nul_encodes_to_zero(text.drop_first());
        let found = choose|found: int| 0 <= found < rest.len() && rest[found] == 0u8;
        assert((first + rest)[first.len() + found] == 0u8);
    }
}

/// A zero-terminated text is the bytes in front of the first zero byte at or
/// after its data offset, so neither its encoding holds a zero byte nor the
/// text itself the character U+0000. Where the reserved region holds a zero
/// byte, the text is shorter than the region: the scan then stays inside it.
pub proof fn lemma_terminated_text(buf: Seq<u8>, start: int, entry: ParamSfoEntry)
    requires
        entry.fmt == ParamSfoDataType::Utf8,
        0 <= start <= buf.len(),
        value_at(buf, start, entry) is Ok,
    ensures
        value_at(buf, start, entry)->Ok_0 matches ParamValue::Text(text) && {
            let bytes = encode_utf8(text);
            &&& !bytes.contains(0u8)
            &&& !text.contains('\0')
            &&& bytes.is_prefix_of(buf.skip(start))
            &&& start + bytes.len() < buf.len()
            &&& buf[start + bytes.len()] == 0
            &&& (exists|at: int| start <= at < start + entry.max_len && at < buf.len() && buf[at]
                == 0) ==> bytes.len() < entry.max_len
        },
{
    let data = buf.skip(start);
    let at = choose|at: int| first_at(data, 0, at);
    let span = data.take(at);
    decode_utf8_encode_utf8(span);
    let text = value_at(buf, start, entry)->Ok_0->Text_0;
    if text.contains('\0') {
        lemma_nul_encodes_to_zero(text);
    }
    if exists|z: int| start <= z < start + entry.max_len && z < buf.len() && buf[z] == 0 {
        let z = choose|z: int| start <= z < start + entry.max_len && z < buf.len() && buf[z] == 0;
        assert(data[z - start] == 0);
    }
}

/// What is left of a buffer with a sound header after cutting it to fewer
/// than 20 bytes is rejected as truncated.
pub proof fn lemma_cut_header(buf: Seq<u8>, keep: int)
    requires
        header_of(buf) is Ok,
        0 <= keep < HEADER_LEN,
    ensures
        decode(buf.take(keep)) == Err::<Map<Seq<char>, ParamValue>, ParseError>(
            ParseError::TruncatedInput,
        ),
{
}

/// A buffer in which one of the four magic bytes is wrong is rejected as
/// having a malformed header, whatever else it holds and however long it is.
pub proof fn lemma_wrong_magic(buf: Seq<u8>, at: int)
    requires
        0 <= at < 4,
        at < buf.len(),
        buf[at] != magic()[at],
    ensures
        decode(buf) == Err::<Map<Seq<char>, ParamValue>, ParseError>(ParseError::MalformedHeader),
{
}

/// An entry whose reserved data region runs past the end of the buffer is
/// out of bounds, even where its value would have fit.
pub proof fn lemma_region_past_end(buf: Seq<u8>, header: ParamSfoHeader, entry: ParamSfoEntry)
    requires
        data_start(header, entry) + entry.max_len > buf.len(),
    ensures
        !in_bounds(buf, header, entry),
        pair_of(buf, header, entry) == Err::<(Seq<char>, ParamValue), ParseError>(
            ParseError::OutOfBounds,
        ),
{
}

/// A buffer is rejected as out of bounds when the records in front of some
/// record resolve and that record reads but reserves a data region that runs
/// past the end of the buffer.
pub proof fn lemma_decode_out_of_bounds(buf: Seq<u8>, index: nat)
    requires
        header_of(buf) is Ok,
        index < header_of(buf)->Ok_0.num_entries,
        all_resolve(buf.skip(HEADER_LEN as int), buf, header_of(buf)->Ok_0, index),
        entry_of(record_at(buf.skip(HEADER_LEN as int), index)) is Ok,
        data_start(
            header_of(buf)->Ok_0,
            entry_of(record_at(buf.skip(HEADER_LEN as int), index))->Ok_0,
        ) + entry_of(record_at(buf.skip(HEADER_LEN as int), index))->Ok_0.max_len > buf.len(),
    ensures
        decode(buf) == Err::<Map<Seq<char>, ParamValue>, ParseError>(ParseError::OutOfBounds),
{
    let header = header_of(buf)->Ok_0;
    let table = buf.skip(HEADER_LEN as int);
    lemma_table(table, buf, header, index);
    lemma_first_error(table, buf, header, index, header.num_entries as nat);
}

/// Decoding fails fast: when the records in front of a record resolve and
/// that record does not, its error is the error of the whole run.
pub proof fn lemma_first_error(
    table: Seq<u8>,
    buf: Seq<u8>,
    header: ParamSfoHeader,
    index: nat,
    count: nat,
)
    requires
        index < count,
        table_of(table, buf, header, index) is Ok,
        nth_pair(table, buf, header, index) is Err,
    ensures
        table_of(table, buf, header, count) == Err::<Map<Seq<char>, ParamValue>, ParseError>(
            nth_pair(table, buf, header, index)->Err_0,
        ),
    decreases count,
{
    if count > index + 1 {
        lemma_first_error(table, buf, header, index, (count - 1) as nat);
    }
}

} // verus!
