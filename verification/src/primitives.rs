//! The primitive readers that the decoder is built from.
//!
//! The readers are nom's and the UTF-8 check is the standard library's. Verus
//! does not see their code: each contract here is a statement about that
//! code which is believed, not proved. Everything else in the crate is proved
//! from these statements.

use vstd::prelude::*;
use vstd::string::StringSliceAdditionalSpecFns;
use vstd::utf8::valid_utf8;
use crate::format::{first_at, le_u16_at, le_u32_at};
use crate::text::{first_occurrence, occurs_at};

verus! {

/// nom's result for a parser that did not succeed. Opaque: the decoder only
/// learns that the read failed.
#[verifier::external_type_specification]
#[verifier::external_body]
#[verifier::reject_recursive_types(E)]
pub struct ExNomErr<E>(nom::Err<E>);

/// nom's default error, which remembers the input and an error kind. Opaque.
#[verifier::external_type_specification]
#[verifier::external_body]
#[verifier::reject_recursive_types(I)]
pub struct ExNomError<I>(nom::error::Error<I>);

/// The standard library's description of why bytes are not UTF-8. Opaque.
#[verifier::external_type_specification]
#[verifier::external_body]
pub struct ExUtf8Error(core::str::Utf8Error);

/// `nom::bytes::complete::tag`: succeeds exactly when `input` starts with
/// `pattern`, and then hands back the input behind the pattern and the
/// matched bytes.
#[verifier::external_body]
pub(crate) fn tag<'a>(pattern: &[u8], input: &'a [u8]) -> (r: Result<
    (&'a [u8], &'a [u8]),
    nom::Err<nom::error::Error<&'a [u8]>>,
>)
    ensures
        r is Ok <==> pattern@.is_prefix_of(input@),
        r matches Ok((rest, matched)) ==> {
            &&& matched@ == pattern@
            &&& rest@ == input@.skip(pattern@.len() as int)
        },
{
    nom::bytes::complete::tag(pattern)(input)
}

/// `nom::bytes::complete::take`: succeeds exactly when `input` holds at least
/// `count` bytes, and then splits it behind the first `count` bytes.
#[verifier::external_body]
pub(crate) fn take<'a>(count: u32, input: &'a [u8]) -> (r: Result<
    (&'a [u8], &'a [u8]),
    nom::Err<nom::error::Error<&'a [u8]>>,
>)
    ensures
        r is Ok <==> count <= input@.len(),
        r matches Ok((rest, taken)) ==> {
            &&& taken@ == input@.take(count as int)
            &&& rest@ == input@.skip(count as int)
        },
{
    nom::bytes::complete::take(count)(input)
}

/// `nom::bytes::complete::take_until` with a pattern of one byte: succeeds
/// exactly when the byte occurs in `input`, and then splits the input in
/// front of its first occurrence.
#[verifier::external_body]
pub(crate) fn take_until<'a>(pattern: &[u8], input: &'a [u8]) -> (r: Result<
    (&'a [u8], &'a [u8]),
    nom::Err<nom::error::Error<&'a [u8]>>,
>)
    requires
        pattern@.len() == 1,
    ensures
        r is Ok <==> input@.contains(pattern@[0]),
        r matches Ok((rest, taken)) ==> {
            &&& first_at(input@, pattern@[0], taken@.len() as int)
            &&& taken@ == input@.take(taken@.len() as int)
            &&& rest@ == input@.skip(taken@.len() as int)
        },
{
    nom::bytes::complete::take_until(pattern)(input)
}

/// `nom::number::complete::le_u8`: succeeds exactly when `input` is not
/// empty, and then hands back its first byte and the input behind it.
#[verifier::external_body]
pub(crate) fn le_u8<'a>(input: &'a [u8]) -> (r: Result<
    (&'a [u8], u8),
    nom::Err<nom::error::Error<&'a [u8]>>,
>)
    ensures
        r is Ok <==> input@.len() >= 1,
        r matches Ok((rest, value)) ==> {
            &&& value == input@[0]
            &&& rest@ == input@.skip(1)
        },
{
    nom::number::complete::le_u8(input)
}

/// `nom::number::complete::le_u16`: succeeds exactly when `input` holds at
/// least two bytes, and then hands back the little-endian integer that they
/// store and the input behind them.
#[verifier::external_body]
pub(crate) fn le_u16<'a>(input: &'a [u8]) -> (r: Result<
    (&'a [u8], u16),
    nom::Err<nom::error::Error<&'a [u8]>>,
>)
    ensures
        r is Ok <==> input@.len() >= 2,
        r matches Ok((rest, value)) ==> {
            &&& value == le_u16_at(input@, 0)
            &&& rest@ == input@.skip(2)
        },
{
    nom::number::complete::le_u16(input)
}

/// `nom::number::complete::le_u32`: succeeds exactly when `input` holds at
/// least four bytes, and then hands back the little-endian integer that they
/// store and the input behind them.
#[verifier::external_body]
pub(crate) fn le_u32<'a>(input: &'a [u8]) -> (r: Result<
    (&'a [u8], u32),
    nom::Err<nom::error::Error<&'a [u8]>>,
>)
    ensures
        r is Ok <==> input@.len() >= 4,
        r matches Ok((rest, value)) ==> {
            &&& value == le_u32_at(input@, 0)
            &&& rest@ == input@.skip(4)
        },
{
    nom::number::complete::le_u32(input)
}

/// `str::split_once` with a string as delimiter: finds the first occurrence
/// of `delimiter` in `text` and hands back what is in front of it and what is
/// behind it, or nothing where `delimiter` does not occur.
#[verifier::external_body]
pub(crate) fn split_once<'a>(text: &'a str, delimiter: &str) -> (r: Option<(&'a str, &'a str)>)
    ensures
        r is None <==> forall|at: int| !occurs_at(text@, delimiter@, at),
        r matches Some((before, after)) ==> {
            &&& first_occurrence(text@, delimiter@, before@.len() as int)
            &&& before@ == text@.take(before@.len() as int)
            &&& after@ == text@.skip((before@.len() + delimiter@.len()) as int)
        },
{
    text.split_once(delimiter)
}

/// `core::str::from_utf8`: succeeds exactly when the bytes are valid UTF-8,
/// and the string it then hands back is made of those very bytes.
pub assume_specification[ core::str::from_utf8 ](bytes: &[u8]) -> (r: Result<
    &str,
    core::str::Utf8Error,
>)
    ensures
        r is Ok <==> valid_utf8(bytes@),
        r matches Ok(text) ==> text.spec_bytes() == bytes@,
;

} // verus!
