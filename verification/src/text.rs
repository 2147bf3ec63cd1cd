//! Text fields of bounded length.

use vstd::prelude::*;
use vstd::string::StringSliceAdditionalSpecFns;
use vstd::utf8::{
    encode_utf8_valid_utf8, is_char_boundary, is_char_boundary_iff_not_is_continuation_byte,
    is_char_boundary_start_end_of_seq, length_of_first_scalar, pop_first_scalar, valid_utf8,
};
use arrayvec::{ArrayString, CapacityError};
use crate::error::Error;
use crate::parse::TEXT_PARAMETER_MAX_LEN;
use crate::scan::{lemma_run_len_bounds, run_len, scan};

verus! {

/// `arrayvec::ArrayString`, a string that is held in place, with a fixed
/// capacity in bytes.
#[verifier::external_type_specification]
#[verifier::external_body]
pub struct ExArrayString<const CAP: usize>(ArrayString<CAP>);

/// `arrayvec::CapacityError`, the error of a string that does not fit.
#[verifier::external_type_specification]
#[verifier::external_body]
#[verifier::reject_recursive_types(T)]
pub struct ExCapacityError<T>(CapacityError<T>);

/// The bytes that a text value holds, in order.
pub uninterp spec fn array_string_bytes(text: ArrayString<TEXT_PARAMETER_MAX_LEN>) -> Seq<u8>;

/// `ArrayString::from`. It succeeds exactly where the string's length in
/// bytes is within the capacity, and the value then holds the string's
/// bytes.
#[verifier::external_body]
fn array_string_from(string: &str) -> (r: Result<
    ArrayString<TEXT_PARAMETER_MAX_LEN>,
    CapacityError<&str>,
>)
    ensures
        r is Ok <==> string.spec_bytes().len() <= TEXT_PARAMETER_MAX_LEN,
        r is Ok ==> array_string_bytes(r->Ok_0) == string.spec_bytes(),
{
    ArrayString::from(string)
}

/// What `array_string` returns for a string of the given bytes.
pub open spec fn bounded_text(bytes: Seq<u8>) -> Result<Seq<u8>, Error> {
    if bytes.len() <= TEXT_PARAMETER_MAX_LEN {
        Ok(bytes)
    } else {
        Err(
            Error::ParameterLength {
                max_length: TEXT_PARAMETER_MAX_LEN,
                parameter_length: bytes.len() as usize,
            },
        )
    }
}

/// Copies a string into a text value. A string longer than
/// `TEXT_PARAMETER_MAX_LEN` bytes is refused, with both lengths in the error.
pub fn array_string(string: &str) -> (r: Result<ArrayString<TEXT_PARAMETER_MAX_LEN>, Error>)
    ensures
        match r {
            Ok(text) => bounded_text(string.spec_bytes()) == Ok::<Seq<u8>, Error>(
                array_string_bytes(text),
            ),
            Err(e) => bounded_text(string.spec_bytes()) == Err::<Seq<u8>, Error>(e),
        },
{
    match array_string_from(string) {
        Ok(text) => Ok(text),
        Err(_) => Err(
            Error::ParameterLength {
                max_length: TEXT_PARAMETER_MAX_LEN,
                parameter_length: string.len(),
            },
        ),
    }
}

/// In well-formed UTF-8 a character starts at an ASCII byte and ends with it.
pub proof fn lemma_boundary_at_ascii(bytes: Seq<u8>, i: int)
    requires
        valid_utf8(bytes),
        0 <= i < bytes.len(),
        bytes[i] < 0x80,
    ensures
        is_char_boundary(bytes, i),
        is_char_boundary(bytes, i + 1),
    decreases bytes.len(),
{
    is_char_boundary_iff_not_is_continuation_byte(bytes, i);
    reveal_with_fuel(is_char_boundary, 2);
    reveal_with_fuel(valid_utf8, 2);
    if i > 0 {
        lemma_boundary_at_ascii(pop_first_scalar(bytes), i - length_of_first_scalar(bytes));
    }
}

/// Splits a string after its first byte, which is an ASCII byte.
pub(crate) fn split_first(input: &str) -> (r: (u8, &str))
    requires
        input.spec_bytes().len() > 0,
        input.spec_bytes()[0] < 0x80,
    ensures
        r.0 == input.spec_bytes()[0],
        r.1.spec_bytes() == input.spec_bytes().skip(1),
{
    proof {
        encode_utf8_valid_utf8(input@);
        lemma_boundary_at_ascii(input.spec_bytes(), 0);
    }
    let first = input.as_bytes()[0];
    let (_, rest) = input.split_at(1);
    (first, rest)
}

/// Splits a string before the first of two ASCII bytes; where neither
/// occurs, the second part is empty.
pub(crate) fn split_before<'a>(input: &'a str, first: u8, second: u8) -> (r: (&'a str, &'a str))
    requires
        first < 0x80,
        second < 0x80,
    ensures
        r.0.spec_bytes() == input.spec_bytes().take(
            run_len(input.spec_bytes(), set![first, second]) as int,
        ),
        r.1.spec_bytes() == input.spec_bytes().skip(
            run_len(input.spec_bytes(), set![first, second]) as int,
        ),
{
    let n = scan(input.as_bytes(), first, second);
    proof {
        let bytes = input.spec_bytes();
        encode_utf8_valid_utf8(input@);
        lemma_run_len_bounds(bytes, set![first, second]);
        if n < bytes.len() {
            lemma_boundary_at_ascii(bytes, n as int);
        } else {
            is_char_boundary_start_end_of_seq(bytes);
        }
    }
    input.split_at(n)
}

} // verus!
