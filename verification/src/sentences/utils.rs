//! Decoders for the fields that sentences are made of.
//!
//! Each decoder takes the input that is still unread, reads one field from
//! its start and returns the field's value with the input that follows it.
//! What a decoder returns is stated by a spec function of the same name with
//! `spec_` before it, over the bytes of the input.

use vstd::prelude::*;
use vstd::string::StringSliceAdditionalSpecFns;
use arrayvec::ArrayString;
use chrono::{NaiveTime, TimeDelta};
use crate::decimal::{decimal_of, parse_decimal, parse_small_int, small_int_of, Decimal};
use crate::error::{Error, ParseErrorKind};
use crate::parse::{CHECKSUM_MARKER, FIELD_SEPARATOR, TEXT_PARAMETER_MAX_LEN};
use crate::scan::{lemma_run_len_bounds, run_len};
use crate::text::{array_string, array_string_bytes, bounded_text, split_before, split_first};
use crate::time::{duration_of, parse_duration_hms, parse_hms, time_of};

verus! {

pub const CODE_VALID: u8 = 65;

pub const CODE_INVALID: u8 = 86;

/// The error for a malformed field that was met with `input` still unread.
pub open spec fn malformed(kind: ParseErrorKind, input: Seq<u8>) -> Error {
    Error::ParsingError { kind, remaining: input.len() as usize }
}

/// The bytes of the input up to its first separator.
pub open spec fn token(input: Seq<u8>) -> Seq<u8> {
    input.take(run_len(input, set![FIELD_SEPARATOR]) as int)
}

/// The input from its first separator on.
pub open spec fn after_token(input: Seq<u8>) -> Seq<u8> {
    input.skip(run_len(input, set![FIELD_SEPARATOR]) as int)
}

/// The bytes that end a text field.
pub open spec fn text_stops(stop_at_separator: bool) -> Set<u8> {
    if stop_at_separator {
        set![FIELD_SEPARATOR, CHECKSUM_MARKER]
    } else {
        set![CHECKSUM_MARKER]
    }
}

/// What a decoder returned, with the bytes of the unread input in place of
/// the input itself.
pub open spec fn decoded<T>(r: Result<(T, &str), Error>) -> Result<(T, Seq<u8>), Error> {
    match r {
        Ok((value, rest)) => Ok((value, rest.spec_bytes())),
        Err(e) => Err(e),
    }
}

/// What a text decoder returned, with bytes in place of the text value and
/// of the unread input.
pub open spec fn decoded_text(
    r: Result<(Option<ArrayString<TEXT_PARAMETER_MAX_LEN>>, &str), Error>,
) -> Result<(Option<Seq<u8>>, Seq<u8>), Error> {
    match r {
        Ok((Some(text), rest)) => Ok((Some(array_string_bytes(text)), rest.spec_bytes())),
        Ok((None, rest)) => Ok((None, rest.spec_bytes())),
        Err(e) => Err(e),
    }
}

/// The value that a step of a decoder read. It is only asked for where the
/// step did not fail.
pub open spec fn value<T>(step: Result<(T, Seq<u8>), Error>) -> T {
    match step {
        Ok((value, _)) => value,
        Err(_) => arbitrary(),
    }
}

/// The input that a step of a decoder left unread.
pub open spec fn rest<T>(step: Result<(T, Seq<u8>), Error>) -> Seq<u8> {
    match step {
        Ok((_, rest)) => rest,
        Err(_) => Seq::empty(),
    }
}

/// The error of the earliest step that failed: `earlier` where a step
/// before `step` failed already, else the error of `step`, if it has one.
pub open spec fn or_failure<T>(earlier: Option<Error>, step: Result<T, Error>) -> Option<Error> {
    match (earlier, step) {
        (Some(e), _) => Some(e),
        (None, Err(e)) => Some(e),
        (None, Ok(_)) => None,
    }
}

pub open spec fn spec_separator(input: Seq<u8>) -> Result<((), Seq<u8>), Error> {
    if input.len() > 0 && input[0] == FIELD_SEPARATOR {
        Ok(((), input.skip(1)))
    } else {
        Err(malformed(ParseErrorKind::Separator, input))
    }
}

pub open spec fn spec_one_of(input: Seq<u8>, allowed: Seq<u8>) -> Result<(u8, Seq<u8>), Error> {
    if input.len() > 0 && input[0] < 0x80 && allowed.contains(input[0]) {
        Ok((input[0], input.skip(1)))
    } else {
        Err(malformed(ParseErrorKind::Code, input))
    }
}

pub open spec fn spec_opt_one_of(input: Seq<u8>, allowed: Seq<u8>) -> (Option<u8>, Seq<u8>) {
    match spec_one_of(input, allowed) {
        Ok((code, rest)) => (Some(code), rest),
        Err(_) => (None, input),
    }
}

pub open spec fn spec_parse_valid_status(input: Seq<u8>) -> Result<(bool, Seq<u8>), Error> {
    match spec_one_of(input, seq![CODE_VALID, CODE_INVALID]) {
        Ok((code, rest)) => Ok((code == CODE_VALID, rest)),
        Err(e) => Err(e),
    }
}

/// An optional field, made of what its token was read as: absent where the
/// token is empty, malformed where the token is not empty and has no value.
/// `rest` is the input that follows the token.
pub open spec fn spec_optional_value<T>(
    input: Seq<u8>,
    rest: Seq<u8>,
    empty: bool,
    value: Option<T>,
    kind: ParseErrorKind,
) -> Result<(Option<T>, Seq<u8>), Error> {
    if empty {
        Ok((None, input))
    } else {
        match value {
            Some(v) => Ok((Some(v), rest)),
            None => Err(malformed(kind, input)),
        }
    }
}

/// An optional field whose token is read as a whole.
pub open spec fn spec_optional<T>(
    input: Seq<u8>,
    value: Option<T>,
    kind: ParseErrorKind,
) -> Result<(Option<T>, Seq<u8>), Error> {
    spec_optional_value(input, after_token(input), token(input).len() == 0, value, kind)
}

pub open spec fn spec_decimal_field(input: Seq<u8>) -> Result<(Option<Decimal>, Seq<u8>), Error> {
    spec_optional(input, decimal_of(token(input)), ParseErrorKind::Number)
}

pub open spec fn spec_small_int_field(input: Seq<u8>) -> Result<(Option<i8>, Seq<u8>), Error> {
    spec_optional(input, small_int_of(token(input)), ParseErrorKind::Number)
}

pub open spec fn spec_time_field(input: Seq<u8>) -> Result<(Option<NaiveTime>, Seq<u8>), Error> {
    spec_optional(input, time_of(token(input)), ParseErrorKind::Time)
}

pub open spec fn spec_duration_field(input: Seq<u8>) -> Result<
    (Option<TimeDelta>, Seq<u8>),
    Error,
> {
    spec_optional(input, duration_of(token(input)), ParseErrorKind::Duration)
}

pub open spec fn spec_text_field(input: Seq<u8>, stop_at_separator: bool) -> Result<
    (Option<Seq<u8>>, Seq<u8>),
    Error,
> {
    let len = run_len(input, text_stops(stop_at_separator)) as int;
    if len == 0 {
        Ok((None, input))
    } else {
        match bounded_text(input.take(len)) {
            Ok(text) => Ok((Some(text), input.skip(len))),
            Err(e) => Err(e),
        }
    }
}

/// A code outside the closed set is refused, and so is a missing one.
pub proof fn lemma_code_outside_set(input: Seq<u8>, allowed: Seq<u8>)
    requires
        input.len() == 0 || !allowed.contains(input[0]),
    ensures
        spec_one_of(input, allowed) == Err::<(u8, Seq<u8>), Error>(
            malformed(ParseErrorKind::Code, input),
        ),
{
}

/// A status other than `A` and `V` is refused, and so is a missing one.
pub proof fn lemma_status_outside_set(input: Seq<u8>)
    requires
        input.len() == 0 || (input[0] != CODE_VALID && input[0] != CODE_INVALID),
    ensures
        spec_parse_valid_status(input) == Err::<(bool, Seq<u8>), Error>(
            malformed(ParseErrorKind::Code, input),
        ),
{
    if input.len() > 0 {
        let allowed = seq![CODE_VALID, CODE_INVALID];
        assert forall|i: int| 0 <= i < allowed.len() implies allowed[i] != input[0] by {}
    }
}

/// An empty token is an absent field: every optional field that is read as
/// a token decodes to `None` and leaves the input as it was.
pub proof fn lemma_empty_token_is_absent(input: Seq<u8>)
    requires
        input.len() == 0 || input[0] == FIELD_SEPARATOR,
    ensures
        spec_decimal_field(input) == Ok::<(Option<Decimal>, Seq<u8>), Error>((None, input)),
        spec_small_int_field(input) == Ok::<(Option<i8>, Seq<u8>), Error>((None, input)),
        spec_time_field(input) == Ok::<(Option<NaiveTime>, Seq<u8>), Error>((None, input)),
        spec_duration_field(input) == Ok::<(Option<TimeDelta>, Seq<u8>), Error>((None, input)),
{
}

/// A code that may be absent is absent where the input is empty or starts
/// with a byte outside the closed set, such as a separator.
pub proof fn lemma_absent_code(input: Seq<u8>, allowed: Seq<u8>)
    requires
        input.len() == 0 || !allowed.contains(input[0]),
    ensures
        spec_opt_one_of(input, allowed) == (None::<u8>, input),
{
}

/// An empty text is an absent field.
pub proof fn lemma_empty_text_is_absent(input: Seq<u8>, stop_at_separator: bool)
    requires
        input.len() == 0 || text_stops(stop_at_separator).contains(input[0]),
    ensures
        spec_text_field(input, stop_at_separator) == Ok::<(Option<Seq<u8>>, Seq<u8>), Error>(
            (None, input),
        ),
{
}

/// A text longer than `TEXT_PARAMETER_MAX_LEN` bytes is refused, and the
/// error holds that maximum and the text's length.
pub proof fn lemma_long_text_is_refused(input: Seq<u8>, stop_at_separator: bool)
    requires
        run_len(input, text_stops(stop_at_separator)) > TEXT_PARAMETER_MAX_LEN,
    ensures
        spec_text_field(input, stop_at_separator) == Err::<(Option<Seq<u8>>, Seq<u8>), Error>(
            Error::ParameterLength {
                max_length: TEXT_PARAMETER_MAX_LEN,
                parameter_length: run_len(input, text_stops(stop_at_separator)) as usize,
            },
        ),
{
    lemma_run_len_bounds(input, text_stops(stop_at_separator));
}

/// Reads the separator that stands between two fields.
pub fn separator(input: &str) -> (r: Result<((), &str), Error>)
    ensures
        decoded(r) == spec_separator(input.spec_bytes()),
{
    let bytes = input.as_bytes();
    if bytes.len() > 0 && bytes[0] == FIELD_SEPARATOR {
        let (_, rest) = split_first(input);
        Ok(((), rest))
    } else {
        Err(Error::ParsingError { kind: ParseErrorKind::Separator, remaining: bytes.len() })
    }
}

fn contains(allowed: &[u8], b: u8) -> (r: bool)
    ensures
        r == allowed@.contains(b),
{
    let mut i: usize = 0;
    while i < allowed.len()
        invariant
            i <= allowed@.len(),
            forall|j: int| 0 <= j < i ==> allowed@[j] != b,
        decreases allowed@.len() - i,
    {
        if allowed[i] == b {
            return true;
        }
        i += 1;
    }
    false
}

/// Reads a one-character code that must be one of `allowed`. Any other
/// byte is refused, and so is the end of the input.
pub fn one_of<'a>(input: &'a str, allowed: &[u8]) -> (r: Result<(u8, &'a str), Error>)
    ensures
        decoded(r) == spec_one_of(input.spec_bytes(), allowed@),
{
    let bytes = input.as_bytes();
    if bytes.len() > 0 && bytes[0] < 0x80 && contains(allowed, bytes[0]) {
        Ok(split_first(input))
    } else {
        Err(Error::ParsingError { kind: ParseErrorKind::Code, remaining: bytes.len() })
    }
}

/// Reads a one-character code that may be absent: where the input does not
/// start with one of `allowed`, nothing is read.
pub fn opt_one_of<'a>(input: &'a str, allowed: &[u8]) -> (r: (Option<u8>, &'a str))
    ensures
        (r.0, r.1.spec_bytes()) == spec_opt_one_of(input.spec_bytes(), allowed@),
{
    match one_of(input, allowed) {
        Ok((code, rest)) => (Some(code), rest),
        Err(_) => (None, input),
    }
}

/// Reads a status: `A` for valid, `V` for invalid.
pub fn parse_valid_status(input: &str) -> (r: Result<(bool, &str), Error>)
    ensures
        decoded(r) == spec_parse_valid_status(input.spec_bytes()),
{
    let allowed = [CODE_VALID, CODE_INVALID];
    match one_of(input, &allowed) {
        Ok((code, rest)) => Ok((code == CODE_VALID, rest)),
        Err(e) => Err(e),
    }
}

/// Splits the input before its first separator.
fn split_token(input: &str) -> (r: (&str, &str))
    ensures
        r.0.spec_bytes() == token(input.spec_bytes()),
        r.1.spec_bytes() == after_token(input.spec_bytes()),
{
    proof {
        assert(set![FIELD_SEPARATOR, FIELD_SEPARATOR] =~= set![FIELD_SEPARATOR]);
    }
    split_before(input, FIELD_SEPARATOR, FIELD_SEPARATOR)
}

/// Makes an optional field of what its token was read as. `empty` says
/// whether the token was empty, `rest` is the input that follows it.
pub fn optional_value<'a, T>(
    input: &'a str,
    rest: &'a str,
    empty: bool,
    value: Option<T>,
    kind: ParseErrorKind,
) -> (r: Result<(Option<T>, &'a str), Error>)
    ensures
        decoded(r) == spec_optional_value(
            input.spec_bytes(),
            rest.spec_bytes(),
            empty,
            value,
            kind,
        ),
{
    if empty {
        Ok((None, input))
    } else {
        match value {
            Some(v) => Ok((Some(v), rest)),
            None => Err(Error::ParsingError { kind, remaining: input.len() }),
        }
    }
}

/// Reads an optional decimal number.
pub fn decimal_field(input: &str) -> (r: Result<(Option<Decimal>, &str), Error>)
    ensures
        decoded(r) == spec_decimal_field(input.spec_bytes()),
{
    let (field, rest) = split_token(input);
    let field = field.as_bytes();
    optional_value(input, rest, field.len() == 0, parse_decimal(field), ParseErrorKind::Number)
}

/// Reads an optional small integer.
pub fn small_int_field(input: &str) -> (r: Result<(Option<i8>, &str), Error>)
    ensures
        decoded(r) == spec_small_int_field(input.spec_bytes()),
{
    let (field, rest) = split_token(input);
    let field = field.as_bytes();
    optional_value(input, rest, field.len() == 0, parse_small_int(field), ParseErrorKind::Number)
}

/// Reads an optional time of day.
pub fn time_field(input: &str) -> (r: Result<(Option<NaiveTime>, &str), Error>)
    ensures
        decoded(r) == spec_time_field(input.spec_bytes()),
{
    let (field, rest) = split_token(input);
    let field = field.as_bytes();
    optional_value(input, rest, field.len() == 0, parse_hms(field), ParseErrorKind::Time)
}

/// Reads an optional duration.
pub fn duration_field(input: &str) -> (r: Result<(Option<TimeDelta>, &str), Error>)
    ensures
        decoded(r) == spec_duration_field(input.spec_bytes()),
{
    let (field, rest) = split_token(input);
    let field = field.as_bytes();
    optional_value(
        input,
        rest,
        field.len() == 0,
        parse_duration_hms(field),
        ParseErrorKind::Duration,
    )
}

/// Reads an optional text: all bytes up to the checksum marker and, where
/// `stop_at_separator` is set, up to the next separator.
pub fn text_field(input: &str, stop_at_separator: bool) -> (r: Result<
    (Option<ArrayString<TEXT_PARAMETER_MAX_LEN>>, &str),
    Error,
>)
    ensures
        decoded_text(r) == spec_text_field(input.spec_bytes(), stop_at_separator),
{
    let first = if stop_at_separator {
        FIELD_SEPARATOR
    } else {
        CHECKSUM_MARKER
    };
    proof {
        assert(set![first, CHECKSUM_MARKER] =~= text_stops(stop_at_separator));
        lemma_run_len_bounds(input.spec_bytes(), text_stops(stop_at_separator));
    }
    let (text, rest) = split_before(input, first, CHECKSUM_MARKER);
    if text.as_bytes().len() == 0 {
        return Ok((None, input));
    }
    match array_string(text) {
        Ok(value) => Ok((Some(value), rest)),
        Err(e) => Err(e),
    }
}

} // verus!
