//! What a field decodes to where it is written out before what follows it.
//!
//! A sentence body is its fields, written one after the other with
//! separators between them. The lemmas here say, for one field at the start
//! of such a body, what its decoder makes of it and what it leaves unread.
//! The laws of the sentence decoders are proved from them, step by step.

use vstd::prelude::*;
use chrono::{NaiveTime, TimeDelta};
use crate::decimal::{decimal_of, small_int_of, Decimal};
use crate::error::{Error, ParseErrorKind};
use crate::parse::{FIELD_SEPARATOR, TEXT_PARAMETER_MAX_LEN};
use crate::scan::lemma_run_len_is;
use crate::sentences::utils::{
    after_token, malformed, spec_decimal_field, spec_duration_field, spec_one_of,
    spec_optional, spec_parse_valid_status, spec_separator, spec_small_int_field,
    spec_text_field, spec_time_field, text_stops, token, CODE_INVALID, CODE_VALID,
};
use crate::time::{duration_of, time_of};

verus! {

/// What an optional field is read as from its token alone: `None` where
/// the token is empty, else what the token writes.
pub open spec fn optional_token<T>(token: Seq<u8>, value: Option<T>) -> Option<T> {
    if token.len() == 0 {
        None
    } else {
        value
    }
}

/// Whether an optional field can be read from its token: the token is empty
/// or writes a value.
pub open spec fn is_optional_token<T>(token: Seq<u8>, value: Option<T>) -> bool {
    token.len() == 0 || value is Some
}

/// Bytes that hold no separator.
pub open spec fn no_separator(bytes: Seq<u8>) -> bool {
    forall|j: int| 0 <= j < bytes.len() ==> #[trigger] bytes[j] != FIELD_SEPARATOR
}

/// Bytes that hold no byte that ends a text field.
pub open spec fn no_text_stop(bytes: Seq<u8>, stop_at_separator: bool) -> bool {
    forall|j: int|
        0 <= j < bytes.len() ==> !text_stops(stop_at_separator).contains(#[trigger] bytes[j])
}

/// Whether a byte is a status code.
pub open spec fn is_status(code: u8) -> bool {
    code == CODE_VALID || code == CODE_INVALID
}

/// Whether a byte is one of the two codes of a closed set.
pub open spec fn is_code(code: u8, first: u8, second: u8) -> bool {
    code < 0x80 && (code == first || code == second)
}

/// Where bytes without a separator stand before a separator or before the
/// end of the input, they are the input's token.
pub proof fn lemma_token_of_concat(head: Seq<u8>, tail: Seq<u8>)
    requires
        no_separator(head),
        tail.len() == 0 || tail[0] == FIELD_SEPARATOR,
    ensures
        token(head + tail) == head,
        after_token(head + tail) == tail,
{
    let input = head + tail;
    assert forall|j: int| 0 <= j < head.len() implies !set![FIELD_SEPARATOR].contains(
        #[trigger] input[j],
    ) by {}
    lemma_run_len_is(input, set![FIELD_SEPARATOR], head.len() as int);
}

/// A separator is read from before whatever follows it.
pub proof fn lemma_separator_step(tail: Seq<u8>)
    ensures
        spec_separator(seq![FIELD_SEPARATOR] + tail) == Ok::<((), Seq<u8>), Error>(((), tail)),
{
    assert((seq![FIELD_SEPARATOR] + tail).skip(1) =~= tail);
}

/// A code before whatever follows it is read where it is one of the two
/// codes of its set, and refused where it is not.
pub proof fn lemma_code_step(code: u8, tail: Seq<u8>, first: u8, second: u8)
    ensures
        spec_one_of(seq![code] + tail, seq![first, second]) == if is_code(code, first, second) {
            Ok::<(u8, Seq<u8>), Error>((code, tail))
        } else {
            Err::<(u8, Seq<u8>), Error>(malformed(ParseErrorKind::Code, seq![code] + tail))
        },
{
    let allowed = seq![first, second];
    assert((seq![code] + tail).skip(1) =~= tail);
    if code == first {
    } else if code == second {
    } else {
        assert forall|i: int| 0 <= i < allowed.len() implies allowed[i] != code by {}
    }
}

/// A status before whatever follows it is read where it is `A` or `V`, and
/// refused where it is not.
pub proof fn lemma_status_step(code: u8, tail: Seq<u8>)
    ensures
        spec_parse_valid_status(seq![code] + tail) == if is_status(code) {
            Ok::<(bool, Seq<u8>), Error>((code == CODE_VALID, tail))
        } else {
            Err::<(bool, Seq<u8>), Error>(malformed(ParseErrorKind::Code, seq![code] + tail))
        },
{
    lemma_code_step(code, tail, CODE_VALID, CODE_INVALID);
}

/// A token before a separator, or before the end of the input, is read as
/// an optional field: as what it writes where it is empty or writes a value,
/// and as an error where it does not.
pub proof fn lemma_token_step<T>(
    head: Seq<u8>,
    tail: Seq<u8>,
    value: Option<T>,
    kind: ParseErrorKind,
)
    requires
        no_separator(head),
        tail.len() == 0 || tail[0] == FIELD_SEPARATOR,
    ensures
        token(head + tail) == head,
        spec_optional(head + tail, value, kind) == if is_optional_token(head, value) {
            Ok::<(Option<T>, Seq<u8>), Error>((optional_token(head, value), tail))
        } else {
            Err::<(Option<T>, Seq<u8>), Error>(malformed(kind, head + tail))
        },
{
    lemma_token_of_concat(head, tail);
}

/// An optional decimal before a separator, or before the end of the input.
pub proof fn lemma_decimal_step(head: Seq<u8>, tail: Seq<u8>)
    requires
        no_separator(head),
        tail.len() == 0 || tail[0] == FIELD_SEPARATOR,
    ensures
        spec_decimal_field(head + tail) == if is_optional_token(head, decimal_of(head)) {
            Ok::<(Option<Decimal>, Seq<u8>), Error>(
                (optional_token(head, decimal_of(head)), tail),
            )
        } else {
            Err::<(Option<Decimal>, Seq<u8>), Error>(
                malformed(ParseErrorKind::Number, head + tail),
            )
        },
{
    lemma_token_step(head, tail, decimal_of(head), ParseErrorKind::Number);
}

/// An optional small integer before a separator, or before the end of the
/// input.
pub proof fn lemma_small_int_step(head: Seq<u8>, tail: Seq<u8>)
    requires
        no_separator(head),
        tail.len() == 0 || tail[0] == FIELD_SEPARATOR,
    ensures
        spec_small_int_field(head + tail) == if is_optional_token(head, small_int_of(head)) {
            Ok::<(Option<i8>, Seq<u8>), Error>((optional_token(head, small_int_of(head)), tail))
        } else {
            Err::<(Option<i8>, Seq<u8>), Error>(malformed(ParseErrorKind::Number, head + tail))
        },
{
    lemma_token_step(head, tail, small_int_of(head), ParseErrorKind::Number);
}

/// An optional time of day before a separator, or before the end of the
/// input.
pub proof fn lemma_time_step(head: Seq<u8>, tail: Seq<u8>)
    requires
        no_separator(head),
        tail.len() == 0 || tail[0] == FIELD_SEPARATOR,
    ensures
        spec_time_field(head + tail) == if is_optional_token(head, time_of(head)) {
            Ok::<(Option<NaiveTime>, Seq<u8>), Error>((optional_token(head, time_of(head)), tail))
        } else {
            Err::<(Option<NaiveTime>, Seq<u8>), Error>(
                malformed(ParseErrorKind::Time, head + tail),
            )
        },
{
    lemma_token_step(head, tail, time_of(head), ParseErrorKind::Time);
}

/// An optional duration before a separator, or before the end of the input.
pub proof fn lemma_duration_step(head: Seq<u8>, tail: Seq<u8>)
    requires
        no_separator(head),
        tail.len() == 0 || tail[0] == FIELD_SEPARATOR,
    ensures
        spec_duration_field(head + tail) == if is_optional_token(head, duration_of(head)) {
            Ok::<(Option<TimeDelta>, Seq<u8>), Error>(
                (optional_token(head, duration_of(head)), tail),
            )
        } else {
            Err::<(Option<TimeDelta>, Seq<u8>), Error>(
                malformed(ParseErrorKind::Duration, head + tail),
            )
        },
{
    lemma_token_step(head, tail, duration_of(head), ParseErrorKind::Duration);
}

/// A text before a byte that ends it, or before the end of the input, is
/// absent where it is empty, kept where it is short enough, and refused
/// where it is too long.
pub proof fn lemma_text_step(head: Seq<u8>, tail: Seq<u8>, stop_at_separator: bool)
    requires
        no_text_stop(head, stop_at_separator),
        tail.len() == 0 || text_stops(stop_at_separator).contains(tail[0]),
    ensures
        spec_text_field(head + tail, stop_at_separator) == if head.len() == 0 {
            Ok::<(Option<Seq<u8>>, Seq<u8>), Error>((None, tail))
        } else if head.len() <= TEXT_PARAMETER_MAX_LEN {
            Ok::<(Option<Seq<u8>>, Seq<u8>), Error>((Some(head), tail))
        } else {
            Err::<(Option<Seq<u8>>, Seq<u8>), Error>(
                Error::ParameterLength {
                    max_length: TEXT_PARAMETER_MAX_LEN,
                    parameter_length: head.len() as usize,
                },
            )
        },
{
    let input = head + tail;
    let stops = text_stops(stop_at_separator);
    assert forall|j: int| 0 <= j < head.len() implies !stops.contains(#[trigger] input[j]) by {}
    lemma_run_len_is(input, stops, head.len() as int);
    assert(input.take(head.len() as int) =~= head);
    assert(input.skip(head.len() as int) =~= tail);
}

} // verus!
