//! RPM: revolutions.
//!
//! ```text
//!        1 2 3   4   5
//!        | | |   |   |
//! $--RPM,a,x,x.x,x.x,A*hh<CR><LF>
//! ```
//! 1. Source, `S` for shaft, `E` for engine
//! 2. Engine or shaft number
//! 3. Speed, revolutions per minute
//! 4. Propeller pitch, % of maximum, negative for astern
//! 5. Status, `A` for valid, `V` for invalid

use vstd::prelude::*;
use vstd::string::StringSliceAdditionalSpecFns;
use crate::decimal::{
    decimal_of, is_decimal_literal, lemma_decimal_bytes, lemma_negative_literal, lemma_sign_kept, sign_len,
    small_int_of, Decimal,
    MINUS,
};
use crate::error::Error;
use crate::parse::{NmeaSentence, SentenceType, FIELD_SEPARATOR};
use crate::sentences::steps::{
    is_code, is_optional_token, is_status, lemma_code_step, lemma_decimal_step,
    lemma_separator_step, lemma_small_int_step, lemma_status_step, no_separator, optional_token,
};
use crate::sentences::utils::{
    decimal_field, opt_one_of, or_failure, parse_valid_status, rest, separator, small_int_field,
    spec_decimal_field, spec_opt_one_of, spec_parse_valid_status, spec_separator,
    spec_small_int_field, value, CODE_VALID,
};

verus! {

pub const CODE_SHAFT: u8 = 83;

pub const CODE_ENGINE: u8 = 69;

/// What a revolution rate was measured on.
#[derive(Debug, Clone, Copy, PartialEq, Eq, Structural)]
pub enum RpmSource {
    Shaft,
    Engine,
}

#[derive(Debug, Clone, Copy, PartialEq, Eq)]
pub struct RpmData {
    /// Source of the reading.
    pub source: Option<RpmSource>,
    /// Engine or shaft number, counted from the centre line: odd for
    /// starboard, even for port, 0 for a single one or one on the centre line.
    pub engine_or_shaft_number: Option<i8>,
    /// Speed in revolutions per minute. Negative for a counter-clockwise
    /// rotation.
    pub speed: Option<Decimal>,
    /// Propeller pitch in percent of the maximum. Negative for a pitch
    /// towards astern.
    pub propeller_pitch: Option<Decimal>,
    /// Whether the reading is valid.
    pub valid: bool,
}

/// The source that a source code stands for.
pub open spec fn spec_source(code: Option<u8>) -> Option<RpmSource> {
    match code {
        Some(c) => Some(
            if c == CODE_SHAFT {
                RpmSource::Shaft
            } else {
                RpmSource::Engine
            },
        ),
        None => None,
    }
}

/// What the body of an RPM sentence decodes to: the record, or the error of
/// the first field or separator that is malformed. What follows the last
/// field is not read.
pub open spec fn spec_rpm(body: Seq<u8>) -> Result<RpmData, Error> {
    let source = spec_opt_one_of(body, seq![CODE_SHAFT, CODE_ENGINE]);
    let sep1 = spec_separator(source.1);
    let number = spec_small_int_field(rest(sep1));
    let sep2 = spec_separator(rest(number));
    let speed = spec_decimal_field(rest(sep2));
    let sep3 = spec_separator(rest(speed));
    let pitch = spec_decimal_field(rest(sep3));
    let sep4 = spec_separator(rest(pitch));
    let valid = spec_parse_valid_status(rest(sep4));
    let e1 = or_failure(None, sep1);
    let e2 = or_failure(e1, number);
    let e3 = or_failure(e2, sep2);
    let e4 = or_failure(e3, speed);
    let e5 = or_failure(e4, sep3);
    let e6 = or_failure(e5, pitch);
    let e7 = or_failure(e6, sep4);
    let e8 = or_failure(e7, valid);
    match e8 {
        Some(e) => Err(e),
        None => Ok(
            RpmData {
                source: spec_source(source.0),
                engine_or_shaft_number: value(number),
                speed: value(speed),
                propeller_pitch: value(pitch),
                valid: value(valid),
            },
        ),
    }
}

/// What a framed sentence decodes to as an RPM sentence: a sentence of
/// another type is refused before any field is read.
pub open spec fn spec_parse_rpm(message_id: SentenceType, body: Seq<u8>) -> Result<
    RpmData,
    Error,
> {
    if message_id != SentenceType::RPM {
        Err(Error::WrongSentenceHeader { expected: SentenceType::RPM, found: message_id })
    } else {
        spec_rpm(body)
    }
}

/// Decoding the same sentence twice gives the same record or the same
/// error.
pub proof fn lemma_parse_rpm_repeatable(
    message_id: SentenceType,
    body: Seq<u8>,
    first: Result<RpmData, Error>,
    second: Result<RpmData, Error>,
)
    requires
        first == spec_parse_rpm(message_id, body),
        second == spec_parse_rpm(message_id, body),
    ensures
        first == second,
{
}

/// The bytes of a source field: one code, or nothing.
pub open spec fn source_bytes(source: Option<u8>) -> Seq<u8> {
    match source {
        Some(code) => seq![code],
        None => Seq::empty(),
    }
}

/// The body of an RPM sentence that is made of the given fields, with
/// `tail` after the last of them.
pub open spec fn rpm_body(
    source: Option<u8>,
    number: Seq<u8>,
    speed: Seq<u8>,
    pitch: Seq<u8>,
    valid: u8,
    tail: Seq<u8>,
) -> Seq<u8> {
    source_bytes(source) + seq![FIELD_SEPARATOR] + number + seq![FIELD_SEPARATOR] + speed + seq![
        FIELD_SEPARATOR,
    ] + pitch + seq![FIELD_SEPARATOR, valid] + tail
}

/// A body decodes exactly where the source is empty or one of `S` and `E`,
/// the number is empty or a small integer, speed and pitch are each empty or
/// a decimal, and the status is `A` or `V`. The record then holds what the
/// fields write: an empty field is absent, and a code outside its set is
/// never accepted.
pub proof fn lemma_rpm_of_fields(
    source: Option<u8>,
    number: Seq<u8>,
    speed: Seq<u8>,
    pitch: Seq<u8>,
    valid: u8,
    tail: Seq<u8>,
)
    requires
        source != Some(FIELD_SEPARATOR),
        no_separator(number),
        no_separator(speed),
        no_separator(pitch),
    ensures
        spec_rpm(rpm_body(source, number, speed, pitch, valid, tail)) is Ok <==> {
            &&& source matches Some(code) ==> is_code(code, CODE_SHAFT, CODE_ENGINE)
            &&& is_optional_token(number, small_int_of(number))
            &&& is_optional_token(speed, decimal_of(speed))
            &&& is_optional_token(pitch, decimal_of(pitch))
            &&& is_status(valid)
        },
        spec_rpm(rpm_body(source, number, speed, pitch, valid, tail)) is Ok ==> spec_rpm(
            rpm_body(source, number, speed, pitch, valid, tail),
        ) == Ok::<RpmData, Error>(
            RpmData {
                source: spec_source(source),
                engine_or_shaft_number: optional_token(number, small_int_of(number)),
                speed: optional_token(speed, decimal_of(speed)),
                propeller_pitch: optional_token(pitch, decimal_of(pitch)),
                valid: valid == CODE_VALID,
            },
        ),
{
    let s9 = seq![valid] + tail;
    let s8 = seq![FIELD_SEPARATOR] + s9;
    let s7 = pitch + s8;
    let s6 = seq![FIELD_SEPARATOR] + s7;
    let s5 = speed + s6;
    let s4 = seq![FIELD_SEPARATOR] + s5;
    let s3 = number + s4;
    let s2 = seq![FIELD_SEPARATOR] + s3;
    let s1 = source_bytes(source) + s2;
    let body = rpm_body(source, number, speed, pitch, valid, tail);
    assert(body == s1) by {
        assert(body =~= s1);
    }

    // Each step, as `spec_rpm` takes it, and whether all steps up to it
    // went well.
    let source_step = spec_opt_one_of(body, seq![CODE_SHAFT, CODE_ENGINE]);
    let sep1 = spec_separator(source_step.1);
    let ok1 = source matches Some(code) ==> is_code(code, CODE_SHAFT, CODE_ENGINE);
    assert(ok1 ==> source_step == (source, s2) && sep1 == Ok::<((), Seq<u8>), Error>(((), s3)))
        by {
        match source {
            Some(code) => {
                lemma_code_step(code, s2, CODE_SHAFT, CODE_ENGINE);
            },
            None => {
                assert(s1 =~= s2);
                lemma_code_step(FIELD_SEPARATOR, s3, CODE_SHAFT, CODE_ENGINE);
            },
        }
        lemma_separator_step(s3);
    }
    assert(!ok1 ==> sep1 is Err) by {
        if source is Some {
            lemma_code_step(source->Some_0, s2, CODE_SHAFT, CODE_ENGINE);
            assert(s1[0] == source->Some_0);
        }
    }
    let number_step = spec_small_int_field(rest(sep1));
    let ok2 = ok1 && is_optional_token(number, small_int_of(number));
    assert(ok2 ==> number_step == Ok::<(Option<i8>, Seq<u8>), Error>(
        (optional_token(number, small_int_of(number)), s4),
    )) by {
        lemma_small_int_step(number, s4);
    }
    assert(ok1 && !ok2 ==> number_step is Err) by {
        lemma_small_int_step(number, s4);
    }
    let sep2 = spec_separator(rest(number_step));
    assert(ok2 ==> sep2 == Ok::<((), Seq<u8>), Error>(((), s5))) by {
        lemma_separator_step(s5);
    }
    let speed_step = spec_decimal_field(rest(sep2));
    let ok3 = ok2 && is_optional_token(speed, decimal_of(speed));
    assert(ok3 ==> speed_step == Ok::<(Option<Decimal>, Seq<u8>), Error>(
        (optional_token(speed, decimal_of(speed)), s6),
    )) by {
        lemma_decimal_step(speed, s6);
    }
    assert(ok2 && !ok3 ==> speed_step is Err) by {
        lemma_decimal_step(speed, s6);
    }
    let sep3 = spec_separator(rest(speed_step));
    assert(ok3 ==> sep3 == Ok::<((), Seq<u8>), Error>(((), s7))) by {
        lemma_separator_step(s7);
    }
    let pitch_step = spec_decimal_field(rest(sep3));
    let ok4 = ok3 && is_optional_token(pitch, decimal_of(pitch));
    assert(ok4 ==> pitch_step == Ok::<(Option<Decimal>, Seq<u8>), Error>(
        (optional_token(pitch, decimal_of(pitch)), s8),
    )) by {
        lemma_decimal_step(pitch, s8);
    }
    assert(ok3 && !ok4 ==> pitch_step is Err) by {
        lemma_decimal_step(pitch, s8);
    }
    let sep4 = spec_separator(rest(pitch_step));
    assert(ok4 ==> sep4 == Ok::<((), Seq<u8>), Error>(((), s9))) by {
        lemma_separator_step(s9);
    }
    let valid_step = spec_parse_valid_status(rest(sep4));
    let ok5 = ok4 && is_status(valid);
    assert(ok5 ==> valid_step == Ok::<(bool, Seq<u8>), Error>((valid == CODE_VALID, tail))) by {
        lemma_status_step(valid, tail);
    }
    assert(ok4 && !ok5 ==> valid_step is Err) by {
        lemma_status_step(valid, tail);
    }

    // The error of the earliest step that failed, as `spec_rpm` finds it.
    let e1 = or_failure(None, sep1);
    assert(e1 is None <==> ok1);
    let e2 = or_failure(e1, number_step);
    let e3 = or_failure(e2, sep2);
    assert(e3 is None <==> ok2);
    let e4 = or_failure(e3, speed_step);
    let e5 = or_failure(e4, sep3);
    assert(e5 is None <==> ok3);
    let e6 = or_failure(e5, pitch_step);
    let e7 = or_failure(e6, sep4);
    assert(e7 is None <==> ok4);
    let e8 = or_failure(e7, valid_step);
    assert(e8 is None <==> ok5);
    assert(spec_rpm(body) is Ok <==> e8 is None);
}

/// Speed and propeller pitch keep their sign: in every body that decodes, a
/// reading that is present is negative exactly where its field starts with
/// a minus sign.
pub proof fn lemma_rpm_signs_kept(
    source: Option<u8>,
    number: Seq<u8>,
    speed: Seq<u8>,
    pitch: Seq<u8>,
    valid: u8,
    tail: Seq<u8>,
)
    requires
        source != Some(FIELD_SEPARATOR),
        no_separator(number),
        no_separator(speed),
        no_separator(pitch),
        spec_rpm(rpm_body(source, number, speed, pitch, valid, tail)) is Ok,
    ensures
        spec_rpm(rpm_body(source, number, speed, pitch, valid, tail))->Ok_0.speed matches Some(
            reading,
        ) ==> (reading.negative <==> speed[0] == MINUS),
        spec_rpm(
            rpm_body(source, number, speed, pitch, valid, tail),
        )->Ok_0.propeller_pitch matches Some(reading) ==> (reading.negative <==> pitch[0]
            == MINUS),
{
    lemma_rpm_of_fields(source, number, speed, pitch, valid, tail);
    if speed.len() > 0 {
        lemma_sign_kept(speed);
    }
    if pitch.len() > 0 {
        lemma_sign_kept(pitch);
    }
}

/// Speed and propeller pitch take a minus sign and keep it: every unsigned
/// decimal literal, of any number of digits, is accepted with a minus sign
/// before it, and the reading then has the same digits and is negative.
pub proof fn lemma_rpm_negative_readings(
    source: Option<u8>,
    number: Seq<u8>,
    speed: Seq<u8>,
    pitch: Seq<u8>,
    valid: u8,
    tail: Seq<u8>,
)
    requires
        source matches Some(code) ==> is_code(code, CODE_SHAFT, CODE_ENGINE),
        no_separator(number),
        is_optional_token(number, small_int_of(number)),
        is_decimal_literal(speed),
        sign_len(speed) == 0,
        is_decimal_literal(pitch),
        sign_len(pitch) == 0,
        is_status(valid),
    ensures
        spec_rpm(
            rpm_body(source, number, seq![MINUS] + speed, seq![MINUS] + pitch, valid, tail),
        ) == Ok::<RpmData, Error>(
            RpmData {
                source: spec_source(source),
                engine_or_shaft_number: optional_token(number, small_int_of(number)),
                speed: Some(
                    Decimal {
                        negative: true,
                        digits: decimal_of(speed)->Some_0.digits,
                        scale: decimal_of(speed)->Some_0.scale,
                        dropped: decimal_of(speed)->Some_0.dropped,
                        exponent: decimal_of(speed)->Some_0.exponent,
                    },
                ),
                propeller_pitch: Some(
                    Decimal {
                        negative: true,
                        digits: decimal_of(pitch)->Some_0.digits,
                        scale: decimal_of(pitch)->Some_0.scale,
                        dropped: decimal_of(pitch)->Some_0.dropped,
                        exponent: decimal_of(pitch)->Some_0.exponent,
                    },
                ),
                valid: valid == CODE_VALID,
            },
        ),
{
    lemma_negative_literal(speed);
    lemma_negative_literal(pitch);
    lemma_decimal_bytes(seq![MINUS] + speed);
    lemma_decimal_bytes(seq![MINUS] + pitch);
    lemma_rpm_of_fields(source, number, seq![MINUS] + speed, seq![MINUS] + pitch, valid, tail);
}

/// Decodes an RPM sentence.
pub fn parse_rpm(sentence: NmeaSentence) -> (r: Result<RpmData, Error>)
    ensures
        r == spec_parse_rpm(sentence.message_id, sentence.data.spec_bytes()),
        sentence.message_id != SentenceType::RPM ==> r == Err::<RpmData, Error>(
            Error::WrongSentenceHeader { expected: SentenceType::RPM, found: sentence.message_id },
        ),
{
    if sentence.message_id != SentenceType::RPM {
        Err(Error::WrongSentenceHeader { expected: SentenceType::RPM, found: sentence.message_id })
    } else {
        do_parse_rpm(sentence.data)
    }
}

/// Decodes the body of an RPM sentence.
pub fn do_parse_rpm(i: &str) -> (r: Result<RpmData, Error>)
    ensures
        r == spec_rpm(i.spec_bytes()),
{
    let sources = [CODE_SHAFT, CODE_ENGINE];
    let (source_code, i) = opt_one_of(i, &sources);
    let (_, i) = separator(i)?;
    let source = match source_code {
        Some(code) => Some(
            if code == CODE_SHAFT {
                RpmSource::Shaft
            } else {
                RpmSource::Engine
            },
        ),
        None => None,
    };
    let (engine_or_shaft_number, i) = small_int_field(i)?;
    let (_, i) = separator(i)?;
    let (speed, i) = decimal_field(i)?;
    let (_, i) = separator(i)?;
    let (propeller_pitch, i) = decimal_field(i)?;
    let (_, i) = separator(i)?;
    let (valid, _) = parse_valid_status(i)?;
    Ok(RpmData { source, engine_or_shaft_number, speed, propeller_pitch, valid })
}

} // verus!
