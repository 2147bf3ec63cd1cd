//! RSA: rudder sensor angle.
//!
//! ```text
//!        1   2 3   4
//!        |   | |   |
//! $--RSA,x.x,A,x.x,A*hh<CR><LF>
//! ```
//! 1. Starboard (or single) rudder sensor, negative for a turn to port
//! 2. Status, `A` for valid, `V` for invalid
//! 3. Port rudder sensor
//! 4. Status, `A` for valid, `V` for invalid

use vstd::prelude::*;
use vstd::string::StringSliceAdditionalSpecFns;
use crate::decimal::{decimal_of, Decimal};
use crate::error::Error;
use crate::parse::{NmeaSentence, SentenceType, FIELD_SEPARATOR};
use crate::sentences::steps::{
    is_optional_token, is_status, lemma_decimal_step, lemma_separator_step, lemma_status_step,
    no_separator, optional_token,
};
use crate::sentences::utils::{
    decimal_field, or_failure, parse_valid_status, rest, separator, spec_decimal_field,
    spec_parse_valid_status, spec_separator, value, CODE_VALID,
};

verus! {

#[derive(Debug, Clone, Copy, PartialEq, Eq)]
pub struct RsaData {
    /// Starboard (or single) rudder sensor. Negative for a turn to port. The
    /// number grows with the angle and need not be the angle itself.
    pub starboard_rudder_sensor: Option<Decimal>,
    /// Whether the starboard reading is valid.
    pub starboard_rudder_valid: bool,
    /// Port rudder sensor. Negative for a turn to port.
    pub port_rudder_sensor: Option<Decimal>,
    /// Whether the port reading is valid.
    pub port_rudder_valid: bool,
}

/// What the body of an RSA sentence decodes to: the record, or the error of
/// the first field or separator that is malformed. What follows the last
/// field is not read.
pub open spec fn spec_rsa(body: Seq<u8>) -> Result<RsaData, Error> {
    let starboard = spec_decimal_field(body);
    let sep1 = spec_separator(rest(starboard));
    let starboard_valid = spec_parse_valid_status(rest(sep1));
    let sep2 = spec_separator(rest(starboard_valid));
    let port = spec_decimal_field(rest(sep2));
    let sep3 = spec_separator(rest(port));
    let port_valid = spec_parse_valid_status(rest(sep3));
    let e1 = or_failure(None, starboard);
    let e2 = or_failure(e1, sep1);
    let e3 = or_failure(e2, starboard_valid);
    let e4 = or_failure(e3, sep2);
    let e5 = or_failure(e4, port);
    let e6 = or_failure(e5, sep3);
    let e7 = or_failure(e6, port_valid);
    match e7 {
        Some(e) => Err(e),
        None => Ok(
            RsaData {
                starboard_rudder_sensor: value(starboard),
                starboard_rudder_valid: value(starboard_valid),
                port_rudder_sensor: value(port),
                port_rudder_valid: value(port_valid),
            },
        ),
    }
}

/// What a framed sentence decodes to as an RSA sentence: a sentence of
/// another type is refused before any field is read.
pub open spec fn spec_parse_rsa(message_id: SentenceType, body: Seq<u8>) -> Result<
    RsaData,
    Error,
> {
    if message_id != SentenceType::RSA {
        Err(Error::WrongSentenceHeader { expected: SentenceType::RSA, found: message_id })
    } else {
        spec_rsa(body)
    }
}

/// The body of an RSA sentence that is made of the given fields, with
/// `tail` after the last of them.
pub open spec fn rsa_body(
    starboard: Seq<u8>,
    starboard_valid: u8,
    port: Seq<u8>,
    port_valid: u8,
    tail: Seq<u8>,
) -> Seq<u8> {
    starboard + seq![FIELD_SEPARATOR, starboard_valid, FIELD_SEPARATOR] + port + seq![
        FIELD_SEPARATOR,
        port_valid,
    ] + tail
}

/// A body decodes exactly where each sensor reading is empty or a decimal
/// and each status is `A` or `V`. The record then holds what the fields
/// write: an empty reading is absent, and a status outside its set is never
/// accepted.
pub proof fn lemma_rsa_of_fields(
    starboard: Seq<u8>,
    starboard_valid: u8,
    port: Seq<u8>,
    port_valid: u8,
    tail: Seq<u8>,
)
    requires
        no_separator(starboard),
        no_separator(port),
    ensures
        spec_rsa(rsa_body(starboard, starboard_valid, port, port_valid, tail)) is Ok <==> {
            &&& is_optional_token(starboard, decimal_of(starboard))
            &&& is_status(starboard_valid)
            &&& is_optional_token(port, decimal_of(port))
            &&& is_status(port_valid)
        },
        spec_rsa(rsa_body(starboard, starboard_valid, port, port_valid, tail)) is Ok ==> spec_rsa(
            rsa_body(starboard, starboard_valid, port, port_valid, tail),
        ) == Ok::<RsaData, Error>(
            RsaData {
                starboard_rudder_sensor: optional_token(starboard, decimal_of(starboard)),
                starboard_rudder_valid: starboard_valid == CODE_VALID,
                port_rudder_sensor: optional_token(port, decimal_of(port)),
                port_rudder_valid: port_valid == CODE_VALID,
            },
        ),
{
    let s7 = seq![port_valid] + tail;
    let s6 = seq![FIELD_SEPARATOR] + s7;
    let s5 = port + s6;
    let s4 = seq![FIELD_SEPARATOR] + s5;
    let s3 = seq![starboard_valid] + s4;
    let s2 = seq![FIELD_SEPARATOR] + s3;
    let s1 = starboard + s2;
    assert(rsa_body(starboard, starboard_valid, port, port_valid, tail) =~= s1);
    lemma_decimal_step(starboard, s2);
    lemma_separator_step(s3);
    lemma_status_step(starboard_valid, s4);
    lemma_separator_step(s5);
    lemma_decimal_step(port, s6);
    lemma_separator_step(s7);
    lemma_status_step(port_valid, tail);
}

/// Decoding the same sentence twice gives the same record or the same
/// error.
pub proof fn lemma_parse_rsa_repeatable(
    message_id: SentenceType,
    body: Seq<u8>,
    first: Result<RsaData, Error>,
    second: Result<RsaData, Error>,
)
    requires
        first == spec_parse_rsa(message_id, body),
        second == spec_parse_rsa(message_id, body),
    ensures
        first == second,
{
}

/// Decodes an RSA sentence.
pub fn parse_rsa(sentence: NmeaSentence) -> (r: Result<RsaData, Error>)
    ensures
        r == spec_parse_rsa(sentence.message_id, sentence.data.spec_bytes()),
        sentence.message_id != SentenceType::RSA ==> r == Err::<RsaData, Error>(
            Error::WrongSentenceHeader { expected: SentenceType::RSA, found: sentence.message_id },
        ),
{
    if sentence.message_id != SentenceType::RSA {
        Err(Error::WrongSentenceHeader { expected: SentenceType::RSA, found: sentence.message_id })
    } else {
        do_parse_rsa(sentence.data)
    }
}

/// Decodes the body of an RSA sentence.
pub fn do_parse_rsa(i: &str) -> (r: Result<RsaData, Error>)
    ensures
        r == spec_rsa(i.spec_bytes()),
{
    let (starboard_rudder_sensor, i) = decimal_field(i)?;
    let (_, i) = separator(i)?;
    let (starboard_rudder_valid, i) = parse_valid_status(i)?;
    let (_, i) = separator(i)?;
    let (port_rudder_sensor, i) = decimal_field(i)?;
    let (_, i) = separator(i)?;
    let (port_rudder_valid, _) = parse_valid_status(i)?;
    Ok(
        RsaData {
            starboard_rudder_sensor,
            starboard_rudder_valid,
            port_rudder_sensor,
            port_rudder_valid,
        },
    )
}

} // verus!
