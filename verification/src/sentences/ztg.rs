//! ZTG: UTC and time to the destination waypoint.
//!
//! ```text
//!        1         2         3
//!        |         |         |
//! $--ZTG,hhmmss.ss,hhmmss.ss,c--c*hh<CR><LF>
//! ```
//! 1. UTC of the observation: hours, minutes, seconds
//! 2. Time remaining
//! 3. Destination waypoint id: all that is left, up to the checksum marker

use vstd::prelude::*;
use vstd::string::StringSliceAdditionalSpecFns;
use arrayvec::ArrayString;
use chrono::{NaiveTime, TimeDelta};
use crate::error::Error;
use crate::parse::{
    NmeaSentence, SentenceType, CHECKSUM_MARKER, FIELD_SEPARATOR, TEXT_PARAMETER_MAX_LEN,
};
use crate::sentences::steps::{
    is_optional_token, lemma_duration_step, lemma_separator_step, lemma_text_step, lemma_time_step,
    no_separator, no_text_stop, optional_token,
};
use crate::sentences::utils::{
    duration_field, or_failure, rest, separator, spec_duration_field, spec_separator,
    spec_text_field, spec_time_field, text_field, time_field, value,
};
use crate::text::array_string_bytes;
use crate::time::{duration_of, time_of};

verus! {

#[derive(Debug, PartialEq, Eq)]
pub struct ZtgData {
    /// UTC of the observation.
    pub fix_time: Option<NaiveTime>,
    /// Time that remains to the destination.
    pub fix_duration: Option<TimeDelta>,
    /// Name of the destination waypoint.
    pub waypoint_id: Option<ArrayString<TEXT_PARAMETER_MAX_LEN>>,
}

/// A ZTG record with the bytes of its text in place of the text value.
pub struct ZtgView {
    pub fix_time: Option<NaiveTime>,
    pub fix_duration: Option<TimeDelta>,
    pub waypoint_id: Option<Seq<u8>>,
}

impl View for ZtgData {
    type V = ZtgView;

    open spec fn view(&self) -> ZtgView {
        ZtgView {
            fix_time: self.fix_time,
            fix_duration: self.fix_duration,
            waypoint_id: match self.waypoint_id {
                Some(text) => Some(array_string_bytes(text)),
                None => None,
            },
        }
    }
}

/// What a decoder returned, with the record's view in place of the record.
pub open spec fn ztg_view(r: Result<ZtgData, Error>) -> Result<ZtgView, Error> {
    match r {
        Ok(data) => Ok(data@),
        Err(e) => Err(e),
    }
}

/// What the body of a ZTG sentence decodes to: the record, or the error of
/// the first field or separator that is malformed. The waypoint id is the
/// last field: it is all that follows the second separator, up to the
/// checksum marker, separators included.
pub open spec fn spec_ztg(body: Seq<u8>) -> Result<ZtgView, Error> {
    let time = spec_time_field(body);
    let sep1 = spec_separator(rest(time));
    let duration = spec_duration_field(rest(sep1));
    let sep2 = spec_separator(rest(duration));
    let waypoint = spec_text_field(rest(sep2), false);
    let e1 = or_failure(None, time);
    let e2 = or_failure(e1, sep1);
    let e3 = or_failure(e2, duration);
    let e4 = or_failure(e3, sep2);
    let e5 = or_failure(e4, waypoint);
    match e5 {
        Some(e) => Err(e),
        None => Ok(
            ZtgView {
                fix_time: value(time),
                fix_duration: value(duration),
                waypoint_id: value(waypoint),
            },
        ),
    }
}

/// What a framed sentence decodes to as a ZTG sentence: a sentence of
/// another type is refused before any field is read.
pub open spec fn spec_parse_ztg(message_id: SentenceType, body: Seq<u8>) -> Result<
    ZtgView,
    Error,
> {
    if message_id != SentenceType::ZTG {
        Err(Error::WrongSentenceHeader { expected: SentenceType::ZTG, found: message_id })
    } else {
        spec_ztg(body)
    }
}

/// Decoding the same sentence twice gives records that are equal field by
/// field, or the same error.
pub proof fn lemma_parse_ztg_repeatable(
    message_id: SentenceType,
    body: Seq<u8>,
    first: Result<ZtgData, Error>,
    second: Result<ZtgData, Error>,
)
    requires
        ztg_view(first) == spec_parse_ztg(message_id, body),
        ztg_view(second) == spec_parse_ztg(message_id, body),
    ensures
        ztg_view(first) == ztg_view(second),
{
}

/// The body of a ZTG sentence that is made of the given fields, with
/// `tail` after the last of them.
pub open spec fn ztg_body(
    time: Seq<u8>,
    duration: Seq<u8>,
    waypoint: Seq<u8>,
    tail: Seq<u8>,
) -> Seq<u8> {
    time + seq![FIELD_SEPARATOR] + duration + seq![FIELD_SEPARATOR] + waypoint + tail
}

/// The text that a waypoint field holds: none where the field is empty.
pub open spec fn optional_text(waypoint: Seq<u8>) -> Option<Seq<u8>> {
    if waypoint.len() == 0 {
        None
    } else {
        Some(waypoint)
    }
}

/// A body decodes exactly where the time is empty or a time of day, the
/// duration is empty or a duration, and the waypoint id is no longer than
/// `TEXT_PARAMETER_MAX_LEN` bytes. The record then holds what the fields
/// write, and an empty field is absent. Where only the waypoint id is at
/// fault, the error holds the maximum and the id's length.
pub proof fn lemma_ztg_of_fields(
    time: Seq<u8>,
    duration: Seq<u8>,
    waypoint: Seq<u8>,
    tail: Seq<u8>,
)
    requires
        no_separator(time),
        no_separator(duration),
        no_text_stop(waypoint, false),
        tail.len() == 0 || tail[0] == CHECKSUM_MARKER,
    ensures
        spec_ztg(ztg_body(time, duration, waypoint, tail)) is Ok <==> {
            &&& is_optional_token(time, time_of(time))
            &&& is_optional_token(duration, duration_of(duration))
            &&& waypoint.len() <= TEXT_PARAMETER_MAX_LEN
        },
        spec_ztg(ztg_body(time, duration, waypoint, tail)) is Ok ==> spec_ztg(
            ztg_body(time, duration, waypoint, tail),
        ) == Ok::<ZtgView, Error>(
            ZtgView {
                fix_time: optional_token(time, time_of(time)),
                fix_duration: optional_token(duration, duration_of(duration)),
                waypoint_id: optional_text(waypoint),
            },
        ),
        is_optional_token(time, time_of(time)) && is_optional_token(duration, duration_of(duration))
            && waypoint.len() > TEXT_PARAMETER_MAX_LEN ==> spec_ztg(
            ztg_body(time, duration, waypoint, tail),
        ) == Err::<ZtgView, Error>(
            Error::ParameterLength {
                max_length: TEXT_PARAMETER_MAX_LEN,
                parameter_length: waypoint.len() as usize,
            },
        ),
{
    let s5 = waypoint + tail;
    let s4 = seq![FIELD_SEPARATOR] + s5;
    let s3 = duration + s4;
    let s2 = seq![FIELD_SEPARATOR] + s3;
    let s1 = time + s2;
    assert(ztg_body(time, duration, waypoint, tail) =~= s1);
    lemma_time_step(time, s2);
    lemma_separator_step(s3);
    lemma_duration_step(duration, s4);
    lemma_separator_step(s5);
    lemma_text_step(waypoint, tail, false);
}

/// A body of empty fields decodes to a record without values, whatever
/// follows the checksum marker.
pub proof fn lemma_ztg_absent_fields(tail: Seq<u8>)
    requires
        tail.len() == 0 || tail[0] == CHECKSUM_MARKER,
    ensures
        spec_ztg(seq![FIELD_SEPARATOR, FIELD_SEPARATOR] + tail) == Ok::<ZtgView, Error>(
            ZtgView { fix_time: None, fix_duration: None, waypoint_id: None },
        ),
{
    let none = Seq::<u8>::empty();
    lemma_ztg_of_fields(none, none, none, tail);
}

/// Decodes the body of a ZTG sentence.
pub fn do_parse_ztg(i: &str) -> (r: Result<ZtgData, Error>)
    ensures
        ztg_view(r) == spec_ztg(i.spec_bytes()),
{
    let (fix_time, i) = time_field(i)?;
    let (_, i) = separator(i)?;
    let (fix_duration, i) = duration_field(i)?;
    let (_, i) = separator(i)?;
    let (waypoint_id, _) = text_field(i, false)?;
    Ok(ZtgData { fix_time, fix_duration, waypoint_id })
}

/// Decodes a ZTG sentence.
pub fn parse_ztg(sentence: NmeaSentence) -> (r: Result<ZtgData, Error>)
    ensures
        ztg_view(r) == spec_parse_ztg(sentence.message_id, sentence.data.spec_bytes()),
        sentence.message_id != SentenceType::ZTG ==> r == Err::<ZtgData, Error>(
            Error::WrongSentenceHeader { expected: SentenceType::ZTG, found: sentence.message_id },
        ),
{
    if sentence.message_id != SentenceType::ZTG {
        Err(Error::WrongSentenceHeader { expected: SentenceType::ZTG, found: sentence.message_id })
    } else {
        do_parse_ztg(sentence.data)
    }
}

} // verus!
