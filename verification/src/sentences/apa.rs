//! APA: autopilot sentence "A".
//!
//! ```text
//!        1 2  3   4 5 6 7  8  9 10
//!        | |  |   | | | |  |  | |
//! $--APA,A,A,x.xx,L,N,A,A,xxx,M,c---c*hh<CR><LF>
//! ```
//! 1. Status, `V` for a Loran-C blink or SNR warning, `A` for a general
//!    warning flag or other navigation systems when no reliable fix is at hand
//! 2. Status, `V` for a Loran-C cycle lock warning, `A` for OK or not used
//! 3. Cross track error magnitude
//! 4. Direction to steer, `L` or `R`
//! 5. Cross track units, `N` for nautical miles, `K` for kilometres
//! 6. Status, `A` for arrival circle entered, `V` for not entered
//! 7. Status, `A` for perpendicular passed at the waypoint, `V` for not passed
//! 8. Bearing from origin to destination
//! 9. `M` for magnetic, `T` for true
//! 10. Destination waypoint id

use vstd::prelude::*;
use vstd::string::StringSliceAdditionalSpecFns;
use arrayvec::ArrayString;
use crate::decimal::{decimal_of, Decimal};
use crate::error::Error;
use crate::parse::{
    NmeaSentence, SentenceType, CHECKSUM_MARKER, FIELD_SEPARATOR, TEXT_PARAMETER_MAX_LEN,
};
use crate::sentences::steps::{
    is_code, is_optional_token, is_status, lemma_code_step, lemma_decimal_step,
    lemma_separator_step, lemma_status_step, lemma_text_step, no_separator, no_text_stop,
    optional_token,
};
use crate::sentences::utils::{
    decimal_field, one_of, or_failure, parse_valid_status, rest, separator, spec_decimal_field,
    spec_one_of, spec_parse_valid_status, spec_separator, spec_text_field, text_field, value,
    CODE_VALID,
};
use crate::text::array_string_bytes;

verus! {

pub const CODE_LEFT: u8 = 76;

pub const CODE_RIGHT: u8 = 82;

pub const CODE_NAUTICAL_MILES: u8 = 78;

pub const CODE_KILOMETRES: u8 = 75;

pub const CODE_MAGNETIC: u8 = 77;

pub const CODE_TRUE: u8 = 84;

#[derive(Debug, PartialEq, Eq)]
pub struct ApaData {
    /// `false` for a Loran-C blink or SNR warning.
    pub status_warning: Option<bool>,
    /// `false` for a Loran-C cycle lock warning.
    pub status_cycle_warning: Option<bool>,
    pub cross_track_error_magnitude: Option<Decimal>,
    /// `true` to steer left, `false` to steer right.
    pub direction_steer: Option<bool>,
    /// `'N'` for nautical miles, `'K'` for kilometres.
    pub cross_track_units: Option<char>,
    /// Whether the arrival circle was entered.
    pub status_arrived: Option<bool>,
    /// Whether the perpendicular was passed at the waypoint.
    pub status_passed: Option<bool>,
    pub bearing_origin_destination: Option<Decimal>,
    /// `'M'` for a magnetic bearing, `'T'` for a true one.
    pub magnetic_true: Option<char>,
    pub waypoint_id: Option<ArrayString<TEXT_PARAMETER_MAX_LEN>>,
}

/// An APA record with the bytes of its text in place of the text value.
pub struct ApaView {
    pub status_warning: Option<bool>,
    pub status_cycle_warning: Option<bool>,
    pub cross_track_error_magnitude: Option<Decimal>,
    pub direction_steer: Option<bool>,
    pub cross_track_units: Option<char>,
    pub status_arrived: Option<bool>,
    pub status_passed: Option<bool>,
    pub bearing_origin_destination: Option<Decimal>,
    pub magnetic_true: Option<char>,
    pub waypoint_id: Option<Seq<u8>>,
}

impl View for ApaData {
    type V = ApaView;

    open spec fn view(&self) -> ApaView {
        ApaView {
            status_warning: self.status_warning,
            status_cycle_warning: self.status_cycle_warning,
            cross_track_error_magnitude: self.cross_track_error_magnitude,
            direction_steer: self.direction_steer,
            cross_track_units: self.cross_track_units,
            status_arrived: self.status_arrived,
            status_passed: self.status_passed,
            bearing_origin_destination: self.bearing_origin_destination,
            magnetic_true: self.magnetic_true,
            waypoint_id: match self.waypoint_id {
                Some(text) => Some(array_string_bytes(text)),
                None => None,
            },
        }
    }
}

/// What a decoder returned, with the record's view in place of the record.
pub open spec fn apa_view(r: Result<ApaData, Error>) -> Result<ApaView, Error> {
    match r {
        Ok(data) => Ok(data@),
        Err(e) => Err(e),
    }
}

/// What the body of an APA sentence decodes to: the record, or the error of
/// the first field or separator that is malformed. The waypoint id is all
/// that follows the ninth separator, up to the checksum marker.
pub open spec fn spec_apa(body: Seq<u8>) -> Result<ApaView, Error> {
    let warning = spec_parse_valid_status(body);
    let sep1 = spec_separator(rest(warning));
    let cycle_warning = spec_parse_valid_status(rest(sep1));
    let sep2 = spec_separator(rest(cycle_warning));
    let magnitude = spec_decimal_field(rest(sep2));
    let sep3 = spec_separator(rest(magnitude));
    let steer = spec_one_of(rest(sep3), seq![CODE_LEFT, CODE_RIGHT]);
    let sep4 = spec_separator(rest(steer));
    let units = spec_one_of(rest(sep4), seq![CODE_NAUTICAL_MILES, CODE_KILOMETRES]);
    let sep5 = spec_separator(rest(units));
    let arrived = spec_parse_valid_status(rest(sep5));
    let sep6 = spec_separator(rest(arrived));
    let passed = spec_parse_valid_status(rest(sep6));
    let sep7 = spec_separator(rest(passed));
    let bearing = spec_decimal_field(rest(sep7));
    let sep8 = spec_separator(rest(bearing));
    let reference = spec_one_of(rest(sep8), seq![CODE_MAGNETIC, CODE_TRUE]);
    let sep9 = spec_separator(rest(reference));
    let waypoint = spec_text_field(rest(sep9), false);
    let e1 = or_failure(None, warning);
    let e2 = or_failure(e1, sep1);
    let e3 = or_failure(e2, cycle_warning);
    let e4 = or_failure(e3, sep2);
    let e5 = or_failure(e4, magnitude);
    let e6 = or_failure(e5, sep3);
    let e7 = or_failure(e6, steer);
    let e8 = or_failure(e7, sep4);
    let e9 = or_failure(e8, units);
    let e10 = or_failure(e9, sep5);
    let e11 = or_failure(e10, arrived);
    let e12 = or_failure(e11, sep6);
    let e13 = or_failure(e12, passed);
    let e14 = or_failure(e13, sep7);
    let e15 = or_failure(e14, bearing);
    let e16 = or_failure(e15, sep8);
    let e17 = or_failure(e16, reference);
    let e18 = or_failure(e17, sep9);
    let e19 = or_failure(e18, waypoint);
    match e19 {
        Some(e) => Err(e),
        None => Ok(
            ApaView {
                status_warning: Some(value(warning)),
                status_cycle_warning: Some(value(cycle_warning)),
                cross_track_error_magnitude: value(magnitude),
                direction_steer: Some(value(steer) == CODE_LEFT),
                cross_track_units: Some(value(units) as char),
                status_arrived: Some(value(arrived)),
                status_passed: Some(value(passed)),
                bearing_origin_destination: value(bearing),
                magnetic_true: Some(value(reference) as char),
                waypoint_id: value(waypoint),
            },
        ),
    }
}

/// What a framed sentence decodes to as an APA sentence: a sentence of
/// another type is refused before any field is read.
pub open spec fn spec_parse_apa(message_id: SentenceType, body: Seq<u8>) -> Result<
    ApaView,
    Error,
> {
    if message_id != SentenceType::APA {
        Err(Error::WrongSentenceHeader { expected: SentenceType::APA, found: message_id })
    } else {
        spec_apa(body)
    }
}

/// The fields of an APA sentence as they are written, in their order.
pub struct ApaFields {
    pub warning: u8,
    pub cycle_warning: u8,
    pub magnitude: Seq<u8>,
    pub steer: u8,
    pub units: u8,
    pub arrived: u8,
    pub passed: u8,
    pub bearing: Seq<u8>,
    pub reference: u8,
    pub waypoint: Seq<u8>,
}

/// The body of an APA sentence that is made of the given fields, with
/// `tail` after the last of them.
pub open spec fn apa_body(f: ApaFields, tail: Seq<u8>) -> Seq<u8> {
    seq![f.warning, FIELD_SEPARATOR, f.cycle_warning, FIELD_SEPARATOR] + f.magnitude + seq![
        FIELD_SEPARATOR,
        f.steer,
        FIELD_SEPARATOR,
        f.units,
        FIELD_SEPARATOR,
        f.arrived,
        FIELD_SEPARATOR,
        f.passed,
        FIELD_SEPARATOR,
    ] + f.bearing + seq![FIELD_SEPARATOR, f.reference, FIELD_SEPARATOR] + f.waypoint + tail
}

/// Whether every code is of its set and each number is empty or a decimal.
pub open spec fn apa_fields_ok(f: ApaFields) -> bool {
    &&& is_status(f.warning)
    &&& is_status(f.cycle_warning)
    &&& is_optional_token(f.magnitude, decimal_of(f.magnitude))
    &&& is_code(f.steer, CODE_LEFT, CODE_RIGHT)
    &&& is_code(f.units, CODE_NAUTICAL_MILES, CODE_KILOMETRES)
    &&& is_status(f.arrived)
    &&& is_status(f.passed)
    &&& is_optional_token(f.bearing, decimal_of(f.bearing))
    &&& is_code(f.reference, CODE_MAGNETIC, CODE_TRUE)
}

/// The record that the fields write.
pub open spec fn apa_of_fields(f: ApaFields) -> ApaView {
    ApaView {
        status_warning: Some(f.warning == CODE_VALID),
        status_cycle_warning: Some(f.cycle_warning == CODE_VALID),
        cross_track_error_magnitude: optional_token(f.magnitude, decimal_of(f.magnitude)),
        direction_steer: Some(f.steer == CODE_LEFT),
        cross_track_units: Some(f.units as char),
        status_arrived: Some(f.arrived == CODE_VALID),
        status_passed: Some(f.passed == CODE_VALID),
        bearing_origin_destination: optional_token(f.bearing, decimal_of(f.bearing)),
        magnetic_true: Some(f.reference as char),
        waypoint_id: if f.waypoint.len() == 0 {
            None
        } else {
            Some(f.waypoint)
        },
    }
}

/// A body decodes exactly where every code is of its set, each number is
/// empty or a decimal, and the waypoint id is no longer than
/// `TEXT_PARAMETER_MAX_LEN` bytes. The record then holds what the fields
/// write: an empty number or waypoint id is absent, and a code outside its
/// set is never accepted. Where only the waypoint id is at fault, the error
/// holds the maximum and the id's length.
#[verifier::rlimit(50)]
pub proof fn lemma_apa_of_fields(f: ApaFields, tail: Seq<u8>)
    requires
        no_separator(f.magnitude),
        no_separator(f.bearing),
        no_text_stop(f.waypoint, false),
        tail.len() == 0 || tail[0] == CHECKSUM_MARKER,
    ensures
        spec_apa(apa_body(f, tail)) is Ok <==> apa_fields_ok(f) && f.waypoint.len()
            <= TEXT_PARAMETER_MAX_LEN,
        spec_apa(apa_body(f, tail)) is Ok ==> spec_apa(apa_body(f, tail)) == Ok::<
            ApaView,
            Error,
        >(apa_of_fields(f)),
        apa_fields_ok(f) && f.waypoint.len() > TEXT_PARAMETER_MAX_LEN ==> spec_apa(
            apa_body(f, tail),
        ) == Err::<ApaView, Error>(
            Error::ParameterLength {
                max_length: TEXT_PARAMETER_MAX_LEN,
                parameter_length: f.waypoint.len() as usize,
            },
        ),
{
    let s19 = f.waypoint + tail;
    let s18 = seq![FIELD_SEPARATOR] + s19;
    let s17 = seq![f.reference] + s18;
    let s16 = seq![FIELD_SEPARATOR] + s17;
    let s15 = f.bearing + s16;
    let s14 = seq![FIELD_SEPARATOR] + s15;
    let s13 = seq![f.passed] + s14;
    let s12 = seq![FIELD_SEPARATOR] + s13;
    let s11 = seq![f.arrived] + s12;
    let s10 = seq![FIELD_SEPARATOR] + s11;
    let s9 = seq![f.units] + s10;
    let s8 = seq![FIELD_SEPARATOR] + s9;
    let s7 = seq![f.steer] + s8;
    let s6 = seq![FIELD_SEPARATOR] + s7;
    let s5 = f.magnitude + s6;
    let s4 = seq![FIELD_SEPARATOR] + s5;
    let s3 = seq![f.cycle_warning] + s4;
    let s2 = seq![FIELD_SEPARATOR] + s3;
    let s1 = seq![f.warning] + s2;
    let body = apa_body(f, tail);
    assert(body == s1) by {
        assert(body =~= s1);
    }

    // Each step, as `spec_apa` takes it, and whether all steps up to it
    // went well.
    let warning = spec_parse_valid_status(body);
    let ok1 = is_status(f.warning);
    assert(ok1 ==> warning == Ok::<(bool, Seq<u8>), Error>((f.warning == CODE_VALID, s2))) by {
        lemma_status_step(f.warning, s2);
    }
    assert(!ok1 ==> warning is Err) by {
        lemma_status_step(f.warning, s2);
    }
    let sep1 = spec_separator(rest(warning));
    assert(ok1 ==> sep1 == Ok::<((), Seq<u8>), Error>(((), s3))) by {
        lemma_separator_step(s3);
    }
    let cycle_warning = spec_parse_valid_status(rest(sep1));
    let ok2 = ok1 && is_status(f.cycle_warning);
    assert(ok2 ==> cycle_warning == Ok::<(bool, Seq<u8>), Error>(
        (f.cycle_warning == CODE_VALID, s4),
    )) by {
        lemma_status_step(f.cycle_warning, s4);
    }
    assert(ok1 && !ok2 ==> cycle_warning is Err) by {
        lemma_status_step(f.cycle_warning, s4);
    }
    let sep2 = spec_separator(rest(cycle_warning));
    assert(ok2 ==> sep2 == Ok::<((), Seq<u8>), Error>(((), s5))) by {
        lemma_separator_step(s5);
    }
    let magnitude = spec_decimal_field(rest(sep2));
    let ok3 = ok2 && is_optional_token(f.magnitude, decimal_of(f.magnitude));
    assert(ok3 ==> magnitude == Ok::<(Option<Decimal>, Seq<u8>), Error>(
        (optional_token(f.magnitude, decimal_of(f.magnitude)), s6),
    )) by {
        lemma_decimal_step(f.magnitude, s6);
    }
    assert(ok2 && !ok3 ==> magnitude is Err) by {
        lemma_decimal_step(f.magnitude, s6);
    }
    let sep3 = spec_separator(rest(magnitude));
    assert(ok3 ==> sep3 == Ok::<((), Seq<u8>), Error>(((), s7))) by {
        lemma_separator_step(s7);
    }
    let steer = spec_one_of(rest(sep3), seq![CODE_LEFT, CODE_RIGHT]);
    let ok4 = ok3 && is_code(f.steer, CODE_LEFT, CODE_RIGHT);
    assert(ok4 ==> steer == Ok::<(u8, Seq<u8>), Error>((f.steer, s8))) by {
        lemma_code_step(f.steer, s8, CODE_LEFT, CODE_RIGHT);
    }
    assert(ok3 && !ok4 ==> steer is Err) by {
        lemma_code_step(f.steer, s8, CODE_LEFT, CODE_RIGHT);
    }
    let sep4 = spec_separator(rest(steer));
    assert(ok4 ==> sep4 == Ok::<((), Seq<u8>), Error>(((), s9))) by {
        lemma_separator_step(s9);
    }
    let units = spec_one_of(rest(sep4), seq![CODE_NAUTICAL_MILES, CODE_KILOMETRES]);
    let ok5 = ok4 && is_code(f.units, CODE_NAUTICAL_MILES, CODE_KILOMETRES);
    assert(ok5 ==> units == Ok::<(u8, Seq<u8>), Error>((f.units, s10))) by {
        lemma_code_step(f.units, s10, CODE_NAUTICAL_MILES, CODE_KILOMETRES);
    }
    assert(ok4 && !ok5 ==> units is Err) by {
        lemma_code_step(f.units, s10, CODE_NAUTICAL_MILES, CODE_KILOMETRES);
    }
    let sep5 = spec_separator(rest(units));
    assert(ok5 ==> sep5 == Ok::<((), Seq<u8>), Error>(((), s11))) by {
        lemma_separator_step(s11);
    }
    let arrived = spec_parse_valid_status(rest(sep5));
    let ok6 = ok5 && is_status(f.arrived);
    assert(ok6 ==> arrived == Ok::<(bool, Seq<u8>), Error>((f.arrived == CODE_VALID, s12))) by {
        lemma_status_step(f.arrived, s12);
    }
    assert(ok5 && !ok6 ==> arrived is Err) by {
        lemma_status_step(f.arrived, s12);
    }
    let sep6 = spec_separator(rest(arrived));
    assert(ok6 ==> sep6 == Ok::<((), Seq<u8>), Error>(((), s13))) by {
        lemma_separator_step(s13);
    }
    let passed = spec_parse_valid_status(rest(sep6));
    let ok7 = ok6 && is_status(f.passed);
    assert(ok7 ==> passed == Ok::<(bool, Seq<u8>), Error>((f.passed == CODE_VALID, s14))) by {
        lemma_status_step(f.passed, s14);
    }
    assert(ok6 && !ok7 ==> passed is Err) by {
        lemma_status_step(f.passed, s14);
    }
    let sep7 = spec_separator(rest(passed));
    assert(ok7 ==> sep7 == Ok::<((), Seq<u8>), Error>(((), s15))) by {
        lemma_separator_step(s15);
    }
    let bearing = spec_decimal_field(rest(sep7));
    let ok8 = ok7 && is_optional_token(f.bearing, decimal_of(f.bearing));
    assert(ok8 ==> bearing == Ok::<(Option<Decimal>, Seq<u8>), Error>(
        (optional_token(f.bearing, decimal_of(f.bearing)), s16),
    )) by {
        lemma_decimal_step(f.bearing, s16);
    }
    assert(ok7 && !ok8 ==> bearing is Err) by {
        lemma_decimal_step(f.bearing, s16);
    }
    let sep8 = spec_separator(rest(bearing));
    assert(ok8 ==> sep8 == Ok::<((), Seq<u8>), Error>(((), s17))) by {
        lemma_separator_step(s17);
    }
    let reference = spec_one_of(rest(sep8), seq![CODE_MAGNETIC, CODE_TRUE]);
    let ok9 = ok8 && is_code(f.reference, CODE_MAGNETIC, CODE_TRUE);
    assert(ok9 ==> reference == Ok::<(u8, Seq<u8>), Error>((f.reference, s18))) by {
        lemma_code_step(f.reference, s18, CODE_MAGNETIC, CODE_TRUE);
    }
    assert(ok8 && !ok9 ==> reference is Err) by {
        lemma_code_step(f.reference, s18, CODE_MAGNETIC, CODE_TRUE);
    }
    let sep9 = spec_separator(rest(reference));
    assert(ok9 ==> sep9 == Ok::<((), Seq<u8>), Error>(((), s19))) by {
        lemma_separator_step(s19);
    }
    let waypoint = spec_text_field(rest(sep9), false);
    let ok10 = ok9 && f.waypoint.len() <= TEXT_PARAMETER_MAX_LEN;
    assert(ok10 ==> waypoint == Ok::<(Option<Seq<u8>>, Seq<u8>), Error>(
        (apa_of_fields(f).waypoint_id, tail),
    )) by {
        lemma_text_step(f.waypoint, tail, false);
    }
    assert(ok9 && !ok10 ==> waypoint == Err::<(Option<Seq<u8>>, Seq<u8>), Error>(
        Error::ParameterLength {
            max_length: TEXT_PARAMETER_MAX_LEN,
            parameter_length: f.waypoint.len() as usize,
        },
    )) by {
        lemma_text_step(f.waypoint, tail, false);
    }

    // The error of the earliest step that failed, as `spec_apa` finds it.
    let e1 = or_failure(None, warning);
    let e2 = or_failure(e1, sep1);
    assert(e2 is None <==> ok1);
    let e3 = or_failure(e2, cycle_warning);
    let e4 = or_failure(e3, sep2);
    assert(e4 is None <==> ok2);
    let e5 = or_failure(e4, magnitude);
    let e6 = or_failure(e5, sep3);
    assert(e6 is None <==> ok3);
    let e7 = or_failure(e6, steer);
    let e8 = or_failure(e7, sep4);
    assert(e8 is None <==> ok4);
    let e9 = or_failure(e8, units);
    let e10 = or_failure(e9, sep5);
    assert(e10 is None <==> ok5);
    let e11 = or_failure(e10, arrived);
    let e12 = or_failure(e11, sep6);
    assert(e12 is None <==> ok6);
    let e13 = or_failure(e12, passed);
    let e14 = or_failure(e13, sep7);
    assert(e14 is None <==> ok7);
    let e15 = or_failure(e14, bearing);
    let e16 = or_failure(e15, sep8);
    assert(e16 is None <==> ok8);
    let e17 = or_failure(e16, reference);
    let e18 = or_failure(e17, sep9);
    assert(e18 is None <==> ok9);
    let e19 = or_failure(e18, waypoint);
    assert(e19 is None <==> ok10);
    assert(ok9 <==> apa_fields_ok(f));
    assert(ok9 && !ok10 ==> e19 == Some(
        Error::ParameterLength {
            max_length: TEXT_PARAMETER_MAX_LEN,
            parameter_length: f.waypoint.len() as usize,
        },
    ));
    assert(spec_apa(body) is Ok <==> e19 is None);
}

/// Decoding the same sentence twice gives records that are equal field by
/// field, or the same error.
pub proof fn lemma_parse_apa_repeatable(
    message_id: SentenceType,
    body: Seq<u8>,
    first: Result<ApaData, Error>,
    second: Result<ApaData, Error>,
)
    requires
        apa_view(first) == spec_parse_apa(message_id, body),
        apa_view(second) == spec_parse_apa(message_id, body),
    ensures
        apa_view(first) == apa_view(second),
{
}

/// Decodes an APA sentence.
pub fn parse_apa(sentence: NmeaSentence) -> (r: Result<ApaData, Error>)
    ensures
        apa_view(r) == spec_parse_apa(sentence.message_id, sentence.data.spec_bytes()),
        sentence.message_id != SentenceType::APA ==> r == Err::<ApaData, Error>(
            Error::WrongSentenceHeader { expected: SentenceType::APA, found: sentence.message_id },
        ),
{
    if sentence.message_id != SentenceType::APA {
        Err(Error::WrongSentenceHeader { expected: SentenceType::APA, found: sentence.message_id })
    } else {
        do_parse_apa(sentence.data)
    }
}

/// Decodes the body of an APA sentence.
pub fn do_parse_apa(i: &str) -> (r: Result<ApaData, Error>)
    ensures
        apa_view(r) == spec_apa(i.spec_bytes()),
{
    let (status_warning, i) = parse_valid_status(i)?;
    let (_, i) = separator(i)?;

    let (status_cycle_warning, i) = parse_valid_status(i)?;
    let (_, i) = separator(i)?;

    let (cross_track_error_magnitude, i) = decimal_field(i)?;
    let (_, i) = separator(i)?;

    let directions = [CODE_LEFT, CODE_RIGHT];
    let (direction_steer, i) = one_of(i, &directions)?;
    let (_, i) = separator(i)?;

    let units = [CODE_NAUTICAL_MILES, CODE_KILOMETRES];
    let (cross_track_units, i) = one_of(i, &units)?;
    let (_, i) = separator(i)?;

    let (status_arrived, i) = parse_valid_status(i)?;
    let (_, i) = separator(i)?;

    let (status_passed, i) = parse_valid_status(i)?;
    let (_, i) = separator(i)?;

    let (bearing_origin_destination, i) = decimal_field(i)?;
    let (_, i) = separator(i)?;

    let references = [CODE_MAGNETIC, CODE_TRUE];
    let (magnetic_true, i) = one_of(i, &references)?;
    let (_, i) = separator(i)?;

    let (waypoint_id, _) = text_field(i, false)?;

    Ok(
        ApaData {
            status_warning: Some(status_warning),
            status_cycle_warning: Some(status_cycle_warning),
            cross_track_error_magnitude,
            direction_steer: Some(direction_steer == CODE_LEFT),
            cross_track_units: Some(cross_track_units as char),
            status_arrived: Some(status_arrived),
            status_passed: Some(status_passed),
            bearing_origin_destination,
            magnetic_true: Some(magnetic_true as char),
            waypoint_id,
        },
    )
}

} // verus!
