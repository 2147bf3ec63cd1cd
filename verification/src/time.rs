//! Times of day and durations, written `hhmmss.ss`.
//!
//! Both are six digits, then nothing, or a point and any number of digits.
//! A time of day has hours under 24; a duration can have any two digits of
//! hours. Minutes and seconds are under 60 in both.

use vstd::prelude::*;
use chrono::{NaiveTime, TimeDelta};
use crate::decimal::{
    all_digits, digit_value, digits_value, is_ascii_digit, is_digit, lemma_digits_value_push,
    POINT, ZERO,
};

verus! {

/// `chrono::NaiveTime`, a time of day. Nothing is known of what it holds.
#[verifier::external_type_specification]
#[verifier::external_body]
pub struct ExNaiveTime(NaiveTime);

/// `chrono::TimeDelta`, a duration, which chrono also calls `Duration`.
/// Nothing is known of what it holds.
#[verifier::external_type_specification]
#[verifier::external_body]
pub struct ExTimeDelta(TimeDelta);

/// The number of fraction digits that a time of day keeps: nanoseconds.
pub const NANO_PLACES: usize = 9;

/// The number of fraction digits that a duration keeps: milliseconds.
pub const MILLI_PLACES: usize = 3;

/// The fields that `NaiveTime::from_hms_nano_opt` accepts. A nanosecond
/// count of a full second or more stands for a leap second, and only the
/// last second of a minute can have one.
pub open spec fn is_time_of_day(hour: u32, min: u32, sec: u32, nano: u32) -> bool {
    &&& hour < 24
    &&& min < 60
    &&& sec < 60
    &&& (nano < 1_000_000_000 || (sec == 59 && nano < 2_000_000_000))
}

/// The time of day that `NaiveTime::from_hms_nano_opt` makes of fields that
/// it accepts.
pub uninterp spec fn time_from_hms_nano(hour: u32, min: u32, sec: u32, nano: u32) -> NaiveTime;

/// The duration that `TimeDelta::milliseconds` makes of a number of
/// milliseconds.
pub uninterp spec fn duration_from_milliseconds(milliseconds: i64) -> TimeDelta;

/// `NaiveTime::from_hms_nano_opt` returns a time of day for the fields that
/// `is_time_of_day` describes, and `None` for all others. The time depends
/// on the fields alone.
pub assume_specification[ NaiveTime::from_hms_nano_opt ](
    hour: u32,
    min: u32,
    sec: u32,
    nano: u32,
) -> (r: Option<NaiveTime>)
    ensures
        r is Some <==> is_time_of_day(hour, min, sec, nano),
        r is Some ==> r->Some_0 == time_from_hms_nano(hour, min, sec, nano),
;

/// `TimeDelta::milliseconds` makes a duration of any number of milliseconds
/// but `i64::MIN`, on which it panics. The duration depends on that number
/// alone.
pub assume_specification[ TimeDelta::milliseconds ](milliseconds: i64) -> (r: TimeDelta)
    requires
        milliseconds > i64::MIN,
    ensures
        r == duration_from_milliseconds(milliseconds),
;

/// The hours, minutes and whole seconds of a token, and the fraction of a
/// second in units of its last kept place.
#[derive(Debug, Clone, Copy, PartialEq, Eq, Structural)]
pub struct Hms {
    pub hours: u32,
    pub minutes: u32,
    pub seconds: u32,
    pub fraction: u32,
}

/// A token of the form `hhmmss`, `hhmmss.` or `hhmmss.s...`: six digits, then
/// nothing, or a point and any number of digits.
pub open spec fn is_hms(token: Seq<u8>) -> bool {
    &&& token.len() >= 6
    &&& all_digits(token.take(6))
    &&& (token.len() > 6 ==> token[6] == POINT && all_digits(token.skip(7)))
}

/// The number that the two digits at `at` write.
pub open spec fn two_digits(token: Seq<u8>, at: int) -> nat {
    digit_value(token[at]) * 10 + digit_value(token[at + 1])
}

/// The digits after the point; empty where there is no point.
pub open spec fn hms_fraction(token: Seq<u8>) -> Seq<u8> {
    if token.len() > 7 {
        token.skip(7)
    } else {
        Seq::empty()
    }
}

/// The first `places` digits, with zeros after them where there are fewer.
pub open spec fn padded(digits: Seq<u8>, places: nat) -> Seq<u8> {
    Seq::new(
        places,
        |i: int|
            if i < digits.len() {
                digits[i]
            } else {
                ZERO
            },
    )
}

/// The fraction `0.digits` in units of ten to the power minus `places`,
/// rounded to the nearest unit, a half upwards.
pub open spec fn fraction_units(digits: Seq<u8>, places: nat) -> nat {
    let kept = digits_value(padded(digits, places));
    if digits.len() > places && digit_value(digits[places as int]) >= 5 {
        kept + 1
    } else {
        kept
    }
}

/// The fields of a token; `None` where it is not of the form `hhmmss.ss`.
/// The fields are not yet held to any range.
pub open spec fn hms_of(token: Seq<u8>, places: nat) -> Option<Hms>
    recommends
        places <= 9,
{
    if is_hms(token) {
        Some(
            Hms {
                hours: two_digits(token, 0) as u32,
                minutes: two_digits(token, 2) as u32,
                seconds: two_digits(token, 4) as u32,
                fraction: fraction_units(hms_fraction(token), places) as u32,
            },
        )
    } else {
        None
    }
}

/// A token that writes a time of day.
pub open spec fn is_time_token(token: Seq<u8>) -> bool {
    hms_of(token, NANO_PLACES as nat) matches Some(f) && is_time_of_day(
        f.hours,
        f.minutes,
        f.seconds,
        f.fraction,
    )
}

/// The time of day that a token writes, to the nanosecond. A fraction that
/// rounds to a full second is kept as a leap second, which only the last
/// second of a minute can have.
pub open spec fn time_of(token: Seq<u8>) -> Option<NaiveTime> {
    if is_time_token(token) {
        let f = hms_of(token, NANO_PLACES as nat)->Some_0;
        Some(time_from_hms_nano(f.hours, f.minutes, f.seconds, f.fraction))
    } else {
        None
    }
}

/// A token that writes a duration: any two digits of hours, with minutes
/// and seconds under 60.
pub open spec fn is_duration_token(token: Seq<u8>) -> bool {
    hms_of(token, MILLI_PLACES as nat) matches Some(f) && f.minutes < 60 && f.seconds < 60
}

/// The length of a duration in milliseconds.
pub open spec fn total_milliseconds(f: Hms) -> int {
    ((f.hours * 60 + f.minutes) * 60 + f.seconds) * 1000 + f.fraction
}

/// The duration that a token writes, to the millisecond.
pub open spec fn duration_of(token: Seq<u8>) -> Option<TimeDelta> {
    if is_duration_token(token) {
        let f = hms_of(token, MILLI_PLACES as nat)->Some_0;
        Some(duration_from_milliseconds(total_milliseconds(f) as i64))
    } else {
        None
    }
}

pub open spec fn pow10(n: nat) -> nat
    decreases n,
{
    if n == 0 {
        1
    } else {
        10 * pow10((n - 1) as nat)
    }
}

/// Reads the number that the two bytes at `at` write, where both are digits.
fn two_digits_at(token: &[u8], at: usize) -> (r: Option<u32>)
    requires
        at + 2 <= token@.len(),
    ensures
        r is Some <==> is_digit(token@[at as int]) && is_digit(token@[at + 1]),
        r is Some ==> r->Some_0 == two_digits(token@, at as int),
        r is Some ==> r->Some_0 < 100,
{
    let tens = token[at];
    let ones = token[at + 1];
    if is_ascii_digit(tens) && is_ascii_digit(ones) {
        Some((tens - ZERO) as u32 * 10 + (ones - ZERO) as u32)
    } else {
        None
    }
}

/// Reads the fraction digits that follow the point: all bytes from `from`
/// on. `None` where one of them is no digit.
fn fraction_at(token: &[u8], from: usize, places: usize) -> (r: Option<u32>)
    requires
        from <= token@.len(),
        places <= 9,
    ensures
        r is Some <==> all_digits(token@.skip(from as int)),
        r is Some ==> r->Some_0 == fraction_units(token@.skip(from as int), places as nat),
        r is Some ==> r->Some_0 <= pow10(places as nat),
{
    let n = token.len();
    let ghost digits = token@.skip(from as int);
    let mut i: usize = from;
    while i < n
        invariant
            from <= i <= n,
            n == token@.len(),
            digits == token@.skip(from as int),
            all_digits(digits.take(i - from)),
        decreases n - i,
    {
        if !is_ascii_digit(token[i]) {
            proof {
                assert(digits[i - from] == token@[i as int]);
            }
            return None;
        }
        i += 1;
    }
    proof {
        assert(digits.take(n - from) =~= digits);
    }
    let ghost kept = padded(digits, places as nat);
    let mut acc: u32 = 0;
    let mut k: usize = 0;
    while k < places
        invariant
            k <= places <= 9,
            from <= n,
            n == token@.len(),
            digits == token@.skip(from as int),
            kept == padded(digits, places as nat),
            all_digits(digits),
            acc == digits_value(kept.take(k as int)),
            acc < pow10(k as nat),
        decreases places - k,
    {
        let d: u32 = if k < n - from {
            assert(is_digit(digits[k as int]));
            (token[from + k] - ZERO) as u32
        } else {
            0
        };
        proof {
            reveal_with_fuel(pow10, 10);
            let seen = kept.take(k as int);
            assert(kept.take(k + 1) =~= seen.push(kept[k as int]));
            lemma_digits_value_push(seen, kept[k as int]);
        }
        acc = acc * 10 + d;
        k += 1;
    }
    proof {
        reveal_with_fuel(pow10, 10);
        assert(kept.take(places as int) =~= kept);
    }
    if places < n - from && token[from + places] >= ZERO + 5 {
        Some(acc + 1)
    } else {
        Some(acc)
    }
}

/// Reads the fields of a token of the form `hhmmss.ss`.
fn parse_hms_fields(token: &[u8], places: usize) -> (r: Option<Hms>)
    requires
        places <= 9,
    ensures
        r == hms_of(token@, places as nat),
        r is Some ==> r->Some_0.hours < 100 && r->Some_0.minutes < 100 && r->Some_0.seconds < 100
            && r->Some_0.fraction <= pow10(places as nat),
{
    let n = token.len();
    if n < 6 {
        return None;
    }
    let hours = two_digits_at(token, 0);
    let minutes = two_digits_at(token, 2);
    let seconds = two_digits_at(token, 4);
    let fraction = if n == 6 {
        Some(0)
    } else if token[6] == POINT {
        fraction_at(token, 7, places)
    } else {
        None
    };
    proof {
        let head = token@.take(6);
        if all_digits(head) {
            assert(is_digit(head[0]) && is_digit(head[1]) && is_digit(head[2]) && is_digit(head[3])
                && is_digit(head[4]) && is_digit(head[5]));
        }
        if n <= 7 {
            assert(padded(Seq::<u8>::empty(), places as nat) =~= Seq::new(
                places as nat,
                |i: int| ZERO,
            ));
            lemma_zeros_value(places as nat);
            if n == 7 {
                assert(token@.skip(7) =~= Seq::<u8>::empty());
            }
        }
    }
    match (hours, minutes, seconds, fraction) {
        (Some(hours), Some(minutes), Some(seconds), Some(fraction)) => Some(
            Hms { hours, minutes, seconds, fraction },
        ),
        _ => None,
    }
}

/// Zeros write zero.
pub proof fn lemma_zeros_value(n: nat)
    ensures
        digits_value(Seq::new(n, |i: int| ZERO)) == 0,
    decreases n,
{
    if n > 0 {
        assert(Seq::new(n, |i: int| ZERO).drop_last() =~= Seq::new((n - 1) as nat, |i: int| ZERO));
        lemma_zeros_value((n - 1) as nat);
    }
}

/// Reads a time of day from a whole token.
pub fn parse_hms(token: &[u8]) -> (r: Option<NaiveTime>)
    ensures
        r == time_of(token@),
{
    match parse_hms_fields(token, NANO_PLACES) {
        Some(f) => NaiveTime::from_hms_nano_opt(f.hours, f.minutes, f.seconds, f.fraction),
        None => None,
    }
}

/// Reads a duration from a whole token.
pub fn parse_duration_hms(token: &[u8]) -> (r: Option<TimeDelta>)
    ensures
        r == duration_of(token@),
{
    match parse_hms_fields(token, MILLI_PLACES) {
        Some(f) => {
            if f.minutes < 60 && f.seconds < 60 {
                proof {
                    reveal_with_fuel(pow10, 4);
                }
                let whole: i64 = ((f.hours as i64 * 60 + f.minutes as i64) * 60 + f.seconds as i64)
                    * 1000;
                Some(TimeDelta::milliseconds(whole + f.fraction as i64))
            } else {
                None
            }
        },
        None => None,
    }
}

} // verus!
