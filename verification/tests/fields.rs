use chrono::{NaiveTime, TimeDelta};
use nmea::decimal::{parse_decimal, parse_small_int};
use nmea::scan::scan;
use nmea::sentences::utils::{
    decimal_field, duration_field, one_of, opt_one_of, optional_value, parse_valid_status,
    separator, small_int_field, text_field, time_field,
};
use nmea::text::array_string;
use nmea::time::{parse_duration_hms, parse_hms};
use nmea::{Decimal, Error, ParseErrorKind, TEXT_PARAMETER_MAX_LEN};

fn field_error<T>(kind: ParseErrorKind, remaining: usize) -> Result<T, Error> {
    Err(Error::ParsingError { kind, remaining })
}

fn decimal(negative: bool, digits: u64, scale: usize) -> Option<Decimal> {
    Some(Decimal { negative, digits, scale, dropped: 0, exponent: 0 })
}

#[test]
fn shared_maximum_is_64() {
    assert_eq!(TEXT_PARAMETER_MAX_LEN, 64);
}

#[test]
fn scan_counts_up_to_the_first_stop() {
    assert_eq!(scan(b"abc,def*gh", b',', b'*'), 3);
    assert_eq!(scan(b"abc,def*gh", b'*', b'*'), 7);
    assert_eq!(scan(b"abc", b',', b'*'), 3);
    assert_eq!(scan(b",abc", b',', b'*'), 0);
    assert_eq!(scan(b"", b',', b'*'), 0);
}

#[test]
fn separator_reads_one_comma() {
    assert_eq!(separator(",rest"), Ok(((), "rest")));
    assert_eq!(separator(",,"), Ok(((), ",")));
    assert_eq!(separator(","), Ok(((), "")));
    assert_eq!(separator("rest"), field_error(ParseErrorKind::Separator, 4));
    assert_eq!(separator("*42"), field_error(ParseErrorKind::Separator, 3));
    assert_eq!(separator(""), field_error(ParseErrorKind::Separator, 0));
}

#[test]
fn one_of_reads_one_code_of_its_set() {
    assert_eq!(one_of("L,rest", b"LR"), Ok((b'L', ",rest")));
    assert_eq!(one_of("R", b"LR"), Ok((b'R', "")));
    assert_eq!(one_of("X,rest", b"LR"), field_error(ParseErrorKind::Code, 6));
    assert_eq!(one_of(",rest", b"LR"), field_error(ParseErrorKind::Code, 5));
    assert_eq!(one_of("l", b"LR"), field_error(ParseErrorKind::Code, 1));
    assert_eq!(one_of("", b"LR"), field_error(ParseErrorKind::Code, 0));
    assert_eq!(one_of("L", b""), field_error(ParseErrorKind::Code, 1));
}

#[test]
fn one_of_rejects_every_byte_outside_its_set() {
    for b in 0u8..128 {
        let input = String::from_utf8(vec![b, b',']).unwrap();
        let r = one_of(&input, b"NK");
        if b == b'N' || b == b'K' {
            assert_eq!(r, Ok((b, ",")));
        } else {
            assert_eq!(r, field_error(ParseErrorKind::Code, 2));
        }
    }
    assert_eq!(one_of("\u{e9}", b"NK"), field_error(ParseErrorKind::Code, 2));
    assert_eq!(one_of("\u{e9}", &[0xc3]), field_error(ParseErrorKind::Code, 2));
}

#[test]
fn opt_one_of_reads_nothing_where_the_code_is_absent() {
    assert_eq!(opt_one_of("S,1", b"SE"), (Some(b'S'), ",1"));
    assert_eq!(opt_one_of("E", b"SE"), (Some(b'E'), ""));
    assert_eq!(opt_one_of(",1", b"SE"), (None, ",1"));
    assert_eq!(opt_one_of("X,1", b"SE"), (None, "X,1"));
    assert_eq!(opt_one_of("", b"SE"), (None, ""));
}

#[test]
fn status_is_a_or_v() {
    assert_eq!(parse_valid_status("A,"), Ok((true, ",")));
    assert_eq!(parse_valid_status("V"), Ok((false, "")));
    assert_eq!(parse_valid_status("G,"), field_error(ParseErrorKind::Code, 2));
    assert_eq!(parse_valid_status("a"), field_error(ParseErrorKind::Code, 1));
    assert_eq!(parse_valid_status(","), field_error(ParseErrorKind::Code, 1));
    assert_eq!(parse_valid_status(""), field_error(ParseErrorKind::Code, 0));
}

#[test]
fn decimal_tokens() {
    assert_eq!(parse_decimal(b"0.10"), decimal(false, 10, 2));
    assert_eq!(parse_decimal(b"011"), decimal(false, 11, 0));
    assert_eq!(parse_decimal(b"-2"), decimal(true, 2, 0));
    assert_eq!(parse_decimal(b"+2"), decimal(false, 2, 0));
    assert_eq!(parse_decimal(b"8.0"), decimal(false, 80, 1));
    assert_eq!(parse_decimal(b".5"), decimal(false, 5, 1));
    assert_eq!(parse_decimal(b"5."), decimal(false, 5, 0));
    assert_eq!(parse_decimal(b"-0.0"), decimal(true, 0, 1));
    assert_eq!(parse_decimal(b"-.25"), decimal(true, 25, 2));
    assert_eq!(parse_decimal(b"000123.4500"), decimal(false, 1234500, 4));
    assert_eq!(parse_decimal(b"0.000000000000000000000001"), decimal(false, 1, 24));
}

#[test]
fn decimal_tokens_that_write_no_number() {
    assert_eq!(parse_decimal(b""), None);
    assert_eq!(parse_decimal(b"."), None);
    assert_eq!(parse_decimal(b"-"), None);
    assert_eq!(parse_decimal(b"+"), None);
    assert_eq!(parse_decimal(b"-."), None);
    assert_eq!(parse_decimal(b"1.2.3"), None);
    assert_eq!(parse_decimal(b"1..2"), None);
    assert_eq!(parse_decimal(b"--1"), None);
    assert_eq!(parse_decimal(b"1-"), None);
    assert_eq!(parse_decimal(b"1e"), None);
    assert_eq!(parse_decimal(b"1e+"), None);
    assert_eq!(parse_decimal(b"1e-"), None);
    assert_eq!(parse_decimal(b"e5"), None);
    assert_eq!(parse_decimal(b".e5"), None);
    assert_eq!(parse_decimal(b"-e5"), None);
    assert_eq!(parse_decimal(b"1e5e5"), None);
    assert_eq!(parse_decimal(b"1e5.0"), None);
    assert_eq!(parse_decimal(b"1e 5"), None);
    assert_eq!(parse_decimal(b"1x5"), None);
    assert_eq!(parse_decimal(b"inf"), None);
    assert_eq!(parse_decimal(b"infinity"), None);
    assert_eq!(parse_decimal(b"nan"), None);
    assert_eq!(parse_decimal(b" 1"), None);
    assert_eq!(parse_decimal(b"1 "), None);
    assert_eq!(parse_decimal(b"1,2"), None);
    assert_eq!(parse_decimal(b"12a"), None);
    assert_eq!(parse_decimal(b"1.2a"), None);
    assert_eq!(parse_decimal(b"1:2"), None);
    assert_eq!(parse_decimal(b"1/2"), None);
}

#[test]
fn decimal_tokens_with_an_exponent() {
    let with = |digits, scale, exponent| Some(Decimal { negative: false, digits, scale, dropped: 0, exponent });
    assert_eq!(parse_decimal(b"1e1"), with(1, 0, 1));
    assert_eq!(parse_decimal(b"1E1"), with(1, 0, 1));
    assert_eq!(parse_decimal(b"1e+1"), with(1, 0, 1));
    assert_eq!(parse_decimal(b"1e-1"), with(1, 0, -1));
    assert_eq!(parse_decimal(b"1e0"), with(1, 0, 0));
    assert_eq!(parse_decimal(b"1e-0"), with(1, 0, 0));
    assert_eq!(parse_decimal(b"1e007"), with(1, 0, 7));
    assert_eq!(parse_decimal(b"12.5e3"), with(125, 1, 3));
    assert_eq!(parse_decimal(b".5e3"), with(5, 1, 3));
    assert_eq!(parse_decimal(b"5.e3"), with(5, 0, 3));
    assert_eq!(
        parse_decimal(b"-2.50E-10"),
        Some(Decimal { negative: true, digits: 250, scale: 2, dropped: 0, exponent: -10 })
    );
    assert_eq!(parse_decimal(b"1e2147483647"), with(1, 0, i32::MAX));
    assert_eq!(parse_decimal(b"1e-2147483648"), with(1, 0, i32::MIN));
    assert_eq!(parse_decimal(b"1e2147483648"), with(1, 0, i32::MAX));
    assert_eq!(parse_decimal(b"1e-2147483649"), with(1, 0, i32::MIN));
    assert_eq!(parse_decimal(b"1e99999999999999999999"), with(1, 0, i32::MAX));
    assert_eq!(parse_decimal(b"1e-99999999999999999999"), with(1, 0, i32::MIN));
    assert_eq!(parse_decimal(b"1e99999999999999999999x"), None);
}

#[test]
fn decimal_digits_beyond_64_bits_are_cut_and_counted() {
    let cut = |negative, digits, scale, dropped| {
        Some(Decimal { negative, digits, scale, dropped, exponent: 0 })
    };
    assert_eq!(parse_decimal(b"18446744073709551615"), cut(false, u64::MAX, 0, 0));
    assert_eq!(parse_decimal(b"-1844674407370955.1615"), cut(true, u64::MAX, 4, 0));
    assert_eq!(parse_decimal(b"18446744073709551616"), cut(false, 1844674407370955161, 0, 1));
    assert_eq!(parse_decimal(b"1844674407370955161.6"), cut(false, 1844674407370955161, 1, 1));
    assert_eq!(parse_decimal(b"99999999999999999999"), cut(false, 9999999999999999999, 0, 1));
    assert_eq!(parse_decimal(b"184467440737095516150"), cut(false, u64::MAX, 0, 1));
    assert_eq!(
        parse_decimal(b"1.00000000000000000000"),
        cut(false, 10_000_000_000_000_000_000, 20, 1)
    );
    assert_eq!(
        parse_decimal(b"100000000000000000000"),
        cut(false, 10_000_000_000_000_000_000, 0, 1)
    );
    assert_eq!(
        parse_decimal(b"-100000000000000000000"),
        cut(true, 10_000_000_000_000_000_000, 0, 1)
    );
    assert_eq!(
        parse_decimal(b"123456789012345678901234567890"),
        cut(false, 12345678901234567890, 0, 10)
    );
    assert_eq!(
        parse_decimal(b"0000000000000000000000000000018446744073709551615"),
        cut(false, u64::MAX, 0, 0)
    );
    assert_eq!(
        parse_decimal(b"-0.00000000000000000000000000001"),
        cut(true, 1, 29, 0)
    );
    assert_eq!(
        parse_decimal(b"99999999999999999999.99999999999999999999e5"),
        Some(Decimal {
            negative: false,
            digits: 9999999999999999999,
            scale: 20,
            dropped: 21,
            exponent: 5
        })
    );
    assert_eq!(parse_decimal(b"99999999999999999999x"), None);
    assert_eq!(parse_decimal(b"99999999999999999999.9.9"), None);
}

#[test]
fn small_int_tokens() {
    assert_eq!(parse_small_int(b"0"), Some(0));
    assert_eq!(parse_small_int(b"1"), Some(1));
    assert_eq!(parse_small_int(b"127"), Some(127));
    assert_eq!(parse_small_int(b"-128"), Some(-128));
    assert_eq!(parse_small_int(b"+127"), Some(127));
    assert_eq!(parse_small_int(b"-0"), Some(0));
    assert_eq!(parse_small_int(b"0000000099"), Some(99));
    assert_eq!(parse_small_int(b"128"), None);
    assert_eq!(parse_small_int(b"+128"), None);
    assert_eq!(parse_small_int(b"-129"), None);
    assert_eq!(parse_small_int(b"1280"), None);
    assert_eq!(parse_small_int(b"99999999999999999999999"), None);
    assert_eq!(parse_small_int(b""), None);
    assert_eq!(parse_small_int(b"-"), None);
    assert_eq!(parse_small_int(b"+"), None);
    assert_eq!(parse_small_int(b"1.0"), None);
    assert_eq!(parse_small_int(b"1a"), None);
    assert_eq!(parse_small_int(b"a1"), None);
    assert_eq!(parse_small_int(b"1-"), None);
}

#[test]
fn every_small_int_is_read_back() {
    for v in i8::MIN..=i8::MAX {
        assert_eq!(parse_small_int(v.to_string().as_bytes()), Some(v));
    }
    for v in 128..2000 {
        assert_eq!(parse_small_int(v.to_string().as_bytes()), None);
        assert_eq!(parse_small_int((-v - 1).to_string().as_bytes()), None);
    }
}

#[test]
fn optional_value_tells_absent_from_malformed() {
    assert_eq!(
        optional_value(",x", ",x", true, None::<i8>, ParseErrorKind::Number),
        Ok((None, ",x"))
    );
    assert_eq!(
        optional_value(",x", ",x", true, Some(0i8), ParseErrorKind::Number),
        Ok((None, ",x"))
    );
    assert_eq!(
        optional_value("7,x", ",x", false, Some(7i8), ParseErrorKind::Number),
        Ok((Some(7), ",x"))
    );
    assert_eq!(
        optional_value("0,x", ",x", false, Some(0i8), ParseErrorKind::Number),
        Ok((Some(0), ",x"))
    );
    assert_eq!(
        optional_value("7a,x", ",x", false, None::<i8>, ParseErrorKind::Time),
        field_error(ParseErrorKind::Time, 4)
    );
}

#[test]
fn decimal_field_reads_up_to_the_separator() {
    assert_eq!(decimal_field("0.10,R"), Ok((decimal(false, 10, 2), ",R")));
    assert_eq!(decimal_field("-31"), Ok((decimal(true, 31, 0), "")));
    assert_eq!(decimal_field(",R"), Ok((None, ",R")));
    assert_eq!(decimal_field(""), Ok((None, "")));
    assert_eq!(decimal_field("0.1x,R"), field_error(ParseErrorKind::Number, 6));
    assert_eq!(decimal_field("1*42"), field_error(ParseErrorKind::Number, 4));
}

#[test]
fn small_int_field_reads_up_to_the_separator() {
    assert_eq!(small_int_field("1,31"), Ok((Some(1), ",31")));
    assert_eq!(small_int_field("-7"), Ok((Some(-7), "")));
    assert_eq!(small_int_field(",31"), Ok((None, ",31")));
    assert_eq!(small_int_field(""), Ok((None, "")));
    assert_eq!(small_int_field("300,31"), field_error(ParseErrorKind::Number, 6));
}

#[test]
fn time_tokens() {
    assert_eq!(parse_hms(b"145832.12"), NaiveTime::from_hms_milli_opt(14, 58, 32, 120));
    assert_eq!(parse_hms(b"000000"), NaiveTime::from_hms_opt(0, 0, 0));
    assert_eq!(parse_hms(b"235959.999999999"), NaiveTime::from_hms_nano_opt(23, 59, 59, 999_999_999));
    assert!(parse_hms(b"145832.12").is_some());
    assert_eq!(parse_hms(b""), None);
    assert_eq!(parse_hms(b"14583"), None);
    assert_eq!(parse_hms(b"1458321"), None);
    assert_eq!(parse_hms(b"240000"), None);
    assert_eq!(parse_hms(b"006000"), None);
    assert_eq!(parse_hms(b"000060"), None);
    assert_eq!(parse_hms(b"+10000"), None);
    assert_eq!(parse_hms(b"1458 2"), None);
    assert_eq!(parse_hms(b"145832,12"), None);
    assert_eq!(parse_hms(b"145832.1 "), None);
}

#[test]
fn duration_tokens() {
    assert_eq!(parse_duration_hms(b"042359.17"), Some(TimeDelta::milliseconds(15_839_170)));
    assert_eq!(
        parse_duration_hms(b"042359.17"),
        Some(
            TimeDelta::hours(4)
                + TimeDelta::minutes(23)
                + TimeDelta::seconds(59)
                + TimeDelta::milliseconds(170)
        )
    );
    assert_eq!(parse_duration_hms(b"000000"), Some(TimeDelta::zero()));
    assert_eq!(parse_duration_hms(b"010000"), Some(TimeDelta::hours(1)));
    assert_eq!(parse_duration_hms(b"000100"), Some(TimeDelta::minutes(1)));
    assert_eq!(parse_duration_hms(b"000001"), Some(TimeDelta::seconds(1)));
    assert_eq!(parse_duration_hms(b"000000.001"), Some(TimeDelta::milliseconds(1)));
    assert_eq!(parse_duration_hms(b"000000.0015"), Some(TimeDelta::milliseconds(2)));
    assert_eq!(parse_duration_hms(b"000000.0014999"), Some(TimeDelta::milliseconds(1)));
    assert_eq!(parse_duration_hms(b"000000.9995"), Some(TimeDelta::milliseconds(1000)));
    assert_eq!(parse_duration_hms(b"235959.9995"), Some(TimeDelta::hours(24)));
    assert_eq!(parse_duration_hms(b"240000"), Some(TimeDelta::hours(24)));
    assert_eq!(parse_duration_hms(b"990000"), Some(TimeDelta::hours(99)));
    assert_eq!(parse_duration_hms(b"006000"), None);
    assert_eq!(parse_duration_hms(b"000060"), None);
    assert_eq!(parse_duration_hms(b""), None);
    assert_eq!(parse_duration_hms(b"0423"), None);
    assert_eq!(parse_duration_hms(b"04235x"), None);
    assert_eq!(parse_duration_hms(b"042359.1x"), None);
}

#[test]
fn time_and_duration_fields() {
    assert_eq!(
        time_field("145832.12,042359.17"),
        Ok((NaiveTime::from_hms_milli_opt(14, 58, 32, 120), ",042359.17"))
    );
    assert_eq!(time_field(",042359.17"), Ok((None, ",042359.17")));
    assert_eq!(time_field("noon,"), field_error(ParseErrorKind::Time, 5));
    assert_eq!(
        duration_field("042359.17,WPT"),
        Ok((Some(TimeDelta::milliseconds(15_839_170)), ",WPT"))
    );
    assert_eq!(duration_field(",WPT"), Ok((None, ",WPT")));
    assert_eq!(duration_field("soon,WPT"), field_error(ParseErrorKind::Duration, 8));
}

#[test]
fn text_field_stops_at_its_delimiters() {
    let (text, rest) = text_field("DEST,011,M*42", false).unwrap();
    assert_eq!(text.unwrap().as_str(), "DEST,011,M");
    assert_eq!(rest, "*42");
    let (text, rest) = text_field("DEST,011,M*42", true).unwrap();
    assert_eq!(text.unwrap().as_str(), "DEST");
    assert_eq!(rest, ",011,M*42");
    let (text, rest) = text_field("DEST", true).unwrap();
    assert_eq!(text.unwrap().as_str(), "DEST");
    assert_eq!(rest, "");
    assert_eq!(text_field("*42", false), Ok((None, "*42")));
    assert_eq!(text_field(",x", true), Ok((None, ",x")));
    assert_eq!(text_field("", true), Ok((None, "")));
    let (text, rest) = text_field(",x", false).unwrap();
    assert_eq!(text.unwrap().as_str(), ",x");
    assert_eq!(rest, "");
}

#[test]
fn text_field_enforces_the_shared_maximum() {
    let token = "ABCDEFGHIJKLMNOPRSTUWXYZ".repeat(3);
    assert_eq!(token.len(), 72);
    let input = format!("{}*6B", token);
    assert_eq!(
        text_field(&input, true),
        Err(Error::ParameterLength { max_length: 64, parameter_length: 72 })
    );
    assert_eq!(
        text_field(&input, false),
        Err(Error::ParameterLength { max_length: 64, parameter_length: 72 })
    );
}

#[test]
fn array_string_copies_up_to_the_maximum() {
    assert_eq!(array_string("WPT").unwrap().as_str(), "WPT");
    assert_eq!(array_string("").unwrap().as_str(), "");
    let exact = "x".repeat(64);
    assert_eq!(array_string(&exact).unwrap().as_str(), exact);
    for len in 65..200 {
        let long = "x".repeat(len);
        assert_eq!(
            array_string(&long),
            Err(Error::ParameterLength { max_length: 64, parameter_length: len })
        );
    }
    let wide = "\u{20ac}".repeat(22);
    assert_eq!(
        array_string(&wide),
        Err(Error::ParameterLength { max_length: 64, parameter_length: 66 })
    );
}
