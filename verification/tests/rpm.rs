use nmea::sentences::rpm::do_parse_rpm;
use nmea::{parse_rpm, Decimal, Error, NmeaSentence, ParseErrorKind, RpmData, RpmSource, SentenceType};

fn rpm_number(negative: bool, digits: u64, scale: usize) -> Option<Decimal> {
    Some(Decimal { negative, digits, scale, dropped: 0, exponent: 0 })
}

fn rpm_malformed(kind: ParseErrorKind, remaining: usize) -> Result<RpmData, Error> {
    Err(Error::ParsingError { kind, remaining })
}

#[test]
fn test_parse_rpm_full() {
    let data = parse_rpm(NmeaSentence {
        talker_id: "II",
        message_id: SentenceType::RPM,
        data: "S,1,31,100,A",
        checksum: 0x73,
    })
    .unwrap();

    println!("{:?}", data);
}

#[test]
fn rpm_full_values() {
    let data = parse_rpm(NmeaSentence {
        talker_id: "II",
        message_id: SentenceType::RPM,
        data: "S,1,31,100,A",
        checksum: 0x73,
    })
    .unwrap();
    assert_eq!(
        data,
        RpmData {
            source: Some(RpmSource::Shaft),
            engine_or_shaft_number: Some(1),
            speed: rpm_number(false, 31, 0),
            propeller_pitch: rpm_number(false, 100, 0),
            valid: true,
        }
    );
}

#[test]
fn rpm_negative_readings_keep_their_sign() {
    let data = do_parse_rpm("E,2,-31.5,-12.25,V").unwrap();
    assert_eq!(
        data,
        RpmData {
            source: Some(RpmSource::Engine),
            engine_or_shaft_number: Some(2),
            speed: rpm_number(true, 315, 1),
            propeller_pitch: rpm_number(true, 1225, 2),
            valid: false,
        }
    );
    let data = do_parse_rpm(",,-7,-0,A").unwrap();
    assert_eq!(data.speed, rpm_number(true, 7, 0));
    assert_eq!(data.propeller_pitch, rpm_number(true, 0, 0));
    assert_ne!(data.propeller_pitch, rpm_number(false, 0, 0));
}

#[test]
fn rpm_readings_with_an_exponent() {
    let data = do_parse_rpm("S,1,-3.1e1,1E-2,A").unwrap();
    assert_eq!(data.speed, Some(Decimal { negative: true, digits: 31, scale: 1, dropped: 0, exponent: 1 }));
    assert_eq!(
        data.propeller_pitch,
        Some(Decimal { negative: false, digits: 1, scale: 0, dropped: 0, exponent: -2 })
    );
}

fn rpm_f32(d: Decimal) -> f32 {
    let sign = if d.negative { "-" } else { "" };
    let power = d.exponent as i64 + d.dropped as i64 - d.scale as i64;
    format!("{}{}e{}", sign, d.digits, power).parse().unwrap()
}

#[test]
fn rpm_negative_readings_of_any_length() {
    let data = do_parse_rpm("S,1,-100000000000000000000,-1,A").unwrap();
    assert_eq!(
        data.speed,
        Some(Decimal {
            negative: true,
            digits: 10_000_000_000_000_000_000,
            scale: 0,
            dropped: 1,
            exponent: 0
        })
    );
    assert_eq!(rpm_f32(data.speed.unwrap()), -1e20);
    assert_eq!(
        rpm_f32(data.speed.unwrap()),
        "-100000000000000000000".parse::<f32>().unwrap()
    );
    assert_eq!(data.propeller_pitch, rpm_number(true, 1, 0));
    assert_eq!(rpm_f32(data.propeller_pitch.unwrap()), -1.0);

    let data = do_parse_rpm("E,2,-31.5,-0.000000000000000000000000125,V").unwrap();
    assert_eq!(rpm_f32(data.speed.unwrap()), -31.5);
    assert_eq!(rpm_f32(data.propeller_pitch.unwrap()), -1.25e-25);
    assert!(rpm_f32(data.propeller_pitch.unwrap()) < 0.0);
}

#[test]
fn rpm_absent_fields() {
    let data = do_parse_rpm(",,,,A").unwrap();
    assert_eq!(
        data,
        RpmData {
            source: None,
            engine_or_shaft_number: None,
            speed: None,
            propeller_pitch: None,
            valid: true,
        }
    );
    let data = do_parse_rpm("S,,0,,V*12").unwrap();
    assert_eq!(data.engine_or_shaft_number, None);
    assert_eq!(data.speed, rpm_number(false, 0, 0));
    assert_eq!(data.propeller_pitch, None);
}

#[test]
fn rpm_source_outside_its_set() {
    assert_eq!(do_parse_rpm("X,1,31,100,A"), rpm_malformed(ParseErrorKind::Separator, 12));
    assert_eq!(do_parse_rpm("s,1,31,100,A"), rpm_malformed(ParseErrorKind::Separator, 12));
    assert_eq!(do_parse_rpm("SE,1,31,100,A"), rpm_malformed(ParseErrorKind::Separator, 12));
    assert_eq!(do_parse_rpm(""), rpm_malformed(ParseErrorKind::Separator, 0));
}

#[test]
fn rpm_number_range() {
    assert_eq!(do_parse_rpm("S,127,1,1,A").unwrap().engine_or_shaft_number, Some(127));
    assert_eq!(do_parse_rpm("S,-128,1,1,A").unwrap().engine_or_shaft_number, Some(-128));
    assert_eq!(do_parse_rpm("S,+5,1,1,A").unwrap().engine_or_shaft_number, Some(5));
    assert_eq!(do_parse_rpm("S,007,1,1,A").unwrap().engine_or_shaft_number, Some(7));
    assert_eq!(do_parse_rpm("S,-0,1,1,A").unwrap().engine_or_shaft_number, Some(0));
    assert_eq!(do_parse_rpm("S,128,1,1,A"), rpm_malformed(ParseErrorKind::Number, 9));
    assert_eq!(do_parse_rpm("S,-129,1,1,A"), rpm_malformed(ParseErrorKind::Number, 10));
    assert_eq!(do_parse_rpm("S,1000000,1,1,A"), rpm_malformed(ParseErrorKind::Number, 13));
    assert_eq!(do_parse_rpm("S,1.0,1,1,A"), rpm_malformed(ParseErrorKind::Number, 9));
    assert_eq!(do_parse_rpm("S,-,1,1,A"), rpm_malformed(ParseErrorKind::Number, 7));
    assert_eq!(do_parse_rpm("S,1x,1,1,A"), rpm_malformed(ParseErrorKind::Number, 8));
}

#[test]
fn rpm_malformed_readings() {
    assert_eq!(do_parse_rpm("S,1,3a,100,A"), rpm_malformed(ParseErrorKind::Number, 8));
    assert_eq!(do_parse_rpm("S,1,31,1e,A"), rpm_malformed(ParseErrorKind::Number, 4));
    assert_eq!(do_parse_rpm("S,1,31,e2,A"), rpm_malformed(ParseErrorKind::Number, 4));
    assert_eq!(do_parse_rpm("S,1,31,1e2.5,A"), rpm_malformed(ParseErrorKind::Number, 7));
    assert_eq!(do_parse_rpm("S,1,31,1.2.3,A"), rpm_malformed(ParseErrorKind::Number, 7));
    assert_eq!(do_parse_rpm("S,1,31,.,A"), rpm_malformed(ParseErrorKind::Number, 3));
    assert_eq!(do_parse_rpm("S,1,31,--1,A"), rpm_malformed(ParseErrorKind::Number, 5));
    assert_eq!(do_parse_rpm("S,1,31,inf,A"), rpm_malformed(ParseErrorKind::Number, 5));
    assert_eq!(do_parse_rpm("S,1,31,100"), rpm_malformed(ParseErrorKind::Separator, 0));
    assert_eq!(do_parse_rpm("S,1,31,100,"), rpm_malformed(ParseErrorKind::Code, 0));
    assert_eq!(do_parse_rpm("S,1,31,100,B"), rpm_malformed(ParseErrorKind::Code, 1));
}

#[test]
fn rpm_wrong_message_id() {
    let error = parse_rpm(NmeaSentence {
        talker_id: "II",
        message_id: SentenceType::RSA,
        data: "S,1,31,100,A",
        checksum: 0x73,
    });
    assert_eq!(
        error,
        Err(Error::WrongSentenceHeader { expected: SentenceType::RPM, found: SentenceType::RSA })
    );
}

#[test]
fn rpm_decoding_twice_gives_equal_records() {
    assert_eq!(do_parse_rpm("S,1,31,100,A"), do_parse_rpm("S,1,31,100,A"));
    assert_eq!(do_parse_rpm("S,1,31,100,Z"), do_parse_rpm("S,1,31,100,Z"));
}
