use nmea::sentences::rsa::do_parse_rsa;
use nmea::{parse_rsa, Decimal, Error, NmeaSentence, ParseErrorKind, RsaData, SentenceType};

#[test]
fn test_parse_rsa_full() {
    let data = parse_rsa(NmeaSentence {
        talker_id: "II",
        message_id: SentenceType::RSA,
        data: "8.0,A,-2,A",
        checksum: 0x79,
    })
    .unwrap();

    println!("{:?}", data);
}

#[test]
fn rsa_full_values() {
    let data = parse_rsa(NmeaSentence {
        talker_id: "II",
        message_id: SentenceType::RSA,
        data: "8.0,A,-2,A",
        checksum: 0x79,
    })
    .unwrap();
    assert_eq!(
        data,
        RsaData {
            starboard_rudder_sensor: Some(Decimal { negative: false, digits: 80, scale: 1, dropped: 0, exponent: 0 }),
            starboard_rudder_valid: true,
            port_rudder_sensor: Some(Decimal { negative: true, digits: 2, scale: 0, dropped: 0, exponent: 0 }),
            port_rudder_valid: true,
        }
    );
}

#[test]
fn rsa_absent_sensors() {
    assert_eq!(
        do_parse_rsa(",V,,V"),
        Ok(RsaData {
            starboard_rudder_sensor: None,
            starboard_rudder_valid: false,
            port_rudder_sensor: None,
            port_rudder_valid: false,
        })
    );
}

#[test]
fn rsa_what_follows_the_last_field_is_not_read() {
    assert_eq!(do_parse_rsa("1,A,2,V"), do_parse_rsa("1,A,2,V*41"));
    assert_eq!(do_parse_rsa("1,A,2,V"), do_parse_rsa("1,A,2,V,more"));
}

#[test]
fn rsa_errors() {
    assert_eq!(
        do_parse_rsa("8.0,X,-2,A"),
        Err(Error::ParsingError { kind: ParseErrorKind::Code, remaining: 6 })
    );
    assert_eq!(
        do_parse_rsa("8.0,A,-2,"),
        Err(Error::ParsingError { kind: ParseErrorKind::Code, remaining: 0 })
    );
    assert_eq!(
        do_parse_rsa("8.0,A,-2"),
        Err(Error::ParsingError { kind: ParseErrorKind::Separator, remaining: 0 })
    );
    assert_eq!(
        do_parse_rsa("8.0A,-2,A"),
        Err(Error::ParsingError { kind: ParseErrorKind::Number, remaining: 9 })
    );
    assert_eq!(
        do_parse_rsa("8.0,A-2,A"),
        Err(Error::ParsingError { kind: ParseErrorKind::Separator, remaining: 4 })
    );
    assert_eq!(
        do_parse_rsa("8.0,A,two,A"),
        Err(Error::ParsingError { kind: ParseErrorKind::Number, remaining: 5 })
    );
}

#[test]
fn rsa_wrong_message_id() {
    let error = parse_rsa(NmeaSentence {
        talker_id: "II",
        message_id: SentenceType::RPM,
        data: "8.0,A,-2,A",
        checksum: 0x79,
    });
    assert_eq!(
        error,
        Err(Error::WrongSentenceHeader { expected: SentenceType::RSA, found: SentenceType::RPM })
    );
}

#[test]
fn rsa_decoding_twice_gives_equal_records() {
    assert_eq!(do_parse_rsa("8.0,A,-2,A"), do_parse_rsa("8.0,A,-2,A"));
}
