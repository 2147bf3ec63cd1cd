use arrayvec::ArrayString;
use chrono::{Duration, NaiveTime};
use nmea::sentences::ztg::do_parse_ztg;
use nmea::{parse_ztg, Error, NmeaSentence, ParseErrorKind, SentenceType, ZtgData};

fn ztg_calc_checksum(line: &str) -> u8 {
    let start = if line.starts_with('$') { 1 } else { 0 };
    let end = line.find('*').unwrap();
    line.as_bytes()[start..end].iter().fold(0, |sum, b| sum ^ b)
}

fn ztg_frame(line: &str) -> NmeaSentence<'_> {
    let inner = line.strip_prefix('$').unwrap_or(line);
    let star = inner.find('*').expect("ZTG sentence initial parse failed");
    assert_eq!(&inner[2..5], "ZTG");
    NmeaSentence {
        talker_id: &inner[0..2],
        message_id: SentenceType::ZTG,
        data: &inner[6..star],
        checksum: u8::from_str_radix(&inner[star + 1..], 16).unwrap(),
    }
}

fn run_parse_ztg(line: &str) -> Result<ZtgData, Error> {
    let s = ztg_frame(line);
    assert_eq!(s.checksum, ztg_calc_checksum(line));
    parse_ztg(s)
}

fn ztg_malformed(kind: ParseErrorKind, remaining: usize) -> Result<ZtgData, Error> {
    Err(Error::ParsingError { kind, remaining })
}

#[test]
fn test_parse_ztg() {
    assert_eq!(
        ZtgData {
            fix_duration: Some(
                Duration::hours(4)
                    + Duration::minutes(23)
                    + Duration::seconds(59)
                    + Duration::milliseconds(170)
            ),
            fix_time: NaiveTime::from_hms_milli_opt(14, 58, 32, 120),
            waypoint_id: Some(ArrayString::from("WPT").unwrap()),
        },
        run_parse_ztg("$GPZTG,145832.12,042359.17,WPT*24").unwrap()
    );
    assert_eq!(
        ZtgData { fix_duration: None, fix_time: None, waypoint_id: None },
        run_parse_ztg("$GPZTG,,,*72").unwrap()
    );
    assert_eq!(
        ZtgData {
            fix_duration: Some(
                Duration::hours(4)
                    + Duration::minutes(23)
                    + Duration::seconds(59)
                    + Duration::milliseconds(170)
            ),
            fix_time: None,
            waypoint_id: None,
        },
        run_parse_ztg("$GPZTG,,042359.17,*53").unwrap()
    );
}

#[test]
fn test_parse_ztg_with_too_long_waypoint() {
    assert_eq!(
        Error::ParameterLength { max_length: 64, parameter_length: 72 },
        run_parse_ztg("$GPZTG,145832.12,042359.17,ABCDEFGHIJKLMNOPRSTUWXYZABCDEFGHIJKLMNOPRSTUWXYZABCDEFGHIJKLMNOPRSTUWXYZ*6B").unwrap_err()
    );
}

#[test]
fn ztg_time_to_the_nanosecond() {
    let data = do_parse_ztg("145832.123456789,,").unwrap();
    assert_eq!(data.fix_time, NaiveTime::from_hms_nano_opt(14, 58, 32, 123_456_789));
    let data = do_parse_ztg("000000,,").unwrap();
    assert_eq!(data.fix_time, NaiveTime::from_hms_nano_opt(0, 0, 0, 0));
    let data = do_parse_ztg("235959.,,").unwrap();
    assert_eq!(data.fix_time, NaiveTime::from_hms_nano_opt(23, 59, 59, 0));
    let data = do_parse_ztg("010203.5,,").unwrap();
    assert_eq!(data.fix_time, NaiveTime::from_hms_nano_opt(1, 2, 3, 500_000_000));
}

#[test]
fn ztg_time_is_rounded_to_the_nearest_nanosecond() {
    let data = do_parse_ztg("145832.1234567894,,").unwrap();
    assert_eq!(data.fix_time, NaiveTime::from_hms_nano_opt(14, 58, 32, 123_456_789));
    let data = do_parse_ztg("145832.1234567895,,").unwrap();
    assert_eq!(data.fix_time, NaiveTime::from_hms_nano_opt(14, 58, 32, 123_456_790));
    let data = do_parse_ztg("145832.12345678949,,").unwrap();
    assert_eq!(data.fix_time, NaiveTime::from_hms_nano_opt(14, 58, 32, 123_456_789));
}

#[test]
fn ztg_time_that_rounds_to_a_full_second() {
    let data = do_parse_ztg("235959.9999999996,,").unwrap();
    assert_eq!(data.fix_time, NaiveTime::from_hms_nano_opt(23, 59, 59, 1_000_000_000));
    assert!(data.fix_time.is_some());
    assert_eq!(do_parse_ztg("145832.9999999996,,"), ztg_malformed(ParseErrorKind::Time, 19));
}

#[test]
fn ztg_time_out_of_range() {
    assert_eq!(do_parse_ztg("245832.12,,"), ztg_malformed(ParseErrorKind::Time, 11));
    assert_eq!(do_parse_ztg("146032.12,,"), ztg_malformed(ParseErrorKind::Time, 11));
    assert_eq!(do_parse_ztg("145860.12,,"), ztg_malformed(ParseErrorKind::Time, 11));
    assert!(do_parse_ztg("235959.99,,").is_ok());
}

#[test]
fn ztg_time_malformed() {
    assert_eq!(do_parse_ztg("1458,,"), ztg_malformed(ParseErrorKind::Time, 6));
    assert_eq!(do_parse_ztg("14583,,"), ztg_malformed(ParseErrorKind::Time, 7));
    assert_eq!(do_parse_ztg("14:58:32,,"), ztg_malformed(ParseErrorKind::Time, 10));
    assert_eq!(do_parse_ztg("145832x12,,"), ztg_malformed(ParseErrorKind::Time, 11));
    assert_eq!(do_parse_ztg("145832.1x,,"), ztg_malformed(ParseErrorKind::Time, 11));
    assert_eq!(do_parse_ztg("-45832.12,,"), ztg_malformed(ParseErrorKind::Time, 11));
    assert_eq!(do_parse_ztg("145832.12"), ztg_malformed(ParseErrorKind::Separator, 0));
    assert_eq!(do_parse_ztg(""), ztg_malformed(ParseErrorKind::Separator, 0));
}

#[test]
fn ztg_duration_to_the_millisecond() {
    let data = do_parse_ztg(",042359.17,").unwrap();
    assert_eq!(data.fix_duration, Some(Duration::milliseconds(15_839_170)));
    let data = do_parse_ztg(",000000,").unwrap();
    assert_eq!(data.fix_duration, Some(Duration::zero()));
    let data = do_parse_ztg(",235959.999,").unwrap();
    assert_eq!(data.fix_duration, Some(Duration::milliseconds(86_399_999)));
    let data = do_parse_ztg(",000001.5,").unwrap();
    assert_eq!(data.fix_duration, Some(Duration::milliseconds(1_500)));
}

#[test]
fn ztg_duration_is_rounded_to_the_nearest_millisecond() {
    let data = do_parse_ztg(",000000.0004,").unwrap();
    assert_eq!(data.fix_duration, Some(Duration::milliseconds(0)));
    let data = do_parse_ztg(",000000.0005,").unwrap();
    assert_eq!(data.fix_duration, Some(Duration::milliseconds(1)));
    let data = do_parse_ztg(",000000.1796,").unwrap();
    assert_eq!(data.fix_duration, Some(Duration::milliseconds(180)));
    let data = do_parse_ztg(",000059.9996,").unwrap();
    assert_eq!(data.fix_duration, Some(Duration::seconds(60)));
}

#[test]
fn ztg_duration_of_a_day_and_more() {
    let data = do_parse_ztg(",240000,").unwrap();
    assert_eq!(data.fix_duration, Some(Duration::hours(24)));
    let data = do_parse_ztg(",995959.999,").unwrap();
    assert_eq!(data.fix_duration, Some(Duration::milliseconds(359_999_999)));
}

#[test]
fn ztg_duration_errors() {
    assert_eq!(do_parse_ztg(",046059.17,"), ztg_malformed(ParseErrorKind::Duration, 10));
    assert_eq!(do_parse_ztg(",042360.17,"), ztg_malformed(ParseErrorKind::Duration, 10));
    assert_eq!(do_parse_ztg(",4h23m,"), ztg_malformed(ParseErrorKind::Duration, 6));
    assert_eq!(do_parse_ztg(",-42359.17,"), ztg_malformed(ParseErrorKind::Duration, 10));
    assert_eq!(do_parse_ztg(",042359.17"), ztg_malformed(ParseErrorKind::Separator, 0));
}

#[test]
fn ztg_waypoint_is_all_up_to_the_marker() {
    let data = do_parse_ztg("145832.12,042359.17,WPT,X").unwrap();
    assert_eq!(data.waypoint_id.unwrap().as_str(), "WPT,X");
    let data = do_parse_ztg(",,WPT,more").unwrap();
    assert_eq!(data.waypoint_id.unwrap().as_str(), "WPT,more");
    let data = do_parse_ztg(",,,WPT").unwrap();
    assert_eq!(data.waypoint_id.unwrap().as_str(), ",WPT");
    let data = do_parse_ztg(",,,X").unwrap();
    assert_eq!(data.waypoint_id.unwrap().as_str(), ",X");
    let data = do_parse_ztg(",,WPT*24").unwrap();
    assert_eq!(data.waypoint_id.unwrap().as_str(), "WPT");
    let data = do_parse_ztg(",,WPT,X*24,Y").unwrap();
    assert_eq!(data.waypoint_id.unwrap().as_str(), "WPT,X");
    let data = do_parse_ztg(",,K\u{f8}ge Havn").unwrap();
    assert_eq!(data.waypoint_id.unwrap().as_str(), "K\u{f8}ge Havn");
    assert_eq!(do_parse_ztg(",,").unwrap().waypoint_id, None);
    assert_eq!(do_parse_ztg(",,*24").unwrap().waypoint_id, None);
}

#[test]
fn ztg_waypoint_length() {
    let exact = "W".repeat(64);
    let body = format!(",,{}", exact);
    assert_eq!(do_parse_ztg(&body).unwrap().waypoint_id.unwrap().as_str(), exact);
    let over = "W".repeat(65);
    let body = format!(",,{}*24", over);
    assert_eq!(
        do_parse_ztg(&body),
        Err(Error::ParameterLength { max_length: 64, parameter_length: 65 })
    );
    let body = format!(",,{},tail", "W".repeat(60));
    assert_eq!(
        do_parse_ztg(&body),
        Err(Error::ParameterLength { max_length: 64, parameter_length: 65 })
    );
}

#[test]
fn ztg_wrong_message_id() {
    let error = parse_ztg(NmeaSentence {
        talker_id: "GP",
        message_id: SentenceType::APA,
        data: "145832.12,042359.17,WPT",
        checksum: 0x24,
    });
    assert_eq!(
        error,
        Err(Error::WrongSentenceHeader { expected: SentenceType::ZTG, found: SentenceType::APA })
    );
}

#[test]
fn ztg_decoding_twice_gives_equal_records() {
    let body = "145832.12,042359.17,WPT";
    assert_eq!(do_parse_ztg(body), do_parse_ztg(body));
}
