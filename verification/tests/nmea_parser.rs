use gnss_clock::datetime::{Date, Time};
use gnss_clock::nmea::error::Error;
use gnss_clock::nmea::parser::{date_dmy, hex, message, number, parse, time_hms_nano, Message, MessageType};
use gnss_clock::nmea::rmc::RmcData;
use gnss_clock::nmea::txt::TxtData;

fn hms(h: u8, m: u8, s: u8) -> Time {
    Time::from_hms_nano(h, m, s, 0).unwrap()
}

fn hms_nano(h: u8, m: u8, s: u8, nano: u32) -> Time {
    Time::from_hms_nano(h, m, s, nano).unwrap()
}

fn ymd(y: u16, m: u8, d: u8) -> Date {
    Date::from_ymd(y, m, d).unwrap()
}

#[test]
fn test_hms_nano() {
    assert_eq!(time_hms_nano(b"083559", 0), Some((hms(8, 35, 59), 6)));
    assert_eq!(
        time_hms_nano(b"012345.1", 0),
        Some((hms_nano(1, 23, 45, 100_000_000), 8))
    );
    assert_eq!(
        time_hms_nano(b"012345.02", 0),
        Some((hms_nano(1, 23, 45, 20_000_000), 9))
    );
    assert_eq!(
        time_hms_nano(b"012345.000003", 0),
        Some((hms_nano(1, 23, 45, 3_000), 13))
    );
    assert_eq!(
        time_hms_nano(b"012345.000000004", 0),
        Some((hms_nano(1, 23, 45, 4), 16))
    );
    assert_eq!(
        time_hms_nano(b"012345.0000000005", 0),
        Some((hms_nano(1, 23, 45, 0), 17))
    );
    assert_eq!(
        time_hms_nano(b"083559.200", 0),
        Some((hms_nano(8, 35, 59, 200_000_000), 10))
    );
    assert_eq!(
        time_hms_nano(b"083559.200000", 0),
        Some((hms_nano(8, 35, 59, 200_000_000), 13))
    );
    assert_eq!(
        time_hms_nano(b"083559.200000000", 0),
        Some((hms_nano(8, 35, 59, 200_000_000), 16))
    );
    assert_eq!(
        time_hms_nano(b"083559.2000000000", 0),
        Some((hms_nano(8, 35, 59, 200_000_000), 17))
    );
}

#[test]
fn time_rejects_out_of_range_fields() {
    assert_eq!(time_hms_nano(b"240000", 0), None);
    assert_eq!(time_hms_nano(b"236000", 0), None);
    assert_eq!(time_hms_nano(b"235960", 0), None);
    assert_eq!(time_hms_nano(b"23595", 0), None);
    assert_eq!(time_hms_nano(b"23x959", 0), None);
}

#[test]
fn test_date_dmy() {
    assert_eq!(date_dmy(b"091202", 0), Some((ymd(2002, 12, 9), 6)));
}

#[test]
fn date_rejects_bad_calendar_days() {
    assert_eq!(date_dmy(b"320125", 0), None);
    assert_eq!(date_dmy(b"011325", 0), None);
    assert_eq!(date_dmy(b"290224", 0), Some((ymd(2024, 2, 29), 6)));
    assert_eq!(date_dmy(b"290223", 0), None);
}

#[test]
fn test_message_rmc() {
    let s = b"GPRMC,083559.00,A,4717.11437,N,00833.91522,E,0.004,77.52,091202,,,A,V";
    assert_eq!(
        message(s),
        Some((
            Message {
                talker: ('G', 'P'),
                data: MessageType::Rmc(RmcData {
                    time: Some(hms(8, 35, 59)),
                    date: Some(ymd(2002, 12, 9)),
                }),
            },
            s.len() - ",,A,V".len()
        ))
    );
    let s = b"GPRMC,,V,,,,,,,,,,,";
    assert_eq!(
        message(s),
        Some((
            Message {
                talker: ('G', 'P'),
                data: MessageType::Rmc(RmcData {
                    time: None,
                    date: None,
                }),
            },
            s.len() - ",,,".len()
        ))
    );
}

#[test]
fn test_message_txt() {
    let s = b"GPTXT,01,02,03,ANTARIS ATR0620 HW 00000040";
    assert_eq!(
        message(s),
        Some((
            Message {
                talker: ('G', 'P'),
                data: MessageType::Txt(TxtData {
                    num_msg: 1,
                    num: 2,
                    id: 3,
                    text: b"ANTARIS ATR0620 HW 00000040".to_vec(),
                }),
            },
            s.len()
        ))
    );
}

#[test]
fn message_keeps_unsupported_tag() {
    let s = b"GPGGA,123519,4807.038,N";
    assert_eq!(
        message(s),
        Some((
            Message {
                talker: ('G', 'P'),
                data: MessageType::Unsupported(('G', 'G', 'A')),
            },
            6
        ))
    );
}

#[test]
fn test_parse() {
    assert_eq!(
        parse(b"$GPTXT,01,01,02,ANTARIS ATR0620 HW 00000040*67\r\n"),
        Ok(Message {
            talker: ('G', 'P'),
            data: MessageType::Txt(TxtData {
                num_msg: 1,
                num: 1,
                id: 2,
                text: b"ANTARIS ATR0620 HW 00000040".to_vec(),
            }),
        })
    );

    assert_eq!(
        parse(b"$GNRMC,081915.00,V,,,,,,,030525,,,N,V*1C\r\n"),
        Ok(Message {
            talker: ('G', 'N'),
            data: MessageType::Rmc(RmcData {
                time: Some(hms(8, 19, 15)),
                date: Some(ymd(2025, 5, 3)),
            }),
        })
    );
}

#[test]
fn parse_rejects_missing_envelope() {
    assert_eq!(
        parse(b"GNRMC,081915.00,V,,,,,,,030525,,,N,V\r\n"),
        Err(Error::InvalidFrame)
    );
    assert_eq!(parse(b"$GNRMC"), Err(Error::InvalidFrame));
    assert_eq!(parse(b""), Err(Error::InvalidFrame));
}

#[test]
fn parse_rejects_checksum_mismatch() {
    // body "AB" folds to 0x41 ^ 0x42 = 0x03; the suffix claims 0x00
    assert_eq!(
        parse(b"$AB*00\r\n"),
        Err(Error::ChecksumMismatch {
            expected: 0x00,
            actual: 0x03,
        })
    );
}

#[test]
fn parse_rejects_non_ascii_body() {
    assert_eq!(parse(b"$GPTXT,01,01,02,\xffoo\r\n"), Err(Error::Utf8Error));
}

#[test]
fn parse_rejects_malformed_fields() {
    assert_eq!(parse(b"$GP\r\n"), Err(Error::ParseError));
    assert_eq!(parse(b"$GPRMC,12qq56,\r\n"), Err(Error::ParseError));
    assert_eq!(parse(b"$GPTXT,999,01,02,hello\r\n"), Err(Error::ParseError));
}

#[test]
fn hex_digit_values() {
    assert_eq!(hex(b'0'), 0);
    assert_eq!(hex(b'9'), 9);
    assert_eq!(hex(b'A'), 10);
    assert_eq!(hex(b'F'), 15);
    assert_eq!(hex(b'a'), 10);
    assert_eq!(hex(b'f'), 15);
    assert_eq!(hex(b'z'), 0);
}

#[test]
fn number_field_bounds() {
    assert_eq!(number(b"255,", 0), Some((255, 3)));
    assert_eq!(number(b"007", 0), Some((7, 3)));
    assert_eq!(number(b"256", 0), None);
    assert_eq!(number(b"", 0), None);
    assert_eq!(number(b",", 0), None);
}

#[test]
fn fraction_scaling_edges() {
    // eleven nines do not fit a machine word: the whole time field fails
    assert_eq!(time_hms_nano(b"012345.99999999999", 0), None);
    // the largest value that fits is truncated from ten digits to nine
    assert_eq!(
        time_hms_nano(b"012345.4294967295", 0),
        Some((hms_nano(1, 23, 45, 429_496_729), 17))
    );
    // a long run of leading zeros still fits and scales down to nothing
    assert_eq!(
        time_hms_nano(b"012345.0000000000000001", 0),
        Some((hms_nano(1, 23, 45, 0), 23))
    );
    assert_eq!(
        time_hms_nano(b"012345.0000000000000000000", 0),
        Some((hms_nano(1, 23, 45, 0), 26))
    );
    // a dot with no digit after it is not a fraction: it stays unread
    assert_eq!(time_hms_nano(b"012345.", 0), Some((hms(1, 23, 45), 6)));
}
