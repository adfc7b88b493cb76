use rangefetch::chunk::FetchCause;
use rangefetch::header::{
    accepts_byte_ranges, check_status, format_decimal, parse_decimal, range_header,
};
use rangefetch::range::ByteRange;

#[test]
fn parses_decimal_numerals() {
    assert_eq!(parse_decimal(b"0"), Some(0));
    assert_eq!(parse_decimal(b"7"), Some(7));
    assert_eq!(parse_decimal(b"1000"), Some(1000));
    assert_eq!(parse_decimal(b"000123"), Some(123));
    assert_eq!(parse_decimal(b"18446744073709551615"), Some(u64::MAX));
}

#[test]
fn refuses_what_is_no_numeral() {
    assert_eq!(parse_decimal(b""), None);
    assert_eq!(parse_decimal(b" 12"), None);
    assert_eq!(parse_decimal(b"12 "), None);
    assert_eq!(parse_decimal(b"-1"), None);
    assert_eq!(parse_decimal(b"+1"), None);
    assert_eq!(parse_decimal(b"12a"), None);
    assert_eq!(parse_decimal(b"1.5"), None);
    assert_eq!(parse_decimal(b"/"), None);
    assert_eq!(parse_decimal(b":"), None);
}

#[test]
fn refuses_numerals_beyond_u64() {
    assert_eq!(parse_decimal(b"18446744073709551616"), None);
    assert_eq!(parse_decimal(b"18446744073709551620"), None);
    assert_eq!(parse_decimal(b"99999999999999999999"), None);
    assert_eq!(parse_decimal(b"184467440737095516150"), None);
    assert_eq!(parse_decimal(b"00018446744073709551615"), Some(u64::MAX));
}

#[test]
fn formats_decimal_numerals() {
    assert_eq!(format_decimal(0), b"0".to_vec());
    assert_eq!(format_decimal(9), b"9".to_vec());
    assert_eq!(format_decimal(10), b"10".to_vec());
    assert_eq!(format_decimal(1000), b"1000".to_vec());
    assert_eq!(format_decimal(u64::MAX), b"18446744073709551615".to_vec());
}

#[test]
fn parsing_reads_back_what_formatting_wrote() {
    let values: [u64; 8] = [0, 1, 9, 10, 99, 100, 4_294_967_296, u64::MAX];
    let mut i: usize = 0;
    while i < values.len() {
        let text = format_decimal(values[i]);
        assert_eq!(parse_decimal(&text), Some(values[i]));
        i += 1;
    }
}

#[test]
fn range_header_names_first_and_last_offset() {
    let range = ByteRange { index: 1, start: 250, end: 499 };
    assert_eq!(range_header(&range), Some(b"bytes=250-499".to_vec()));
    let range = ByteRange { index: 0, start: 0, end: 0 };
    assert_eq!(range_header(&range), Some(b"bytes=0-0".to_vec()));
    let range = ByteRange { index: 0, start: 1, end: u64::MAX };
    assert_eq!(range_header(&range), Some(b"bytes=1-18446744073709551615".to_vec()));
}

#[test]
fn the_unbounded_range_is_fetched_without_a_range_header() {
    assert_eq!(range_header(&ByteRange::whole_stream()), None);
}

#[test]
fn accept_ranges_is_read_without_regard_to_case() {
    assert!(accepts_byte_ranges(b"bytes"));
    assert!(accepts_byte_ranges(b"Bytes"));
    assert!(accepts_byte_ranges(b"BYTES"));
    assert!(!accepts_byte_ranges(b"none"));
    assert!(!accepts_byte_ranges(b""));
    assert!(!accepts_byte_ranges(b"byte"));
    assert!(!accepts_byte_ranges(b"bytes "));
    assert!(!accepts_byte_ranges(b"bytez"));
    assert!(!accepts_byte_ranges(b"\x02ytes"));
}

#[test]
fn accepts_the_statuses_from_200_to_299() {
    assert_eq!(check_status(200), Ok(()));
    assert_eq!(check_status(206), Ok(()));
    assert_eq!(check_status(299), Ok(()));
}

#[test]
fn every_other_status_fails_the_fetch() {
    assert_eq!(check_status(199), Err(FetchCause::Status(199)));
    assert_eq!(check_status(300), Err(FetchCause::Status(300)));
    assert_eq!(check_status(404), Err(FetchCause::Status(404)));
    assert_eq!(check_status(416), Err(FetchCause::Status(416)));
    assert_eq!(check_status(500), Err(FetchCause::Status(500)));
    assert_eq!(check_status(0), Err(FetchCause::Status(0)));
    assert_eq!(check_status(u16::MAX), Err(FetchCause::Status(u16::MAX)));
}
