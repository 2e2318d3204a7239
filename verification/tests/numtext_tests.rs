use t2macd::numtext::format_u32;
use t2macd::numtext::parse_u32;

#[test]
fn format_renders_decimal_digits() {
    assert_eq!(format_u32(0), b"0".to_vec());
    assert_eq!(format_u32(7), b"7".to_vec());
    assert_eq!(format_u32(42), b"42".to_vec());
    assert_eq!(format_u32(80), b"80".to_vec());
    assert_eq!(format_u32(100), b"100".to_vec());
    assert_eq!(format_u32(4294967295), b"4294967295".to_vec());
}

#[test]
fn parse_reads_digit_runs() {
    assert_eq!(parse_u32(&b"0".to_vec()), Some(0));
    assert_eq!(parse_u32(&b"42".to_vec()), Some(42));
    assert_eq!(parse_u32(&b"080".to_vec()), Some(80));
    assert_eq!(parse_u32(&b"4294967295".to_vec()), Some(4294967295));
}

#[test]
fn parse_rejects_non_numbers() {
    assert_eq!(parse_u32(&b"".to_vec()), None);
    assert_eq!(parse_u32(&b"12a".to_vec()), None);
    assert_eq!(parse_u32(&b"-5".to_vec()), None);
    assert_eq!(parse_u32(&b" 12".to_vec()), None);
    assert_eq!(parse_u32(&b"12\n".to_vec()), None);
}

#[test]
fn parse_rejects_values_beyond_u32() {
    assert_eq!(parse_u32(&b"4294967296".to_vec()), None);
    assert_eq!(parse_u32(&b"99999999999999999999".to_vec()), None);
}

#[test]
fn format_then_parse_round_trips() {
    for n in [0u32, 1, 9, 10, 99, 1000, 65535, 4294967295] {
        assert_eq!(parse_u32(&format_u32(n)), Some(n));
    }
}
