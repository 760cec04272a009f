use redis_lite::decimal::{
    format_i64, format_u64, parse_i32, parse_i64, parse_u16, parse_u64, parse_usize,
};

#[test]
fn format_unsigned() {
    assert_eq!(format_u64(0), b"0".to_vec());
    assert_eq!(format_u64(7), b"7".to_vec());
    assert_eq!(format_u64(10), b"10".to_vec());
    assert_eq!(format_u64(6379), b"6379".to_vec());
    assert_eq!(format_u64(u64::MAX), b"18446744073709551615".to_vec());
}

#[test]
fn format_signed() {
    assert_eq!(format_i64(0), b"0".to_vec());
    assert_eq!(format_i64(-1), b"-1".to_vec());
    assert_eq!(format_i64(123), b"123".to_vec());
    assert_eq!(format_i64(i64::MIN), b"-9223372036854775808".to_vec());
    assert_eq!(format_i64(i64::MAX), b"9223372036854775807".to_vec());
}

#[test]
fn parse_unsigned() {
    assert_eq!(parse_u64(b"0"), Some(0));
    assert_eq!(parse_u64(b"100"), Some(100));
    assert_eq!(parse_u64(b"+100"), Some(100));
    assert_eq!(parse_u64(b"000100"), Some(100));
    assert_eq!(parse_u64(b"18446744073709551615"), Some(u64::MAX));
    assert_eq!(parse_u64(b"18446744073709551616"), None);
    assert_eq!(parse_u64(b"99999999999999999999999"), None);
    assert_eq!(parse_u64(b""), None);
    assert_eq!(parse_u64(b"+"), None);
    assert_eq!(parse_u64(b"-1"), None);
    assert_eq!(parse_u64(b"-0"), None);
    assert_eq!(parse_u64(b"12a"), None);
    assert_eq!(parse_u64(b" 12"), None);
    assert_eq!(parse_u64(b"++1"), None);
}

#[test]
fn parse_port() {
    assert_eq!(parse_u16(b"6379"), Some(6379));
    assert_eq!(parse_u16(b"65535"), Some(65535));
    assert_eq!(parse_u16(b"65536"), None);
    assert_eq!(parse_u16(b"port"), None);
}

#[test]
fn parse_length() {
    assert_eq!(parse_usize(b"88"), Some(88));
    assert_eq!(parse_usize(b"-1"), None);
    assert_eq!(parse_usize(b"340282366920938463463374607431768211456"), None);
}

#[test]
fn parse_signed() {
    assert_eq!(parse_i64(b"-1"), Some(-1));
    assert_eq!(parse_i64(b"+1"), Some(1));
    assert_eq!(parse_i64(b"1"), Some(1));
    assert_eq!(parse_i64(b"-0"), Some(0));
    assert_eq!(parse_i64(b"9223372036854775807"), Some(i64::MAX));
    assert_eq!(parse_i64(b"9223372036854775808"), None);
    assert_eq!(parse_i64(b"-9223372036854775808"), Some(i64::MIN));
    assert_eq!(parse_i64(b"-9223372036854775809"), None);
    assert_eq!(parse_i64(b"-"), None);
    assert_eq!(parse_i64(b""), None);
    assert_eq!(parse_i64(b"--1"), None);
    assert_eq!(parse_i64(b"-+1"), None);
    assert_eq!(parse_i64(b"1.5"), None);
}

#[test]
fn parse_small_signed() {
    assert_eq!(parse_i32(b"2"), Some(2));
    assert_eq!(parse_i32(b"-2147483648"), Some(i32::MIN));
    assert_eq!(parse_i32(b"2147483647"), Some(i32::MAX));
    assert_eq!(parse_i32(b"2147483648"), None);
    assert_eq!(parse_i32(b"-2147483649"), None);
}

#[test]
fn parse_agrees_with_the_standard_library() {
    let samples: [&str; 14] = [
        "0", "1", "-1", "+1", "007", "+", "-", "", "12x", "x12", "4294967296",
        "18446744073709551615", "-9223372036854775808", " 1",
    ];
    for text in samples {
        assert_eq!(parse_u64(text.as_bytes()), text.parse::<u64>().ok());
        assert_eq!(parse_i64(text.as_bytes()), text.parse::<i64>().ok());
        assert_eq!(parse_u16(text.as_bytes()), text.parse::<u16>().ok());
        assert_eq!(parse_i32(text.as_bytes()), text.parse::<i32>().ok());
        assert_eq!(parse_usize(text.as_bytes()), text.parse::<usize>().ok());
    }
}

#[test]
fn format_agrees_with_the_standard_library() {
    let samples: [i64; 8] = [0, 1, -1, 9, 10, -10, i64::MAX, i64::MIN];
    for n in samples {
        assert_eq!(format_i64(n), n.to_string().into_bytes());
        assert_eq!(parse_i64(&format_i64(n)), Some(n));
    }
    for n in [0u64, 9, 10, 99, 100, u64::MAX] {
        assert_eq!(format_u64(n), n.to_string().into_bytes());
        assert_eq!(parse_u64(&format_u64(n)), Some(n));
    }
}
