use channel_node::text::decimal;
use channel_node::text::hex_str;
use channel_node::text::nibble;
use channel_node::text::parse_decimal;
use channel_node::text::to_vec;

#[test]
fn hex_str_writes_two_lower_case_digits_per_byte() {
    assert_eq!(hex_str(&[]), "");
    assert_eq!(hex_str(&[0x00]), "00");
    assert_eq!(hex_str(&[0x0f, 0xa0, 0xff]), "0fa0ff");
    assert_eq!(hex_str(&[0xde, 0xad, 0xbe, 0xef, 0x01, 0x23]), "deadbeef0123");
}

#[test]
fn to_vec_reads_both_cases() {
    assert_eq!(to_vec(""), Some(vec![]));
    assert_eq!(to_vec("00"), Some(vec![0x00]));
    assert_eq!(to_vec("deadBEEF0123"), Some(vec![0xde, 0xad, 0xbe, 0xef, 0x01, 0x23]));
    assert_eq!(to_vec("09afAF"), Some(vec![0x09, 0xaf, 0xaf]));
}

#[test]
fn to_vec_refuses_odd_length() {
    assert_eq!(to_vec("0"), None);
    assert_eq!(to_vec("abc"), None);
}

#[test]
fn to_vec_refuses_other_characters() {
    assert_eq!(to_vec("0g"), None);
    assert_eq!(to_vec("g0"), None);
    assert_eq!(to_vec("0x12"), None);
    assert_eq!(to_vec(" 12 "), None);
    assert_eq!(to_vec("é0"), None);
    assert_eq!(to_vec("/0"), None);
    assert_eq!(to_vec(":0"), None);
    assert_eq!(to_vec("@0"), None);
    assert_eq!(to_vec("G0"), None);
    assert_eq!(to_vec("`0"), None);
}

#[test]
fn hex_text_reads_back_as_the_bytes() {
    let mut bytes: Vec<u8> = Vec::new();
    for b in 0..=255u8 {
        bytes.push(b);
    }
    let text = hex_str(&bytes);
    assert_eq!(text.len(), 512);
    assert_eq!(to_vec(&text), Some(bytes));
}

#[test]
fn decimal_writes_digits_without_leading_zeros() {
    assert_eq!(decimal(0), "0");
    assert_eq!(decimal(7), "7");
    assert_eq!(decimal(10), "10");
    assert_eq!(decimal(100_000), "100000");
    assert_eq!(decimal(9_007_199_254_740_993), "9007199254740993");
    assert_eq!(decimal(u64::MAX), "18446744073709551615");
}

#[test]
fn decimal_agrees_with_the_standard_text() {
    let mut n: u64 = 1;
    for _ in 0..19 {
        assert_eq!(decimal(n), n.to_string());
        assert_eq!(decimal(n - 1), (n - 1).to_string());
        n *= 10;
    }
}

#[test]
fn parse_decimal_reads_what_decimal_writes() {
    assert_eq!(parse_decimal(b"0"), Some(0));
    assert_eq!(parse_decimal(b"7"), Some(7));
    assert_eq!(parse_decimal(b"100000"), Some(100_000));
    assert_eq!(parse_decimal(b"18446744073709551615"), Some(u64::MAX));
    for n in [0u64, 9, 10, 99, 100, 65_535, 4_294_967_296, u64::MAX - 1] {
        assert_eq!(parse_decimal(decimal(n).as_bytes()), Some(n));
    }
}

#[test]
fn parse_decimal_refuses_what_does_not_fit() {
    assert_eq!(parse_decimal(b"18446744073709551616"), None);
    assert_eq!(parse_decimal(b"18446744073709551620"), None);
    assert_eq!(parse_decimal(b"99999999999999999999"), None);
    assert_eq!(parse_decimal(b"100000000000000000000"), None);
}

#[test]
fn parse_decimal_refuses_other_texts() {
    assert_eq!(parse_decimal(b""), None);
    assert_eq!(parse_decimal(b"00"), None);
    assert_eq!(parse_decimal(b"01"), None);
    assert_eq!(parse_decimal(b"+1"), None);
    assert_eq!(parse_decimal(b"-1"), None);
    assert_eq!(parse_decimal(b"1 "), None);
    assert_eq!(parse_decimal(b"1a"), None);
    assert_eq!(parse_decimal(b"/"), None);
    assert_eq!(parse_decimal(b":"), None);
    assert_eq!(parse_decimal(b"1.0"), None);
}

#[test]
fn nibble_reads_one_digit() {
    assert_eq!(nibble(b'0'), Some(0));
    assert_eq!(nibble(b'9'), Some(9));
    assert_eq!(nibble(b'a'), Some(10));
    assert_eq!(nibble(b'f'), Some(15));
    assert_eq!(nibble(b'A'), Some(10));
    assert_eq!(nibble(b'F'), Some(15));
    assert_eq!(nibble(b'g'), None);
    assert_eq!(nibble(b' '), None);
}
