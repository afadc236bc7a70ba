use textutils::decimal::{digit_of, parse_decimal, push_decimal};
use textutils::text::{byte_len, push_repeated};

#[test]
fn push_decimal_matches_std() {
    let samples: [u128; 12] =
        [0, 1, 9, 10, 11, 99, 100, 101, 12345, 1 << 64, u64::MAX as u128, u128::MAX];
    for n in samples {
        let mut out = String::from("n=");
        push_decimal(&mut out, n);
        assert_eq!(out, format!("n={}", n));
    }
}

#[test]
fn push_decimal_small_numbers() {
    for n in 0..2000u128 {
        let mut out = String::new();
        push_decimal(&mut out, n);
        assert_eq!(out, n.to_string());
    }
}

#[test]
fn parse_decimal_matches_std_on_digits() {
    for text in ["0", "7", "42", "007", "1000000", "18446744073709551615", "4294967295"] {
        assert_eq!(parse_decimal(text), text.parse::<usize>().ok());
    }
    assert_eq!(parse_decimal("12"), Some(12));
    assert_eq!(parse_decimal("000"), Some(0));
}

#[test]
fn parse_decimal_limits() {
    let max = usize::MAX.to_string();
    assert_eq!(parse_decimal(&max), Some(usize::MAX));
    let over = (usize::MAX as u128 + 1).to_string();
    assert_eq!(parse_decimal(&over), None);
    assert_eq!(parse_decimal("99999999999999999999999999999999999999999999"), None);
}

#[test]
fn parse_decimal_refuses_what_is_no_number() {
    assert_eq!(parse_decimal(""), None);
    assert_eq!(parse_decimal("12a"), None);
    assert_eq!(parse_decimal("a12"), None);
    assert_eq!(parse_decimal("+5"), None);
    assert_eq!(parse_decimal("-5"), None);
    assert_eq!(parse_decimal(" 5"), None);
    assert_eq!(parse_decimal("٣"), None);
}

#[test]
fn digit_of_matches_std() {
    for code in 0..=0x10FFFFu32 {
        if let Some(c) = char::from_u32(code) {
            let expected = if c.is_ascii_digit() { c.to_digit(10).map(|d| d as u8) } else { None };
            assert_eq!(digit_of(c), expected);
        }
    }
}

#[test]
fn push_repeated_appends() {
    let mut out = String::from("ab");
    push_repeated(&mut out, 'c', 3);
    assert_eq!(out, "abccc");
    push_repeated(&mut out, 'd', 0);
    assert_eq!(out, "abccc");
    push_repeated(&mut out, 'é', 2);
    assert_eq!(out, "abcccéé");
}

#[test]
fn byte_len_counts_bytes() {
    assert_eq!(byte_len(""), 0);
    assert_eq!(byte_len("abc"), 3);
    assert_eq!(byte_len("é✓"), 5);
}
