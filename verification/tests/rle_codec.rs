use textutils::rle::decode::decode;
use textutils::rle::encode::encode;
use textutils::rle::error::RleError;

fn lines(texts: &[&str]) -> Vec<String> {
    texts.iter().map(|t| t.to_string()).collect()
}

fn encoded(text: &str) -> String {
    encode(&lines(&[text]))
}

fn decoded(text: &str) -> Result<String, RleError> {
    decode(&lines(&[text]))
}

#[test]
fn encode_single_run() {
    assert_eq!(encoded("aaaaa"), "a5");
    assert_eq!(encoded("z"), "z1");
}

#[test]
fn encode_several_runs() {
    assert_eq!(encoded("aba"), "a1b1a1");
    assert_eq!(encoded("aaabccdddd"), "a3b1c2d4");
    assert_eq!(encoded("  \t\t"), " 2\t2");
}

#[test]
fn encode_multi_digit_count() {
    assert_eq!(encoded("xxxxxxxxxxxx"), "x12");
    let long = "q".repeat(1000);
    assert_eq!(encoded(&long), "q1000");
    let round = "m".repeat(10);
    assert_eq!(encoded(&round), "m10");
}

#[test]
fn encode_empty() {
    assert_eq!(encode(&Vec::new()), "");
    assert_eq!(encoded(""), "");
    assert_eq!(encode(&lines(&["", "", ""])), "");
}

#[test]
fn encode_run_across_lines() {
    assert_eq!(encode(&lines(&["aa", "ab"])), "a3b1");
    assert_eq!(encode(&lines(&["aa", "", "a"])), "a3");
    assert_eq!(encode(&lines(&["ab", "cd"])), "a1b1c1d1");
}

#[test]
fn encode_unicode_and_nul() {
    assert_eq!(encoded("ééé✓"), "é3✓1");
    assert_eq!(encoded("\0\0a"), "\u{0}2a1");
    assert_eq!(encoded("a\0\0"), "a1\u{0}2");
}

#[test]
fn encode_digits_in_text() {
    assert_eq!(encoded("111"), "13");
    assert_eq!(encoded("a1"), "a111");
}

#[test]
fn decode_single_run() {
    assert_eq!(decoded("a5"), Ok("aaaaa".to_string()));
}

#[test]
fn decode_several_runs() {
    assert_eq!(decoded("a1b1a1"), Ok("aba".to_string()));
    assert_eq!(decoded("a3b1c2d4"), Ok("aaabccdddd".to_string()));
}

#[test]
fn decode_multi_digit_count() {
    assert_eq!(decoded("x12"), Ok("x".repeat(12)));
    assert_eq!(decoded("q1000"), Ok("q".repeat(1000)));
}

#[test]
fn decode_empty() {
    assert_eq!(decode(&Vec::new()), Ok(String::new()));
    assert_eq!(decoded(""), Ok(String::new()));
    assert_eq!(decode(&lines(&["", ""])), Ok(String::new()));
}

#[test]
fn decode_zero_and_leading_zeros() {
    assert_eq!(decoded("a0b2"), Ok("bb".to_string()));
    assert_eq!(decoded("a005"), Ok("aaaaa".to_string()));
}

#[test]
fn decode_digit_as_run_character() {
    assert_eq!(decoded("13"), Ok("111".to_string()));
    assert_eq!(decoded("a111"), Ok("a".repeat(111)));
}

#[test]
fn decode_run_across_lines() {
    assert_eq!(decode(&lines(&["a", "5"])), Ok("aaaaa".to_string()));
    assert_eq!(decode(&lines(&["a1", "2b", "", "3"])), Ok("a".repeat(12) + "bbb"));
}

#[test]
fn decode_missing_count() {
    assert_eq!(decoded("ab3"), Err(RleError::ParseCount(String::new())));
    assert_eq!(decoded("a"), Err(RleError::ParseCount(String::new())));
    assert_eq!(decoded("a3b"), Err(RleError::ParseCount(String::new())));
    assert_eq!(decoded("hello"), Err(RleError::ParseCount(String::new())));
}

#[test]
fn decode_count_too_large() {
    let digits = "99999999999999999999999999999999999999999";
    let text = format!("a2b{}c1", digits);
    assert_eq!(decoded(&text), Err(RleError::ParseCount(digits.to_string())));
}

#[test]
fn decode_first_bad_run_is_reported() {
    let digits = "340282366920938463463374607431768211456";
    let text = format!("a{}bc", digits);
    assert_eq!(decoded(&text), Err(RleError::ParseCount(digits.to_string())));
    let text = format!("ab{}", digits);
    assert_eq!(decoded(&text), Err(RleError::ParseCount(String::new())));
}

#[test]
fn round_trip_without_digits() {
    for text in ["", "a", "aaaaa", "aba", "hello  world", "ééé✓✓", "\0\0\0x", "7777abc"] {
        assert_eq!(decoded(&encoded(text)), Ok(text.to_string()));
    }
    let long = "a".repeat(300) + &"b".repeat(45) + "c";
    assert_eq!(decoded(&encoded(&long)), Ok(long));
}

#[test]
fn round_trip_fails_on_later_digit() {
    assert_eq!(encoded("a1"), "a111");
    assert_eq!(decoded("a111"), Ok("a".repeat(111)));
    assert_ne!(decoded(&encoded("a1")), Ok("a1".to_string()));
}

#[test]
fn round_trip_over_lines() {
    let input = lines(&["aab", "bbc", "", "c"]);
    let text = encode(&input);
    assert_eq!(text, "a2b3c2");
    assert_eq!(decode(&lines(&[&text])), Ok("aabbbcc".to_string()));
}
