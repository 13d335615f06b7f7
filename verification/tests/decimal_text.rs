use merkle_session::decimal::{format_decimal, parse_decimal};
use merkle_session::token::{format_token, parse_token};

#[test]
fn parse_decimal_reads_plain_digits() {
    assert_eq!(parse_decimal("0"), Some(0));
    assert_eq!(parse_decimal("42"), Some(42));
    assert_eq!(parse_decimal("18446744073709551615"), Some(u64::MAX));
}

#[test]
fn parse_decimal_takes_a_plus_sign_and_leading_zeros() {
    assert_eq!(parse_decimal("+7"), Some(7));
    assert_eq!(parse_decimal("007"), Some(7));
    assert_eq!(parse_decimal("+000"), Some(0));
    assert_eq!(parse_decimal("00000000000000000000000000018446744073709551615"), Some(u64::MAX));
}

#[test]
fn parse_decimal_refuses_what_does_not_fit() {
    assert_eq!(parse_decimal("18446744073709551616"), None);
    assert_eq!(parse_decimal("18446744073709551620"), None);
    assert_eq!(parse_decimal("99999999999999999999999"), None);
}

#[test]
fn parse_decimal_refuses_what_is_no_number() {
    for text in ["", "+", "-1", "-0", "1a", "a1", " 1", "1 ", "1.0", "0x10", "++1", "1+", "１２", "é"] {
        assert_eq!(parse_decimal(text), None, "{:?}", text);
    }
}

#[test]
fn parse_decimal_agrees_with_the_standard_parser() {
    for text in ["0", "1", "+1", "-1", "", "+", "010", "18446744073709551615", "18446744073709551616", "12x", "٣"] {
        assert_eq!(parse_decimal(text), text.parse::<u64>().ok(), "{:?}", text);
    }
}

#[test]
fn format_decimal_is_canonical() {
    assert_eq!(format_decimal(0), "0");
    assert_eq!(format_decimal(9), "9");
    assert_eq!(format_decimal(10), "10");
    assert_eq!(format_decimal(1234567890), "1234567890");
    assert_eq!(format_decimal(u64::MAX), "18446744073709551615");
}

#[test]
fn format_then_parse_gives_the_number_back() {
    for n in [0u64, 1, 9, 10, 99, 100, 4294967295, 4294967296, u64::MAX - 1, u64::MAX] {
        assert_eq!(parse_decimal(&format_decimal(n)), Some(n));
    }
}

#[test]
fn tokens_are_the_letter_s_and_the_number() {
    assert_eq!(format_token(1), "s1");
    assert_eq!(format_token(0), "s0");
    assert_eq!(format_token(u64::MAX), "s18446744073709551615");
}

#[test]
fn parse_token_reads_only_what_format_token_writes() {
    assert_eq!(parse_token("s1"), Some(1));
    assert_eq!(parse_token("s0"), Some(0));
    assert_eq!(parse_token("s18446744073709551615"), Some(u64::MAX));
    for text in ["", "s", "1", "S1", "s01", "s+1", "s-1", "s1 ", " s1", "ss1", "s18446744073709551616", "sé"] {
        assert_eq!(parse_token(text), None, "{:?}", text);
    }
}

/// A small deterministic generator, so that the cases are the same on every run.
fn next(state: &mut u64) -> u64 {
    *state = state.wrapping_mul(6364136223846793005).wrapping_add(1442695040888963407);
    *state >> 33
}

#[test]
fn parse_decimal_agrees_with_the_standard_parser_on_many_texts() {
    let alphabet: Vec<char> = "0123456789+- a٣".chars().collect();
    let mut state = 7u64;
    let mut accepted = 0;
    for _ in 0..40000 {
        let len = (next(&mut state) % 23) as usize;
        let mut text = String::new();
        for _ in 0..len {
            // mostly digits, so that long valid numbers and overflows occur
            let pick = next(&mut state) % 40;
            let c = if pick < 10 { alphabet[pick as usize] } else if pick < 36 { alphabet[(pick % 10) as usize] } else { alphabet[10 + (pick % 5) as usize] };
            text.push(c);
        }
        let expected = text.parse::<u64>().ok();
        assert_eq!(parse_decimal(&text), expected, "{:?}", text);
        if expected.is_some() {
            accepted += 1;
        }
    }
    assert!(accepted > 1000);
}

#[test]
fn format_decimal_agrees_with_the_standard_rendering_on_many_numbers() {
    let mut state = 11u64;
    for _ in 0..20000 {
        let shift = next(&mut state) % 64;
        let n = (next(&mut state) << 33 | next(&mut state)) >> shift;
        assert_eq!(format_decimal(n), n.to_string());
        assert_eq!(parse_decimal(&format_decimal(n)), Some(n));
        assert_eq!(parse_token(&format_token(n)), Some(n));
    }
}
