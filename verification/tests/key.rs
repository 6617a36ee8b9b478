use crisclip::key::{key_read_would_split, parse_key, to_hex, KeyError};
use crisclip::text::decimal_string;

#[test]
fn hex_is_lower_case_two_digits_per_byte() {
    assert_eq!(to_hex(&[0x00, 0x0f, 0xa0, 0xff]), "000fa0ff");
    assert_eq!(to_hex(&[]), "");
}

#[test]
fn key_reads_back_from_its_hex() {
    let key: [u8; 32] = core::array::from_fn(|i| (i * 37 + 5) as u8);
    let hex = to_hex(&key);
    assert_eq!(hex.len(), 64);
    assert_eq!(parse_key(&hex), Ok(key));
}

#[test]
fn key_ignores_surrounding_white_space() {
    let key = [0xabu8; 32];
    let hex = format!(" \t{}\n", to_hex(&key));
    assert_eq!(parse_key(&hex), Ok(key));
    let wide = format!("\u{3000}{}\u{a0}", to_hex(&key));
    assert_eq!(parse_key(&wide), Ok(key));
}

#[test]
fn key_accepts_upper_case() {
    let hex = "AB".repeat(30) + "0f" + "0A";
    let mut expected = [0xabu8; 32];
    expected[30] = 0x0f;
    expected[31] = 0x0a;
    assert_eq!(parse_key(&hex), Ok(expected));
}

#[test]
fn key_with_sign_is_refused() {
    assert_eq!(parse_key(&"+0".repeat(32)), Err(KeyError::NotHex));
    let hex = "AB".repeat(30) + "+f" + "0A";
    assert_eq!(parse_key(&hex), Err(KeyError::NotHex));
}

#[test]
fn key_of_wrong_length_is_refused() {
    assert_eq!(parse_key("abcd"), Err(KeyError::Length));
    assert_eq!(parse_key(&"a".repeat(65)), Err(KeyError::Length));
    assert_eq!(parse_key(""), Err(KeyError::Length));
}

#[test]
fn key_with_non_hex_is_refused() {
    let hex = "zz".repeat(32);
    assert_eq!(parse_key(&hex), Err(KeyError::NotHex));
    let minus = "-1".to_string() + &"00".repeat(31);
    assert_eq!(parse_key(&minus), Err(KeyError::NotHex));
}

#[test]
fn key_read_that_would_split_a_character_is_detected() {
    // "é" takes two bytes; at an odd offset a pair boundary falls inside it.
    let split = "0".to_string() + "é" + &"0".repeat(61);
    assert_eq!(split.len(), 64);
    assert!(key_read_would_split(&split));
    // The same character on a pair boundary is only an invalid pair.
    let aligned = "é".to_string() + &"0".repeat(62);
    assert!(!key_read_would_split(&aligned));
    assert_eq!(parse_key(&aligned), Err(KeyError::NotHex));
    // An earlier invalid pair stops the read before the split.
    let early = "zz0".to_string() + "é" + &"0".repeat(59);
    assert!(!key_read_would_split(&early));
    assert_eq!(parse_key(&early), Err(KeyError::NotHex));
}

#[test]
fn key_error_messages() {
    assert_eq!(
        KeyError::Length.message(),
        "the key must be 64 hex characters; run `crisclip keygen`"
    );
    assert_eq!(KeyError::NotHex.message(), "the key has non-hex characters");
}

#[test]
fn decimal_notation() {
    assert_eq!(decimal_string(0), "0");
    assert_eq!(decimal_string(7), "7");
    assert_eq!(decimal_string(1080), "1080");
    assert_eq!(decimal_string(u64::MAX), "18446744073709551615");
}
