use cas_number::CasNumber;
use cas_number::validate;
use std::cmp::Ordering;

#[test]
fn water_parses_and_renders_verbatim() {
    let c = CasNumber::parse(b"7732-18-5").unwrap();
    assert_eq!(c.render(), b"7732-18-5".to_vec());
}

#[test]
fn formaldehyde_parses_and_renders_verbatim() {
    let c = CasNumber::parse(b"50-00-0").unwrap();
    assert_eq!(c.render(), b"50-00-0".to_vec());
}

#[test]
fn shortest_legal_form_parses() {
    // First segment of two digits: 1*4 + 0*3 + 0*2 + 0*1 = 4.
    let c = CasNumber::parse(b"10-00-4").unwrap();
    assert_eq!(c.render(), b"10-00-4".to_vec());
}

#[test]
fn longest_legal_form_parses() {
    // First segment of seven digits: the leading 1 carries weight 9.
    let c = CasNumber::parse(b"1000000-00-9").unwrap();
    assert_eq!(c.render(), b"1000000-00-9".to_vec());
}

#[test]
fn longest_form_with_wrong_check_digit_is_rejected() {
    assert!(CasNumber::parse(b"1000000-00-3").is_err());
    assert!(!validate(b"1000000-00-3"));
}

#[test]
fn wrong_checksum_is_rejected() {
    // Correct grammar, wrong trailing digit.
    assert!(CasNumber::parse(b"7732-18-6").is_err());
    assert!(!validate(b"7732-18-6"));
}

#[test]
fn leading_zero_is_rejected() {
    assert!(CasNumber::parse(b"0-00-0").is_err());
    assert!(CasNumber::parse(b"07732-18-5").is_err());
}

#[test]
fn wrong_segment_lengths_are_rejected() {
    assert!(CasNumber::parse(b"7732-1-5").is_err());
    assert!(CasNumber::parse(b"7732-185-0").is_err());
    assert!(CasNumber::parse(b"-18-5").is_err());
    assert!(CasNumber::parse(b"12345678-00-0").is_err());
}

#[test]
fn non_digit_bytes_are_rejected() {
    assert!(CasNumber::parse(b"7732-1a-5").is_err());
    assert!(CasNumber::parse(b"7732 18 5").is_err());
    assert!(CasNumber::parse(b"773218-5").is_err());
    assert!(CasNumber::parse(b" 7732-18-5").is_err());
    assert!(CasNumber::parse(b"7732-18-5 ").is_err());
}

#[test]
fn empty_input_is_rejected() {
    assert!(CasNumber::parse(b"").is_err());
    assert!(!validate(b""));
}

#[test]
fn rejection_carries_the_input_verbatim() {
    let e = CasNumber::parse(b"7732-18-6").unwrap_err();
    assert_eq!(e.input, b"7732-18-6".to_vec());
    let e = CasNumber::parse(b"not a cas number").unwrap_err();
    assert_eq!(e.input, b"not a cas number".to_vec());
}

#[test]
fn validate_agrees_with_parse() {
    assert!(validate(b"7732-18-5"));
    assert!(validate(b"50-00-0"));
    assert!(validate(b"10-00-4"));
    assert!(!validate(b"0-00-0"));
    assert!(!validate(b"7732-18-6"));
}

#[test]
fn compare_orders_byte_wise() {
    let water = CasNumber::parse(b"7732-18-5").unwrap();
    let formaldehyde = CasNumber::parse(b"50-00-0").unwrap();
    // '5' sorts before '7'.
    assert_eq!(formaldehyde.compare(&water), Ordering::Less);
    assert_eq!(water.compare(&formaldehyde), Ordering::Greater);
    assert_eq!(water.compare(&water), Ordering::Equal);

    // Byte-wise, not numeric: '-' (0x2d) sorts before '0' (0x30), so
    // 10-00-4 sorts before 100-00-5.
    let short = CasNumber::parse(b"10-00-4").unwrap();
    let long = CasNumber::parse(b"100-00-5").unwrap();
    assert_eq!(short.compare(&long), Ordering::Less);
    assert_eq!(long.compare(&short), Ordering::Greater);
}

#[test]
fn equal_and_hash_follow_the_text() {
    let a = CasNumber::parse(b"7732-18-5").unwrap();
    let b = CasNumber::parse(b"7732-18-5").unwrap();
    let c = CasNumber::parse(b"50-00-0").unwrap();
    assert!(a.equal(&b));
    assert!(a == b);
    assert!(!a.equal(&c));
    assert!(a != c);
    assert_eq!(a.hash(), b.hash());
}

#[test]
fn hash_is_deterministic_across_values() {
    let a = CasNumber::parse(b"10-00-4").unwrap();
    let b = CasNumber::parse(b"10-00-4").unwrap();
    assert_eq!(a.hash(), b.hash());
}
