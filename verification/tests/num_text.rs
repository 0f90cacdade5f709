use thegarii::num::parse_unsigned;
use thegarii::text::{push_decimal, push_hex, split_commas_exec, str_eq};
use thegarii::IntErrorKind;

fn std_kind(e: &std::num::ParseIntError) -> IntErrorKind {
    match e.kind() {
        std::num::IntErrorKind::Empty => IntErrorKind::Empty,
        std::num::IntErrorKind::InvalidDigit => IntErrorKind::InvalidDigit,
        std::num::IntErrorKind::PosOverflow => IntErrorKind::PosOverflow,
        other => panic!("unexpected kind {:?}", other),
    }
}

const SAMPLES: &[&str] = &[
    "", "+", "-", "0", "7", "+7", "-7", "++7", "+-7", "42", "007", "255", "256", "65535", "65536",
    "12a", "a12", " 12", "12 ", "1_000", "18446744073709551615", "18446744073709551616",
    "99999999999999999999x", "x99999999999999999999", "٣", "1٣",
];

#[test]
fn parse_unsigned_agrees_with_std_u64() {
    for s in SAMPLES {
        let ours = parse_unsigned(s, u64::MAX);
        let theirs = s.parse::<u64>().map_err(|e| std_kind(&e));
        assert_eq!(ours, theirs, "on {:?}", s);
    }
}

#[test]
fn parse_unsigned_agrees_with_std_u16_and_u8() {
    for s in SAMPLES {
        let ours = parse_unsigned(s, u16::MAX as u64).map(|v| v as u16);
        let theirs = s.parse::<u16>().map_err(|e| std_kind(&e));
        assert_eq!(ours, theirs, "u16 on {:?}", s);
        let ours = parse_unsigned(s, u8::MAX as u64).map(|v| v as u8);
        let theirs = s.parse::<u8>().map_err(|e| std_kind(&e));
        assert_eq!(ours, theirs, "u8 on {:?}", s);
    }
}

#[test]
fn parse_unsigned_values() {
    assert_eq!(parse_unsigned("42", u64::MAX), Ok(42));
    assert_eq!(parse_unsigned("+42", u64::MAX), Ok(42));
    assert_eq!(parse_unsigned("", u64::MAX), Err(IntErrorKind::Empty));
    assert_eq!(parse_unsigned("+", u64::MAX), Err(IntErrorKind::InvalidDigit));
    assert_eq!(parse_unsigned("256", 255), Err(IntErrorKind::PosOverflow));
    assert_eq!(parse_unsigned("99999999999999999999x", u64::MAX), Err(IntErrorKind::PosOverflow));
}

#[test]
fn split_commas_pieces() {
    assert_eq!(split_commas_exec("a,b,,c"), vec!["a", "b", "", "c"]);
    assert_eq!(split_commas_exec(""), vec![""]);
    assert_eq!(split_commas_exec(","), vec!["", ""]);
    assert_eq!(split_commas_exec("https://arweave.net"), vec!["https://arweave.net"]);
}

#[test]
fn split_commas_joins_back() {
    for s in ["a,b,,c", "", ",", "x", "é,ü"] {
        let parts = split_commas_exec(s);
        assert_eq!(parts.join(","), s);
        let theirs: Vec<String> = s.split(',').map(|p| p.to_string()).collect();
        assert_eq!(parts, theirs);
    }
}

#[test]
fn str_eq_compares_texts() {
    assert!(str_eq("unclaimed", "unclaimed"));
    assert!(!str_eq("unclaimed", "unclaime"));
    assert!(!str_eq("abc", "abd"));
    assert!(str_eq("", ""));
}

#[test]
fn decimal_and_hex_writing() {
    for n in [0u64, 7, 10, 42, 1000, u64::MAX] {
        let mut s = String::from("x");
        push_decimal(&mut s, n);
        assert_eq!(s, format!("x{}", n));
        assert_eq!(parse_unsigned(&s[1..], u64::MAX), Ok(n));
    }
    let mut s = String::new();
    push_hex(&mut s, &[0x00, 0x0f, 0xab, 0xff]);
    assert_eq!(s, "000fabff");
}
