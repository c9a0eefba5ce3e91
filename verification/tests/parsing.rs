use bytesize::parse::parse;
use bytesize::parse::parse_bytes;
use bytesize::parse::ParseError;
use bytesize::ByteSize;

#[test]
fn parse_plain_bytes() {
    assert_eq!(parse("215"), Ok(ByteSize(215)));
    assert_eq!(parse("0"), Ok(ByteSize(0)));
    assert_eq!(parse("215 B"), Ok(ByteSize(215)));
    assert_eq!(parse("  42  "), Ok(ByteSize(42)));
}

#[test]
fn parse_binary_units() {
    assert_eq!(parse("1.5KiB"), Ok(ByteSize(1536)));
    assert_eq!(parse("1 KiB"), Ok(ByteSize(1024)));
    assert_eq!(parse("1.0 MiB"), Ok(ByteSize(1_048_576)));
    assert_eq!(parse("1 kib"), Ok(ByteSize(1024)));
    assert_eq!(parse("521 TiB"), Ok(ByteSize(521 * 1_099_511_627_776)));
}

#[test]
fn parse_decimal_units() {
    assert_eq!(parse("301.0 kB"), Ok(ByteSize(301_000)));
    assert_eq!(parse("301.0 KB"), Ok(ByteSize(301_000)));
    assert_eq!(parse("1.5 MB"), Ok(ByteSize(1_500_000)));
    assert_eq!(parse("609.0 PB"), Ok(ByteSize(609_000_000_000_000_000)));
}

#[test]
fn parse_bit_units() {
    assert_eq!(parse("8 b"), Ok(ByteSize(1)));
    assert_eq!(parse("4 b"), Ok(ByteSize(1)));
    assert_eq!(parse("3 b"), Ok(ByteSize(0)));
    assert_eq!(parse("8.4 Kib"), Ok(ByteSize(8602)));
    assert_eq!(parse("8.6 kb"), Ok(ByteSize(8600)));
}

#[test]
fn parse_empty_input() {
    assert_eq!(parse(""), Err(ParseError::EmptyInput));
    assert_eq!(parse("   \t\n"), Err(ParseError::EmptyInput));
}

#[test]
fn parse_invalid_number() {
    assert_eq!(parse("abc"), Err(ParseError::InvalidNumber));
    assert_eq!(parse(".5"), Err(ParseError::InvalidNumber));
    assert_eq!(parse("1."), Err(ParseError::InvalidNumber));
    assert_eq!(parse("-3"), Err(ParseError::InvalidNumber));
}

#[test]
fn parse_invalid_unit() {
    assert_eq!(parse("4 Xb"), Err(ParseError::InvalidUnit));
    assert_eq!(parse("4 Ki"), Err(ParseError::InvalidUnit));
    assert_eq!(parse("4 KBs"), Err(ParseError::InvalidUnit));
    assert_eq!(parse("1 B junk"), Err(ParseError::InvalidUnit));
}

#[test]
fn parse_overflow() {
    assert_eq!(parse("99999999999999999999999"), Err(ParseError::Overflow));
    assert_eq!(parse("20000 PiB"), Err(ParseError::Overflow));
    assert_eq!(parse("18446744073709551615"), Ok(ByteSize(u64::MAX)));
    assert_eq!(parse("18446744073709551616"), Err(ParseError::Overflow));
}

#[test]
fn parse_rounds_half_away_from_zero() {
    assert_eq!(parse("1.0005 kB"), Ok(ByteSize(1001)));
    assert_eq!(parse("1.0004 kB"), Ok(ByteSize(1000)));
}

#[test]
fn parse_never_panics_on_junk() {
    let cases: Vec<String> = vec![
        "".to_string(),
        " ".to_string(),
        ".".to_string(),
        "..".to_string(),
        "1..2".to_string(),
        "9".repeat(1000),
        format!("{}.{}", "9".repeat(100), "9".repeat(100)),
        "\u{FFFD}\u{1F600} MiB".to_string(),
        "1e10".to_string(),
        "0x10".to_string(),
        "KiB".to_string(),
        "1 K i B".to_string(),
        "\0\0\0".to_string(),
    ];
    for c in cases {
        let _ = parse(&c);
    }
    let raw: &[u8] = &[0xFF, 0xFE, 0x31, 0x20, 0x4B, 0x69, 0x42];
    let _ = parse_bytes(raw);
    let digits_then_garbage: Vec<u8> = vec![0x31, 0x32, 0x33, 0x80, 0x81];
    let _ = parse_bytes(&digits_then_garbage);
}
