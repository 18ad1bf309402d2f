use nbam::decimal::format_quantity;
use nbam::quantity::{parse, ParseError, Quantity};

fn qty(negative: bool, mantissa: u128, scale: u32) -> Quantity {
    Quantity { negative, mantissa, scale }
}

#[test]
fn test_parse_binary_suffixes() {
    assert_eq!(parse("2Ki"), Ok(qty(false, 2048, 0)));
    assert_eq!(parse("1Mi"), Ok(qty(false, 1048576, 0)));
    assert_eq!(parse("1Gi"), Ok(qty(false, 1073741824, 0)));
    assert_eq!(parse("1Ti"), Ok(qty(false, 1099511627776, 0)));
    assert_eq!(parse("1Pi"), Ok(qty(false, 1125899906842624, 0)));
    assert_eq!(parse("1Ei"), Ok(qty(false, 1152921504606846976, 0)));
}

#[test]
fn test_parse_decimal_suffixes() {
    assert_eq!(parse("1k"), Ok(qty(false, 1000, 0)));
    assert_eq!(parse("2M"), Ok(qty(false, 2000000, 0)));
    assert_eq!(parse("1G"), Ok(qty(false, 1000000000, 0)));
    assert_eq!(parse("1T"), Ok(qty(false, 1000000000000, 0)));
    assert_eq!(parse("1P"), Ok(qty(false, 1000000000000000, 0)));
    assert_eq!(parse("1E"), Ok(qty(false, 1000000000000000000, 0)));
}

#[test]
fn test_parse_milli_suffix() {
    // 500m is one half: mantissa 500 at three decimal places.
    assert_eq!(parse("500m"), Ok(qty(false, 500, 3)));
    assert_eq!(format_quantity(&parse("500m").unwrap()), "0.5".to_owned());
}

#[test]
fn test_parse_no_suffix() {
    assert_eq!(parse("3"), Ok(qty(false, 3, 0)));
    assert_eq!(parse("1024"), Ok(qty(false, 1024, 0)));
}

#[test]
fn test_parse_signs_and_fractions() {
    assert_eq!(parse("-2Ki"), Ok(qty(true, 2048, 0)));
    assert_eq!(parse("+7"), Ok(qty(false, 7, 0)));
    assert_eq!(parse("1.5Ki"), Ok(qty(false, 15360, 1)));
    assert_eq!(parse(".5"), Ok(qty(false, 5, 1)));
    assert_eq!(parse("1."), Ok(qty(false, 1, 0)));
    // Negative zero normalizes to plain zero.
    assert_eq!(parse("-0"), Ok(qty(false, 0, 0)));
    assert_eq!(parse("-0.000"), Ok(qty(false, 0, 3)));
}

#[test]
fn test_parse_unknown_suffix_is_distinct_from_malformed() {
    assert_eq!(parse("5Qi"), Err(ParseError::UnknownSuffix));
    assert_eq!(parse("abc"), Err(ParseError::MalformedNumber));
    assert_ne!(parse("5Qi"), parse("abc"));
}

#[test]
fn test_parse_unknown_suffixes() {
    assert_eq!(parse("1z"), Err(ParseError::UnknownSuffix));
    assert_eq!(parse("5kk"), Err(ParseError::UnknownSuffix));
    // Binary suffixes are case-sensitive: `ki` is not in the table.
    assert_eq!(parse("1ki"), Err(ParseError::UnknownSuffix));
}

#[test]
fn test_parse_malformed_numbers() {
    assert_eq!(parse(""), Err(ParseError::MalformedNumber));
    assert_eq!(parse("-"), Err(ParseError::MalformedNumber));
    assert_eq!(parse("."), Err(ParseError::MalformedNumber));
    assert_eq!(parse("1.2.3"), Err(ParseError::MalformedNumber));
    assert_eq!(parse("1 "), Err(ParseError::MalformedNumber));
    assert_eq!(parse("Ki"), Err(ParseError::MalformedNumber));
    assert_eq!(parse("--1"), Err(ParseError::MalformedNumber));
    // Exponent notation is outside the grammar this parser accepts.
    assert_eq!(parse("1e3"), Err(ParseError::MalformedNumber));
}

#[test]
fn test_parse_out_of_range() {
    // 27 integral digits exceed the mantissa bound of 10^26.
    assert_eq!(
        parse("100000000000000000000000000"),
        Err(ParseError::OutOfRange)
    );
    // 13 decimal places exceed the twelve the representation keeps.
    assert_eq!(parse("0.0000000000001"), Err(ParseError::OutOfRange));
    // With the `m` suffix three more decimal places are taken up.
    assert_eq!(parse("0.0000000001m"), Err(ParseError::OutOfRange));
    // The bound applies after the multiplier.
    assert_eq!(parse("99999999999999999999999999Ki"), Err(ParseError::OutOfRange));
}

#[test]
fn test_format_plain_values() {
    assert_eq!(format_quantity(&qty(false, 3072, 0)), "3072".to_owned());
    assert_eq!(format_quantity(&qty(false, 0, 0)), "0".to_owned());
    assert_eq!(format_quantity(&qty(true, 25, 1)), "-2.5".to_owned());
    // Trailing fractional zeros are trimmed, leading ones kept.
    assert_eq!(format_quantity(&qty(false, 5000, 4)), "0.5".to_owned());
    assert_eq!(format_quantity(&qty(false, 1002, 3)), "1.002".to_owned());
}

#[test]
fn test_format_parse_round_trip() {
    let samples = vec![
        qty(false, 3072, 0),
        qty(false, 500, 3),
        qty(true, 123456, 5),
        qty(false, 0, 7),
        qty(false, 1002, 3),
    ];
    let mut i: usize = 0;
    while i < samples.len() {
        let q = samples[i];
        let text = format_quantity(&q);
        let back = parse(&text).unwrap();
        // Same value on the fixed-point grid: compare via formatting again.
        assert_eq!(format_quantity(&back), text);
        i += 1;
    }
}
