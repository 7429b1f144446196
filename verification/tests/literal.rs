use clucstr::{append_literal, parse_i8_decimal, parse_u8_decimal, LiteralError, SafeCStrBuilder};

fn decode(text: &[u8]) -> Result<Vec<u8>, LiteralError> {
    let mut b = SafeCStrBuilder::empty();
    append_literal(&mut b, text)?;
    Ok(b.as_slice().to_vec())
}

#[test]
fn parse_u8_accepts_decimal_bytes() {
    assert_eq!(parse_u8_decimal(b"0"), Some(0));
    assert_eq!(parse_u8_decimal(b"7"), Some(7));
    assert_eq!(parse_u8_decimal(b"255"), Some(255));
    assert_eq!(parse_u8_decimal(b"+12"), Some(12));
    assert_eq!(parse_u8_decimal(b"000255"), Some(255));
}

#[test]
fn parse_u8_refuses_other_text() {
    assert_eq!(parse_u8_decimal(b""), None);
    assert_eq!(parse_u8_decimal(b"+"), None);
    assert_eq!(parse_u8_decimal(b"256"), None);
    assert_eq!(parse_u8_decimal(b"1000000"), None);
    assert_eq!(parse_u8_decimal(b"-1"), None);
    assert_eq!(parse_u8_decimal(b"-0"), None);
    assert_eq!(parse_u8_decimal(b"1_0"), None);
    assert_eq!(parse_u8_decimal(b"0x10"), None);
    assert_eq!(parse_u8_decimal(b" 1"), None);
}

#[test]
fn parse_i8_accepts_decimal_bytes() {
    assert_eq!(parse_i8_decimal(b"0"), Some(0));
    assert_eq!(parse_i8_decimal(b"127"), Some(127));
    assert_eq!(parse_i8_decimal(b"-128"), Some(-128));
    assert_eq!(parse_i8_decimal(b"-1"), Some(-1));
    assert_eq!(parse_i8_decimal(b"+5"), Some(5));
}

#[test]
fn parse_i8_refuses_other_text() {
    assert_eq!(parse_i8_decimal(b""), None);
    assert_eq!(parse_i8_decimal(b"-"), None);
    assert_eq!(parse_i8_decimal(b"128"), None);
    assert_eq!(parse_i8_decimal(b"-129"), None);
    assert_eq!(parse_i8_decimal(b"--1"), None);
    assert_eq!(parse_i8_decimal(b"1a"), None);
}

#[test]
fn parse_agrees_with_std() {
    let samples: [&str; 12] = ["0", "1", "9", "42", "127", "128", "255", "256", "-1", "-128", "+3", "x"];
    for s in samples.iter() {
        assert_eq!(parse_u8_decimal(s.as_bytes()), s.parse::<u8>().ok());
        assert_eq!(parse_i8_decimal(s.as_bytes()), s.parse::<i8>().ok());
    }
}

#[test]
fn literal_string_takes_the_quotes_off() {
    assert_eq!(decode(b"\"test\""), Ok(b"test".to_vec()));
    assert_eq!(decode(b"\"\""), Ok(Vec::new()));
    assert_eq!(decode(b"b\"test\""), Ok(b"test".to_vec()));
    assert_eq!(decode(b"'D'"), Ok(b"D".to_vec()));
    assert_eq!(decode(b"b'A'"), Ok(b"A".to_vec()));
}

#[test]
fn literal_escapes_are_kept_as_written() {
    assert_eq!(decode(b"\"a\\0\""), Ok(b"a\\0".to_vec()));
    assert_eq!(decode(b"'\\n'"), Ok(b"\\n".to_vec()));
}

#[test]
fn literal_with_u8_or_i8_suffix_is_one_byte() {
    assert_eq!(decode(b"10u8"), Ok(vec![10]));
    assert_eq!(decode(b"255u8"), Ok(vec![255]));
    assert_eq!(decode(b"127i8"), Ok(vec![127]));
    assert_eq!(decode(b"-1i8"), Ok(vec![255]));
}

#[test]
fn literal_suffix_errors() {
    assert_eq!(decode(b"256u8"), Err(LiteralError::InputError));
    assert_eq!(decode(b"0x1u8"), Err(LiteralError::InputError));
    assert_eq!(decode(b"128i8"), Err(LiteralError::InputError));
    assert_eq!(decode(b"0u8"), Err(LiteralError::NullByte));
    assert_eq!(decode(b"0i8"), Err(LiteralError::NullByte));
}

#[test]
fn literal_other_text_is_taken_as_written() {
    assert_eq!(decode(b"12"), Ok(b"12".to_vec()));
    assert_eq!(decode(b"0"), Ok(b"0".to_vec()));
    assert_eq!(decode(b"2.3"), Ok(b"2.3".to_vec()));
    assert_eq!(decode(b"br\"x\""), Ok(b"br\"x\"".to_vec()));
}

#[test]
fn literal_with_zero_byte_is_refused() {
    assert_eq!(decode(b"\"a\0b\""), Err(LiteralError::NullByte));
    assert_eq!(decode(&[0u8]), Err(LiteralError::NullByte));
}

#[test]
fn literal_refusal_leaves_builder_unchanged() {
    let mut b = SafeCStrBuilder::empty();
    append_literal(&mut b, b"\"ab\"").unwrap();
    assert_eq!(append_literal(&mut b, b"\"c\0\""), Err(LiteralError::NullByte));
    assert_eq!(append_literal(&mut b, b"300u8"), Err(LiteralError::InputError));
    assert_eq!(b.as_slice(), b"ab");
}
