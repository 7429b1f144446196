use clucstr::{cstr, MacroError, MacroErrorKind, Token};

fn lit(text: &str) -> Token {
    Token::Literal(text.as_bytes().to_vec())
}

fn comma() -> Token {
    Token::Punct(',')
}

fn err(index: usize, kind: MacroErrorKind) -> MacroError {
    MacroError { index, kind }
}

#[test]
fn tokens_empty_input_is_empty_string() {
    let r = cstr(&[]).unwrap();
    assert_eq!(r.to_bytes(), b"");
    assert_eq!(r.to_bytes_with_nul(), &[0u8] as &[u8]);
}

#[test]
fn tokens_readme_example() {
    let r = cstr(&[lit("b\"How are you?\"")]).unwrap();
    assert_eq!(r.to_bytes_with_nul(), b"How are you?\0");
}

#[test]
fn tokens_mixed_literals() {
    let r = cstr(&[
        lit("b'A'"),
        comma(),
        lit("b'B'"),
        comma(),
        lit("b'C'"),
        comma(),
        lit("'D'"),
        comma(),
        lit("12"),
    ])
    .unwrap();
    assert_eq!(r.to_bytes_with_nul(), b"ABCD12\0");
}

#[test]
fn tokens_string_then_integer_zero() {
    let r = cstr(&[lit("b\"test1\""), comma(), lit("\"test2\""), comma(), lit("0")]).unwrap();
    assert_eq!(r.to_bytes_with_nul(), b"test1test20\0");
}

#[test]
fn tokens_concatenation_law_on_values() {
    let a = [lit("\"ab\""), comma(), lit("3u8")];
    let b = [lit("'c'")];
    let ab = [lit("\"ab\""), comma(), lit("3u8"), comma(), lit("'c'")];
    let mut expected = cstr(&a).unwrap().to_bytes().to_vec();
    expected.extend_from_slice(cstr(&b).unwrap().to_bytes());
    assert_eq!(cstr(&ab).unwrap().to_bytes(), &expected[..]);
}

#[test]
fn tokens_trailing_comma_changes_nothing() {
    let a = cstr(&[lit("\"x\""), comma(), lit("1")]).unwrap();
    let b = cstr(&[lit("\"x\""), comma(), lit("1"), comma()]).unwrap();
    assert_eq!(a.to_bytes_with_nul(), b.to_bytes_with_nul());
}

#[test]
fn tokens_null_byte_error() {
    let e = cstr(&[lit("\"ok\""), comma(), lit("\"a\0\"")]).err().unwrap();
    assert_eq!(e, err(2, MacroErrorKind::NullByte));
    assert_eq!(e.kind.message(), "Format convention error, null byte detected.");
    assert_eq!(cstr(&[lit("0u8")]).err(), Some(err(0, MacroErrorKind::NullByte)));
}

#[test]
fn tokens_input_error() {
    let e = cstr(&[lit("300u8")]).err().unwrap();
    assert_eq!(e, err(0, MacroErrorKind::InputError));
    assert_eq!(e.kind.message(), "Input Error");
}

#[test]
fn tokens_double_comma_is_unsupported() {
    let e = cstr(&[lit("1"), comma(), comma(), lit("2")]).err().unwrap();
    assert_eq!(e, err(2, MacroErrorKind::Unsupported));
    assert_eq!(e.kind.message(), "Unsupported.");
}

#[test]
fn tokens_missing_comma() {
    let e = cstr(&[lit("1"), lit("2")]).err().unwrap();
    assert_eq!(e, err(1, MacroErrorKind::ExpectedSeparator));
    assert_eq!(e.kind.message(), "It was expected ',' or closing of a macro.");
    let e = cstr(&[lit("1"), Token::Punct(';')]).err().unwrap();
    assert_eq!(e, err(1, MacroErrorKind::ExpectedSeparator));
    let e = cstr(&[lit("1"), Token::Other]).err().unwrap();
    assert_eq!(e, err(1, MacroErrorKind::ExpectedSeparator));
}

#[test]
fn tokens_incorrect_data() {
    let e = cstr(&[Token::Other]).err().unwrap();
    assert_eq!(e, err(0, MacroErrorKind::IncorrectData));
    assert_eq!(e.kind.message(), "incorrect data, was expected: &[u8], str, u8, i8, {integer}.");
    assert_eq!(cstr(&[comma()]).err(), Some(err(0, MacroErrorKind::IncorrectData)));
    assert_eq!(cstr(&[Token::Punct('-'), lit("1")]).err(), Some(err(0, MacroErrorKind::IncorrectData)));
    assert_eq!(
        cstr(&[lit("1"), comma(), Token::Other]).err(),
        Some(err(2, MacroErrorKind::IncorrectData))
    );
}

#[test]
fn tokens_first_error_wins() {
    let e = cstr(&[lit("\"\0\""), lit("2"), comma(), comma()]).err().unwrap();
    assert_eq!(e, err(0, MacroErrorKind::NullByte));
}

#[test]
fn tokens_output_has_one_terminating_zero() {
    let r = cstr(&[lit("\"cluW\""), comma(), lit("b\"orld\"")]).unwrap();
    let bytes = r.to_bytes_with_nul();
    assert_eq!(bytes, b"cluWorld\0");
    assert_eq!(bytes.iter().filter(|b| **b == 0).count(), 1);
    assert_eq!(r.to_bytes(), b"cluWorld");
}

#[test]
fn tokens_doc_examples() {
    assert_eq!(cstr(&[lit("b\"test\""), comma(), lit("1")]).unwrap().to_bytes(), b"test1");
    assert_eq!(cstr(&[lit("1u8"), comma(), lit("2u8"), comma(), lit("3u8")]).unwrap().to_bytes(), &[1u8, 2, 3] as &[u8]);
    assert_eq!(
        cstr(&[lit("b\"Test Custom cstr\"")]).unwrap().to_bytes_with_nul(),
        b"Test Custom cstr\0"
    );
}

#[test]
fn tokens_i8_literal_gives_twos_complement_byte() {
    assert_eq!(cstr(&[lit("-2i8"), comma(), lit("65i8")]).unwrap().to_bytes(), &[254u8, 65] as &[u8]);
}
