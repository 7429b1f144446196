use clucstr::Token;

fn lit(text: &str) -> Token {
    Token::Literal(text.as_bytes().to_vec())
}

fn comma() -> Token {
    Token::Punct(',')
}

#[test]
fn cstr() {
    assert_eq!(clucstr::cstr(&[lit("\"test\"")]).unwrap().to_bytes(), b"test");
    assert_eq!(clucstr::cstr(&[lit("\"test\""), comma(), lit("1")]).unwrap().to_bytes(), b"test1");
    assert_eq!(
        clucstr::cstr(&[lit("\"test1\""), comma(), lit("\"test\""), comma(), lit("2")]).unwrap().to_bytes(),
        b"test1test2"
    );
}

#[test]
fn cstr_u8() {
    assert_eq!(clucstr::cstr(&[lit("1u8")]).unwrap().to_bytes(), &[1u8] as &[u8]);
    assert_eq!(
        clucstr::cstr(&[lit("1u8"), comma(), lit("2u8"), comma(), lit("3u8"), comma()]).unwrap().to_bytes(),
        &[1u8, 2, 3] as &[u8]
    );
}

#[test]
fn cstr_litu8() {
    assert_eq!(clucstr::cstr(&[lit("1")]).unwrap().to_bytes(), b"1");
    assert_eq!(
        clucstr::cstr(&[
            lit("1"),
            comma(),
            lit("2"),
            comma(),
            lit("3"),
            comma(),
            lit("4"),
            comma(),
            lit("5"),
            comma()
        ])
        .unwrap()
        .to_bytes(),
        b"12345"
    );
}
