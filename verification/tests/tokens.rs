use wkt::error::{TokenKind, WktError};
use wkt::number::{CharClass, Number};
use wkt::tokenizer::{Token, Tokens};

fn number(text: &str) -> Token {
    Token::Number(Number::parse(text.as_bytes()).unwrap())
}

fn word(text: &str) -> Token {
    Token::Word(text.as_bytes().to_vec())
}

fn all(text: &str) -> Vec<Result<Token, WktError>> {
    let mut tokens = Tokens::from_str(text);
    let mut found = Vec::new();
    while let Some(item) = tokens.next() {
        found.push(item);
    }
    found
}

#[test]
fn tokens_of_a_point() {
    assert_eq!(
        all("POINT (10 -20)"),
        vec![
            Ok(word("POINT")),
            Ok(Token::ParenOpen),
            Ok(number("10")),
            Ok(number("-20")),
            Ok(Token::ParenClose),
        ]
    );
}

#[test]
fn tokens_need_no_white_space_around_punctuation() {
    assert_eq!(
        all("LINESTRING(1 2,3 4)"),
        vec![
            Ok(word("LINESTRING")),
            Ok(Token::ParenOpen),
            Ok(number("1")),
            Ok(number("2")),
            Ok(Token::Comma),
            Ok(number("3")),
            Ok(number("4")),
            Ok(Token::ParenClose),
        ]
    );
}

#[test]
fn white_space_holds_no_token() {
    assert_eq!(all(""), vec![]);
    assert_eq!(all(" \t\r\n"), vec![]);
}

#[test]
fn numbers_keep_their_spelling() {
    assert_eq!(all("-0 -0.5 007 1.50"), vec![
        Ok(number("-0")),
        Ok(number("-0.5")),
        Ok(number("007")),
        Ok(number("1.50")),
    ]);
    let n = Number::parse(b"-0.5").unwrap();
    assert_eq!(n.as_bytes(), b"-0.5");
    assert!(n.is_negative());
    assert!(!Number::parse(b"0.5").unwrap().is_negative());
}

#[test]
fn the_longest_number_is_taken() {
    assert_eq!(all("12.5x"), vec![Ok(number("12.5")), Ok(word("x"))]);
    assert_eq!(all("10-20"), vec![Ok(number("10")), Ok(number("-20"))]);
    assert_eq!(all("1.5.2"), vec![Ok(number("1.5")), Err(WktError::InvalidToken)]);
    assert_eq!(all("5."), vec![Ok(number("5")), Err(WktError::InvalidToken)]);
}

#[test]
fn the_longest_word_is_taken() {
    assert_eq!(all("abc1"), vec![Ok(word("abc")), Ok(number("1"))]);
    assert_eq!(all("Point("), vec![Ok(word("Point")), Ok(Token::ParenOpen)]);
}

#[test]
fn a_byte_that_begins_no_token_is_invalid() {
    assert_eq!(all("$"), vec![Err(WktError::InvalidToken)]);
    assert_eq!(all(".5"), vec![Err(WktError::InvalidToken)]);
    assert_eq!(all("+5"), vec![Err(WktError::InvalidToken)]);
    assert_eq!(all("-"), vec![Err(WktError::InvalidToken)]);
    assert_eq!(all("-x"), vec![Err(WktError::InvalidToken)]);
    assert_eq!(all("\u{d6}"), vec![Err(WktError::InvalidToken)]);
}

#[test]
fn nothing_comes_after_an_invalid_byte() {
    let mut tokens = Tokens::from_str("( $ ) POINT");
    assert_eq!(tokens.next(), Some(Ok(Token::ParenOpen)));
    assert_eq!(tokens.next(), Some(Err(WktError::InvalidToken)));
    assert_eq!(tokens.next(), None);
    assert_eq!(tokens.next(), None);
}

#[test]
fn tokens_from_bytes_and_from_a_vector() {
    let mut from_bytes = Tokens::from_bytes(b"( , )");
    assert_eq!(from_bytes.next(), Some(Ok(Token::ParenOpen)));
    assert_eq!(from_bytes.next(), Some(Ok(Token::Comma)));
    assert_eq!(from_bytes.next(), Some(Ok(Token::ParenClose)));
    assert_eq!(from_bytes.next(), None);

    let mut given = Tokens::from_vec(vec![word("a"), Token::Comma, number("1")]);
    assert_eq!(given.next(), Some(Ok(word("a"))));
    assert_eq!(given.next(), Some(Ok(Token::Comma)));
    assert_eq!(given.next(), Some(Ok(number("1"))));
    assert_eq!(given.next(), None);
}

#[test]
fn peek_consumes_nothing() {
    let mut cursor = Tokens::from_str("POINT ( $").peekable();
    assert_eq!(cursor.peek(), Some(Ok(TokenKind::Word)));
    assert_eq!(cursor.peek(), Some(Ok(TokenKind::Word)));
    assert_eq!(cursor.next(), Some(Ok(word("POINT"))));
    assert_eq!(cursor.next(), Some(Ok(Token::ParenOpen)));
    assert_eq!(cursor.peek(), Some(Err(WktError::InvalidToken)));
    assert_eq!(cursor.next(), Some(Err(WktError::InvalidToken)));
    assert_eq!(cursor.peek(), None);
    assert_eq!(cursor.next(), None);
}

#[test]
fn peek_tells_the_kind_of_each_token() {
    let mut cursor = Tokens::from_str("x 1 ( ) ,").peekable();
    let mut kinds = Vec::new();
    while let Some(kind) = cursor.peek() {
        kinds.push(kind.unwrap());
        assert_eq!(cursor.next().unwrap().unwrap().kind(), kind.unwrap());
    }
    assert_eq!(
        kinds,
        vec![
            TokenKind::Word,
            TokenKind::Number,
            TokenKind::ParenOpen,
            TokenKind::ParenClose,
            TokenKind::Comma,
        ]
    );
}

#[test]
fn decimal_literals() {
    for text in ["0", "10", "-20", "-0", "0.5", "-0.5", "123.456", "007"] {
        assert_eq!(Number::parse(text.as_bytes()).unwrap().as_bytes(), text.as_bytes());
    }
    for text in ["", "-", ".", ".5", "5.", "+5", "1e5", "1.2.3", "--1", "1 ", " 1", "1-", "a"] {
        assert!(Number::parse(text.as_bytes()).is_none(), "{:?}", text);
    }
}

#[test]
fn classes_of_bytes() {
    for b in [b' ', b'\t', b'\n', b'\r'] {
        assert!(CharClass::Space.contains(b));
    }
    assert!(!CharClass::Space.contains(b'x'));
    assert!(!CharClass::Space.contains(0x0b));
    assert!(CharClass::Letter.contains(b'a'));
    assert!(CharClass::Letter.contains(b'Z'));
    assert!(!CharClass::Letter.contains(b'@'));
    assert!(!CharClass::Letter.contains(b'['));
    assert!(!CharClass::Letter.contains(b'`'));
    assert!(!CharClass::Letter.contains(b'{'));
    assert!(!CharClass::Letter.contains(0xd6));
    assert!(CharClass::Digit.contains(b'0'));
    assert!(CharClass::Digit.contains(b'9'));
    assert!(!CharClass::Digit.contains(b'/'));
    assert!(!CharClass::Digit.contains(b':'));
}
