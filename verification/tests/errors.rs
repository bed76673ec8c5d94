use wkt::error::{TokenKind, WktError};
use wkt::keyword::{all_ascii, lookup, GeometryKind};
use wkt::number::Number;
use wkt::tokenizer::{Token, Tokens};
use wkt::types::Dimension;
use wkt::{Wkt, WktItem};

fn failure(text: &str) -> WktError {
    Wkt::from_str(text).err().unwrap()
}

#[test]
fn invalid_points_fail_each_for_its_reason() {
    assert_eq!(failure("POINT ()"), WktError::TooFewOrdinates);
    assert_eq!(failure("POINT (10)"), WktError::TooFewOrdinates);
    assert_eq!(failure("POINT 10"), WktError::MalformedGroup(TokenKind::ParenOpen));
    assert_eq!(failure("POINT (10 -20 40)"), WktError::TooManyOrdinates);
}

#[test]
fn unknown_keyword() {
    assert_eq!(failure("CIRCLE (0 0)"), WktError::UnknownGeometryType);
    assert_eq!(failure("POINTS (0 0)"), WktError::UnknownGeometryType);
    assert_eq!(failure("P"), WktError::UnknownGeometryType);
    assert_eq!(failure("GEOMETRYCOLLECTION (CIRCLE (0 0))"), WktError::UnknownGeometryType);
}

#[test]
fn keyword_that_is_not_ascii() {
    let tokens = Tokens::from_vec(vec![
        Token::Word("P\u{d6}INT".as_bytes().to_vec()),
        Token::ParenOpen,
        Token::Number(Number::parse(b"0").unwrap()),
        Token::Number(Number::parse(b"0").unwrap()),
        Token::ParenClose,
    ]);
    assert_eq!(Wkt::from_tokens(tokens).err().unwrap(), WktError::EncodingError);

    let mut cursor = Tokens::from_str("(0 0)").peekable();
    let r = WktItem::from_word_and_tokens("pOINT\u{e9}".as_bytes(), &mut cursor, Dimension::Xy);
    assert_eq!(r.err().unwrap(), WktError::EncodingError);
}

#[test]
fn a_text_cuts_a_word_at_the_first_byte_that_is_no_letter() {
    assert_eq!(failure("P\u{d6}INT (0 0)"), WktError::UnknownGeometryType);
    assert_eq!(failure("\u{d6}POINT (0 0)"), WktError::InvalidToken);
}

#[test]
fn invalid_token() {
    assert_eq!(failure("$"), WktError::InvalidToken);
    assert_eq!(failure("POINT ($"), WktError::InvalidToken);
    assert_eq!(failure("POINT (1 $)"), WktError::InvalidToken);
    assert_eq!(failure("POINT (1 2 $)"), WktError::InvalidToken);
    assert_eq!(failure("LINESTRING (1 2, $)"), WktError::InvalidToken);
    assert_eq!(failure("POINT $"), WktError::InvalidToken);
    assert_eq!(failure("GEOMETRYCOLLECTION ($)"), WktError::InvalidToken);
}

#[test]
fn unexpected_end_of_input() {
    assert_eq!(failure("POINT"), WktError::UnexpectedEndOfInput);
    assert_eq!(failure("POINT ("), WktError::UnexpectedEndOfInput);
    assert_eq!(failure("POINT (1"), WktError::UnexpectedEndOfInput);
    assert_eq!(failure("POINT (1 2"), WktError::UnexpectedEndOfInput);
    assert_eq!(failure("LINESTRING (1 2,"), WktError::UnexpectedEndOfInput);
    assert_eq!(failure("POLYGON ((1 2)"), WktError::UnexpectedEndOfInput);
    assert_eq!(failure("GEOMETRYCOLLECTION ("), WktError::UnexpectedEndOfInput);
    assert_eq!(failure("GEOMETRYCOLLECTION (POINT"), WktError::UnexpectedEndOfInput);
    assert_eq!(failure("GEOMETRYCOLLECTION (POINT (1 2)"), WktError::UnexpectedEndOfInput);
}

#[test]
fn malformed_group() {
    assert_eq!(failure("(1 2)"), WktError::MalformedGroup(TokenKind::Word));
    assert_eq!(failure("1 2"), WktError::MalformedGroup(TokenKind::Word));
    assert_eq!(failure(", POINT (1 2)"), WktError::MalformedGroup(TokenKind::Word));
    assert_eq!(failure("POINT POINT"), WktError::MalformedGroup(TokenKind::ParenOpen));
    assert_eq!(failure("POINT )"), WktError::MalformedGroup(TokenKind::ParenOpen));
    assert_eq!(failure("POINT (x 2)"), WktError::MalformedGroup(TokenKind::Number));
    assert_eq!(failure("POINT ((1 2))"), WktError::MalformedGroup(TokenKind::Number));
    assert_eq!(failure("POINT (1 2 x)"), WktError::MalformedGroup(TokenKind::ParenClose));
    assert_eq!(failure("POINT (1 2, 3 4)"), WktError::MalformedGroup(TokenKind::ParenClose));
    assert_eq!(failure("LINESTRING (1 2 x)"), WktError::MalformedGroup(TokenKind::ParenClose));
    assert_eq!(failure("LINESTRING (1 2 (3 4))"), WktError::MalformedGroup(TokenKind::ParenClose));
    assert_eq!(failure("POLYGON (1 2)"), WktError::MalformedGroup(TokenKind::ParenOpen));
    assert_eq!(failure("MULTIPOINT (1 2, 3 4)"), WktError::MalformedGroup(TokenKind::ParenOpen));
    assert_eq!(failure("MULTIPOLYGON ((1 2))"), WktError::MalformedGroup(TokenKind::ParenOpen));
    assert_eq!(failure("GEOMETRYCOLLECTION ((1 2))"), WktError::MalformedGroup(TokenKind::Word));
    assert_eq!(failure("GEOMETRYCOLLECTION (1 2)"), WktError::MalformedGroup(TokenKind::Word));
    assert_eq!(
        failure("GEOMETRYCOLLECTION (POINT (1 2) POINT (3 4))"),
        WktError::MalformedGroup(TokenKind::ParenClose)
    );
}

#[test]
fn too_few_ordinates() {
    assert_eq!(failure("POINT (1)"), WktError::TooFewOrdinates);
    assert_eq!(failure("POINT (1,"), WktError::TooFewOrdinates);
    assert_eq!(failure("LINESTRING (1 2, 3)"), WktError::TooFewOrdinates);
    assert_eq!(failure("LINESTRING (1 2, )"), WktError::TooFewOrdinates);
    assert_eq!(failure("LINESTRING (, 1 2)"), WktError::TooFewOrdinates);
    assert_eq!(failure("MULTIPOINT (())"), WktError::TooFewOrdinates);
    assert_eq!(failure("POLYGON ((1 2), (3))"), WktError::TooFewOrdinates);
    let three = Wkt::from_str_with_dimension("POINT (1 2)", Dimension::Xyz);
    assert_eq!(three.err().unwrap(), WktError::TooFewOrdinates);
    let four = Wkt::from_str_with_dimension("POINT (1 2 3)", Dimension::Xyzm);
    assert_eq!(four.err().unwrap(), WktError::TooFewOrdinates);
}

#[test]
fn too_many_ordinates() {
    assert_eq!(failure("POINT (1 2 3)"), WktError::TooManyOrdinates);
    assert_eq!(failure("POINT (1 2 3 4)"), WktError::TooManyOrdinates);
    assert_eq!(failure("LINESTRING (1 2, 3 4 5)"), WktError::TooManyOrdinates);
    let three = Wkt::from_str_with_dimension("POINT (1 2 3 4)", Dimension::Xyz);
    assert_eq!(three.err().unwrap(), WktError::TooManyOrdinates);
    let four = Wkt::from_str_with_dimension("POINT (1 2 3 4 5)", Dimension::Xyzm);
    assert_eq!(four.err().unwrap(), WktError::TooManyOrdinates);
}

#[test]
fn the_first_failure_is_reported() {
    assert_eq!(failure("CIRCLE $"), WktError::UnknownGeometryType);
    assert_eq!(failure("POINT 10 $"), WktError::MalformedGroup(TokenKind::ParenOpen));
    assert_eq!(failure("POINT (1) $"), WktError::TooFewOrdinates);
}

#[test]
fn keywords_in_any_case() {
    assert_eq!(lookup(b"POINT"), Ok(GeometryKind::Point));
    assert_eq!(lookup(b"point"), Ok(GeometryKind::Point));
    assert_eq!(lookup(b"PoInT"), Ok(GeometryKind::Point));
    assert_eq!(lookup(b"linestring"), Ok(GeometryKind::LineString));
    assert_eq!(lookup(b"Polygon"), Ok(GeometryKind::Polygon));
    assert_eq!(lookup(b"MultiPoint"), Ok(GeometryKind::MultiPoint));
    assert_eq!(lookup(b"MultiLineString"), Ok(GeometryKind::MultiLineString));
    assert_eq!(lookup(b"MultiPolygon"), Ok(GeometryKind::MultiPolygon));
    assert_eq!(lookup(b"GeometryCollection"), Ok(GeometryKind::GeometryCollection));
    assert_eq!(lookup(b""), Err(WktError::UnknownGeometryType));
    assert_eq!(lookup(b"POIN"), Err(WktError::UnknownGeometryType));
    assert_eq!(lookup(b"POINTT"), Err(WktError::UnknownGeometryType));
    assert_eq!(lookup(b"P0INT"), Err(WktError::UnknownGeometryType));
    assert_eq!(lookup(b"pOINt\x60"), Err(WktError::UnknownGeometryType));
    assert_eq!(lookup(b"POINT\xff"), Err(WktError::EncodingError));
    assert_eq!(lookup("P\u{d6}INT".as_bytes()), Err(WktError::EncodingError));
}

#[test]
fn names_of_the_kinds() {
    assert_eq!(GeometryKind::Point.name(), "POINT");
    assert_eq!(GeometryKind::LineString.name(), "LINESTRING");
    assert_eq!(GeometryKind::Polygon.name(), "POLYGON");
    assert_eq!(GeometryKind::MultiPoint.name(), "MULTIPOINT");
    assert_eq!(GeometryKind::MultiLineString.name(), "MULTILINESTRING");
    assert_eq!(GeometryKind::MultiPolygon.name(), "MULTIPOLYGON");
    assert_eq!(GeometryKind::GeometryCollection.name(), "GEOMETRYCOLLECTION");
    assert!(GeometryKind::Polygon.spelled_by(b"polyGON"));
    assert!(!GeometryKind::Polygon.spelled_by(b"polygons"));
    assert!(!GeometryKind::Polygon.spelled_by(b"polygo"));
    assert!(!GeometryKind::Polygon.spelled_by(b"POLYGOM"));
    assert!(all_ascii(b"abc\x7f"));
    assert!(!all_ascii(b"abc\x80"));
    assert!(all_ascii(b""));
}
