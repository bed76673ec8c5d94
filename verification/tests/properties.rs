use wkt::error::WktError;
use wkt::number::Number;
use wkt::tokenizer::{Token, Tokens};
use wkt::types::coordinate::Coordinate;
use wkt::types::geometrycollection::GeometryCollection;
use wkt::types::linestring::LineString;
use wkt::types::multilinestring::MultiLineString;
use wkt::types::multipoint::MultiPoint;
use wkt::types::multipolygon::MultiPolygon;
use wkt::types::point::Point;
use wkt::types::polygon::Polygon;
use wkt::types::{comma_many, expect, Dimension, FromTokens};
use wkt::error::TokenKind;
use wkt::{Wkt, WktItem};

fn number(text: &str) -> Number {
    Number::parse(text.as_bytes()).unwrap()
}

fn xy(x: &str, y: &str) -> Coordinate {
    Coordinate { x: number(x), y: number(y), z: None, m: None }
}

fn value(n: &Number) -> f64 {
    std::str::from_utf8(n.as_bytes()).unwrap().parse().unwrap()
}

fn line(coords: &[(&str, &str)]) -> LineString {
    LineString { coords: coords.iter().map(|c| xy(c.0, c.1)).collect() }
}

fn only(text: &str) -> WktItem {
    let mut wkt = Wkt::from_str(text).unwrap();
    assert_eq!(wkt.items.len(), 1);
    wkt.items.pop().unwrap()
}

fn write_number(n: &Number, out: &mut String) {
    out.push_str(std::str::from_utf8(n.as_bytes()).unwrap());
}

fn write_coordinate(c: &Coordinate, out: &mut String) {
    write_number(&c.x, out);
    out.push(' ');
    write_number(&c.y, out);
    for n in [&c.z, &c.m].into_iter().flatten() {
        out.push(' ');
        write_number(n, out);
    }
}

fn write_line(l: &LineString, out: &mut String) {
    out.push('(');
    for (i, c) in l.coords.iter().enumerate() {
        if i > 0 {
            out.push_str(", ");
        }
        write_coordinate(c, out);
    }
    out.push(')');
}

fn write_polygon(p: &Polygon, out: &mut String) {
    out.push('(');
    for (i, l) in p.lines.iter().enumerate() {
        if i > 0 {
            out.push_str(", ");
        }
        write_line(l, out);
    }
    out.push(')');
}

fn write_item(item: &WktItem, out: &mut String) {
    match item {
        WktItem::Point(p) => {
            out.push_str("POINT (");
            write_coordinate(&p.coord, out);
            out.push(')');
        }
        WktItem::LineString(l) => {
            out.push_str("LINESTRING ");
            write_line(l, out);
        }
        WktItem::Polygon(p) => {
            out.push_str("POLYGON ");
            write_polygon(p, out);
        }
        WktItem::MultiPoint(m) => {
            out.push_str("MULTIPOINT (");
            for (i, p) in m.points.iter().enumerate() {
                if i > 0 {
                    out.push_str(", ");
                }
                out.push('(');
                write_coordinate(&p.coord, out);
                out.push(')');
            }
            out.push(')');
        }
        WktItem::MultiLineString(m) => {
            out.push_str("MULTILINESTRING (");
            for (i, l) in m.lines.iter().enumerate() {
                if i > 0 {
                    out.push_str(", ");
                }
                write_line(l, out);
            }
            out.push(')');
        }
        WktItem::MultiPolygon(m) => {
            out.push_str("MULTIPOLYGON (");
            for (i, p) in m.polygons.iter().enumerate() {
                if i > 0 {
                    out.push_str(", ");
                }
                write_polygon(p, out);
            }
            out.push(')');
        }
        WktItem::GeometryCollection(c) => {
            out.push_str("GEOMETRYCOLLECTION (");
            for (i, g) in c.items.iter().enumerate() {
                if i > 0 {
                    out.push_str(", ");
                }
                write_item(g, out);
            }
            out.push(')');
        }
    }
}

const TEXTS: [&str; 16] = [
    "POINT (10 -20)",
    "LINESTRING (10 -20, -0 -0.5)",
    "LINESTRING ()",
    "POLYGON ((8 4, 4 0, 0 4, 8 4), (7 3, 4 1, 1 4, 7 3))",
    "POLYGON ()",
    "POLYGON (())",
    "MULTIPOINT ((8 4), (4 0))",
    "MULTIPOINT ()",
    "MULTILINESTRING ((8 4, -3 0), (4 0, 6 -10))",
    "MULTILINESTRING ((), (1 2))",
    "MULTIPOLYGON (((8 4)), ((4 0)))",
    "MULTIPOLYGON ((), ((), (1 2, 3 4)))",
    "GEOMETRYCOLLECTION (POINT (8 4))",
    "GEOMETRYCOLLECTION ()",
    "GEOMETRYCOLLECTION (POINT (1 2), LINESTRING (3 4, 5 6), GEOMETRYCOLLECTION (POLYGON ((0 0))))",
    "GEOMETRYCOLLECTION (GEOMETRYCOLLECTION (GEOMETRYCOLLECTION ()), MULTIPOINT ((1.5 -2.25)))",
];

#[test]
fn white_space_only_is_the_empty_document() {
    for text in ["", " ", "\t", "\n", "\r", " \n\t\r \r\n"] {
        let wkt = Wkt::from_str(text).unwrap();
        assert_eq!(wkt.items.len(), 0);
        assert_eq!(wkt, Wkt::new());
    }
    assert_eq!(Wkt::from_tokens(Tokens::from_vec(vec![])).unwrap().items.len(), 0);
}

#[test]
fn point_has_exactly_its_ordinates() {
    for (x, y) in [("10", "-20"), ("0", "0"), ("-0.5", "123.456"), ("007", "-0")] {
        let text = format!("POINT ({} {})", x, y);
        assert_eq!(only(&text), WktItem::Point(Point { coord: xy(x, y) }));
    }
    match only("POINT (1.25 -3)") {
        WktItem::Point(p) => {
            assert_eq!(value(&p.coord.x), 1.25);
            assert_eq!(value(&p.coord.y), -3.0);
            assert!(p.coord.z.is_none());
            assert!(p.coord.m.is_none());
        }
        _ => unreachable!(),
    }
}

#[test]
fn linestring_keeps_length_and_order() {
    assert_eq!(
        only("LINESTRING (1 2, 3 4, 5 6, 1 2)"),
        WktItem::LineString(line(&[("1", "2"), ("3", "4"), ("5", "6"), ("1", "2")]))
    );
    assert_eq!(only("LINESTRING (1 2)"), WktItem::LineString(line(&[("1", "2")])));
    assert_eq!(only("LINESTRING ()"), WktItem::LineString(line(&[])));
}

#[test]
fn polygon_keeps_rings_and_their_points() {
    let polygon = match only("POLYGON ((8 4, 4 0, 0 4, 8 4), (7 3, 4 1, 1 4), ())") {
        WktItem::Polygon(polygon) => polygon,
        _ => unreachable!(),
    };
    assert_eq!(polygon.lines.len(), 3);
    assert_eq!(polygon.lines[0], line(&[("8", "4"), ("4", "0"), ("0", "4"), ("8", "4")]));
    assert_eq!(polygon.lines[1], line(&[("7", "3"), ("4", "1"), ("1", "4")]));
    assert_eq!(polygon.lines[2], line(&[]));
}

#[test]
fn multipoint_keeps_the_order_of_its_points() {
    assert_eq!(
        only("MULTIPOINT ((8 4), (4 0))"),
        WktItem::MultiPoint(MultiPoint {
            points: vec![Point { coord: xy("8", "4") }, Point { coord: xy("4", "0") }],
        })
    );
}

#[test]
fn multilinestring_and_multipolygon_nest() {
    assert_eq!(
        only("MULTILINESTRING ((8 4, -3 0), (4 0, 6 -10))"),
        WktItem::MultiLineString(MultiLineString {
            lines: vec![line(&[("8", "4"), ("-3", "0")]), line(&[("4", "0"), ("6", "-10")])],
        })
    );
    assert_eq!(
        only("MULTIPOLYGON (((8 4)), ((4 0), (1 2, 3 4)))"),
        WktItem::MultiPolygon(MultiPolygon {
            polygons: vec![
                Polygon { lines: vec![line(&[("8", "4")])] },
                Polygon { lines: vec![line(&[("4", "0")]), line(&[("1", "2"), ("3", "4")])] },
            ],
        })
    );
}

#[test]
fn collection_of_one_point() {
    assert_eq!(
        only("GEOMETRYCOLLECTION (POINT (8 4))"),
        WktItem::GeometryCollection(GeometryCollection {
            items: vec![WktItem::Point(Point { coord: xy("8", "4") })],
        })
    );
}

#[test]
fn collections_nest() {
    let inner = GeometryCollection {
        items: vec![WktItem::LineString(line(&[("1", "2")])), WktItem::Point(Point { coord: xy("3", "4") })],
    };
    assert_eq!(
        only("geometrycollection (Point (0 0), GeometryCollection (LINESTRING (1 2), point (3 4)))"),
        WktItem::GeometryCollection(GeometryCollection {
            items: vec![
                WktItem::Point(Point { coord: xy("0", "0") }),
                WktItem::GeometryCollection(inner),
            ],
        })
    );
}

#[test]
fn white_space_changes_nothing() {
    for text in TEXTS {
        let expected = Wkt::from_str(text).unwrap();
        let dense: String = text.replace(", ", ",").replace(" (", "(");
        assert_eq!(Wkt::from_str(&dense).unwrap(), expected, "{}", dense);
        for gap in [" ", "\t", "\n", "\r", " \n\t\r "] {
            let wide = format!("{}{}{}", gap, text.replace(' ', gap), gap);
            let wide = wide.replace('(', &format!("{}({}", gap, gap));
            let wide = wide.replace(')', &format!("{}){}", gap, gap));
            let wide = wide.replace(',', &format!("{},{}", gap, gap));
            assert_eq!(Wkt::from_str(&wide).unwrap(), expected, "{:?}", wide);
        }
    }
}

#[test]
fn what_is_written_out_is_read_back() {
    for text in TEXTS {
        let wkt = Wkt::from_str(text).unwrap();
        let mut written = String::new();
        write_item(&wkt.items[0], &mut written);
        assert_eq!(written, text);
        assert_eq!(Wkt::from_str(&written).unwrap(), wkt);
    }
    for text in ["point(1 2)", "  MultiPoint((1 2),(3 4))", "GeometryCollection(Point(1 2))x"] {
        let wkt = Wkt::from_str(text).unwrap();
        let mut written = String::new();
        write_item(&wkt.items[0], &mut written);
        assert_eq!(Wkt::from_str(&written).unwrap(), wkt);
    }
}

#[test]
fn what_follows_the_geometry_is_not_read() {
    let expected = Wkt::from_str("POINT (1 2)").unwrap();
    for text in ["POINT (1 2) POINT (3 4)", "POINT (1 2))", "POINT (1 2) $", "POINT (1 2), 3", "POINT (1 2)x"] {
        assert_eq!(Wkt::from_str(text).unwrap(), expected, "{}", text);
    }
}

#[test]
fn three_and_four_ordinates() {
    let wkt = Wkt::from_str_with_dimension("POINT (1 2 3)", Dimension::Xyz).unwrap();
    assert_eq!(
        wkt.items[0],
        WktItem::Point(Point {
            coord: Coordinate { x: number("1"), y: number("2"), z: Some(number("3")), m: None },
        })
    );
    let wkt = Wkt::from_str_with_dimension("LINESTRING (1 2 3 4, 5 6 7 -8.5)", Dimension::Xyzm).unwrap();
    assert_eq!(
        wkt.items[0],
        WktItem::LineString(LineString {
            coords: vec![
                Coordinate { x: number("1"), y: number("2"), z: Some(number("3")), m: Some(number("4")) },
                Coordinate { x: number("5"), y: number("6"), z: Some(number("7")), m: Some(number("-8.5")) },
            ],
        })
    );
    let wkt = Wkt::from_str_with_dimension("POINT (1 2)", Dimension::Xy).unwrap();
    assert_eq!(wkt, Wkt::from_str("POINT (1 2)").unwrap());
    assert_eq!(Dimension::Xy.count(), 2);
    assert_eq!(Dimension::Xyz.count(), 3);
    assert_eq!(Dimension::Xyzm.count(), 4);
}

#[test]
fn one_dimension_for_the_whole_text() {
    let mixed = "GEOMETRYCOLLECTION (POINT (1 2 3), POINT (1 2))";
    assert_eq!(
        Wkt::from_str_with_dimension(mixed, Dimension::Xyz).err().unwrap(),
        WktError::TooFewOrdinates
    );
    assert_eq!(
        Wkt::from_str_with_dimension(mixed, Dimension::Xy).err().unwrap(),
        WktError::TooManyOrdinates
    );
}

#[test]
fn tokens_from_another_source() {
    let tokens = vec![
        Token::Word(b"LineString".to_vec()),
        Token::ParenOpen,
        Token::Number(number("1")),
        Token::Number(number("2")),
        Token::Comma,
        Token::Number(number("3")),
        Token::Number(number("4")),
        Token::ParenClose,
        Token::Comma,
    ];
    let wkt = Wkt::from_tokens(Tokens::from_vec(tokens)).unwrap();
    assert_eq!(wkt, Wkt::from_str("LINESTRING (1 2, 3 4)").unwrap());
    let tokens = vec![Token::Word(b"point".to_vec()), Token::ParenOpen, Token::Number(number("1"))];
    assert_eq!(
        Wkt::from_tokens_with_dimension(Tokens::from_vec(tokens), Dimension::Xyz).err().unwrap(),
        WktError::UnexpectedEndOfInput
    );
    assert_eq!(
        Wkt::from_tokens(Tokens::from_str("POINT (1 2)")).unwrap(),
        Wkt::from_str("POINT (1 2)").unwrap()
    );
}

#[test]
fn a_document_is_built_item_by_item() {
    let mut wkt = Wkt::new();
    assert_eq!(wkt.items.len(), 0);
    wkt.add_item(Point { coord: xy("1", "2") }.as_item());
    wkt.add_item(line(&[("3", "4")]).as_item());
    wkt.add_item(Polygon { lines: vec![] }.as_item());
    wkt.add_item(MultiPoint { points: vec![] }.as_item());
    wkt.add_item(MultiLineString { lines: vec![] }.as_item());
    wkt.add_item(MultiPolygon { polygons: vec![] }.as_item());
    wkt.add_item(GeometryCollection { items: vec![] }.as_item());
    assert_eq!(
        wkt.items,
        vec![
            WktItem::Point(Point { coord: xy("1", "2") }),
            WktItem::LineString(line(&[("3", "4")])),
            WktItem::Polygon(Polygon { lines: vec![] }),
            WktItem::MultiPoint(MultiPoint { points: vec![] }),
            WktItem::MultiLineString(MultiLineString { lines: vec![] }),
            WktItem::MultiPolygon(MultiPolygon { polygons: vec![] }),
            WktItem::GeometryCollection(GeometryCollection { items: vec![] }),
        ]
    );
}

#[test]
fn readers_leave_the_cursor_after_what_they_read() {
    let mut cursor = Tokens::from_str("(1 2) (3 4, 5 6) ((7 8)), x").peekable();
    assert_eq!(Point::from_tokens(&mut cursor, Dimension::Xy).unwrap(), Point { coord: xy("1", "2") });
    assert_eq!(
        LineString::from_tokens(&mut cursor, Dimension::Xy).unwrap(),
        line(&[("3", "4"), ("5", "6")])
    );
    assert_eq!(
        comma_many::<LineString>(&mut cursor, Dimension::Xy).unwrap(),
        vec![line(&[("7", "8")])]
    );
    assert_eq!(expect(&mut cursor, TokenKind::Comma), Ok(()));
    assert_eq!(
        expect(&mut cursor, TokenKind::Comma),
        Err(WktError::MalformedGroup(TokenKind::Comma))
    );
    let mut cursor = Tokens::from_str(" ").peekable();
    assert_eq!(expect(&mut cursor, TokenKind::Comma), Err(WktError::UnexpectedEndOfInput));
    let mut cursor = Tokens::from_str("$").peekable();
    assert_eq!(expect(&mut cursor, TokenKind::Comma), Err(WktError::InvalidToken));

    let mut cursor = Tokens::from_str("1 2, 3").peekable();
    assert_eq!(Coordinate::from_tokens(&mut cursor, Dimension::Xy).unwrap(), xy("1", "2"));
    assert_eq!(cursor.next(), Some(Ok(Token::Comma)));
    assert_eq!(
        Coordinate::from_tokens(&mut cursor, Dimension::Xy).err().unwrap(),
        WktError::UnexpectedEndOfInput
    );

    let mut cursor = Tokens::from_str("(POINT (1 2)) )").peekable();
    let collection = GeometryCollection::from_tokens(&mut cursor, Dimension::Xy).unwrap();
    assert_eq!(collection.items, vec![WktItem::Point(Point { coord: xy("1", "2") })]);
    assert_eq!(cursor.next(), Some(Ok(Token::ParenClose)));
    assert_eq!(cursor.next(), None);

    let mut cursor = Tokens::from_str("(1 2) ,").peekable();
    let item = WktItem::from_word_and_tokens(b"Point", &mut cursor, Dimension::Xy).unwrap();
    assert_eq!(item, WktItem::Point(Point { coord: xy("1", "2") }));
    assert_eq!(cursor.next(), Some(Ok(Token::Comma)));

    let mut cursor = Tokens::from_str("linestring (1 2), (").peekable();
    let item = WktItem::from_tokens(&mut cursor, Dimension::Xy).unwrap();
    assert_eq!(item, WktItem::LineString(line(&[("1", "2")])));
    assert_eq!(cursor.next(), Some(Ok(Token::Comma)));
    assert_eq!(
        WktItem::from_tokens(&mut cursor, Dimension::Xy).err().unwrap(),
        WktError::MalformedGroup(TokenKind::Word)
    );
    let mut cursor = Tokens::from_str("").peekable();
    assert_eq!(
        WktItem::from_tokens(&mut cursor, Dimension::Xy).err().unwrap(),
        WktError::UnexpectedEndOfInput
    );
}
