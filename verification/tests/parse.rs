use wkt::number::Number;
use wkt::{Wkt, WktItem};

fn value(n: &Number) -> f64 {
    std::str::from_utf8(n.as_bytes()).unwrap().parse().unwrap()
}

fn optional(n: &Option<Number>) -> Option<f64> {
    n.as_ref().map(value)
}

#[test]
fn empty_string() {
    let wkt = Wkt::from_str("").ok().unwrap();
    assert_eq!(0, wkt.items.len());
}

#[test]
fn basic_point() {
    let mut wkt = Wkt::from_str("POINT (10 -20)").ok().unwrap();
    assert_eq!(1, wkt.items.len());
    let point = match wkt.items.pop().unwrap() {
        WktItem::Point(point) => point,
        _ => unreachable!(),
    };
    assert_eq!(10.0, value(&point.coord.x));
    assert_eq!(-20.0, value(&point.coord.y));
    assert_eq!(None, optional(&point.coord.z));
    assert_eq!(None, optional(&point.coord.m));
}

#[test]
fn basic_point_whitespace() {
    let mut wkt = Wkt::from_str(" \n\t\rPOINT \n\t\r( \n\r\t10 \n\t\r-20 \n\t\r) \n\t\r").ok().unwrap();
    assert_eq!(1, wkt.items.len());
    let point = match wkt.items.pop().unwrap() {
        WktItem::Point(point) => point,
        _ => unreachable!(),
    };
    assert_eq!(10.0, value(&point.coord.x));
    assert_eq!(-20.0, value(&point.coord.y));
    assert_eq!(None, optional(&point.coord.z));
    assert_eq!(None, optional(&point.coord.m));
}

#[test]
fn basic_linestring() {
    let mut wkt = Wkt::from_str("LINESTRING (10 -20, -0 -0.5)").ok().unwrap();
    assert_eq!(1, wkt.items.len());
    let linestring = match wkt.items.pop().unwrap() {
        WktItem::LineString(linestring) => linestring,
        _ => unreachable!(),
    };
    assert_eq!(2, linestring.coords.len());

    assert_eq!(10.0, value(&linestring.coords[0].x));
    assert_eq!(-20.0, value(&linestring.coords[0].y));
    assert_eq!(None, optional(&linestring.coords[0].z));
    assert_eq!(None, optional(&linestring.coords[0].m));

    assert_eq!(0.0, value(&linestring.coords[1].x));
    assert_eq!(-0.5, value(&linestring.coords[1].y));
    assert_eq!(None, optional(&linestring.coords[1].z));
    assert_eq!(None, optional(&linestring.coords[1].m));
}

#[test]
fn basic_polygon() {
    let mut wkt = Wkt::from_str("POLYGON ((8 4, 4 0, 0 4, 8 4), (7 3, 4 1, 1 4, 7 3))").ok().unwrap();
    assert_eq!(1, wkt.items.len());
    let linestring = match wkt.items.pop().unwrap() {
        WktItem::Polygon(linestring) => linestring,
        _ => unreachable!(),
    };
    assert_eq!(2, linestring.lines.len());
}

#[test]
fn basic_multipoint() {
    let mut wkt = Wkt::from_str("MULTIPOINT ((8 4), (4 0))").ok().unwrap();
    assert_eq!(1, wkt.items.len());
    let multipoint = match wkt.items.pop().unwrap() {
        WktItem::MultiPoint(multipoint) => multipoint,
        _ => unreachable!(),
    };
    assert_eq!(2, multipoint.points.len());
}

#[test]
fn basic_multilinestring() {
    let mut wkt = Wkt::from_str("MULTILINESTRING ((8 4, -3 0), (4 0, 6 -10))").ok().unwrap();
    assert_eq!(1, wkt.items.len());
    let multilinestring = match wkt.items.pop().unwrap() {
        WktItem::MultiLineString(multilinestring) => multilinestring,
        _ => unreachable!(),
    };
    assert_eq!(2, multilinestring.lines.len());
}

#[test]
fn basic_multipolygon() {
    let mut wkt = Wkt::from_str("MULTIPOLYGON (((8 4)), ((4 0)))").ok().unwrap();
    assert_eq!(1, wkt.items.len());
    let multipolygon = match wkt.items.pop().unwrap() {
        WktItem::MultiPolygon(multipolygon) => multipolygon,
        _ => unreachable!(),
    };
    assert_eq!(2, multipolygon.polygons.len());
}

#[test]
fn basic_geometrycollection() {
    let mut wkt = Wkt::from_str("GEOMETRYCOLLECTION (POINT (8 4)))").ok().unwrap();
    assert_eq!(1, wkt.items.len());
    let geometrycollection = match wkt.items.pop().unwrap() {
        WktItem::GeometryCollection(geometrycollection) => geometrycollection,
        _ => unreachable!(),
    };
    assert_eq!(1, geometrycollection.items.len());
}

#[test]
fn invalid_points() {
    Wkt::from_str("POINT ()").err().unwrap();
    Wkt::from_str("POINT (10)").err().unwrap();
    Wkt::from_str("POINT 10").err().unwrap();
    Wkt::from_str("POINT (10 -20 40)").err().unwrap();
}
