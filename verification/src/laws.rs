//! What holds of a parse as a whole: the grammar of documents accepts the
//! writing of a geometry and nothing else, and with the tokenizer before it
//! it accepts every text that spells such a writing.
use vstd::prelude::*;
use crate::error::{TokenKind, WktError};
use crate::keyword::{is_ascii, keyword_grammar, kind_of, upper, GeometryKind};
use crate::number::{is_number, CharClass};
use crate::spelling::{
    all_well_formed, is_blank, lemma_lex_blank, lemma_lex_text, lemma_lex_well_formed,
    lemma_respaced, lemma_white_space, parted, spaced, text_of, well_formed,
};
use crate::tokenizer::{all_tokens, lex, Lexeme};
use crate::types::coordinate::{coordinate_written, Coordinate, CoordinateModel};
use crate::types::geometrycollection::members_written;
use crate::types::linestring::LineString;
use crate::types::point::{point_written, Point};
use crate::types::polygon::Polygon;
use crate::types::{elements_written, group_written, same_lexeme, spells, Dimension, FromTokens};
use crate::{
    coordinates_spelled, document_grammar, lemma_geometry_consumes, lemma_geometry_reads_back,
    lemma_geometry_written, lines_spelled, polygons_spelled, Geometry,
};

verus! {

/// A text that is empty or all white space is the empty document.
pub proof fn lemma_blank_text(text: Seq<u8>, dim: Dimension)
    requires
        is_blank(text),
    ensures
        document_grammar(lex(text), dim) == Ok::<Seq<Geometry>, WktError>(Seq::empty()),
{
    lemma_lex_blank(text);
}

/// The writing of a geometry is read as the document that holds that
/// geometry, whatever follows the writing.
pub proof fn lemma_document_reads_back(g: Geometry, rest: Seq<Lexeme>, dim: Dimension)
    requires
        g.valid(dim),
    ensures
        document_grammar(g.written() + rest, dim) == Ok::<Seq<Geometry>, WktError>(seq![g]),
        all_tokens(g.written()),
{
    lemma_geometry_reads_back(g, rest, dim);
}

/// What the grammar of documents accepts is nothing at all, which gives the
/// empty document, or lexemes that begin with the writing of the one
/// geometry of the document, the case of the letters of keywords aside; that
/// geometry has the dimension.
pub proof fn lemma_document_written(ts: Seq<Lexeme>, dim: Dimension)
    ensures
        document_grammar(ts, dim) matches Ok(document) ==> if ts.len() == 0 {
            document.len() == 0
        } else {
            &&& document.len() == 1
            &&& document[0].valid(dim)
            &&& document[0].written().len() <= ts.len()
            &&& spells(ts.take(document[0].written().len() as int), document[0].written())
        },
{
    lemma_geometry_written(ts, dim);
    lemma_geometry_consumes(ts, dim);
}

/// A document that was read is read again from its own writing: where the
/// grammar accepts lexemes, it accepts the writing of the geometry that it
/// gave, and gives the same geometry.
pub proof fn lemma_round_trip(ts: Seq<Lexeme>, dim: Dimension)
    ensures
        document_grammar(ts, dim) matches Ok(document) ==> document.len() <= 1 && (document.len()
            == 1 ==> document_grammar(document[0].written(), dim) == Ok::<
            Seq<Geometry>,
            WktError,
        >(document)),
{
    if let Ok(document) = document_grammar(ts, dim) {
        lemma_document_written(ts, dim);
        if document.len() == 1 {
            let g = document[0];
            lemma_document_reads_back(g, Seq::empty(), dim);
            assert(g.written() + Seq::<Lexeme>::empty() =~= g.written());
            assert(document =~= seq![g]);
        }
    }
}

/// Two sequences of well-formed lexemes in a row are a sequence of
/// well-formed lexemes.
proof fn lemma_well_formed_both(first: Seq<Lexeme>, second: Seq<Lexeme>)
    requires
        all_well_formed(first),
        all_well_formed(second),
    ensures
        all_well_formed(first + second),
{
    assert forall|i: int| 0 <= i < (first + second).len() implies well_formed(
        #[trigger] (first + second)[i],
    ) by {
        if i < first.len() {
            assert((first + second)[i] == first[i]);
        } else {
            assert((first + second)[i] == second[i - first.len()]);
        }
    }
}

/// The writing of a coordinate whose ordinates are decimal literals is
/// made of well-formed lexemes.
proof fn lemma_coordinate_well_formed(c: CoordinateModel)
    requires
        c.spelled(),
    ensures
        all_well_formed(coordinate_written(c)),
{
}

/// The writing of a point whose ordinates are decimal literals is made of
/// well-formed lexemes.
proof fn lemma_point_well_formed(c: CoordinateModel)
    requires
        c.spelled(),
    ensures
        all_well_formed(point_written(c)),
{
    lemma_coordinate_well_formed(c);
    lemma_well_formed_both(seq![Lexeme::ParenOpen], coordinate_written(c));
    lemma_well_formed_both(
        seq![Lexeme::ParenOpen] + coordinate_written(c),
        seq![Lexeme::ParenClose],
    );
}

/// Where the writing of each element is made of well-formed lexemes, so is
/// the writing of the elements in a row.
proof fn lemma_elements_well_formed<T: FromTokens>(elements: Seq<T::V>)
    requires
        forall|i: int|
            0 <= i < elements.len() ==> all_well_formed(T::written(#[trigger] elements[i])),
    ensures
        all_well_formed(elements_written::<T>(elements)),
    decreases elements.len(),
{
    if elements.len() > 0 {
        let others = elements.skip(1);
        let comma = if elements.len() > 1 {
            seq![Lexeme::Comma]
        } else {
            Seq::empty()
        };
        assert forall|i: int| 0 <= i < others.len() implies all_well_formed(
            T::written(#[trigger] others[i]),
        ) by {
            assert(others[i] == elements[i + 1]);
        }
        lemma_elements_well_formed::<T>(others);
        lemma_well_formed_both(T::written(elements[0]), comma);
        lemma_well_formed_both(T::written(elements[0]) + comma, elements_written::<T>(others));
    }
}

/// Where the writing of each element is made of well-formed lexemes, so is
/// the writing of the group.
proof fn lemma_group_well_formed<T: FromTokens>(elements: Seq<T::V>)
    requires
        forall|i: int|
            0 <= i < elements.len() ==> all_well_formed(T::written(#[trigger] elements[i])),
    ensures
        all_well_formed(group_written::<T>(elements)),
{
    lemma_elements_well_formed::<T>(elements);
    lemma_well_formed_both(seq![Lexeme::ParenOpen], elements_written::<T>(elements));
}

/// The writing of coordinates whose ordinates are decimal literals, as a
/// line and as a group of points, is made of well-formed lexemes.
proof fn lemma_coordinates_well_formed(coordinates: Seq<CoordinateModel>)
    requires
        coordinates_spelled(coordinates),
    ensures
        all_well_formed(group_written::<Coordinate>(coordinates)),
        all_well_formed(group_written::<Point>(coordinates)),
{
    assert forall|i: int| 0 <= i < coordinates.len() implies all_well_formed(
        Coordinate::written(#[trigger] coordinates[i]),
    ) && all_well_formed(Point::written(coordinates[i])) by {
        lemma_coordinate_well_formed(coordinates[i]);
        lemma_point_well_formed(coordinates[i]);
    }
    lemma_group_well_formed::<Coordinate>(coordinates);
    lemma_group_well_formed::<Point>(coordinates);
}

/// The writing of lines whose ordinates are decimal literals is made of
/// well-formed lexemes.
proof fn lemma_lines_well_formed(lines: Seq<Seq<CoordinateModel>>)
    requires
        lines_spelled(lines),
    ensures
        all_well_formed(group_written::<LineString>(lines)),
{
    assert forall|i: int| 0 <= i < lines.len() implies all_well_formed(
        LineString::written(#[trigger] lines[i]),
    ) by {
        lemma_coordinates_well_formed(lines[i]);
    }
    lemma_group_well_formed::<LineString>(lines);
}

/// The writing of polygons whose ordinates are decimal literals is made of
/// well-formed lexemes.
proof fn lemma_polygons_well_formed(polygons: Seq<Seq<Seq<CoordinateModel>>>)
    requires
        polygons_spelled(polygons),
    ensures
        all_well_formed(group_written::<Polygon>(polygons)),
{
    assert forall|i: int| 0 <= i < polygons.len() implies all_well_formed(
        Polygon::written(#[trigger] polygons[i]),
    ) by {
        lemma_lines_well_formed(polygons[i]);
    }
    lemma_group_well_formed::<Polygon>(polygons);
}

/// The writing of members whose ordinates are decimal literals is made of
/// well-formed lexemes.
proof fn lemma_members_well_formed(members: Seq<Geometry>)
    requires
        forall|i: int| 0 <= i < members.len() ==> (#[trigger] members[i]).spelled(),
    ensures
        all_well_formed(members_written(members)),
    decreases members, 0int,
{
    if members.len() > 0 {
        let others = members.skip(1);
        let comma = if members.len() > 1 {
            seq![Lexeme::Comma]
        } else {
            Seq::empty()
        };
        assert forall|i: int| 0 <= i < others.len() implies (#[trigger] others[i]).spelled() by {
            assert(others[i] == members[i + 1]);
        }
        lemma_geometry_well_formed(members[0]);
        lemma_members_well_formed(others);
        lemma_well_formed_both(members[0].written(), comma);
        lemma_well_formed_both(members[0].written() + comma, members_written(others));
    }
}

/// The writing of a geometry whose ordinates are decimal literals is made
/// of well-formed lexemes.
pub proof fn lemma_geometry_well_formed(g: Geometry)
    requires
        g.spelled(),
    ensures
        all_well_formed(g.written()),
    decreases g, 1int,
{
    let keyword = seq![Lexeme::Word(g.kind().keyword())];
    assert(all_well_formed(keyword)) by {
        g.kind().lemma_keyword();
    }
    assert(all_well_formed(g.body())) by {
        match g {
            Geometry::Point(m) => lemma_point_well_formed(m),
            Geometry::LineString(m) => lemma_coordinates_well_formed(m),
            Geometry::Polygon(m) => lemma_lines_well_formed(m),
            Geometry::MultiPoint(m) => lemma_coordinates_well_formed(m),
            Geometry::MultiLineString(m) => lemma_lines_well_formed(m),
            Geometry::MultiPolygon(m) => lemma_polygons_well_formed(m),
            Geometry::GeometryCollection(m) => {
                lemma_members_well_formed(m);
                lemma_well_formed_both(seq![Lexeme::ParenOpen], members_written(m));
            },
        }
    }
    lemma_well_formed_both(keyword, g.body());
}

/// A text that spells the writing of a geometry, with any white space that
/// fits, is read as the document that holds that geometry.
pub proof fn lemma_text_reads_back(g: Geometry, gaps: Seq<Seq<u8>>, dim: Dimension)
    requires
        g.valid(dim),
        g.spelled(),
        spaced(g.written(), gaps),
    ensures
        document_grammar(lex(text_of(g.written(), gaps)), dim) == Ok::<Seq<Geometry>, WktError>(
            seq![g],
        ),
{
    lemma_geometry_well_formed(g);
    lemma_lex_text(g.written(), gaps);
    lemma_document_reads_back(g, Seq::empty(), dim);
    assert(g.written() + Seq::<Lexeme>::empty() =~= g.written());
}

/// White space around lexemes never changes the outcome of a parse: two
/// texts that spell the same lexemes, each with gaps that fit, and then go
/// on in the same way, are read as the same document, or fail for the same
/// reason.
pub proof fn lemma_white_space_document(
    lexemes: Seq<Lexeme>,
    gaps: Seq<Seq<u8>>,
    other_gaps: Seq<Seq<u8>>,
    tail: Seq<u8>,
    dim: Dimension,
)
    requires
        all_well_formed(lexemes),
        spaced(lexemes, gaps),
        spaced(lexemes, other_gaps),
        parted(lexemes, gaps, tail),
        parted(lexemes, other_gaps, tail),
    ensures
        document_grammar(lex(text_of(lexemes, gaps) + tail), dim) == document_grammar(
            lex(text_of(lexemes, other_gaps) + tail),
            dim,
        ),
{
    lemma_white_space(lexemes, gaps, other_gaps, tail);
}

/// A text that is made of tokens is read in the same way when it is
/// written anew with other white space.
pub proof fn lemma_respaced_document(text: Seq<u8>, gaps: Seq<Seq<u8>>, dim: Dimension)
    requires
        all_tokens(lex(text)),
        spaced(lex(text), gaps),
    ensures
        document_grammar(lex(text_of(lex(text), gaps)), dim) == document_grammar(lex(text), dim),
{
    lemma_respaced(text, gaps);
}

/// Lexemes that spell well-formed lexemes are well formed like them, where
/// what they spell holds tokens only.
proof fn lemma_spelled_well_formed(found: Seq<Lexeme>, written: Seq<Lexeme>)
    requires
        spells(found, written),
        all_tokens(written),
        forall|i: int|
            0 <= i < found.len() ==> well_formed(#[trigger] found[i]) || found[i] is Invalid,
    ensures
        all_well_formed(written),
{
    assert forall|i: int| 0 <= i < written.len() implies well_formed(#[trigger] written[i]) by {
        assert(same_lexeme(found[i], written[i]));
        if found[i] != written[i] {
            let low = found[i]->Word_0;
            let up = written[i]->Word_0;
            assert(up.len() == low.len());
            assert forall|j: int| 0 <= j < up.len() implies CharClass::Letter.holds(
                #[trigger] up[j],
            ) by {
                assert(up[j] == upper(low[j]));
                assert(CharClass::Letter.holds(low[j]));
            }
        }
    }
}

/// A text that was read is read again from any text that spells the
/// writing of the geometry that it gave: to write a parsed geometry out and
/// to parse it again gives the same geometry.
pub proof fn lemma_text_round_trip(text: Seq<u8>, gaps: Seq<Seq<u8>>, dim: Dimension)
    requires
        document_grammar(lex(text), dim) is Ok,
        document_grammar(lex(text), dim)->Ok_0.len() == 1,
        spaced(document_grammar(lex(text), dim)->Ok_0[0].written(), gaps),
    ensures
        document_grammar(
            lex(text_of(document_grammar(lex(text), dim)->Ok_0[0].written(), gaps)),
            dim,
        ) == document_grammar(lex(text), dim),
{
    let ts = lex(text);
    let document = document_grammar(ts, dim)->Ok_0;
    let g = document[0];
    let written = g.written();
    lemma_document_written(ts, dim);
    lemma_document_reads_back(g, Seq::empty(), dim);
    lemma_lex_well_formed(text);
    let found = ts.take(written.len() as int);
    assert forall|i: int| 0 <= i < found.len() implies well_formed(#[trigger] found[i])
        || found[i] is Invalid by {
        assert(found[i] == ts[i]);
    }
    lemma_spelled_well_formed(found, written);
    lemma_lex_text(written, gaps);
    assert(written + Seq::<Lexeme>::empty() =~= written);
    assert(document =~= seq![g]);
}

/// A document that begins with a word that is not all ASCII fails with
/// `EncodingError`; one that begins with an ASCII word that names no kind
/// of geometry fails with `UnknownGeometryType`.
pub proof fn lemma_unknown_keyword(word: Seq<u8>, rest: Seq<Lexeme>, dim: Dimension)
    ensures
        !is_ascii(word) ==> document_grammar(seq![Lexeme::Word(word)] + rest, dim) == Err::<
            Seq<Geometry>,
            WktError,
        >(WktError::EncodingError),
        is_ascii(word) && kind_of(word) is None ==> document_grammar(
            seq![Lexeme::Word(word)] + rest,
            dim,
        ) == Err::<Seq<Geometry>, WktError>(WktError::UnknownGeometryType),
{
    let ts = seq![Lexeme::Word(word)] + rest;
    assert(ts[0] == Lexeme::Word(word));
}

/// The words of a text are ASCII, so that a text whose first word names no
/// kind of geometry fails with `UnknownGeometryType`.
pub proof fn lemma_text_unknown_keyword(text: Seq<u8>, dim: Dimension)
    requires
        lex(text).len() > 0,
        lex(text)[0] is Word,
        kind_of(lex(text)[0]->Word_0) is None,
    ensures
        document_grammar(lex(text), dim) == Err::<Seq<Geometry>, WktError>(
            WktError::UnknownGeometryType,
        ),
{
    let word = lex(text)[0]->Word_0;
    lemma_lex_well_formed(text);
    assert(well_formed(lex(text)[0]));
    assert(is_ascii(word)) by {
        assert forall|i: int| 0 <= i < word.len() implies #[trigger] word[i] < 0x80 by {
            assert(CharClass::Letter.holds(word[i]));
        }
    }
}

/// The coordinate with the ordinates `x` and `y`, and neither z nor m.
pub open spec fn xy(x: Seq<u8>, y: Seq<u8>) -> CoordinateModel {
    CoordinateModel { x, y, z: None, m: None }
}

/// `POINT (x y)`, with any white space that fits, is read as the point with
/// exactly the ordinates `x` and `y`, and neither z nor m.
pub proof fn lemma_point_text(x: Seq<u8>, y: Seq<u8>, gaps: Seq<Seq<u8>>)
    requires
        is_number(x),
        is_number(y),
        spaced(Geometry::Point(xy(x, y)).written(), gaps),
    ensures
        Geometry::Point(xy(x, y)).written() == seq![
            Lexeme::Word(GeometryKind::Point.keyword()),
            Lexeme::ParenOpen,
            Lexeme::Number(x),
            Lexeme::Number(y),
            Lexeme::ParenClose,
        ],
        document_grammar(
            lex(text_of(Geometry::Point(xy(x, y)).written(), gaps)),
            Dimension::Xy,
        ) == Ok::<Seq<Geometry>, WktError>(seq![Geometry::Point(xy(x, y))]),
{
    let g = Geometry::Point(xy(x, y));
    assert(g.written() =~= seq![
        Lexeme::Word(GeometryKind::Point.keyword()),
        Lexeme::ParenOpen,
        Lexeme::Number(x),
        Lexeme::Number(y),
        Lexeme::ParenClose,
    ]);
    lemma_text_reads_back(g, gaps, Dimension::Xy);
}

/// A point without a coordinate, with one ordinate only, or without
/// parentheses is no point; nor is one with three ordinates where two are
/// asked for. The keyword `word` is `POINT` in any mix of cases.
pub proof fn lemma_invalid_points(
    word: Seq<u8>,
    x: Seq<u8>,
    y: Seq<u8>,
    z: Seq<u8>,
    rest: Seq<Lexeme>,
    dim: Dimension,
)
    requires
        keyword_grammar(word) == Ok::<GeometryKind, WktError>(GeometryKind::Point),
    ensures
        document_grammar(
            seq![Lexeme::Word(word), Lexeme::ParenOpen, Lexeme::ParenClose] + rest,
            dim,
        ) == Err::<Seq<Geometry>, WktError>(WktError::TooFewOrdinates),
        document_grammar(
            seq![Lexeme::Word(word), Lexeme::ParenOpen, Lexeme::Number(x), Lexeme::ParenClose]
                + rest,
            dim,
        ) == Err::<Seq<Geometry>, WktError>(WktError::TooFewOrdinates),
        document_grammar(seq![Lexeme::Word(word), Lexeme::Number(x)] + rest, dim) == Err::<
            Seq<Geometry>,
            WktError,
        >(WktError::MalformedGroup(TokenKind::ParenOpen)),
        document_grammar(
            seq![
                Lexeme::Word(word),
                Lexeme::ParenOpen,
                Lexeme::Number(x),
                Lexeme::Number(y),
                Lexeme::Number(z),
            ] + rest,
            Dimension::Xy,
        ) == Err::<Seq<Geometry>, WktError>(WktError::TooManyOrdinates),
{
    let empty = seq![Lexeme::Word(word), Lexeme::ParenOpen, Lexeme::ParenClose] + rest;
    assert(empty.skip(1).skip(1)[0] == Lexeme::ParenClose);
    let short = seq![Lexeme::Word(word), Lexeme::ParenOpen, Lexeme::Number(x), Lexeme::ParenClose]
        + rest;
    assert(short.skip(1).skip(1)[0] == Lexeme::Number(x));
    assert(short.skip(1).skip(1).skip(1)[0] == Lexeme::ParenClose);
    let bare = seq![Lexeme::Word(word), Lexeme::Number(x)] + rest;
    assert(bare.skip(1)[0] == Lexeme::Number(x));
    let long = seq![
        Lexeme::Word(word),
        Lexeme::ParenOpen,
        Lexeme::Number(x),
        Lexeme::Number(y),
        Lexeme::Number(z),
    ] + rest;
    assert(long.skip(1).skip(1)[0] == Lexeme::Number(x));
    assert(long.skip(1).skip(1).skip(1)[0] == Lexeme::Number(y));
    assert(long.skip(1).skip(1).skip(1).skip(1)[0] == Lexeme::Number(z));
}

/// `LINESTRING (x1 y1, x2 y2, ...)`, with any white space that fits, is
/// read as the line string with the same coordinates in the same order, as
/// many as were written.
pub proof fn lemma_linestring_text(
    coordinates: Seq<CoordinateModel>,
    gaps: Seq<Seq<u8>>,
    dim: Dimension,
)
    requires
        forall|i: int|
            0 <= i < coordinates.len() ==> (#[trigger] coordinates[i]).has_dimension(dim)
                && coordinates[i].spelled(),
        spaced(Geometry::LineString(coordinates).written(), gaps),
    ensures
        document_grammar(lex(text_of(Geometry::LineString(coordinates).written(), gaps)), dim)
            == Ok::<Seq<Geometry>, WktError>(seq![Geometry::LineString(coordinates)]),
{
    lemma_text_reads_back(Geometry::LineString(coordinates), gaps, dim);
}

/// `POLYGON ((...), (...))`, with any white space that fits, is read as
/// the polygon with as many rings as groups were written, each with the
/// coordinates of its group in their order.
pub proof fn lemma_polygon_text(
    rings: Seq<Seq<CoordinateModel>>,
    gaps: Seq<Seq<u8>>,
    dim: Dimension,
)
    requires
        forall|i: int, j: int|
            0 <= i < rings.len() && 0 <= j < rings[i].len() ==> (
            #[trigger] rings[i][j]).has_dimension(dim) && rings[i][j].spelled(),
        spaced(Geometry::Polygon(rings).written(), gaps),
    ensures
        document_grammar(lex(text_of(Geometry::Polygon(rings).written(), gaps)), dim) == Ok::<
            Seq<Geometry>,
            WktError,
        >(seq![Geometry::Polygon(rings)]),
{
    assert forall|i: int| 0 <= i < rings.len() implies LineString::valid(#[trigger] rings[i], dim)
        && coordinates_spelled(rings[i]) by {
        assert forall|j: int| 0 <= j < rings[i].len() implies Coordinate::valid(
            #[trigger] rings[i][j],
            dim,
        ) && rings[i][j].spelled() by {}
    }
    lemma_text_reads_back(Geometry::Polygon(rings), gaps, dim);
}

/// `MULTIPOINT ((x1 y1), (x2 y2))`, with any white space that fits, is
/// read as the two points in the order in which they were written.
pub proof fn lemma_multipoint_text(
    first: CoordinateModel,
    second: CoordinateModel,
    gaps: Seq<Seq<u8>>,
    dim: Dimension,
)
    requires
        first.has_dimension(dim),
        first.spelled(),
        second.has_dimension(dim),
        second.spelled(),
        spaced(Geometry::MultiPoint(seq![first, second]).written(), gaps),
    ensures
        document_grammar(
            lex(text_of(Geometry::MultiPoint(seq![first, second]).written(), gaps)),
            dim,
        ) == Ok::<Seq<Geometry>, WktError>(seq![Geometry::MultiPoint(seq![first, second])]),
{
    lemma_text_reads_back(Geometry::MultiPoint(seq![first, second]), gaps, dim);
}

/// `GEOMETRYCOLLECTION (POINT (x y))`, with any white space that fits, is
/// read as the collection with exactly one member, the point with the
/// coordinate that was written.
pub proof fn lemma_collection_text(point: CoordinateModel, gaps: Seq<Seq<u8>>, dim: Dimension)
    requires
        point.has_dimension(dim),
        point.spelled(),
        spaced(Geometry::GeometryCollection(seq![Geometry::Point(point)]).written(), gaps),
    ensures
        document_grammar(
            lex(
                text_of(
                    Geometry::GeometryCollection(seq![Geometry::Point(point)]).written(),
                    gaps,
                ),
            ),
            dim,
        ) == Ok::<Seq<Geometry>, WktError>(
            seq![Geometry::GeometryCollection(seq![Geometry::Point(point)])],
        ),
{
    let g = Geometry::GeometryCollection(seq![Geometry::Point(point)]);
    assert(Geometry::Point(point).valid(dim));
    assert(Geometry::Point(point).spelled());
    lemma_text_reads_back(g, gaps, dim);
}

} // verus!
