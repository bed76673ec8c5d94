//! A parser for Well-Known Text (WKT), the textual encoding of vector
//! geometries.
//!
//! The text is cut into tokens by [`tokenizer::Tokens`], read through a
//! cursor with one token of look-ahead, and turned into a tree of typed
//! geometries. Every step is specified over sequences of bytes and of
//! lexemes, and the executable code is proved to agree with it.
use vstd::prelude::*;
use vstd::string::StringSliceAdditionalSpecFns;
use crate::error::{TokenKind, WktError};
use crate::keyword::{keyword_grammar, lemma_keyword_grammar, lookup, GeometryKind};
use crate::tokenizer::{
    all_tokens, front, lemma_all_tokens, lex, Lexeme, PeekableTokens, Token, Tokens,
};
use crate::types::coordinate::{Coordinate, CoordinateModel};
use crate::types::geometrycollection::{
    collection_grammar, collection_written, lemma_collection_consumes,
    lemma_collection_reads_back, lemma_collection_written, members_valid, GeometryCollection,
};
use crate::types::linestring::LineString;
use crate::types::multilinestring::MultiLineString;
use crate::types::multipoint::MultiPoint;
use crate::types::multipolygon::MultiPolygon;
use crate::types::point::{lemma_point_reads_back, Point};
use crate::types::polygon::Polygon;
use crate::types::{
    agrees, follows, lemma_after_first, lemma_follows_skip, lemma_follows_trans,
    lemma_group_reads_back, lemma_in_a_row, lemma_spells, lemma_spells_both, models, spells,
    taken, Dimension, FromTokens, Parsed,
};

pub mod error;
pub mod keyword;
pub mod laws;
pub mod number;
pub mod spelling;
pub mod tokenizer;
pub mod types;

verus! {

/// A geometry of any kind.
#[derive(Debug, PartialEq, Eq)]
pub enum WktItem {
    Point(Point),
    LineString(LineString),
    Polygon(Polygon),
    MultiPoint(MultiPoint),
    MultiLineString(MultiLineString),
    MultiPolygon(MultiPolygon),
    GeometryCollection(GeometryCollection),
}

/// A geometry as a value of specifications: the kind, and the coordinates in
/// sequences nested as the kind nests them.
pub enum Geometry {
    Point(CoordinateModel),
    LineString(Seq<CoordinateModel>),
    Polygon(Seq<Seq<CoordinateModel>>),
    MultiPoint(Seq<CoordinateModel>),
    MultiLineString(Seq<Seq<CoordinateModel>>),
    MultiPolygon(Seq<Seq<Seq<CoordinateModel>>>),
    GeometryCollection(Seq<Geometry>),
}

impl Geometry {
    /// The kind of the geometry.
    pub open spec fn kind(self) -> GeometryKind {
        match self {
            Geometry::Point(_) => GeometryKind::Point,
            Geometry::LineString(_) => GeometryKind::LineString,
            Geometry::Polygon(_) => GeometryKind::Polygon,
            Geometry::MultiPoint(_) => GeometryKind::MultiPoint,
            Geometry::MultiLineString(_) => GeometryKind::MultiLineString,
            Geometry::MultiPolygon(_) => GeometryKind::MultiPolygon,
            Geometry::GeometryCollection(_) => GeometryKind::GeometryCollection,
        }
    }

    /// The lexemes that the geometry is written with after its keyword.
    pub open spec fn body(self) -> Seq<Lexeme>
        decreases self, 0int,
    {
        match self {
            Geometry::Point(g) => Point::written(g),
            Geometry::LineString(g) => LineString::written(g),
            Geometry::Polygon(g) => Polygon::written(g),
            Geometry::MultiPoint(g) => MultiPoint::written(g),
            Geometry::MultiLineString(g) => MultiLineString::written(g),
            Geometry::MultiPolygon(g) => MultiPolygon::written(g),
            Geometry::GeometryCollection(g) => collection_written(g),
        }
    }

    /// The lexemes that the geometry is written with: its keyword in upper
    /// case, and its body.
    pub open spec fn written(self) -> Seq<Lexeme>
        decreases self, 1int,
    {
        seq![Lexeme::Word(self.kind().keyword())] + self.body()
    }

    /// Whether every coordinate of the geometry has the dimension `dim`.
    pub open spec fn valid(self, dim: Dimension) -> bool
        decreases self,
    {
        match self {
            Geometry::Point(g) => Point::valid(g, dim),
            Geometry::LineString(g) => LineString::valid(g, dim),
            Geometry::Polygon(g) => Polygon::valid(g, dim),
            Geometry::MultiPoint(g) => MultiPoint::valid(g, dim),
            Geometry::MultiLineString(g) => MultiLineString::valid(g, dim),
            Geometry::MultiPolygon(g) => MultiPolygon::valid(g, dim),
            Geometry::GeometryCollection(g) => members_valid(g, dim),
        }
    }

    /// Whether every ordinate of the geometry is a decimal literal, as the
    /// ordinates of a geometry that was read from a text are.
    pub open spec fn spelled(self) -> bool
        decreases self,
    {
        match self {
            Geometry::Point(g) => g.spelled(),
            Geometry::LineString(g) => coordinates_spelled(g),
            Geometry::Polygon(g) => lines_spelled(g),
            Geometry::MultiPoint(g) => coordinates_spelled(g),
            Geometry::MultiLineString(g) => lines_spelled(g),
            Geometry::MultiPolygon(g) => polygons_spelled(g),
            Geometry::GeometryCollection(g) => forall|i: int|
                0 <= i < g.len() ==> (#[trigger] g[i]).spelled(),
        }
    }
}

/// Whether every ordinate of every coordinate is a decimal literal.
pub open spec fn coordinates_spelled(coordinates: Seq<CoordinateModel>) -> bool {
    forall|i: int| 0 <= i < coordinates.len() ==> (#[trigger] coordinates[i]).spelled()
}

/// Whether every ordinate of every line is a decimal literal.
pub open spec fn lines_spelled(lines: Seq<Seq<CoordinateModel>>) -> bool {
    forall|i: int| 0 <= i < lines.len() ==> coordinates_spelled(#[trigger] lines[i])
}

/// Whether every ordinate of every polygon is a decimal literal.
pub open spec fn polygons_spelled(polygons: Seq<Seq<Seq<CoordinateModel>>>) -> bool {
    forall|i: int| 0 <= i < polygons.len() ==> lines_spelled(#[trigger] polygons[i])
}

impl View for WktItem {
    type V = Geometry;

    open spec fn view(&self) -> Geometry
        decreases self,
    {
        match self {
            WktItem::Point(g) => Geometry::Point(g@),
            WktItem::LineString(g) => Geometry::LineString(g@),
            WktItem::Polygon(g) => Geometry::Polygon(g@),
            WktItem::MultiPoint(g) => Geometry::MultiPoint(g@),
            WktItem::MultiLineString(g) => Geometry::MultiLineString(g@),
            WktItem::MultiPolygon(g) => Geometry::MultiPolygon(g@),
            WktItem::GeometryCollection(g) => Geometry::GeometryCollection(g@),
        }
    }
}

/// The grammar of a geometry whose keyword `word` has been read: the
/// keyword selects the kind (see `keyword_grammar` for the words that select
/// none), and the lexemes `ts` are read as the grammar of that kind says.
pub open spec fn item_grammar(word: Seq<u8>, ts: Seq<Lexeme>, dim: Dimension) -> Parsed<Geometry>
    decreases ts.len(), 1int,
{
    match keyword_grammar(word) {
        Err(e) => Err(e),
        Ok(GeometryKind::Point) => match Point::grammar(ts, dim) {
            Ok((g, rest)) => Ok((Geometry::Point(g), rest)),
            Err(e) => Err(e),
        },
        Ok(GeometryKind::LineString) => match LineString::grammar(ts, dim) {
            Ok((g, rest)) => Ok((Geometry::LineString(g), rest)),
            Err(e) => Err(e),
        },
        Ok(GeometryKind::Polygon) => match Polygon::grammar(ts, dim) {
            Ok((g, rest)) => Ok((Geometry::Polygon(g), rest)),
            Err(e) => Err(e),
        },
        Ok(GeometryKind::MultiPoint) => match MultiPoint::grammar(ts, dim) {
            Ok((g, rest)) => Ok((Geometry::MultiPoint(g), rest)),
            Err(e) => Err(e),
        },
        Ok(GeometryKind::MultiLineString) => match MultiLineString::grammar(ts, dim) {
            Ok((g, rest)) => Ok((Geometry::MultiLineString(g), rest)),
            Err(e) => Err(e),
        },
        Ok(GeometryKind::MultiPolygon) => match MultiPolygon::grammar(ts, dim) {
            Ok((g, rest)) => Ok((Geometry::MultiPolygon(g), rest)),
            Err(e) => Err(e),
        },
        Ok(GeometryKind::GeometryCollection) => match collection_grammar(ts, dim) {
            Ok((g, rest)) => Ok((Geometry::GeometryCollection(g), rest)),
            Err(e) => Err(e),
        },
    }
}

/// A geometry is made of at least two lexemes after its keyword, and what is
/// left after it is the rest of the same lexemes.
pub proof fn lemma_item_consumes(word: Seq<u8>, ts: Seq<Lexeme>, dim: Dimension)
    ensures
        item_grammar(word, ts, dim) matches Ok((_, rest)) ==> follows(rest, ts),
    decreases ts.len(), 1int,
{
    match keyword_grammar(word) {
        Err(e) => {},
        Ok(GeometryKind::Point) => Point::lemma_consumes(ts, dim),
        Ok(GeometryKind::LineString) => LineString::lemma_consumes(ts, dim),
        Ok(GeometryKind::Polygon) => Polygon::lemma_consumes(ts, dim),
        Ok(GeometryKind::MultiPoint) => MultiPoint::lemma_consumes(ts, dim),
        Ok(GeometryKind::MultiLineString) => MultiLineString::lemma_consumes(ts, dim),
        Ok(GeometryKind::MultiPolygon) => MultiPolygon::lemma_consumes(ts, dim),
        Ok(GeometryKind::GeometryCollection) => lemma_collection_consumes(ts, dim),
    }
}

/// What the grammar of geometries accepts spells the body of the geometry
/// that it gives; the keyword names the kind of that geometry, and the
/// geometry has the dimension.
pub proof fn lemma_item_written(word: Seq<u8>, ts: Seq<Lexeme>, dim: Dimension)
    ensures
        item_grammar(word, ts, dim) matches Ok((g, rest)) ==> keyword_grammar(word) == Ok::<
            GeometryKind,
            WktError,
        >(g.kind()) && spells(taken(ts, rest), g.body()) && g.valid(dim),
    decreases ts.len(), 1int,
{
    match keyword_grammar(word) {
        Err(e) => {},
        Ok(GeometryKind::Point) => lemma_spells::<Point>(ts, dim),
        Ok(GeometryKind::LineString) => lemma_spells::<LineString>(ts, dim),
        Ok(GeometryKind::Polygon) => lemma_spells::<Polygon>(ts, dim),
        Ok(GeometryKind::MultiPoint) => lemma_spells::<MultiPoint>(ts, dim),
        Ok(GeometryKind::MultiLineString) => lemma_spells::<MultiLineString>(ts, dim),
        Ok(GeometryKind::MultiPolygon) => lemma_spells::<MultiPolygon>(ts, dim),
        Ok(GeometryKind::GeometryCollection) => lemma_collection_written(ts, dim),
    }
}

/// The body of a geometry is read back as that geometry after a keyword
/// that names its kind, whatever follows it.
pub proof fn lemma_item_reads_back(word: Seq<u8>, g: Geometry, rest: Seq<Lexeme>, dim: Dimension)
    requires
        keyword_grammar(word) == Ok::<GeometryKind, WktError>(g.kind()),
        g.valid(dim),
    ensures
        item_grammar(word, g.body() + rest, dim) == Ok::<(Geometry, Seq<Lexeme>), WktError>(
            (g, rest),
        ),
        all_tokens(g.body()),
    decreases g, 1int,
{
    let ts = g.body() + rest;
    match g {
        Geometry::Point(m) => {
            assert(Point::grammar(ts, dim) == Ok::<_, WktError>((m, rest)) && all_tokens(
                g.body(),
            )) by {
                lemma_point_reads_back(m, rest, dim);
            }
        },
        Geometry::LineString(m) => {
            assert(LineString::grammar(ts, dim) == Ok::<_, WktError>((m, rest)) && all_tokens(
                g.body(),
            )) by {
                lemma_group_reads_back::<Coordinate>(m, rest, dim);
            }
        },
        Geometry::Polygon(m) => {
            assert(Polygon::grammar(ts, dim) == Ok::<_, WktError>((m, rest)) && all_tokens(
                g.body(),
            )) by {
                lemma_group_reads_back::<LineString>(m, rest, dim);
            }
        },
        Geometry::MultiPoint(m) => {
            assert(MultiPoint::grammar(ts, dim) == Ok::<_, WktError>((m, rest)) && all_tokens(
                g.body(),
            )) by {
                lemma_group_reads_back::<Point>(m, rest, dim);
            }
        },
        Geometry::MultiLineString(m) => {
            assert(MultiLineString::grammar(ts, dim) == Ok::<_, WktError>((m, rest)) && all_tokens(
                g.body(),
            )) by {
                lemma_group_reads_back::<LineString>(m, rest, dim);
            }
        },
        Geometry::MultiPolygon(m) => {
            assert(MultiPolygon::grammar(ts, dim) == Ok::<_, WktError>((m, rest)) && all_tokens(
                g.body(),
            )) by {
                lemma_group_reads_back::<Polygon>(m, rest, dim);
            }
        },
        Geometry::GeometryCollection(m) => {
            assert(collection_grammar(ts, dim) == Ok::<_, WktError>((m, rest)) && all_tokens(
                g.body(),
            )) by {
                lemma_collection_reads_back(m, rest, dim);
            }
        },
    }
}

/// The grammar of a geometry: a keyword and the geometry that it announces.
/// A token that is no word gives `MalformedGroup`.
pub open spec fn geometry_grammar(ts: Seq<Lexeme>, dim: Dimension) -> Parsed<Geometry>
    decreases ts.len(), 2int,
{
    match front(ts) {
        None => Err(WktError::UnexpectedEndOfInput),
        Some(Err(e)) => Err(e),
        Some(Ok(TokenKind::Word)) => item_grammar(ts[0]->Word_0, ts.skip(1), dim),
        Some(Ok(_)) => Err(WktError::MalformedGroup(TokenKind::Word)),
    }
}

/// A geometry is made of at least one lexeme, and what is left after it is
/// the rest of the same lexemes.
pub proof fn lemma_geometry_consumes(ts: Seq<Lexeme>, dim: Dimension)
    ensures
        geometry_grammar(ts, dim) matches Ok((_, rest)) ==> follows(rest, ts),
    decreases ts.len(), 2int,
{
    if let Ok((_, rest)) = geometry_grammar(ts, dim) {
        lemma_item_consumes(ts[0]->Word_0, ts.skip(1), dim);
        lemma_follows_skip(ts);
        lemma_follows_trans(rest, ts.skip(1), ts);
    }
}

/// What the grammar of geometries accepts spells the writing of the
/// geometry that it gives, the case of the letters of keywords aside, and
/// that geometry has the dimension.
pub proof fn lemma_geometry_written(ts: Seq<Lexeme>, dim: Dimension)
    ensures
        geometry_grammar(ts, dim) matches Ok((g, rest)) ==> spells(taken(ts, rest), g.written())
            && g.valid(dim),
    decreases ts.len(), 2int,
{
    if let Ok((g, rest)) = geometry_grammar(ts, dim) {
        let word = ts[0]->Word_0;
        let after = ts.skip(1);
        lemma_item_written(word, after, dim);
        lemma_item_consumes(word, after, dim);
        lemma_keyword_grammar(word);
        lemma_follows_skip(ts);
        assert(taken(ts, after) =~= seq![ts[0]]);
        lemma_spells_both(ts, after, rest, seq![Lexeme::Word(g.kind().keyword())], g.body());
    }
}

/// The writing of a geometry is read back as that geometry, whatever
/// follows it.
pub proof fn lemma_geometry_reads_back(g: Geometry, rest: Seq<Lexeme>, dim: Dimension)
    requires
        g.valid(dim),
    ensures
        geometry_grammar(g.written() + rest, dim) == Ok::<(Geometry, Seq<Lexeme>), WktError>(
            (g, rest),
        ),
        all_tokens(g.written()),
    decreases g, 2int,
{
    let word = g.kind().keyword();
    lemma_in_a_row(seq![Lexeme::Word(word)], g.body(), rest);
    lemma_after_first(Lexeme::Word(word), g.body() + rest);
    assert(keyword_grammar(word) == Ok::<GeometryKind, WktError>(g.kind())) by {
        g.kind().lemma_keyword();
    }
    lemma_item_reads_back(word, g, rest, dim);
    lemma_all_tokens(seq![Lexeme::Word(word)], g.body());
}

impl WktItem {
    /// Reads a geometry from the front of `tokens`: its keyword and what the
    /// keyword announces.
    pub fn from_tokens(tokens: &mut PeekableTokens, dim: Dimension) -> (r: Result<Self, WktError>)
        ensures
            agrees(r, final(tokens)@, geometry_grammar(old(tokens)@, dim)),
        decreases old(tokens)@.len(), 2int,
    {
        let word = match tokens.next() {
            None => return Err(WktError::UnexpectedEndOfInput),
            Some(Err(e)) => return Err(e),
            Some(Ok(Token::Word(word))) => word,
            Some(Ok(_)) => return Err(WktError::MalformedGroup(TokenKind::Word)),
        };
        WktItem::from_word_and_tokens(word.as_slice(), tokens, dim)
    }

    /// Reads the geometry that the keyword `word` announces from the front
    /// of `tokens`, which stand right after the keyword.
    pub fn from_word_and_tokens(word: &[u8], tokens: &mut PeekableTokens, dim: Dimension) -> (r:
        Result<Self, WktError>)
        ensures
            agrees(r, final(tokens)@, item_grammar(word@, old(tokens)@, dim)),
        decreases old(tokens)@.len(), 1int,
    {
        let kind = match lookup(word) {
            Ok(kind) => kind,
            Err(e) => return Err(e),
        };
        match kind {
            GeometryKind::Point => match Point::from_tokens(tokens, dim) {
                Ok(g) => Ok(g.as_item()),
                Err(e) => Err(e),
            },
            GeometryKind::LineString => match LineString::from_tokens(tokens, dim) {
                Ok(g) => Ok(g.as_item()),
                Err(e) => Err(e),
            },
            GeometryKind::Polygon => match Polygon::from_tokens(tokens, dim) {
                Ok(g) => Ok(g.as_item()),
                Err(e) => Err(e),
            },
            GeometryKind::MultiPoint => match MultiPoint::from_tokens(tokens, dim) {
                Ok(g) => Ok(g.as_item()),
                Err(e) => Err(e),
            },
            GeometryKind::MultiLineString => match MultiLineString::from_tokens(tokens, dim) {
                Ok(g) => Ok(g.as_item()),
                Err(e) => Err(e),
            },
            GeometryKind::MultiPolygon => match MultiPolygon::from_tokens(tokens, dim) {
                Ok(g) => Ok(g.as_item()),
                Err(e) => Err(e),
            },
            GeometryKind::GeometryCollection => match GeometryCollection::from_tokens(tokens, dim) {
                Ok(g) => Ok(g.as_item()),
                Err(e) => Err(e),
            },
        }
    }
}

/// A document: the geometries that a text holds.
#[derive(Debug, PartialEq, Eq)]
pub struct Wkt {
    pub items: Vec<WktItem>,
}

impl View for Wkt {
    type V = Seq<Geometry>;

    open spec fn view(&self) -> Seq<Geometry> {
        models(self.items@)
    }
}

/// The grammar of a document. No lexeme at all makes the empty document.
/// Otherwise the lexemes are to begin with a geometry, and the document
/// holds that one geometry; what follows the geometry is not looked at.
pub open spec fn document_grammar(ts: Seq<Lexeme>, dim: Dimension) -> Result<
    Seq<Geometry>,
    WktError,
> {
    if ts.len() == 0 {
        Ok(Seq::empty())
    } else {
        match geometry_grammar(ts, dim) {
            Ok((g, _)) => Ok(seq![g]),
            Err(e) => Err(e),
        }
    }
}

/// Whether a document is one that a parse for the dimension `dim` gives: it
/// holds at most one geometry, and every coordinate of it has the dimension.
pub open spec fn uniform(document: Seq<Geometry>, dim: Dimension) -> bool {
    document.len() <= 1 && forall|i: int|
        0 <= i < document.len() ==> (#[trigger] document[i]).valid(dim)
}

/// Whether a parse did what the grammar of documents asks.
pub open spec fn reads(
    result: Result<Wkt, WktError>,
    expected: Result<Seq<Geometry>, WktError>,
) -> bool {
    match expected {
        Ok(items) => result is Ok && result->Ok_0@ == items,
        Err(e) => result is Err && result->Err_0 == e,
    }
}

impl Wkt {
    /// The empty document.
    pub fn new() -> (wkt: Self)
        ensures
            wkt@ == Seq::<Geometry>::empty(),
    {
        let wkt = Wkt { items: Vec::new() };
        assert(wkt@ =~= Seq::<Geometry>::empty());
        wkt
    }

    /// Appends an item to the document.
    pub fn add_item(&mut self, item: WktItem)
        ensures
            final(self)@ == old(self)@.push(item@),
            final(self).items@ == old(self).items@.push(item),
    {
        self.items.push(item);
        assert(self@ =~= old(self)@.push(item@));
    }

    /// Parses a text whose coordinates have x and y.
    pub fn from_str(wkt_str: &str) -> (r: Result<Self, WktError>)
        ensures
            reads(r, document_grammar(lex(wkt_str.spec_bytes()), Dimension::Xy)),
            r matches Ok(wkt) ==> uniform(wkt@, Dimension::Xy),
    {
        Wkt::from_tokens(Tokens::from_str(wkt_str))
    }

    /// Parses a text whose coordinates have the dimension `dim`.
    pub fn from_str_with_dimension(wkt_str: &str, dim: Dimension) -> (r: Result<Self, WktError>)
        ensures
            reads(r, document_grammar(lex(wkt_str.spec_bytes()), dim)),
            r matches Ok(wkt) ==> uniform(wkt@, dim),
    {
        Wkt::from_tokens_with_dimension(Tokens::from_str(wkt_str), dim)
    }

    /// Parses tokens whose coordinates have x and y.
    pub fn from_tokens(tokens: Tokens) -> (r: Result<Self, WktError>)
        ensures
            reads(r, document_grammar(tokens@, Dimension::Xy)),
            r matches Ok(wkt) ==> uniform(wkt@, Dimension::Xy),
    {
        Wkt::from_tokens_with_dimension(tokens, Dimension::Xy)
    }

    /// Parses tokens whose coordinates have the dimension `dim`.
    pub fn from_tokens_with_dimension(tokens: Tokens, dim: Dimension) -> (r: Result<
        Self,
        WktError,
    >)
        ensures
            reads(r, document_grammar(tokens@, dim)),
            r matches Ok(wkt) ==> uniform(wkt@, dim),
    {
        let mut wkt = Wkt::new();
        let mut tokens = tokens.peekable();
        let ghost all = tokens@;
        if tokens.peek().is_none() {
            return Ok(wkt);
        }
        match WktItem::from_tokens(&mut tokens, dim) {
            Ok(item) => {
                wkt.add_item(item);
                proof {
                    lemma_geometry_written(all, dim);
                    assert(wkt@ =~= seq![item@]);
                }
                Ok(wkt)
            },
            Err(e) => Err(e),
        }
    }
}

} // verus!
