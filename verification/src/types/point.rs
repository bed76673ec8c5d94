//! Points.
use vstd::prelude::*;
use crate::error::{TokenKind, WktError};
use crate::tokenizer::{all_tokens, Lexeme, PeekableTokens};
use crate::types::coordinate::{
    coordinate_grammar, coordinate_written, Coordinate, CoordinateModel,
};
use crate::WktItem;
use crate::types::{
    expect, expect_grammar, lemma_follows_skip, lemma_follows_trans, lemma_front, Dimension,
    FromTokens, Parsed,
};

verus! {

/// A point: one coordinate.
#[derive(Clone, Debug, PartialEq, Eq)]
pub struct Point {
    pub coord: Coordinate,
}

impl View for Point {
    type V = CoordinateModel;

    open spec fn view(&self) -> CoordinateModel {
        self.coord@
    }
}

/// The grammar of a point: one coordinate between parentheses. A point is
/// never empty.
pub open spec fn point_grammar(ts: Seq<Lexeme>, dim: Dimension) -> Parsed<CoordinateModel> {
    match expect_grammar(ts, TokenKind::ParenOpen) {
        Err(e) => Err(e),
        Ok(inner) => match coordinate_grammar(inner, dim) {
            Err(e) => Err(e),
            Ok((coord, after)) => match expect_grammar(after, TokenKind::ParenClose) {
                Err(e) => Err(e),
                Ok(rest) => Ok((coord, rest)),
            },
        },
    }
}

/// The lexemes that a point is written with: its coordinate between
/// parentheses.
pub open spec fn point_written(c: CoordinateModel) -> Seq<Lexeme> {
    seq![Lexeme::ParenOpen] + coordinate_written(c) + seq![Lexeme::ParenClose]
}

/// The writing of a point is read back as that point, whatever follows it.
pub proof fn lemma_point_reads_back(c: CoordinateModel, rest: Seq<Lexeme>, dim: Dimension)
    requires
        c.has_dimension(dim),
    ensures
        point_grammar(point_written(c) + rest, dim) == Ok::<
            (CoordinateModel, Seq<Lexeme>),
            WktError,
        >((c, rest)),
        all_tokens(point_written(c)),
{
    let ts = point_written(c) + rest;
    let after = seq![Lexeme::ParenClose] + rest;
    assert(ts.skip(1) =~= coordinate_written(c) + after);
    Coordinate::lemma_reads_back(c, after, dim);
    assert(after.skip(1) =~= rest);
}

impl FromTokens for Point {
    open spec fn grammar(ts: Seq<Lexeme>, dim: Dimension) -> Parsed<CoordinateModel> {
        point_grammar(ts, dim)
    }

    proof fn lemma_consumes(ts: Seq<Lexeme>, dim: Dimension) {
        if let Ok((_, rest)) = point_grammar(ts, dim) {
            let inner = ts.skip(1);
            let after = coordinate_grammar(inner, dim)->Ok_0.1;
            lemma_follows_skip(ts);
            Coordinate::lemma_consumes(inner, dim);
            lemma_follows_trans(after, inner, ts);
            lemma_follows_skip(after);
            lemma_follows_trans(rest, after, ts);
        }
    }

    open spec fn written(model: CoordinateModel) -> Seq<Lexeme> {
        point_written(model)
    }

    open spec fn valid(model: CoordinateModel, dim: Dimension) -> bool {
        model.has_dimension(dim)
    }

    proof fn lemma_written(ts: Seq<Lexeme>, dim: Dimension) {
        if let Ok((c, rest)) = point_grammar(ts, dim) {
            let inner = ts.skip(1);
            let after = coordinate_grammar(inner, dim)->Ok_0.1;
            assert(inner == coordinate_written(c) + after) by {
                Coordinate::lemma_written(inner, dim);
            }
            assert(ts == seq![Lexeme::ParenOpen] + inner && after == seq![Lexeme::ParenClose]
                + rest) by {
                lemma_front(ts);
                lemma_front(after);
            }
            assert(ts =~= point_written(c) + rest);
        }
    }

    proof fn lemma_reads_back(model: CoordinateModel, rest: Seq<Lexeme>, dim: Dimension) {
        lemma_point_reads_back(model, rest, dim);
    }

    fn from_tokens(tokens: &mut PeekableTokens, dim: Dimension) -> (r: Result<Self, WktError>) {
        match expect(tokens, TokenKind::ParenOpen) {
            Err(e) => return Err(e),
            Ok(_) => {},
        }
        let coord = match Coordinate::from_tokens(tokens, dim) {
            Ok(coord) => coord,
            Err(e) => return Err(e),
        };
        match expect(tokens, TokenKind::ParenClose) {
            Err(e) => Err(e),
            Ok(_) => Ok(Point { coord }),
        }
    }
}

impl Point {
    /// Wraps the value as an item.
    pub fn as_item(self) -> (item: WktItem)
        ensures
            item == WktItem::Point(self),
    {
        WktItem::Point(self)
    }
}

} // verus!
