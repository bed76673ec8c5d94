//! Polygons.
use vstd::prelude::*;
use crate::error::WktError;
use crate::tokenizer::{Lexeme, PeekableTokens};
use crate::types::coordinate::CoordinateModel;
use crate::types::linestring::LineString;
use crate::types::{
    all_valid, comma_many, group_grammar, group_written, lemma_group_consumes,
    lemma_group_reads_back, lemma_group_written, models, Dimension, FromTokens, Parsed,
};
use crate::WktItem;

verus! {

/// A polygon: its rings, each a line string. By convention the first ring is the
/// outer boundary and the others are holes; nothing here holds a polygon to that.
#[derive(Clone, Debug, PartialEq, Eq)]
pub struct Polygon {
    pub lines: Vec<LineString>,
}

impl View for Polygon {
    type V = Seq<Seq<CoordinateModel>>;

    open spec fn view(&self) -> Seq<Seq<CoordinateModel>> {
        models(self.lines@)
    }
}

impl FromTokens for Polygon {
    /// The grammar of a polygon: a group of rings, each written as a line string is.
    open spec fn grammar(ts: Seq<Lexeme>, dim: Dimension) -> Parsed<Seq<Seq<CoordinateModel>>> {
        group_grammar::<LineString>(ts, dim)
    }

    open spec fn written(model: Seq<Seq<CoordinateModel>>) -> Seq<Lexeme> {
        group_written::<LineString>(model)
    }

    open spec fn valid(model: Seq<Seq<CoordinateModel>>, dim: Dimension) -> bool {
        all_valid::<LineString>(model, dim)
    }

    proof fn lemma_written(ts: Seq<Lexeme>, dim: Dimension) {
        lemma_group_written::<LineString>(ts, dim);
    }

    proof fn lemma_reads_back(model: Seq<Seq<CoordinateModel>>, rest: Seq<Lexeme>, dim: Dimension) {
        lemma_group_reads_back::<LineString>(model, rest, dim);
    }

    proof fn lemma_consumes(ts: Seq<Lexeme>, dim: Dimension) {
        lemma_group_consumes::<LineString>(ts, dim);
    }

    fn from_tokens(tokens: &mut PeekableTokens, dim: Dimension) -> (r: Result<Self, WktError>) {
        match comma_many::<LineString>(tokens, dim) {
            Ok(lines) => Ok(Polygon { lines }),
            Err(e) => Err(e),
        }
    }
}

impl Polygon {
    /// Wraps the value as an item.
    pub fn as_item(self) -> (item: WktItem)
        ensures
            item == WktItem::Polygon(self),
    {
        WktItem::Polygon(self)
    }
}

} // verus!
