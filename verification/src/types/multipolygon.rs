//! Collections of polygons.
use vstd::prelude::*;
use crate::error::WktError;
use crate::tokenizer::{Lexeme, PeekableTokens};
use crate::types::coordinate::CoordinateModel;
use crate::types::polygon::Polygon;
use crate::types::{
    all_valid, comma_many, group_grammar, group_written, lemma_group_consumes,
    lemma_group_reads_back, lemma_group_written, models, Dimension, FromTokens, Parsed,
};
use crate::WktItem;

verus! {

/// Polygons, in the order in which they were written.
#[derive(Clone, Debug, PartialEq, Eq)]
pub struct MultiPolygon {
    pub polygons: Vec<Polygon>,
}

impl View for MultiPolygon {
    type V = Seq<Seq<Seq<CoordinateModel>>>;

    open spec fn view(&self) -> Seq<Seq<Seq<CoordinateModel>>> {
        models(self.polygons@)
    }
}

impl FromTokens for MultiPolygon {
    /// The grammar of a collection of polygons: a group of polygons.
    open spec fn grammar(ts: Seq<Lexeme>, dim: Dimension) -> Parsed<
        Seq<Seq<Seq<CoordinateModel>>>,
    > {
        group_grammar::<Polygon>(ts, dim)
    }

    open spec fn written(model: Seq<Seq<Seq<CoordinateModel>>>) -> Seq<Lexeme> {
        group_written::<Polygon>(model)
    }

    open spec fn valid(model: Seq<Seq<Seq<CoordinateModel>>>, dim: Dimension) -> bool {
        all_valid::<Polygon>(model, dim)
    }

    proof fn lemma_written(ts: Seq<Lexeme>, dim: Dimension) {
        lemma_group_written::<Polygon>(ts, dim);
    }

    proof fn lemma_reads_back(
        model: Seq<Seq<Seq<CoordinateModel>>>,
        rest: Seq<Lexeme>,
        dim: Dimension,
    ) {
        lemma_group_reads_back::<Polygon>(model, rest, dim);
    }

    proof fn lemma_consumes(ts: Seq<Lexeme>, dim: Dimension) {
        lemma_group_consumes::<Polygon>(ts, dim);
    }

    fn from_tokens(tokens: &mut PeekableTokens, dim: Dimension) -> (r: Result<Self, WktError>) {
        match comma_many::<Polygon>(tokens, dim) {
            Ok(polygons) => Ok(MultiPolygon { polygons }),
            Err(e) => Err(e),
        }
    }
}

impl MultiPolygon {
    /// Wraps the value as an item.
    pub fn as_item(self) -> (item: WktItem)
        ensures
            item == WktItem::MultiPolygon(self),
    {
        WktItem::MultiPolygon(self)
    }
}

} // verus!
