//! Collections of points.
use vstd::prelude::*;
use crate::error::WktError;
use crate::tokenizer::{Lexeme, PeekableTokens};
use crate::types::coordinate::CoordinateModel;
use crate::types::point::Point;
use crate::types::{
    all_valid, comma_many, group_grammar, group_written, lemma_group_consumes,
    lemma_group_reads_back, lemma_group_written, models, Dimension, FromTokens, Parsed,
};
use crate::WktItem;

verus! {

/// Points, in the order in which they were written.
#[derive(Clone, Debug, PartialEq, Eq)]
pub struct MultiPoint {
    pub points: Vec<Point>,
}

impl View for MultiPoint {
    type V = Seq<CoordinateModel>;

    open spec fn view(&self) -> Seq<CoordinateModel> {
        models(self.points@)
    }
}

impl FromTokens for MultiPoint {
    /// The grammar of a collection of points: a group of points, each between
/// parentheses of its own.
    open spec fn grammar(ts: Seq<Lexeme>, dim: Dimension) -> Parsed<Seq<CoordinateModel>> {
        group_grammar::<Point>(ts, dim)
    }

    open spec fn written(model: Seq<CoordinateModel>) -> Seq<Lexeme> {
        group_written::<Point>(model)
    }

    open spec fn valid(model: Seq<CoordinateModel>, dim: Dimension) -> bool {
        all_valid::<Point>(model, dim)
    }

    proof fn lemma_written(ts: Seq<Lexeme>, dim: Dimension) {
        lemma_group_written::<Point>(ts, dim);
    }

    proof fn lemma_reads_back(model: Seq<CoordinateModel>, rest: Seq<Lexeme>, dim: Dimension) {
        lemma_group_reads_back::<Point>(model, rest, dim);
    }

    proof fn lemma_consumes(ts: Seq<Lexeme>, dim: Dimension) {
        lemma_group_consumes::<Point>(ts, dim);
    }

    fn from_tokens(tokens: &mut PeekableTokens, dim: Dimension) -> (r: Result<Self, WktError>) {
        match comma_many::<Point>(tokens, dim) {
            Ok(points) => Ok(MultiPoint { points }),
            Err(e) => Err(e),
        }
    }
}

impl MultiPoint {
    /// Wraps the value as an item.
    pub fn as_item(self) -> (item: WktItem)
        ensures
            item == WktItem::MultiPoint(self),
    {
        WktItem::MultiPoint(self)
    }
}

} // verus!
