//! Line strings.
use vstd::prelude::*;
use crate::error::WktError;
use crate::tokenizer::{Lexeme, PeekableTokens};
use crate::types::coordinate::{Coordinate, CoordinateModel};
use crate::types::{
    all_valid, comma_many, group_grammar, group_written, lemma_group_consumes,
    lemma_group_reads_back, lemma_group_written, models, Dimension, FromTokens, Parsed,
};
use crate::WktItem;

verus! {

/// A line string: coordinates in the order in which a line visits them. It may be empty.
#[derive(Clone, Debug, PartialEq, Eq)]
pub struct LineString {
    pub coords: Vec<Coordinate>,
}

impl View for LineString {
    type V = Seq<CoordinateModel>;

    open spec fn view(&self) -> Seq<CoordinateModel> {
        models(self.coords@)
    }
}

impl FromTokens for LineString {
    /// The grammar of a line string: a group of coordinates.
    open spec fn grammar(ts: Seq<Lexeme>, dim: Dimension) -> Parsed<Seq<CoordinateModel>> {
        group_grammar::<Coordinate>(ts, dim)
    }

    open spec fn written(model: Seq<CoordinateModel>) -> Seq<Lexeme> {
        group_written::<Coordinate>(model)
    }

    open spec fn valid(model: Seq<CoordinateModel>, dim: Dimension) -> bool {
        all_valid::<Coordinate>(model, dim)
    }

    proof fn lemma_written(ts: Seq<Lexeme>, dim: Dimension) {
        lemma_group_written::<Coordinate>(ts, dim);
    }

    proof fn lemma_reads_back(model: Seq<CoordinateModel>, rest: Seq<Lexeme>, dim: Dimension) {
        lemma_group_reads_back::<Coordinate>(model, rest, dim);
    }

    proof fn lemma_consumes(ts: Seq<Lexeme>, dim: Dimension) {
        lemma_group_consumes::<Coordinate>(ts, dim);
    }

    fn from_tokens(tokens: &mut PeekableTokens, dim: Dimension) -> (r: Result<Self, WktError>) {
        match comma_many::<Coordinate>(tokens, dim) {
            Ok(coords) => Ok(LineString { coords }),
            Err(e) => Err(e),
        }
    }
}

impl LineString {
    /// Wraps the value as an item.
    pub fn as_item(self) -> (item: WktItem)
        ensures
            item == WktItem::LineString(self),
    {
        WktItem::LineString(self)
    }
}

} // verus!
