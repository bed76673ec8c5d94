//! Coordinates.
use vstd::prelude::*;
use crate::error::{TokenKind, WktError};
use crate::number::{is_number, Number};
use crate::tokenizer::{front, Lexeme, PeekableTokens, Token};
use crate::types::{lemma_follows_skip, lemma_follows_trans, Dimension, FromTokens, Parsed};

verus! {

/// A position: x and y, and where the dimension has them a height z and a
/// measure m.
#[derive(Clone, Debug, PartialEq, Eq)]
pub struct Coordinate {
    pub x: Number,
    pub y: Number,
    pub z: Option<Number>,
    pub m: Option<Number>,
}

/// A coordinate as a value of specifications: each ordinate is the sequence
/// of bytes that spells it.
pub struct CoordinateModel {
    pub x: Seq<u8>,
    pub y: Seq<u8>,
    pub z: Option<Seq<u8>>,
    pub m: Option<Seq<u8>>,
}

impl View for Coordinate {
    type V = CoordinateModel;

    open spec fn view(&self) -> CoordinateModel {
        CoordinateModel {
            x: self.x@,
            y: self.y@,
            z: match self.z {
                Some(z) => Some(z@),
                None => None,
            },
            m: match self.m {
                Some(m) => Some(m@),
                None => None,
            },
        }
    }
}

impl CoordinateModel {
    /// Whether every ordinate of the coordinate is a decimal literal.
    pub open spec fn spelled(self) -> bool {
        &&& is_number(self.x)
        &&& is_number(self.y)
        &&& self.z matches Some(z) ==> is_number(z)
        &&& self.m matches Some(m) ==> is_number(m)
    }

    /// Whether the coordinate has the ordinates of the dimension `dim`, no
    /// more and no fewer.
    pub open spec fn has_dimension(self, dim: Dimension) -> bool {
        (self.z is Some <==> dim.has_z()) && (self.m is Some <==> dim.has_m())
    }
}

/// The grammar of one ordinate: a number. A comma or a closing parenthesis in
/// its place gives `TooFewOrdinates`, a word or an opening parenthesis gives
/// `MalformedGroup`.
pub open spec fn ordinate_grammar(ts: Seq<Lexeme>) -> Parsed<Seq<u8>> {
    match front(ts) {
        None => Err(WktError::UnexpectedEndOfInput),
        Some(Err(e)) => Err(e),
        Some(Ok(TokenKind::Number)) => Ok((ts[0]->Number_0, ts.skip(1))),
        Some(Ok(TokenKind::Comma)) | Some(Ok(TokenKind::ParenClose)) => Err(
            WktError::TooFewOrdinates,
        ),
        Some(Ok(_)) => Err(WktError::MalformedGroup(TokenKind::Number)),
    }
}

/// The grammar of an ordinate that only some dimensions have.
pub open spec fn optional_ordinate_grammar(ts: Seq<Lexeme>, present: bool) -> Parsed<
    Option<Seq<u8>>,
> {
    if present {
        match ordinate_grammar(ts) {
            Ok((n, rest)) => Ok((Some(n), rest)),
            Err(e) => Err(e),
        }
    } else {
        Ok((None, ts))
    }
}

/// The grammar of a coordinate of the dimension `dim`: as many numbers as
/// the dimension has ordinates, and no number after them. One more number
/// gives `TooManyOrdinates`.
pub open spec fn coordinate_grammar(ts: Seq<Lexeme>, dim: Dimension) -> Parsed<CoordinateModel> {
    match ordinate_grammar(ts) {
        Err(e) => Err(e),
        Ok((x, after_x)) => match ordinate_grammar(after_x) {
            Err(e) => Err(e),
            Ok((y, after_y)) => match optional_ordinate_grammar(after_y, dim.has_z()) {
                Err(e) => Err(e),
                Ok((z, after_z)) => match optional_ordinate_grammar(after_z, dim.has_m()) {
                    Err(e) => Err(e),
                    Ok((m, rest)) => if front(rest) == Some(
                        Ok::<TokenKind, WktError>(TokenKind::Number),
                    ) {
                        Err(WktError::TooManyOrdinates)
                    } else {
                        Ok((CoordinateModel { x, y, z, m }, rest))
                    },
                },
            },
        },
    }
}

/// The lexemes that a coordinate is written with: its ordinates, in the
/// order x, y, z, m.
pub open spec fn coordinate_written(c: CoordinateModel) -> Seq<Lexeme> {
    seq![Lexeme::Number(c.x), Lexeme::Number(c.y)] + optional_written(c.z) + optional_written(c.m)
}

/// The lexemes that an ordinate is written with where it is present.
pub open spec fn optional_written(ordinate: Option<Seq<u8>>) -> Seq<Lexeme> {
    match ordinate {
        Some(n) => seq![Lexeme::Number(n)],
        None => Seq::empty(),
    }
}

/// Reads one ordinate.
fn ordinate(tokens: &mut PeekableTokens) -> (r: Result<Number, WktError>)
    ensures
        match ordinate_grammar(old(tokens)@) {
            Ok((n, rest)) => r is Ok && r->Ok_0@ == n && final(tokens)@ == rest,
            Err(e) => r is Err && r->Err_0 == e,
        },
{
    match tokens.next() {
        None => Err(WktError::UnexpectedEndOfInput),
        Some(Err(e)) => Err(e),
        Some(Ok(Token::Number(n))) => Ok(n),
        Some(Ok(Token::Comma)) | Some(Ok(Token::ParenClose)) => Err(WktError::TooFewOrdinates),
        Some(Ok(_)) => Err(WktError::MalformedGroup(TokenKind::Number)),
    }
}

/// Reads an ordinate that only some dimensions have.
fn optional_ordinate(tokens: &mut PeekableTokens, present: bool) -> (r: Result<
    Option<Number>,
    WktError,
>)
    ensures
        match optional_ordinate_grammar(old(tokens)@, present) {
            Ok((n, rest)) => r is Ok && final(tokens)@ == rest && match n {
                Some(n) => r->Ok_0 is Some && r->Ok_0->Some_0@ == n,
                None => r->Ok_0 is None,
            },
            Err(e) => r is Err && r->Err_0 == e,
        },
{
    if present {
        match ordinate(tokens) {
            Ok(n) => Ok(Some(n)),
            Err(e) => Err(e),
        }
    } else {
        Ok(None)
    }
}

impl FromTokens for Coordinate {
    open spec fn grammar(ts: Seq<Lexeme>, dim: Dimension) -> Parsed<CoordinateModel> {
        coordinate_grammar(ts, dim)
    }

    proof fn lemma_consumes(ts: Seq<Lexeme>, dim: Dimension) {
        if let Ok((_, rest)) = coordinate_grammar(ts, dim) {
            let after_x = ts.skip(1);
            let after_y = after_x.skip(1);
            let after_z = optional_ordinate_grammar(after_y, dim.has_z())->Ok_0.1;
            lemma_follows_skip(ts);
            lemma_follows_skip(after_x);
            lemma_follows_trans(after_y, after_x, ts);
            if dim.has_z() {
                lemma_follows_skip(after_y);
                lemma_follows_trans(after_z, after_y, ts);
            }
            if dim.has_m() {
                lemma_follows_skip(after_z);
                lemma_follows_trans(rest, after_z, ts);
            }
        }
    }

    open spec fn written(model: CoordinateModel) -> Seq<Lexeme> {
        coordinate_written(model)
    }

    open spec fn valid(model: CoordinateModel, dim: Dimension) -> bool {
        model.has_dimension(dim)
    }

    proof fn lemma_written(ts: Seq<Lexeme>, dim: Dimension) {
        if let Ok((c, rest)) = coordinate_grammar(ts, dim) {
            assert(ts =~= coordinate_written(c) + rest);
        }
    }

    proof fn lemma_reads_back(model: CoordinateModel, rest: Seq<Lexeme>, dim: Dimension) {
        let ts = coordinate_written(model) + rest;
        let after_x = ts.skip(1);
        let after_y = after_x.skip(1);
        let after_z = optional_ordinate_grammar(after_y, dim.has_z())->Ok_0.1;
        let after_m = optional_ordinate_grammar(after_z, dim.has_m())->Ok_0.1;
        assert(after_y =~= optional_written(model.z) + optional_written(model.m) + rest);
        assert(after_z =~= optional_written(model.m) + rest);
        assert(after_m =~= rest);
    }

    fn from_tokens(tokens: &mut PeekableTokens, dim: Dimension) -> (r: Result<Self, WktError>) {
        let x = match ordinate(tokens) {
            Ok(x) => x,
            Err(e) => return Err(e),
        };
        let y = match ordinate(tokens) {
            Ok(y) => y,
            Err(e) => return Err(e),
        };
        let z = match optional_ordinate(tokens, dim.count() >= 3) {
            Ok(z) => z,
            Err(e) => return Err(e),
        };
        let m = match optional_ordinate(tokens, dim.count() >= 4) {
            Ok(m) => m,
            Err(e) => return Err(e),
        };
        match tokens.peek() {
            Some(Ok(TokenKind::Number)) => Err(WktError::TooManyOrdinates),
            _ => Ok(Coordinate { x, y, z, m }),
        }
    }
}

} // verus!
