//! Collections of geometries of any kind.
use vstd::prelude::*;
use crate::error::{TokenKind, WktError};
use crate::tokenizer::{all_tokens, front, lemma_all_tokens, Lexeme, PeekableTokens};
use crate::types::{
    expect, expect_grammar, follows, lemma_after_first, lemma_first_and_others,
    lemma_follows_skip, lemma_follows_trans, lemma_front, lemma_in_a_row, lemma_models_empty,
    lemma_models_push, lemma_prepend_nothing, lemma_prepend_push, lemma_spells_both, models,
    prepend, spells, taken, Dimension, Parsed,
};
use crate::{
    geometry_grammar, lemma_geometry_consumes, lemma_geometry_reads_back,
    lemma_geometry_written, Geometry, WktItem,
};

verus! {

/// A collection of geometries, each of any kind, collections included.
#[derive(Debug, PartialEq, Eq)]
pub struct GeometryCollection {
    pub items: Vec<WktItem>,
}

impl View for GeometryCollection {
    type V = Seq<Geometry>;

    open spec fn view(&self) -> Seq<Geometry>
        decreases self,
    {
        Seq::new(
            self.items@.len(),
            |i: int|
                if 0 <= i < self.items@.len() {
                    self.items@[i]@
                } else {
                    Geometry::GeometryCollection(Seq::empty())
                },
        )
    }
}

/// The grammar of the members of a collection that is not empty: one member,
/// then either a comma and the members that follow, or the closing
/// parenthesis of the collection.
///
/// A member is made of at least one lexeme (`lemma_geometry_consumes`), so the
/// test on the lengths always succeeds; it is there to make the definition
/// well-founded.
pub open spec fn members_grammar(ts: Seq<Lexeme>, dim: Dimension) -> Parsed<Seq<Geometry>>
    decreases ts.len(), 3int,
{
    match geometry_grammar(ts, dim) {
        Err(e) => Err(e),
        Ok((first, after)) => if front(after) == Some(
            Ok::<TokenKind, WktError>(TokenKind::Comma),
        ) && after.len() <= ts.len() {
            prepend(seq![first], members_grammar(after.skip(1), dim))
        } else {
            match expect_grammar(after, TokenKind::ParenClose) {
                Err(e) => Err(e),
                Ok(rest) => Ok((seq![first], rest)),
            }
        },
    }
}

/// The grammar of a collection: an opening parenthesis, then either a
/// closing parenthesis at once, which makes the empty collection, or members
/// separated by commas and a closing parenthesis.
pub open spec fn collection_grammar(ts: Seq<Lexeme>, dim: Dimension) -> Parsed<Seq<Geometry>>
    decreases ts.len(), 0int,
{
    match expect_grammar(ts, TokenKind::ParenOpen) {
        Err(e) => Err(e),
        Ok(inner) => if front(inner) == Some(Ok::<TokenKind, WktError>(TokenKind::ParenClose)) {
            Ok((Seq::empty(), inner.skip(1)))
        } else {
            members_grammar(inner, dim)
        },
    }
}

/// The lexemes that the members of a collection are written with, the
/// closing parenthesis of the collection included: each member with its
/// keyword, a comma between one and the next, and the parenthesis.
pub open spec fn members_written(members: Seq<Geometry>) -> Seq<Lexeme>
    decreases members, 0int,
{
    if members.len() == 0 {
        seq![Lexeme::ParenClose]
    } else {
        members[0].written() + (if members.len() > 1 {
            seq![Lexeme::Comma]
        } else {
            Seq::empty()
        }) + members_written(members.skip(1))
    }
}

/// The lexemes that a collection is written with.
pub open spec fn collection_written(members: Seq<Geometry>) -> Seq<Lexeme>
    decreases members, 1int,
{
    seq![Lexeme::ParenOpen] + members_written(members)
}

/// Whether every coordinate of every member has the dimension `dim`.
pub open spec fn members_valid(members: Seq<Geometry>, dim: Dimension) -> bool
    decreases members,
{
    forall|i: int| 0 <= i < members.len() ==> (#[trigger] members[i]).valid(dim)
}

/// The members of a collection are made of at least two lexemes.
pub proof fn lemma_members_consume(ts: Seq<Lexeme>, dim: Dimension)
    ensures
        members_grammar(ts, dim) matches Ok((_, rest)) ==> follows(rest, ts),
    decreases ts.len(), 3int,
{
    if let Ok((_, rest)) = members_grammar(ts, dim) {
        let after = geometry_grammar(ts, dim)->Ok_0.1;
        lemma_geometry_consumes(ts, dim);
        lemma_follows_skip(after);
        lemma_follows_trans(after.skip(1), after, ts);
        if front(after) == Some(Ok::<TokenKind, WktError>(TokenKind::Comma)) {
            lemma_members_consume(after.skip(1), dim);
            lemma_follows_trans(rest, after.skip(1), ts);
        }
    }
}

/// A collection is made of at least two lexemes, its parentheses.
pub proof fn lemma_collection_consumes(ts: Seq<Lexeme>, dim: Dimension)
    ensures
        collection_grammar(ts, dim) matches Ok((_, rest)) ==> follows(rest, ts),
    decreases ts.len(), 0int,
{
    if let Ok((_, rest)) = collection_grammar(ts, dim) {
        let inner = ts.skip(1);
        lemma_follows_skip(ts);
        if front(inner) == Some(Ok::<TokenKind, WktError>(TokenKind::ParenClose)) {
            lemma_follows_skip(inner);
        } else {
            lemma_members_consume(inner, dim);
        }
        lemma_follows_trans(rest, inner, ts);
    }
}

/// What the grammar of members accepts spells the writing of the members
/// that it gives; there is at least one, and all have the dimension.
pub proof fn lemma_members_written(ts: Seq<Lexeme>, dim: Dimension)
    ensures
        members_grammar(ts, dim) matches Ok((members, rest)) ==> members.len() > 0 && spells(
            taken(ts, rest),
            members_written(members),
        ) && members_valid(members, dim),
    decreases ts.len(), 3int,
{
    if let Ok((members, rest)) = members_grammar(ts, dim) {
        let (first, after) = geometry_grammar(ts, dim)->Ok_0;
        lemma_geometry_written(ts, dim);
        lemma_geometry_consumes(ts, dim);
        lemma_front(after);
        lemma_follows_skip(after);
        if front(after) == Some(Ok::<TokenKind, WktError>(TokenKind::Comma)) {
            let others = members_grammar(after.skip(1), dim)->Ok_0.0;
            lemma_members_written(after.skip(1), dim);
            lemma_members_consume(after.skip(1), dim);
            assert(members.skip(1) =~= others);
            assert(taken(after, after.skip(1)) =~= seq![Lexeme::Comma]);
            lemma_spells_both(
                after,
                after.skip(1),
                rest,
                seq![Lexeme::Comma],
                members_written(others),
            );
            lemma_follows_trans(rest, after.skip(1), after);
            lemma_spells_both(
                ts,
                after,
                rest,
                first.written(),
                seq![Lexeme::Comma] + members_written(others),
            );
            assert(members_written(members) =~= first.written() + (seq![Lexeme::Comma]
                + members_written(others)));
            assert forall|i: int| 0 <= i < members.len() implies (#[trigger] members[i]).valid(
                dim,
            ) by {
                if i > 0 {
                    assert(members[i] == others[i - 1]);
                }
            }
        } else {
            assert(members.skip(1) =~= Seq::<Geometry>::empty());
            assert(members_written(members.skip(1)) =~= seq![Lexeme::ParenClose]);
            assert(taken(after, rest) =~= seq![Lexeme::ParenClose]);
            lemma_spells_both(ts, after, rest, first.written(), seq![Lexeme::ParenClose]);
            assert(members_written(members) =~= first.written() + seq![Lexeme::ParenClose]);
        }
    }
}

/// What the grammar of collections accepts spells the writing of the
/// collection that it gives, and the members have the dimension.
pub proof fn lemma_collection_written(ts: Seq<Lexeme>, dim: Dimension)
    ensures
        collection_grammar(ts, dim) matches Ok((members, rest)) ==> spells(
            taken(ts, rest),
            collection_written(members),
        ) && members_valid(members, dim),
    decreases ts.len(), 0int,
{
    if let Ok((members, rest)) = collection_grammar(ts, dim) {
        let inner = ts.skip(1);
        lemma_front(ts);
        lemma_follows_skip(ts);
        assert(taken(ts, inner) =~= seq![Lexeme::ParenOpen]);
        if front(inner) == Some(Ok::<TokenKind, WktError>(TokenKind::ParenClose)) {
            lemma_front(inner);
            lemma_follows_skip(inner);
            assert(taken(inner, rest) =~= seq![Lexeme::ParenClose]);
            assert(members_written(members) =~= seq![Lexeme::ParenClose]);
        } else {
            lemma_members_written(inner, dim);
            lemma_members_consume(inner, dim);
        }
        lemma_spells_both(ts, inner, rest, seq![Lexeme::ParenOpen], members_written(members));
    }
}

/// Members are a first member and, after a comma, more members.
proof fn lemma_members_more(
    ts: Seq<Lexeme>,
    first: Geometry,
    after: Seq<Lexeme>,
    others: Seq<Geometry>,
    rest: Seq<Lexeme>,
    dim: Dimension,
)
    requires
        geometry_grammar(ts, dim) == Ok::<(Geometry, Seq<Lexeme>), WktError>((first, after)),
        front(after) == Some(Ok::<TokenKind, WktError>(TokenKind::Comma)),
        members_grammar(after.skip(1), dim) == Ok::<(Seq<Geometry>, Seq<Lexeme>), WktError>(
            (others, rest),
        ),
    ensures
        members_grammar(ts, dim) == Ok::<(Seq<Geometry>, Seq<Lexeme>), WktError>(
            (seq![first] + others, rest),
        ),
{
    lemma_geometry_consumes(ts, dim);
}

/// Members are one member alone where the closing parenthesis follows it.
proof fn lemma_members_last(
    ts: Seq<Lexeme>,
    first: Geometry,
    after: Seq<Lexeme>,
    dim: Dimension,
)
    requires
        geometry_grammar(ts, dim) == Ok::<(Geometry, Seq<Lexeme>), WktError>((first, after)),
        front(after) == Some(Ok::<TokenKind, WktError>(TokenKind::ParenClose)),
    ensures
        members_grammar(ts, dim) == Ok::<(Seq<Geometry>, Seq<Lexeme>), WktError>(
            (seq![first], after.skip(1)),
        ),
{
}

/// The writing of the members of a collection is read back as those
/// members, whatever follows it.
pub proof fn lemma_members_read_back(members: Seq<Geometry>, rest: Seq<Lexeme>, dim: Dimension)
    requires
        members.len() > 0,
        members_valid(members, dim),
    ensures
        members_grammar(members_written(members) + rest, dim) == Ok::<
            (Seq<Geometry>, Seq<Lexeme>),
            WktError,
        >((members, rest)),
        all_tokens(members_written(members)),
    decreases members, 3int,
{
    let first = members[0];
    let others = members.skip(1);
    let ts = members_written(members) + rest;
    lemma_first_and_others(members);
    if members.len() > 1 {
        let comma = seq![Lexeme::Comma];
        let more = members_written(others) + rest;
        let after = comma + more;
        assert(ts == first.written() + after) by {
            lemma_in_a_row(first.written(), comma, members_written(others));
            lemma_in_a_row(first.written(), comma + members_written(others), rest);
            lemma_in_a_row(comma, members_written(others), rest);
        }
        lemma_geometry_reads_back(first, after, dim);
        assert forall|i: int| 0 <= i < others.len() implies (#[trigger] others[i]).valid(dim) by {
            assert(others[i] == members[i + 1]);
        }
        lemma_members_read_back(others, rest, dim);
        lemma_after_first(Lexeme::Comma, more);
        lemma_members_more(ts, first, after, others, rest, dim);
        lemma_all_tokens(first.written(), comma);
        lemma_all_tokens(first.written() + comma, members_written(others));
    } else {
        let close = seq![Lexeme::ParenClose];
        let after = close + rest;
        assert(members_written(members) == first.written() + close) by {
            lemma_in_a_row(first.written(), close, close);
        }
        lemma_in_a_row(first.written(), close, rest);
        lemma_geometry_reads_back(first, after, dim);
        lemma_after_first(Lexeme::ParenClose, rest);
        lemma_members_last(ts, first, after, dim);
        lemma_all_tokens(first.written(), close);
    }
}

/// The writing of a collection is read back as that collection, whatever
/// follows it.
pub proof fn lemma_collection_reads_back(members: Seq<Geometry>, rest: Seq<Lexeme>, dim: Dimension)
    requires
        members_valid(members, dim),
    ensures
        collection_grammar(collection_written(members) + rest, dim) == Ok::<
            (Seq<Geometry>, Seq<Lexeme>),
            WktError,
        >((members, rest)),
        all_tokens(collection_written(members)),
    decreases members, 4int,
{
    let ts = collection_written(members) + rest;
    let inner = ts.skip(1);
    assert(inner =~= members_written(members) + rest);
    if members.len() == 0 {
        assert(inner.skip(1) =~= rest);
        assert(members =~= Seq::<Geometry>::empty());
    } else {
        lemma_members_read_back(members, rest, dim);
    }
    lemma_all_tokens(seq![Lexeme::ParenOpen], members_written(members));
}

impl GeometryCollection {
    /// The view of a collection is made of the views of its items.
    pub proof fn lemma_view(self)
        ensures
            self@ == models(self.items@),
    {
        assert(self@ =~= models(self.items@));
    }

    /// Reads a collection from the front of `tokens`: the parentheses and,
    /// between them, the members separated by commas.
    pub fn from_tokens(tokens: &mut PeekableTokens, dim: Dimension) -> (r: Result<Self, WktError>)
        ensures
            match collection_grammar(old(tokens)@, dim) {
                Ok((members, rest)) => r is Ok && r->Ok_0@ == members && final(tokens)@ == rest,
                Err(e) => r is Err && r->Err_0 == e,
            },
        decreases old(tokens)@.len(), 0int,
    {
        match expect(tokens, TokenKind::ParenOpen) {
            Err(e) => return Err(e),
            Ok(_) => {},
        }
        let mut items: Vec<WktItem> = Vec::new();
        proof {
            lemma_models_empty::<WktItem>();
            lemma_prepend_nothing(members_grammar(tokens@, dim));
        }
        match tokens.peek() {
            Some(Ok(TokenKind::ParenClose)) => {
                let _ = tokens.next();
                let collection = GeometryCollection { items };
                proof {
                    collection.lemma_view();
                }
                return Ok(collection);
            },
            _ => {},
        }
        let ghost inner = tokens@;
        loop
            invariant
                prepend(models(items@), members_grammar(tokens@, dim)) == members_grammar(
                    inner,
                    dim,
                ),
                collection_grammar(old(tokens)@, dim) == members_grammar(inner, dim),
                tokens@.len() < old(tokens)@.len(),
            decreases tokens@.len(),
        {
            let ghost before = tokens@;
            let ghost done = items@;
            let item = match WktItem::from_tokens(tokens, dim) {
                Ok(item) => item,
                Err(e) => return Err(e),
            };
            proof {
                lemma_geometry_consumes(before, dim);
                lemma_models_push(done, item);
            }
            items.push(item);
            match tokens.peek() {
                Some(Ok(TokenKind::Comma)) => {
                    let _ = tokens.next();
                    proof {
                        lemma_prepend_push(models(done), item@, members_grammar(tokens@, dim));
                    }
                },
                _ => {
                    return match expect(tokens, TokenKind::ParenClose) {
                        Err(e) => Err(e),
                        Ok(_) => {
                            let collection = GeometryCollection { items };
                            proof {
                                collection.lemma_view();
                            }
                            Ok(collection)
                        },
                    };
                },
            }
        }
    }

    /// Wraps the value as an item.
    pub fn as_item(self) -> (item: WktItem)
        ensures
            item == WktItem::GeometryCollection(self),
    {
        WktItem::GeometryCollection(self)
    }
}

} // verus!
