//! The kinds of geometry, and how each is read from tokens.
//!
//! Each kind states its grammar as a function on sequences of lexemes, and
//! its reader is proved to compute exactly that function. The grammar of a
//! list of elements between parentheses is stated once, for any kind of
//! element.
use vstd::prelude::*;
use crate::error::{TokenKind, WktError};
use crate::tokenizer::{all_tokens, front, lemma_all_tokens, Lexeme, PeekableTokens};
use crate::keyword::uppercase;

pub mod coordinate;
pub mod geometrycollection;
pub mod linestring;
pub mod multilinestring;
pub mod multipoint;
pub mod multipolygon;
pub mod point;
pub mod polygon;

verus! {

/// How many ordinates each coordinate of a text has. It is chosen by the
/// caller for a whole parse, and every coordinate must have that many.
#[derive(Clone, Copy, PartialEq, Eq, Debug, Structural)]
pub enum Dimension {
    /// x and y.
    Xy,
    /// x, y and z.
    Xyz,
    /// x, y, z and m.
    Xyzm,
}

impl Dimension {
    /// Whether coordinates have a z.
    pub open spec fn has_z(self) -> bool {
        self != Dimension::Xy
    }

    /// Whether coordinates have an m.
    pub open spec fn has_m(self) -> bool {
        self == Dimension::Xyzm
    }

    /// The number of ordinates of a coordinate.
    pub open spec fn ordinates(self) -> nat {
        match self {
            Dimension::Xy => 2,
            Dimension::Xyz => 3,
            Dimension::Xyzm => 4,
        }
    }

    /// The number of ordinates of a coordinate.
    pub fn count(self) -> (n: usize)
        ensures
            n == self.ordinates(),
    {
        match self {
            Dimension::Xy => 2,
            Dimension::Xyz => 3,
            Dimension::Xyzm => 4,
        }
    }
}

/// The outcome of reading a value from the front of a sequence of lexemes:
/// the value and the lexemes that follow it, or the reason of the failure.
pub type Parsed<T> = Result<(T, Seq<Lexeme>), WktError>;

/// The views of the values of a sequence.
pub open spec fn models<T: View>(values: Seq<T>) -> Seq<T::V> {
    Seq::new(values.len(), |i: int| values[i]@)
}

/// Whether a reader did what the grammar asks: on success it returned a
/// value with the expected view and left the expected lexemes, and on
/// failure it returned the expected error.
pub open spec fn agrees<T: View>(
    result: Result<T, WktError>,
    left: Seq<Lexeme>,
    expected: Parsed<T::V>,
) -> bool {
    match expected {
        Ok((model, rest)) => result is Ok && result->Ok_0@ == model && left == rest,
        Err(e) => result is Err && result->Err_0 == e,
    }
}

/// Whether `rest` is what is left of `all` after some lexemes, at least
/// one, were taken from its front.
pub open spec fn follows(rest: Seq<Lexeme>, all: Seq<Lexeme>) -> bool {
    rest.len() < all.len() && rest == all.skip(all.len() - rest.len())
}

/// To be followed is transitive.
pub proof fn lemma_follows_trans(a: Seq<Lexeme>, b: Seq<Lexeme>, c: Seq<Lexeme>)
    requires
        follows(a, b),
        follows(b, c),
    ensures
        follows(a, c),
{
    assert(a =~= c.skip(c.len() - a.len()));
}

/// What is left after the first lexeme follows.
pub proof fn lemma_follows_skip(all: Seq<Lexeme>)
    requires
        all.len() > 0,
    ensures
        follows(all.skip(1), all),
{
}

/// Whether the lexeme `found` is the lexeme `written`, the case of the
/// letters of a word aside.
pub open spec fn same_lexeme(found: Lexeme, written: Lexeme) -> bool {
    found == written || (found is Word && written is Word && uppercase(found->Word_0)
        == written->Word_0)
}

/// Whether the lexemes `found` are the lexemes `written`, one by one, the
/// case of the letters of words aside.
pub open spec fn spells(found: Seq<Lexeme>, written: Seq<Lexeme>) -> bool {
    found.len() == written.len() && forall|i: int|
        0 <= i < found.len() ==> same_lexeme(#[trigger] found[i], written[i])
}

/// The lexemes that were read when `rest` is what is left of `all`.
pub open spec fn taken(all: Seq<Lexeme>, rest: Seq<Lexeme>) -> Seq<Lexeme> {
    all.take(all.len() - rest.len())
}

/// Lexemes spell themselves.
pub proof fn lemma_spells_itself(all: Seq<Lexeme>, written: Seq<Lexeme>, rest: Seq<Lexeme>)
    requires
        all == written + rest,
    ensures
        spells(taken(all, rest), written),
{
    assert(taken(all, rest) =~= written);
}

/// Where what was read first spells one writing and what was read next
/// spells another, all that was read spells the two writings in a row.
pub proof fn lemma_spells_both(
    all: Seq<Lexeme>,
    middle: Seq<Lexeme>,
    rest: Seq<Lexeme>,
    first: Seq<Lexeme>,
    second: Seq<Lexeme>,
)
    requires
        follows(middle, all) || middle == all,
        follows(rest, middle) || rest == middle,
        spells(taken(all, middle), first),
        spells(taken(middle, rest), second),
    ensures
        spells(taken(all, rest), first + second),
{
    let a = taken(all, middle);
    let b = taken(middle, rest);
    assert(rest =~= all.skip(all.len() - rest.len()));
    assert(taken(all, rest) =~= a + b);
}

/// Three sequences in a row are the first before the other two.
pub proof fn lemma_in_a_row<A>(first: Seq<A>, second: Seq<A>, third: Seq<A>)
    ensures
        first + second + third == first + (second + third),
        first + Seq::<A>::empty() == first,
        Seq::<A>::empty() + first == first,
{
    assert(first + second + third =~= first + (second + third));
    assert(first + Seq::<A>::empty() =~= first);
    assert(Seq::<A>::empty() + first =~= first);
}

/// What stands after the first of a sequence, and what a sequence of one
/// element and another sequence are in a row.
pub proof fn lemma_after_first<A>(first: A, others: Seq<A>)
    ensures
        (seq![first] + others).len() > 0,
        (seq![first] + others)[0] == first,
        (seq![first] + others).skip(1) == others,
{
    assert((seq![first] + others).skip(1) =~= others);
}

/// A sequence that is not empty is its first element and the others.
pub proof fn lemma_first_and_others<A>(all: Seq<A>)
    requires
        all.len() > 0,
    ensures
        seq![all[0]] + all.skip(1) == all,
        all.len() == 1 ==> seq![all[0]] == all,
{
    assert(seq![all[0]] + all.skip(1) =~= all);
    if all.len() == 1 {
        assert(seq![all[0]] =~= all);
    }
}

/// Lexemes that begin with a parenthesis or a comma are that lexeme and
/// the lexemes after it.
pub proof fn lemma_front(ts: Seq<Lexeme>)
    ensures
        front(ts) == Some(Ok::<TokenKind, WktError>(TokenKind::ParenOpen)) ==> ts == seq![
            Lexeme::ParenOpen,
        ] + ts.skip(1),
        front(ts) == Some(Ok::<TokenKind, WktError>(TokenKind::ParenClose)) ==> ts == seq![
            Lexeme::ParenClose,
        ] + ts.skip(1),
        front(ts) == Some(Ok::<TokenKind, WktError>(TokenKind::Comma)) ==> ts == seq![
            Lexeme::Comma,
        ] + ts.skip(1),
{
    if ts.len() > 0 {
        assert(ts =~= seq![ts[0]] + ts.skip(1));
    }
}

/// The grammar of one expected token: a token of the kind `kind` is read
/// past. The end of the tokens gives `UnexpectedEndOfInput`, a failure of the
/// tokenizer gives `InvalidToken`, and a token of another kind gives
/// `MalformedGroup` with the kind that was expected.
pub open spec fn expect_grammar(ts: Seq<Lexeme>, kind: TokenKind) -> Result<Seq<Lexeme>, WktError> {
    match front(ts) {
        None => Err(WktError::UnexpectedEndOfInput),
        Some(Err(e)) => Err(e),
        Some(Ok(found)) => if found == kind {
            Ok(ts.skip(1))
        } else {
            Err(WktError::MalformedGroup(kind))
        },
    }
}

/// Reads past one token, which must be of the kind `kind`.
pub fn expect(tokens: &mut PeekableTokens, kind: TokenKind) -> (r: Result<(), WktError>)
    ensures
        match expect_grammar(old(tokens)@, kind) {
            Ok(rest) => r is Ok && final(tokens)@ == rest,
            Err(e) => r == Err::<(), WktError>(e),
        },
{
    match tokens.next() {
        None => Err(WktError::UnexpectedEndOfInput),
        Some(Err(e)) => Err(e),
        Some(Ok(token)) => if token.kind() == kind {
            Ok(())
        } else {
            Err(WktError::MalformedGroup(kind))
        },
    }
}

/// Whether the lexemes begin with a number.
pub open spec fn begins_with_number(ts: Seq<Lexeme>) -> bool {
    front(ts) == Some(Ok::<TokenKind, WktError>(TokenKind::Number))
}

/// The capability that the kinds of geometry share: to be read from a cursor
/// over tokens.
///
/// A kind states its grammar, and beside it how a value is written as
/// lexemes. The two are held together by the laws `lemma_written` and
/// `lemma_reads_back`: the grammar accepts the lexemes that begin with the
/// writing of a value, and only those.
pub trait FromTokens: Sized + View {
    /// What `from_tokens` is to return on the lexemes `ts`, for coordinates
    /// of the dimension `dim`.
    spec fn grammar(ts: Seq<Lexeme>, dim: Dimension) -> Parsed<Self::V>;

    /// The lexemes that a value is written with.
    spec fn written(model: Self::V) -> Seq<Lexeme>;

    /// Whether every coordinate of the value has the dimension `dim`.
    spec fn valid(model: Self::V, dim: Dimension) -> bool;

    /// A value is made of at least one lexeme, and what is left after it is
    /// the rest of the same lexemes.
    proof fn lemma_consumes(ts: Seq<Lexeme>, dim: Dimension)
        ensures
            Self::grammar(ts, dim) matches Ok((_, rest)) ==> follows(rest, ts),
    ;

    /// What the grammar accepts is the writing of the value that it gives,
    /// and that value has the dimension.
    proof fn lemma_written(ts: Seq<Lexeme>, dim: Dimension)
        ensures
            Self::grammar(ts, dim) matches Ok((model, rest)) ==> ts == Self::written(model) + rest
                && Self::valid(model, dim),
    ;

    /// The writing of a value is read back as that value, whatever follows
    /// it, a number excepted: the grammar of coordinates would take it for
    /// one more ordinate. A writing begins with a number or with an opening
    /// parenthesis, and holds tokens only.
    proof fn lemma_reads_back(model: Self::V, rest: Seq<Lexeme>, dim: Dimension)
        requires
            Self::valid(model, dim),
            !begins_with_number(rest),
        ensures
            Self::grammar(Self::written(model) + rest, dim) == Ok::<
                (Self::V, Seq<Lexeme>),
                WktError,
            >((model, rest)),
            Self::written(model).len() > 0,
            Self::written(model)[0] is Number || Self::written(model)[0] is ParenOpen,
            all_tokens(Self::written(model)),
    ;

    /// Reads one value from the front of `tokens`.
    fn from_tokens(tokens: &mut PeekableTokens, dim: Dimension) -> (r: Result<Self, WktError>)
        ensures
            agrees(r, final(tokens)@, Self::grammar(old(tokens)@, dim)),
    ;
}

/// The outcome `expected` of reading elements, with the elements `done`
/// before those that it gives.
pub open spec fn prepend<M>(done: Seq<M>, expected: Parsed<Seq<M>>) -> Parsed<Seq<M>> {
    match expected {
        Ok((others, rest)) => Ok((done + others, rest)),
        Err(e) => Err(e),
    }
}

/// To put nothing before an outcome changes nothing.
pub proof fn lemma_prepend_nothing<M>(expected: Parsed<Seq<M>>)
    ensures
        prepend(Seq::empty(), expected) == expected,
{
    if let Ok((others, _)) = expected {
        assert(Seq::<M>::empty() + others =~= others);
    }
}

/// To put elements before an outcome, and one more element between the
/// two, is to put the elements and the one more before the outcome.
pub proof fn lemma_prepend_push<M>(done: Seq<M>, next: M, expected: Parsed<Seq<M>>)
    ensures
        prepend(done, prepend(seq![next], expected)) == prepend(done.push(next), expected),
{
    if let Ok((others, _)) = expected {
        assert(done + (seq![next] + others) =~= done.push(next) + others);
    }
}

/// No values have no views.
pub proof fn lemma_models_empty<T: View>()
    ensures
        models(Seq::<T>::empty()) == Seq::<T::V>::empty(),
{
    assert(models(Seq::<T>::empty()) =~= Seq::<T::V>::empty());
}

/// The views of values and of one more value are the views of the values
/// and the view of the one more.
pub proof fn lemma_models_push<T: View>(values: Seq<T>, next: T)
    ensures
        models(values.push(next)) == models(values).push(next@),
        models(values.push(next)) == models(values) + seq![next@],
{
    assert(models(values.push(next)) =~= models(values).push(next@));
    assert(models(values).push(next@) =~= models(values) + seq![next@]);
}

/// The grammar of the elements of a group that is not empty: one element,
/// then either a comma and the elements that follow, or the closing
/// parenthesis of the group.
pub open spec fn elements_grammar<T: FromTokens>(ts: Seq<Lexeme>, dim: Dimension) -> Parsed<
    Seq<T::V>,
>
    decreases ts.len(),
{
    match T::grammar(ts, dim) {
        Err(e) => Err(e),
        Ok((first, after)) => if front(after) == Some(
            Ok::<TokenKind, WktError>(TokenKind::Comma),
        ) {
            proof {
                T::lemma_consumes(ts, dim);
            }
            prepend(seq![first], elements_grammar::<T>(after.skip(1), dim))
        } else {
            match expect_grammar(after, TokenKind::ParenClose) {
                Err(e) => Err(e),
                Ok(rest) => Ok((seq![first], rest)),
            }
        },
    }
}

/// The grammar of a group: an opening parenthesis, then either a closing
/// parenthesis at once, which makes the empty group, or elements separated
/// by commas and a closing parenthesis.
pub open spec fn group_grammar<T: FromTokens>(ts: Seq<Lexeme>, dim: Dimension) -> Parsed<
    Seq<T::V>,
> {
    match expect_grammar(ts, TokenKind::ParenOpen) {
        Err(e) => Err(e),
        Ok(inner) => if front(inner) == Some(Ok::<TokenKind, WktError>(TokenKind::ParenClose)) {
            Ok((Seq::empty(), inner.skip(1)))
        } else {
            elements_grammar::<T>(inner, dim)
        },
    }
}

/// The elements of a group are made of at least two lexemes, those of the
/// first element and the closing parenthesis.
pub proof fn lemma_elements_consume<T: FromTokens>(ts: Seq<Lexeme>, dim: Dimension)
    ensures
        elements_grammar::<T>(ts, dim) matches Ok((_, rest)) ==> follows(rest, ts),
    decreases ts.len(),
{
    if let Ok((_, rest)) = elements_grammar::<T>(ts, dim) {
        let after = T::grammar(ts, dim)->Ok_0.1;
        T::lemma_consumes(ts, dim);
        lemma_follows_skip(after);
        lemma_follows_trans(after.skip(1), after, ts);
        if front(after) == Some(Ok::<TokenKind, WktError>(TokenKind::Comma)) {
            lemma_elements_consume::<T>(after.skip(1), dim);
            lemma_follows_trans(rest, after.skip(1), ts);
        }
    }
}

/// A group is made of at least two lexemes, its parentheses.
pub proof fn lemma_group_consumes<T: FromTokens>(ts: Seq<Lexeme>, dim: Dimension)
    ensures
        group_grammar::<T>(ts, dim) matches Ok((_, rest)) ==> follows(rest, ts),
{
    if let Ok((_, rest)) = group_grammar::<T>(ts, dim) {
        let inner = ts.skip(1);
        lemma_follows_skip(ts);
        if front(inner) == Some(Ok::<TokenKind, WktError>(TokenKind::ParenClose)) {
            lemma_follows_skip(inner);
        } else {
            lemma_elements_consume::<T>(inner, dim);
        }
        lemma_follows_trans(rest, inner, ts);
    }
}

/// The lexemes that the elements of a group are written with, the closing
/// parenthesis of the group included: each element, a comma between one and
/// the next, and the parenthesis.
pub open spec fn elements_written<T: FromTokens>(elements: Seq<T::V>) -> Seq<Lexeme>
    decreases elements.len(),
{
    if elements.len() == 0 {
        seq![Lexeme::ParenClose]
    } else {
        T::written(elements[0]) + (if elements.len() > 1 {
            seq![Lexeme::Comma]
        } else {
            Seq::empty()
        }) + elements_written::<T>(elements.skip(1))
    }
}

/// The lexemes that a group is written with.
pub open spec fn group_written<T: FromTokens>(elements: Seq<T::V>) -> Seq<Lexeme> {
    seq![Lexeme::ParenOpen] + elements_written::<T>(elements)
}

/// Whether every coordinate of every element has the dimension `dim`.
pub open spec fn all_valid<T: FromTokens>(elements: Seq<T::V>, dim: Dimension) -> bool {
    forall|i: int| 0 <= i < elements.len() ==> T::valid(#[trigger] elements[i], dim)
}

/// What the grammar of elements accepts is the writing of the elements that
/// it gives; there is at least one, and all have the dimension.
pub proof fn lemma_elements_written<T: FromTokens>(ts: Seq<Lexeme>, dim: Dimension)
    ensures
        elements_grammar::<T>(ts, dim) matches Ok((elements, rest)) ==> elements.len() > 0 && ts
            == elements_written::<T>(elements) + rest && all_valid::<T>(elements, dim),
    decreases ts.len(),
{
    if let Ok((elements, rest)) = elements_grammar::<T>(ts, dim) {
        let (first, after) = T::grammar(ts, dim)->Ok_0;
        T::lemma_written(ts, dim);
        T::lemma_consumes(ts, dim);
        if front(after) == Some(Ok::<TokenKind, WktError>(TokenKind::Comma)) {
            let others = elements_grammar::<T>(after.skip(1), dim)->Ok_0.0;
            lemma_elements_written::<T>(after.skip(1), dim);
            lemma_front(after);
            assert(elements.skip(1) =~= others);
            assert(ts =~= elements_written::<T>(elements) + rest);
            assert forall|i: int| 0 <= i < elements.len() implies T::valid(
                #[trigger] elements[i],
                dim,
            ) by {
                if i > 0 {
                    assert(elements[i] == others[i - 1]);
                }
            }
        } else {
            lemma_front(after);
            assert(elements.skip(1) =~= Seq::<T::V>::empty());
            assert(elements_written::<T>(elements.skip(1)) =~= seq![Lexeme::ParenClose]);
            assert(ts =~= elements_written::<T>(elements) + rest);
        }
    }
}

/// What the grammar of groups accepts is the writing of the group that it
/// gives, and the elements of that group have the dimension.
pub proof fn lemma_group_written<T: FromTokens>(ts: Seq<Lexeme>, dim: Dimension)
    ensures
        group_grammar::<T>(ts, dim) matches Ok((elements, rest)) ==> ts == group_written::<T>(
            elements,
        ) + rest && all_valid::<T>(elements, dim),
{
    if let Ok((elements, rest)) = group_grammar::<T>(ts, dim) {
        let inner = ts.skip(1);
        lemma_front(ts);
        if front(inner) == Some(Ok::<TokenKind, WktError>(TokenKind::ParenClose)) {
            lemma_front(inner);
            assert(ts =~= group_written::<T>(elements) + rest);
        } else {
            lemma_elements_written::<T>(inner, dim);
            assert(ts =~= group_written::<T>(elements) + rest);
        }
    }
}

/// What the grammar of a kind accepts spells the writing of the value that
/// it gives.
pub proof fn lemma_spells<T: FromTokens>(ts: Seq<Lexeme>, dim: Dimension)
    ensures
        T::grammar(ts, dim) matches Ok((model, rest)) ==> spells(
            taken(ts, rest),
            T::written(model),
        ) && T::valid(model, dim),
{
    if let Ok((model, rest)) = T::grammar(ts, dim) {
        T::lemma_written(ts, dim);
        lemma_spells_itself(ts, T::written(model), rest);
    }
}

/// The writing of elements is read back as those elements, whatever follows
/// it.
pub proof fn lemma_elements_read_back<T: FromTokens>(
    elements: Seq<T::V>,
    rest: Seq<Lexeme>,
    dim: Dimension,
)
    requires
        elements.len() > 0,
        all_valid::<T>(elements, dim),
    ensures
        elements_grammar::<T>(elements_written::<T>(elements) + rest, dim) == Ok::<
            (Seq<T::V>, Seq<Lexeme>),
            WktError,
        >((elements, rest)),
        all_tokens(elements_written::<T>(elements)),
    decreases elements.len(),
{
    let first = elements[0];
    let others = elements.skip(1);
    let ts = elements_written::<T>(elements) + rest;
    if elements.len() > 1 {
        let after = seq![Lexeme::Comma] + elements_written::<T>(others) + rest;
        assert(ts =~= T::written(first) + after);
        T::lemma_reads_back(first, after, dim);
        lemma_all_tokens(T::written(first), seq![Lexeme::Comma]);
        assert(after.skip(1) =~= elements_written::<T>(others) + rest);
        assert forall|i: int| 0 <= i < others.len() implies T::valid(#[trigger] others[i], dim) by {
            assert(others[i] == elements[i + 1]);
        }
        lemma_elements_read_back::<T>(others, rest, dim);
        lemma_all_tokens(
            T::written(first) + seq![Lexeme::Comma],
            elements_written::<T>(others),
        );
        assert(seq![first] + others =~= elements);
    } else {
        let after = seq![Lexeme::ParenClose] + rest;
        assert(elements_written::<T>(others) =~= seq![Lexeme::ParenClose]);
        assert(ts =~= T::written(first) + after);
        T::lemma_reads_back(first, after, dim);
        lemma_all_tokens(T::written(first), Seq::empty());
        lemma_all_tokens(T::written(first) + Seq::empty(), seq![Lexeme::ParenClose]);
        assert(after.skip(1) =~= rest);
        assert(seq![first] =~= elements);
    }
}

/// The writing of a group is read back as that group, whatever follows it.
pub proof fn lemma_group_reads_back<T: FromTokens>(
    elements: Seq<T::V>,
    rest: Seq<Lexeme>,
    dim: Dimension,
)
    requires
        all_valid::<T>(elements, dim),
    ensures
        group_grammar::<T>(group_written::<T>(elements) + rest, dim) == Ok::<
            (Seq<T::V>, Seq<Lexeme>),
            WktError,
        >((elements, rest)),
        all_tokens(group_written::<T>(elements)),
{
    let ts = group_written::<T>(elements) + rest;
    let inner = ts.skip(1);
    assert(inner =~= elements_written::<T>(elements) + rest);
    if elements.len() == 0 {
        assert(inner.skip(1) =~= rest);
        assert(elements =~= Seq::<T::V>::empty());
    } else {
        T::lemma_reads_back(elements[0], seq![Lexeme::ParenClose], dim);
        lemma_elements_read_back::<T>(elements, rest, dim);
    }
    lemma_all_tokens(seq![Lexeme::ParenOpen], elements_written::<T>(elements));
}

/// Reads a group of elements of the kind `T`: the parentheses and, between
/// them, the elements separated by commas.
pub fn comma_many<T: FromTokens>(tokens: &mut PeekableTokens, dim: Dimension) -> (r: Result<
    Vec<T>,
    WktError,
>)
    ensures
        match group_grammar::<T>(old(tokens)@, dim) {
            Ok((elements, rest)) => r is Ok && models(r->Ok_0@) == elements && final(tokens)@
                == rest,
            Err(e) => r is Err && r->Err_0 == e,
        },
{
    match expect(tokens, TokenKind::ParenOpen) {
        Err(e) => return Err(e),
        Ok(_) => {},
    }
    let mut items: Vec<T> = Vec::new();
    proof {
        lemma_models_empty::<T>();
        lemma_prepend_nothing(elements_grammar::<T>(tokens@, dim));
    }
    match tokens.peek() {
        Some(Ok(TokenKind::ParenClose)) => {
            let _ = tokens.next();
            return Ok(items);
        },
        _ => {},
    }
    let ghost inner = tokens@;
    loop
        invariant
            prepend(models(items@), elements_grammar::<T>(tokens@, dim)) == elements_grammar::<T>(
                inner,
                dim,
            ),
            group_grammar::<T>(old(tokens)@, dim) == elements_grammar::<T>(inner, dim),
        decreases tokens@.len(),
    {
        let ghost before = tokens@;
        let ghost done = items@;
        let item = match T::from_tokens(tokens, dim) {
            Ok(item) => item,
            Err(e) => return Err(e),
        };
        proof {
            T::lemma_consumes(before, dim);
            lemma_models_push(done, item);
        }
        items.push(item);
        match tokens.peek() {
            Some(Ok(TokenKind::Comma)) => {
                let _ = tokens.next();
                proof {
                    lemma_prepend_push(
                        models(done),
                        item@,
                        elements_grammar::<T>(tokens@, dim),
                    );
                }
            },
            _ => {
                return match expect(tokens, TokenKind::ParenClose) {
                    Err(e) => Err(e),
                    Ok(_) => Ok(items),
                };
            },
        }
    }
}

} // verus!
