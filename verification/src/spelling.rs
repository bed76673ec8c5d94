//! How lexemes are spelled as text, and the laws that tie the spelling to
//! the tokenizer: a text that spells lexemes is cut into those lexemes,
//! however much white space stands between them.
use vstd::prelude::*;
use crate::number::{
    fraction_len, is_number, lemma_number_len, lemma_number_stops, lemma_run, lemma_run_is,
    number_len, run, sign_len, CharClass, MINUS, POINT,
};
use crate::tokenizer::{
    all_tokens, leading_lexeme, lemma_leading_lexeme, lex, Lexeme, COMMA, PAREN_CLOSE, PAREN_OPEN,
};

verus! {

/// The bytes that spell a lexeme.
pub open spec fn spelling(lexeme: Lexeme) -> Seq<u8> {
    match lexeme {
        Lexeme::Comma => seq![COMMA],
        Lexeme::Number(n) => n,
        Lexeme::ParenClose => seq![PAREN_CLOSE],
        Lexeme::ParenOpen => seq![PAREN_OPEN],
        Lexeme::Word(w) => w,
        Lexeme::Invalid => Seq::empty(),
    }
}

/// Whether `word` is made of letters, at least one.
pub open spec fn is_word(word: Seq<u8>) -> bool {
    word.len() > 0 && forall|i: int|
        0 <= i < word.len() ==> CharClass::Letter.holds(#[trigger] word[i])
}

/// Whether a lexeme is one that the tokenizer makes: a word of letters, a
/// number that is a decimal literal, a parenthesis or a comma.
pub open spec fn well_formed(lexeme: Lexeme) -> bool {
    match lexeme {
        Lexeme::Number(n) => is_number(n),
        Lexeme::Word(w) => is_word(w),
        Lexeme::Invalid => false,
        _ => true,
    }
}

/// Whether every lexeme of the sequence is well formed.
pub open spec fn all_well_formed(lexemes: Seq<Lexeme>) -> bool {
    forall|i: int| 0 <= i < lexemes.len() ==> well_formed(#[trigger] lexemes[i])
}

/// Whether `gap` is made of white space; it may be empty.
pub open spec fn is_blank(gap: Seq<u8>) -> bool {
    forall|i: int| 0 <= i < gap.len() ==> CharClass::Space.holds(#[trigger] gap[i])
}

/// Whether two lexemes need white space between them: written in a row, two
/// words would be one word, and a number that begins with a digit would go
/// on the number before it.
pub open spec fn run_together(first: Lexeme, second: Lexeme) -> bool {
    (first is Word && second is Word) || (first is Number && second is Number && !(
    second->Number_0.len() > 0 && second->Number_0[0] == MINUS))
}

/// The text that spells the lexemes with the given gaps: `gaps[i]` stands
/// before the lexeme `i`, and the last gap stands after the last lexeme.
pub open spec fn text_of(lexemes: Seq<Lexeme>, gaps: Seq<Seq<u8>>) -> Seq<u8>
    decreases lexemes.len(),
{
    if gaps.len() == 0 {
        Seq::empty()
    } else if lexemes.len() == 0 {
        gaps[0]
    } else {
        gaps[0] + spelling(lexemes[0]) + text_of(lexemes.skip(1), gaps.skip(1))
    }
}

/// Whether the gaps fit the lexemes: there is one before each lexeme and one
/// after the last, each is made of white space, and none is empty between
/// two lexemes that would run together.
pub open spec fn spaced(lexemes: Seq<Lexeme>, gaps: Seq<Seq<u8>>) -> bool {
    &&& gaps.len() == lexemes.len() + 1
    &&& forall|i: int| 0 <= i < gaps.len() ==> is_blank(#[trigger] gaps[i])
    &&& forall|i: int|
        0 < i < lexemes.len() && run_together(lexemes[i - 1], lexemes[i]) ==> (
        #[trigger] gaps[i]).len() > 0
}

/// Whether the lexeme ends where `tail` begins: the first byte of `tail`, if
/// there is one, cannot go on a word after a word, nor a number after a
/// number.
pub open spec fn ends_before(lexeme: Lexeme, tail: Seq<u8>) -> bool {
    tail.len() == 0 || match lexeme {
        Lexeme::Word(_) => !CharClass::Letter.holds(tail[0]),
        Lexeme::Number(_) => !CharClass::Digit.holds(tail[0]) && tail[0] != POINT,
        _ => true,
    }
}

/// Whether the last of the lexemes is parted from `tail`: white space stands
/// after it, or it ends before `tail`.
pub open spec fn parted(lexemes: Seq<Lexeme>, gaps: Seq<Seq<u8>>, tail: Seq<u8>) -> bool {
    lexemes.len() > 0 && gaps[lexemes.len() as int].len() == 0 ==> ends_before(
        lexemes[lexemes.len() - 1],
        tail,
    )
}

/// A run of a class that fills `s` is the run of `s` followed by a tail that
/// does not begin with a byte of the class.
proof fn lemma_run_before(s: Seq<u8>, tail: Seq<u8>, class: CharClass)
    requires
        forall|i: int| 0 <= i < s.len() ==> class.holds(#[trigger] s[i]),
        tail.len() == 0 || !class.holds(tail[0]),
    ensures
        run(s + tail, class) == s.len(),
{
    let all = s + tail;
    assert forall|i: int| 0 <= i < s.len() implies class.holds(#[trigger] all[i]) by {
        assert(all[i] == s[i]);
    }
    if tail.len() > 0 {
        assert(all[s.len() as int] == tail[0]);
    }
    lemma_run_is(all, class, s.len());
}

/// A run that ends inside `s` is not changed by what follows `s`.
proof fn lemma_run_inside(s: Seq<u8>, tail: Seq<u8>, class: CharClass)
    requires
        run(s, class) < s.len(),
    ensures
        run(s + tail, class) == run(s, class),
{
    let all = s + tail;
    let n = run(s, class);
    lemma_run(s, class);
    assert forall|i: int| 0 <= i < n implies class.holds(#[trigger] all[i]) by {
        assert(all[i] == s[i]);
    }
    assert(all[n as int] == s[n as int]);
    lemma_run_is(all, class, n);
}

/// A decimal literal followed by a tail that begins with neither a digit
/// nor a decimal point is the literal that the whole begins with.
pub proof fn lemma_number_before(n: Seq<u8>, tail: Seq<u8>)
    requires
        is_number(n),
        tail.len() == 0 || (!CharClass::Digit.holds(tail[0]) && tail[0] != POINT),
    ensures
        number_len(n + tail) == n.len(),
        (n + tail).take(n.len() as int) == n,
{
    let all = n + tail;
    let sign = sign_len(n);
    let body = n.skip(sign as int);
    let whole = run(body, CharClass::Digit);
    lemma_run(body, CharClass::Digit);
    assert(all[0] == n[0]);
    assert(sign_len(all) == sign);
    assert(all.skip(sign as int) =~= body + tail);
    let after = n.skip((sign + whole) as int);
    assert(after =~= body.skip(whole as int));
    if fraction_len(after) == 0 {
        assert(after.len() == 0);
        lemma_run_before(body, tail, CharClass::Digit);
        assert(all.skip((sign + whole) as int) =~= tail);
        if tail.len() > 0 && run(tail.skip(1), CharClass::Digit) > 0 {
            assert(tail[0] != POINT);
        }
    } else {
        lemma_run_inside(body, tail, CharClass::Digit);
        let digits = after.skip(1);
        lemma_run(digits, CharClass::Digit);
        assert(all.skip((sign + whole) as int) =~= after + tail);
        assert((after + tail).skip(1) =~= digits + tail);
        assert((after + tail)[0] == after[0]);
        lemma_run_before(digits, tail, CharClass::Digit);
    }
    assert(all.take(n.len() as int) =~= n);
}

/// A well-formed lexeme begins with a byte that is no white space: a letter
/// for a word, a minus sign or a digit for a number.
pub proof fn lemma_first_byte(lexeme: Lexeme)
    requires
        well_formed(lexeme),
    ensures
        spelling(lexeme).len() > 0,
        !CharClass::Space.holds(spelling(lexeme)[0]),
        lexeme is Word ==> CharClass::Letter.holds(spelling(lexeme)[0]),
        lexeme is Number ==> spelling(lexeme)[0] == MINUS || CharClass::Digit.holds(
            spelling(lexeme)[0],
        ),
        !(lexeme is Word) && !(lexeme is Number) ==> spelling(lexeme)[0] == PAREN_OPEN || spelling(
            lexeme,
        )[0] == PAREN_CLOSE || spelling(lexeme)[0] == COMMA,
{
    match lexeme {
        Lexeme::Number(n) => {
            let body = n.skip(sign_len(n) as int);
            lemma_run(body, CharClass::Digit);
            if sign_len(n) == 0 {
                assert(body[0] == n[0]);
            }
        },
        _ => {},
    }
}

/// The spelling of a well-formed lexeme, followed by a tail before which the
/// lexeme ends, begins with that lexeme.
pub proof fn lemma_leading_spelling(lexeme: Lexeme, tail: Seq<u8>)
    requires
        well_formed(lexeme),
        ends_before(lexeme, tail),
    ensures
        leading_lexeme(spelling(lexeme) + tail) == (lexeme, spelling(lexeme).len()),
{
    let s = spelling(lexeme) + tail;
    lemma_first_byte(lexeme);
    assert(s[0] == spelling(lexeme)[0]);
    match lexeme {
        Lexeme::Word(w) => {
            lemma_run_before(w, tail, CharClass::Letter);
            assert(s.take(w.len() as int) =~= w);
        },
        Lexeme::Number(n) => {
            lemma_number_before(n, tail);
        },
        _ => {},
    }
}

/// A text that is all white space holds no lexeme.
pub proof fn lemma_lex_blank(gap: Seq<u8>)
    requires
        is_blank(gap),
    ensures
        lex(gap) == Seq::<Lexeme>::empty(),
{
    lemma_run_is(gap, CharClass::Space, gap.len());
}

/// White space, then the spelling of a well-formed lexeme, then a tail
/// before which the lexeme ends: the text is cut into that lexeme and the
/// lexemes of the tail.
pub proof fn lemma_lex_step(gap: Seq<u8>, lexeme: Lexeme, tail: Seq<u8>)
    requires
        is_blank(gap),
        well_formed(lexeme),
        ends_before(lexeme, tail),
    ensures
        lex(gap + spelling(lexeme) + tail) == seq![lexeme] + lex(tail),
{
    let s = gap + spelling(lexeme) + tail;
    let t = spelling(lexeme) + tail;
    lemma_first_byte(lexeme);
    assert(s =~= gap + t);
    lemma_run_before(gap, t, CharClass::Space);
    assert(s.skip(gap.len() as int) =~= t);
    lemma_leading_spelling(lexeme, tail);
    assert(t.skip(spelling(lexeme).len() as int) =~= tail);
}

/// White space before a text changes nothing in its lexemes.
pub proof fn lemma_lex_after_blank(gap: Seq<u8>, tail: Seq<u8>)
    requires
        is_blank(gap),
    ensures
        lex(gap + tail) == lex(tail),
{
    let all = gap + tail;
    let blank = run(tail, CharClass::Space);
    lemma_run(tail, CharClass::Space);
    assert forall|i: int| 0 <= i < gap.len() + blank implies CharClass::Space.holds(
        #[trigger] all[i],
    ) by {
        if i < gap.len() {
            assert(all[i] == gap[i]);
        } else {
            assert(all[i] == tail[i - gap.len()]);
        }
    }
    if blank < tail.len() {
        assert(all[(gap.len() + blank) as int] == tail[blank as int]);
    }
    lemma_run_is(all, CharClass::Space, gap.len() + blank);
    assert(all.skip((gap.len() + blank) as int) =~= tail.skip(blank as int));
}

/// A text that spells well-formed lexemes with fitting gaps, and then goes
/// on in any way, is cut into those lexemes and the lexemes of what follows;
/// where no white space parts the two, the last lexeme is to end before
/// what follows. The amount of white space between the lexemes and before
/// the first makes no difference.
pub proof fn lemma_lex_text_before(lexemes: Seq<Lexeme>, gaps: Seq<Seq<u8>>, tail: Seq<u8>)
    requires
        all_well_formed(lexemes),
        spaced(lexemes, gaps),
        parted(lexemes, gaps, tail),
    ensures
        lex(text_of(lexemes, gaps) + tail) == lexemes + lex(tail),
    decreases lexemes.len(),
{
    if lexemes.len() == 0 {
        lemma_lex_after_blank(gaps[0], tail);
        assert(lexemes + lex(tail) =~= lex(tail));
    } else {
        let first = lexemes[0];
        let others = lexemes.skip(1);
        let later = gaps.skip(1);
        let after = text_of(others, later) + tail;
        assert(all_well_formed(others)) by {
            assert forall|i: int| 0 <= i < others.len() implies well_formed(
                #[trigger] others[i],
            ) by {
                assert(others[i] == lexemes[i + 1]);
            }
        }
        assert(spaced(others, later)) by {
            assert forall|i: int| 0 <= i < later.len() implies is_blank(#[trigger] later[i]) by {
                assert(later[i] == gaps[i + 1]);
            }
            assert forall|i: int|
                0 < i < others.len() && run_together(others[i - 1], others[i]) implies (
            #[trigger] later[i]).len() > 0 by {
                assert(later[i] == gaps[i + 1]);
                assert(others[i] == lexemes[i + 1]);
                assert(others[i - 1] == lexemes[i]);
            }
        }
        assert(later[others.len() as int] == gaps[lexemes.len() as int]);
        if others.len() > 0 {
            assert(others[others.len() - 1] == lexemes[lexemes.len() - 1]);
        }
        assert(ends_before(first, after)) by {
            assert(later[0] == gaps[1]);
            if after.len() > 0 {
                if gaps[1].len() > 0 {
                    assert(after[0] == gaps[1][0]);
                } else if others.len() > 0 {
                    lemma_first_byte(others[0]);
                    assert(others[0] == lexemes[1]);
                    assert(after[0] == spelling(others[0])[0]);
                } else {
                    assert(after =~= tail);
                }
            }
        }
        assert(text_of(lexemes, gaps) + tail =~= gaps[0] + spelling(first) + after);
        lemma_lex_step(gaps[0], first, after);
        lemma_lex_text_before(others, later, tail);
        assert(seq![first] + (others + lex(tail)) =~= lexemes + lex(tail));
    }
}

/// The text that spells well-formed lexemes with fitting gaps is cut into
/// those lexemes. The amount of white space between them, before the first
/// and after the last makes no difference.
pub proof fn lemma_lex_text(lexemes: Seq<Lexeme>, gaps: Seq<Seq<u8>>)
    requires
        all_well_formed(lexemes),
        spaced(lexemes, gaps),
    ensures
        lex(text_of(lexemes, gaps)) == lexemes,
{
    let empty = Seq::<u8>::empty();
    lemma_lex_text_before(lexemes, gaps, empty);
    lemma_lex_blank(empty);
    assert(text_of(lexemes, gaps) + empty =~= text_of(lexemes, gaps));
    assert(lexemes + Seq::<Lexeme>::empty() =~= lexemes);
}

/// White space around lexemes never changes what the tokenizer finds: two
/// texts that spell the same lexemes, each with gaps that fit, and then go
/// on in the same way, are cut into the same lexemes.
pub proof fn lemma_white_space(
    lexemes: Seq<Lexeme>,
    gaps: Seq<Seq<u8>>,
    other_gaps: Seq<Seq<u8>>,
    tail: Seq<u8>,
)
    requires
        all_well_formed(lexemes),
        spaced(lexemes, gaps),
        spaced(lexemes, other_gaps),
        parted(lexemes, gaps, tail),
        parted(lexemes, other_gaps, tail),
    ensures
        lex(text_of(lexemes, gaps) + tail) == lex(text_of(lexemes, other_gaps) + tail),
{
    lemma_lex_text_before(lexemes, gaps, tail);
    lemma_lex_text_before(lexemes, other_gaps, tail);
}

/// Every lexeme that the tokenizer finds in a text is well formed, but for
/// an `Invalid`, which can only stand last.
pub proof fn lemma_lex_well_formed(s: Seq<u8>)
    ensures
        forall|i: int|
            0 <= i < lex(s).len() ==> well_formed(#[trigger] lex(s)[i]) || (lex(s)[i] is Invalid
                && i == lex(s).len() - 1),
    decreases s.len(),
{
    let blank = run(s, CharClass::Space);
    if blank < s.len() {
        let t = s.skip(blank as int);
        let (first, len) = leading_lexeme(t);
        lemma_run(t, CharClass::Letter);
        lemma_number_len(t);
        let tail = t.skip(len as int);
        lemma_lex_well_formed(tail);
        assert(lex(s) == seq![first] + lex(tail));
        if first is Invalid {
            assert(tail.len() == 0);
            assert(lex(tail) =~= Seq::<Lexeme>::empty());
        }
        assert forall|i: int| 0 <= i < lex(s).len() implies well_formed(#[trigger] lex(s)[i]) || (
        lex(s)[i] is Invalid && i == lex(s).len() - 1) by {
            if i > 0 {
                assert(lex(s)[i] == lex(tail)[i - 1]);
            }
        }
    }
}

/// The white space of a text: what stands before each of its lexemes, and
/// what stands after the last.
pub open spec fn gaps_of(s: Seq<u8>) -> Seq<Seq<u8>>
    decreases s.len(),
{
    let blank = run(s, CharClass::Space);
    if blank >= s.len() {
        seq![s]
    } else {
        let t = s.skip(blank as int);
        proof {
            lemma_leading_lexeme(t);
        }
        seq![s.take(blank as int)] + gaps_of(t.skip(leading_lexeme(t).1 as int))
    }
}

/// A text that is made of tokens spells its lexemes, with its white space
/// for gaps: the texts that the laws above speak of are all the texts that
/// hold tokens only.
pub proof fn lemma_text_spelled(s: Seq<u8>)
    requires
        all_tokens(lex(s)),
    ensures
        spaced(lex(s), gaps_of(s)),
        text_of(lex(s), gaps_of(s)) == s,
    decreases s.len(),
{
    let blank = run(s, CharClass::Space);
    lemma_run(s, CharClass::Space);
    if blank >= s.len() {
        assert(text_of(lex(s), gaps_of(s)) =~= s);
    } else {
        let t = s.skip(blank as int);
        let (first, len) = leading_lexeme(t);
        lemma_leading_lexeme(t);
        let rest = t.skip(len as int);
        let gap = s.take(blank as int);
        assert(lex(s) == seq![first] + lex(rest));
        assert(lex(s)[0] == first);
        assert(lex(s).skip(1) =~= lex(rest));
        assert(gaps_of(s).skip(1) =~= gaps_of(rest));
        assert(all_tokens(lex(rest))) by {
            assert forall|i: int| 0 <= i < lex(rest).len() implies !(#[trigger] lex(rest)[i]
                is Invalid) by {
                assert(lex(rest)[i] == lex(s)[i + 1]);
            }
        }
        lemma_text_spelled(rest);
        assert(spelling(first) =~= t.take(len as int));
        assert(text_of(lex(s), gaps_of(s)) =~= s);
        assert forall|i: int| 0 <= i < gaps_of(s).len() implies is_blank(#[trigger] gaps_of(s)[i]) by {
            if i > 0 {
                assert(gaps_of(s)[i] == gaps_of(rest)[i - 1]);
            }
        }
        assert forall|i: int|
            0 < i < lex(s).len() && run_together(lex(s)[i - 1], lex(s)[i]) implies (
        #[trigger] gaps_of(s)[i]).len() > 0 by {
            assert(gaps_of(s)[i] == gaps_of(rest)[i - 1]);
            assert(lex(s)[i] == lex(rest)[i - 1]);
            if i == 1 {
                let next = run(rest, CharClass::Space);
                lemma_run(rest, CharClass::Space);
                if next == 0 {
                    let second = lex(rest)[0];
                    assert(rest.skip(0) =~= rest);
                    assert(second == leading_lexeme(rest).0);
                    assert(rest[0] == t[len as int]);
                    if first is Word {
                        lemma_run(t, CharClass::Letter);
                    } else {
                        let digits = rest.skip(sign_len(rest) as int);
                        lemma_number_len(rest);
                        assert(second->Number_0[0] == rest[0]);
                        assert(digits =~= rest);
                        lemma_number_stops(t);
                    }
                }
            } else {
                assert(lex(s)[i - 1] == lex(rest)[i - 2]);
            }
        }
    }
}

/// A text that is made of tokens keeps its lexemes when it is written anew
/// with other white space: the same spellings in the same order, with any
/// gaps that fit.
pub proof fn lemma_respaced(s: Seq<u8>, gaps: Seq<Seq<u8>>)
    requires
        all_tokens(lex(s)),
        spaced(lex(s), gaps),
    ensures
        lex(text_of(lex(s), gaps)) == lex(s),
{
    lemma_lex_well_formed(s);
    lemma_lex_text(lex(s), gaps);
}

} // verus!
