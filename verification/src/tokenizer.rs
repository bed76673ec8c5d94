//! The tokenizer: from bytes to tokens, one at a time, and a cursor over the
//! tokens that can look one token ahead.
use vstd::prelude::*;
use vstd::slice::{slice_subrange, slice_to_vec};
use vstd::string::StringSliceAdditionalSpecFns;
use crate::error::{TokenKind, WktError};
use crate::number::{
    lemma_number_len, lemma_run, number_len, run, scan_number, scan_run, CharClass, Number,
};

verus! {

/// `(`
pub const PAREN_OPEN: u8 = 0x28;

/// `)`
pub const PAREN_CLOSE: u8 = 0x29;

/// `,`
pub const COMMA: u8 = 0x2c;

/// What a token is, as a value of specifications; `Invalid` stands for the
/// place at which the text stops being made of tokens.
pub enum Lexeme {
    /// `,`
    Comma,
    /// A number, as the bytes that spell it.
    Number(Seq<u8>),
    /// `)`
    ParenClose,
    /// `(`
    ParenOpen,
    /// A word, as the bytes that spell it.
    Word(Seq<u8>),
    /// The failure of the tokenizer at a byte that begins no token.
    Invalid,
}

impl Lexeme {
    /// The kind of the lexeme; `Invalid` has none.
    pub open spec fn kind(self) -> Option<TokenKind> {
        match self {
            Lexeme::Comma => Some(TokenKind::Comma),
            Lexeme::Number(_) => Some(TokenKind::Number),
            Lexeme::ParenClose => Some(TokenKind::ParenClose),
            Lexeme::ParenOpen => Some(TokenKind::ParenOpen),
            Lexeme::Word(_) => Some(TokenKind::Word),
            Lexeme::Invalid => None,
        }
    }
}

/// Whether the sequence holds tokens only, that is no `Invalid`.
pub open spec fn all_tokens(lexemes: Seq<Lexeme>) -> bool {
    forall|i: int| 0 <= i < lexemes.len() ==> !(#[trigger] lexemes[i] is Invalid)
}

/// Two sequences of tokens in a row are a sequence of tokens.
pub proof fn lemma_all_tokens(first: Seq<Lexeme>, second: Seq<Lexeme>)
    requires
        all_tokens(first),
        all_tokens(second),
    ensures
        all_tokens(first + second),
{
    assert forall|i: int| 0 <= i < (first + second).len() implies !(#[trigger] (first + second)[i]
        is Invalid) by {
        if i < first.len() {
            assert((first + second)[i] == first[i]);
        } else {
            assert((first + second)[i] == second[i - first.len()]);
        }
    }
}

/// The lexeme that `s` begins with, and its length. `s` is not empty and
/// does not begin with white space.
///
/// A parenthesis or a comma is a lexeme by itself. A letter begins a word,
/// which goes on as far as letters follow. Where a decimal literal begins,
/// the longest one is the lexeme. Any other byte is invalid, and with it all
/// that follows.
pub open spec fn leading_lexeme(s: Seq<u8>) -> (Lexeme, nat) {
    if s[0] == PAREN_OPEN {
        (Lexeme::ParenOpen, 1)
    } else if s[0] == PAREN_CLOSE {
        (Lexeme::ParenClose, 1)
    } else if s[0] == COMMA {
        (Lexeme::Comma, 1)
    } else if CharClass::Letter.holds(s[0]) {
        (Lexeme::Word(s.take(run(s, CharClass::Letter) as int)), run(s, CharClass::Letter))
    } else if number_len(s) > 0 {
        (Lexeme::Number(s.take(number_len(s) as int)), number_len(s))
    } else {
        (Lexeme::Invalid, s.len())
    }
}

/// A leading lexeme is not empty and ends inside the sequence.
pub proof fn lemma_leading_lexeme(s: Seq<u8>)
    requires
        s.len() > 0,
    ensures
        0 < leading_lexeme(s).1 <= s.len(),
{
    lemma_run(s, CharClass::Letter);
    lemma_number_len(s);
}

/// The lexemes of a text, in order. White space between them is skipped; the
/// sequence ends with the text, or with `Invalid` at the first byte that
/// begins no lexeme.
pub open spec fn lex(s: Seq<u8>) -> Seq<Lexeme>
    decreases s.len(),
{
    let blank = run(s, CharClass::Space);
    if blank >= s.len() {
        Seq::empty()
    } else {
        let t = s.skip(blank as int);
        let (lexeme, len) = leading_lexeme(t);
        proof {
            lemma_leading_lexeme(t);
        }
        seq![lexeme] + lex(t.skip(len as int))
    }
}

/// One token.
#[derive(Clone, Debug, PartialEq, Eq)]
pub enum Token {
    /// `,`
    Comma,
    /// A decimal literal.
    Number(Number),
    /// `)`
    ParenClose,
    /// `(`
    ParenOpen,
    /// A word, as the bytes that spell it. The tokenizer makes words of
    /// letters; a caller who builds tokens may put any bytes in one.
    Word(Vec<u8>),
}

impl View for Token {
    type V = Lexeme;

    open spec fn view(&self) -> Lexeme {
        match self {
            Token::Comma => Lexeme::Comma,
            Token::Number(n) => Lexeme::Number(n@),
            Token::ParenClose => Lexeme::ParenClose,
            Token::ParenOpen => Lexeme::ParenOpen,
            Token::Word(w) => Lexeme::Word(w@),
        }
    }
}

impl Token {
    /// The kind of the token.
    pub fn kind(&self) -> (k: TokenKind)
        ensures
            self@.kind() == Some(k),
    {
        match self {
            Token::Comma => TokenKind::Comma,
            Token::Number(_) => TokenKind::Number,
            Token::ParenClose => TokenKind::ParenClose,
            Token::ParenOpen => TokenKind::ParenOpen,
            Token::Word(_) => TokenKind::Word,
        }
    }
}

/// The lexemes that a sequence of tokens stands for.
pub open spec fn lexemes(tokens: Seq<Token>) -> Seq<Lexeme> {
    Seq::new(tokens.len(), |i: int| tokens[i]@)
}

/// What the tokenizer hands out at each step: a token, or the failure at
/// the first byte that begins none.
pub type Lexed = Result<Token, WktError>;

/// The lexeme that an item of the tokenizer stands for.
pub open spec fn lexeme_of(item: Lexed) -> Lexeme {
    match item {
        Ok(token) => token@,
        Err(_) => Lexeme::Invalid,
    }
}

/// A sequence of tokens that is produced on demand.
///
/// It is made from a text, which is then cut into tokens as they are asked
/// for, or from tokens that the caller has at hand. Its view is the sequence
/// of lexemes that are still to come.
pub struct Tokens<'a> {
    /// Tokens to hand out before the text is read, the first one last.
    queue: Vec<Token>,
    /// The text that is still to be cut into tokens.
    rest: &'a [u8],
}

impl<'a> View for Tokens<'a> {
    type V = Seq<Lexeme>;

    closed spec fn view(&self) -> Seq<Lexeme> {
        lexemes(self.queue@).reverse() + lex(self.rest@)
    }
}

impl<'a> Tokens<'a> {
    /// The tokens of a text, given as bytes.
    pub fn from_bytes(input: &'a [u8]) -> (tokens: Self)
        ensures
            tokens@ == lex(input@),
    {
        Tokens { queue: Vec::new(), rest: input }
    }

    /// The tokens of a text.
    pub fn from_str(input: &'a str) -> (tokens: Self)
        ensures
            tokens@ == lex(input.spec_bytes()),
    {
        Self::from_bytes(input.as_bytes())
    }

    /// The given tokens, to be handed out in their order.
    pub fn from_vec(tokens: Vec<Token>) -> (stream: Tokens<'static>)
        ensures
            stream@ == lexemes(tokens@),
    {
        let mut tokens = tokens;
        let ghost given = tokens@;
        let mut queue: Vec<Token> = Vec::new();
        while tokens.len() > 0
            invariant
                tokens@.len() + queue@.len() == given.len(),
                tokens@ =~= given.take(tokens@.len() as int),
                queue@ =~= given.skip(tokens@.len() as int).reverse(),
            decreases tokens@.len(),
        {
            let token = tokens.pop().unwrap();
            queue.push(token);
        }
        let rest: &'static [u8] = &[];
        proof {
            assert(queue@ =~= given.reverse());
            assert(lexemes(queue@).reverse() =~= lexemes(given));
            assert(run(rest@, CharClass::Space) == 0);
            assert(lex(rest@) =~= Seq::<Lexeme>::empty());
        }
        Tokens { queue, rest }
    }

    /// A cursor over these tokens that can look one token ahead.
    pub fn peekable(self) -> (cursor: PeekableTokens<'a>)
        ensures
            cursor@ == self@,
    {
        PeekableTokens { tokens: self, peeked: None }
    }

    /// Hands out the next token and moves past it. At the end of the tokens
    /// the result is `None`. At a byte that begins no token the result is
    /// the failure `InvalidToken`, and nothing comes after it.
    pub fn next(&mut self) -> (item: Option<Lexed>)
        ensures
            old(self)@.len() == 0 ==> item is None && final(self)@ == old(self)@,
            old(self)@.len() > 0 ==> item is Some && lexeme_of(item->Some_0) == old(self)@[0]
                && final(self)@ == old(self)@.skip(1),
            item matches Some(Err(e)) ==> e == WktError::InvalidToken,
    {
        let ghost before = self@;
        let ghost queued = lexemes(self.queue@);
        if self.queue.len() > 0 {
            let token = self.queue.pop().unwrap();
            proof {
                let rest = lexemes(self.queue@);
                assert(rest =~= queued.drop_last());
                assert(queued.reverse().skip(1) =~= rest.reverse());
                assert(before.skip(1) =~= self@);
                assert(before[0] == queued.reverse()[0]);
            }
            return Some(Ok(token));
        }
        assert(before =~= lex(self.rest@)) by {
            assert(queued.reverse() =~= Seq::<Lexeme>::empty());
        }
        match cut(self.rest) {
            None => None,
            Some((token, rest)) => {
                self.rest = rest;
                assert(self@ =~= lex(rest@));
                Some(token)
            },
        }
    }
}

/// Cuts the first token off a text: the result is the token and the text
/// after it, or `None` where the text holds no token.
fn cut<'a>(input: &'a [u8]) -> (r: Option<(Lexed, &'a [u8])>)
    ensures
        lex(input@).len() == 0 ==> r is None,
        lex(input@).len() > 0 ==> r is Some && lexeme_of(r->Some_0.0) == lex(input@)[0] && lex(
            r->Some_0.1@,
        ) == lex(input@).skip(1),
        r matches Some((Err(e), _)) ==> e == WktError::InvalidToken,
{
    let ghost s = input@;
    assert(s.skip(0) =~= s);
    let start = scan_run(input, 0, CharClass::Space);
    if start >= input.len() {
        return None;
    }
    let ghost t = s.skip(start as int);
    let (token, end) = leading(input, start);
    let rest = slice_subrange(input, end, input.len());
    proof {
        assert(rest@ =~= t.skip(leading_lexeme(t).1 as int));
        assert(lex(s) == seq![leading_lexeme(t).0] + lex(rest@));
        assert(lex(s).skip(1) =~= lex(rest@));
    }
    Some((token, rest))
}

/// Reads the token that begins at `start`, where no white space stands, and
/// tells where it ends.
fn leading(input: &[u8], start: usize) -> (r: (Lexed, usize))
    requires
        start < input@.len(),
    ensures
        lexeme_of(r.0) == leading_lexeme(input@.skip(start as int)).0,
        r.1 - start == leading_lexeme(input@.skip(start as int)).1,
        start < r.1 <= input@.len(),
        r.0 matches Err(e) ==> e == WktError::InvalidToken,
{
    let ghost t = input@.skip(start as int);
    proof {
        lemma_leading_lexeme(t);
    }
    let first = input[start];
    assert(first == t[0]);
    if first == PAREN_OPEN {
        (Ok(Token::ParenOpen), start + 1)
    } else if first == PAREN_CLOSE {
        (Ok(Token::ParenClose), start + 1)
    } else if first == COMMA {
        (Ok(Token::Comma), start + 1)
    } else if CharClass::Letter.contains(first) {
        let end = scan_run(input, start, CharClass::Letter);
        let word = slice_to_vec(slice_subrange(input, start, end));
        assert(word@ =~= t.take(run(t, CharClass::Letter) as int));
        (Ok(Token::Word(word)), end)
    } else {
        let end = scan_number(input, start);
        if end > start {
            proof {
                lemma_number_len(t);
                assert(input@.subrange(start as int, end as int) =~= t.take(number_len(t) as int));
            }
            (Ok(Token::Number(Number::from_span(input, start, end))), end)
        } else {
            (Err(WktError::InvalidToken), input.len())
        }
    }
}

/// What stands at the front of a sequence of lexemes: nothing, the kind of
/// a token, or the failure of the tokenizer.
pub open spec fn front(lexemes: Seq<Lexeme>) -> Option<Result<TokenKind, WktError>> {
    if lexemes.len() == 0 {
        None
    } else {
        match lexemes[0].kind() {
            Some(kind) => Some(Ok(kind)),
            None => Some(Err(WktError::InvalidToken)),
        }
    }
}

/// A cursor over tokens with one token of look-ahead: `peek` tells what comes
/// next and consumes nothing, `next` consumes. Its view is the sequence of
/// lexemes that are still to come, the one looked at included.
pub struct PeekableTokens<'a> {
    tokens: Tokens<'a>,
    /// The item that `peek` has taken from `tokens` and `next` has not handed
    /// out yet.
    peeked: Option<Lexed>,
}

impl<'a> View for PeekableTokens<'a> {
    type V = Seq<Lexeme>;

    closed spec fn view(&self) -> Seq<Lexeme> {
        match self.peeked {
            Some(item) => seq![lexeme_of(item)] + self.tokens@,
            None => self.tokens@,
        }
    }
}

impl<'a> PeekableTokens<'a> {
    /// Tells what comes next, and consumes nothing.
    pub fn peek(&mut self) -> (ahead: Option<Result<TokenKind, WktError>>)
        ensures
            final(self)@ == old(self)@,
            ahead == front(old(self)@),
    {
        if self.peeked.is_none() {
            let ghost before = self.tokens@;
            let item = self.tokens.next();
            self.peeked = item;
            assert(self@ =~= before);
        }
        match &self.peeked {
            None => None,
            Some(Ok(token)) => Some(Ok(token.kind())),
            Some(Err(_)) => Some(Err(WktError::InvalidToken)),
        }
    }

    /// Hands out the next token and moves past it, as `Tokens::next` does.
    pub fn next(&mut self) -> (item: Option<Lexed>)
        ensures
            old(self)@.len() == 0 ==> item is None && final(self)@ == old(self)@,
            old(self)@.len() > 0 ==> item is Some && lexeme_of(item->Some_0) == old(self)@[0]
                && final(self)@ == old(self)@.skip(1),
            item matches Some(Err(e)) ==> e == WktError::InvalidToken,
    {
        let ghost before = self@;
        let peeked = self.peeked.take();
        match peeked {
            Some(Ok(token)) => {
                assert(before.skip(1) =~= self@);
                Some(Ok(token))
            },
            Some(Err(_)) => {
                assert(before.skip(1) =~= self@);
                Some(Err(WktError::InvalidToken))
            },
            None => self.tokens.next(),
        }
    }
}

} // verus!
