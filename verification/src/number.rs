//! Decimal literals: the ordinates of a coordinate, kept as they were written.
use vstd::prelude::*;
use vstd::slice::{slice_subrange, slice_to_vec};

verus! {

/// The classes of bytes that form runs in the text.
#[derive(Clone, Copy, PartialEq, Eq, Debug, Structural)]
pub enum CharClass {
    /// Space, tab, line feed, carriage return.
    Space,
    /// The ASCII letters.
    Letter,
    /// The ASCII digits.
    Digit,
}

impl CharClass {
    /// Whether the byte `b` belongs to the class.
    pub open spec fn holds(self, b: u8) -> bool {
        match self {
            CharClass::Space => b == 0x20 || b == 0x09 || b == 0x0a || b == 0x0d,
            CharClass::Letter => (0x41 <= b <= 0x5a) || (0x61 <= b <= 0x7a),
            CharClass::Digit => 0x30 <= b <= 0x39,
        }
    }

    /// Tests a byte against the class.
    pub fn contains(self, b: u8) -> (r: bool)
        ensures
            r == self.holds(b),
    {
        match self {
            CharClass::Space => b == 0x20 || b == 0x09 || b == 0x0a || b == 0x0d,
            CharClass::Letter => (0x41 <= b && b <= 0x5a) || (0x61 <= b && b <= 0x7a),
            CharClass::Digit => 0x30 <= b && b <= 0x39,
        }
    }
}

/// The minus sign.
pub const MINUS: u8 = 0x2d;

/// The decimal point.
pub const POINT: u8 = 0x2e;

/// The length of the longest prefix of `s` whose bytes all belong to `class`.
pub open spec fn run(s: Seq<u8>, class: CharClass) -> nat
    decreases s.len(),
{
    if s.len() > 0 && class.holds(s[0]) {
        1 + run(s.skip(1), class)
    } else {
        0
    }
}

/// A run is a prefix: it ends inside the sequence, every byte of it belongs
/// to the class, and the byte after it, if there is one, does not.
pub proof fn lemma_run(s: Seq<u8>, class: CharClass)
    ensures
        run(s, class) <= s.len(),
        forall|i: int| 0 <= i < run(s, class) ==> class.holds(#[trigger] s[i]),
        run(s, class) < s.len() ==> !class.holds(s[run(s, class) as int]),
    decreases s.len(),
{
    if s.len() > 0 && class.holds(s[0]) {
        lemma_run(s.skip(1), class);
        assert forall|i: int| 0 <= i < run(s, class) implies class.holds(#[trigger] s[i]) by {
            if i > 0 {
                assert(s[i] == s.skip(1)[i - 1]);
            }
        }
    }
}

/// A run is the only prefix with the properties that `lemma_run` states.
pub proof fn lemma_run_is(s: Seq<u8>, class: CharClass, n: nat)
    requires
        n <= s.len(),
        forall|i: int| 0 <= i < n ==> class.holds(#[trigger] s[i]),
        n < s.len() ==> !class.holds(s[n as int]),
    ensures
        run(s, class) == n,
    decreases n,
{
    if n > 0 {
        assert(class.holds(s[0]));
        let t = s.skip(1);
        assert forall|i: int| 0 <= i < n - 1 implies class.holds(#[trigger] t[i]) by {
            assert(t[i] == s[i + 1]);
        }
        lemma_run_is(t, class, (n - 1) as nat);
    }
}

/// The run of a prefix is the run of the whole, cut where the prefix ends.
pub proof fn lemma_run_take(s: Seq<u8>, len: int, class: CharClass)
    requires
        0 <= len <= s.len(),
    ensures
        run(s.take(len), class) == if run(s, class) <= len {
            run(s, class)
        } else {
            len as nat
        },
{
    let prefix = s.take(len);
    let n = if run(s, class) <= len {
        run(s, class)
    } else {
        len as nat
    };
    lemma_run(s, class);
    assert forall|i: int| 0 <= i < n implies class.holds(#[trigger] prefix[i]) by {
        assert(prefix[i] == s[i]);
    }
    if n < prefix.len() {
        assert(prefix[n as int] == s[n as int]);
    }
    lemma_run_is(prefix, class, n);
}

/// The length of the sign that `s` begins with: one for a minus, else zero.
pub open spec fn sign_len(s: Seq<u8>) -> nat {
    if s.len() > 0 && s[0] == MINUS {
        1
    } else {
        0
    }
}

/// The length of the fraction that `s` begins with: a decimal point and the
/// digits after it, or zero where `s` does not begin with a point and a digit.
pub open spec fn fraction_len(s: Seq<u8>) -> nat {
    if s.len() > 0 && s[0] == POINT && run(s.skip(1), CharClass::Digit) > 0 {
        1 + run(s.skip(1), CharClass::Digit)
    } else {
        0
    }
}

/// The length of the decimal literal that `s` begins with, or zero where it
/// begins with none. A literal is an optional minus sign, one or more
/// digits, and optionally a decimal point followed by one or more digits; the
/// longest such prefix counts.
pub open spec fn number_len(s: Seq<u8>) -> nat {
    let sign = sign_len(s);
    let whole = run(s.skip(sign as int), CharClass::Digit);
    if whole == 0 {
        0
    } else {
        sign + whole + fraction_len(s.skip((sign + whole) as int))
    }
}

/// Whether `s` is a decimal literal, all of it.
pub open spec fn is_number(s: Seq<u8>) -> bool {
    s.len() > 0 && number_len(s) == s.len()
}

/// The literal that `s` begins with never runs past the end of `s`.
pub proof fn lemma_number_len(s: Seq<u8>)
    ensures
        number_len(s) <= s.len(),
        number_len(s) > 0 ==> is_number(s.take(number_len(s) as int)),
{
    let sign = sign_len(s);
    let body = s.skip(sign as int);
    let whole = run(body, CharClass::Digit);
    lemma_run(body, CharClass::Digit);
    if whole > 0 {
        let tail = s.skip((sign + whole) as int);
        let frac = fraction_len(tail);
        if frac > 0 {
            lemma_run(tail.skip(1), CharClass::Digit);
        }
        let n = number_len(s);
        let t = s.take(n as int);
        assert(sign_len(t) == sign);
        let tbody = t.skip(sign as int);
        assert forall|i: int| 0 <= i < whole implies CharClass::Digit.holds(
            #[trigger] tbody[i],
        ) by {
            assert(tbody[i] == body[i]);
        }
        if frac > 0 {
            assert(tbody[whole as int] == tail[0]);
        }
        lemma_run_is(tbody, CharClass::Digit, whole);
        let ttail = t.skip((sign + whole) as int);
        if frac > 0 {
            let digits = (frac - 1) as nat;
            assert(ttail[0] == tail[0]);
            assert forall|i: int| 0 <= i < digits implies CharClass::Digit.holds(
                #[trigger] ttail.skip(1)[i],
            ) by {
                assert(ttail.skip(1)[i] == tail.skip(1)[i]);
            }
            lemma_run_is(ttail.skip(1), CharClass::Digit, digits);
        } else {
            assert(ttail.len() == 0);
        }
    }
}

/// The byte after the literal that `s` begins with is no digit.
pub proof fn lemma_number_stops(s: Seq<u8>)
    requires
        0 < number_len(s) < s.len(),
    ensures
        !CharClass::Digit.holds(s[number_len(s) as int]),
{
    let sign = sign_len(s);
    let body = s.skip(sign as int);
    let whole = run(body, CharClass::Digit);
    lemma_run(body, CharClass::Digit);
    let tail = s.skip((sign + whole) as int);
    if fraction_len(tail) == 0 {
        assert(body[whole as int] == s[number_len(s) as int]);
    } else {
        let digits = tail.skip(1);
        lemma_run(digits, CharClass::Digit);
        assert(digits[run(digits, CharClass::Digit) as int] == s[number_len(s) as int]);
    }
}

/// Whether `s` is made of digits, at least one.
pub open spec fn is_digits(s: Seq<u8>) -> bool {
    s.len() > 0 && forall|i: int| 0 <= i < s.len() ==> CharClass::Digit.holds(#[trigger] s[i])
}

/// Whether `s` is digits, with a decimal point at `point` and digits after
/// it.
pub open spec fn is_fraction_at(s: Seq<u8>, point: int) -> bool {
    0 < point < s.len() - 1 && is_digits(s.take(point)) && s[point] == POINT && is_digits(
        s.skip(point + 1),
    )
}

/// Whether `s` is digits, alone or with one decimal point between them.
pub open spec fn is_unsigned(s: Seq<u8>) -> bool {
    is_digits(s) || exists|point: int| is_fraction_at(s, point)
}

/// Whether `s` is digits, alone or with one decimal point between them, with
/// or without a minus sign before them.
pub open spec fn is_decimal(s: Seq<u8>) -> bool {
    is_unsigned(s) || (s.len() > 0 && s[0] == MINUS && is_unsigned(s.skip(1)))
}

/// Digits, alone or with one decimal point between them, are a literal
/// without a sign, and the other way round.
proof fn lemma_unsigned_shape(s: Seq<u8>)
    ensures
        is_unsigned(s) <==> s.len() > 0 && sign_len(s) == 0 && number_len(s) == s.len(),
{
    let whole = run(s, CharClass::Digit);
    lemma_run(s, CharClass::Digit);
    assert(s.skip(0) =~= s);
    if is_digits(s) {
        lemma_run_is(s, CharClass::Digit, s.len());
        assert(s.skip(whole as int).len() == 0);
    } else if is_unsigned(s) {
        let point = choose|point: int| is_fraction_at(s, point);
        assert forall|i: int| 0 <= i < point implies CharClass::Digit.holds(#[trigger] s[i]) by {
            assert(s[i] == s.take(point)[i]);
        }
        lemma_run_is(s, CharClass::Digit, point as nat);
        let digits = s.skip(point + 1);
        assert(s.skip(point).skip(1) =~= digits);
        lemma_run_is(digits, CharClass::Digit, digits.len());
        assert(s.skip(point)[0] == s[point]);
    } else if s.len() > 0 && sign_len(s) == 0 && number_len(s) == s.len() {
        let tail = s.skip(whole as int);
        if fraction_len(tail) == 0 {
            assert(is_digits(s));
        } else {
            let digits = tail.skip(1);
            lemma_run(digits, CharClass::Digit);
            assert(digits =~= s.skip((whole + 1) as int));
            assert forall|i: int| 0 <= i < whole implies CharClass::Digit.holds(
                #[trigger] s.take(whole as int)[i],
            ) by {
                assert(s.take(whole as int)[i] == s[i]);
            }
            assert(tail[0] == s[whole as int]);
            assert(is_fraction_at(s, whole as int));
        }
    }
}

/// A decimal literal is digits, alone or with one decimal point between
/// them, with or without a minus sign before them; and nothing else is.
pub proof fn lemma_number_shape(s: Seq<u8>)
    ensures
        is_number(s) <==> is_decimal(s),
{
    lemma_unsigned_shape(s);
    if s.len() > 0 {
        let body = s.skip(1);
        lemma_unsigned_shape(body);
        if s[0] == MINUS {
            assert(body.skip(0) =~= body);
            if body.len() > 0 {
                assert(body[0] == s[1]);
            }
            let whole = run(body, CharClass::Digit);
            lemma_run(body, CharClass::Digit);
            if whole > 0 {
                assert(s.skip((1 + whole) as int) =~= body.skip(whole as int));
            }
        }
    }
}

/// The literal that `s` begins with is the longest: no longer prefix of `s`
/// is a decimal literal.
pub proof fn lemma_number_longest(s: Seq<u8>, len: int)
    requires
        number_len(s) < len <= s.len(),
    ensures
        !is_number(s.take(len)),
{
    let prefix = s.take(len);
    let sign = sign_len(s);
    assert(prefix[0] == s[0]);
    assert(sign_len(prefix) == sign);
    let body = s.skip(sign as int);
    let whole = run(body, CharClass::Digit);
    assert(prefix.skip(sign as int) =~= body.take(len - sign));
    lemma_run_take(body, len - sign, CharClass::Digit);
    lemma_run(body, CharClass::Digit);
    if whole > 0 {
        let tail = s.skip((sign + whole) as int);
        let rest = len - sign - whole;
        assert(prefix.skip((sign + whole) as int) =~= tail.take(rest));
        let cut = tail.take(rest);
        if fraction_len(cut) > 0 {
            assert(cut[0] == tail[0]);
            assert(cut.skip(1) =~= tail.skip(1).take(rest - 1));
            lemma_run_take(tail.skip(1), rest - 1, CharClass::Digit);
        }
    }
}

/// Finds the end of the run of `class` that starts at `start`.
pub(crate) fn scan_run(input: &[u8], start: usize, class: CharClass) -> (end: usize)
    requires
        start <= input@.len(),
    ensures
        start <= end <= input@.len(),
        end - start == run(input@.skip(start as int), class),
{
    let mut end = start;
    while end < input.len() && class.contains(input[end])
        invariant
            start <= end <= input@.len(),
            run(input@.skip(start as int), class) == (end - start) + run(
                input@.skip(end as int),
                class,
            ),
        decreases input@.len() - end,
    {
        assert(input@.skip(end as int).skip(1) =~= input@.skip(end + 1));
        end = end + 1;
    }
    end
}

/// Finds the end of the decimal literal that starts at `start`; where none
/// starts there the result is `start`.
pub(crate) fn scan_number(input: &[u8], start: usize) -> (end: usize)
    requires
        start <= input@.len(),
    ensures
        start <= end <= input@.len(),
        end - start == number_len(input@.skip(start as int)),
{
    let ghost s = input@.skip(start as int);
    let digits = if start < input.len() && input[start] == MINUS {
        start + 1
    } else {
        start
    };
    assert(input@.skip(digits as int) =~= s.skip(sign_len(s) as int));
    let whole = scan_run(input, digits, CharClass::Digit);
    if whole == digits {
        return start;
    }
    assert(input@.skip(whole as int) =~= s.skip(whole - start));
    if whole < input.len() && input[whole] == POINT {
        assert(input@.skip(whole + 1) =~= input@.skip(whole as int).skip(1));
        let end = scan_run(input, whole + 1, CharClass::Digit);
        if end > whole + 1 {
            return end;
        }
    }
    whole
}

/// A decimal literal, held as the bytes that spell it.
///
/// The number stands for the value that its digits denote in base ten; the
/// library keeps the spelling and leaves the choice of a machine number to
/// the caller.
#[derive(Debug, PartialEq, Eq)]
pub struct Number {
    text: Vec<u8>,
}

impl View for Number {
    type V = Seq<u8>;

    closed spec fn view(&self) -> Seq<u8> {
        self.text@
    }
}

impl Clone for Number {
    fn clone(&self) -> (n: Self)
        ensures
            n@ == self@,
    {
        proof {
            use_type_invariant(self);
        }
        Number { text: slice_to_vec(self.text.as_slice()) }
    }
}

impl Number {
    #[verifier::type_invariant]
    spec fn well_formed(self) -> bool {
        is_number(self.text@)
    }

    /// Reads a literal from `bytes`, which must spell one from the first byte
    /// to the last.
    pub fn parse(bytes: &[u8]) -> (r: Option<Number>)
        ensures
            r is Some <==> is_number(bytes@),
            r matches Some(n) ==> n@ == bytes@,
    {
        assert(bytes@.skip(0) =~= bytes@);
        if bytes.len() > 0 && scan_number(bytes, 0) == bytes.len() {
            Some(Number { text: slice_to_vec(bytes) })
        } else {
            None
        }
    }

    /// Copies the literal that spans `input[start..end]`.
    pub(crate) fn from_span(input: &[u8], start: usize, end: usize) -> (n: Number)
        requires
            start <= end <= input@.len(),
            is_number(input@.subrange(start as int, end as int)),
        ensures
            n@ == input@.subrange(start as int, end as int),
    {
        Number { text: slice_to_vec(slice_subrange(input, start, end)) }
    }

    /// The bytes that spell the literal.
    pub fn as_bytes(&self) -> (r: &[u8])
        ensures
            r@ == self@,
            is_number(r@),
    {
        proof {
            use_type_invariant(self);
        }
        self.text.as_slice()
    }

    /// Whether the literal begins with a minus sign.
    pub fn is_negative(&self) -> (r: bool)
        ensures
            r == (sign_len(self@) == 1),
    {
        proof {
            use_type_invariant(self);
        }
        self.text[0] == MINUS
    }
}

} // verus!
