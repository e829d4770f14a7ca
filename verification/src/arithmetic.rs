//! Numbers: IEEE-754 doubles as 64-bit patterns.
//!
//! A pattern holds a sign in its top bit, eleven exponent bits and fifty-two
//! fraction bits. Order, equality, zero and negation can be read off the
//! pattern, and are defined here. Sums, differences, products, quotients and
//! the conversions from and to decimal text need rounding; they are the
//! embedding's to supply, through [`Arithmetic`].

use vstd::prelude::*;

verus! {

/// The pattern whose only set bit is the sign.
pub const SIGN: u64 = 0x8000_0000_0000_0000;

/// The pattern of positive infinity: every exponent bit set, no fraction bit.
pub const INFINITY: u64 = 0x7FF0_0000_0000_0000;

/// The pattern without its sign.
pub open spec fn magnitude(bits: u64) -> nat {
    (bits % SIGN) as nat
}

/// A pattern is not a number when its magnitude lies above infinity's.
pub open spec fn is_nan(bits: u64) -> bool {
    magnitude(bits) > INFINITY
}

/// Both zeros, the positive and the negative.
pub open spec fn is_zero(bits: u64) -> bool {
    magnitude(bits) == 0
}

/// Where a pattern that is a number stands in the order of the doubles:
/// magnitudes grow with the patterns, and the sign mirrors them.
pub open spec fn rank(bits: u64) -> int {
    if bits >= SIGN {
        -(magnitude(bits) as int)
    } else {
        magnitude(bits) as int
    }
}

/// IEEE equality: nothing equals a NaN, and the two zeros are equal.
pub open spec fn equal(a: u64, b: u64) -> bool {
    !is_nan(a) && !is_nan(b) && rank(a) == rank(b)
}

/// IEEE `<`: false as soon as one side is a NaN.
pub open spec fn less(a: u64, b: u64) -> bool {
    !is_nan(a) && !is_nan(b) && rank(a) < rank(b)
}

/// IEEE `<=`.
pub open spec fn less_or_equal(a: u64, b: u64) -> bool {
    !is_nan(a) && !is_nan(b) && rank(a) <= rank(b)
}

/// The pattern with its sign flipped.
pub open spec fn negated(bits: u64) -> u64 {
    if bits >= SIGN {
        (bits - SIGN) as u64
    } else {
        (bits + SIGN) as u64
    }
}

/// Whether a pattern is not a number.
pub fn number_is_nan(bits: u64) -> (r: bool)
    ensures
        r == is_nan(bits),
{
    bits % SIGN > INFINITY
}

/// Whether a pattern is one of the two zeros.
pub fn number_is_zero(bits: u64) -> (r: bool)
    ensures
        r == is_zero(bits),
{
    bits % SIGN == 0
}

/// Whether two numbers are equal, as doubles.
pub fn numbers_equal(a: u64, b: u64) -> (r: bool)
    ensures
        r == equal(a, b),
{
    if number_is_nan(a) || number_is_nan(b) {
        false
    } else if a % SIGN == 0 {
        b % SIGN == 0
    } else {
        a == b
    }
}

/// Whether `a < b`, as doubles.
pub fn number_less(a: u64, b: u64) -> (r: bool)
    ensures
        r == less(a, b),
{
    if number_is_nan(a) || number_is_nan(b) {
        false
    } else if a >= SIGN {
        if b >= SIGN {
            a % SIGN > b % SIGN
        } else {
            a % SIGN > 0 || b % SIGN > 0
        }
    } else if b >= SIGN {
        false
    } else {
        a % SIGN < b % SIGN
    }
}

/// Whether `a <= b`, as doubles.
pub fn number_less_or_equal(a: u64, b: u64) -> (r: bool)
    ensures
        r == less_or_equal(a, b),
{
    number_less(a, b) || numbers_equal(a, b)
}

/// The number with its sign flipped.
pub fn negate(bits: u64) -> (r: u64)
    ensures
        r == negated(bits),
{
    if bits >= SIGN {
        bits - SIGN
    } else {
        bits + SIGN
    }
}

/// The four operations that round.
#[derive(Clone, Copy, Debug, PartialEq, Eq, Structural)]
pub enum Operation {
    Add,
    Subtract,
    Multiply,
    Divide,
}

/// Digits up to `point`, and nothing more or a point and digits after it.
pub open spec fn is_numeral_with(text: Seq<char>, point: int) -> bool {
    &&& 0 < point <= text.len()
    &&& all_digits(text.subrange(0, point))
    &&& point == text.len() || (text[point] == '.' && point + 1 < text.len() && all_digits(
        text.subrange(point + 1, text.len() as int),
    ))
}

/// A decimal numeral: digits, then optionally a point and more digits.
pub open spec fn is_numeral(text: Seq<char>) -> bool {
    exists|point: int| is_numeral_with(text, point)
}

/// A decimal digit.
pub open spec fn is_digit_char(c: char) -> bool {
    '0' <= c <= '9'
}

/// Decimal digits, and nothing else.
pub open spec fn all_digits(text: Seq<char>) -> bool {
    forall|i: int| 0 <= i < text.len() ==> is_digit_char(#[trigger] text[i])
}

/// Double-precision arithmetic, as the embedding provides it.
///
/// Every method takes and returns bit patterns. Nothing is promised of an
/// implementation here; the functions of this crate say of their results
/// which call produced them.
pub trait Arithmetic {
    /// The double nearest to a decimal numeral.
    fn number(&self, numeral: &str) -> u64
        requires
            is_numeral(numeral@),
    ;

    /// `a + b`, `a - b`, `a * b` or `a / b`, rounded.
    fn calculate(&self, operation: Operation, a: u64, b: u64) -> u64;

    /// The shortest decimal text that reads back as `x`.
    fn text(&self, x: u64) -> String;
}

/// Whether what an implementation states of its methods leaves each of
/// them one result for given arguments, so that the results can be named.
pub open spec fn determined<A: Arithmetic>(arith: &A) -> bool {
    &&& forall|s1: &str, s2: &str, r1: u64, r2: u64|
        s1@ == s2@ && call_ensures(A::number, (arith, s1), r1) && call_ensures(
            A::number,
            (arith, s2),
            r2,
        ) ==> r1 == r2
    &&& forall|operation: Operation, a: u64, b: u64, r1: u64, r2: u64|
        call_ensures(A::calculate, (arith, operation, a, b), r1) && call_ensures(
            A::calculate,
            (arith, operation, a, b),
            r2,
        ) ==> r1 == r2
    &&& forall|x: u64, r1: String, r2: String|
        call_ensures(A::text, (arith, x), r1) && call_ensures(A::text, (arith, x), r2) ==> r1@
            == r2@
}

/// Whether `arith` may read `r` from a numeral.
pub open spec fn reads<A: Arithmetic>(arith: &A, numeral: Seq<char>, r: u64) -> bool {
    exists|s: &str| s@ == numeral && #[trigger] call_ensures(A::number, (arith, s), r)
}

/// Whether `arith` may write `t` for a number.
pub open spec fn writes<A: Arithmetic>(arith: &A, x: u64, t: Seq<char>) -> bool {
    exists|s: String| s@ == t && #[trigger] call_ensures(A::text, (arith, x), s)
}

/// The number that `arith` reads from a numeral.
pub open spec fn number_of<A: Arithmetic>(arith: &A, numeral: Seq<char>) -> u64 {
    choose|r: u64| reads(arith, numeral, r)
}

/// The number that `arith` computes.
pub open spec fn calculated<A: Arithmetic>(arith: &A, operation: Operation, a: u64, b: u64) -> u64 {
    choose|r: u64| call_ensures(A::calculate, (arith, operation, a, b), r)
}

/// The text that `arith` writes for a number.
pub open spec fn text_of<A: Arithmetic>(arith: &A, x: u64) -> Seq<char> {
    choose|t: Seq<char>| writes(arith, x, t)
}

/// The number that a determined arithmetic may read is the number that
/// `number_of` names.
pub proof fn law_number_of<A: Arithmetic>(arith: &A, numeral: &str, r: u64)
    requires
        determined(arith),
        call_ensures(A::number, (arith, numeral), r),
    ensures
        number_of(arith, numeral@) == r,
{
    assert(reads(arith, numeral@, r));
}

/// The number that a determined arithmetic may compute is the number that
/// `calculated` names.
pub proof fn law_calculated<A: Arithmetic>(arith: &A, operation: Operation, a: u64, b: u64, r: u64)
    requires
        determined(arith),
        call_ensures(A::calculate, (arith, operation, a, b), r),
    ensures
        calculated(arith, operation, a, b) == r,
{
}

/// The text that a determined arithmetic may write is the text that
/// `text_of` names.
pub proof fn law_text_of<A: Arithmetic>(arith: &A, x: u64, r: String)
    requires
        determined(arith),
        call_ensures(A::text, (arith, x), r),
    ensures
        text_of(arith, x) == r@,
{
    assert(writes(arith, x, r@));
}

/// Reads a numeral through `arith`.
pub fn read_number<A: Arithmetic>(arith: &A, numeral: &str) -> (r: u64)
    requires
        determined(arith),
        is_numeral(numeral@),
    ensures
        r == number_of(arith, numeral@),
{
    let r = arith.number(numeral);
    proof {
        law_number_of(arith, numeral, r);
    }
    r
}

/// Computes through `arith`.
pub fn compute<A: Arithmetic>(arith: &A, operation: Operation, a: u64, b: u64) -> (r: u64)
    requires
        determined(arith),
    ensures
        r == calculated(arith, operation, a, b),
{
    let r = arith.calculate(operation, a, b);
    proof {
        law_calculated(arith, operation, a, b, r);
    }
    r
}

/// Writes a number through `arith`.
pub fn write_number<A: Arithmetic>(arith: &A, x: u64) -> (r: String)
    requires
        determined(arith),
    ensures
        r@ == text_of(arith, x),
{
    let r = arith.text(x);
    proof {
        law_text_of(arith, x, r);
    }
    r
}

} // verus!
