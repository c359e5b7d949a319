//! Numbers of the language.
//!
//! A number is an IEEE-754 double, carried as an opaque `eq_float::F64`. The
//! verifier sees nothing inside such a value: the arithmetic on it is done by
//! the hardware and is not proved here. Each operation is given a name, so
//! that the functions built on it can say exactly which value they produce.
//! All not-a-number values count as one value.
use vstd::prelude::*;

verus! {

/// `eq_float::F64`, a double. Nothing of what is inside it is known here.
#[verifier::external_type_specification]
#[verifier::external_body]
pub struct ExF64(eq_float::F64);

/// The number that a run of decimal digits denotes.
pub uninterp spec fn number_of_digits(digits: Seq<char>) -> eq_float::F64;

/// The sum of two numbers.
pub uninterp spec fn number_sum(a: eq_float::F64, b: eq_float::F64) -> eq_float::F64;

/// The difference of two numbers.
pub uninterp spec fn number_difference(a: eq_float::F64, b: eq_float::F64) -> eq_float::F64;

/// The product of two numbers.
pub uninterp spec fn number_product(a: eq_float::F64, b: eq_float::F64) -> eq_float::F64;

/// The quotient of two numbers.
pub uninterp spec fn number_quotient(a: eq_float::F64, b: eq_float::F64) -> eq_float::F64;

/// The negation of a number.
pub uninterp spec fn number_negation(a: eq_float::F64) -> eq_float::F64;

/// Whether two numbers compare equal.
pub uninterp spec fn number_equal(a: eq_float::F64, b: eq_float::F64) -> bool;

/// Whether the first number is strictly below the second.
pub uninterp spec fn number_less(a: eq_float::F64, b: eq_float::F64) -> bool;

/// Whether the first number is below or equal to the second.
pub uninterp spec fn number_at_most(a: eq_float::F64, b: eq_float::F64) -> bool;

/// The text that a number prints as.
pub uninterp spec fn number_text(a: eq_float::F64) -> Seq<char>;

/// Whether every character of `text` is an ASCII digit.
pub open spec fn all_digits(text: Seq<char>) -> bool {
    forall|i: int| 0 <= i < text.len() ==> '0' <= #[trigger] text[i] <= '9'
}

/// `str::parse` at the double type. Trusted: the result is the double that
/// std reads from the digits. On a non-empty run of ASCII digits std's
/// parser never fails (a run too large for a double gives infinity).
#[verifier::external_body]
pub(crate) fn number_parse(digits: &str) -> (r: eq_float::F64)
    requires
        digits@.len() > 0,
        all_digits(digits@),
    ensures
        r == number_of_digits(digits@),
{
    eq_float::F64(digits.parse().unwrap())
}

/// Double addition. Trusted: the result is a function of the two operands.
#[verifier::external_body]
pub(crate) fn number_add(a: eq_float::F64, b: eq_float::F64) -> (r: eq_float::F64)
    ensures
        r == number_sum(a, b),
{
    eq_float::F64(a.0 + b.0)
}

/// Double subtraction. Trusted: the result is a function of the two operands.
#[verifier::external_body]
pub(crate) fn number_subtract(a: eq_float::F64, b: eq_float::F64) -> (r: eq_float::F64)
    ensures
        r == number_difference(a, b),
{
    eq_float::F64(a.0 - b.0)
}

/// Double multiplication. Trusted: the result is a function of the two operands.
#[verifier::external_body]
pub(crate) fn number_multiply(a: eq_float::F64, b: eq_float::F64) -> (r: eq_float::F64)
    ensures
        r == number_product(a, b),
{
    eq_float::F64(a.0 * b.0)
}

/// Double division. Trusted: the result is a function of the two operands;
/// a zero divisor gives an infinity or not-a-number, never a panic.
#[verifier::external_body]
pub(crate) fn number_divide(a: eq_float::F64, b: eq_float::F64) -> (r: eq_float::F64)
    ensures
        r == number_quotient(a, b),
{
    eq_float::F64(a.0 / b.0)
}

/// Double negation. Trusted: the result is a function of the operand.
#[verifier::external_body]
pub(crate) fn number_negate(a: eq_float::F64) -> (r: eq_float::F64)
    ensures
        r == number_negation(a),
{
    eq_float::F64(-a.0)
}

/// Equality of doubles as the hardware compares them (not-a-number equals
/// nothing, the two zeros are equal). Trusted: a function of the operands.
#[verifier::external_body]
pub(crate) fn number_eq(a: eq_float::F64, b: eq_float::F64) -> (r: bool)
    ensures
        r == number_equal(a, b),
{
    a.0 == b.0
}

/// `<` on doubles. Trusted: a function of the operands.
#[verifier::external_body]
pub(crate) fn number_lt(a: eq_float::F64, b: eq_float::F64) -> (r: bool)
    ensures
        r == number_less(a, b),
{
    a.0 < b.0
}

/// `<=` on doubles. Trusted: a function of the operands.
#[verifier::external_body]
pub(crate) fn number_le(a: eq_float::F64, b: eq_float::F64) -> (r: bool)
    ensures
        r == number_at_most(a, b),
{
    a.0 <= b.0
}

/// `Display` of a double. Trusted: the text is a function of the operand.
#[verifier::external_body]
pub(crate) fn number_format(a: eq_float::F64) -> (r: String)
    ensures
        r@ == number_text(a),
{
    format!("{}", a.0)
}

} // verus!
