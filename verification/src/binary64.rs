use vstd::prelude::*;

verus! {

/// Values are IEEE 754 binary64 numbers, held by their bit patterns: the
/// sign in bit 63, below it the exponent and the fraction. This is the
/// bit of the sign.
pub const SIGN_BIT: u64 = 0x8000_0000_0000_0000;

/// The sign of a value: 1 if its sign bit is set, else 0.
pub open spec fn sign(bits: u64) -> nat {
    (bits / SIGN_BIT) as nat
}

/// The value without its sign: its exponent and its fraction.
pub open spec fn magnitude(bits: u64) -> nat {
    (bits % SIGN_BIT) as nat
}

/// Positive or negative zero: exponent and fraction are clear.
pub open spec fn is_zero(bits: u64) -> bool {
    magnitude(bits) == 0
}

/// The value with the other sign, and the same exponent and fraction.
pub open spec fn negated(bits: u64) -> u64 {
    ((1 - sign(bits)) * SIGN_BIT + magnitude(bits)) as u64
}

/// Tells whether a value is positive or negative zero.
pub fn is_zero_value(bits: u64) -> (r: bool)
    ensures
        r == is_zero(bits),
{
    bits == 0 || bits == SIGN_BIT
}

/// Reverses the sign of a value.
pub fn negate(bits: u64) -> (r: u64)
    ensures
        r == negated(bits),
{
    if bits >= SIGN_BIT {
        bits - SIGN_BIT
    } else {
        bits + SIGN_BIT
    }
}

/// Reversing the sign changes the sign and nothing else.
pub proof fn lemma_negated_sign(bits: u64)
    ensures
        sign(negated(bits)) == 1 - sign(bits),
        magnitude(negated(bits)) == magnitude(bits),
        is_zero(negated(bits)) == is_zero(bits),
{
}

/// Reversing the sign twice gives the value back.
pub proof fn lemma_negated_twice(bits: u64)
    ensures
        negated(negated(bits)) == bits,
{
}

} // verus!
