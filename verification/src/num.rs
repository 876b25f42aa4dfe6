//! XPath numbers are IEEE-754 double-precision values, carried here as their
//! 64-bit pattern. Classification, equality, ordering, negation and the
//! positional test used by predicates are defined and verified directly on
//! the bit pattern; rounding arithmetic, lexical parsing and decimal
//! formatting are delegated to `rustc_apfloat`, a deterministic software
//! implementation of IEEE-754.

use vstd::prelude::*;
use rustc_apfloat::Float;

verus! {

use vstd::arithmetic::power2::{pow2, lemma_pow2_adds, lemma_pow2_pos, lemma2_to64, lemma2_to64_rest};
use vstd::bits::{lemma_u64_shl_is_mul, lemma_u64_shr_is_div};

/// The sign bit of a double's bit pattern.
pub const SIGN_MASK: u64 = 0x8000_0000_0000_0000;

/// The biased-exponent field of a double's bit pattern.
pub const EXP_MASK: u64 = 0x7FF0_0000_0000_0000;

/// The mantissa field of a double's bit pattern.
pub const MANTISSA_MASK: u64 = 0x000F_FFFF_FFFF_FFFF;

/// Everything but the sign bit.
pub const ABS_MASK: u64 = 0x7FFF_FFFF_FFFF_FFFF;

/// The bit pattern of the quiet NaN produced when a string has no numeric
/// interpretation.
pub const NAN_BITS: u64 = 0x7FF8_0000_0000_0000;

pub open spec fn biased_exp(b: u64) -> u64 {
    (b >> 52) & 0x7FF
}

pub open spec fn mantissa(b: u64) -> u64 {
    b & MANTISSA_MASK
}

pub open spec fn sign_bit(b: u64) -> bool {
    b & SIGN_MASK != 0
}

pub open spec fn is_nan_bits(b: u64) -> bool {
    biased_exp(b) == 0x7FF && mantissa(b) != 0
}

pub open spec fn is_infinite_bits(b: u64) -> bool {
    biased_exp(b) == 0x7FF && mantissa(b) == 0
}

pub open spec fn is_finite_bits(b: u64) -> bool {
    biased_exp(b) != 0x7FF
}

pub open spec fn is_zero_bits(b: u64) -> bool {
    b & ABS_MASK == 0
}

/// IEEE-754 equality on bit patterns: NaN equals nothing, the two zeros are
/// equal, and every other value is equal exactly to itself.
pub open spec fn ieee_eq(a: u64, b: u64) -> bool {
    &&& !is_nan_bits(a)
    &&& !is_nan_bits(b)
    &&& (a == b || (is_zero_bits(a) && is_zero_bits(b)))
}

/// Maps a non-NaN bit pattern to a key whose unsigned order agrees with the
/// IEEE order of the values: negative patterns are complemented, positive
/// ones get the high bit set.
pub open spec fn order_key(b: u64) -> u64 {
    if sign_bit(b) {
        !b
    } else {
        b | SIGN_MASK
    }
}

/// IEEE-754 `<` on bit patterns: false on any NaN, the two zeros are not
/// below one another, and otherwise the order keys decide.
pub open spec fn ieee_lt(a: u64, b: u64) -> bool {
    &&& !is_nan_bits(a)
    &&& !is_nan_bits(b)
    &&& !(is_zero_bits(a) && is_zero_bits(b))
    &&& order_key(a) < order_key(b)
}

pub open spec fn ieee_le(a: u64, b: u64) -> bool {
    ieee_lt(a, b) || ieee_eq(a, b)
}

/// IEEE-754 negation flips exactly the sign bit; NaN stays NaN and each zero
/// becomes the other zero.
pub open spec fn neg_bits(b: u64) -> u64 {
    b ^ SIGN_MASK
}

/// The boolean coercion of a number: false exactly for the two zeros and NaN.
pub open spec fn bool_of_bits(b: u64) -> bool {
    !is_zero_bits(b) && !is_nan_bits(b)
}

/// A decimal digit.
pub open spec fn is_digit(c: char) -> bool {
    '0' <= c && c <= '9'
}

/// Digits with at most one decimal point and at least one digit: the body
/// of a number as XPath writes one.
pub open spec fn is_number_body(b: Seq<char>) -> bool {
    &&& forall|i: int| 0 <= i < b.len() ==> (is_digit(b[i]) || b[i] == '.')
    &&& forall|i: int, j: int| 0 <= i < j < b.len() && b[i] == '.' ==> b[j] != '.'
    &&& exists|i: int| 0 <= i < b.len() && is_digit(b[i])
}

/// The lexical space of XPath numbers once surrounding whitespace is
/// stripped: an optional minus sign, then digits with at most one decimal
/// point. Exponent forms, hexadecimal forms and words are not numbers.
pub open spec fn is_xpath_number(s: Seq<char>) -> bool {
    if s.len() > 0 && s[0] == '-' {
        is_number_body(s.subrange(1, s.len() as int))
    } else {
        is_number_body(s)
    }
}

/// Whether a finite double is an integer: its value equals its integer
/// part, which holds exactly when the bits below the exponent's weight are
/// clear (or the value is one of the zeros).
pub open spec fn is_integral_bits(b: u64) -> bool
    recommends
        is_finite_bits(b),
{
    if biased_exp(b) < 1023 {
        is_zero_bits(b)
    } else if biased_exp(b) >= 1075 {
        true
    } else {
        mantissa(b) as nat % pow2((1075 - biased_exp(b)) as nat) == 0
    }
}

/// The integer part of a finite double, as a natural number, ignoring the
/// sign: mantissa (with the implicit leading bit) scaled by the unbiased
/// exponent. Values below one truncate to zero.
pub open spec fn trunc_of(b: u64) -> nat
    recommends
        is_finite_bits(b),
{
    if biased_exp(b) < 1023 {
        0
    } else {
        let e = (biased_exp(b) - 1023) as nat;
        let full = (mantissa(b) + pow2(52)) as nat;
        if e >= 52 {
            full * pow2((e - 52) as nat)
        } else {
            full / pow2((52 - e) as nat)
        }
    }
}

/// A numeric predicate value keeps the node at position `pos` exactly when
/// the number is finite, at least one, and its integer part is `pos`.
pub open spec fn matches_position(b: u64, pos: nat) -> bool {
    &&& is_finite_bits(b)
    &&& !sign_bit(b)
    &&& pos >= 1
    &&& trunc_of(b) == pos
}

pub fn num_is_nan(b: u64) -> (r: bool)
    ensures
        r == is_nan_bits(b),
{
    (b >> 52) & 0x7FF == 0x7FF && b & MANTISSA_MASK != 0
}

pub fn num_is_infinite(b: u64) -> (r: bool)
    ensures
        r == is_infinite_bits(b),
{
    (b >> 52) & 0x7FF == 0x7FF && b & MANTISSA_MASK == 0
}

pub fn num_is_zero(b: u64) -> (r: bool)
    ensures
        r == is_zero_bits(b),
{
    b & ABS_MASK == 0
}

pub fn num_sign(b: u64) -> (r: bool)
    ensures
        r == sign_bit(b),
{
    b & SIGN_MASK != 0
}

pub fn num_truthy(b: u64) -> (r: bool)
    ensures
        r == bool_of_bits(b),
{
    !num_is_zero(b) && !num_is_nan(b)
}

pub fn num_eq(a: u64, b: u64) -> (r: bool)
    ensures
        r == ieee_eq(a, b),
{
    !num_is_nan(a) && !num_is_nan(b) && (a == b || (num_is_zero(a) && num_is_zero(b)))
}

fn exec_order_key(b: u64) -> (r: u64)
    ensures
        r == order_key(b),
{
    if b & SIGN_MASK != 0 {
        !b
    } else {
        b | SIGN_MASK
    }
}

pub fn num_lt(a: u64, b: u64) -> (r: bool)
    ensures
        r == ieee_lt(a, b),
{
    !num_is_nan(a) && !num_is_nan(b) && !(num_is_zero(a) && num_is_zero(b))
        && exec_order_key(a) < exec_order_key(b)
}

pub fn num_le(a: u64, b: u64) -> (r: bool)
    ensures
        r == ieee_le(a, b),
{
    num_lt(a, b) || num_eq(a, b)
}

pub fn num_neg(b: u64) -> (r: u64)
    ensures
        r == neg_bits(b),
{
    b ^ SIGN_MASK
}

/// The integer part of a finite double whose magnitude is below 2^64, as a
/// machine word.
pub fn trunc_u64(b: u64) -> (t: u64)
    requires
        is_finite_bits(b),
        biased_exp(b) < 1087,
    ensures
        t as nat == trunc_of(b),
{
    let be: u64 = (b >> 52) & 0x7FF;
    if be < 1023 {
        // The value is below one, so its integer part is zero.
        return 0;
    }
    let e: u64 = be - 1023;
    let m: u64 = b & MANTISSA_MASK;
    proof {
        lemma2_to64();
        lemma2_to64_rest();
        assert(m | 0x0010_0000_0000_0000 == m + 0x0010_0000_0000_0000) by (bit_vector)
            requires
                m == b & 0x000F_FFFF_FFFF_FFFFu64,
        ;
        assert(m <= 0x000F_FFFF_FFFF_FFFFu64) by (bit_vector)
            requires
                m == b & 0x000F_FFFF_FFFF_FFFFu64,
        ;
    }
    let full: u64 = m | 0x0010_0000_0000_0000;
    if e >= 52 {
        proof {
            assert(full as nat * pow2((e - 52) as nat) <= 0x001F_FFFF_FFFF_FFFF * pow2(11))
                by (nonlinear_arith)
                requires
                    full <= 0x001F_FFFF_FFFF_FFFFu64,
                    pow2((e - 52) as nat) <= pow2(11),
            ;
            lemma_u64_shl_is_mul(full, (e - 52) as u64);
        }
        full << (e - 52)
    } else {
        proof {
            lemma_u64_shr_is_div(full, (52 - e) as u64);
        }
        full >> (52 - e)
    }
}

/// Decides whether a finite double is an integer, per `is_integral_bits`.
pub fn num_is_integral(b: u64) -> (r: bool)
    ensures
        r == is_integral_bits(b),
{
    let be: u64 = (b >> 52) & 0x7FF;
    if be < 1023 {
        return b & ABS_MASK == 0;
    }
    if be >= 1075 {
        return true;
    }
    let shift: u64 = 1075 - be;
    proof {
        lemma2_to64();
        lemma2_to64_rest();
        lemma_pow2_pos(shift as nat);
        assert(pow2(shift as nat) <= pow2(52)) by {
            if shift < 52 {
                vstd::arithmetic::power2::lemma_pow2_strictly_increases(
                    shift as nat,
                    52,
                );
            }
        }
        lemma_u64_shl_is_mul(1, shift);
        vstd::bits::lemma_u64_low_bits_mask_is_mod(b & MANTISSA_MASK, shift as nat);
        assert(vstd::bits::low_bits_mask(shift as nat) == pow2(shift as nat) - 1) by {
            vstd::bits::lemma_low_bits_mask_values();
            vstd::arithmetic::power2::lemma_pow2(shift as nat);
            vstd::arithmetic::power::lemma_pow_positive(2, shift as nat);
        }
    }
    let mask: u64 = (1u64 << shift) - 1;
    (b & MANTISSA_MASK) & mask == 0
}

/// Decides whether the number `b` selects position `pos`, per
/// `matches_position`.
pub fn position_matches(b: u64, pos: usize) -> (r: bool)
    ensures
        r == matches_position(b, pos as nat),
{
    let be: u64 = (b >> 52) & 0x7FF;
    if be == 0x7FF {
        // NaN or an infinity: not finite.
        return false;
    }
    if b & SIGN_MASK != 0 {
        return false;
    }
    if pos == 0 {
        return false;
    }
    if be >= 1087 {
        // The integer part is at least 2^64, beyond any position.
        let ghost e = (be - 1023) as nat;
        let ghost m = b & MANTISSA_MASK;
        let ghost full = (m + pow2(52)) as nat;
        proof {
            lemma2_to64();
            lemma2_to64_rest();
            lemma_pow2_pos((e - 64) as nat);
            lemma_pow2_adds(52, (e - 52) as nat);
            assert(pow2((e - 52) as nat) >= pow2(12) * pow2((e - 64) as nat)) by {
                lemma_pow2_adds(12, (e - 64) as nat);
            };
            assert(full * pow2((e - 52) as nat) >= pow2(52) * pow2(12)) by (nonlinear_arith)
                requires
                    full >= pow2(52),
                    pow2((e - 52) as nat) >= pow2(12) * pow2((e - 64) as nat),
                    pow2((e - 64) as nat) >= 1,
                    pow2(12) >= 1,
                    pow2(52) >= 1,
            ;
            lemma_pow2_adds(52, 12);
        }
        return false;
    }
    let t: u64 = trunc_u64(b);
    t == pos as u64
}

/// Name for the IEEE-754 sum, to nearest-even, of two double bit patterns.
pub uninterp spec fn add_bits(a: u64, b: u64) -> u64;

/// Name for the IEEE-754 difference of two double bit patterns.
pub uninterp spec fn sub_bits(a: u64, b: u64) -> u64;

/// Name for the IEEE-754 product of two double bit patterns.
pub uninterp spec fn mul_bits(a: u64, b: u64) -> u64;

/// Name for the IEEE-754 quotient of two double bit patterns.
pub uninterp spec fn div_bits(a: u64, b: u64) -> u64;

/// Name for the IEEE-754 fmod-style remainder of two double bit patterns.
pub uninterp spec fn rem_bits(a: u64, b: u64) -> u64;

/// Name for the double a decimal string converts to, `None` where the string
/// is not a number.
pub uninterp spec fn bits_of_decimal(s: Seq<char>) -> Option<u64>;

/// Name for the text rustc_apfloat's `Display` renders a double bit
/// pattern as: a plain decimal form for moderate magnitudes, a scientific
/// form (as in `1.0E+7`) where the decimal exponent grows.
pub uninterp spec fn decimal_str_of(b: u64) -> Seq<char>;

/// Relies on `rustc_apfloat::ieee::Double`'s `Add`: the correctly rounded
/// IEEE-754 sum, a function of the two bit patterns alone.
#[verifier::external_body]
pub(crate) fn add_double(a: u64, b: u64) -> (r: u64)
    ensures
        r == add_bits(a, b),
{
    let x = rustc_apfloat::ieee::Double::from_bits(a as u128);
    let y = rustc_apfloat::ieee::Double::from_bits(b as u128);
    (x + y).value.to_bits() as u64
}

/// Relies on `rustc_apfloat::ieee::Double`'s `Sub`: the correctly rounded
/// IEEE-754 difference, a function of the two bit patterns alone.
#[verifier::external_body]
pub(crate) fn sub_double(a: u64, b: u64) -> (r: u64)
    ensures
        r == sub_bits(a, b),
{
    let x = rustc_apfloat::ieee::Double::from_bits(a as u128);
    let y = rustc_apfloat::ieee::Double::from_bits(b as u128);
    (x - y).value.to_bits() as u64
}

/// Relies on `rustc_apfloat::ieee::Double`'s `Mul`: the correctly rounded
/// IEEE-754 product, a function of the two bit patterns alone.
#[verifier::external_body]
pub(crate) fn mul_double(a: u64, b: u64) -> (r: u64)
    ensures
        r == mul_bits(a, b),
{
    let x = rustc_apfloat::ieee::Double::from_bits(a as u128);
    let y = rustc_apfloat::ieee::Double::from_bits(b as u128);
    (x * y).value.to_bits() as u64
}

/// Relies on `rustc_apfloat::ieee::Double`'s `Div`: the correctly rounded
/// IEEE-754 quotient, a function of the two bit patterns alone; division by
/// zero yields an infinity or NaN, never a failure.
#[verifier::external_body]
pub(crate) fn div_double(a: u64, b: u64) -> (r: u64)
    ensures
        r == div_bits(a, b),
{
    let x = rustc_apfloat::ieee::Double::from_bits(a as u128);
    let y = rustc_apfloat::ieee::Double::from_bits(b as u128);
    (x / y).value.to_bits() as u64
}

/// Relies on `rustc_apfloat::ieee::Double`'s `Rem`, which is `c_fmod`: the
/// remainder with the sign of the dividend, a function of the two bit
/// patterns alone.
#[verifier::external_body]
pub(crate) fn rem_double(a: u64, b: u64) -> (r: u64)
    ensures
        r == rem_bits(a, b),
{
    let x = rustc_apfloat::ieee::Double::from_bits(a as u128);
    let y = rustc_apfloat::ieee::Double::from_bits(b as u128);
    (x % y).value.to_bits() as u64
}

/// Relies on `rustc_apfloat::ieee::Double::from_str`: the correctly rounded
/// double a decimal string denotes, an error where it denotes none; the
/// result depends on the characters alone. The caller keeps to XPath's
/// plain decimal forms: the parser's hexadecimal branch builds a 32-bit
/// exponent out of character positions and does not return on absurdly
/// long tokens, so that branch is kept out by `requires`.
#[verifier::external_body]
pub(crate) fn parse_double(s: &str) -> (r: Option<u64>)
    requires
        is_xpath_number(s@),
    ensures
        r == bits_of_decimal(s@),
{
    match s.parse::<rustc_apfloat::ieee::Double>() {
        Ok(d) => Some(d.to_bits() as u64),
        Err(_) => None,
    }
}

/// Relies on `rustc_apfloat::ieee::Double`'s `Display`: a decimal rendering
/// that depends on the bit pattern alone.
#[verifier::external_body]
pub(crate) fn format_double(b: u64) -> (r: String)
    ensures
        r@ == decimal_str_of(b),
{
    format!("{}", rustc_apfloat::ieee::Double::from_bits(b as u128))
}

} // verus!
