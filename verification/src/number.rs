//! Numbers: finite binary64 values, modelled by their IEEE 754 bit patterns
//! together with their canonical decimal text.
//!
//! Equality is tolerance-aware and exact: the comparison `|a - b| <= p` is
//! decided over the exact scaled integer values of the three numbers, never
//! by rounding floating-point arithmetic.
use crate::bigmag;
use crate::errors::CanonicalizeError;
use crate::hash::{hash_bytes, hash_of, le_bytes, HashCode};
use vstd::arithmetic::power2::pow2;
use vstd::prelude::*;

verus! {

/// The fraction field of a binary64 bit pattern.
pub open spec fn f64_frac(bits: u64) -> u64 {
    bits & 0xFFFFFFFFFFFFF
}

/// The biased exponent field of a binary64 bit pattern.
pub open spec fn f64_exp(bits: u64) -> u64 {
    (bits >> 52) & 0x7FF
}

/// The sign bit of a binary64 bit pattern.
pub open spec fn f64_is_neg(bits: u64) -> bool {
    (bits >> 63) == 1
}

/// The bit pattern denotes a finite value (not an infinity and not a NaN).
pub open spec fn finite_bits(bits: u64) -> bool {
    f64_exp(bits) != 0x7FF
}

/// The magnitude of a finite binary64 value, scaled by 2^1074 so that it is
/// an integer: subnormals contribute their fraction directly, normal values
/// contribute an implied leading bit and a power of two.
pub open spec fn f64_mag_scaled(bits: u64) -> nat {
    if f64_exp(bits) == 0 {
        f64_frac(bits) as nat
    } else {
        ((0x10000000000000 + f64_frac(bits)) * pow2((f64_exp(bits) - 1) as nat)) as nat
    }
}

/// The exact value of a finite binary64 bit pattern, scaled by 2^1074.
pub open spec fn f64_val_scaled(bits: u64) -> int {
    if f64_is_neg(bits) {
        -(f64_mag_scaled(bits) as int)
    } else {
        f64_mag_scaled(bits) as int
    }
}

/// `|a - b| <= p` over the exact values of the finite bit patterns `a`, `b`
/// and the non-negative tolerance `p`.
pub open spec fn within_tolerance(a: u64, b: u64, p: u64) -> bool {
    -f64_val_scaled(p) <= f64_val_scaled(a) - f64_val_scaled(b) <= f64_val_scaled(p)
}

/// Two finite bit patterns denote the same value: identical bits, or both
/// are zeros of either sign.
pub open spec fn same_f64(a: u64, b: u64) -> bool {
    f64_val_scaled(a) == f64_val_scaled(b)
}

/// Splits a finite bit pattern into mantissa, scale and sign, such that the
/// magnitude of the denoted value, scaled by 2^1074, is `mantissa * 2^scale`.
fn decode(bits: u64) -> (r: (u64, usize, bool))
    requires
        finite_bits(bits),
    ensures
        r.0 < 0x20000000000000,
        r.1 <= 2045,
        (r.0 as nat) * pow2(r.1 as nat) == f64_mag_scaled(bits),
        r.2 == f64_is_neg(bits),
{
    let frac = bits & 0xFFFFFFFFFFFFF;
    let exp = (bits >> 52) & 0x7FF;
    let neg = (bits >> 63) == 1;
    proof {
        assert(frac < 0x10000000000000 && exp <= 0x7FF) by (bit_vector)
            requires
                frac == bits & 0xFFFFFFFFFFFFF && exp == (bits >> 52) & 0x7FF,
        ;
        vstd::arithmetic::power2::lemma2_to64();
    }
    if exp == 0 {
        proof {
            assert((frac as nat) * pow2(0) == frac) by (nonlinear_arith)
                requires
                    pow2(0) == 1,
            ;
        }
        (frac, 0, neg)
    } else {
        ((frac + 0x10000000000000) as u64, (exp - 1) as usize, neg)
    }
}

/// Pads a magnitude with one zero limb, keeping its value.
fn big_pad(v: Vec<u64>) -> (r: Vec<u64>)
    ensures
        r@.len() == v@.len() + 1,
        bigmag::val(r@) == bigmag::val(v@),
{
    let ghost pre = v@;
    let mut r = v;
    r.push(0);
    proof {
        bigmag::lemma_val_push(pre, 0);
    }
    r
}

/// Decides `|a - b| <= p` exactly over the values denoted by the finite bit
/// patterns `a` and `b` and the non-negative finite tolerance `p`.
pub fn tolerance_compare(a: u64, b: u64, p: u64) -> (r: bool)
    requires
        finite_bits(a),
        finite_bits(b),
        finite_bits(p),
        !f64_is_neg(p),
    ensures
        r == within_tolerance(a, b, p),
{
    let (ma, sa, neg_a) = decode(a);
    let (mb, sb, neg_b) = decode(b);
    let (mp, sp, _neg_p) = decode(p);
    let big_a = bigmag::big_from(ma, sa, 33);
    let big_b = bigmag::big_from(mb, sb, 33);
    let big_p = bigmag::big_from(mp, sp, 33);
    if neg_a == neg_b {
        let b_plus_p = bigmag::big_add(&big_b, &big_p);
        let a_plus_p = bigmag::big_add(&big_a, &big_p);
        let a_wide = big_pad(big_a);
        let b_wide = big_pad(big_b);
        let le1 = bigmag::big_le(&a_wide, &b_plus_p);
        let le2 = bigmag::big_le(&b_wide, &a_plus_p);
        le1 && le2
    } else {
        let a_plus_b = bigmag::big_add(&big_a, &big_b);
        let p_wide = big_pad(big_p);
        bigmag::big_le(&a_plus_b, &p_wide)
    }
}


/// The denoted value is an integer: its scaled magnitude is a multiple of
/// the scaling factor.
pub open spec fn integral_bits(bits: u64) -> bool {
    f64_mag_scaled(bits) % pow2(1074) == 0
}

/// The bit pattern is a negative zero.
pub open spec fn neg_zero_bits(bits: u64) -> bool {
    f64_is_neg(bits) && f64_mag_scaled(bits) == 0
}

/// How a finite value is canonically encoded as a JSON number: a signed
/// integer when it is integral, not a negative zero and within the signed
/// 64-bit comparison range; an unsigned integer when integral, non-negative
/// and within the unsigned range; else a float form (so that negative zero
/// round-trips).
#[derive(Clone, Copy, Debug, PartialEq, Eq, Structural)]
pub enum NumberForm {
    /// Encode as a signed 64-bit integer.
    Int64,
    /// Encode as an unsigned 64-bit integer.
    UInt64,
    /// Encode in a decimal float form.
    Float,
}

/// The canonical encoding form of a finite value.
pub open spec fn number_form_of(bits: u64) -> NumberForm {
    if integral_bits(bits) && !neg_zero_bits(bits) {
        if -f64_val_scaled(bits) <= pow2(1137) && f64_val_scaled(bits) <= pow2(1137) {
            NumberForm::Int64
        } else if f64_val_scaled(bits) >= 0 && f64_val_scaled(bits) <= pow2(1138) {
            NumberForm::UInt64
        } else {
            NumberForm::Float
        }
    } else {
        NumberForm::Float
    }
}

/// Decides the canonical encoding form from the bit pattern.
pub fn number_form(bits: u64) -> (r: NumberForm)
    requires
        finite_bits(bits),
    ensures
        r == number_form_of(bits),
{
    let frac = bits & 0xFFFFFFFFFFFFF;
    let exp = (bits >> 52) & 0x7FF;
    let neg = (bits >> 63) == 1;
    proof {
        assert(frac < 0x10000000000000 && exp <= 0x7FF) by (bit_vector)
            requires
                frac == bits & 0xFFFFFFFFFFFFF && exp == (bits >> 52) & 0x7FF,
        ;
        lemma_integral_exec(bits);
        lemma_mag_vs_pow(bits, 1137);
        lemma_mag_vs_pow(bits, 1138);
    }
    let integral = if exp == 0 {
        frac == 0
    } else if exp >= 1075 {
        true
    } else if exp >= 1023 {
        let shift = 1075 - exp;
        let pow = 1u64 << shift;
        proof {
            let sh = (1075 - exp) as nat;
            vstd::arithmetic::power2::lemma2_to64();
            vstd::arithmetic::power2::lemma_pow2_strictly_increases(sh, 64);
            vstd::bits::lemma_u64_shl_is_mul(1u64, shift);
            assert(pow as nat == pow2(sh));
            vstd::arithmetic::power2::lemma_pow2_pos(sh);
            assert(pow >= 1);
        }
        let mask = pow - 1;
        proof {
            let sh = (1075 - exp) as nat;
            vstd::bits::lemma_u64_low_bits_mask_is_mod(frac, sh);
            assert(vstd::bits::low_bits_mask(sh) == pow2(sh) - 1) by {
                vstd::bits::lemma_low_bits_mask_values();
                vstd::arithmetic::power2::lemma_pow2_pos(sh);
                assert(vstd::bits::low_bits_mask(sh) == (pow2(sh) - 1) as nat) by {
                    lemma_low_bits_mask_is_pow2_minus_one(sh);
                }
            }
            assert(mask == vstd::bits::low_bits_mask(sh) as u64);
            assert((frac & mask) == frac % pow);
        }
        (frac & mask) == 0
    } else {
        false
    };
    let negzero = neg && exp == 0 && frac == 0;
    proof {
        vstd::arithmetic::power2::lemma2_to64();
        if exp != 0 {
            vstd::arithmetic::power2::lemma_pow2_pos((exp - 1) as nat);
            assert(f64_mag_scaled(bits) > 0) by (nonlinear_arith)
                requires
                    f64_mag_scaled(bits) == ((0x10000000000000 + frac) as nat) * pow2(
                        (exp - 1) as nat,
                    ),
                    pow2((exp - 1) as nat) >= 1,
            ;
        }
        assert(negzero == neg_zero_bits(bits));
        vstd::arithmetic::power2::lemma_pow2_pos(1137);
        vstd::arithmetic::power2::lemma_pow2_pos(1138);
        if neg {
            assert(f64_val_scaled(bits) <= pow2(1137));
            assert(f64_val_scaled(bits) <= pow2(1138));
            assert((-f64_val_scaled(bits) <= pow2(1137)) == (f64_mag_scaled(bits) <= pow2(
                1137,
            )));
        } else {
            assert(-f64_val_scaled(bits) <= 0 <= pow2(1137));
            assert((f64_val_scaled(bits) <= pow2(1137)) == (f64_mag_scaled(bits) <= pow2(1137)));
            assert((f64_val_scaled(bits) <= pow2(1138)) == (f64_mag_scaled(bits) <= pow2(1138)));
            assert(f64_val_scaled(bits) >= 0);
        }
        if neg && !negzero {
            assert(f64_mag_scaled(bits) > 0);
            assert(f64_val_scaled(bits) < 0);
        }
    }
    if integral && !negzero {
        let in_i64 = exp < 1086 || (exp == 1086 && frac == 0);
        if in_i64 {
            NumberForm::Int64
        } else {
            let in_u64 = !neg && (exp < 1087 || (exp == 1087 && frac == 0));
            if in_u64 {
                NumberForm::UInt64
            } else {
                NumberForm::Float
            }
        }
    } else {
        NumberForm::Float
    }
}

/// The low-bits mask is one less than the power of two.
proof fn lemma_low_bits_mask_is_pow2_minus_one(n: nat)
    ensures
        vstd::bits::low_bits_mask(n) == (pow2(n) - 1) as nat,
    decreases n,
{
    vstd::arithmetic::power2::lemma_pow2_pos(n);
    if n == 0 {
        assert(vstd::bits::low_bits_mask(0) == 0) by {
            vstd::bits::lemma_low_bits_mask_values();
        }
        vstd::arithmetic::power2::lemma2_to64();
    } else {
        lemma_low_bits_mask_is_pow2_minus_one((n - 1) as nat);
        vstd::bits::lemma_low_bits_mask_unfold(n);
        vstd::arithmetic::power2::lemma_pow2_unfold(n);
        vstd::arithmetic::power2::lemma_pow2_pos((n - 1) as nat);
    }
}

/// The executable integrality test agrees with the scaled-value one, and
/// the magnitude range tests agree with the scaled bounds.
proof fn lemma_integral_exec(bits: u64)
    requires
        finite_bits(bits),
    ensures
        ({
            let frac = f64_frac(bits);
            let exp = f64_exp(bits);
            integral_bits(bits) == if exp == 0 {
                frac == 0
            } else if exp >= 1075 {
                true
            } else if exp >= 1023 {
                frac as nat % pow2((1075 - exp) as nat) == 0
            } else {
                false
            }
        }),
{
    vstd::arithmetic::power2::lemma2_to64();
    vstd::arithmetic::power2::lemma2_to64_rest();
    let frac = f64_frac(bits);
    let exp = f64_exp(bits);
    assert(frac < 0x10000000000000) by (bit_vector)
        requires
            frac == bits & 0xFFFFFFFFFFFFF,
    ;
    if exp == 0 {
        vstd::arithmetic::power2::lemma_pow2_strictly_increases(52, 1074);
        if frac == 0 {
            assert(f64_mag_scaled(bits) % pow2(1074) == 0) by {
                vstd::arithmetic::div_mod::lemma_small_mod(0, pow2(1074));
                vstd::arithmetic::power2::lemma_pow2_pos(1074);
            }
        } else {
            vstd::arithmetic::div_mod::lemma_small_mod(frac as nat, pow2(1074));
        }
    } else {
        let m = (0x10000000000000 + frac) as nat;
        let e = (exp - 1) as nat;
        vstd::arithmetic::power2::lemma_pow2_pos(e);
        vstd::arithmetic::power2::lemma_pow2_pos(1074);
        if exp >= 1075 {
            // The scale alone carries the full factor.
            vstd::arithmetic::power2::lemma_pow2_adds(1074, (e - 1074) as nat);
            assert(f64_mag_scaled(bits) == m * (pow2(1074) * pow2((e - 1074) as nat)));
            assert(m * (pow2(1074) * pow2((e - 1074) as nat)) == (m * pow2((e - 1074) as nat))
                * pow2(1074)) by (nonlinear_arith);
            vstd::arithmetic::div_mod::lemma_mod_multiples_basic(
                (m * pow2((e - 1074) as nat)) as int,
                pow2(1074) as int,
            );
        } else if exp >= 1023 {
            let sh = (1075 - exp) as nat;
            // 2^1074 = 2^e * 2^sh, so divisibility reduces to the mantissa.
            vstd::arithmetic::power2::lemma_pow2_adds(e, sh);
            vstd::arithmetic::div_mod::lemma_truncate_middle(
                m as int,
                pow2(e) as int,
                pow2(sh) as int,
            );
            assert((pow2(e) * m as int) % (pow2(e) * pow2(sh)) as int == pow2(e) * (m as int
                % pow2(sh) as int));
            assert(f64_mag_scaled(bits) as int == pow2(e) * m as int) by (nonlinear_arith)
                requires
                    f64_mag_scaled(bits) == m * pow2(e),
            ;
            assert(integral_bits(bits) == (m % pow2(sh) == 0)) by {
                if m as int % pow2(sh) as int == 0 {
                } else {
                    assert(pow2(e) * (m as int % pow2(sh) as int) > 0) by (nonlinear_arith)
                        requires
                            pow2(e) >= 1,
                            m as int % pow2(sh) as int > 0,
                    ;
                }
            }
            // The implied bit contributes nothing modulo 2^sh.
            assert(sh <= 52);
            vstd::arithmetic::power2::lemma_pow2_adds(sh, (52 - sh) as nat);
            assert(m as int == pow2(sh) as int * pow2((52 - sh) as nat) as int + frac as int)
                by (nonlinear_arith)
                requires
                    m == 0x10000000000000 + frac,
                    pow2(52) == 0x10000000000000,
                    pow2(52) == pow2(sh) * pow2((52 - sh) as nat),
            ;
            vstd::arithmetic::div_mod::lemma_mod_multiples_vanish(
                pow2((52 - sh) as nat) as int,
                frac as int,
                pow2(sh) as int,
            );
        } else {
            // A normal value below one is never an integer.
            vstd::arithmetic::power2::lemma_pow2_adds(52, e);
            assert(f64_mag_scaled(bits) < pow2(53) * pow2(e)) by (nonlinear_arith)
                requires
                    f64_mag_scaled(bits) == m * pow2(e),
                    m < pow2(53),
                    pow2(e) >= 1,
            ;
            vstd::arithmetic::power2::lemma_pow2_adds(53, e);
            if 53 + e <= 1074 {
                if 53 + e < 1074 {
                    vstd::arithmetic::power2::lemma_pow2_strictly_increases(53 + e, 1074);
                }
            }
            assert(f64_mag_scaled(bits) < pow2(1074));
            assert(f64_mag_scaled(bits) >= pow2(52) * pow2(e) > 0) by (nonlinear_arith)
                requires
                    f64_mag_scaled(bits) == m * pow2(e),
                    m >= pow2(52),
                    pow2(52) >= 1,
                    pow2(e) >= 1,
            ;
            vstd::arithmetic::div_mod::lemma_small_mod(f64_mag_scaled(bits), pow2(1074));
        }
    }
}

/// The magnitude is within `2^(k)` exactly when the exponent field is
/// small enough, with equality possible only on a bare power of two.
proof fn lemma_mag_vs_pow(bits: u64, k: nat)
    requires
        finite_bits(bits),
        k == 1137 || k == 1138,
    ensures
        (f64_mag_scaled(bits) <= pow2(k)) == (f64_exp(bits) < k - 51 || (f64_exp(bits) == k - 51
            && f64_frac(bits) == 0)),
{
    vstd::arithmetic::power2::lemma2_to64();
    vstd::arithmetic::power2::lemma2_to64_rest();
    let frac = f64_frac(bits);
    let exp = f64_exp(bits);
    assert(frac < 0x10000000000000) by (bit_vector)
        requires
            frac == bits & 0xFFFFFFFFFFFFF,
    ;
    lemma_mag_range(bits);
    vstd::arithmetic::power2::lemma_pow2_pos(k);
    if exp == 0 {
        vstd::arithmetic::power2::lemma_pow2_strictly_increases(52, k);
    } else {
        let e = (exp - 1) as nat;
        if exp < k - 51 {
            // Strictly below: the magnitude tops out under 2^(52 + exp).
            if 52 + exp < k {
                vstd::arithmetic::power2::lemma_pow2_strictly_increases((52 + exp) as nat, k);
            }
        } else if exp == k - 51 {
            // Equality demands a bare power of two.
            vstd::arithmetic::power2::lemma_pow2_adds(52, e);
            assert(pow2(k) == pow2(52) * pow2(e));
            if frac == 0 {
                assert(f64_mag_scaled(bits) == pow2(52) * pow2(e)) by (nonlinear_arith)
                    requires
                        f64_mag_scaled(bits) == (0x10000000000000 + frac) * pow2(e),
                        frac == 0,
                        pow2(52) == 0x10000000000000,
                ;
            } else {
                assert(f64_mag_scaled(bits) > pow2(52) * pow2(e)) by (nonlinear_arith)
                    requires
                        f64_mag_scaled(bits) == (0x10000000000000 + frac) * pow2(e),
                        frac > 0,
                        pow2(52) == 0x10000000000000,
                        pow2(e) >= 1,
                ;
                vstd::arithmetic::power2::lemma_pow2_pos(e);
            }
        } else {
            // Strictly above: the magnitude starts past 2^(51 + exp).
            vstd::arithmetic::power2::lemma_pow2_strictly_increases(k, (51 + exp) as nat);
        }
    }
}

/// Represents a JSON number: a finite binary64 value, held as its bit
/// pattern, together with its canonical decimal rendering, produced at the
/// parsing boundary.
#[derive(Debug)]
pub struct Number {
    bits: u64,
    text: String,
}

/// The abstract value of a number: its bit pattern and its canonical text.
pub struct NumberV {
    /// The IEEE 754 binary64 bit pattern.
    pub bits: u64,
    /// The canonical decimal rendering.
    pub text: Seq<char>,
}

impl View for Number {
    type V = NumberV;

    closed spec fn view(&self) -> NumberV {
        NumberV { bits: self.bits, text: self.text@ }
    }
}

impl Clone for Number {
    fn clone(&self) -> (r: Self)
        ensures
            r@ == self@,
    {
        Number { bits: self.bits, text: self.text.clone() }
    }
}

impl PartialEq for Number {
    fn eq(&self, other: &Self) -> (r: bool) {
        self.equals_exact(other)
    }
}

impl vstd::std_specs::cmp::PartialEqSpecImpl for Number {
    open spec fn obeys_eq_spec() -> bool {
        true
    }

    open spec fn eq_spec(&self, other: &Self) -> bool {
        same_f64(self@.bits, other@.bits)
    }
}

impl Number {
    /// Creates a new number from a binary64 bit pattern and its canonical
    /// text, after validating finiteness.
    pub fn new(bits: u64, text: String) -> (r: Result<Self, CanonicalizeError>)
        ensures
            match r {
                Ok(n) => finite_bits(bits) && n@.bits == bits && n@.text == text@,
                Err(e) => {
                    &&& !finite_bits(bits)
                    &&& e matches CanonicalizeError::NotFinite { value }
                    &&& value@ == text@
                },
            },
    {
        let exp = (bits >> 52) & 0x7FF;
        if exp != 0x7FF {
            Ok(Number { bits, text })
        } else {
            Err(CanonicalizeError::NotFinite { value: text })
        }
    }

    /// Returns the raw bit pattern of the value.
    pub fn get(&self) -> (r: u64)
        ensures
            r == self@.bits,
    {
        self.bits
    }

    /// Returns the canonical decimal rendering of the value.
    pub fn text(&self) -> (r: &str)
        ensures
            r@ == self@.text,
    {
        self.text.as_str()
    }

    /// The held bit pattern denotes a finite value.
    pub open spec fn is_finite(&self) -> bool {
        finite_bits(self@.bits)
    }

    /// Compares two numbers using the provided absolute tolerance, given as
    /// the bit pattern of a non-negative finite binary64 value. The
    /// comparison `|a - b| <= precision` is exact.
    pub fn equals_with_precision(&self, other: &Self, precision: u64) -> (r: bool)
        requires
            self.is_finite(),
            other.is_finite(),
            finite_bits(precision),
            !f64_is_neg(precision),
        ensures
            r == within_tolerance(self@.bits, other@.bits, precision),
    {
        tolerance_compare(self.bits, other.bits, precision)
    }

    /// Compares two numbers for exact value equality: identical bit
    /// patterns, or zeros of either sign.
    pub fn equals_exact(&self, other: &Self) -> (r: bool)
        ensures
            r == same_f64(self@.bits, other@.bits),
    {
        if self.bits == other.bits {
            return true;
        }
        // Distinct bit patterns denote the same value only for the two zeros.
        let zero_self = self.bits == 0 || self.bits == 0x8000000000000000;
        let zero_other = other.bits == 0 || other.bits == 0x8000000000000000;
        proof {
            lemma_same_f64_by_bits(self.bits, other.bits);
        }
        zero_self && zero_other
    }

    /// Computes the hash code of the number: the FNV-1a hash of the 8
    /// little-endian bytes of the bit pattern.
    pub fn hash_code(&self) -> (r: HashCode)
        ensures
            r@ == hash_of(le_bytes(self@.bits)),
    {
        let bytes = crate::hash::u64_to_le_bytes(self.bits);
        let r = hash_bytes(bytes.as_slice())
        ;
        r
    }
}

/// Two bit patterns denote the same value exactly when they are equal or
/// both denote a zero.
proof fn lemma_same_f64_by_bits(a: u64, b: u64)
    ensures
        same_f64(a, b) == (a == b || ((a == 0 || a == 0x8000000000000000) && (b == 0 || b
            == 0x8000000000000000))),
{
    vstd::arithmetic::power2::lemma2_to64();
    if a == b {
    } else {
        lemma_zero_bits(a);
        lemma_zero_bits(b);
        if f64_val_scaled(a) == f64_val_scaled(b) {
            if f64_val_scaled(a) == 0 {
            } else {
                lemma_equal_scaled_equal_bits(a, b);
            }
        }
    }
}

/// A bit pattern scales to zero exactly when it is one of the two zeros.
proof fn lemma_zero_bits(a: u64)
    ensures
        (f64_val_scaled(a) == 0) == (a == 0 || a == 0x8000000000000000),
{
    vstd::arithmetic::power2::lemma2_to64();
    if f64_exp(a) == 0 {
        assert((f64_frac(a) == 0 && (a >> 52) & 0x7FF == 0) == (a == 0 || a
            == 0x8000000000000000)) by (bit_vector);
    } else {
        vstd::arithmetic::power2::lemma_pow2_pos((f64_exp(a) - 1) as nat);
        assert((0x10000000000000 + f64_frac(a)) * pow2((f64_exp(a) - 1) as nat) > 0)
            by (nonlinear_arith)
            requires
                pow2((f64_exp(a) - 1) as nat) >= 1,
        ;
        assert(!(a == 0 || a == 0x8000000000000000) || (a >> 52) & 0x7FF == 0) by (bit_vector);
    }
}

/// Two nonzero finite values with equal scaled values have equal bits.
proof fn lemma_equal_scaled_equal_bits(a: u64, b: u64)
    requires
        f64_val_scaled(a) == f64_val_scaled(b),
        f64_val_scaled(a) != 0,
    ensures
        a == b,
{
    vstd::arithmetic::power2::lemma2_to64();
    assert(a >> 63 == 0 || a >> 63 == 1) by (bit_vector);
    assert(b >> 63 == 0 || b >> 63 == 1) by (bit_vector);
    assert(f64_is_neg(a) == f64_is_neg(b));
    assert(f64_mag_scaled(a) == f64_mag_scaled(b));
    lemma_mag_injective(a, b);
    let sa = f64_is_neg(a);
    let sb = f64_is_neg(b);
    let ea = f64_exp(a);
    let eb = f64_exp(b);
    let fa = f64_frac(a);
    let fb = f64_frac(b);
    assert(a == b) by (bit_vector)
        requires
            (a >> 63) == (b >> 63),
            (a >> 52) & 0x7FF == (b >> 52) & 0x7FF,
            a & 0xFFFFFFFFFFFFF == b & 0xFFFFFFFFFFFFF,
            (a >> 63) == 1 || (a >> 63) == 0,
            (b >> 63) == 1 || (b >> 63) == 0,
    ;
}

/// The scaled magnitude determines exponent and fraction for nonzero values.
proof fn lemma_mag_injective(a: u64, b: u64)
    requires
        f64_mag_scaled(a) == f64_mag_scaled(b),
        f64_mag_scaled(a) != 0,
    ensures
        f64_exp(a) == f64_exp(b),
        f64_frac(a) == f64_frac(b),
{
    vstd::arithmetic::power2::lemma2_to64();
    vstd::arithmetic::power2::lemma2_to64_rest();
    assert(f64_frac(a) < 0x10000000000000) by (bit_vector);
    assert(f64_frac(b) < 0x10000000000000) by (bit_vector);
    lemma_mag_range(a);
    lemma_mag_range(b);
    if f64_exp(a) == f64_exp(b) {
        if f64_exp(a) != 0 {
            vstd::arithmetic::power2::lemma_pow2_pos((f64_exp(a) - 1) as nat);
            assert(f64_frac(a) == f64_frac(b)) by (nonlinear_arith)
                requires
                    (0x10000000000000 + f64_frac(a)) * pow2((f64_exp(a) - 1) as nat) == (
                    0x10000000000000 + f64_frac(b)) * pow2((f64_exp(a) - 1) as nat),
                    pow2((f64_exp(a) - 1) as nat) >= 1,
            ;
        }
    } else {
        let (lo, hi) = if f64_exp(a) < f64_exp(b) {
            (a, b)
        } else {
            (b, a)
        };
        assert(f64_exp(lo) < f64_exp(hi));
        // Magnitude ranges per exponent are disjoint, so the magnitudes differ.
        if f64_exp(lo) == 0 {
            assert(f64_mag_scaled(lo) < pow2(52));
            if 52 < 51 + f64_exp(hi) {
                vstd::arithmetic::power2::lemma_pow2_strictly_increases(
                    52,
                    (51 + f64_exp(hi)) as nat,
                );
            }
            assert(f64_mag_scaled(hi) >= pow2(52));
        } else {
            vstd::arithmetic::power2::lemma_pow2_strictly_increases(
                (51 + f64_exp(lo)) as nat,
                (51 + f64_exp(hi)) as nat,
            );
            assert(f64_mag_scaled(lo) < pow2((52 + f64_exp(lo)) as nat));
            assert(f64_mag_scaled(hi) >= pow2((51 + f64_exp(hi)) as nat));
            assert(pow2((52 + f64_exp(lo)) as nat) <= pow2((51 + f64_exp(hi)) as nat)) by {
                if 52 + f64_exp(lo) < 51 + f64_exp(hi) {
                    vstd::arithmetic::power2::lemma_pow2_strictly_increases(
                        (52 + f64_exp(lo)) as nat,
                        (51 + f64_exp(hi)) as nat,
                    );
                }
            }
        }
    }
}

/// Bounds of the scaled magnitude by exponent class.
proof fn lemma_mag_range(a: u64)
    ensures
        f64_exp(a) == 0 ==> f64_mag_scaled(a) < pow2(52),
        f64_exp(a) != 0 ==> pow2((51 + f64_exp(a)) as nat) <= f64_mag_scaled(a) < pow2(
            (52 + f64_exp(a)) as nat,
        ),
{
    vstd::arithmetic::power2::lemma2_to64();
    vstd::arithmetic::power2::lemma2_to64_rest();
    assert(f64_frac(a) < 0x10000000000000) by (bit_vector);
    if f64_exp(a) != 0 {
        let e = (f64_exp(a) - 1) as nat;
        vstd::arithmetic::power2::lemma_pow2_adds(52, e);
        vstd::arithmetic::power2::lemma_pow2_adds(53, e);
        vstd::arithmetic::power2::lemma_pow2_pos(e);
        assert(pow2(52) * pow2(e) <= (0x10000000000000 + f64_frac(a)) * pow2(e) && (
        0x10000000000000 + f64_frac(a)) * pow2(e) < pow2(53) * pow2(e)) by (nonlinear_arith)
            requires
                pow2(e) >= 1,
                pow2(52) == 0x10000000000000,
                pow2(53) == 0x20000000000000,
                f64_frac(a) < 0x10000000000000,
        ;
        assert(51 + f64_exp(a) == 52 + e && 52 + f64_exp(a) == 53 + e);
    }
}

} // verus!
