//! Signed fixed-point numbers with 64 fractional bits.
//!
//! A `Fixed` stores the integer `raw` and stands for the real number
//! `raw / 2^64`. Every operation is total or says what it needs, rounds
//! toward zero, and clamps to the representable range instead of wrapping.
use vstd::arithmetic::div_mod::{
    lemma_div_is_ordered, lemma_div_multiples_vanish, lemma_fundamental_div_mod_converse,
};
use vstd::arithmetic::mul::lemma_mul_inequality;
use vstd::arithmetic::power2::{
    lemma2_to64, lemma_pow2_pos, lemma_pow2_strictly_increases, lemma_pow2_unfold, pow2,
};
use vstd::prelude::*;

verus! {

/// The raw value that stands for the number one: `2^64`.
pub const SCALE: u128 = 0x1_0000_0000_0000_0000;

/// One more than the largest raw value, as a magnitude: `2^127`.
pub const HALF_RANGE: u128 = 0x8000_0000_0000_0000_0000_0000_0000_0000;

/// A fixed-point number; `raw` counts units of `2^-64`.
#[derive(Clone, Copy, Debug, PartialEq, Eq, Structural)]
pub struct Fixed {
    pub raw: i128,
}

impl View for Fixed {
    type V = int;

    open spec fn view(&self) -> int {
        self.raw as int
    }
}

/// Clamps an integer to the range of raw values.
pub open spec fn saturate(v: int) -> i128 {
    if v > i128::MAX {
        i128::MAX
    } else if v < i128::MIN {
        i128::MIN
    } else {
        v as i128
    }
}

/// Whether an integer is in the range of raw values, so that clamping leaves
/// it as it is.
pub open spec fn fits(v: int) -> bool {
    i128::MIN <= v <= i128::MAX
}

/// The absolute value of an integer.
pub open spec fn magnitude(v: int) -> int {
    if v < 0 {
        -v
    } else {
        v
    }
}

/// The quotient of `n` by `d` rounded toward zero; meaningful for `d != 0`.
pub open spec fn trunc_div(n: int, d: int) -> int {
    if (n < 0) == (d < 0) {
        magnitude(n) / magnitude(d)
    } else {
        -(magnitude(n) / magnitude(d))
    }
}

/// The magnitude of a raw value.
fn unsigned_magnitude(v: i128) -> (m: u128)
    ensures
        m == magnitude(v as int),
        m <= HALF_RANGE,
{
    if v >= 0 {
        v as u128
    } else if v == i128::MIN {
        HALF_RANGE
    } else {
        (-v) as u128
    }
}

/// The number with the given sign and magnitude, clamped to the raw range.
/// `None` stands for any magnitude of `2^127` or more.
fn from_sign_magnitude(negative: bool, m: Option<u128>) -> (r: Fixed)
    requires
        m matches Some(v) ==> v < HALF_RANGE,
    ensures
        m matches Some(v) ==> r.raw == (if negative {
            -(v as int)
        } else {
            v as int
        }),
        m is None ==> r.raw == (if negative {
            i128::MIN
        } else {
            i128::MAX
        }),
{
    match m {
        Some(v) => {
            let raw = v as i128;
            if negative {
                Fixed { raw: -raw }
            } else {
                Fixed { raw }
            }
        },
        None => if negative {
            Fixed { raw: i128::MIN }
        } else {
            Fixed { raw: i128::MAX }
        },
    }
}

/// `a * b / 2^64` rounded down, or `None` when that is `2^127` or more.
fn mul_magnitudes(a: u128, b: u128) -> (q: Option<u128>)
    requires
        a <= HALF_RANGE,
        b <= HALF_RANGE,
    ensures
        q matches Some(v) ==> v == (a * b) / (SCALE as int) && v < HALF_RANGE,
        q is None ==> (a * b) / (SCALE as int) >= HALF_RANGE,
{
    let a_hi = a / SCALE;
    let a_lo = a % SCALE;
    let b_hi = b / SCALE;
    let b_lo = b % SCALE;
    assert(a_hi * b_hi <= 0x8000_0000_0000_0000 * 0x8000_0000_0000_0000) by (nonlinear_arith)
        requires
            a_hi <= 0x8000_0000_0000_0000,
            b_hi <= 0x8000_0000_0000_0000,
    ;
    assert(a_hi * b_lo <= 0x8000_0000_0000_0000 * 0xffff_ffff_ffff_ffff) by (nonlinear_arith)
        requires
            a_hi <= 0x8000_0000_0000_0000,
            b_lo <= 0xffff_ffff_ffff_ffff,
    ;
    assert(a_lo * b_hi <= 0xffff_ffff_ffff_ffff * 0x8000_0000_0000_0000) by (nonlinear_arith)
        requires
            a_lo <= 0xffff_ffff_ffff_ffff,
            b_hi <= 0x8000_0000_0000_0000,
    ;
    assert(a_lo * b_lo <= 0xffff_ffff_ffff_ffff * 0xffff_ffff_ffff_ffff) by (nonlinear_arith)
        requires
            a_lo <= 0xffff_ffff_ffff_ffff,
            b_lo <= 0xffff_ffff_ffff_ffff,
    ;
    let high = a_hi * b_hi;
    let cross_1 = a_hi * b_lo;
    let cross_2 = a_lo * b_hi;
    let low = a_lo * b_lo;
    let carry = low / SCALE;
    proof {
        let s = SCALE as int;
        let total = high * s + cross_1 + cross_2 + carry;
        assert(a * b == total * s + (low % SCALE)) by (nonlinear_arith)
            requires
                a == a_hi * s + a_lo,
                b == b_hi * s + b_lo,
                high == a_hi * b_hi,
                cross_1 == a_hi * b_lo,
                cross_2 == a_lo * b_hi,
                low == a_lo * b_lo,
                low == carry * s + (low % SCALE),
                total == high * s + cross_1 + cross_2 + carry,
        ;
        lemma_fundamental_div_mod_converse(a * b, s, total, (low % SCALE) as int);
    }
    if high >= 0x8000_0000_0000_0000 {
        return None;
    }
    let sum_1 = high * SCALE + cross_1;
    if sum_1 >= HALF_RANGE {
        return None;
    }
    let sum_2 = sum_1 + cross_2;
    if sum_2 >= HALF_RANGE {
        return None;
    }
    let sum_3 = sum_2 + carry;
    if sum_3 >= HALF_RANGE {
        return None;
    }
    Some(sum_3)
}

/// `a * 2^64 / b` rounded down, or `None` when that is `2^127` or more.
fn div_magnitudes(a: u128, b: u128) -> (q: Option<u128>)
    requires
        a <= HALF_RANGE,
        0 < b <= HALF_RANGE,
    ensures
        q matches Some(v) ==> v == (a * SCALE) / (b as int) && v < HALF_RANGE,
        q is None ==> (a * SCALE) / (b as int) >= HALF_RANGE,
{
    let mut quotient = a / b;
    let mut remainder = a % b;
    let mut bits: u32 = 0;
    proof {
        lemma2_to64();
        assert(a == quotient * b + remainder) by (nonlinear_arith)
            requires
                b > 0,
                quotient == a / b,
                remainder == a % b,
        ;
    }
    while bits < 64
        invariant_except_break
            bits <= 64,
            remainder < b,
            a * pow2(bits as nat) == quotient * b + remainder,
        invariant
            0 < b <= HALF_RANGE,
            a <= HALF_RANGE,
            pow2(64) == SCALE,
        ensures
            (quotient >= HALF_RANGE && (a * SCALE) / (b as int) >= HALF_RANGE) || (remainder < b
                && a * SCALE == quotient * b + remainder),
        decreases 64 - bits,
    {
        if quotient >= HALF_RANGE {
            proof {
                lemma_quotient_only_grows(
                    a as int,
                    b as int,
                    quotient as int,
                    remainder as int,
                    bits as nat,
                );
            }
            break ;
        }
        let ghost old_quotient = quotient;
        let ghost old_remainder = remainder;
        quotient = quotient * 2;
        if remainder >= b - remainder {
            remainder = remainder - (b - remainder);
            quotient = quotient + 1;
        } else {
            remainder = remainder * 2;
        }
        proof {
            lemma_pow2_unfold((bits + 1) as nat);
            let p = pow2(bits as nat) as int;
            assert(a * (2 * p) == quotient * b + remainder) by (nonlinear_arith)
                requires
                    a * p == old_quotient * b + old_remainder,
                    (quotient == 2 * old_quotient + 1 && remainder == 2 * old_remainder - b) || (
                    quotient == 2 * old_quotient && remainder == 2 * old_remainder),
            ;
        }
        bits = bits + 1;
    }
    proof {
        if remainder < b && a * SCALE == quotient * b + remainder {
            lemma_fundamental_div_mod_converse(
                a * SCALE,
                b as int,
                quotient as int,
                remainder as int,
            );
        }
    }
    if quotient >= HALF_RANGE {
        None
    } else {
        Some(quotient)
    }
}

/// Once the running quotient of the long division has reached `2^127`, the
/// full quotient is at least as large.
proof fn lemma_quotient_only_grows(a: int, b: int, quotient: int, remainder: int, bits: nat)
    requires
        0 <= a,
        0 < b,
        0 <= remainder,
        bits <= 64,
        a * pow2(bits) == quotient * b + remainder,
        pow2(64) == SCALE,
    ensures
        (a * SCALE) / b >= quotient,
{
    lemma_pow2_pos(bits);
    if bits < 64 {
        lemma_pow2_strictly_increases(bits, 64);
    }
    lemma_mul_inequality(pow2(bits) as int, SCALE as int, a);
    assert(a * pow2(bits) <= a * SCALE) by (nonlinear_arith)
        requires
            pow2(bits) * a <= SCALE * a,
    ;
    assert(quotient * b <= a * SCALE);
    lemma_div_is_ordered(quotient * b, a * SCALE, b);
    lemma_div_multiples_vanish(quotient, b);
    assert((b * quotient) / b == quotient);
    assert(quotient * b == b * quotient) by (nonlinear_arith);
}

/// Rounding toward zero commutes with negation: `(-n) / d == -(n / d)`.
pub proof fn lemma_trunc_div_negated(n: int, d: int)
    requires
        d != 0,
    ensures
        trunc_div(-n, d) == -trunc_div(n, d),
{
    if n == 0 {
        assert(0int / magnitude(d) == 0);
    }
}

impl Fixed {
    /// The sum, clamped to the representable range.
    pub open spec fn spec_add(self, rhs: Fixed) -> Fixed {
        Fixed { raw: saturate(self.raw + rhs.raw) }
    }

    /// The difference, clamped to the representable range.
    pub open spec fn spec_sub(self, rhs: Fixed) -> Fixed {
        Fixed { raw: saturate(self.raw - rhs.raw) }
    }

    /// The product, rounded toward zero and clamped.
    pub open spec fn spec_mul(self, rhs: Fixed) -> Fixed {
        Fixed { raw: saturate(trunc_div(self.raw * rhs.raw, SCALE as int)) }
    }

    /// The quotient, rounded toward zero and clamped; meaningful for a
    /// divisor other than zero.
    pub open spec fn spec_div(self, rhs: Fixed) -> Fixed {
        Fixed { raw: saturate(trunc_div(self.raw * SCALE, rhs.raw as int)) }
    }

    /// The product with a whole number, clamped.
    pub open spec fn spec_mul_int(self, k: u64) -> Fixed {
        Fixed { raw: saturate(self.raw * k) }
    }

    /// The quotient by a whole number, rounded toward zero; meaningful for
    /// `k > 0`.
    pub open spec fn spec_div_int(self, k: u64) -> Fixed {
        Fixed { raw: saturate(trunc_div(self.raw as int, k as int)) }
    }

    /// Whether the number is greater than zero.
    pub open spec fn spec_is_positive(self) -> bool {
        self.raw > 0
    }

    /// The number with the given raw value.
    pub fn from_raw(raw: i128) -> (r: Fixed)
        ensures
            r.raw == raw,
    {
        Fixed { raw }
    }

    /// The whole number `n`.
    pub fn from_int(n: i64) -> (r: Fixed)
        ensures
            r.raw == n * SCALE,
    {
        Fixed { raw: (n as i128) * 0x1_0000_0000_0000_0000 }
    }

    /// The number zero.
    pub fn zero() -> (r: Fixed)
        ensures
            r.raw == 0,
    {
        Fixed { raw: 0 }
    }

    /// Whether the number is greater than zero.
    #[verifier::when_used_as_spec(spec_is_positive)]
    pub fn is_positive(self) -> (b: bool)
        ensures
            b == self.spec_is_positive(),
    {
        self.raw > 0
    }

    /// `self + rhs`, clamped to the representable range.
    #[verifier::when_used_as_spec(spec_add)]
    pub fn add(self, rhs: Fixed) -> (r: Fixed)
        ensures
            r == self.spec_add(rhs),
    {
        match self.raw.checked_add(rhs.raw) {
            Some(raw) => Fixed { raw },
            None => if rhs.raw > 0 {
                Fixed { raw: i128::MAX }
            } else {
                Fixed { raw: i128::MIN }
            },
        }
    }

    /// `self - rhs`, clamped to the representable range.
    #[verifier::when_used_as_spec(spec_sub)]
    pub fn sub(self, rhs: Fixed) -> (r: Fixed)
        ensures
            r == self.spec_sub(rhs),
    {
        match self.raw.checked_sub(rhs.raw) {
            Some(raw) => Fixed { raw },
            None => if rhs.raw < 0 {
                Fixed { raw: i128::MAX }
            } else {
                Fixed { raw: i128::MIN }
            },
        }
    }

    /// `self * rhs`, rounded toward zero and clamped to the representable
    /// range.
    #[verifier::when_used_as_spec(spec_mul)]
    pub fn mul(self, rhs: Fixed) -> (r: Fixed)
        ensures
            r == self.spec_mul(rhs),
    {
        let negative = (self.raw < 0) != (rhs.raw < 0);
        let a = unsigned_magnitude(self.raw);
        let b = unsigned_magnitude(rhs.raw);
        let q = mul_magnitudes(a, b);
        proof {
            let x = self.raw as int;
            let y = rhs.raw as int;
            assert(magnitude(x * y) == magnitude(x) * magnitude(y) && (x * y < 0 ==> negative)
                && (x * y > 0 ==> !negative)) by (nonlinear_arith)
                requires
                    negative == ((x < 0) != (y < 0)),
            ;
        }
        from_sign_magnitude(negative, q)
    }

    /// `self / rhs` for a divisor other than zero, rounded toward zero and
    /// clamped to the representable range.
    #[verifier::when_used_as_spec(spec_div)]
    pub fn div(self, rhs: Fixed) -> (r: Fixed)
        requires
            rhs.raw != 0,
        ensures
            r == self.spec_div(rhs),
    {
        let negative = (self.raw < 0) != (rhs.raw < 0);
        let a = unsigned_magnitude(self.raw);
        let b = unsigned_magnitude(rhs.raw);
        let q = div_magnitudes(a, b);
        proof {
            let x = self.raw as int;
            assert(magnitude(x * SCALE) == magnitude(x) * SCALE && (x * SCALE < 0 <==> x < 0))
                by (nonlinear_arith);
        }
        from_sign_magnitude(negative, q)
    }

    /// `self * k`, clamped to the representable range.
    #[verifier::when_used_as_spec(spec_mul_int)]
    pub fn mul_int(self, k: u64) -> (r: Fixed)
        ensures
            r == self.spec_mul_int(k),
    {
        match self.raw.checked_mul(k as i128) {
            Some(raw) => Fixed { raw },
            None => {
                proof {
                    let x = self.raw as int;
                    assert((x > 0 ==> x * k >= 0) && (x <= 0 ==> x * k <= 0)) by (nonlinear_arith)
                        requires
                            k >= 0,
                    ;
                }
                if self.raw > 0 {
                    Fixed { raw: i128::MAX }
                } else {
                    Fixed { raw: i128::MIN }
                }
            },
        }
    }

    /// `self / k` for `k` greater than zero, rounded toward zero.
    #[verifier::when_used_as_spec(spec_div_int)]
    pub fn div_int(self, k: u64) -> (r: Fixed)
        requires
            k > 0,
        ensures
            r == self.spec_div_int(k),
    {
        let a = unsigned_magnitude(self.raw);
        let q = a / (k as u128);
        proof {
            assert(q <= a) by (nonlinear_arith)
                requires
                    q == a / (k as u128),
                    k > 0,
            ;
        }
        if q >= HALF_RANGE {
            Fixed { raw: i128::MIN }
        } else if self.raw < 0 {
            Fixed { raw: -(q as i128) }
        } else {
            Fixed { raw: q as i128 }
        }
    }
}

} // verus!
