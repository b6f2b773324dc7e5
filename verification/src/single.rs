//! Single-precision numbers, held by their IEEE-754 binary32 bit pattern.

use vstd::arithmetic::power2::{
    lemma2_to64, lemma2_to64_rest, lemma_pow2_adds, lemma_pow2_pos, lemma_pow2_strictly_increases,
    lemma_pow2_unfold, pow2,
};
use vstd::prelude::*;

verus! {

/// A binary32 number, identified by its bit pattern.
#[derive(Debug, Clone, Copy, PartialEq, Eq, Structural)]
pub struct Single {
    pub bits: u32,
}

/// The sign bit of a binary16 pattern.
pub open spec fn half_sign(half: u16) -> u16 {
    (half >> 15) & 0x1
}

/// The five exponent bits of a binary16 pattern.
pub open spec fn half_exponent(half: u16) -> u16 {
    (half >> 10) & 0x1f
}

/// The ten mantissa bits of a binary16 pattern.
pub open spec fn half_mantissa(half: u16) -> u16 {
    half & 0x3ff
}

/// The sign bit of a binary32 pattern.
pub open spec fn single_sign(bits: u32) -> u32 {
    bits >> 31
}

/// The eight exponent bits of a binary32 pattern.
pub open spec fn single_exponent(bits: u32) -> u32 {
    (bits >> 23) & 0xff
}

/// The 23 mantissa bits of a binary32 pattern.
pub open spec fn single_mantissa(bits: u32) -> u32 {
    bits & 0x7fffff
}

/// The binary32 pattern with the given fields.
pub open spec fn single_of_fields(sign: u32, exponent: u32, mantissa: u32) -> u32 {
    (sign << 31) | (exponent << 23) | mantissa
}

/// Widening of binary16 to binary32: the sign is kept, the exponent is rebiased
/// from 15 to 127 and the mantissa moves from 10 to 23 bits. A pattern with zero
/// exponent and zero mantissa widens to positive zero; subnormals and the
/// special values get no treatment of their own.
pub open spec fn widen(half: u16) -> u32 {
    if half_exponent(half) == 0 && half_mantissa(half) == 0 {
        0
    } else {
        single_of_fields(
            half_sign(half) as u32,
            (half_exponent(half) + 112) as u32,
            (half_mantissa(half) as u32) << 13,
        )
    }
}

/// Narrowing of binary32 to binary16 by dropping the low 13 mantissa bits and
/// rebiasing the exponent from 127 to 15.
pub open spec fn narrow(bits: u32) -> int {
    single_sign(bits) * 0x8000 + (single_exponent(bits) - 112) * 0x400 + single_mantissa(bits)
        / 0x2000
}

/// Widens a half-precision pattern to single precision.
pub fn half_to_single(half: u16) -> (r: Single)
    ensures
        r.bits == widen(half),
{
    let sign: u16 = (half >> 15) & 0x1;
    let exponent: u16 = (half >> 10) & 0x1f;
    let mantissa: u16 = half & 0x3ff;
    if exponent == 0 && mantissa == 0 {
        return Single { bits: 0 };
    }
    assert(exponent <= 0x1f) by (bit_vector)
        requires
            exponent == (half >> 10) & 0x1f,
    ;
    let exp: u32 = exponent as u32 + 112;
    Single { bits: ((sign as u32) << 31) | (exp << 23) | ((mantissa as u32) << 13) }
}

/// The fields of a widened pattern are those of the half it came from.
pub proof fn lemma_widen_fields(half: u16)
    requires
        half_exponent(half) != 0 || half_mantissa(half) != 0,
    ensures
        single_sign(widen(half)) == half_sign(half),
        single_exponent(widen(half)) == half_exponent(half) + 112,
        single_mantissa(widen(half)) == half_mantissa(half) * 0x2000,
{
    let s = half_sign(half) as u32;
    let e = (half_exponent(half) + 112) as u32;
    let m = half_mantissa(half) as u32;
    assert(half_sign(half) <= 1 && half_exponent(half) <= 0x1f && half_mantissa(half) <= 0x3ff)
        by (bit_vector)
        requires
            half_sign(half) == (half >> 15) & 0x1,
            half_exponent(half) == (half >> 10) & 0x1f,
            half_mantissa(half) == half & 0x3ff,
    ;
    let bits = (s << 31) | (e << 23) | (m << 13);
    assert(bits >> 31 == s && (bits >> 23) & 0xff == e && bits & 0x7fffff == m * 0x2000)
        by (bit_vector)
        requires
            s <= 1,
            e <= 143,
            m <= 0x3ff,
            bits == (s << 31) | (e << 23) | (m << 13),
    ;
}

/// Widening loses nothing but the sign of zero: narrowing a widened pattern
/// gives the pattern back, unless its exponent and mantissa are both zero, in
/// which case the result is positive zero.
pub proof fn lemma_widen_round_trip(half: u16)
    ensures
        half_exponent(half) != 0 || half_mantissa(half) != 0 ==> narrow(widen(half)) == half,
        half_exponent(half) == 0 && half_mantissa(half) == 0 ==> widen(half) == 0 && (half == 0
            || half == 0x8000),
{
    if half_exponent(half) != 0 || half_mantissa(half) != 0 {
        lemma_widen_fields(half);
        let s = half_sign(half);
        let e = half_exponent(half);
        let m = half_mantissa(half);
        assert(half == s * 0x8000 + e * 0x400 + m && m <= 0x3ff && e <= 0x1f && s <= 1)
            by (bit_vector)
            requires
                s == (half >> 15) & 0x1,
                e == (half >> 10) & 0x1f,
                m == half & 0x3ff,
        ;
    } else {
        assert(half == 0 || half == 0x8000) by (bit_vector)
            requires
                (half >> 10) & 0x1f == 0,
                half & 0x3ff == 0,
        ;
    }
}

/// The number of binary digits of `n`; zero has none.
pub open spec fn bit_length(n: nat) -> nat
    decreases n,
{
    if n == 0 {
        0
    } else {
        1 + bit_length(n / 2)
    }
}

/// The quotient of `num` by `den`, rounded to the nearest integer, a tie going
/// to the even neighbour.
pub open spec fn round_half_even(num: nat, den: nat) -> nat {
    let q = num / den;
    let r = num % den;
    if 2 * r > den || (2 * r == den && q % 2 == 1) {
        q + 1
    } else {
        q
    }
}

/// The binary32 pattern of the number nearest to the integer `n`, a tie going to
/// the even mantissa. Integers of up to 24 binary digits are represented
/// exactly; those beyond the largest finite number give positive infinity.
pub open spec fn nearest_single(n: nat) -> u32 {
    let len = bit_length(n);
    if n == 0 {
        0
    } else if len <= 24 {
        ((len + 126) * 0x800000 + (n * pow2((24 - len) as nat) - 0x800000)) as u32
    } else if len <= 128 {
        ((len + 126) * 0x800000 + (round_half_even(n, pow2((len - 24) as nat)) - 0x800000)) as u32
    } else {
        0x7f800000
    }
}

/// The integer that a binary32 pattern denotes, where it denotes one that is
/// not negative: positive zero, or a positive normal number without a
/// fractional part. Negative zero, like every negative number, denotes none.
pub open spec fn integer_of_single(bits: u32) -> Option<nat> {
    let e = single_exponent(bits) as nat;
    let sig = (0x800000 + single_mantissa(bits)) as nat;
    if bits == 0 {
        Some(0)
    } else if single_sign(bits) != 0 || e < 127 || e == 255 {
        None
    } else if e >= 150 {
        Some(sig * pow2((e - 150) as nat))
    } else if sig % pow2((150 - e) as nat) == 0 {
        Some(sig / pow2((150 - e) as nat))
    } else {
        None
    }
}

/// The integer that a binary32 pattern denotes, where it fits in 32 bits.
pub open spec fn index_of_single(bits: u32) -> Option<u32> {
    match integer_of_single(bits) {
        Some(n) => if n <= u32::MAX {
            Some(n as u32)
        } else {
            None
        },
        None => None,
    }
}

/// A positive integer lies between the two powers of two that its number of
/// binary digits names.
pub proof fn lemma_bit_length_bounds(n: nat)
    requires
        n > 0,
    ensures
        bit_length(n) >= 1,
        pow2((bit_length(n) - 1) as nat) <= n < pow2(bit_length(n)),
    decreases n,
{
    lemma2_to64();
    if n == 1 {
        assert(bit_length(1) == 1 + bit_length(0));
    } else {
        lemma_bit_length_bounds(n / 2);
        let l = bit_length(n / 2);
        lemma_pow2_unfold(l);
        lemma_pow2_unfold(l + 1);
    }
}

/// Integers of up to 24 binary digits are represented exactly: the nearest
/// number denotes the integer itself. So bytes and 16-bit integers lose nothing
/// when they are read as single-precision numbers.
pub proof fn lemma_small_integers_exact(n: nat)
    requires
        n < 0x1000000,
    ensures
        integer_of_single(nearest_single(n)) == Some(n),
{
    lemma2_to64();
    if n > 0 {
        lemma_bit_length_bounds(n);
        lemma_bit_length_le(n, 24);
        let len = bit_length(n);
        let p = pow2((24 - len) as nat);
        let lo = pow2((len - 1) as nat);
        let hi = pow2(len);
        lemma_pow2_adds((len - 1) as nat, (24 - len) as nat);
        lemma_pow2_adds(len, (24 - len) as nat);
        lemma_pow2_pos((24 - len) as nat);
        assert(lo * p <= n * p < hi * p) by (nonlinear_arith)
            requires
                lo <= n < hi,
                p > 0,
        ;
        let e = (len + 126) as u32;
        let m = (n * p - 0x800000) as u32;
        let bits = nearest_single(n);
        assert(bits == e * 0x800000 + m);
        assert(bits >> 31 == 0 && (bits >> 23) & 0xff == e && bits & 0x7fffff == m && bits != 0)
            by (bit_vector)
            requires
                127 <= e <= 150,
                m < 0x800000,
                bits == e * 0x800000 + m,
        ;
        let sig = (0x800000 + m) as nat;
        assert(sig == n * p);
        if len < 24 {
            assert((n * p) % p == 0 && (n * p) / p == n) by (nonlinear_arith)
                requires
                    p > 0,
            ;
        } else {
            assert(n * p == n) by (nonlinear_arith)
                requires
                    p == 1,
            ;
        }
    }
}

/// An integer of `2^128` or more lies beyond the finite numbers.
pub proof fn lemma_huge_is_infinite(n: nat)
    requires
        n > u128::MAX,
    ensures
        nearest_single(n) == 0x7f800000,
{
    lemma_bit_length_bounds(n);
    lemma_pow2_128();
    if bit_length(n) < 128 {
        lemma_pow2_strictly_increases(bit_length(n), 128);
    }
}

pub proof fn lemma_pow2_128()
    ensures
        pow2(128) == 0x1_0000_0000_0000_0000_0000_0000_0000_0000,
{
    lemma2_to64();
    lemma2_to64_rest();
    lemma_pow2_adds(64, 64);
}

/// An integer below `2^k` has at most `k` binary digits.
pub proof fn lemma_bit_length_le(n: nat, k: nat)
    requires
        n < pow2(k),
    ensures
        bit_length(n) <= k,
{
    if n > 0 {
        lemma_bit_length_bounds(n);
        if bit_length(n) > k {
            if bit_length(n) - 1 > k {
                lemma_pow2_strictly_increases(k, (bit_length(n) - 1) as nat);
            }
        }
    }
}

/// Two to the power `k`.
pub(crate) fn power_of_two(k: u32) -> (p: u128)
    requires
        k < 128,
    ensures
        p == pow2(k as nat),
{
    let mut p: u128 = 1;
    let mut i: u32 = 0;
    proof {
        lemma2_to64();
    }
    while i < k
        invariant
            i <= k,
            k < 128,
            p == pow2(i as nat),
        decreases k - i,
    {
        proof {
            lemma_pow2_unfold((i + 1) as nat);
            lemma_pow2_128();
            lemma_pow2_strictly_increases((i + 1) as nat, 128);
        }
        p = p * 2;
        i += 1;
    }
    p
}

/// The number of binary digits of `n`.
fn binary_digits(n: u128) -> (len: u32)
    ensures
        len == bit_length(n as nat),
        len <= 128,
{
    proof {
        lemma_pow2_128();
        lemma_bit_length_le(n as nat, 128);
    }
    let mut t: u128 = n;
    let mut len: u32 = 0;
    while t > 0
        invariant
            bit_length(n as nat) == len + bit_length(t as nat),
            bit_length(n as nat) <= 128,
        decreases t,
    {
        t = t / 2;
        len += 1;
    }
    len
}

impl Single {
    /// Positive infinity.
    pub fn infinity() -> (r: Single)
        ensures
            r.bits == 0x7f800000,
    {
        Single { bits: 0x7f800000 }
    }

    /// The unsigned 32-bit integer equal to this number, if there is one.
    pub fn to_index(self) -> (r: Option<u32>)
        ensures
            r == index_of_single(self.bits),
    {
        let bits = self.bits;
        if bits == 0 {
            return Some(0);
        }
        let sign: u32 = bits >> 31;
        let e: u32 = (bits >> 23) & 0xff;
        let m: u32 = bits & 0x7fffff;
        assert(e <= 0xff && m <= 0x7fffff) by (bit_vector)
            requires
                e == (bits >> 23) & 0xff,
                m == bits & 0x7fffff,
        ;
        if sign != 0 || e < 127 || e == 255 {
            return None;
        }
        let sig: u64 = 0x800000 + m as u64;
        proof {
            lemma2_to64();
        }
        if e >= 150 {
            if e - 150 >= 9 {
                proof {
                    let k = (e - 150) as nat;
                    if k > 9 {
                        lemma_pow2_strictly_increases(9, k);
                    }
                    assert(sig * pow2(k) > u32::MAX) by (nonlinear_arith)
                        requires
                            sig >= 0x800000,
                            pow2(k) >= 512,
                    ;
                }
                None
            } else {
                let p = power_of_two(e - 150);
                proof {
                    if e - 150 < 8 {
                        lemma_pow2_strictly_increases((e - 150) as nat, 8);
                    }
                    assert(sig * p <= 0xffffffff) by (nonlinear_arith)
                        requires
                            sig <= 0xffffff,
                            0 < p <= 256,
                    ;
                }
                Some((sig * (p as u64)) as u32)
            }
        } else {
            let p = power_of_two(150 - e);
            proof {
                lemma_pow2_pos((150 - e) as nat);
                lemma_pow2_strictly_increases((150 - e) as nat, 24);
            }
            let p: u64 = p as u64;
            if sig % p == 0 {
                Some((sig / p) as u32)
            } else {
                None
            }
        }
    }

    /// The number nearest to the integer `n`.
    pub fn from_integer(n: u128) -> (r: Single)
        ensures
            r.bits == nearest_single(n as nat),
    {
        if n == 0 {
            return Single { bits: 0 };
        }
        let len = binary_digits(n);
        proof {
            lemma_bit_length_bounds(n as nat);
            lemma2_to64();
        }
        if len <= 24 {
            let scale = power_of_two(24 - len);
            proof {
                lemma_pow2_adds((len - 1) as nat, (24 - len) as nat);
                lemma_pow2_adds(len as nat, (24 - len) as nat);
                let lo = pow2((len - 1) as nat);
                let hi = pow2(len as nat);
                assert(lo * scale <= n * scale < hi * scale) by (nonlinear_arith)
                    requires
                        lo <= n < hi,
                        scale > 0,
                ;
            }
            let m: u128 = n * scale;
            Single { bits: (len + 126) * 0x800000 + (m as u32 - 0x800000) }
        } else {
            let d = power_of_two(len - 24);
            proof {
                lemma_pow2_adds(23, (len - 24) as nat);
                lemma_pow2_adds(24, (len - 24) as nat);
                lemma_pow2_pos((len - 24) as nat);
                lemma_pow2_128();
                lemma_pow2_strictly_increases((len - 24) as nat, 127);
                lemma_pow2_unfold(128);
            }
            let q: u128 = n / d;
            let r: u128 = n % d;
            proof {
                assert(0x800000 <= q < 0x1000000) by (nonlinear_arith)
                    requires
                        0x800000 * d <= n < 0x1000000 * d,
                        d > 0,
                        q == n / d,
                ;
            }
            let up = 2 * r > d || (2 * r == d && q % 2 == 1);
            let m: u128 = if up {
                q + 1
            } else {
                q
            };
            Single { bits: (len + 126) * 0x800000 + (m as u32 - 0x800000) }
        }
    }
}

} // verus!
