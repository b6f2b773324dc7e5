//! Numbers as decimal text.

use crate::single::{
    lemma_pow2_128, power_of_two, round_half_even, single_exponent, single_mantissa, single_sign,
    Single,
};
use vstd::arithmetic::power2::{
    lemma2_to64, lemma_pow2_adds, lemma_pow2_pos, lemma_pow2_strictly_increases, pow2,
};
use vstd::prelude::*;
use vstd::string::StringExecFns;

verus! {

/// The character of a decimal digit.
pub open spec fn digit_char(d: nat) -> char {
    (0x30 + d) as char
}

/// The decimal numeral of `n`, without leading zeros.
pub open spec fn decimal(n: nat) -> Seq<char>
    decreases n,
{
    if n < 10 {
        seq![digit_char(n)]
    } else {
        decimal(n / 10).push(digit_char(n % 10))
    }
}

/// The four decimal digits of a number below ten thousand, zeros included.
pub open spec fn four_digits(n: nat) -> Seq<char> {
    seq![
        digit_char(n / 1000 % 10),
        digit_char(n / 100 % 10),
        digit_char(n / 10 % 10),
        digit_char(n % 10),
    ]
}

/// The magnitude of a finite binary32 number in ten-thousandths, rounded to the
/// nearest integer, a tie going to the even one.
pub open spec fn ten_thousandths(bits: u32) -> nat {
    let e = single_exponent(bits) as int;
    let m = single_mantissa(bits) as nat;
    let sig = if e == 0 {
        m
    } else {
        0x800000 + m
    };
    let ex = if e == 0 {
        1
    } else {
        e
    };
    let up = if ex >= 150 {
        (ex - 150) as nat
    } else {
        0
    };
    let down = if ex < 150 {
        (150 - ex) as nat
    } else {
        0
    };
    round_half_even(sig * 10000 * pow2(up), pow2(down))
}

/// A binary32 number in fixed notation with four decimal places: a minus sign
/// where the sign bit is set, the whole part without leading zeros, a point and
/// four digits. The infinities read `inf` and `-inf`, any other pattern of
/// exponent 255 reads `NaN`.
pub open spec fn fixed_text(bits: u32) -> Seq<char> {
    if single_exponent(bits) == 0xff {
        if single_mantissa(bits) != 0 {
            "NaN"@
        } else if single_sign(bits) != 0 {
            "-inf"@
        } else {
            "inf"@
        }
    } else {
        let n = ten_thousandths(bits);
        (if single_sign(bits) != 0 {
            "-"@
        } else {
            Seq::empty()
        }) + decimal(n / 10000) + "."@ + four_digits(n % 10000)
    }
}

fn digit_text(d: u8) -> (s: &'static str)
    requires
        d < 10,
    ensures
        s@ == seq![digit_char(d as nat)],
{
    proof {
        reveal_strlit("0");
        reveal_strlit("1");
        reveal_strlit("2");
        reveal_strlit("3");
        reveal_strlit("4");
        reveal_strlit("5");
        reveal_strlit("6");
        reveal_strlit("7");
        reveal_strlit("8");
        reveal_strlit("9");
    }
    let s = match d {
        0 => "0",
        1 => "1",
        2 => "2",
        3 => "3",
        4 => "4",
        5 => "5",
        6 => "6",
        7 => "7",
        8 => "8",
        _ => "9",
    };
    assert(s@ =~= seq![digit_char(d as nat)]);
    s
}

/// Appends the decimal numeral of `n`.
pub fn push_decimal(out: &mut String, n: u128)
    ensures
        final(out)@ == old(out)@ + decimal(n as nat),
    decreases n,
{
    if n >= 10 {
        push_decimal(out, n / 10);
    }
    out.append(digit_text((n % 10) as u8));
    assert(final(out)@ =~= old(out)@ + decimal(n as nat));
}

fn push_four_digits(out: &mut String, n: u64)
    requires
        n < 10000,
    ensures
        final(out)@ == old(out)@ + four_digits(n as nat),
{
    out.append(digit_text((n / 1000 % 10) as u8));
    out.append(digit_text((n / 100 % 10) as u8));
    out.append(digit_text((n / 10 % 10) as u8));
    out.append(digit_text((n % 10) as u8));
    assert(final(out)@ =~= old(out)@ + four_digits(n as nat));
}

/// The decimal numeral of `n`.
pub fn decimal_text(n: u128) -> (s: String)
    ensures
        s@ == decimal(n as nat),
{
    let mut s = String::new();
    push_decimal(&mut s, n);
    assert(Seq::<char>::empty() + decimal(n as nat) =~= decimal(n as nat));
    s
}

/// Appends a binary32 number in fixed notation with four decimal places.
pub fn push_fixed(out: &mut String, x: Single)
    ensures
        final(out)@ == old(out)@ + fixed_text(x.bits),
{
    let bits = x.bits;
    let sign: u32 = bits >> 31;
    let e: u32 = (bits >> 23) & 0xff;
    let m: u32 = bits & 0x7fffff;
    assert(e <= 0xff && m <= 0x7fffff) by (bit_vector)
        requires
            e == (bits >> 23) & 0xff,
            m == bits & 0x7fffff,
    ;
    if e == 0xff {
        if m != 0 {
            out.append("NaN");
        } else if sign != 0 {
            out.append("-inf");
        } else {
            out.append("inf");
        }
        return ;
    }
    let sig: u128 = if e == 0 {
        m as u128
    } else {
        0x800000 + m as u128
    };
    let ex: u32 = if e == 0 {
        1
    } else {
        e
    };
    let ghost n = ten_thousandths(bits);
    let whole: u128;
    let part: u64;
    proof {
        lemma2_to64();
    }
    if ex >= 150 {
        let p = power_of_two(ex - 150);
        proof {
            lemma_pow2_128();
            lemma_pow2_adds(24, 104);
            lemma_pow2_pos((ex - 150) as nat);
            if ex - 150 < 104 {
                lemma_pow2_strictly_increases((ex - 150) as nat, 104);
            }
            assert(sig * p < 0x1000000 * pow2(104)) by (nonlinear_arith)
                requires
                    0 <= sig < 0x1000000,
                    0 < p <= pow2(104),
            ;
            assert(n == sig * 10000 * p);
            assert(sig * 10000 * p == (sig * p) * 10000) by (nonlinear_arith);
        }
        whole = sig * p;
        part = 0;
    } else if 150 - ex >= 40 {
        proof {
            let d = pow2((150 - ex) as nat);
            if 150 - ex > 40 {
                lemma_pow2_strictly_increases(40, (150 - ex) as nat);
            }
            lemma_pow2_adds(32, 8);
            assert(pow2(40) == 0x100_0000_0000);
            let num = sig * 10000;
            assert(num * pow2(0) == num) by (nonlinear_arith)
                requires
                    pow2(0) == 1,
            ;
            assert(2 * num < d);
            assert(num / (d as int) == 0 && num % (d as int) == num) by (nonlinear_arith)
                requires
                    0 <= num < d,
            ;
            assert(n == 0);
        }
        whole = 0;
        part = 0;
    } else {
        let p: u128 = power_of_two(150 - ex);
        let num: u128 = sig * 10000;
        proof {
            lemma_pow2_strictly_increases((150 - ex) as nat, 40);
            lemma_pow2_pos((150 - ex) as nat);
            lemma_pow2_adds(32, 8);
            assert(num * pow2(0) == num) by (nonlinear_arith)
                requires
                    pow2(0) == 1,
            ;
        }
        let q: u128 = num / p;
        let r: u128 = num % p;
        let scaled: u128 = if 2 * r > p || (2 * r == p && q % 2 == 1) {
            q + 1
        } else {
            q
        };
        assert(scaled == n);
        whole = scaled / 10000;
        part = (scaled % 10000) as u64;
    }
    assert(whole == n / 10000 && part == n % 10000);
    let ghost before = out@;
    if sign != 0 {
        out.append("-");
    }
    let ghost signed = out@;
    push_decimal(out, whole);
    out.append(".");
    push_four_digits(out, part);
    proof {
        assert(sign == single_sign(bits));
        assert(signed == before + (if single_sign(bits) != 0 {
            "-"@
        } else {
            Seq::empty()
        }));
        assert(out@ =~= before + fixed_text(bits));
    }
}

} // verus!
