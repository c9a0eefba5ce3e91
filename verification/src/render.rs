//! The numeric half of the renderer: scale a magnitude down by the selected
//! power of the base and write the quotient in decimal with a fixed number of
//! fractional digits, rounding half away from zero.
//!
//! All arithmetic is exact. The value printed for magnitude `m`, divisor
//! `d = base^tier` and precision `p` is `(2 * m * 10^p + d) / (2 * d)` read
//! as an integer with the last `p` digits behind the decimal point.

use crate::digits::char_digit;
use crate::digits::dec_digits;
use crate::digits::dec_pad;
use crate::digits::dec_u128;
use crate::digits::increment_digits;
use crate::digits::is_digit_char;
use crate::digits::lemma_inc_pad;
use crate::digits::lemma_pow10_unfold;
use crate::digits::pow10;
use crate::tier::ideal_unit_iterative;
use crate::tier::lemma_pow_fits;
use crate::tier::lemma_pow_le_exp;
use crate::tier::lemma_tier_bounds;
use crate::tier::pow_exec;
use crate::tier::spec_tier;
use vstd::arithmetic::div_mod::lemma_fundamental_div_mod;
use vstd::arithmetic::div_mod::lemma_fundamental_div_mod_converse;
use vstd::arithmetic::div_mod::lemma_multiply_divide_lt;
use vstd::arithmetic::power::pow;
use vstd::prelude::*;

verus! {

/// The scaled magnitude rounded half away from zero at `p` fractional
/// digits, as a plain integer carrying the fraction in its last `p` digits.
pub open spec fn spec_rounded(m: nat, d: nat, p: nat) -> nat
    recommends
        d >= 1,
{
    (2 * m * pow10(p) + d) / (2 * d)
}

/// The digit text of the scaled magnitude: integer digits, then a decimal
/// point and exactly `p` fractional digits when `p > 0`.
pub open spec fn spec_number(m: nat, base: nat, p: nat) -> Seq<char>
    recommends
        base >= 2,
        m >= base,
{
    let v = spec_rounded(m, pow(base as int, spec_tier(m, base)) as nat, p);
    if p == 0 {
        dec_digits(v)
    } else {
        dec_digits(v / pow10(p)) + seq!['.'] + dec_pad(v, p)
    }
}

/// Splitting the rounded value at the decimal point: quotient digits, the
/// truncated fraction, and a final half-up increment.
pub proof fn lemma_rounded_decompose(q: nat, r: nat, d: nat, p: nat)
    requires
        d >= 1,
        r < d,
    ensures
        ({
            let u = (r * pow10(p)) / d;
            let rem = (r * pow10(p)) % d;
            let inc: nat = if 2 * rem >= d {
                1
            } else {
                0
            };
            &&& spec_rounded(q * d + r, d, p) == q * pow10(p) + u + inc
            &&& u + inc <= pow10(p)
            &&& u < pow10(p)
        }),
{
    let t10 = pow10(p);
    lemma_pow10_unfold(p);
    let a = r * t10;
    let u = a / d;
    let rem = a % d;
    let inc: nat = if 2 * rem >= d {
        1
    } else {
        0
    };
    lemma_fundamental_div_mod(a as int, d as int);
    assert(a == d * u + rem);
    assert(a < d * t10) by (nonlinear_arith)
        requires
            r < d,
            t10 >= 1,
            a == r * t10,
    {}
    lemma_multiply_divide_lt(a as int, d as int, t10 as int);
    assert(u < t10);
    let m = q * d + r;
    let n = 2 * m * t10 + d;
    let w = (u + inc) as nat;
    let slack: int = 2 * (rem as int) + (d as int) - 2 * (d as int) * (inc as int);
    assert(n as int == (2 * (d as int)) * ((q * t10 + w) as int) + slack) by (nonlinear_arith)
        requires
            n == 2 * (q * d + r) * t10 + d,
            a == r * t10,
            a == d * u + rem,
            w == u + inc,
            slack == 2 * (rem as int) + (d as int) - 2 * (d as int) * (inc as int),
            inc == if 2 * rem >= d { 1nat } else { 0nat },
    {}
    assert(0 <= slack < 2 * (d as int)) by {
        if 2 * rem >= d {
            assert(inc == 1);
            assert(2 * rem < 2 * d);
        } else {
            assert(inc == 0);
        }
    };
    vstd::arithmetic::mul::lemma_mul_is_commutative(2 * (d as int), (q * t10 + w) as int);
    lemma_fundamental_div_mod_converse(n as int, 2 * (d as int), (q * t10 + w) as int, slack);
    assert(spec_rounded(m, d, p) == n / (2 * d));
    assert(n / (2 * d) == q * t10 + w);
}

/// Produces the `p` fractional digits of `r / d` (most significant first),
/// returning the remainder that is still unaccounted for.
fn fraction_digits(r: u128, d: u128, p: usize) -> (out: (Vec<char>, u128))
    requires
        1 <= d,
        r < d,
        d < 0x100000000000000000000000000,
    ensures
        out.0@ == dec_pad((r as nat * pow10(p as nat)) / d as nat, p as nat),
        out.1 == (r as nat * pow10(p as nat)) % d as nat,
        out.1 < d,
        forall|i: int| 0 <= i < out.0@.len() ==> is_digit_char(#[trigger] out.0@[i]),
{
    let mut frac: Vec<char> = Vec::new();
    let mut rem: u128 = r;
    let mut j: usize = 0;
    proof {
        vstd::arithmetic::power::lemma_pow0(10);
        assert(r as nat * pow10(0) == r) by (nonlinear_arith)
            requires
                pow10(0) == 1,
        {}
        assert(frac@ =~= dec_pad((r as nat * pow10(0)) / d as nat, 0));
        vstd::arithmetic::div_mod::lemma_small_mod(r as nat, d as nat);
        vstd::arithmetic::div_mod::lemma_basic_div(r as int, d as int);
    }
    while j < p
        invariant
            1 <= d < 0x100000000000000000000000000,
            j <= p,
            frac@ == dec_pad((r as nat * pow10(j as nat)) / d as nat, j as nat),
            rem == (r as nat * pow10(j as nat)) % d as nat,
            rem < d,
            frac@.len() == j,
            forall|i: int| 0 <= i < frac@.len() ==> is_digit_char(#[trigger] frac@[i]),
        decreases p - j,
    {
        let ghost a = r as nat * pow10(j as nat);
        let ghost u = a / d as nat;
        proof {
            lemma_fundamental_div_mod(a as int, d as int);
        }
        let wide: u128 = rem * 10;
        let digit: u128 = wide / d;
        let new_rem: u128 = wide % d;
        proof {
            let a2 = r as nat * pow10((j + 1) as nat);
            lemma_pow10_unfold(j as nat);
            assert(a2 == a * 10) by (nonlinear_arith)
                requires
                    a == r as nat * pow10(j as nat),
                    a2 == r as nat * pow10((j + 1) as nat),
                    pow10((j + 1) as nat) == 10 * pow10(j as nat),
            {}
            lemma_fundamental_div_mod(wide as int, d as int);
            assert(wide == d * digit + new_rem);
            assert(digit < 10) by {
                assert(wide < 10 * d);
                lemma_multiply_divide_lt(wide as int, d as int, 10);
            };
            assert(a2 == d as nat * (u * 10 + digit as nat) + new_rem as nat) by (nonlinear_arith)
                requires
                    a2 == a * 10,
                    a == d as nat * u + rem as nat,
                    wide == rem * 10,
                    wide == d * digit + new_rem,
            {}
            lemma_fundamental_div_mod_converse(
                a2 as int,
                d as int,
                (u * 10 + digit as nat) as int,
                new_rem as int,
            );
            assert(a2 / d as nat == u * 10 + digit as nat);
            assert(a2 % d as nat == new_rem as nat);
            assert((u * 10 + digit as nat) / 10 == u && (u * 10 + digit as nat) % 10
                == digit as nat) by {
                lemma_fundamental_div_mod_converse(
                    (u * 10 + digit as nat) as int,
                    10,
                    u as int,
                    digit as int,
                );
            };
            assert(dec_pad(a2 / d as nat, (j + 1) as nat) =~= frac@.push(
                char_digit(digit as nat),
            ));
        }
        frac.push((48 + (digit as u8)) as char);
        rem = new_rem;
        j = j + 1;
    }
    (frac, rem)
}

/// Renders `m / base^tier` with `p` fractional digits, rounding half away
/// from zero, entirely in integer arithmetic.
pub fn render_number(m: u128, base: u64, p: usize) -> (out: Vec<char>)
    requires
        2 <= base <= 8192,
        m >= base,
        m < pow(base as int, 7),
    ensures
        out@ == spec_number(m as nat, base as nat, p as nat),
{
    proof {
        lemma_tier_bounds(m as nat, base as nat);
    }
    let t = ideal_unit_iterative(m, base);
    proof {
        if t > 6 {
            lemma_pow_le_exp(base as nat, 7, t as nat);
        }
    }
    let d = pow_exec(base, t);
    proof {
        lemma_pow_fits(base as nat, t as nat);
    }
    let q = m / d;
    let r = m % d;
    proof {
        lemma_fundamental_div_mod(m as int, d as int);
        assert(m < d * (base as nat)) by {
            vstd::arithmetic::power::lemma_pow1(base as int);
            vstd::arithmetic::power::lemma_pow_adds(base as int, t as nat, 1);
            assert(pow(base as int, (t + 1) as nat) == d * (base as int));
        };
        lemma_multiply_divide_lt(m as int, d as int, base as int);
        assert(q < base);
    }
    let (mut frac, rem) = fraction_digits(r, d, p);
    let ghost u = (r as nat * pow10(p as nat)) / d as nat;
    let ghost inc_spec: nat = if 2 * (rem as nat) >= d as nat {
        1
    } else {
        0
    };
    proof {
        lemma_rounded_decompose(q as nat, r as nat, d as nat, p as nat);
        assert(q as nat * d as nat + r as nat == m as nat) by (nonlinear_arith)
            requires
                m as nat == d as nat * q as nat + r as nat,
        {}
        assert(spec_rounded(m as nat, d as nat, p as nat) == q as nat * pow10(p as nat) + u
            + inc_spec);
    }
    let ghost v = spec_rounded(m as nat, d as nat, p as nat);
    let ghost p10 = pow10(p as nat);
    let ghost did_inc = inc_spec == 1;
    let mut whole: u128 = q;
    if rem * 2 >= d {
        let carry = increment_digits(&mut frac);
        proof {
            lemma_inc_pad(u, p as nat);
            assert(frac@ == dec_pad(u + 1, p as nat));
            assert(carry == (u == p10 - 1));
        }
        if carry {
            whole = whole + 1;
        }
    }
    assert((did_inc && u + 1 == p10 && whole == q + 1 && frac@ == dec_pad(u + 1, p as nat)) || (
    did_inc && u + 1 < p10 && whole == q && frac@ == dec_pad(u + 1, p as nat)) || (!did_inc && whole
        == q && frac@ == dec_pad(u, p as nat)));
    proof {
        lemma_pow10_unfold(p as nat);
        let fval: nat = if did_inc && u + 1 == p10 {
            0
        } else if did_inc {
            u + 1
        } else {
            u
        };
        assert(v == whole as nat * p10 + fval) by {
            assert(v == q as nat * p10 + u + inc_spec);
            if did_inc && u + 1 == p10 {
                assert((q as nat + 1) * p10 == q as nat * p10 + p10) by (nonlinear_arith) {}
            }
        };
        assert(fval < p10);
        lemma_fundamental_div_mod_converse(v as int, p10 as int, whole as int, fval as int);
        assert(v / p10 == whole as nat);
        lemma_dec_pad_mod(v, p as nat);
        if did_inc && u + 1 == p10 {
            lemma_dec_pad_mod(p10, p as nat);
            vstd::arithmetic::div_mod::lemma_mod_self_0(p10 as int);
            assert(dec_pad(v, p as nat) == frac@);
        } else {
            assert(v % p10 == fval);
            assert(dec_pad(v, p as nat) == frac@);
        }
    }
    let mut out = dec_u128(whole);
    if p > 0 {
        out.push('.');
        let mut k: usize = 0;
        let ghost head = out@;
        while k < frac.len()
            invariant
                k <= frac@.len(),
                out@ =~= head + frac@.subrange(0, k as int),
            decreases frac@.len() - k,
        {
            let c = frac[k];
            out.push(c);
            proof {
                assert(out@ =~= head + frac@.subrange(0, (k + 1) as int));
            }
            k = k + 1;
        }
        proof {
            assert(frac@.subrange(0, frac@.len() as int) =~= frac@);
            assert(out@ =~= dec_digits(v / pow10(p as nat)) + seq!['.'] + dec_pad(v, p as nat));
        }
    } else {
        proof {
            vstd::arithmetic::power::lemma_pow0(10);
            assert(pow10(0) == 1);
            vstd::arithmetic::div_mod::lemma_div_basics(v as int);
            assert(v == whole as nat);
            assert(out@ =~= dec_digits(v));
        }
    }
    out
}

/// The padded digit string only reads the number's last `p` digits.
pub proof fn lemma_dec_pad_mod(n: nat, p: nat)
    ensures
        dec_pad(n, p) == dec_pad(n % pow10(p), p),
    decreases p,
{
    lemma_pow10_unfold(p);
    if p == 0 {
        assert(dec_pad(n, 0) =~= dec_pad(n % pow10(0), 0));
    } else {
        lemma_dec_pad_mod(n / 10, (p - 1) as nat);
        let t9 = pow10((p - 1) as nat);
        lemma_pow10_unfold((p - 1) as nat);
        lemma_fundamental_div_mod(n as int, 10);
        let k = n % pow10(p);
        assert(k == n % (10 * t9));
        vstd::arithmetic::div_mod::lemma_breakdown(n as int, 10, t9 as int);
        assert(n % (10 * t9) == 10 * ((n / 10) % t9) + n % 10);
        assert(k / 10 == (n / 10) % t9 && k % 10 == n % 10) by {
            vstd::arithmetic::div_mod::lemma_mod_bound(n as int, 10);
            vstd::arithmetic::div_mod::lemma_mod_bound((n / 10) as int, t9 as int);
            lemma_fundamental_div_mod_converse(
                k as int,
                10,
                ((n / 10) % t9) as int,
                (n % 10) as int,
            );
        };
        assert((n / 10) % t9 == (n / 10) % pow10((p - 1) as nat));
        assert(dec_pad(n, p) =~= dec_pad(n % pow10(p), p));
    }
}

} // verus!
