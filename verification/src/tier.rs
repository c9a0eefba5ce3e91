//! Ideal-unit selection: given a magnitude and a unit base, pick the largest
//! prefix tier `t` such that `base^t` still fits into the magnitude.
//!
//! Two interchangeable selectors are provided: one divides the magnitude down
//! (no power table needed), the other searches upward through the powers of
//! the base (the integer counterpart of an exponent estimate). Both are
//! proved to return the floor of the base-`base` logarithm, so they agree on
//! every magnitude.

use vstd::arithmetic::logarithm::log;
use vstd::arithmetic::power::pow;
use vstd::prelude::*;

verus! {

/// The tier selected for a magnitude: how many times the base divides into it
/// before the quotient drops below the base.
pub open spec fn spec_tier(m: nat, base: nat) -> nat
    recommends
        base >= 2,
    decreases m,
{
    if base < 2 || m < base || m / base >= m {
        0
    } else {
        (1 + spec_tier(m / base, base)) as nat
    }
}

/// With a real base the termination guard in `spec_tier` never fires: the
/// quotient always shrinks, so the recursive branch is taken exactly when the
/// magnitude still holds the base.
pub proof fn lemma_tier_unfold(m: nat, base: nat)
    requires
        base >= 2,
        m >= base,
    ensures
        m / base < m,
        m / base >= 1,
        spec_tier(m, base) == 1 + spec_tier(m / base, base),
{
    vstd::arithmetic::div_mod::lemma_div_is_strictly_smaller(m as int, base as int);
    vstd::arithmetic::div_mod::lemma_div_non_zero(m as int, base as int);
}

/// The division-counting tier equals the floor of the logarithm: the two
/// admissible selector algorithms agree on every magnitude.
pub proof fn lemma_tier_is_log(m: nat, base: nat)
    requires
        base >= 2,
    ensures
        spec_tier(m, base) == log(base as int, m as int),
    decreases m,
{
    reveal(log);
    if m >= base {
        lemma_tier_unfold(m, base);
        lemma_tier_is_log(m / base, base);
    }
}

/// The selected tier is the exponent of the largest power of the base that is
/// at most the magnitude.
pub proof fn lemma_tier_bounds(m: nat, base: nat)
    requires
        base >= 2,
        m >= 1,
    ensures
        pow(base as int, spec_tier(m, base)) <= m < pow(base as int, spec_tier(m, base) + 1),
    decreases m,
{
    reveal(pow);
    if m < base {
        assert(pow(base as int, 1) == base * pow(base as int, 0));
    } else {
        lemma_tier_unfold(m, base);
        lemma_tier_bounds(m / base, base);
        let t = spec_tier(m / base, base);
        assert(spec_tier(m, base) == t + 1);
        assert(pow(base as int, t + 1) == base * pow(base as int, t));
        assert(pow(base as int, t + 2) == base * pow(base as int, t + 1));
        vstd::arithmetic::div_mod::lemma_fundamental_div_mod(m as int, base as int);
        assert(base * pow(base as int, t) <= m) by {
            vstd::arithmetic::mul::lemma_mul_inequality(
                pow(base as int, t),
                (m / base) as int,
                base as int,
            );
            vstd::arithmetic::mul::lemma_mul_is_commutative(pow(base as int, t), base as int);
            vstd::arithmetic::mul::lemma_mul_is_commutative((m / base) as int, base as int);
        };
        assert(m < base * pow(base as int, t + 1)) by {
            vstd::arithmetic::mul::lemma_mul_inequality(
                (m / base + 1) as int,
                pow(base as int, t + 1),
                base as int,
            );
            vstd::arithmetic::mul::lemma_mul_is_commutative((m / base + 1) as int, base as int);
            vstd::arithmetic::mul::lemma_mul_is_commutative(pow(base as int, t + 1), base as int);
            vstd::arithmetic::mul::lemma_mul_is_distributive_add(base as int, (m / base) as int, 1);
        };
    }
}

/// Any exponent whose power brackets the magnitude is the selected tier.
pub proof fn lemma_tier_unique(m: nat, base: nat, t: nat)
    requires
        base >= 2,
        pow(base as int, t) <= m,
        m < pow(base as int, t + 1),
    ensures
        spec_tier(m, base) == t,
{
    vstd::arithmetic::power::lemma_pow_positive(base as int, t);
    lemma_tier_bounds(m, base);
    let s = spec_tier(m, base);
    if s < t {
        lemma_pow_le_exp(base, s + 1, t);
        assert(m < pow(base as int, s + 1));
    } else if s > t {
        lemma_pow_le_exp(base, t + 1, s);
        assert(pow(base as int, s) <= m);
    }
}

/// The tier never exceeds the base-2 logarithm of the largest magnitude.
pub proof fn lemma_tier_max(m: nat, base: nat)
    requires
        base >= 2,
        m <= u128::MAX,
    ensures
        spec_tier(m, base) <= 127,
{
    if m >= 1 {
        lemma_tier_bounds(m, base);
        let t = spec_tier(m, base);
        lemma_pow_le_base(2, base, t);
        if t > 127 {
            lemma_pow_le_exp(2, 128, t);
            vstd::arithmetic::power2::lemma_pow2_adds(64, 64);
            vstd::arithmetic::power2::lemma_pow2(128);
            vstd::arithmetic::power2::lemma_pow2(64);
            vstd::arithmetic::power2::lemma2_to64();
            assert(pow(2, 128) == 0x10000000000000000 * 0x10000000000000000);
        }
    }
}

/// A larger base gives at least as large a power.
pub proof fn lemma_pow_le_base(a: nat, b: nat, t: nat)
    requires
        1 <= a <= b,
    ensures
        1 <= pow(a as int, t) <= pow(b as int, t),
    decreases t,
{
    reveal(pow);
    vstd::arithmetic::power::lemma_pow_positive(a as int, t);
    vstd::arithmetic::power::lemma_pow_positive(b as int, t);
    if t > 0 {
        lemma_pow_le_base(a, b, (t - 1) as nat);
        vstd::arithmetic::mul::lemma_mul_inequality(
            pow(a as int, (t - 1) as nat),
            pow(b as int, (t - 1) as nat),
            a as int,
        );
        vstd::arithmetic::mul::lemma_mul_inequality(a as int, b as int, pow(b as int, (t - 1) as nat));
        vstd::arithmetic::mul::lemma_mul_is_commutative(pow(a as int, (t - 1) as nat), a as int);
        vstd::arithmetic::mul::lemma_mul_is_commutative(pow(b as int, (t - 1) as nat), a as int);
        vstd::arithmetic::mul::lemma_mul_is_commutative(pow(b as int, (t - 1) as nat), b as int);
    }
}

/// Powers of a base stay ordered when the exponent grows.
pub proof fn lemma_pow_le_exp(base: nat, s: nat, t: nat)
    requires
        base >= 1,
        s <= t,
    ensures
        1 <= pow(base as int, s) <= pow(base as int, t),
    decreases t,
{
    reveal(pow);
    vstd::arithmetic::power::lemma_pow_positive(base as int, s);
    if s < t {
        lemma_pow_le_exp(base, s, (t - 1) as nat);
        vstd::arithmetic::mul::lemma_mul_increases(base as int, pow(base as int, (t - 1) as nat));
        vstd::arithmetic::mul::lemma_mul_is_commutative(base as int, pow(base as int, (t - 1) as nat));
    }
}

/// `base^t` stays well below the `u128` range for every tier in use.
pub proof fn lemma_pow_fits(base: nat, t: nat)
    requires
        base <= 8192,
        t <= 7,
    ensures
        pow(base as int, t) <= pow(8192, 7),
        pow(8192, 7) < 0x100000000000000000000000000,
{
    assert(pow(8192, 7) == 0x80000000000000000000000) by {
        vstd::arithmetic::power2::lemma2_to64();
        vstd::arithmetic::power2::lemma2_to64_rest();
        vstd::arithmetic::power2::lemma_pow2(13);
        assert(pow(2, 13) == 8192);
        vstd::arithmetic::power::lemma_pow_multiplies(2, 13, 7);
        assert(pow(8192, 7) == pow(2, 91));
        vstd::arithmetic::power2::lemma_pow2_adds(64, 27);
        vstd::arithmetic::power2::lemma_pow2(91);
        vstd::arithmetic::power2::lemma_pow2(64);
        vstd::arithmetic::power2::lemma_pow2(27);
        assert(pow(2, 91) == 0x10000000000000000 * 0x8000000);
    };
    if base >= 1 {
        lemma_pow_le_base(base, 8192, t);
        lemma_pow_le_exp(8192, t, 7);
    } else {
        lemma_pow_zero_le(t);
    }
}

proof fn lemma_pow_zero_le(t: nat)
    ensures
        0 <= pow(0, t) <= 1,
    decreases t,
{
    reveal(pow);
    if t > 0 {
        lemma_pow_zero_le((t - 1) as nat);
    }
}

/// A power of the base, computed exactly.
pub fn pow_exec(base: u64, t: u64) -> (r: u128)
    requires
        2 <= base <= 8192,
        t <= 7,
    ensures
        r == pow(base as int, t as nat),
        r >= 1,
{
    let mut i: u64 = 0;
    let mut r: u128 = 1;
    proof {
        reveal(pow);
    }
    while i < t
        invariant
            i <= t <= 7,
            2 <= base <= 8192,
            r == pow(base as int, i as nat),
            r >= 1,
        decreases t - i,
    {
        proof {
            lemma_pow_fits(base as nat, (i + 1) as nat);
            vstd::arithmetic::power::lemma_pow1(base as int);
            vstd::arithmetic::power::lemma_pow_adds(base as int, 1, i as nat);
            assert(pow(base as int, (i + 1) as nat) == base * pow(base as int, i as nat));
            assert(r * (base as u128) == pow(base as int, (i + 1) as nat)) by (nonlinear_arith)
                requires
                    r == pow(base as int, i as nat),
                    pow(base as int, (i + 1) as nat) == base * pow(base as int, i as nat),
            {}
            vstd::arithmetic::power::lemma_pow_positive(base as int, (i + 1) as nat);
        }
        r = r * (base as u128);
        i = i + 1;
    }
    r
}

/// Iterative-division selector: divide the magnitude by the base until the
/// quotient drops below the base, counting divisions.
pub fn ideal_unit_iterative(m: u128, base: u64) -> (t: u64)
    requires
        2 <= base,
        m >= base,
    ensures
        t == spec_tier(m as nat, base as nat),
        t >= 1,
{
    let mut x: u128 = m;
    let mut t: u64 = 0;
    proof {
        lemma_tier_max(m as nat, base as nat);
    }
    while x >= base as u128
        invariant
            2 <= base,
            spec_tier(m as nat, base as nat) == t + spec_tier(x as nat, base as nat),
            t >= 1 || x == m,
            t <= spec_tier(m as nat, base as nat) <= 127,
        decreases x,
    {
        proof {
            lemma_tier_unfold(x as nat, base as nat);
        }
        x = x / (base as u128);
        t = t + 1;
    }
    assert(spec_tier(x as nat, base as nat) == 0);
    t
}

/// Power-search selector: walk upward through the powers of the base until
/// the next power would exceed the magnitude. The integer counterpart of the
/// logarithmic exponent estimate, for callers that want no division loop.
pub fn ideal_unit_search(m: u128, base: u64) -> (t: u64)
    requires
        2 <= base <= 8192,
        m >= base,
        m < pow(base as int, 7),
    ensures
        t == spec_tier(m as nat, base as nat),
        1 <= t <= 6,
{
    let mut t: u64 = 1;
    let mut p: u128 = base as u128;
    let mut done: bool = false;
    proof {
        reveal(pow);
        assert(pow(base as int, 1) == base * pow(base as int, 0));
    }
    while !done && t < 6
        invariant
            2 <= base <= 8192,
            1 <= t <= 6,
            m < pow(base as int, 7),
            p == pow(base as int, t as nat),
            p <= m,
            done ==> m < pow(base as int, (t + 1) as nat),
        decreases 6 - t + (if done { 0int } else { 1int }),
    {
        proof {
            lemma_pow_fits(base as nat, (t + 1) as nat);
            vstd::arithmetic::power::lemma_pow1(base as int);
            vstd::arithmetic::power::lemma_pow_adds(base as int, 1, t as nat);
            assert(pow(base as int, (t + 1) as nat) == base * pow(base as int, t as nat));
            assert(p * (base as u128) == pow(base as int, (t + 1) as nat)) by (nonlinear_arith)
                requires
                    p == pow(base as int, t as nat),
                    pow(base as int, (t + 1) as nat) == base * pow(base as int, t as nat),
            {}
        }
        let next: u128 = p * (base as u128);
        if next <= m {
            p = next;
            t = t + 1;
        } else {
            done = true;
        }
    }
    proof {
        if !done {
            lemma_pow_le_exp(base as nat, 7, 7);
        }
        assert(m < pow(base as int, (t + 1) as nat));
        lemma_tier_unique(m as nat, base as nat, t as nat);
    }
    t
}

} // verus!
