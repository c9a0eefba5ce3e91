//! Library-wide guarantees of the renderer, stated and proved once: an exact
//! power of the base always renders as `1.0` with its prefix, and rendered
//! text at the default precision has a fixed small length bound.

use crate::digits::char_digit;
use crate::digits::dec_digits;
use crate::digits::dec_pad;
use crate::digits::lemma_dec_digits_len;
use crate::digits::lemma_dec_digits_shape;
use crate::digits::lemma_dec_pad_shape;
use crate::digits::lemma_pow10_unfold;
use crate::digits::pow10;
use crate::display::spec_render;
use crate::display::Format;
use crate::render::spec_number;
use crate::render::spec_rounded;
use crate::tier::lemma_pow_le_exp;
use crate::tier::lemma_tier_bounds;
use crate::tier::lemma_tier_unique;
use crate::tier::spec_tier;
use vstd::arithmetic::div_mod::lemma_fundamental_div_mod_converse;
use vstd::arithmetic::div_mod::lemma_multiply_divide_lt;
use vstd::arithmetic::power::pow;
use vstd::prelude::*;

verus! {

/// Rendering exactly `base^t` bytes in a long byte format gives `1.0`, the
/// tier's prefix letter, and the format's suffix: the boundary renders
/// cleanly, with no rounding artifact.
pub proof fn lemma_exact_power_renders_one(t: nat, f: Format)
    requires
        1 <= t <= 6,
        f is Iec || f is Si,
    ensures
        spec_render(pow(f.spec_unit() as int, t) as nat, f, 1) == seq!['1', '.', '0']
            + f.spec_separator() + seq![f.spec_prefix(t)] + f.spec_suffix(),
{
    let base = f.spec_unit();
    let m = pow(base as int, t) as nat;
    vstd::arithmetic::power::lemma_pow_positive(base as int, t);
    lemma_pow_le_exp(base, 1, t);
    vstd::arithmetic::power::lemma_pow1(base as int);
    assert(m >= base);
    vstd::arithmetic::power::lemma_pow_strictly_increases(base, t, t + 1);
    lemma_tier_unique(m, base, t);
    let d = m;
    let v = spec_rounded(m, d, 1);
    assert(pow10(1) == 10) by {
        vstd::arithmetic::power::lemma_pow0(10);
        lemma_pow10_unfold(0);
    };
    assert(v == 10) by {
        assert(2 * m * 10 + d == (2 * d) * 10 + d) by (nonlinear_arith)
            requires
                d == m,
        {}
        lemma_fundamental_div_mod_converse((2 * m * 10 + d) as int, 2 * d as int, 10, d as int);
    };
    assert(m * 1 == m) by (nonlinear_arith) {}
    assert(spec_number(m, base, 1) =~= seq!['1', '.', '0']) by {
        assert(v / 10 == 1 && v % 10 == 0);
        assert(dec_digits(1) =~= seq!['1']);
        assert(dec_pad(1, 0) =~= Seq::<char>::empty());
        assert(dec_pad(10, 1) =~= seq![char_digit(0)]);
        assert(char_digit(0) == '0');
        assert('1' == char_digit(1));
    };
}

/// At the default precision every rendering is at most ten characters, and
/// decimal-byte (SI long) renderings at most nine. (Ten is reached: in the
/// binary family a scaled value can round into four integer digits.)
pub proof fn lemma_render_length(bytes: nat, f: Format)
    requires
        bytes <= u64::MAX,
    ensures
        spec_render(bytes, f, 1).len() <= 10,
        2 <= spec_render(bytes, f, 1).len(),
        f is Si ==> spec_render(bytes, f, 1).len() <= 9,
{
    let base = f.spec_unit();
    let m = bytes * (if f.spec_is_bits() {
        8nat
    } else {
        1nat
    });
    assert(pow10(4) == 10000) by {
        vstd::arithmetic::power::lemma_pow0(10);
        lemma_pow10_unfold(0);
        lemma_pow10_unfold(1);
        lemma_pow10_unfold(2);
        lemma_pow10_unfold(3);
    };
    assert(pow10(1) == 10) by {
        vstd::arithmetic::power::lemma_pow0(10);
        lemma_pow10_unfold(0);
    };
    if m < base {
        lemma_dec_digits_len(m, 4);
        lemma_dec_digits_shape(m);
    } else {
        let t = spec_tier(m, base);
        let d = pow(base as int, t) as nat;
        lemma_tier_bounds(m, base);
        vstd::arithmetic::power::lemma_pow_positive(base as int, t);
        let v = spec_rounded(m, d, 1);
        assert(m < d * base) by {
            vstd::arithmetic::power::lemma_pow1(base as int);
            vstd::arithmetic::power::lemma_pow_adds(base as int, t, 1);
            assert(pow(base as int, t + 1) == d * base);
        };
        assert(v <= 10 * base) by {
            assert(2 * m * 10 + d < (2 * d) * (10 * base + 1)) by (nonlinear_arith)
                requires
                    m < d * base,
                    d >= 1,
                    base >= 1,
            {}
            lemma_multiply_divide_lt(
                (2 * m * 10 + d) as int,
                2 * d as int,
                (10 * base + 1) as int,
            );
        };
        assert(v / 10 <= base) by {
            vstd::arithmetic::div_mod::lemma_div_is_ordered(v as int, (10 * base) as int, 10);
            vstd::arithmetic::div_mod::lemma_div_multiples_vanish(base as int, 10);
        };
        assert(v / 10 < 10000);
        lemma_dec_digits_len(v / 10, 4);
        lemma_dec_digits_shape(v / 10);
        lemma_dec_pad_shape(v, 1);
        assert(spec_number(m, base, 1).len() <= 6);
    }
}

/// Wherever the scaled value rounds to fewer than four integer digits — that
/// is, everywhere but the window in which rounding reaches a four-digit
/// quotient, such as a binary tier's `1000.0`-to-`1023.9` band — the
/// rendering stays under ten characters.
pub proof fn lemma_render_length_strict(bytes: nat, f: Format)
    requires
        bytes <= u64::MAX,
        ({
            let m = bytes * (if f.spec_is_bits() {
                8nat
            } else {
                1nat
            });
            m >= f.spec_unit() ==> spec_rounded(
                m,
                pow(f.spec_unit() as int, spec_tier(m, f.spec_unit())) as nat,
                1,
            ) < 10000
        }),
    ensures
        spec_render(bytes, f, 1).len() < 10,
{
    let base = f.spec_unit();
    let m = bytes * (if f.spec_is_bits() {
        8nat
    } else {
        1nat
    });
    assert(pow10(4) == 10000) by {
        vstd::arithmetic::power::lemma_pow0(10);
        lemma_pow10_unfold(0);
        lemma_pow10_unfold(1);
        lemma_pow10_unfold(2);
        lemma_pow10_unfold(3);
    };
    assert(pow10(1) == 10) by {
        vstd::arithmetic::power::lemma_pow0(10);
        lemma_pow10_unfold(0);
    };
    assert(pow10(3) == 1000) by {
        vstd::arithmetic::power::lemma_pow0(10);
        lemma_pow10_unfold(0);
        lemma_pow10_unfold(1);
        lemma_pow10_unfold(2);
    };
    if m < base {
        lemma_dec_digits_len(m, 4);
        lemma_dec_digits_shape(m);
    } else {
        let t = spec_tier(m, base);
        let d = pow(base as int, t) as nat;
        vstd::arithmetic::power::lemma_pow_positive(base as int, t);
        let v = spec_rounded(m, d, 1);
        assert(v < 10000);
        assert(v / 10 < 1000) by {
            vstd::arithmetic::div_mod::lemma_fundamental_div_mod(v as int, 10);
        };
        lemma_dec_digits_len(v / 10, 3);
        lemma_dec_digits_shape(v / 10);
        lemma_dec_pad_shape(v, 1);
        assert(spec_number(m, base, 1).len() <= 5);
    }
}

} // verus!
