//! Parsing a human-readable size back into a [`ByteSize`].
//!
//! Grammar (ASCII whitespace may surround the number and the unit token):
//! a decimal literal `digits ['.' digits]`, then an optional unit token:
//! bare `B` (bytes) or `b` (bits), or a prefix letter `K/M/G/T/P/E` (either
//! case), optionally followed by `i`/`I` (binary units), and then `B` or
//! `b`. The final letter's case decides bits against bytes; the `i` marker
//! decides binary against decimal. Absence of a unit token means raw bytes.
//!
//! The mantissa is read exactly: the value is the scaled mantissa rounded
//! half away from zero, computed in integer arithmetic with no precision
//! loss. Every failure is a returned [`ParseError`], never a panic.
//!
//! Parsing rendered text recovers a nearby value, not in general the same
//! one: a rendering with `N` fractional digits carries the byte count only
//! to within half a unit in its last place, `0.5 * 10^-N * base^tier`.

use crate::digits::lemma_pow10_unfold;
use crate::digits::pow10;
use crate::ByteSize;
use vstd::arithmetic::div_mod::lemma_fundamental_div_mod;
use vstd::arithmetic::div_mod::lemma_fundamental_div_mod_converse;
use vstd::arithmetic::div_mod::lemma_multiply_divide_lt;
use vstd::arithmetic::power::pow;
use vstd::prelude::*;
use vstd::string::StringSliceAdditionalSpecFns;

verus! {

/// Why a string failed to parse as a size.
#[derive(Debug, Clone, Copy, PartialEq, Eq, Structural)]
pub enum ParseError {
    /// The input was empty or held only whitespace.
    EmptyInput,
    /// No leading decimal literal could be read.
    InvalidNumber,
    /// The text after the number is not a known unit token.
    InvalidUnit,
    /// The scaled value exceeds the 64-bit unsigned range.
    Overflow,
}

/// ASCII whitespace.
pub open spec fn is_ws(b: u8) -> bool {
    b == 32 || b == 9 || b == 10 || b == 11 || b == 12 || b == 13
}

/// An ASCII decimal digit.
pub open spec fn is_digit(b: u8) -> bool {
    48 <= b <= 57
}

/// The first position at or after `i` that does not hold whitespace.
pub open spec fn skip_ws(s: Seq<u8>, i: int) -> int
    recommends
        0 <= i <= s.len(),
    decreases s.len() - i,
{
    if i < 0 || i >= s.len() {
        s.len() as int
    } else if is_ws(s[i]) {
        skip_ws(s, i + 1)
    } else {
        i
    }
}

/// The first position at or after `i` that does not hold a digit.
pub open spec fn scan_digits(s: Seq<u8>, i: int) -> int
    recommends
        0 <= i <= s.len(),
    decreases s.len() - i,
{
    if i < 0 || i >= s.len() {
        s.len() as int
    } else if is_digit(s[i]) {
        scan_digits(s, i + 1)
    } else {
        i
    }
}

/// The value of the digits in `s[i..j]`.
pub open spec fn digits_val(s: Seq<u8>, i: int, j: int) -> nat
    recommends
        0 <= i <= j <= s.len(),
    decreases j - i,
{
    if j <= i || j > s.len() || i < 0 {
        0
    } else {
        digits_val(s, i, j - 1) * 10 + (if is_digit(s[j - 1]) {
            (s[j - 1] - 48) as nat
        } else {
            0
        })
    }
}

/// The tier a prefix letter stands for, zero for any other byte.
pub open spec fn prefix_tier(b: u8) -> nat {
    if b == 75 || b == 107 {
        1
    } else if b == 77 || b == 109 {
        2
    } else if b == 71 || b == 103 {
        3
    } else if b == 84 || b == 116 {
        4
    } else if b == 80 || b == 112 {
        5
    } else if b == 69 || b == 101 {
        6
    } else {
        0
    }
}

/// A parsed unit token: its tier, whether it is binary (IEC), whether it
/// counts bits, and the position just past it.
pub struct UnitToken {
    pub tier: nat,
    pub binary: bool,
    pub bits: bool,
    pub end: int,
}

/// Reads the unit token that starts at `j`, if any is there.
pub open spec fn spec_unit_token(s: Seq<u8>, j: int) -> Option<UnitToken> {
    if j >= s.len() {
        Some(UnitToken { tier: 0, binary: false, bits: false, end: j })
    } else if s[j] == 66 {
        Some(UnitToken { tier: 0, binary: false, bits: false, end: j + 1 })
    } else if s[j] == 98 {
        Some(UnitToken { tier: 0, binary: false, bits: true, end: j + 1 })
    } else if prefix_tier(s[j]) > 0 {
        let t = prefix_tier(s[j]);
        if j + 1 < s.len() && (s[j + 1] == 105 || s[j + 1] == 73) {
            if j + 2 < s.len() && s[j + 2] == 66 {
                Some(UnitToken { tier: t, binary: true, bits: false, end: j + 3 })
            } else if j + 2 < s.len() && s[j + 2] == 98 {
                Some(UnitToken { tier: t, binary: true, bits: true, end: j + 3 })
            } else {
                None
            }
        } else if j + 1 < s.len() && s[j + 1] == 66 {
            Some(UnitToken { tier: t, binary: false, bits: false, end: j + 2 })
        } else if j + 1 < s.len() && s[j + 1] == 98 {
            Some(UnitToken { tier: t, binary: false, bits: true, end: j + 2 })
        } else {
            None
        }
    } else {
        None
    }
}

/// The base a unit token scales by: 1024 or 1000, times eight for bits.
pub open spec fn token_base(u: UnitToken) -> nat {
    (if u.binary {
        1024nat
    } else {
        1000nat
    }) * (if u.bits {
        8nat
    } else {
        1nat
    })
}

/// The exact value a parsed literal stands for: the mantissa `a.f` (integer
/// part `a`, `k` fraction digits of value `f`) times `base^tier`, divided by
/// eight for a bit quantity, rounded half away from zero.
pub open spec fn spec_value(a: nat, f: nat, k: nat, bb: nat, sdiv: nat) -> nat
    recommends
        bb >= 1,
        sdiv >= 1,
{
    (2 * (a * pow10(k) + f) * bb + sdiv * pow10(k)) / (2 * sdiv * pow10(k))
}

/// The complete parse of a byte string, errors included.
pub open spec fn spec_parse(s: Seq<u8>) -> Result<ByteSize, ParseError> {
    let i0 = skip_ws(s, 0);
    if i0 == s.len() {
        Err(ParseError::EmptyInput)
    } else {
        let i1 = scan_digits(s, i0);
        if i1 == i0 {
            Err(ParseError::InvalidNumber)
        } else if i1 < s.len() && s[i1] == 46 {
            let i2 = scan_digits(s, i1 + 1);
            if i2 == i1 + 1 {
                Err(ParseError::InvalidNumber)
            } else {
                spec_parse_tail(s, i0, i1, i1 + 1, i2)
            }
        } else {
            spec_parse_tail(s, i0, i1, i1, i1)
        }
    }
}

/// Parsing after the literal: the unit token, trailing whitespace, and the
/// scaled value, with the range check.
pub open spec fn spec_parse_tail(s: Seq<u8>, a0: int, a1: int, f0: int, f1: int) -> Result<
    ByteSize,
    ParseError,
> {
    let j = skip_ws(s, f1);
    match spec_unit_token(s, j) {
        None => Err(ParseError::InvalidUnit),
        Some(u) => {
            if skip_ws(s, u.end) != s.len() {
                Err(ParseError::InvalidUnit)
            } else {
                let a = digits_val(s, a0, a1);
                let f = digits_val(s, f0, f1);
                let k = (f1 - f0) as nat;
                let bb = pow(token_base(u) as int, u.tier) as nat;
                let sdiv: nat = if u.bits {
                    8
                } else {
                    1
                };
                let w = spec_value(a, f, k, bb, sdiv);
                if w > u64::MAX {
                    Err(ParseError::Overflow)
                } else {
                    Ok(ByteSize(w as u64))
                }
            }
        },
    }
}

/// Parses a size from its textual form; never panics, whatever the input.
pub fn parse(s: &str) -> (r: Result<ByteSize, ParseError>)
    ensures
        r == spec_parse(s.spec_bytes()),
{
    parse_bytes(s.as_bytes())
}

/// Parses a size from raw bytes; never panics, whatever the input.
pub fn parse_bytes(s: &[u8]) -> (r: Result<ByteSize, ParseError>)
    ensures
        r == spec_parse(s@),
{
    let i0 = skip_ws_exec(s, 0);
    if i0 == s.len() {
        return Err(ParseError::EmptyInput);
    }
    let i1 = scan_digits_exec(s, i0);
    if i1 == i0 {
        return Err(ParseError::InvalidNumber);
    }
    let f0: usize;
    let f1: usize;
    if i1 < s.len() && s[i1] == 46 {
        let i2 = scan_digits_exec(s, i1 + 1);
        if i2 == i1 + 1 {
            return Err(ParseError::InvalidNumber);
        }
        f0 = i1 + 1;
        f1 = i2;
    } else {
        f0 = i1;
        f1 = i1;
    }
    let j = skip_ws_exec(s, f1);
    let token = unit_token_exec(s, j);
    match token {
        None => Err(ParseError::InvalidUnit),
        Some((tier, binary, bits, end)) => {
            if skip_ws_exec(s, end) != s.len() {
                return Err(ParseError::InvalidUnit);
            }
            let ghost u = UnitToken {
                tier: tier as nat,
                binary: binary,
                bits: bits,
                end: end as int,
            };
            let base: u64 = match (binary, bits) {
                (true, false) => 1024,
                (false, false) => 1000,
                (true, true) => 8192,
                (false, true) => 8000,
            };
            assert(base == token_base(u));
            let bb = crate::tier::pow_exec(base, tier);
            proof {
                crate::tier::lemma_pow_fits(base as nat, tier as nat);
            }
            let sdiv: u128 = if bits {
                8
            } else {
                1
            };
            let (a, sat) = int_digits_value(s, i0, i1);
            let n = frac_scaled(s, f0, f1, 2 * bb);
            let ghost av = digits_val(s@, i0 as int, i1 as int);
            let ghost fv = digits_val(s@, f0 as int, f1 as int);
            let ghost k = (f1 - f0) as nat;
            let ghost w_spec = spec_value(av, fv, k, bb as nat, sdiv as nat);
            proof {
                lemma_value_formula(av, fv, k, bb as nat, sdiv as nat);
                lemma_frac_value(s@, f0 as int, f1 as int, (2 * bb) as nat);
                vstd::arithmetic::power::lemma_pow_positive(token_base(u) as int, u.tier);
            }
            if sat {
                proof {
                    lemma_saturated_overflows(av, fv, k, bb as nat, sdiv as nat);
                }
                return Err(ParseError::Overflow);
            }
            let cap: u128 = (0xFFFF_FFFF_FFFF_FFFFu128 + 2) * sdiv;
            if a > cap / bb {
                proof {
                    lemma_cap_overflows(av, fv, k, bb as nat, sdiv as nat, cap as nat);
                }
                return Err(ParseError::Overflow);
            }
            proof {
                lemma_fundamental_div_mod(cap as int, bb as int);
                assert(a * bb <= cap + bb) by (nonlinear_arith)
                    requires
                        a <= cap / bb,
                        cap == bb * (cap / bb) + cap % bb,
                        0 <= cap % bb < bb,
                {}
                assert(2 * a * bb <= 2 * (cap + bb)) by (nonlinear_arith)
                    requires
                        a * bb <= cap + bb,
                {}
            }
            let w = (2 * a * bb + n + sdiv) / (2 * sdiv);
            assert(w == w_spec);
            if w > 0xFFFF_FFFF_FFFF_FFFFu128 {
                Err(ParseError::Overflow)
            } else {
                Ok(ByteSize(w as u64))
            }
        },
    }
}

/// Advances past whitespace.
fn skip_ws_exec(s: &[u8], from: usize) -> (j: usize)
    requires
        from <= s@.len(),
    ensures
        j == skip_ws(s@, from as int),
        from <= j <= s@.len(),
{
    let mut i = from;
    while i < s.len() && (s[i] == 32 || s[i] == 9 || s[i] == 10 || s[i] == 11 || s[i] == 12 || s[i]
        == 13)
        invariant
            from <= i <= s@.len(),
            skip_ws(s@, from as int) == skip_ws(s@, i as int),
        decreases s@.len() - i,
    {
        i = i + 1;
    }
    i
}

/// Advances past decimal digits.
fn scan_digits_exec(s: &[u8], from: usize) -> (j: usize)
    requires
        from <= s@.len(),
    ensures
        j == scan_digits(s@, from as int),
        from <= j <= s@.len(),
{
    let mut i = from;
    while i < s.len() && 48 <= s[i] && s[i] <= 57
        invariant
            from <= i <= s@.len(),
            scan_digits(s@, from as int) == scan_digits(s@, i as int),
        decreases s@.len() - i,
    {
        i = i + 1;
    }
    i
}

/// Reads the unit token at `j`, mirroring `spec_unit_token`.
fn unit_token_exec(s: &[u8], j: usize) -> (r: Option<(u64, bool, bool, usize)>)
    requires
        j <= s@.len(),
    ensures
        match r {
            None => spec_unit_token(s@, j as int) is None,
            Some((tier, binary, bits, end)) => {
                &&& spec_unit_token(s@, j as int) == Some(
                    UnitToken {
                        tier: tier as nat,
                        binary: binary,
                        bits: bits,
                        end: end as int,
                    },
                )
                &&& tier <= 6
                &&& end <= s@.len()
            },
        },
{
    if j >= s.len() {
        return Some((0, false, false, j));
    }
    let c = s[j];
    if c == 66 {
        return Some((0, false, false, j + 1));
    }
    if c == 98 {
        return Some((0, false, true, j + 1));
    }
    let tier: u64 = if c == 75 || c == 107 {
        1
    } else if c == 77 || c == 109 {
        2
    } else if c == 71 || c == 103 {
        3
    } else if c == 84 || c == 116 {
        4
    } else if c == 80 || c == 112 {
        5
    } else if c == 69 || c == 101 {
        6
    } else {
        0
    };
    if tier == 0 {
        return None;
    }
    if j + 1 < s.len() && (s[j + 1] == 105 || s[j + 1] == 73) {
        if j + 2 < s.len() && s[j + 2] == 66 {
            Some((tier, true, false, j + 3))
        } else if j + 2 < s.len() && s[j + 2] == 98 {
            Some((tier, true, true, j + 3))
        } else {
            None
        }
    } else if j + 1 < s.len() && s[j + 1] == 66 {
        Some((tier, false, false, j + 2))
    } else if j + 1 < s.len() && s[j + 1] == 98 {
        Some((tier, false, true, j + 2))
    } else {
        None
    }
}

/// The saturation bound for the integer part: any mantissa at least this
/// large overflows a byte count whatever the unit.
pub open spec fn sat_bound() -> nat {
    0x80000000000000000
}

/// Reads the integer part's value; saturates once it can no longer matter.
/// The flag says the true value reached the saturation bound.
fn int_digits_value(s: &[u8], i0: usize, i1: usize) -> (out: (u128, bool))
    requires
        0 <= i0 <= i1 <= s@.len(),
    ensures
        !out.1 ==> out.0 == digits_val(s@, i0 as int, i1 as int) && out.0 < sat_bound(),
        out.1 ==> digits_val(s@, i0 as int, i1 as int) >= sat_bound(),
{
    let mut a: u128 = 0;
    let mut sat = false;
    let mut i = i0;
    while i < i1
        invariant
            i0 <= i <= i1 <= s@.len(),
            !sat ==> a == digits_val(s@, i0 as int, i as int) && a < sat_bound(),
            sat ==> digits_val(s@, i0 as int, i as int) >= sat_bound(),
        decreases i1 - i,
    {
        let d = s[i];
        if !sat {
            let dv: u128 = if 48 <= d && d <= 57 {
                (d - 48) as u128
            } else {
                0
            };
            a = a * 10 + dv;
            if a >= 0x80000000000000000u128 {
                sat = true;
            }
        } else {
            proof {
                let old_val = digits_val(s@, i0 as int, i as int);
                let new_val = digits_val(s@, i0 as int, i as int + 1);
                assert(new_val >= old_val * 10);
                assert(old_val * 10 >= old_val) by (nonlinear_arith)
                    requires
                        old_val >= 0,
                {}
            }
        }
        i = i + 1;
    }
    (a, sat)
}

/// The floored product of twice the scale with the fraction `0.digits`,
/// accumulated from the least significant digit.
pub open spec fn frac_floor(s: Seq<u8>, i: int, j: int, b2: nat) -> nat
    decreases j - i,
{
    if i >= j || i < 0 || j > s.len() {
        0
    } else {
        ((if is_digit(s[i]) {
            (s[i] - 48) as nat
        } else {
            0
        }) * b2 + frac_floor(s, i + 1, j, b2)) / 10
    }
}

/// Computes `frac_floor` over the fraction digits.
fn frac_scaled(s: &[u8], f0: usize, f1: usize, b2: u128) -> (n: u128)
    requires
        0 <= f0 <= f1 <= s@.len(),
        b2 <= 0x200000000000000000000000000,
    ensures
        n == frac_floor(s@, f0 as int, f1 as int, b2 as nat),
        n <= b2,
{
    let mut n: u128 = 0;
    let mut i = f1;
    proof {
        assert(frac_floor(s@, f1 as int, f1 as int, b2 as nat) == 0);
    }
    while i > f0
        invariant
            f0 <= i <= f1 <= s@.len(),
            b2 <= 0x200000000000000000000000000,
            n == frac_floor(s@, i as int, f1 as int, b2 as nat),
            n <= b2,
        decreases i,
    {
        i = i - 1;
        let d = s[i];
        let dv: u128 = if 48 <= d && d <= 57 {
            (d - 48) as u128
        } else {
            0
        };
        proof {
            assert(dv * b2 <= 9 * b2) by (nonlinear_arith)
                requires
                    dv <= 9,
                    b2 >= 0,
            {}
        }
        let top = dv * b2 + n;
        proof {
            assert(top <= 10 * b2);
            lemma_multiply_divide_lt(top as int, 10, (b2 + 1) as int);
        }
        n = top / 10;
    }
    n
}

/// The value of a digit run, read off its leading digit.
proof fn lemma_digits_left(s: Seq<u8>, i: int, j: int)
    requires
        0 <= i < j <= s.len(),
    ensures
        digits_val(s, i, j) == (if is_digit(s[i]) {
            (s[i] - 48) as nat
        } else {
            0
        }) * pow10((j - i - 1) as nat) + digits_val(s, i + 1, j),
    decreases j - i,
{
    let d: nat = if is_digit(s[i]) {
        (s[i] - 48) as nat
    } else {
        0
    };
    if j == i + 1 {
        vstd::arithmetic::power::lemma_pow0(10);
        assert(digits_val(s, i, j) == digits_val(s, i, i) * 10 + d);
        assert(d * pow10(0) == d) by (nonlinear_arith)
            requires
                pow10(0) == 1,
        {}
    } else {
        lemma_digits_left(s, i, j - 1);
        lemma_pow10_unfold((j - i - 2) as nat);
        let m = pow10((j - i - 2) as nat);
        assert(digits_val(s, i, j) == digits_val(s, i, j - 1) * 10 + (if is_digit(s[j - 1]) {
            (s[j - 1] - 48) as nat
        } else {
            0
        }));
        assert(digits_val(s, i + 1, j) == digits_val(s, i + 1, j - 1) * 10 + (if is_digit(
            s[j - 1],
        ) {
            (s[j - 1] - 48) as nat
        } else {
            0
        }));
        assert((d * m + digits_val(s, i + 1, j - 1)) * 10 == d * (10 * m) + digits_val(
            s,
            i + 1,
            j - 1,
        ) * 10) by (nonlinear_arith) {}
    }
}

/// The digit-by-digit accumulation computes the floored scaled fraction.
proof fn lemma_frac_value(s: Seq<u8>, i: int, j: int, b2: nat)
    requires
        0 <= i <= j <= s.len(),
    ensures
        frac_floor(s, i, j, b2) == (b2 * digits_val(s, i, j)) / pow10((j - i) as nat),
    decreases j - i,
{
    if i >= j {
        vstd::arithmetic::power::lemma_pow0(10);
        assert((b2 * 0) / pow10(0) == 0) by (nonlinear_arith)
            requires
                pow10(0) == 1,
        {}
    } else {
        lemma_frac_value(s, i + 1, j, b2);
        lemma_digits_left(s, i, j);
        let d: nat = if is_digit(s[i]) {
            (s[i] - 48) as nat
        } else {
            0
        };
        let m = pow10((j - i - 1) as nat);
        lemma_pow10_unfold((j - i - 1) as nat);
        let dvt = digits_val(s, i + 1, j);
        let x = b2 * digits_val(s, i, j);
        assert(x == m * (d * b2) + b2 * dvt) by (nonlinear_arith)
            requires
                digits_val(s, i, j) == d * m + dvt,
                x == b2 * digits_val(s, i, j),
        {}
        lemma_fundamental_div_mod((b2 * dvt) as int, m as int);
        vstd::arithmetic::div_mod::lemma_mod_bound((b2 * dvt) as int, m as int);
        assert(x == m * (d * b2 + (b2 * dvt) / m) + (b2 * dvt) % m) by (nonlinear_arith)
            requires
                x == m * (d * b2) + b2 * dvt,
                b2 * dvt == m * ((b2 * dvt) / m) + (b2 * dvt) % m,
        {}
        vstd::arithmetic::mul::lemma_mul_is_commutative(
            m as int,
            (d * b2 + (b2 * dvt) / m) as int,
        );
        lemma_fundamental_div_mod_converse(
            x as int,
            m as int,
            (d * b2 + (b2 * dvt) / m) as int,
            ((b2 * dvt) % m) as int,
        );
        assert(x / m == d * b2 + (b2 * dvt) / m);
        vstd::arithmetic::div_mod::lemma_div_denominator(x as int, m as int, 10);
        assert(x / (m * 10) == (x / m) / 10);
        assert(pow10((j - i) as nat) == m * 10) by (nonlinear_arith)
            requires
                pow10((j - i) as nat) == 10 * m,
        {}
        assert(frac_floor(s, i, j, b2) == (d * b2 + frac_floor(s, i + 1, j, b2)) / 10);
    }
}

/// Links the parsed-value formula to the quantities the parser computes:
/// scale the integer part, add the floored fraction contribution, add the
/// rounding half, and divide.
proof fn lemma_value_formula(a: nat, f: nat, k: nat, bb: nat, sdiv: nat)
    requires
        bb >= 1,
        sdiv >= 1,
    ensures
        spec_value(a, f, k, bb, sdiv) == (2 * a * bb + (2 * bb * f) / pow10(k) + sdiv) / (2 * sdiv),
{
    let p = pow10(k);
    lemma_pow10_unfold(k);
    let n = 2 * (a * p + f) * bb + sdiv * p;
    assert(n == p * (2 * a * bb + sdiv) + 2 * bb * f) by (nonlinear_arith)
        requires
            n == 2 * (a * p + f) * bb + sdiv * p,
    {}
    vstd::arithmetic::div_mod::lemma_div_denominator(n as int, p as int, 2 * sdiv as int);
    assert(n / (p * (2 * sdiv)) == (n / p) / (2 * sdiv));
    assert(2 * sdiv * p == p * (2 * sdiv)) by (nonlinear_arith) {}
    lemma_fundamental_div_mod((2 * bb * f) as int, p as int);
    assert(n == p * ((2 * a * bb + sdiv) + (2 * bb * f) / p) + ((2 * bb * f) % p)) by (nonlinear_arith)
        requires
            n == p * (2 * a * bb + sdiv) + 2 * bb * f,
            2 * bb * f == p * ((2 * bb * f) / p) + (2 * bb * f) % p,
    {}
    vstd::arithmetic::div_mod::lemma_mod_bound((2 * bb * f) as int, p as int);
    vstd::arithmetic::mul::lemma_mul_is_commutative(
        p as int,
        ((2 * a * bb + sdiv) + (2 * bb * f) / p) as int,
    );
    lemma_fundamental_div_mod_converse(
        n as int,
        p as int,
        ((2 * a * bb + sdiv) + (2 * bb * f) / p) as int,
        ((2 * bb * f) % p) as int,
    );
    assert(n / p == (2 * a * bb + sdiv) + (2 * bb * f) / p);
}

/// A saturated integer part overflows the byte range whatever the unit.
proof fn lemma_saturated_overflows(a: nat, f: nat, k: nat, bb: nat, sdiv: nat)
    requires
        bb >= 1,
        1 <= sdiv <= 8,
        a >= sat_bound(),
    ensures
        spec_value(a, f, k, bb, sdiv) > u64::MAX,
{
    lemma_value_formula(a, f, k, bb, sdiv);
    let g: nat = (2 * bb * f) / pow10(k);
    let num: nat = 2 * a * bb + g + sdiv;
    assert(num >= 2 * a) by (nonlinear_arith)
        requires
            num == 2 * a * bb + g + sdiv,
            bb >= 1,
    {}
    assert(num / (2 * sdiv) >= num / 16) by {
        vstd::arithmetic::div_mod::lemma_div_is_ordered_by_denominator(
            num as int,
            2 * sdiv as int,
            16,
        );
    };
    assert(num / 16 >= (2 * sat_bound()) / 16) by {
        vstd::arithmetic::div_mod::lemma_div_is_ordered((2 * sat_bound()) as int, num as int, 16);
    };
    assert((2 * sat_bound()) / 16 == 0x10000000000000000) by {
        lemma_fundamental_div_mod_converse((2 * sat_bound()) as int, 16, 0x10000000000000000, 0);
    };
}

/// Tripping the scaled-cap test overflows the byte range.
proof fn lemma_cap_overflows(a: nat, f: nat, k: nat, bb: nat, sdiv: nat, cap: nat)
    requires
        bb >= 1,
        1 <= sdiv <= 8,
        cap == (0xFFFF_FFFF_FFFF_FFFF + 2) * sdiv,
        a > cap / bb,
    ensures
        spec_value(a, f, k, bb, sdiv) > u64::MAX,
{
    lemma_value_formula(a, f, k, bb, sdiv);
    let g: nat = (2 * bb * f) / pow10(k);
    lemma_fundamental_div_mod(cap as int, bb as int);
    assert(a * bb > cap) by (nonlinear_arith)
        requires
            a >= cap / bb + 1,
            cap == bb * (cap / bb) + cap % bb,
            0 <= cap % bb < bb,
    {}
    let num: nat = 2 * a * bb + g + sdiv;
    assert(num >= 2 * cap + 2) by (nonlinear_arith)
        requires
            num == 2 * a * bb + g + sdiv,
            a * bb >= cap + 1,
    {}
    assert(num / (2 * sdiv) >= (2 * cap + 2) / (2 * sdiv)) by {
        vstd::arithmetic::div_mod::lemma_div_is_ordered(
            (2 * cap + 2) as int,
            num as int,
            2 * sdiv as int,
        );
    };
    let m: nat = 0x10000000000000000;
    assert(2 * cap + 2 == (2 * sdiv) * (m + 1) + 2) by (nonlinear_arith)
        requires
            cap == (m + 1) * sdiv,
    {}
    assert(((2 * sdiv) * (m + 1)) / (2 * sdiv) == m + 1) by {
        vstd::arithmetic::div_mod::lemma_div_multiples_vanish((m + 1) as int, 2 * sdiv as int);
    };
    assert((2 * cap + 2) / (2 * sdiv) >= m + 1) by {
        vstd::arithmetic::div_mod::lemma_div_is_ordered(
            ((2 * sdiv) * (m + 1)) as int,
            (2 * cap + 2) as int,
            2 * sdiv as int,
        );
    };
}

} // verus!
