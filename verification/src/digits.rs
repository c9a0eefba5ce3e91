//! Decimal digit strings: the spec-level shape of a number written in base
//! ten, executable conversions producing exactly that shape, and an
//! increment-with-carry used when a rounded fraction ripples upward.

use vstd::arithmetic::power::pow;
use vstd::prelude::*;

verus! {

/// Ten to the given power.
pub open spec fn pow10(e: nat) -> nat {
    pow(10, e) as nat
}

/// `10^(e+1)` is ten times `10^e`.
pub proof fn lemma_pow10_unfold(e: nat)
    ensures
        pow10(e + 1) == 10 * pow10(e),
        pow10(e) >= 1,
{
    vstd::arithmetic::power::lemma_pow1(10);
    vstd::arithmetic::power::lemma_pow_adds(10, 1, e);
    vstd::arithmetic::power::lemma_pow_positive(10, e);
}

/// The character for a single decimal digit.
pub open spec fn char_digit(d: nat) -> char
    recommends
        d < 10,
{
    ((48 + d) as u8) as char
}

/// Whether a character is a decimal digit.
pub open spec fn is_digit_char(c: char) -> bool {
    48 <= c as u32 <= 57
}

/// The decimal digit string of `n`, most significant digit first, without
/// leading zeros (zero itself is a single `'0'`).
pub open spec fn dec_digits(n: nat) -> Seq<char>
    decreases n,
{
    if n < 10 || n / 10 >= n {
        seq![char_digit(n % 10)]
    } else {
        dec_digits(n / 10).push(char_digit(n % 10))
    }
}

/// The last `p` decimal digits of `n`, padded with leading zeros to exactly
/// `p` characters.
pub open spec fn dec_pad(n: nat, p: nat) -> Seq<char>
    decreases p,
{
    if p == 0 {
        Seq::empty()
    } else {
        dec_pad(n / 10, (p - 1) as nat).push(char_digit(n % 10))
    }
}

/// A run of zero characters.
pub open spec fn zero_run(k: nat) -> Seq<char> {
    Seq::new(k, |i: int| '0')
}

/// The padded digit string is always exactly as long as asked, and made of
/// digits.
pub proof fn lemma_dec_pad_shape(n: nat, p: nat)
    ensures
        dec_pad(n, p).len() == p,
        forall|i: int| 0 <= i < p ==> is_digit_char(#[trigger] dec_pad(n, p)[i]),
    decreases p,
{
    if p > 0 {
        lemma_dec_pad_shape(n / 10, (p - 1) as nat);
    }
}

/// The bare digit string is nonempty, made of digits, and `n < 10^k` needs at
/// most `k` digits.
pub proof fn lemma_dec_digits_shape(n: nat)
    ensures
        1 <= dec_digits(n).len(),
        forall|i: int| 0 <= i < dec_digits(n).len() ==> is_digit_char(#[trigger] dec_digits(n)[i]),
    decreases n,
{
    if !(n < 10 || n / 10 >= n) {
        lemma_dec_digits_shape(n / 10);
    }
}

/// A number below `10^k` has at most `k` digits (for `k >= 1`).
pub proof fn lemma_dec_digits_len(n: nat, k: nat)
    requires
        k >= 1,
        n < pow10(k),
    ensures
        dec_digits(n).len() <= k,
    decreases n,
{
    if n < 10 || n / 10 >= n {
    } else {
        lemma_pow10_unfold((k - 1) as nat);
        if k == 1 {
            assert(pow10(1) == 10) by {
                lemma_pow10_unfold(0);
                assert(pow10(0) == 1) by {
                    vstd::arithmetic::power::lemma_pow0(10);
                };
            };
        } else {
            assert(n / 10 < pow10((k - 1) as nat)) by {
                vstd::arithmetic::div_mod::lemma_fundamental_div_mod(n as int, 10);
            };
            lemma_dec_digits_len(n / 10, (k - 1) as nat);
        }
    }
}

/// Converts a number to its decimal digit characters, most significant first.
pub fn dec_u128(n: u128) -> (v: Vec<char>)
    ensures
        v@ == dec_digits(n as nat),
    decreases n,
{
    if n < 10 {
        let mut v: Vec<char> = Vec::new();
        v.push((48 + (n as u8)) as char);
        assert(v@ =~= dec_digits(n as nat));
        v
    } else {
        proof {
            vstd::arithmetic::div_mod::lemma_div_is_strictly_smaller(n as int, 10);
        }
        let mut v = dec_u128(n / 10);
        v.push((48 + ((n % 10) as u8)) as char);
        assert(v@ =~= dec_digits(n as nat));
        v
    }
}

/// The digit character one step up from the given one.
pub open spec fn next_char(c: char) -> char
    recommends
        is_digit_char(c),
        c as u32 != 57,
{
    ((c as u32 + 1) as u8) as char
}

/// The digit string with one added to it, carry digits turning to zero.
pub open spec fn inc_seq(s: Seq<char>) -> Seq<char>
    decreases s.len(),
{
    if s.len() == 0 {
        s
    } else if s.last() as u32 == 57 {
        inc_seq(s.drop_last()).push(char_digit(0))
    } else {
        s.drop_last().push(next_char(s.last()))
    }
}

/// Whether adding one to the digit string carries out of its leftmost digit.
pub open spec fn inc_carry(s: Seq<char>) -> bool
    decreases s.len(),
{
    if s.len() == 0 {
        true
    } else if s.last() as u32 == 57 {
        inc_carry(s.drop_last())
    } else {
        false
    }
}

/// Incrementing the padded digit string of `n` yields the padded digit string
/// of `n + 1`, with a carry exactly when every digit was a nine.
pub proof fn lemma_inc_pad(n: nat, p: nat)
    requires
        n < pow10(p),
    ensures
        inc_seq(dec_pad(n, p)) == dec_pad(n + 1, p),
        inc_carry(dec_pad(n, p)) == (n == pow10(p) - 1),
    decreases p,
{
    lemma_dec_pad_shape(n, p);
    if p == 0 {
        assert(pow10(0) == 1) by {
            vstd::arithmetic::power::lemma_pow0(10);
        };
        assert(inc_seq(dec_pad(n, p)) =~= dec_pad(n + 1, p));
    } else {
        let s = dec_pad(n, p);
        let head = dec_pad(n / 10, (p - 1) as nat);
        assert(s == head.push(char_digit(n % 10)));
        assert(s.drop_last() =~= head);
        assert(s.last() == char_digit(n % 10));
        assert(char_digit(n % 10) as u32 == 48 + n % 10);
        lemma_pow10_unfold((p - 1) as nat);
        vstd::arithmetic::div_mod::lemma_fundamental_div_mod(n as int, 10);
        assert(n / 10 < pow10((p - 1) as nat));
        if n % 10 < 9 {
            assert(s.last() as u32 != 57);
            assert(next_char(s.last()) == char_digit(n % 10 + 1));
            assert(inc_seq(s) == s.drop_last().push(next_char(s.last())));
            assert((n + 1) / 10 == n / 10 && (n + 1) % 10 == n % 10 + 1) by {
                vstd::arithmetic::div_mod::lemma_fundamental_div_mod_converse(
                    (n + 1) as int,
                    10,
                    (n / 10) as int,
                    (n % 10 + 1) as int,
                );
            };
            assert(inc_seq(s) =~= dec_pad(n + 1, p));
            assert(n < pow10(p) - 1) by {
                assert(n / 10 <= pow10((p - 1) as nat) - 1);
            };
        } else {
            assert(s.last() as u32 == 57);
            assert(inc_seq(s) == inc_seq(head).push(char_digit(0)));
            assert(inc_carry(s) == inc_carry(head));
            lemma_inc_pad(n / 10, (p - 1) as nat);
            assert((n + 1) / 10 == n / 10 + 1 && (n + 1) % 10 == 0) by {
                vstd::arithmetic::div_mod::lemma_fundamental_div_mod_converse(
                    (n + 1) as int,
                    10,
                    (n / 10 + 1) as int,
                    0,
                );
            };
            assert(inc_seq(s) =~= dec_pad(n + 1, p));
            assert((n / 10 == pow10((p - 1) as nat) - 1) == (n == pow10(p) - 1));
        }
    }
}

/// Adds one to a digit string in place. Returns true exactly when the string
/// was all nines, in which case it becomes all zeros and the one carries out.
pub fn increment_digits(v: &mut Vec<char>) -> (carry: bool)
    requires
        forall|i: int| 0 <= i < old(v)@.len() ==> is_digit_char(#[trigger] old(v)@[i]),
    ensures
        final(v)@ == inc_seq(old(v)@),
        carry == inc_carry(old(v)@),
        final(v)@.len() == old(v)@.len(),
        forall|i: int| 0 <= i < final(v)@.len() ==> is_digit_char(#[trigger] final(v)@[i]),
{
    let ghost orig = v@;
    let orig_len = v.len();
    proof {
        lemma_inc_seq_len(orig);
    }
    let mut zeros: usize = 0;
    while v.len() > 0 && (v[v.len() - 1] as u32) == 57
        invariant
            orig.len() == orig_len,
            zeros + v@.len() == orig.len(),
            v@ =~= orig.subrange(0, v@.len() as int),
            forall|i: int| 0 <= i < orig.len() ==> is_digit_char(#[trigger] orig[i]),
            inc_seq(orig) =~= inc_seq(v@) + zero_run(zeros as nat),
            inc_carry(orig) == inc_carry(v@),
            inc_seq(v@).len() == v@.len(),
        decreases v@.len(),
    {
        proof {
            let s = v@;
            assert(s.last() as u32 == 57);
            assert(inc_seq(s) == inc_seq(s.drop_last()).push(char_digit(0)));
            lemma_inc_seq_len(s.drop_last());
            assert(char_digit(0) == '0');
            assert(inc_seq(s.drop_last()) + zero_run((zeros + 1) as nat) =~= (inc_seq(
                s.drop_last(),
            ).push(char_digit(0))) + zero_run(zeros as nat));
            assert(s.drop_last() =~= orig.subrange(0, s.len() - 1));
        }
        v.pop();
        zeros = zeros + 1;
    }
    let carry: bool;
    if v.len() == 0 {
        carry = true;
        assert(inc_seq(orig) =~= zero_run(zeros as nat));
    } else {
        carry = false;
        let last = v[v.len() - 1];
        proof {
            let s = v@;
            assert(s.last() == orig[s.len() - 1]);
            assert(is_digit_char(s.last()));
            assert(s.last() as u32 != 57);
            assert(inc_seq(s) == s.drop_last().push(next_char(s.last())));
            assert(s.drop_last() =~= orig.subrange(0, s.len() - 1));
        }
        v.pop();
        v.push(((last as u32) + 1) as u8 as char);
        assert(inc_seq(orig) =~= v@ + zero_run(zeros as nat));
    }
    let mut k: usize = 0;
    let ghost partial = v@;
    while k < zeros
        invariant
            k <= zeros,
            v@ =~= partial + zero_run(k as nat),
        decreases zeros - k,
    {
        v.push('0');
        assert(v@ =~= partial + zero_run((k + 1) as nat));
        k = k + 1;
    }
    proof {
        lemma_inc_seq_len(orig);
        assert(v@ =~= inc_seq(orig));
        lemma_inc_seq_digits(orig);
    }
    carry
}

/// Incrementing keeps the length of the digit string.
pub proof fn lemma_inc_seq_len(s: Seq<char>)
    ensures
        inc_seq(s).len() == s.len(),
    decreases s.len(),
{
    if s.len() > 0 && s.last() as u32 == 57 {
        lemma_inc_seq_len(s.drop_last());
    }
}

/// Incrementing a digit string yields a digit string.
pub proof fn lemma_inc_seq_digits(s: Seq<char>)
    requires
        forall|i: int| 0 <= i < s.len() ==> is_digit_char(#[trigger] s[i]),
    ensures
        forall|i: int| 0 <= i < inc_seq(s).len() ==> is_digit_char(#[trigger] inc_seq(s)[i]),
    decreases s.len(),
{
    lemma_inc_seq_len(s);
    if s.len() == 0 {
    } else if s.last() as u32 == 57 {
        assert(forall|i: int|
            0 <= i < s.drop_last().len() ==> is_digit_char(#[trigger] s.drop_last()[i]));
        lemma_inc_seq_digits(s.drop_last());
        lemma_inc_seq_len(s.drop_last());
        assert(is_digit_char('0'));
    } else {
        let c = next_char(s.last());
        assert(is_digit_char(s[s.len() - 1]));
        assert(49 <= c as u32 <= 57);
        assert(is_digit_char(c));
        assert(inc_seq(s) == s.drop_last().push(c));
        assert(forall|i: int| 0 <= i < s.len() - 1 ==> inc_seq(s)[i] == s[i]);
    }
}

} // verus!
