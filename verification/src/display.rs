//! Human-readable rendering of a [`ByteSize`](crate::ByteSize): the six
//! display formats, their unit tables, and the wrapper that assembles the
//! final text.

use crate::digits::dec_digits;
use crate::digits::dec_u128;
use crate::digits::pow10;
use crate::render::render_number;
use crate::render::spec_number;
use crate::strutil::chars_to_string;
use crate::tier::lemma_pow_le_exp;
use crate::tier::spec_tier;
use crate::ByteSize;
use vstd::arithmetic::power::pow;
use vstd::prelude::*;

verus! {

/// Format / style to use when displaying a [`ByteSize`].
#[derive(Debug, Clone, Copy)]
pub enum Format {
    Iec,
    IecShort,
    Si,
    SiShort,
    IecBits,
    SiBits,
}

impl Format {
    /// Whether the format counts bits rather than bytes.
    pub open spec fn spec_is_bits(self) -> bool {
        match self {
            Format::IecBits | Format::SiBits => true,
            _ => false,
        }
    }

    /// Whether the format uses the binary (IEC) prefix family.
    pub open spec fn spec_is_binary(self) -> bool {
        match self {
            Format::Iec | Format::IecShort | Format::IecBits => true,
            _ => false,
        }
    }

    /// The base one prefix tier stands for: 1024 or 1000, times eight for
    /// bit formats.
    pub open spec fn spec_unit(self) -> nat {
        match self {
            Format::Iec | Format::IecShort => 1024,
            Format::Si | Format::SiShort => 1000,
            Format::IecBits => 8192,
            Format::SiBits => 8000,
        }
    }

    /// The magnitude one prefix tier stands for.
    pub fn unit(self) -> (r: u64)
        ensures
            r == self.spec_unit(),
    {
        match self {
            Format::Iec | Format::IecShort => crate::KIB,
            Format::Si | Format::SiShort => crate::KB,
            Format::IecBits => 8 * crate::KIB,
            Format::SiBits => 8 * crate::KB,
        }
    }

    /// The separator between the number and the unit symbol.
    pub open spec fn spec_separator(self) -> Seq<char> {
        match self {
            Format::Iec | Format::Si | Format::IecBits | Format::SiBits => seq![' '],
            Format::IecShort | Format::SiShort => Seq::empty(),
        }
    }

    /// The separator between the number and the unit symbol.
    pub fn unit_separator(self) -> (r: &'static str)
        ensures
            r@ == self.spec_separator(),
    {
        match self {
            Format::Iec | Format::Si | Format::IecBits | Format::SiBits => {
                let s = " ";
                proof {
                    reveal_strlit(" ");
                    assert(s@ =~= seq![' ']);
                }
                s
            },
            Format::IecShort | Format::SiShort => {
                let s = "";
                proof {
                    reveal_strlit("");
                    assert(s@ =~= Seq::<char>::empty());
                }
                s
            },
        }
    }

    /// The suffix written after the prefix letter.
    pub open spec fn spec_suffix(self) -> Seq<char> {
        match self {
            Format::Iec => seq!['i', 'B'],
            Format::Si => seq!['B'],
            Format::IecShort | Format::SiShort => Seq::empty(),
            Format::IecBits => seq!['i', 'b'],
            Format::SiBits => seq!['b'],
        }
    }

    /// The suffix written after the prefix letter.
    pub fn unit_suffix(self) -> (r: &'static str)
        ensures
            r@ == self.spec_suffix(),
    {
        match self {
            Format::Iec => {
                let s = "iB";
                proof {
                    reveal_strlit("iB");
                    assert(s@ =~= seq!['i', 'B']);
                }
                s
            },
            Format::Si => {
                let s = "B";
                proof {
                    reveal_strlit("B");
                    assert(s@ =~= seq!['B']);
                }
                s
            },
            Format::IecShort | Format::SiShort => {
                let s = "";
                proof {
                    reveal_strlit("");
                    assert(s@ =~= Seq::<char>::empty());
                }
                s
            },
            Format::IecBits => {
                let s = "ib";
                proof {
                    reveal_strlit("ib");
                    assert(s@ =~= seq!['i', 'b']);
                }
                s
            },
            Format::SiBits => {
                let s = "b";
                proof {
                    reveal_strlit("b");
                    assert(s@ =~= seq!['b']);
                }
                s
            },
        }
    }

    /// The prefix letter for a tier between one (kilo) and six (exa).
    pub open spec fn spec_prefix(self, t: nat) -> char
        recommends
            1 <= t <= 6,
    {
        if t == 1 {
            if self.spec_is_binary() {
                'K'
            } else {
                'k'
            }
        } else if t == 2 {
            'M'
        } else if t == 3 {
            'G'
        } else if t == 4 {
            'T'
        } else if t == 5 {
            'P'
        } else {
            'E'
        }
    }

    /// The prefix letter for a tier between one (kilo) and six (exa).
    pub fn unit_prefix(self, t: u64) -> (c: char)
        requires
            1 <= t <= 6,
        ensures
            c == self.spec_prefix(t as nat),
    {
        if t == 1 {
            match self {
                Format::Iec | Format::IecShort | Format::IecBits => 'K',
                Format::Si | Format::SiShort | Format::SiBits => 'k',
            }
        } else if t == 2 {
            'M'
        } else if t == 3 {
            'G'
        } else if t == 4 {
            'T'
        } else if t == 5 {
            'P'
        } else {
            'E'
        }
    }

    /// The bare unit symbol used below the first tier.
    pub open spec fn spec_bare(self) -> char {
        if self.spec_is_bits() {
            'b'
        } else {
            'B'
        }
    }
}

/// The full rendering of a byte count under a format, with `p` fractional
/// digits: the magnitude (bits for bit formats), either written out when it
/// is below the first tier, or scaled to the ideal tier and followed by that
/// tier's prefix letter and the format's suffix.
pub open spec fn spec_render(bytes: nat, f: Format, p: nat) -> Seq<char> {
    let m = bytes * (if f.spec_is_bits() {
        8nat
    } else {
        1nat
    });
    if m < f.spec_unit() {
        dec_digits(m) + f.spec_separator() + seq![f.spec_bare()]
    } else {
        spec_number(m, f.spec_unit(), p) + f.spec_separator()
            + seq![f.spec_prefix(spec_tier(m, f.spec_unit()))] + f.spec_suffix()
    }
}

/// Ten to the twenty-first power, written out.
proof fn lemma_pow10_21()
    ensures
        pow10(21) == 1_000_000_000_000_000_000_000,
{
    vstd::arithmetic::power::lemma_pow0(10);
    assert(pow10(0) == 1);
    crate::digits::lemma_pow10_unfold(0);
    crate::digits::lemma_pow10_unfold(1);
    crate::digits::lemma_pow10_unfold(2);
    crate::digits::lemma_pow10_unfold(3);
    crate::digits::lemma_pow10_unfold(4);
    crate::digits::lemma_pow10_unfold(5);
    crate::digits::lemma_pow10_unfold(6);
    crate::digits::lemma_pow10_unfold(7);
    crate::digits::lemma_pow10_unfold(8);
    crate::digits::lemma_pow10_unfold(9);
    crate::digits::lemma_pow10_unfold(10);
    crate::digits::lemma_pow10_unfold(11);
    crate::digits::lemma_pow10_unfold(12);
    crate::digits::lemma_pow10_unfold(13);
    crate::digits::lemma_pow10_unfold(14);
    crate::digits::lemma_pow10_unfold(15);
    crate::digits::lemma_pow10_unfold(16);
    crate::digits::lemma_pow10_unfold(17);
    crate::digits::lemma_pow10_unfold(18);
    crate::digits::lemma_pow10_unfold(19);
    crate::digits::lemma_pow10_unfold(20);
}

/// Every magnitude the renderer can meet sits below the seventh power of
/// every base in the unit table, so the prefix table is never exceeded.
pub proof fn lemma_magnitude_in_range(m: nat, base: nat)
    requires
        1000 <= base <= 8192,
        m <= 8 * u64::MAX,
    ensures
        m < pow(base as int, 7),
{
    lemma_pow10_21();
    vstd::arithmetic::power::lemma_pow_multiplies(10, 3, 7);
    assert(pow(1000, 7) == pow10(21)) by {
        vstd::arithmetic::power::lemma_pow0(10);
        vstd::arithmetic::power::lemma_pow_positive(10, 3);
        vstd::arithmetic::power::lemma_pow_positive(10, 21);
        crate::digits::lemma_pow10_unfold(0);
        crate::digits::lemma_pow10_unfold(1);
        crate::digits::lemma_pow10_unfold(2);
        assert(pow10(3) == 1000);
        assert(pow(10, 3) == 1000);
        assert(pow(pow(10, 3), 7) == pow(10, 21));
        assert(pow(1000, 7) == pow(10, 21));
        assert(pow(10, 21) == pow10(21));
    };
    crate::tier::lemma_pow_le_base(1000, base, 7);
}

/// Renders a byte count under a format with the given number of fractional
/// digits, as a character vector.
pub fn render_chars(bytes: u64, f: Format, p: usize) -> (out: Vec<char>)
    ensures
        out@ == spec_render(bytes as nat, f, p as nat),
{
    let is_bits = match f {
        Format::IecBits | Format::SiBits => true,
        _ => false,
    };
    let m: u128 = if is_bits {
        (bytes as u128) * 8
    } else {
        bytes as u128
    };
    let unit = f.unit();
    if m < unit as u128 {
        let mut out = dec_u128(m);
        let ghost head = out@;
        match f {
            Format::Iec | Format::Si | Format::IecBits | Format::SiBits => {
                out.push(' ');
                assert(out@ =~= head + f.spec_separator());
            },
            Format::IecShort | Format::SiShort => {
                assert(out@ =~= head + f.spec_separator());
            },
        }
        if is_bits {
            out.push('b');
        } else {
            out.push('B');
        }
        assert(out@ =~= dec_digits(m as nat) + f.spec_separator() + seq![f.spec_bare()]);
        out
    } else {
        proof {
            lemma_magnitude_in_range(m as nat, f.spec_unit());
        }
        let mut out = render_number(m, unit, p);
        let ghost head = out@;
        match f {
            Format::Iec | Format::Si | Format::IecBits | Format::SiBits => {
                out.push(' ');
                assert(out@ =~= head + f.spec_separator());
            },
            Format::IecShort | Format::SiShort => {
                assert(out@ =~= head + f.spec_separator());
            },
        }
        let t = crate::tier::ideal_unit_iterative(m, unit);
        proof {
            if t > 6 {
                lemma_pow_le_exp(f.spec_unit(), 7, t as nat);
                crate::tier::lemma_tier_bounds(m as nat, f.spec_unit());
            }
        }
        out.push(f.unit_prefix(t));
        let ghost head2 = out@;
        match f {
            Format::Iec => {
                out.push('i');
                out.push('B');
            },
            Format::Si => {
                out.push('B');
            },
            Format::IecShort | Format::SiShort => {},
            Format::IecBits => {
                out.push('i');
                out.push('b');
            },
            Format::SiBits => {
                out.push('b');
            },
        }
        assert(out@ =~= head2 + f.spec_suffix());
        assert(out@ =~= spec_number(m as nat, f.spec_unit(), p as nat) + f.spec_separator()
            + seq![f.spec_prefix(spec_tier(m as nat, f.spec_unit()))] + f.spec_suffix());
        out
    }
}

/// Formatting display wrapper for [`ByteSize`].
///
/// Supports various styles, see methods. By default, the
/// [`iec()`](Self::iec()) style is used.
#[derive(Debug, Clone)]
pub struct Display {
    pub byte_size: ByteSize,
    pub format: Format,
}

impl Display {
    /// Format using IEC (binary) units.
    ///
    /// E.g., `11.8 MiB`.
    #[must_use]
    pub fn iec(self) -> (r: Self)
        ensures
            r.format is Iec,
            r.byte_size == self.byte_size,
    {
        Display { byte_size: self.byte_size, format: Format::Iec }
    }

    /// Format using a short style and IEC (binary) units.
    ///
    /// E.g., `11.8M`.
    ///
    /// Designed to produce output compatible with `sort -h`.
    #[must_use]
    pub fn iec_short(self) -> (r: Self)
        ensures
            r.format is IecShort,
            r.byte_size == self.byte_size,
    {
        Display { byte_size: self.byte_size, format: Format::IecShort }
    }

    /// Format using SI (decimal) units.
    ///
    /// E.g., `12.3 MB`.
    #[must_use]
    pub fn si(self) -> (r: Self)
        ensures
            r.format is Si,
            r.byte_size == self.byte_size,
    {
        Display { byte_size: self.byte_size, format: Format::Si }
    }

    /// Format using a short style and SI (decimal) units.
    ///
    /// E.g., `12.3M`.
    #[must_use]
    pub fn si_short(self) -> (r: Self)
        ensures
            r.format is SiShort,
            r.byte_size == self.byte_size,
    {
        Display { byte_size: self.byte_size, format: Format::SiShort }
    }

    /// Format as equivalent number of bits using IEC (binary) units.
    ///
    /// E.g., `12.3 Mib`.
    #[must_use]
    pub fn iec_bits(self) -> (r: Self)
        ensures
            r.format is IecBits,
            r.byte_size == self.byte_size,
    {
        Display { byte_size: self.byte_size, format: Format::IecBits }
    }

    /// Format as equivalent number of bits using SI (decimal) units.
    ///
    /// E.g., `12.3 Mb`.
    #[must_use]
    pub fn si_bits(self) -> (r: Self)
        ensures
            r.format is SiBits,
            r.byte_size == self.byte_size,
    {
        Display { byte_size: self.byte_size, format: Format::SiBits }
    }

    /// The rendered text at the default precision of one fractional digit.
    pub fn to_string(&self) -> (s: String)
        ensures
            s@ == spec_render(self.byte_size.0 as nat, self.format, 1),
    {
        chars_to_string(render_chars(self.byte_size.0, self.format, 1))
    }

    /// The rendered text with the requested number of fractional digits.
    pub fn with_precision(&self, precision: usize) -> (s: String)
        ensures
            s@ == spec_render(self.byte_size.0 as nat, self.format, precision as nat),
    {
        chars_to_string(render_chars(self.byte_size.0, self.format, precision))
    }
}

} // verus!
