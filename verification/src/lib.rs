//! `ByteSize` is a semantic wrapper for byte count representations.
//!
//! Features:
//!
//! - Pre-defined constants for various size units (B, kB, KiB, MB, MiB, ... PB).
//! - A `ByteSize` type which presents size units convertible to different size units.
//! - Arithmetic operations for `ByteSize`.
//! - A parser recovering a `ByteSize` from string representations like "1.5KiB".
//!
//! Rendering and parsing are carried out in exact integer arithmetic; every
//! public operation states precisely the string it produces or the value it
//! recovers.

use vstd::prelude::*;

pub mod align;
pub mod digits;
pub mod laws;
pub mod parse;
pub mod display;
pub mod render;
pub mod strutil;
pub mod tier;

verus! {

/// byte size for 1 byte
pub const B: u64 = 1;
/// bytes size for 1 kilobyte
pub const KB: u64 = 1_000;
/// bytes size for 1 megabyte
pub const MB: u64 = 1_000_000;
/// bytes size for 1 gigabyte
pub const GB: u64 = 1_000_000_000;
/// bytes size for 1 terabyte
pub const TB: u64 = 1_000_000_000_000;
/// bytes size for 1 petabyte
pub const PB: u64 = 1_000_000_000_000_000;

/// bytes size for 1 kibibyte
pub const KIB: u64 = 1_024;
/// bytes size for 1 mebibyte
pub const MIB: u64 = 1_048_576;
/// bytes size for 1 gibibyte
pub const GIB: u64 = 1_073_741_824;
/// bytes size for 1 tebibyte
pub const TIB: u64 = 1_099_511_627_776;
/// bytes size for 1 pebibyte
pub const PIB: u64 = 1_125_899_906_842_624;

/// The raw byte count of the given number of kilobytes.
pub fn kb(size: u64) -> (r: u64)
    requires
        size * KB <= u64::MAX,
    ensures
        r == size * KB,
{
    size * KB
}

/// The raw byte count of the given number of kibibytes.
pub fn kib(size: u64) -> (r: u64)
    requires
        size * KIB <= u64::MAX,
    ensures
        r == size * KIB,
{
    size * KIB
}

/// The raw byte count of the given number of megabytes.
pub fn mb(size: u64) -> (r: u64)
    requires
        size * MB <= u64::MAX,
    ensures
        r == size * MB,
{
    size * MB
}

/// The raw byte count of the given number of mebibytes.
pub fn mib(size: u64) -> (r: u64)
    requires
        size * MIB <= u64::MAX,
    ensures
        r == size * MIB,
{
    size * MIB
}

/// The raw byte count of the given number of gigabytes.
pub fn gb(size: u64) -> (r: u64)
    requires
        size * GB <= u64::MAX,
    ensures
        r == size * GB,
{
    size * GB
}

/// The raw byte count of the given number of gibibytes.
pub fn gib(size: u64) -> (r: u64)
    requires
        size * GIB <= u64::MAX,
    ensures
        r == size * GIB,
{
    size * GIB
}

/// The raw byte count of the given number of terabytes.
pub fn tb(size: u64) -> (r: u64)
    requires
        size * TB <= u64::MAX,
    ensures
        r == size * TB,
{
    size * TB
}

/// The raw byte count of the given number of tebibytes.
pub fn tib(size: u64) -> (r: u64)
    requires
        size * TIB <= u64::MAX,
    ensures
        r == size * TIB,
{
    size * TIB
}

/// The raw byte count of the given number of petabytes.
pub fn pb(size: u64) -> (r: u64)
    requires
        size * PB <= u64::MAX,
    ensures
        r == size * PB,
{
    size * PB
}

/// The raw byte count of the given number of pebibytes.
pub fn pib(size: u64) -> (r: u64)
    requires
        size * PIB <= u64::MAX,
    ensures
        r == size * PIB,
{
    size * PIB
}

/// Byte size representation: a count of bytes.
#[derive(Debug, Copy, Clone, PartialEq, Eq, Structural, PartialOrd, Ord, Hash)]
pub struct ByteSize(pub u64);

impl ByteSize {
    pub fn b(size: u64) -> (r: ByteSize)
        ensures
            r.0 == size,
    {
        ByteSize(size)
    }

    pub fn kb(size: u64) -> (r: ByteSize)
        requires
            size * KB <= u64::MAX,
        ensures
            r.0 == size * KB,
    {
        ByteSize(size * KB)
    }

    pub fn kib(size: u64) -> (r: ByteSize)
        requires
            size * KIB <= u64::MAX,
        ensures
            r.0 == size * KIB,
    {
        ByteSize(size * KIB)
    }

    pub fn mb(size: u64) -> (r: ByteSize)
        requires
            size * MB <= u64::MAX,
        ensures
            r.0 == size * MB,
    {
        ByteSize(size * MB)
    }

    pub fn mib(size: u64) -> (r: ByteSize)
        requires
            size * MIB <= u64::MAX,
        ensures
            r.0 == size * MIB,
    {
        ByteSize(size * MIB)
    }

    pub fn gb(size: u64) -> (r: ByteSize)
        requires
            size * GB <= u64::MAX,
        ensures
            r.0 == size * GB,
    {
        ByteSize(size * GB)
    }

    pub fn gib(size: u64) -> (r: ByteSize)
        requires
            size * GIB <= u64::MAX,
        ensures
            r.0 == size * GIB,
    {
        ByteSize(size * GIB)
    }

    pub fn tb(size: u64) -> (r: ByteSize)
        requires
            size * TB <= u64::MAX,
        ensures
            r.0 == size * TB,
    {
        ByteSize(size * TB)
    }

    pub fn tib(size: u64) -> (r: ByteSize)
        requires
            size * TIB <= u64::MAX,
        ensures
            r.0 == size * TIB,
    {
        ByteSize(size * TIB)
    }

    pub fn pb(size: u64) -> (r: ByteSize)
        requires
            size * PB <= u64::MAX,
        ensures
            r.0 == size * PB,
    {
        ByteSize(size * PB)
    }

    pub fn pib(size: u64) -> (r: ByteSize)
        requires
            size * PIB <= u64::MAX,
        ensures
            r.0 == size * PIB,
    {
        ByteSize(size * PIB)
    }

    pub fn as_u64(&self) -> (r: u64)
        ensures
            r == self.0,
    {
        self.0
    }
}

impl Default for ByteSize {
    fn default() -> (r: ByteSize)
        ensures
            r.0 == 0,
    {
        ByteSize(0)
    }
}

/// Unit family used by [`to_string_format`]: binary (IEC) or decimal (SI)
/// prefixes, long style.
#[derive(Debug, Clone, Default)]
pub enum Format {
    #[default]
    IEC,
    SI,
}

/// The display style a [`Format`] stands for.
pub open spec fn spec_format_style(format: Format) -> display::Format {
    match format {
        Format::IEC => display::Format::Iec,
        Format::SI => display::Format::Si,
    }
}

/// Renders a byte count in the chosen unit family at one fractional digit.
pub fn to_string_format(bytes: u64, format: Format) -> (s: String)
    ensures
        s@ == display::spec_render(bytes as nat, spec_format_style(format), 1),
{
    let style = match format {
        Format::IEC => display::Format::Iec,
        Format::SI => display::Format::Si,
    };
    strutil::chars_to_string(display::render_chars(bytes, style, 1))
}

/// Renders a byte count with SI (decimal) or IEC (binary) units at one
/// fractional digit.
pub fn to_string(bytes: u64, si_unit: bool) -> (s: String)
    ensures
        s@ == display::spec_render(
            bytes as nat,
            if si_unit {
                display::Format::Si
            } else {
                display::Format::Iec
            },
            1,
        ),
{
    to_string_format(
        bytes,
        if si_unit {
            Format::SI
        } else {
            Format::IEC
        },
    )
}

impl ByteSize {
    /// Renders this size with SI (decimal) or IEC (binary) units at one
    /// fractional digit.
    pub fn to_string_as(&self, si_unit: bool) -> (s: String)
        ensures
            s@ == display::spec_render(
                self.0 as nat,
                if si_unit {
                    display::Format::Si
                } else {
                    display::Format::Iec
                },
                1,
            ),
    {
        to_string(self.0, si_unit)
    }

    /// A display wrapper for this size, initially in the IEC style.
    pub fn display(&self) -> (d: display::Display)
        ensures
            d.byte_size == *self,
            d.format is Iec,
    {
        display::Display { byte_size: *self, format: display::Format::Iec }
    }
}

impl core::ops::Add<ByteSize> for ByteSize {
    type Output = ByteSize;

    /// The sum of two sizes; overflowing the byte counter is a caller error.
    fn add(self, rhs: ByteSize) -> (r: ByteSize) {
        ByteSize(self.0 + rhs.0)
    }
}

impl vstd::std_specs::ops::AddSpecImpl<ByteSize> for ByteSize {
    open spec fn obeys_add_spec() -> bool {
        true
    }

    open spec fn add_req(self, rhs: ByteSize) -> bool {
        self.0 + rhs.0 <= u64::MAX
    }

    open spec fn add_spec(self, rhs: ByteSize) -> ByteSize {
        ByteSize((self.0 + rhs.0) as u64)
    }
}

impl core::ops::Add<u64> for ByteSize {
    type Output = ByteSize;

    /// The size grown by a raw byte count; overflow is a caller error.
    fn add(self, rhs: u64) -> (r: ByteSize) {
        ByteSize(self.0 + rhs)
    }
}

impl vstd::std_specs::ops::AddSpecImpl<u64> for ByteSize {
    open spec fn obeys_add_spec() -> bool {
        true
    }

    open spec fn add_req(self, rhs: u64) -> bool {
        self.0 + rhs <= u64::MAX
    }

    open spec fn add_spec(self, rhs: u64) -> ByteSize {
        ByteSize((self.0 + rhs) as u64)
    }
}

impl core::ops::Sub<ByteSize> for ByteSize {
    type Output = ByteSize;

    /// The difference of two sizes; a negative result is a caller error.
    fn sub(self, rhs: ByteSize) -> (r: ByteSize) {
        ByteSize(self.0 - rhs.0)
    }
}

impl vstd::std_specs::ops::SubSpecImpl<ByteSize> for ByteSize {
    open spec fn obeys_sub_spec() -> bool {
        true
    }

    open spec fn sub_req(self, rhs: ByteSize) -> bool {
        self.0 >= rhs.0
    }

    open spec fn sub_spec(self, rhs: ByteSize) -> ByteSize {
        ByteSize((self.0 - rhs.0) as u64)
    }
}

impl core::ops::Sub<u64> for ByteSize {
    type Output = ByteSize;

    /// The size shrunk by a raw byte count; a negative result is a caller
    /// error.
    fn sub(self, rhs: u64) -> (r: ByteSize) {
        ByteSize(self.0 - rhs)
    }
}

impl vstd::std_specs::ops::SubSpecImpl<u64> for ByteSize {
    open spec fn obeys_sub_spec() -> bool {
        true
    }

    open spec fn sub_req(self, rhs: u64) -> bool {
        self.0 >= rhs
    }

    open spec fn sub_spec(self, rhs: u64) -> ByteSize {
        ByteSize((self.0 - rhs) as u64)
    }
}

impl core::ops::Mul<u64> for ByteSize {
    type Output = ByteSize;

    /// The size scaled by a raw factor; overflow is a caller error.
    fn mul(self, rhs: u64) -> (r: ByteSize) {
        ByteSize(self.0 * rhs)
    }
}

impl vstd::std_specs::ops::MulSpecImpl<u64> for ByteSize {
    open spec fn obeys_mul_spec() -> bool {
        true
    }

    open spec fn mul_req(self, rhs: u64) -> bool {
        self.0 * rhs <= u64::MAX
    }

    open spec fn mul_spec(self, rhs: u64) -> ByteSize {
        ByteSize((self.0 * rhs) as u64)
    }
}

impl core::ops::Div<u64> for ByteSize {
    type Output = ByteSize;

    /// The size divided by a raw factor; dividing by zero is a caller error.
    fn div(self, rhs: u64) -> (r: ByteSize) {
        ByteSize(self.0 / rhs)
    }
}

impl vstd::std_specs::ops::DivSpecImpl<u64> for ByteSize {
    open spec fn obeys_div_spec() -> bool {
        true
    }

    open spec fn div_req(self, rhs: u64) -> bool {
        rhs != 0
    }

    open spec fn div_spec(self, rhs: u64) -> ByteSize {
        ByteSize((self.0 / rhs) as u64)
    }
}

} // verus!
