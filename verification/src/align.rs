//! Text alignment: pads a rendered string to a requested width with a fill
//! character, to the left, the right, or centred. A post-processing step,
//! independent of the numeric formatting.

use crate::strutil::chars_to_string;
use vstd::prelude::*;
use vstd::string::StrSliceExecFns;

verus! {

/// Where the text stands inside the padded field.
#[derive(Debug, Clone, Copy)]
pub enum Alignment {
    Left,
    Right,
    Center,
}

/// A run of the fill character.
pub open spec fn fill_run(c: char, k: nat) -> Seq<char> {
    Seq::new(k, |i: int| c)
}

/// The aligned text: unchanged when already wide enough, otherwise padded
/// with the fill character. Centring puts the odd spare character on the
/// right.
pub open spec fn spec_align(s: Seq<char>, width: nat, fill: char, alignment: Alignment) -> Seq<
    char,
> {
    if s.len() >= width {
        s
    } else {
        let pad = (width - s.len()) as nat;
        match alignment {
            Alignment::Left => s + fill_run(fill, pad),
            Alignment::Right => fill_run(fill, pad) + s,
            Alignment::Center => fill_run(fill, pad / 2) + s + fill_run(fill, (pad - pad / 2) as nat),
        }
    }
}

/// Pushes `k` copies of the fill character.
fn push_fill(v: &mut Vec<char>, fill: char, k: usize)
    ensures
        final(v)@ == old(v)@ + fill_run(fill, k as nat),
{
    let ghost head = v@;
    let mut i: usize = 0;
    while i < k
        invariant
            i <= k,
            v@ =~= head + fill_run(fill, i as nat),
        decreases k - i,
    {
        v.push(fill);
        proof {
            assert(v@ =~= head + fill_run(fill, (i + 1) as nat));
        }
        i = i + 1;
    }
    assert(v@ =~= head + fill_run(fill, k as nat));
}

/// Pushes every character of the text.
fn push_str_chars(v: &mut Vec<char>, s: &str)
    ensures
        final(v)@ == old(v)@ + s@,
{
    let ghost head = v@;
    let n = s.unicode_len();
    let mut i: usize = 0;
    while i < n
        invariant
            i <= n,
            n == s@.len(),
            v@ =~= head + s@.subrange(0, i as int),
        decreases n - i,
    {
        let c = s.get_char(i);
        v.push(c);
        proof {
            assert(v@ =~= head + s@.subrange(0, (i + 1) as int));
        }
        i = i + 1;
    }
    assert(v@ =~= head + s@);
}

/// Pads the text to the requested width with the fill character, applied as
/// a separate step after rendering.
pub fn align(s: &str, width: usize, fill: char, alignment: Alignment) -> (r: String)
    ensures
        r@ == spec_align(s@, width as nat, fill, alignment),
{
    let n = s.unicode_len();
    if n >= width {
        let r = s.to_owned();
        return r;
    }
    let pad = width - n;
    let mut v: Vec<char> = Vec::new();
    match alignment {
        Alignment::Left => {
            push_str_chars(&mut v, s);
            push_fill(&mut v, fill, pad);
        },
        Alignment::Right => {
            push_fill(&mut v, fill, pad);
            push_str_chars(&mut v, s);
        },
        Alignment::Center => {
            push_fill(&mut v, fill, pad / 2);
            push_str_chars(&mut v, s);
            push_fill(&mut v, fill, pad - pad / 2);
        },
    }
    chars_to_string(v)
}

} // verus!
