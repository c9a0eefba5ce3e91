use bytesize::display::Display;
use bytesize::display::Format;
use bytesize::parse::parse;
use bytesize::tier::ideal_unit_iterative;
use bytesize::tier::ideal_unit_search;
use bytesize::ByteSize;

#[test]
fn exact_powers_render_as_one() {
    let mut p: u64 = 1;
    for t in 1..=6u32 {
        p *= 1024;
        let expected = format!("1.0 {}iB", "KMGTPE".as_bytes()[(t - 1) as usize] as char);
        assert_eq!(expected, ByteSize(p).to_string_as(false));
    }
    let mut q: u64 = 1;
    for t in 1..=6u32 {
        q *= 1000;
        let expected = format!("1.0 {}B", "kMGTPE".as_bytes()[(t - 1) as usize] as char);
        assert_eq!(expected, ByteSize(q).to_string_as(true));
    }
}

#[test]
fn rendering_length_is_bounded() {
    let samples: Vec<u64> = vec![
        0,
        1,
        999,
        1000,
        1023,
        1024,
        1025,
        999_949,
        999_950,
        1_048_575,
        1_048_576,
        1_024_000,
        123_456_789,
        u64::MAX - 1,
        u64::MAX,
    ];
    for v in samples {
        for f in [
            Format::Iec,
            Format::IecShort,
            Format::Si,
            Format::SiShort,
            Format::IecBits,
            Format::SiBits,
        ] {
            let s = Display { byte_size: ByteSize(v), format: f }.to_string();
            assert!(s.chars().count() <= 10, "{s:?} too long for {v}");
        }
        let si = Display { byte_size: ByteSize(v), format: Format::Si }.to_string();
        assert!(si.chars().count() <= 9, "{si:?} too long for {v}");
    }
    // The ten-character bound is reached in the binary family.
    assert_eq!("1000.0 KiB", ByteSize(1_024_000).to_string_as(false));
}

#[test]
fn tier_selectors_agree() {
    let samples: Vec<u64> = vec![
        1024,
        1025,
        1_000_000,
        1_048_576,
        1_073_741_823,
        1_073_741_824,
        999_999_999_999,
        u64::MAX,
    ];
    for m in samples {
        for base in [1000u64, 1024, 8000, 8192] {
            if m >= base {
                assert_eq!(
                    ideal_unit_iterative(m as u128, base),
                    ideal_unit_search(m as u128, base),
                    "selectors disagree at {m}/{base}"
                );
            }
        }
    }
}

// Round-tripping render through parse is not exact in general: one decimal
// digit cannot carry a full tier of resolution. The error is at most half a
// unit in the last printed place, `0.05 * base^tier` at default precision.
#[test]
fn round_trip_is_close_not_exact() {
    // Exact at the tier boundary.
    assert_eq!(parse(&ByteSize(1536).to_string_as(false)), Ok(ByteSize(1536)));

    // Inexact one byte over a tier boundary.
    let v = ByteSize(1047);
    let rendered = v.to_string_as(false);
    assert_eq!("1.0 KiB", rendered);
    assert_eq!(parse(&rendered), Ok(ByteSize(1024)));

    // Within the documented bound across tiers and both unit families.
    let samples: Vec<u64> = vec![1047, 123_456, 123_456_789, 987_654_321_987, u64::MAX / 3];
    for v in samples {
        for si in [false, true] {
            let base: u64 = if si { 1000 } else { 1024 };
            let rendered = ByteSize(v).to_string_as(si);
            let parsed = parse(&rendered).unwrap().as_u64();
            let mut tier_scale: u64 = 1;
            let mut m = v;
            while m >= base {
                m /= base;
                tier_scale *= base;
            }
            let bound = tier_scale / 20 + 1;
            let diff = parsed.abs_diff(v);
            assert!(diff <= bound, "{v} -> {rendered} -> {parsed}, off by {diff} > {bound}");
        }
    }
}

#[test]
fn rendering_is_never_blank() {
    for v in [0u64, 1, 1024, u64::MAX] {
        assert!(!ByteSize(v).to_string_as(false).is_empty());
        assert!(!ByteSize(v).to_string_as(true).is_empty());
    }
}
