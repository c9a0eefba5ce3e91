use bytesize::ByteSize;
use bytesize::B;
use bytesize::KB;
use bytesize::MB;

#[test]
fn test_arithmetic_op() {
    let mut x = ByteSize::mb(1);
    let y = ByteSize::kb(100);

    assert_eq!((x + y).as_u64(), 1_100_000u64);

    assert_eq!((x - y).as_u64(), 900_000u64);

    assert_eq!((x + (100 * 1000) as u64).as_u64(), 1_100_000);

    assert_eq!((x * 2u64).as_u64(), 2_000_000);

    x = x + y;
    assert_eq!(x.as_u64(), 1_100_000);
    x = x * 2u64;
    assert_eq!(x.as_u64(), 2_200_000);
}

#[test]
fn test_arithmetic_primitives() {
    let mut x = ByteSize::mb(1);

    assert_eq!((x + MB).as_u64(), 2_000_000);

    assert_eq!((x + MB as u32 as u64).as_u64(), 2_000_000);

    assert_eq!((x + KB as u16 as u64).as_u64(), 1_001_000);

    assert_eq!((x + B as u8 as u64).as_u64(), 1_000_001);

    assert_eq!((x - MB).as_u64(), 0);

    assert_eq!((x - MB as u32 as u64).as_u64(), 0);

    assert_eq!((x - KB as u32 as u64).as_u64(), 999_000);

    assert_eq!((x - B as u32 as u64).as_u64(), 999_999);

    x = x + MB;
    x = x + MB as u32 as u64;
    x = x + 10u16 as u64;
    x = x + 1u8 as u64;
    assert_eq!(x.as_u64(), 3_000_011);
}

#[test]
fn test_comparison() {
    assert!(ByteSize::mb(1) == ByteSize::kb(1000));
    assert!(ByteSize::mib(1) == ByteSize::kib(1024));
    assert!(ByteSize::mb(1) != ByteSize::kib(1024));
    assert!(ByteSize::mb(1) < ByteSize::kib(1024));
    assert!(ByteSize::b(0) < ByteSize::tib(1));
}

#[test]
fn test_default() {
    assert_eq!(ByteSize::b(0), ByteSize::default());
}

#[test]
fn sum_and_difference_of_unit_factories() {
    let plus = ByteSize::mb(1) + ByteSize::kb(100);
    assert_eq!(plus.as_u64(), 1_100_000);

    let minus = ByteSize::tb(1) - ByteSize::gb(4);
    assert_eq!(ByteSize::gb(996), minus);
}

#[test]
fn scalar_division() {
    assert_eq!(ByteSize::kb(10) / 4u64, ByteSize::kb(2) + 500u64);
    assert_eq!((ByteSize::b(7) / 2u64).as_u64(), 3);
}

#[test]
fn free_unit_factories() {
    assert_eq!(bytesize::kb(3u64), 3_000);
    assert_eq!(bytesize::kib(3u64), 3_072);
    assert_eq!(bytesize::mb(2u64), 2_000_000);
    assert_eq!(bytesize::mib(2u64), 2_097_152);
    assert_eq!(bytesize::gb(1u64), 1_000_000_000);
    assert_eq!(bytesize::gib(1u64), 1_073_741_824);
    assert_eq!(bytesize::tb(1u64), 1_000_000_000_000);
    assert_eq!(bytesize::tib(1u64), 1_099_511_627_776);
    assert_eq!(bytesize::pb(1u64), 1_000_000_000_000_000);
    assert_eq!(bytesize::pib(1u64), 1_125_899_906_842_624);
}
