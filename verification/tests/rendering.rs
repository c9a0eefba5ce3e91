use bytesize::display::Display;
use bytesize::display::Format;
use bytesize::to_string_format;
use bytesize::ByteSize;

fn assert_to_string(expected: &str, byte_size: ByteSize, format: Format) {
    assert_eq!(expected, Display { byte_size, format }.to_string());
}

#[test]
fn to_string_iec() {
    let display = Display { byte_size: ByteSize::gib(1), format: Format::Iec };
    assert_eq!("1.0 GiB", display.to_string());

    let display = Display { byte_size: ByteSize::gb(1), format: Format::Iec };
    assert_eq!("953.7 MiB", display.to_string());
}

#[test]
fn to_string_si() {
    let display = Display { byte_size: ByteSize::gib(1), format: Format::Si };
    assert_eq!("1.1 GB", display.to_string());

    let display = Display { byte_size: ByteSize::gb(1), format: Format::Si };
    assert_eq!("1.0 GB", display.to_string());
}

#[test]
fn to_string_short() {
    let display = Display { byte_size: ByteSize::gib(1), format: Format::IecShort };
    assert_eq!("1.0G", display.to_string());

    let display = Display { byte_size: ByteSize::gb(1), format: Format::IecShort };
    assert_eq!("953.7M", display.to_string());
}

#[test]
fn display_test_to_string_as() {
    assert_to_string("215 B", ByteSize::b(215), Format::Iec);
    assert_to_string("215 B", ByteSize::b(215), Format::Si);

    assert_to_string("1.0 KiB", ByteSize::kib(1), Format::Iec);
    assert_to_string("1.0 kB", ByteSize::kib(1), Format::Si);

    assert_to_string("293.9 KiB", ByteSize::kb(301), Format::Iec);
    assert_to_string("301.0 kB", ByteSize::kb(301), Format::Si);

    assert_to_string("1.0 MiB", ByteSize::mib(1), Format::Iec);
    assert_to_string("1.0 MB", ByteSize::mib(1), Format::Si);

    assert_to_string("1.9 GiB", ByteSize::mib(1907), Format::Iec);
    assert_to_string("2.0 GB", ByteSize::mib(1908), Format::Si);

    assert_to_string("399.6 MiB", ByteSize::mb(419), Format::Iec);
    assert_to_string("419.0 MB", ByteSize::mb(419), Format::Si);

    assert_to_string("482.4 GiB", ByteSize::gb(518), Format::Iec);
    assert_to_string("518.0 GB", ByteSize::gb(518), Format::Si);

    assert_to_string("741.2 TiB", ByteSize::tb(815), Format::Iec);
    assert_to_string("815.0 TB", ByteSize::tb(815), Format::Si);

    assert_to_string("540.9 PiB", ByteSize::pb(609), Format::Iec);
    assert_to_string("609.0 PB", ByteSize::pb(609), Format::Si);
}

#[test]
fn as_bits() {
    assert_to_string("8 b", ByteSize(1), Format::IecBits);
    assert_to_string("8 b", ByteSize(1), Format::SiBits);

    assert_to_string("8.4 Kib", ByteSize(8555), Format::IecBits);
    assert_to_string("8.6 kb", ByteSize(8555), Format::SiBits);
}

#[test]
fn precision() {
    let size = ByteSize::mib(1908);
    assert_eq!("1.9 GiB".to_string(), size.display().to_string());
    assert_eq!("2 GiB".to_string(), size.display().with_precision(0));
    assert_eq!("1.86328 GiB".to_string(), size.display().with_precision(5));
}

fn assert_display(expected: &str, b: ByteSize) {
    assert_eq!(expected, b.display().to_string());
}

#[test]
fn test_display() {
    assert_display("215 B", ByteSize::b(215));
    assert_display("1.0 KiB", ByteSize::kib(1));
    assert_display("301.0 KiB", ByteSize::kib(301));
    assert_display("419.0 MiB", ByteSize::mib(419));
    assert_display("518.0 GiB", ByteSize::gib(518));
    assert_display("815.0 TiB", ByteSize::tib(815));
    assert_display("609.0 PiB", ByteSize::pib(609));
}

fn assert_format(expected: &str, b: ByteSize, format: bytesize::Format) {
    assert_eq!(expected.to_string(), to_string_format(b.as_u64(), format));
}

#[test]
fn lib_test_to_string_as() {
    assert_format("215 B", ByteSize::b(215), bytesize::Format::IEC);
    assert_format("215 B", ByteSize::b(215), bytesize::Format::SI);

    assert_format("1.0 KiB", ByteSize::kib(1), bytesize::Format::IEC);
    assert_format("1.0 kB", ByteSize::kib(1), bytesize::Format::SI);

    assert_format("293.9 KiB", ByteSize::kb(301), bytesize::Format::IEC);
    assert_format("301.0 kB", ByteSize::kb(301), bytesize::Format::SI);

    assert_format("1.0 MiB", ByteSize::mib(1), bytesize::Format::IEC);
    assert_format("1.0 MB", ByteSize::mib(1), bytesize::Format::SI);

    assert_format("1.9 GiB", ByteSize::mib(1907), bytesize::Format::IEC);
    assert_format("2.0 GB", ByteSize::mib(1908), bytesize::Format::SI);

    assert_format("399.6 MiB", ByteSize::mb(419), bytesize::Format::IEC);
    assert_format("419.0 MB", ByteSize::mb(419), bytesize::Format::SI);

    assert_format("482.4 GiB", ByteSize::gb(518), bytesize::Format::IEC);
    assert_format("518.0 GB", ByteSize::gb(518), bytesize::Format::SI);

    assert_format("741.2 TiB", ByteSize::tb(815), bytesize::Format::IEC);
    assert_format("815.0 TB", ByteSize::tb(815), bytesize::Format::SI);

    assert_format("540.9 PiB", ByteSize::pb(609), bytesize::Format::IEC);
    assert_format("609.0 PB", ByteSize::pb(609), bytesize::Format::SI);
}

#[test]
fn test_to_string() {
    assert_format("609.0 PB", ByteSize::pb(609), bytesize::Format::SI);
}

#[test]
fn to_string_as_entry_points_agree() {
    let b = ByteSize::gb(518);
    assert_eq!("482.4 GiB", b.to_string_as(false));
    assert_eq!("518.0 GB", b.to_string_as(true));
    assert_eq!("482.4 GiB", bytesize::to_string(b.as_u64(), false));
    assert_eq!("518.0 GB", bytesize::to_string(b.as_u64(), true));
}
