use clear_docker_images::size::{deserialize_size, format_saved_space, SizeFault};

fn bytes(text: &str) -> u64 {
    deserialize_size(text).unwrap()
}

fn fault(text: &str) -> SizeFault {
    let error = deserialize_size(text).unwrap_err();
    assert_eq!(error.input, text);
    error.fault
}

#[test]
fn whole_numbers_of_each_unit() {
    assert_eq!(bytes("500MB"), 500_000_000);
    assert_eq!(bytes("500KB"), 500_000);
    assert_eq!(bytes("500GB"), 500_000_000_000);
    assert_eq!(bytes("0MB"), 0);
    assert_eq!(bytes("007KB"), 7_000);
}

#[test]
fn a_kilobyte_is_a_thousandth_and_a_gigabyte_a_thousand_megabytes() {
    for magnitude in ["1", "12", "72.9", "1.5", "0.25", "999.999", "13.3"] {
        let kilo = bytes(&format!("{}KB", magnitude));
        let mega = bytes(&format!("{}MB", magnitude));
        let giga = bytes(&format!("{}GB", magnitude));
        assert_eq!(mega, kilo * 1000);
        assert_eq!(giga, mega * 1000);
    }
}

#[test]
fn decimal_magnitudes() {
    assert_eq!(bytes("72.9MB"), 72_900_000);
    assert_eq!(bytes("1.5GB"), 1_500_000_000);
    assert_eq!(bytes("13.3KB"), 13_300);
    assert_eq!(bytes("1.234567MB"), 1_234_567);
    assert_eq!(bytes(".5MB"), 500_000);
    assert_eq!(bytes("5.MB"), 5_000_000);
    assert_eq!(bytes("0.001KB"), 1);
}

#[test]
fn parts_of_a_byte_are_dropped() {
    assert_eq!(bytes("0.0009KB"), 0);
    assert_eq!(bytes("1.2349KB"), 1_234);
    assert_eq!(bytes("1.2345678MB"), 1_234_567);
    assert_eq!(bytes("0.9999999999GB"), 999_999_999);
}

#[test]
fn other_units_are_refused() {
    assert_eq!(fault("500TB"), SizeFault::UnknownUnit);
    assert_eq!(fault("500B"), SizeFault::UnknownUnit);
    assert_eq!(fault("0B"), SizeFault::UnknownUnit);
    assert_eq!(fault("500"), SizeFault::UnknownUnit);
    assert_eq!(fault(""), SizeFault::UnknownUnit);
    assert_eq!(fault("B"), SizeFault::UnknownUnit);
    assert_eq!(fault("500mb"), SizeFault::UnknownUnit);
    assert_eq!(fault("500Mb"), SizeFault::UnknownUnit);
    assert_eq!(fault("500kB"), SizeFault::UnknownUnit);
    assert_eq!(fault("500MB "), SizeFault::UnknownUnit);
    assert_eq!(fault("MB500"), SizeFault::UnknownUnit);
    assert_eq!(fault("500MiB"), SizeFault::UnknownUnit);
    assert_eq!(fault("500M\u{20ac}"), SizeFault::UnknownUnit);
}

#[test]
fn magnitudes_that_are_no_decimal_numbers_are_refused() {
    assert_eq!(fault("MB"), SizeFault::InvalidMagnitude);
    assert_eq!(fault(".MB"), SizeFault::InvalidMagnitude);
    assert_eq!(fault("1e3MB"), SizeFault::InvalidMagnitude);
    assert_eq!(fault("-5MB"), SizeFault::InvalidMagnitude);
    assert_eq!(fault("+5MB"), SizeFault::InvalidMagnitude);
    assert_eq!(fault("5 MB"), SizeFault::InvalidMagnitude);
    assert_eq!(fault("1.2.3MB"), SizeFault::InvalidMagnitude);
    assert_eq!(fault("1,5MB"), SizeFault::InvalidMagnitude);
    assert_eq!(fault("KBMB"), SizeFault::InvalidMagnitude);
    assert_eq!(fault("\u{ff15}MB"), SizeFault::InvalidMagnitude);
    assert_eq!(fault("infMB"), SizeFault::InvalidMagnitude);
}

#[test]
fn the_largest_size_and_the_first_too_large() {
    assert_eq!(bytes("18446744073709.551615MB"), u64::MAX);
    assert_eq!(fault("18446744073709.551616MB"), SizeFault::TooLarge);
    assert_eq!(bytes("18446744073.709551615GB"), u64::MAX);
    assert_eq!(fault("18446744073.709551616GB"), SizeFault::TooLarge);
    assert_eq!(fault("99999999999999999999999999999999999999999999KB"), SizeFault::TooLarge);
    assert_eq!(fault("18446744073709552KB"), SizeFault::TooLarge);
    assert_eq!(bytes("18446744073709551KB"), 18_446_744_073_709_551_000);
}

#[test]
fn size_errors_say_what_was_wrong() {
    assert_eq!(
        deserialize_size("12TB").unwrap_err().message(),
        "Unknown size identification: 12TB"
    );
    assert_eq!(
        deserialize_size("x2MB").unwrap_err().message(),
        "failed to read the number of size: x2MB"
    );
    assert_eq!(
        deserialize_size("99999999999999999999GB").unwrap_err().message(),
        "size is too large: 99999999999999999999GB"
    );
}

#[test]
fn totals_below_a_thousand_megabytes_are_shown_in_megabytes() {
    assert_eq!(format_saved_space(0), "0.00MB");
    assert_eq!(format_saved_space(500_000_000), "500.00MB");
    assert_eq!(format_saved_space(72_900_000), "72.90MB");
    assert_eq!(format_saved_space(1_234_567), "1.23MB");
    assert_eq!(format_saved_space(13_300), "0.01MB");
    assert_eq!(format_saved_space(4_999), "0.00MB");
    assert_eq!(format_saved_space(5_000), "0.01MB");
    assert_eq!(format_saved_space(999_994_999), "999.99MB");
    assert_eq!(format_saved_space(999_995_000), "1000.00MB");
    assert_eq!(format_saved_space(999_999_999), "1000.00MB");
}

#[test]
fn totals_from_a_thousand_megabytes_on_are_shown_in_gigabytes() {
    assert_eq!(format_saved_space(1_000_000_000), "1.00GB");
    assert_eq!(format_saved_space(1_500_000_000), "1.50GB");
    assert_eq!(format_saved_space(1_004_999_999), "1.00GB");
    assert_eq!(format_saved_space(1_005_000_000), "1.01GB");
    assert_eq!(format_saved_space(123_456_789_000), "123.46GB");
    assert_eq!(
        format_saved_space(u128::MAX),
        "340282366920938463463374607431.77GB"
    );
}
