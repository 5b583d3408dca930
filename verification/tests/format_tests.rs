use dsz::decimal::decimal_string;
use dsz::format::size_in_bytes_pretty_string;

#[test]
fn zero_bytes() {
    assert_eq!(size_in_bytes_pretty_string(0), "0 B");
}

#[test]
fn one_megabyte_exact() {
    assert_eq!(size_in_bytes_pretty_string(1048576), "1 MB");
}

#[test]
fn one_and_a_half_kilobytes_trimmed() {
    assert_eq!(size_in_bytes_pretty_string(1536), "1.5 KB");
}

#[test]
fn largest_byte_value() {
    assert_eq!(size_in_bytes_pretty_string(1023), "1023 B");
}

#[test]
fn one_kilobyte_exact() {
    assert_eq!(size_in_bytes_pretty_string(1024), "1 KB");
}

#[test]
fn two_decimal_places_kept() {
    // 1075 bytes = 1 KB + 51 B; 51 * 100 / 1024 = 4 hundredths
    assert_eq!(size_in_bytes_pretty_string(1075), "1.04 KB");
}

#[test]
fn fraction_truncated_not_rounded() {
    // 100000 bytes = 97 KB + 672 B; 672 * 100 / 1024 = 65 hundredths
    assert_eq!(size_in_bytes_pretty_string(100000), "97.65 KB");
}

#[test]
fn gigabytes_and_terabytes() {
    assert_eq!(size_in_bytes_pretty_string(1073741824), "1 GB");
    assert_eq!(size_in_bytes_pretty_string(1099511627776), "1 TB");
}

#[test]
fn beyond_terabytes_stays_in_terabytes() {
    // 2048 TB stays expressed in TB
    assert_eq!(size_in_bytes_pretty_string(1099511627776 * 2048), "2048 TB");
}

#[test]
fn decimal_rendering() {
    assert_eq!(decimal_string(0), "0");
    assert_eq!(decimal_string(7), "7");
    assert_eq!(decimal_string(18446744073709551615), "18446744073709551615");
}

#[test]
fn largest_value_formats() {
    assert_eq!(size_in_bytes_pretty_string(u64::MAX), "16777215.99 TB");
}
