use pardu::format::{decimal_string, format_size, human_size};

#[test]
fn zero_bytes_human() {
    assert_eq!(format_size(0, false), "0.0B");
}

#[test]
fn one_and_a_half_kib() {
    assert_eq!(format_size(1536, false), "1.5K");
}

#[test]
fn ten_kib_drops_fraction() {
    assert_eq!(format_size(10240, false), " 10K");
    assert_eq!(format_size(10240, false).trim_start(), "10K");
}

#[test]
fn raw_is_exact_decimal() {
    assert_eq!(format_size(1536, true), "1536");
    assert_eq!(format_size(0, true), "0");
    assert_eq!(format_size(u64::MAX, true), "18446744073709551615");
}

#[test]
fn small_byte_counts() {
    assert_eq!(human_size(1), "1.0B");
    assert_eq!(human_size(9), "9.0B");
    assert_eq!(human_size(10), " 10B");
    assert_eq!(human_size(15), " 15B");
    assert_eq!(human_size(100), "100B");
    assert_eq!(human_size(1023), "1023B");
}

#[test]
fn fractional_digit_below_ten() {
    assert_eq!(human_size(1024), "1.0K");
    assert_eq!(human_size(9728), "9.5K");
    assert_eq!(human_size(15 * 1024), " 15K");
    assert_eq!(human_size(100 * 1024), "100K");
}

#[test]
fn ties_round_to_even() {
    // 1280 bytes is exactly 1.25K, 1792 bytes exactly 1.75K
    assert_eq!(human_size(1280), "1.2K");
    assert_eq!(human_size(1792), "1.8K");
}

#[test]
fn larger_magnitudes() {
    assert_eq!(human_size(1024 * 1024), "1.0M");
    assert_eq!(human_size(3 * 1024 * 1024 * 1024), "3.0G");
    assert_eq!(human_size(1u64 << 40), "1.0T");
    assert_eq!(human_size(1u64 << 50), "1.0P");
    assert_eq!(human_size(1u64 << 60), "1.0E");
    assert_eq!(human_size(u64::MAX), " 16E");
}

#[test]
fn decimal_digits() {
    assert_eq!(decimal_string(0), "0");
    assert_eq!(decimal_string(907), "907");
}
