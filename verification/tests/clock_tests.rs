use catalog_store::clock::{dec_string, format_timestamp, two_digit_string};

#[test]
fn epoch_start_formats_as_new_years_1970() {
    assert_eq!(format_timestamp(0), "1970-01-01 00:00:00");
}

#[test]
fn known_moment_formats_exactly() {
    assert_eq!(format_timestamp(1_700_000_000), "2023-11-14 22:13:20");
}

#[test]
fn leap_day_is_rendered() {
    assert_eq!(format_timestamp(1_709_164_800), "2024-02-29 00:00:00");
}

#[test]
fn last_second_of_a_day_rolls_no_further() {
    assert_eq!(format_timestamp(86_399), "1970-01-01 23:59:59");
    assert_eq!(format_timestamp(86_400), "1970-01-02 00:00:00");
}

#[test]
fn decimal_rendering() {
    assert_eq!(dec_string(0), "0");
    assert_eq!(dec_string(7), "7");
    assert_eq!(dec_string(1970), "1970");
    assert_eq!(dec_string(10_000_000_019), "10000000019");
}

#[test]
fn two_digit_rendering_pads() {
    assert_eq!(two_digit_string(0), "00");
    assert_eq!(two_digit_string(9), "09");
    assert_eq!(two_digit_string(42), "42");
}
