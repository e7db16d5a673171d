use station_photos::decimal::{u128_text, Decimal};
use station_photos::proximity::is_within;

fn dec(text: &str) -> Decimal {
    Decimal::parse(text).unwrap()
}

#[test]
fn parse_reads_whole_numbers() {
    assert_eq!(Decimal::parse("100"), Some(Decimal { nanos: 100_000_000_000 }));
    assert_eq!(Decimal::parse("0"), Some(Decimal { nanos: 0 }));
    assert_eq!(Decimal::parse("007"), Some(Decimal { nanos: 7_000_000_000 }));
}

#[test]
fn parse_reads_fractions() {
    assert_eq!(Decimal::parse("100.5"), Some(Decimal { nanos: 100_500_000_000 }));
    assert_eq!(Decimal::parse("120.0000005"), Some(Decimal { nanos: 120_000_000_500 }));
    assert_eq!(Decimal::parse(".5"), Some(Decimal { nanos: 500_000_000 }));
    assert_eq!(Decimal::parse("5."), Some(Decimal { nanos: 5_000_000_000 }));
    assert_eq!(Decimal::parse("0.000000001"), Some(Decimal { nanos: 1 }));
}

#[test]
fn parse_reads_signs() {
    assert_eq!(Decimal::parse("-0.5"), Some(Decimal { nanos: -500_000_000 }));
    assert_eq!(Decimal::parse("+1"), Some(Decimal { nanos: 1_000_000_000 }));
    assert_eq!(Decimal::parse("-0"), Some(Decimal { nanos: 0 }));
}

#[test]
fn parse_cuts_after_the_ninth_digit() {
    assert_eq!(Decimal::parse("0.1234567891"), Some(Decimal { nanos: 123_456_789 }));
    assert_eq!(Decimal::parse("0.9999999999"), Some(Decimal { nanos: 999_999_999 }));
    assert_eq!(Decimal::parse("-0.0000000009"), Some(Decimal { nanos: 0 }));
}

#[test]
fn parse_refuses_what_is_not_decimal_text() {
    assert_eq!(Decimal::parse(""), None);
    assert_eq!(Decimal::parse("."), None);
    assert_eq!(Decimal::parse("+"), None);
    assert_eq!(Decimal::parse("-."), None);
    assert_eq!(Decimal::parse("abc"), None);
    assert_eq!(Decimal::parse("1.2.3"), None);
    assert_eq!(Decimal::parse(" 1"), None);
    assert_eq!(Decimal::parse("1 "), None);
    assert_eq!(Decimal::parse("--1"), None);
    assert_eq!(Decimal::parse("inf"), None);
    assert_eq!(Decimal::parse("-inf"), None);
    assert_eq!(Decimal::parse("infinity"), None);
    assert_eq!(Decimal::parse("NaN"), None);
    assert_eq!(Decimal::parse("\u{0661}"), None);
}

#[test]
fn parse_reads_exponents() {
    assert_eq!(Decimal::parse("1e2"), Some(Decimal { nanos: 100_000_000_000 }));
    assert_eq!(Decimal::parse("1E2"), Some(Decimal { nanos: 100_000_000_000 }));
    assert_eq!(Decimal::parse("1e+2"), Some(Decimal { nanos: 100_000_000_000 }));
    assert_eq!(Decimal::parse("1e0"), Some(Decimal { nanos: 1_000_000_000 }));
    assert_eq!(Decimal::parse("1e-0"), Some(Decimal { nanos: 1_000_000_000 }));
    assert_eq!(Decimal::parse("1.5e-3"), Some(Decimal { nanos: 1_500_000 }));
    assert_eq!(Decimal::parse("-2.5E1"), Some(Decimal { nanos: -25_000_000_000 }));
    assert_eq!(Decimal::parse("+.5e1"), Some(Decimal { nanos: 5_000_000_000 }));
    assert_eq!(Decimal::parse("5.e1"), Some(Decimal { nanos: 50_000_000_000 }));
    assert_eq!(Decimal::parse("1.20000005e2"), Some(Decimal { nanos: 120_000_005_000 }));
    assert_eq!(Decimal::parse("0.000000001e9"), Some(Decimal { nanos: 1_000_000_000 }));
    assert_eq!(Decimal::parse("1e-9"), Some(Decimal { nanos: 1 }));
    assert_eq!(Decimal::parse("1e-10"), Some(Decimal { nanos: 0 }));
    assert_eq!(Decimal::parse("19e-10"), Some(Decimal { nanos: 1 }));
    assert_eq!(Decimal::parse("123456789e-4"), Some(Decimal { nanos: 12_345_678_900_000 }));
    assert_eq!(Decimal::parse("9e9"), Some(Decimal { nanos: 9_000_000_000_000_000_000 }));
    assert_eq!(Decimal::parse("9.223372036854775807e9"), Some(Decimal { nanos: i64::MAX }));
    assert_eq!(Decimal::parse("-9.223372036854775808e9"), Some(Decimal { nanos: i64::MIN }));
    assert_eq!(
        Decimal::parse("100000000000000000000000e-20"),
        Some(Decimal { nanos: 1_000_000_000_000 })
    );
    assert_eq!(
        Decimal::parse("0.00000000000000000000000001e26"),
        Some(Decimal { nanos: 1_000_000_000 })
    );
}

#[test]
fn parse_reads_exponents_of_any_size() {
    let huge = "9".repeat(60);
    assert_eq!(Decimal::parse(&format!("0e{}", huge)), Some(Decimal { nanos: 0 }));
    assert_eq!(Decimal::parse(&format!("0.000e{}", huge)), Some(Decimal { nanos: 0 }));
    assert_eq!(Decimal::parse(&format!("1e{}", huge)), None);
    assert_eq!(Decimal::parse(&format!("0.0001e{}", huge)), None);
    assert_eq!(Decimal::parse(&format!("1e-{}", huge)), Some(Decimal { nanos: 0 }));
    assert_eq!(Decimal::parse(&format!("{}e-{}", huge, huge)), Some(Decimal { nanos: 0 }));
    // Sixty nines with the point moved 51 places left: nine nines before it.
    assert_eq!(
        Decimal::parse(&format!("-{}e-51", huge)),
        Some(Decimal { nanos: -999_999_999_999_999_999 })
    );
    assert_eq!(Decimal::parse(&format!("{}e-60", huge)), Some(Decimal { nanos: 999_999_999 }));
    assert_eq!(Decimal::parse("1e10"), None);
    assert_eq!(Decimal::parse("9.3e9"), None);
    assert_eq!(Decimal::parse("1e19"), None);
    assert_eq!(Decimal::parse("1e20"), None);
    assert_eq!(Decimal::parse("1e30"), None);
    assert_eq!(Decimal::parse("1e000000000000000000000000000000000002"), Some(Decimal { nanos: 100_000_000_000 }));
}

#[test]
fn parse_refuses_a_malformed_exponent() {
    assert_eq!(Decimal::parse("1e"), None);
    assert_eq!(Decimal::parse("1e+"), None);
    assert_eq!(Decimal::parse("1e-"), None);
    assert_eq!(Decimal::parse("e5"), None);
    assert_eq!(Decimal::parse(".e5"), None);
    assert_eq!(Decimal::parse("-e5"), None);
    assert_eq!(Decimal::parse("1e5.5"), None);
    assert_eq!(Decimal::parse("1e5e5"), None);
    assert_eq!(Decimal::parse("1e--5"), None);
    assert_eq!(Decimal::parse("1e 5"), None);
    assert_eq!(Decimal::parse("1x5"), None);
    assert_eq!(Decimal::parse("1.e"), None);
    assert_eq!(Decimal::parse("1e5 "), None);
}

#[test]
fn parse_holds_the_whole_range_and_no_more() {
    assert_eq!(Decimal::parse("9223372036.854775807"), Some(Decimal { nanos: i64::MAX }));
    assert_eq!(Decimal::parse("9223372036.854775808"), None);
    assert_eq!(Decimal::parse("-9223372036.854775808"), Some(Decimal { nanos: i64::MIN }));
    assert_eq!(Decimal::parse("-9223372036.854775809"), None);
    assert_eq!(Decimal::parse("99999999999999999999999999999999999999999999"), None);
}

#[test]
fn text_is_the_shortest() {
    assert_eq!(Decimal { nanos: 0 }.to_text(), "0");
    assert_eq!(Decimal { nanos: 120_000_000_000 }.to_text(), "120");
    assert_eq!(Decimal { nanos: 120_000_000_500 }.to_text(), "120.0000005");
    assert_eq!(Decimal { nanos: -500_000_000 }.to_text(), "-0.5");
    assert_eq!(Decimal { nanos: 1 }.to_text(), "0.000000001");
    assert_eq!(Decimal { nanos: 30_100_000_000 }.to_text(), "30.1");
    assert_eq!(Decimal { nanos: i64::MAX }.to_text(), "9223372036.854775807");
    assert_eq!(Decimal { nanos: i64::MIN }.to_text(), "-9223372036.854775808");
}

#[test]
fn text_reads_back_as_the_same_number() {
    for nanos in [0, 1, -1, 999_999_999, 1_000_000_000, -120_000_000_500, i64::MAX, i64::MIN] {
        let number = Decimal { nanos };
        assert_eq!(Decimal::parse(&number.to_text()), Some(number));
    }
}

#[test]
fn counts_are_written_in_base_ten() {
    assert_eq!(u128_text(0), "0");
    assert_eq!(u128_text(9), "9");
    assert_eq!(u128_text(10), "10");
    assert_eq!(u128_text(18_446_744_073_709_551_615), "18446744073709551615");
    assert_eq!(u128_text(18_446_744_073_709_551_616), "18446744073709551616");
    assert_eq!(u128_text(u128::MAX), "340282366920938463463374607431768211455");
}

#[test]
fn a_photo_half_a_millionth_of_a_degree_away_is_within_a_hundred_metres() {
    assert!(is_within(dec("120.000000"), dec("30.000000"), dec("120.0000005"), dec("30.0"), dec("100")));
}

#[test]
fn a_photo_a_hundredth_of_a_degree_away_is_not_within_a_hundred_metres() {
    assert!(!is_within(dec("120.000000"), dec("30.000000"), dec("120.01"), dec("30.0"), dec("100")));
    assert!(!is_within(dec("120"), dec("30"), dec("120.01"), dec("30"), dec("876.4")));
    assert!(is_within(dec("120"), dec("30"), dec("120.01"), dec("30"), dec("876.5")));
}

#[test]
fn a_photo_at_exactly_the_radius_is_within_it() {
    // 0.00001141 of a degree of longitude is one metre.
    assert!(is_within(dec("0"), dec("0"), dec("0.00001141"), dec("0"), dec("1")));
    assert!(!is_within(dec("0"), dec("0"), dec("0.00001141"), dec("0"), dec("0.999999999")));
    assert!(!is_within(dec("0"), dec("0"), dec("0.000011411"), dec("0"), dec("1")));
    // 0.00000899 of a degree of latitude is one metre.
    assert!(is_within(dec("0"), dec("0"), dec("0"), dec("-0.00000899"), dec("1")));
    assert!(!is_within(dec("0"), dec("0"), dec("0"), dec("-0.000008991"), dec("1")));
}

#[test]
fn distance_is_that_of_the_plane() {
    // Three metres east and four metres north are five metres away.
    assert!(is_within(dec("10"), dec("20"), dec("10.00003423"), dec("20.00003596"), dec("5")));
    assert!(!is_within(
        dec("10"),
        dec("20"),
        dec("10.00003423"),
        dec("20.00003596"),
        dec("4.999999999")
    ));
}

#[test]
fn a_negative_radius_reaches_as_far_as_the_positive_one() {
    assert!(is_within(dec("0"), dec("0"), dec("0.00001141"), dec("0"), dec("-1")));
    assert!(!is_within(dec("0"), dec("0"), dec("0.00001141"), dec("0"), dec("-0.5")));
}

#[test]
fn a_radius_of_zero_holds_the_centre_only() {
    assert!(is_within(dec("1"), dec("2"), dec("1"), dec("2"), dec("0")));
    assert!(!is_within(dec("1"), dec("2"), dec("1.000000001"), dec("2"), dec("0")));
}

#[test]
fn the_largest_values_are_decided() {
    let low = Decimal { nanos: i64::MIN };
    let high = Decimal { nanos: i64::MAX };
    assert!(!is_within(low, low, high, high, high));
    assert!(is_within(high, low, high, low, low));
    // 9223372036 metres reach about 105237 degrees of longitude.
    assert!(is_within(dec("0"), dec("0"), dec("105000"), dec("0"), high));
    assert!(!is_within(dec("0"), dec("0"), dec("105300"), dec("0"), high));
}
