use api_formatter::format_float;
use api_formatter::format_i64;
use api_formatter::format_int;
use api_formatter::format_u64;
use api_formatter::format_uint;
use api_formatter::Policy;

fn off() -> Policy {
    Policy { rescale: false }
}

fn on() -> Policy {
    Policy { rescale: true }
}

#[test]
fn groups_thousands() {
    assert_eq!(format_i64(1000000), "1,000,000");
    assert_eq!(format_u64(1234567), "1,234,567");
    assert_eq!(format_i64(999), "999");
    assert_eq!(format_i64(1000), "1,000");
}

#[test]
fn keeps_sign() {
    assert_eq!(format_i64(-42), "-42");
    assert_eq!(format_i64(-1234567), "-1,234,567");
}

#[test]
fn renders_zero() {
    assert_eq!(format_i64(0), "0");
    assert_eq!(format_u64(0), "0");
}

#[test]
fn renders_64_bit_extremes() {
    assert_eq!(format_i64(i64::MIN), "-9,223,372,036,854,775,808");
    assert_eq!(format_i64(i64::MAX), "9,223,372,036,854,775,807");
    assert_eq!(format_u64(u64::MAX), "18,446,744,073,709,551,615");
}

#[test]
fn rescales_at_threshold() {
    assert_eq!(format_int(2000000000000, on()), "2.000");
    assert_eq!(format_uint(1000000000000, on()), "1.000");
    assert_eq!(format_int(-2500000000000, on()), "-2.500");
}

#[test]
fn keeps_integers_just_under_threshold() {
    assert_eq!(format_int(999999999999, on()), "999,999,999,999");
    assert_eq!(format_uint(999999999999, on()), "999,999,999,999");
}

#[test]
fn rescaling_off_keeps_digits() {
    assert_eq!(format_int(2000000000000, off()), "2,000,000,000,000");
    assert_eq!(format_uint(u64::MAX, off()), "18,446,744,073,709,551,615");
}

#[test]
fn rescaling_is_lossy_but_grouped() {
    assert_eq!(format_int(1234567891234567, on()), "1,234.567");
    assert_eq!(format_uint(u64::MAX, on()), "18,446,744.073");
}

#[test]
fn float_three_fraction_digits() {
    assert_eq!(format_float(&String::from("1234.5678"), off()), Some(String::from("1,234.567")));
    assert_eq!(format_float(&String::from("2.5"), off()), Some(String::from("2.500")));
    assert_eq!(format_float(&String::from("7.0"), off()), Some(String::from("7.000")));
}

#[test]
fn float_negative() {
    assert_eq!(format_float(&String::from("-0.5"), off()), Some(String::from("-0.500")));
    assert_eq!(format_float(&String::from("-1234.5"), off()), Some(String::from("-1,234.500")));
}

#[test]
fn float_zero_is_unsigned() {
    assert_eq!(format_float(&String::from("0.0"), off()), Some(String::from("0.000")));
    assert_eq!(format_float(&String::from("-0.0"), off()), Some(String::from("0.000")));
}

#[test]
fn float_exponent_forms() {
    assert_eq!(format_float(&String::from("1e3"), off()), Some(String::from("1,000.000")));
    assert_eq!(format_float(&String::from("2.5e-3"), off()), Some(String::from("0.002")));
    assert_eq!(format_float(&String::from("1.5E2"), off()), Some(String::from("150.000")));
}

#[test]
fn float_rescaled_at_threshold() {
    assert_eq!(format_float(&String::from("2e12"), on()), Some(String::from("2.000")));
    assert_eq!(format_float(&String::from("2000000000000.0"), on()), Some(String::from("2.000")));
    assert_eq!(format_float(&String::from("999999999999.0"), on()), Some(String::from("999,999,999,999.000")));
}

#[test]
fn float_rejects_non_decimal_text() {
    assert_eq!(format_float(&String::from("NaN"), off()), None);
    assert_eq!(format_float(&String::from("inf"), off()), None);
    assert_eq!(format_float(&String::from("-inf"), off()), None);
    assert_eq!(format_float(&String::from(""), off()), None);
    assert_eq!(format_float(&String::from("1.2.3"), off()), None);
    assert_eq!(format_float(&String::from("1e99999"), off()), None);
}
