use corporation_tax::error::LedgerError;
use corporation_tax::money::Money;

fn m(c: i64) -> Money {
    Money::from_cents(c)
}

#[test]
fn scaled_integer_renders_as_decimal_text() {
    assert_eq!(m(12723).to_decimal_string(), "127.23");
    assert_eq!(m(0).to_decimal_string(), "0.00");
    assert_eq!(m(5).to_decimal_string(), "0.05");
    assert_eq!(m(-5).to_decimal_string(), "-0.05");
    assert_eq!(m(-12700).to_decimal_string(), "-127.00");
    assert_eq!(m(i64::MIN).to_decimal_string(), "-92233720368547758.08");
}

#[test]
fn sums_of_scaled_integers_are_exact() {
    assert_eq!(m(100).checked_add(m(23)), Ok(m(123)));
    assert_eq!(m(100).checked_sub(m(23)), Ok(m(77)));
    assert_eq!(m(7).checked_add(Money::zero()), Ok(m(7)));
    assert_eq!(m(i64::MAX).checked_add(m(1)), Err(LedgerError::Overflow));
    assert_eq!(m(i64::MIN).checked_sub(m(1)), Err(LedgerError::Overflow));
}

#[test]
fn rate_products_round_half_up() {
    assert_eq!(m(4000).mul_rate(m(500)), Ok(m(20000)));
    // 0.25 * 0.10 = 0.025, rounded half up to 0.03
    assert_eq!(m(25).mul_rate(m(10)), Ok(m(3)));
    // 0.24 * 0.10 = 0.024, rounded to 0.02
    assert_eq!(m(24).mul_rate(m(10)), Ok(m(2)));
    // -0.25 * 0.10 = -0.025, rounded half up to -0.02
    assert_eq!(m(-25).mul_rate(m(10)), Ok(m(-2)));
    assert_eq!(m(-26).mul_rate(m(10)), Ok(m(-3)));
    assert_eq!(m(i64::MAX).mul_rate(m(200)), Err(LedgerError::Overflow));
}

#[test]
fn sign_tests() {
    assert!(m(-1).is_negative());
    assert!(!m(0).is_negative());
    assert!(m(1).is_positive());
    assert!(!m(0).is_positive());
    assert_eq!(m(42).cents(), 42);
}

#[test]
fn decimal_text_parses_exactly() {
    assert_eq!(Money::from_decimal_str("127.23"), Ok(m(12723)));
    assert_eq!(Money::from_decimal_str("-127.23"), Ok(m(-12723)));
    assert_eq!(Money::from_decimal_str("+5"), Ok(m(500)));
    assert_eq!(Money::from_decimal_str("5.5"), Ok(m(550)));
    assert_eq!(Money::from_decimal_str("0.05"), Ok(m(5)));
    assert_eq!(Money::from_decimal_str("-92233720368547758.08"), Ok(m(i64::MIN)));
    assert_eq!(Money::from_decimal_str("92233720368547758.07"), Ok(m(i64::MAX)));
}

#[test]
fn decimal_text_errors() {
    assert_eq!(Money::from_decimal_str("1.234"), Err(LedgerError::PrecisionLoss));
    assert_eq!(Money::from_decimal_str("1."), Err(LedgerError::InvalidFormat));
    assert_eq!(Money::from_decimal_str(".5"), Err(LedgerError::InvalidFormat));
    assert_eq!(Money::from_decimal_str("1,5"), Err(LedgerError::InvalidFormat));
    assert_eq!(Money::from_decimal_str(""), Err(LedgerError::InvalidFormat));
    assert_eq!(Money::from_decimal_str("-"), Err(LedgerError::InvalidFormat));
    assert_eq!(Money::from_decimal_str("92233720368547758.08"), Err(LedgerError::Overflow));
    assert_eq!(Money::from_decimal_str("1000000000000000000000"), Err(LedgerError::Overflow));
}

#[test]
fn decimal_text_round_trips() {
    for c in [0, 1, -1, 99, 100, 12723, -12723, i64::MAX, i64::MIN] {
        let t = m(c).to_decimal_string();
        assert_eq!(Money::from_decimal_str(&t), Ok(m(c)));
    }
}

#[test]
fn amounts_compare_by_value() {
    assert_eq!(m(-1).compare(&m(0)), std::cmp::Ordering::Less);
    assert_eq!(m(5).compare(&m(5)), std::cmp::Ordering::Equal);
    assert_eq!(m(500).compare(&m(499)), std::cmp::Ordering::Greater);
}
