use pcbrepair::decimal::Decimal;
use pcbrepair::decimal::parse_decimal_bytes;

#[test]
fn decimal_literals() {
    assert_eq!(parse_decimal_bytes(b"10"), Some(Decimal::new(10, 0)));
    assert_eq!(parse_decimal_bytes(b"0.5"), Some(Decimal::new(5, 1)));
    assert_eq!(parse_decimal_bytes(b"-1.25"), Some(Decimal::new(-125, 2)));
    assert_eq!(parse_decimal_bytes(b"+2.5"), Some(Decimal::new(25, 1)));
    // A comma is accepted as the decimal separator.
    assert_eq!(parse_decimal_bytes(b"3,14"), Some(Decimal::new(314, 2)));
    assert_eq!(parse_decimal_bytes(b".5"), Some(Decimal::new(5, 1)));
    assert_eq!(parse_decimal_bytes(b"5."), Some(Decimal::new(5, 0)));
    assert_eq!(parse_decimal_bytes(b""), None);
    assert_eq!(parse_decimal_bytes(b"-"), None);
    assert_eq!(parse_decimal_bytes(b"."), None);
    assert_eq!(parse_decimal_bytes(b"1.2.3"), None);
    assert_eq!(parse_decimal_bytes(b"1,2.3"), None);
    assert_eq!(parse_decimal_bytes(b"12a"), None);
    assert_eq!(parse_decimal_bytes(b" 1"), None);
}

#[test]
fn addition_aligns_scales() {
    let a = Decimal::new(15, 1);  // 1.5
    let b = Decimal::new(25, 2);  // 0.25
    assert_eq!(a.checked_add(&b), Some(Decimal::new(175, 2)));  // 1.75
    assert_eq!(a.checked_sub(&b), Some(Decimal::new(125, 2)));  // 1.25
}

#[test]
fn multiplication_is_exact() {
    let a = Decimal::new(100, 0);
    let factor = Decimal::new(254, 4);  // 0.0254
    assert_eq!(a.checked_mul(&factor), Some(Decimal::new(25400, 4)));  // 2.5400
}

#[test]
fn multiplication_overflow_fails() {
    let a = Decimal::new(i128::MAX, 0);
    assert_eq!(a.checked_mul(&Decimal::new(2, 0)), None);
    // Scales past the cap fail rather than round.
    let b = Decimal::new(1, 28);
    assert_eq!(b.checked_mul(&Decimal::new(1, 1)), None);
}

#[test]
fn division_exact_when_it_terminates() {
    assert_eq!(Decimal::new(3, 0).checked_div_u64(3), Some(Decimal::new(1, 0)));
    assert_eq!(Decimal::new(10, 0).checked_div_u64(4), Some(Decimal::new(25, 1)));  // 2.5
    assert_eq!(Decimal::new(-10, 0).checked_div_u64(4), Some(Decimal::new(-25, 1)));
}

#[test]
fn division_truncates_at_scale_cap() {
    // 1/3 extends to the 28-digit scale cap and stops.
    assert_eq!(
        Decimal::new(1, 0).checked_div_u64(3),
        Some(Decimal::new(3333333333333333333333333333, 28))
    );
}

#[test]
fn normalized_drops_trailing_zeros() {
    assert_eq!(Decimal::new(25400, 4).normalized(), Decimal::new(254, 2));
    assert_eq!(Decimal::new(-2500, 3).normalized(), Decimal::new(-25, 1));
    assert_eq!(Decimal::new(1000, 0).normalized(), Decimal::new(1000, 0));
    assert_eq!(Decimal::new(0, 5).normalized(), Decimal::new(0, 0));
}
