use polars_styler::fixed::Fixed;

#[test]
fn natural_text_is_shortest_exact() {
    assert_eq!(Fixed::from_units(0).to_text(), "0");
    assert_eq!(Fixed::from_int(2).to_text(), "2");
    assert_eq!(Fixed::from_int(-7).to_text(), "-7");
    assert_eq!(Fixed::from_units(750_000_000).to_text(), "0.75");
    assert_eq!(Fixed::from_units(-1_123_456_789).to_text(), "-1.123456789");
    assert_eq!(Fixed::from_units(1).to_text(), "0.000000001");
    assert_eq!(Fixed::from_units(i64::MIN).to_text(), "-9223372036.854775808");
}

#[test]
fn precision_text_rounds_half_away_from_zero() {
    let x = Fixed::from_units(1_123_456_789);
    assert_eq!(x.to_text_prec(2), "1.12");
    assert_eq!(x.to_text_prec(3), "1.123");
    assert_eq!(x.to_text_prec(0), "1");
    assert_eq!(x.to_text_prec(9), "1.123456789");
    assert_eq!(x.to_text_prec(12), "1.123456789000");
    assert_eq!(Fixed::from_units(125_000_000).to_text_prec(2), "0.13");
    assert_eq!(Fixed::from_units(-125_000_000).to_text_prec(2), "-0.13");
    assert_eq!(Fixed::from_units(2_500_000_000).to_text_prec(0), "3");
    assert_eq!(Fixed::from_units(999_999_999).to_text_prec(3), "1.000");
}
