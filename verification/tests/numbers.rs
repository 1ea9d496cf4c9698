use std::cmp::Ordering;

use trellis::float::{parse, render, Float, FloatError, FloatWidth};
use trellis::integer::IntWidth;
use trellis::numeric::Numeric;

fn numeric(text: &str) -> Numeric {
    Numeric::parse(text).unwrap()
}

#[test]
fn decimals_keep_their_scale() {
    assert_eq!(numeric("1.50").to_string(), "1.50");
    assert_eq!(numeric("-0.00").to_string(), "0.00");
    assert_eq!(numeric("+007").to_string(), "7");
    assert_eq!(numeric(".5").to_string(), "0.5");
    assert_eq!(numeric("5.").to_string(), "5");
    assert_eq!(numeric("1.50").add(&numeric("2.250")).to_string(), "3.750");
    assert_eq!(numeric("0.1").add(&numeric("0.2")).to_string(), "0.3");
    assert_eq!(numeric("-5").add(&numeric("5.00")).to_string(), "0.00");
    let long = "123456789012345678901234567890.000000000000000000001";
    assert_eq!(numeric(long).to_string(), long);
}

#[test]
fn only_decimals_are_numbers() {
    for bad in ["", "-", ".", "1e5", "1.2.3", " 1", "1 ", "0x1", "--1", "NaN"] {
        assert!(Numeric::parse(bad).is_err(), "{bad:?}");
    }
}

#[test]
fn decimals_compare_by_value() {
    assert_eq!(numeric("1.0").compare(&numeric("1")), Ordering::Equal);
    assert_eq!(numeric("-1").compare(&numeric("0.001")), Ordering::Less);
    assert_eq!(numeric("10").compare(&numeric("9.99")), Ordering::Greater);
    assert_eq!(numeric("-2").compare(&numeric("-1.5")), Ordering::Less);
    assert!(numeric("0.000").is_zero());
    assert!(!numeric("0.001").is_zero());
}

#[test]
fn quotients_have_at_least_sixteen_digits() {
    assert_eq!(numeric("1").div(&numeric("3")).to_string(), "0.33333333333333333333");
    assert_eq!(numeric("2").div(&numeric("3")).to_string(), "0.66666666666666666667");
    assert_eq!(numeric("10").div(&numeric("2")).to_string(), "5.0000000000000000");
    assert_eq!(numeric("-1").div(&numeric("8")).to_string(), "-0.12500000000000000000");
}

#[test]
fn sums_do_not_depend_on_order_and_can_be_undone() {
    let (a, b, c) = (numeric("0.1"), numeric("22.50"), numeric("-7"));
    assert_eq!(a.add(&b).to_string(), b.add(&a).to_string());
    assert_eq!(a.add(&b).add(&c).to_string(), a.add(&b.add(&c)).to_string());
    assert_eq!(a.add(&c).add(&numeric("7")).compare(&a), Ordering::Equal);
}

#[test]
fn integer_widths_are_named_and_ordered() {
    for width in IntWidth::ALL {
        assert_eq!(IntWidth::from_pg_name(width.pg_name()), Some(width));
    }
    assert_eq!(IntWidth::from_pg_name("int4"), None);
    assert_eq!(IntWidth::Int2.wider(IntWidth::Int8), IntWidth::Int8);
    assert_eq!(IntWidth::Int4.wider(IntWidth::Int2), IntWidth::Int4);
    assert_eq!(IntWidth::narrowest_for(2147483647), IntWidth::Int4);
    assert_eq!(IntWidth::narrowest_for(2147483648), IntWidth::Int8);
}

#[test]
fn every_pattern_of_bits_is_read_back() {
    let mut bits: u64 = 0x9e3779b97f4a7c15;
    for _ in 0..200 {
        bits = bits.wrapping_mul(6364136223846793005).wrapping_add(1442695040888963407);
        let value = Float::from_bits(bits);
        let text = render(value, FloatWidth::Float8);
        let number = f64::from_bits(bits);
        let back = parse(&text, FloatWidth::Float8).unwrap();
        if number.is_nan() {
            assert_eq!(text, "NaN");
        } else {
            assert_eq!(back.to_bits(), bits, "{text}");
            assert_eq!(text.parse::<f64>().unwrap().to_bits(), bits, "{text}");
        }
    }
}

#[test]
fn narrow_values_are_read_back() {
    let mut bits: u32 = 0x9e3779b9;
    for _ in 0..200 {
        bits = bits.wrapping_mul(1664525).wrapping_add(1013904223);
        let number = f32::from_bits(bits);
        if number.is_nan() {
            continue;
        }
        let wide = number as f64;
        let value = Float::from_bits(wide.to_bits());
        let text = render(value, FloatWidth::Float4);
        assert_eq!(
            parse(&text, FloatWidth::Float4).unwrap().to_bits(),
            wide.to_bits(),
            "{text}"
        );
        assert_eq!(text.parse::<f32>().unwrap().to_bits(), bits, "{text}");
        assert_eq!(FloatWidth::Float4.round(value).to_bits(), wide.to_bits());
    }
}

#[test]
fn rounding_goes_to_the_nearest_value_of_the_width() {
    for number in [0.1, 1.0 / 3.0, 1e-40, 1e-46, 3.4028235e38, 1e300, -1e-300, 16777217.0] {
        let number: f64 = number;
        let rounded = FloatWidth::Float4.round(Float::from_bits(number.to_bits()));
        assert_eq!(rounded.to_bits(), (number as f32 as f64).to_bits(), "{number}");
        let again = FloatWidth::Float4.round(rounded);
        assert_eq!(again.to_bits(), rounded.to_bits());
        let wide = FloatWidth::Float8.round(Float::from_bits(number.to_bits()));
        assert_eq!(wide.to_bits(), number.to_bits());
    }
}

#[test]
fn a_text_that_is_no_float_is_invalid() {
    assert_eq!(
        parse("1.5x", FloatWidth::Float4),
        Err(FloatError::Invalid {
            width: FloatWidth::Float4,
            text: "1.5x".to_string(),
        })
    );
    assert!(parse("1e+400", FloatWidth::Float8).is_err());
    assert!(parse("1e-400", FloatWidth::Float8).is_err());
}

#[test]
fn a_large_narrow_value_is_spelled_in_few_digits() {
    let number = 8.41e21f32;
    let text = render(
        Float::from_bits((number as f64).to_bits()),
        FloatWidth::Float4,
    );
    assert_eq!(text, "8.41e+21");
}
