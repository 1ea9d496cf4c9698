use std::cmp::Ordering;

use trellis::float::{checked_add, compare, equal, parse, render, Float, FloatError, FloatWidth};

fn float(value: f64) -> Float {
    Float::from_bits(value.to_bits())
}

fn number(value: Float) -> f64 {
    f64::from_bits(value.to_bits())
}

fn plus(
    a: f64,
    a_width: FloatWidth,
    b: f64,
    b_width: FloatWidth,
) -> Result<(f64, FloatWidth), FloatError> {
    checked_add(float(a), a_width, float(b), b_width).map(|(s, width)| (number(s), width))
}

fn text_of(value: f64, width: FloatWidth) -> String {
    render(float(value), width)
}

fn read(text: &str, width: FloatWidth) -> Result<f64, FloatError> {
    parse(text, width).map(number)
}

fn order(a: f64, b: f64) -> Ordering {
    compare(float(a), float(b))
}

fn same(a: f64, b: f64) -> bool {
    equal(float(a), float(b))
}

#[test]
fn pg_names_round_trip() {
    for width in FloatWidth::ALL {
        assert_eq!(FloatWidth::from_pg_name(width.pg_name()), Some(width));
    }
    assert_eq!(FloatWidth::from_pg_name("float8"), None);
    assert_eq!(FloatWidth::from_pg_name("numeric"), None);
}

#[test]
fn wider_picks_the_wider_operand() {
    assert_eq!(
        FloatWidth::Float4.wider(FloatWidth::Float8),
        FloatWidth::Float8
    );
    assert_eq!(
        FloatWidth::Float8.wider(FloatWidth::Float4),
        FloatWidth::Float8
    );
    assert_eq!(
        FloatWidth::Float4.wider(FloatWidth::Float4),
        FloatWidth::Float4
    );
}

#[test]
fn nan_equals_itself_and_sorts_above_everything() {
    assert_eq!(order(f64::NAN, f64::NAN), Ordering::Equal);
    assert!(same(f64::NAN, f64::NAN));
    for other in [f64::INFINITY, f64::NEG_INFINITY, 0.0, -1.0, 1e308] {
        assert_eq!(
            order(f64::NAN, other),
            Ordering::Greater,
            "NaN vs {other:?}"
        );
        assert_eq!(order(other, f64::NAN), Ordering::Less, "{other:?} vs NaN");
    }
}

#[test]
fn signed_zeros_are_equal() {
    assert!(same(-0.0, 0.0));
    assert_eq!(order(-0.0, 0.0), Ordering::Equal);
    assert_eq!(text_of(-0.0, FloatWidth::Float8), "-0");
    assert_eq!(text_of(0.0, FloatWidth::Float8), "0");
}

#[test]
fn ordinary_order_is_unchanged() {
    assert_eq!(order(1.0, 2.0), Ordering::Less);
    assert_eq!(order(f64::INFINITY, 1e308), Ordering::Greater);
    assert_eq!(order(f64::NEG_INFINITY, -1e308), Ordering::Less);
}

#[test]
fn rendering_uses_postgres_notation_rules() {
    assert_eq!(text_of(f64::NAN, FloatWidth::Float8), "NaN");
    assert_eq!(text_of(f64::INFINITY, FloatWidth::Float8), "Infinity");
    assert_eq!(text_of(f64::NEG_INFINITY, FloatWidth::Float8), "-Infinity");
    assert_eq!(text_of(1.0, FloatWidth::Float8), "1");
    assert_eq!(text_of(0.1, FloatWidth::Float8), "0.1");
    assert_eq!(text_of(0.1 + 0.2, FloatWidth::Float8), "0.30000000000000004");
    assert_eq!(text_of(1e-4, FloatWidth::Float8), "0.0001");
    assert_eq!(text_of(1e-5, FloatWidth::Float8), "1e-05");
    assert_eq!(text_of(1e14, FloatWidth::Float8), "100000000000000");
    assert_eq!(text_of(1e15, FloatWidth::Float8), "1e+15");
    assert_eq!(
        text_of(1.234567890123456e15, FloatWidth::Float8),
        "1.234567890123456e+15"
    );
    assert_eq!(text_of(1e30, FloatWidth::Float8), "1e+30");
    assert_eq!(text_of(5e-324, FloatWidth::Float8), "5e-324");
    assert_eq!(text_of(-1.5e-10, FloatWidth::Float8), "-1.5e-10");
    assert_eq!(text_of(999_999.0, FloatWidth::Float4), "999999");
    assert_eq!(text_of(1e6, FloatWidth::Float4), "1e+06");
    assert_eq!(text_of(16_777_216.0, FloatWidth::Float4), "1.6777216e+07");
    assert_eq!(text_of(1e6, FloatWidth::Float8), "1000000");
}

#[test]
fn parse_accepts_only_what_render_emits() {
    assert_eq!(read("1", FloatWidth::Float8), Ok(1.0));
    assert_eq!(read("0.1", FloatWidth::Float8), Ok(0.1));
    assert_eq!(read("1e+30", FloatWidth::Float8), Ok(1e30));
    assert_eq!(read("-0", FloatWidth::Float8), Ok(-0.0));
    assert!(read("NaN", FloatWidth::Float8).unwrap().is_nan());
    assert_eq!(read("Infinity", FloatWidth::Float8), Ok(f64::INFINITY));
    assert_eq!(read("-Infinity", FloatWidth::Float8), Ok(f64::NEG_INFINITY));
    for bad in [
        "", "+1", " 1", "1 ", "1.0", "1.50", "1e30", "1E+30", "inf", "nan", "Inf", "1.5e1",
        "abc", "0x1p3",
    ] {
        assert!(
            read(bad, FloatWidth::Float8).is_err(),
            "{bad:?} is not canonical float8out output"
        );
    }
    assert_eq!(read("0.1", FloatWidth::Float4), Ok(0.1f32 as f64));
    assert!(read("0.30000000000000004", FloatWidth::Float4).is_err());
}

#[test]
fn parse_rejects_a_value_outside_the_width() {
    assert_eq!(
        read("1e+300", FloatWidth::Float4),
        Err(FloatError::OutOfRange {
            width: FloatWidth::Float4
        })
    );
    assert_eq!(read("1e+300", FloatWidth::Float8), Ok(1e300));
}

#[test]
fn a_value_is_out_of_range_by_its_double_precision_reading() {
    assert_eq!(
        read("3.4028235677973366e+38", FloatWidth::Float4),
        Err(FloatError::OutOfRange {
            width: FloatWidth::Float4
        })
    );
    assert_eq!(
        read("3.4028235677973362e+38", FloatWidth::Float4),
        Err(FloatError::Invalid {
            width: FloatWidth::Float4,
            text: "3.4028235677973362e+38".to_string()
        })
    );
    assert_eq!(read("3.4028235e+38", FloatWidth::Float4), Ok(f64::from(f32::MAX)));
}

#[test]
fn every_render_round_trips_through_parse() {
    for width in FloatWidth::ALL {
        for value in [
            0.0,
            -0.0,
            1.0,
            -1.0,
            0.1,
            1e-5,
            1e6,
            1234.5678,
            f64::NAN,
            f64::INFINITY,
            f64::NEG_INFINITY,
        ] {
            let value = number(width.round(float(value)));
            let text = text_of(value, width);
            let back = read(&text, width)
                .unwrap_or_else(|e| panic!("{text:?} at {width:?} did not re-parse: {e:?}"));
            assert!(
                same(back, value),
                "{text:?} at {width:?} round-tripped to a different value"
            );
        }
    }
}

#[test]
fn addition_overflows_where_postgres_does() {
    assert_eq!(
        plus(3.4e38, FloatWidth::Float4, 3.4e38, FloatWidth::Float4),
        Err(FloatError::OutOfRange { width: FloatWidth::Float4 })
    );
    let (sum, width) = plus(3.4e38, FloatWidth::Float4, 3.4e38, FloatWidth::Float8).unwrap();
    assert_eq!(width, FloatWidth::Float8);
    assert!((sum - 6.8e38).abs() < 1e32);
    assert_eq!(
        plus(1e308, FloatWidth::Float8, 1e308, FloatWidth::Float8),
        Err(FloatError::OutOfRange { width: FloatWidth::Float8 })
    );
    assert_eq!(
        plus(f64::INFINITY, FloatWidth::Float4, 1e38, FloatWidth::Float4),
        Ok((f64::INFINITY, FloatWidth::Float4))
    );
    let (sum, _) = plus(f64::NAN, FloatWidth::Float8, 1.0, FloatWidth::Float8).unwrap();
    assert!(sum.is_nan());
}

#[test]
fn out_of_range_message_is_postgres_wording() {
    assert_eq!(
        FloatError::OutOfRange {
            width: FloatWidth::Float4
        }
        .to_string(),
        "value out of range: overflow"
    );
    assert_eq!(
        FloatError::Invalid {
            width: FloatWidth::Float8,
            text: "abc".to_string(),
        }
        .to_string(),
        "invalid input syntax for type double precision: \"abc\""
    );
}

#[test]
fn float4_addition_rounds_onto_float4s_grid() {
    let (sum, width) = plus(16_777_216.0, FloatWidth::Float4, 1.0, FloatWidth::Float4)
        .expect("no overflow");
    assert_eq!(width, FloatWidth::Float4);
    assert_eq!(sum, 16_777_216.0);
}
