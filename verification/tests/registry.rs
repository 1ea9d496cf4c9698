use trellis::defs::ast::{Operator, ValueType};
use trellis::defs::registry::{aggregate_result_type, operator_result_type};
use trellis::float::FloatWidth;
use trellis::integer::IntWidth;

#[test]
fn aggregate_results_stay_in_their_arguments_family() {
    let args = IntWidth::ALL
        .into_iter()
        .map(ValueType::Integer)
        .chain(std::iter::once(ValueType::Numeric))
        .chain(FloatWidth::ALL.into_iter().map(ValueType::Float));
    for arg in args {
        for name in ["SUM", "AVG", "MIN", "MAX"] {
            let result = aggregate_result_type(name, arg)
                .unwrap_or_else(|| panic!("{name:?} over {arg:?} must resolve"));
            assert_eq!(
                matches!(arg, ValueType::Float(_)),
                matches!(result, ValueType::Float(_)),
                "{name:?}({arg:?}) -> {result:?} crosses the float/exact boundary"
            );
        }
    }
}

#[test]
fn float_aggregate_result_types_match_postgres() {
    assert_eq!(
        aggregate_result_type("SUM", ValueType::Float(FloatWidth::Float4)),
        Some(ValueType::Float(FloatWidth::Float4))
    );
    assert_eq!(
        aggregate_result_type("AVG", ValueType::Float(FloatWidth::Float4)),
        Some(ValueType::Float(FloatWidth::Float8))
    );
    assert_eq!(
        aggregate_result_type("MIN", ValueType::Float(FloatWidth::Float4)),
        Some(ValueType::Float(FloatWidth::Float4))
    );
    assert_eq!(
        aggregate_result_type("MAX", ValueType::Float(FloatWidth::Float8)),
        Some(ValueType::Float(FloatWidth::Float8))
    );
}

#[test]
fn float_operator_result_types_match_postgres() {
    let f4 = ValueType::Float(FloatWidth::Float4);
    let f8 = ValueType::Float(FloatWidth::Float8);
    assert_eq!(
        operator_result_type(Operator::Add, f4, f4),
        Some(ValueType::Float(FloatWidth::Float4))
    );
    assert_eq!(
        operator_result_type(Operator::Add, f8, f8),
        Some(ValueType::Float(FloatWidth::Float8))
    );
    for other in [
        f8,
        ValueType::Numeric,
        ValueType::Integer(IntWidth::Int2),
        ValueType::Integer(IntWidth::Int4),
        ValueType::Integer(IntWidth::Int8),
    ] {
        assert_eq!(
            operator_result_type(Operator::Add, f4, other),
            Some(ValueType::Float(FloatWidth::Float8)),
            "real + {other:?}"
        );
        assert_eq!(
            operator_result_type(Operator::Add, other, f4),
            Some(ValueType::Float(FloatWidth::Float8)),
            "{other:?} + real"
        );
        assert_eq!(
            operator_result_type(Operator::GreaterThan, f4, other),
            Some(ValueType::Boolean)
        );
    }
    for other in [ValueType::Text, ValueType::Boolean, ValueType::Uuid] {
        assert_eq!(operator_result_type(Operator::Add, f8, other), None);
        assert_eq!(operator_result_type(Operator::Add, other, f8), None);
    }
}
