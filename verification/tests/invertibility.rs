use trellis::defs::ast::ValueType;
use trellis::defs::invertibility::{
    classify, AggregateArg, CountArg, Invertibility, PartialField,
};
use trellis::defs::registry::AGGREGATE_FUNCTIONS;
use trellis::float::FloatWidth;
use trellis::integer::IntWidth;

#[test]
fn count_star_is_invertible_with_no_partials() {
    let verdict = classify("COUNT", AggregateArg::Count(CountArg::Star)).unwrap();
    assert!(verdict.is_invertible());
    assert_eq!(verdict.partials, &[] as &[PartialField]);
}

#[test]
fn count_column_is_invertible_with_no_partials() {
    let verdict = classify("COUNT", AggregateArg::Count(CountArg::Column)).unwrap();
    assert!(verdict.is_invertible());
    assert_eq!(verdict.partials, &[] as &[PartialField]);
}

#[test]
fn sum_over_numeric_is_invertible_with_no_partials() {
    let verdict = classify("SUM", AggregateArg::Column(ValueType::Numeric)).unwrap();
    assert!(verdict.is_invertible());
    assert_eq!(verdict.partials, &[] as &[PartialField]);
}

#[test]
fn avg_over_numeric_is_invertible_with_sum_and_count_partials() {
    let verdict = classify("AVG", AggregateArg::Column(ValueType::Numeric)).unwrap();
    assert!(verdict.is_invertible());
    assert_eq!(verdict.partials, &[PartialField::Sum, PartialField::Count]);
}

#[test]
fn sum_and_avg_over_every_integer_width_classify_like_numeric() {
    for width in IntWidth::ALL {
        let arg = AggregateArg::Column(ValueType::Integer(width));
        let sum =
            classify("SUM", arg).unwrap_or_else(|| panic!("SUM over {width:?} must classify"));
        assert!(sum.is_invertible(), "SUM over {width:?}");
        assert_eq!(sum.partials, &[] as &[PartialField]);

        let avg =
            classify("AVG", arg).unwrap_or_else(|| panic!("AVG over {width:?} must classify"));
        assert!(avg.is_invertible(), "AVG over {width:?}");
        assert_eq!(avg.partials, &[PartialField::Sum, PartialField::Count]);

        for name in ["MIN", "MAX"] {
            let verdict = classify(name, arg)
                .unwrap_or_else(|| panic!("{name:?} over {width:?} must classify"));
            assert_eq!(verdict.invertibility, Invertibility::RecomputeOnly);
        }
    }
}

#[test]
fn min_is_always_recompute_only_regardless_of_type() {
    for ty in [ValueType::Numeric, ValueType::Text, ValueType::Boolean] {
        let verdict = classify("MIN", AggregateArg::Column(ty)).unwrap();
        assert_eq!(verdict.invertibility, Invertibility::RecomputeOnly);
        assert_eq!(verdict.partials, &[] as &[PartialField]);
    }
}

#[test]
fn max_is_always_recompute_only_regardless_of_type() {
    for ty in [ValueType::Numeric, ValueType::Text, ValueType::Boolean] {
        let verdict = classify("MAX", AggregateArg::Column(ty)).unwrap();
        assert_eq!(verdict.invertibility, Invertibility::RecomputeOnly);
        assert_eq!(verdict.partials, &[] as &[PartialField]);
    }
}

#[test]
fn sum_and_avg_over_floats_are_recompute_only() {
    for width in FloatWidth::ALL {
        let arg = AggregateArg::Column(ValueType::Float(width));
        for name in ["SUM", "AVG", "MIN", "MAX"] {
            let verdict = classify(name, arg)
                .unwrap_or_else(|| panic!("{name:?} over {width:?} must classify"));
            assert_eq!(
                verdict.invertibility,
                Invertibility::RecomputeOnly,
                "{name:?} over {width:?}"
            );
            assert_eq!(verdict.partials, &[] as &[PartialField]);
        }
    }
}

#[test]
fn sum_over_text_or_boolean_is_recompute_only() {
    for ty in [ValueType::Text, ValueType::Boolean] {
        let verdict = classify("SUM", AggregateArg::Column(ty)).unwrap();
        assert_eq!(verdict.invertibility, Invertibility::RecomputeOnly);
    }
}

#[test]
fn avg_over_text_or_boolean_is_recompute_only() {
    for ty in [ValueType::Text, ValueType::Boolean] {
        let verdict = classify("AVG", AggregateArg::Column(ty)).unwrap();
        assert_eq!(verdict.invertibility, Invertibility::RecomputeOnly);
    }
}

#[test]
fn bool_and_and_bool_or_are_always_recompute_only() {
    for name in ["BOOL_AND", "BOOL_OR"] {
        let verdict = classify(name, AggregateArg::Column(ValueType::Boolean)).unwrap();
        assert_eq!(verdict.invertibility, Invertibility::RecomputeOnly);
        assert_eq!(verdict.partials, &[] as &[PartialField]);
    }
}

#[test]
fn unknown_function_returns_none() {
    assert!(classify("ROUND", AggregateArg::Column(ValueType::Numeric)).is_none());
}

#[test]
fn count_with_column_arg_shape_returns_none() {
    assert!(classify("COUNT", AggregateArg::Column(ValueType::Numeric)).is_none());
}

#[test]
fn non_count_with_star_arg_shape_returns_none() {
    assert!(classify("SUM", AggregateArg::Count(CountArg::Star)).is_none());
    assert!(classify("MIN", AggregateArg::Count(CountArg::Column)).is_none());
}

#[test]
fn every_aggregate_function_in_the_registry_is_classified() {
    for &name in AGGREGATE_FUNCTIONS.iter() {
        let arg = if name == "COUNT" {
            AggregateArg::Count(CountArg::Star)
        } else {
            AggregateArg::Column(ValueType::Numeric)
        };
        assert!(
            classify(name, arg).is_some(),
            "expected {name:?} to be classified"
        );
    }
}
