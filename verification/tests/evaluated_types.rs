use trellis::defs::ast::{TransformDef, ValueType};
use trellis::defs::eval::{evaluate, evaluate_aggregate, EvalError, RegexCache, Row};
use trellis::defs::parser::parse;
use trellis::defs::pg_type::PgType;
use trellis::float::FloatWidth;
use trellis::names::NameMap;

fn row(cells: &[(&str, Option<&str>)]) -> Row {
    NameMap::from_entries(
        cells
            .iter()
            .map(|(n, c)| (n.to_string(), c.map(|s| s.to_string())))
            .collect(),
    )
}

fn columns(types: &[(&str, ValueType)]) -> NameMap<ValueType> {
    NameMap::from_entries(types.iter().map(|(n, t)| (n.to_string(), *t)).collect())
}

fn definition(text: &str) -> TransformDef {
    parse(text).unwrap()
}

fn floats() -> NameMap<ValueType> {
    columns(&[
        ("k", ValueType::Text),
        ("d", ValueType::Float(FloatWidth::Float8)),
        ("r", ValueType::Float(FloatWidth::Float4)),
        ("n", ValueType::Numeric),
    ])
}

fn computed(expr: &str, cells: &[(&str, Option<&str>)]) -> Result<String, EvalError> {
    let def = definition(&format!("TRANSFORM t FROM s SELECT {expr} AS x"));
    let values = evaluate(&def, &row(cells), &floats(), &mut RegexCache::new())?;
    Ok(match values.get("x").unwrap() {
        Some(v) => v.to_string(),
        None => "null".to_string(),
    })
}

fn folded(call: &str, value_type: ValueType, texts: &[Option<&str>]) -> Result<String, EvalError> {
    let def = definition(&format!("TRANSFORM t FROM s GROUP BY k SELECT {call} AS x"));
    let types = columns(&[("k", ValueType::Text), ("v", value_type)]);
    let rows: Vec<Row> = texts.iter().map(|t| row(&[("k", Some("g")), ("v", *t)])).collect();
    let values = evaluate_aggregate(&def, &rows, &types, &mut RegexCache::new())?;
    Ok(match values.get("x").unwrap() {
        Some(v) => v.to_string(),
        None => "null".to_string(),
    })
}

#[test]
fn floats_are_read_as_floats() {
    assert_eq!(computed("d", &[("d", Some("NaN"))]).unwrap(), "NaN");
    assert_eq!(computed("d", &[("d", Some("-Infinity"))]).unwrap(), "-Infinity");
    assert_eq!(computed("r", &[("r", Some("1e+06"))]).unwrap(), "1e+06");
    assert_eq!(computed("d", &[("d", None)]).unwrap(), "null");
}

#[test]
fn floats_are_added_in_their_width() {
    let both = [("d", Some("0.1")), ("r", Some("0.2")), ("n", Some("0.2"))];
    assert_eq!(computed("d + d", &both).unwrap(), "0.2");
    assert_eq!(computed("d + n", &both).unwrap(), "0.30000000000000004");
    assert_eq!(computed("r + r", &both).unwrap(), "0.4");
    let large = [("r", Some("1.6777216e+07")), ("d", Some("Infinity"))];
    assert_eq!(computed("r + real '1'", &large).unwrap(), "1.6777216e+07");
    assert_eq!(computed("d + r", &large).unwrap(), "Infinity");
}

#[test]
fn floats_are_compared() {
    let cells = [("d", Some("NaN")), ("r", Some("Infinity")), ("n", Some("1"))];
    assert_eq!(computed("d > r", &cells).unwrap(), "true");
    assert_eq!(computed("r > d", &cells).unwrap(), "false");
    assert_eq!(computed("r > n", &cells).unwrap(), "true");
    assert_eq!(computed("d > d", &cells).unwrap(), "false");
}

#[test]
fn a_sum_of_floats_can_be_out_of_range() {
    let error = computed("d + d", &[("d", Some("1e+308"))]).unwrap_err();
    assert_eq!(
        error,
        EvalError::FloatOutOfRange { field: "x".to_string(), width: FloatWidth::Float8 }
    );
    assert_eq!(error.field(), "x");
    let error = computed("r + r", &[("r", Some("3e+38"))]).unwrap_err();
    assert_eq!(
        error,
        EvalError::FloatOutOfRange { field: "x".to_string(), width: FloatWidth::Float4 }
    );
    assert_eq!(computed("d + d", &[("d", Some("8e+307"))]).unwrap(), "1.6e+308");
}

#[test]
fn a_float_cell_has_to_be_a_float() {
    let error = computed("d", &[("d", Some("abc"))]).unwrap_err();
    assert!(matches!(
        &error,
        EvalError::InvalidFloat { field, text, .. } if field == "x" && text == "abc"
    ));
    assert!(error.to_string().contains("could not parse 'abc' as a number"));
    assert!(matches!(
        computed("r", &[("r", Some("1e+39"))]).unwrap_err(),
        EvalError::InvalidFloat { .. }
    ));
}

#[test]
fn floats_are_folded() {
    let double = ValueType::Float(FloatWidth::Float8);
    let texts = [Some("0.1"), None, Some("0.2"), Some("0.3")];
    assert_eq!(folded("SUM(v)", double, &texts).unwrap(), "0.6000000000000001");
    assert_eq!(folded("MIN(v)", double, &texts).unwrap(), "0.1");
    assert_eq!(folded("MAX(v)", double, &texts).unwrap(), "0.3");
    assert_eq!(folded("COUNT(v)", double, &texts).unwrap(), "3");
    assert_eq!(folded("AVG(v)", double, &[Some("1"), Some("2")]).unwrap(), "1.5");
    assert_eq!(folded("MAX(v)", double, &[Some("NaN"), Some("Infinity")]).unwrap(), "NaN");
    assert_eq!(folded("MIN(v)", double, &[Some("NaN"), Some("1")]).unwrap(), "1");
    assert_eq!(folded("SUM(v)", double, &[None]).unwrap(), "null");
    assert_eq!(
        folded("SUM(v)", double, &[Some("1e+308"), Some("1e+308")]).unwrap_err(),
        EvalError::FloatOutOfRange { field: "x".to_string(), width: FloatWidth::Float8 }
    );
    let real = ValueType::Float(FloatWidth::Float4);
    assert_eq!(folded("SUM(v)", real, &[Some("0.1"), Some("0.2")]).unwrap(), "0.3");
}

#[test]
fn the_earliest_and_the_latest_are_found() {
    let date = ValueType::Other(PgType::Date);
    let days = [
        Some("2024-02-29"),
        None,
        Some("10000-01-01"),
        Some("0044-03-15 BC"),
        Some("0100-01-01 BC"),
    ];
    assert_eq!(folded("MIN(v)", date, &days).unwrap(), "0100-01-01 BC");
    assert_eq!(folded("MAX(v)", date, &days).unwrap(), "10000-01-01");
    let ends = [Some("2024-02-29"), Some("infinity"), Some("-infinity")];
    assert_eq!(folded("MAX(v)", date, &ends).unwrap(), "infinity");
    assert_eq!(folded("MIN(v)", date, &ends).unwrap(), "-infinity");
    assert_eq!(folded("MIN(v)", date, &[None]).unwrap(), "null");
    let time = ValueType::Other(PgType::Time);
    let clocks = [Some("12:00:00.5"), Some("12:00:00.45"), Some("24:00:00")];
    assert_eq!(folded("MIN(v)", time, &clocks).unwrap(), "12:00:00.45");
    assert_eq!(folded("MAX(v)", time, &clocks).unwrap(), "24:00:00");
    let zoned = ValueType::Other(PgType::TimeTz);
    let clocks = [Some("12:00:00+02"), Some("11:00:00+00"), Some("10:00:00+00")];
    assert_eq!(folded("MIN(v)", zoned, &clocks).unwrap(), "12:00:00+02");
    assert_eq!(folded("MAX(v)", zoned, &clocks).unwrap(), "11:00:00+00");
    let stamp = ValueType::Other(PgType::Timestamp);
    let stamps = [Some("2024-03-01 00:00:00"), Some("2024-02-29 23:59:59.999999")];
    assert_eq!(folded("MIN(v)", stamp, &stamps).unwrap(), "2024-02-29 23:59:59.999999");
    let zoned = ValueType::Other(PgType::TimestampTz);
    let stamps = [Some("2024-03-01 00:30:00+01"), Some("2024-02-29 23:45:00+00")];
    assert_eq!(folded("MIN(v)", zoned, &stamps).unwrap(), "2024-03-01 00:30:00+01");
    assert_eq!(folded("MAX(v)", zoned, &stamps).unwrap(), "2024-02-29 23:45:00+00");
}

#[test]
fn intervals_are_summed_part_by_part() {
    let interval = ValueType::Other(PgType::Interval);
    let sum = |texts: &[Option<&str>]| folded("SUM(v)", interval, texts);
    assert_eq!(
        sum(&[Some("1 day"), Some("24:00:00"), None, Some("02:00:00")]).unwrap(),
        "1 day 26:00:00"
    );
    assert_eq!(sum(&[Some("-1 days +02:03:04")]).unwrap(), "-1 days +02:03:04");
    assert_eq!(sum(&[Some("1 year 2 mons"), Some("-3 mons")]).unwrap(), "11 mons");
    assert_eq!(sum(&[Some("11 mons"), Some("1 mon")]).unwrap(), "1 year");
    assert_eq!(sum(&[Some("-1 years"), Some("-1 mons 1 day")]).unwrap(), "-1 years -1 mons +1 day");
    assert_eq!(sum(&[Some("00:00:00.5"), Some("00:00:00.25")]).unwrap(), "00:00:00.75");
    assert_eq!(sum(&[Some("1 day"), Some("-1 days")]).unwrap(), "00:00:00");
    assert_eq!(sum(&[Some("-00:00:01.5"), Some("00:00:01.005")]).unwrap(), "-00:00:00.495");
    assert_eq!(sum(&[Some("2 days 100:00:00"), Some("1 day -01:00:00")]).unwrap(), "3 days 99:00:00");
    assert_eq!(sum(&[None]).unwrap(), "null");
}

#[test]
fn a_sum_of_intervals_can_be_out_of_range() {
    let interval = ValueType::Other(PgType::Interval);
    let sum = |texts: &[Option<&str>]| folded("SUM(v)", interval, texts);
    let error = EvalError::IntervalOutOfRange { field: "x".to_string() };
    assert_eq!(sum(&[Some("infinity"), Some("1 day")]).unwrap(), "infinity");
    assert_eq!(sum(&[Some("infinity"), Some("-infinity")]).unwrap_err(), error);
    let most = "2147483647 days";
    assert_eq!(sum(&[Some(most), Some("1 day"), Some("-1 days")]).unwrap_err(), error);
    assert_eq!(sum(&[Some("-1 days"), Some("1 day"), Some(most)]).unwrap(), most);
    assert_eq!(error.field(), "x");
    assert!(error.to_string().ends_with("interval out of range"));
}
