use trellis::defs::ast::{Expr, TransformDef, ValueType};
use trellis::defs::eval::{
    can_be_folded, evaluate, evaluate_aggregate, evaluate_excluding,
    evaluate_with_relationships_excluding, relationship_references, EvalError, RegexCache,
    RelationshipContext, Row, Value,
};
use trellis::defs::parser::parse;
use trellis::defs::pg_type::PgType;
use trellis::defs::substitute::substitute_field;
use trellis::error_code::ErrorCode;
use trellis::float::FloatWidth;
use trellis::names::NameMap;
use trellis::numeric::Numeric;

fn row(cells: &[(&str, Option<&str>)]) -> Row {
    NameMap::from_entries(
        cells
            .iter()
            .map(|(n, c)| (n.to_string(), c.map(|s| s.to_string())))
            .collect(),
    )
}

fn columns(types: &[(&str, ValueType)]) -> NameMap<ValueType> {
    NameMap::from_entries(types.iter().map(|(n, t)| (n.to_string(), *t)).collect())
}

fn definition(text: &str) -> TransformDef {
    parse(text).unwrap()
}

fn number(text: &str) -> Option<Value> {
    Some(Value::Numeric(Numeric::parse(text).unwrap()))
}

#[test]
fn a_cell_has_to_be_of_its_columns_type() {
    let def = definition("TRANSFORM t FROM s SELECT a AS x");
    let err = evaluate(
        &def,
        &row(&[("a", Some("abc"))]),
        &columns(&[("a", ValueType::Numeric)]),
        &mut RegexCache::new(),
    )
    .unwrap_err();
    match &err {
        EvalError::InvalidNumber { field, text, .. } => {
            assert_eq!(field, "x");
            assert_eq!(text, "abc");
        }
        other => panic!("expected InvalidNumber, got {other:?}"),
    }
    assert_eq!(err.field(), "x");
    assert_eq!(err.code(), ErrorCode::Internal);

    let err = evaluate(
        &def,
        &row(&[("a", Some("perhaps"))]),
        &columns(&[("a", ValueType::Boolean)]),
        &mut RegexCache::new(),
    )
    .unwrap_err();
    assert_eq!(
        err,
        EvalError::InvalidBoolean {
            field: "x".to_string(),
            text: "perhaps".to_string(),
        }
    );
    assert_eq!(
        err.to_string(),
        "calculated field 'x' could not parse 'perhaps' as a boolean"
    );
}

#[test]
fn a_group_follows_no_relationship() {
    let def = definition("TRANSFORM t FROM s GROUP BY k SELECT r.size AS x");
    assert_eq!(
        evaluate_aggregate(
            &def,
            &[row(&[("k", Some("1"))])],
            &NameMap::new(),
            &mut RegexCache::new()
        )
        .unwrap_err(),
        EvalError::UnsupportedRelationshipPath {
            field: "x".to_string(),
            rel: "r".to_string(),
            column: "size".to_string(),
        }
    );
}

#[test]
fn an_excluded_field_has_no_value_and_is_null_for_others() {
    let def = definition("TRANSFORM t FROM s SELECT a + 1 AS x, x + 1 AS y, coalesce(x, 9) AS z");
    let values = evaluate_excluding(
        &def,
        &row(&[("a", Some("1"))]),
        &columns(&[("a", ValueType::Numeric)]),
        &mut RegexCache::new(),
        &vec!["x".to_string()],
    )
    .unwrap();
    assert!(values.get("x").is_none());
    assert_eq!(*values.get("y").unwrap(), None);
    assert_eq!(*values.get("z").unwrap(), number("9"));
}

#[test]
fn an_excluded_field_is_not_evaluated() {
    let def = definition("TRANSFORM t FROM s SELECT missing AS x, 1 AS y");
    let values = evaluate_with_relationships_excluding(
        &def,
        &row(&[]),
        &NameMap::new(),
        &RelationshipContext::default(),
        &mut RegexCache::new(),
        &vec!["x".to_string()],
    )
    .unwrap();
    assert!(values.get("x").is_none());
    assert_eq!(*values.get("y").unwrap(), number("1"));
}

#[test]
fn arguments_behind_the_first_value_are_not_evaluated() {
    let def = definition("TRANSFORM t FROM s SELECT coalesce(a, missing) AS x");
    let values = evaluate(
        &def,
        &row(&[("a", Some("1"))]),
        &columns(&[("a", ValueType::Numeric)]),
        &mut RegexCache::new(),
    )
    .unwrap();
    assert_eq!(*values.get("x").unwrap(), number("1"));
}

#[test]
fn a_cache_holds_each_pattern_once_and_changes_no_value() {
    let def = definition("TRANSFORM t FROM s SELECT regexp_count(a, 'x+') AS n");
    let types = columns(&[("a", ValueType::Text)]);
    let mut cache = RegexCache::new();
    assert!(!cache.contains("x+"));
    let r = row(&[("a", Some("xx y xxx"))]);
    let first = evaluate(&def, &r, &types, &mut cache).unwrap();
    assert!(cache.contains("x+"));
    let second = evaluate(&def, &r, &types, &mut cache).unwrap();
    assert_eq!(*first.get("n").unwrap(), number("2"));
    assert_eq!(first.get("n"), second.get("n"));
}

#[test]
fn empty_matches_are_counted_between_characters() {
    let mut cache = RegexCache::new();
    assert_eq!(cache.regexp_count("aé", ""), Some(3));
    assert_eq!(cache.regexp_count("", "a*"), Some(1));
    assert_eq!(cache.regexp_count("xaax", "a*"), Some(4));
    assert_eq!(cache.regexp_count("aa aa", "^aa"), Some(1));
    assert_eq!(cache.regexp_count("a", "("), None);
}

#[test]
fn groups_are_folded() {
    let def = definition(
        "TRANSFORM t FROM s GROUP BY k SELECT k AS k, COUNT(*) AS rows, COUNT(a) AS filled, \
         SUM(a) AS total, MIN(a) AS lo, MAX(a) AS hi, AVG(a) AS mean, \
         BOOL_AND(f) AS every, BOOL_OR(f) AS some",
    );
    let types = columns(&[
        ("k", ValueType::Text),
        ("a", ValueType::Numeric),
        ("f", ValueType::Boolean),
    ]);
    let rows = [
        row(&[("k", Some("g")), ("a", Some("1.50")), ("f", Some("t"))]),
        row(&[("k", Some("g")), ("a", None), ("f", None)]),
        row(&[("k", Some("g")), ("a", Some("-2")), ("f", Some("false"))]),
    ];
    let values = evaluate_aggregate(&def, &rows, &types, &mut RegexCache::new()).unwrap();
    let shown = |name: &str| values.get(name).unwrap().as_ref().unwrap().to_string();
    assert_eq!(shown("k"), "g");
    assert_eq!(shown("rows"), "3");
    assert_eq!(shown("filled"), "2");
    assert_eq!(shown("total"), "-0.50");
    assert_eq!(shown("lo"), "-2");
    assert_eq!(shown("hi"), "1.50");
    assert_eq!(shown("mean"), "-0.25000000000000000000");
    assert_eq!(*values.get("every").unwrap(), Some(Value::Boolean(false)));
    assert_eq!(*values.get("some").unwrap(), Some(Value::Boolean(true)));
}

#[test]
fn an_aggregate_over_nothing_is_null_but_a_count() {
    let def = definition(
        "TRANSFORM t FROM s GROUP BY k SELECT COUNT(a) AS n, SUM(a) AS total, BOOL_OR(f) AS some",
    );
    let types = columns(&[
        ("k", ValueType::Text),
        ("a", ValueType::Numeric),
        ("f", ValueType::Boolean),
    ]);
    let rows = [row(&[("k", Some("g")), ("a", None), ("f", None)])];
    let values = evaluate_aggregate(&def, &rows, &types, &mut RegexCache::new()).unwrap();
    assert_eq!(*values.get("n").unwrap(), number("0"));
    assert_eq!(*values.get("total").unwrap(), None);
    assert_eq!(*values.get("some").unwrap(), None);
}

#[test]
fn literals_of_named_types_are_carried_by_their_text() {
    let def = definition("TRANSFORM t FROM s SELECT date '2024-02-29' AS d, real '0.5' AS f");
    let values = evaluate(&def, &row(&[]), &NameMap::new(), &mut RegexCache::new()).unwrap();
    assert_eq!(
        *values.get("d").unwrap(),
        Some(Value::Other(PgType::Date, "2024-02-29".to_string()))
    );
    let half = values.get("f").unwrap().as_ref().unwrap();
    assert!(matches!(half, Value::Float(_, FloatWidth::Float4)));
    assert_eq!(half.to_string(), "0.5");
}

#[test]
fn what_was_parsed_can_be_folded() {
    let def = definition("TRANSFORM t FROM s GROUP BY k SELECT coalesce(SUM(a), 0) AS x");
    assert!(can_be_folded(&def));
    let mut def = def;
    def.fields[0].expr = Expr::FunctionCall {
        name: "SUM".to_string(),
        args: Vec::new(),
    };
    assert!(!can_be_folded(&def));
    def.fields[0].expr = Expr::FunctionCall {
        name: "COUNT".to_string(),
        args: Vec::new(),
    };
    assert!(can_be_folded(&def));
}

#[test]
fn an_aggregate_that_is_not_reached_needs_no_argument() {
    let mut def = definition("TRANSFORM t FROM s GROUP BY k SELECT coalesce(COUNT(*), 0) AS x");
    let empty = Expr::FunctionCall { name: "SUM".to_string(), args: Vec::new() };
    let count = Expr::FunctionCall { name: "COUNT".to_string(), args: Vec::new() };
    def.fields[0].expr = Expr::FunctionCall {
        name: "COALESCE".to_string(),
        args: vec![count, empty],
    };
    let rows = [row(&[("k", Some("g"))])];
    let types = columns(&[("k", ValueType::Text)]);
    let values = evaluate_aggregate(&def, &rows, &types, &mut RegexCache::new()).unwrap();
    assert_eq!(*values.get("x").unwrap(), number("1"));
}

#[test]
fn relationship_columns_are_named_in_order() {
    let def = definition(
        "TRANSFORM t FROM s GROUP BY k, q.d SELECT MIN(r.a) + MAX(q.b) AS x, COUNT(r.a) AS y",
    );
    let found = relationship_references(&def);
    let expected: Vec<(String, String)> = [("r", "a"), ("q", "b"), ("r", "a"), ("q", "d")]
        .iter()
        .map(|(rel, column)| (rel.to_string(), column.to_string()))
        .collect();
    assert_eq!(found, expected);
}

#[test]
fn a_field_is_spelled_out_in_source_columns() {
    let def = definition("TRANSFORM t FROM s SELECT a + b AS x, x + c AS y");
    let direct = definition("TRANSFORM t FROM s SELECT (a + b) + c AS y");
    assert_eq!(
        substitute_field(&def.fields, 1),
        Some(direct.fields[0].expr.clone())
    );
    let circle = definition("TRANSFORM t FROM s SELECT y AS x, x AS y");
    assert_eq!(substitute_field(&circle.fields, 0), None);
}
