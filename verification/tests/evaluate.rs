use trellis::defs::ast::{
    Expr, FieldDef, GroupByKey, KeySpace, Operator, Predicate, TransformDef, ValueType,
};
use trellis::defs::eval::{
    evaluate, evaluate_aggregate, evaluate_with_relationships, EvalError, RegexCache,
    RelationshipContext, Row, ToManyRelationship, ToOneRelationship, Value,
};
use trellis::defs::model::RelationshipCardinality;
use trellis::defs::pg_type::PgType;
use trellis::names::NameMap;
use trellis::numeric::Numeric;

fn def(fields: Vec<FieldDef>) -> TransformDef {
    TransformDef {
        target: "t".to_string(),
        source: "s".to_string(),
        key_space: KeySpace::OneToOne,
        fields,
        predicate: Predicate::True,
        explicit_source_schema: None,
        explicit_target_schema: None,
    }
}

fn col(name: &str) -> Expr {
    Expr::Column(name.to_string())
}

fn row(pairs: &[(&str, Option<&str>)]) -> Row {
    NameMap::from_entries(
        pairs
            .iter()
            .map(|(k, v)| (k.to_string(), v.map(|s| s.to_string())))
            .collect()
    )
}

fn plus(lhs: Expr, rhs: Expr) -> Expr {
    Expr::BinaryOp {
        op: Operator::Add,
        lhs: Box::new(lhs),
        rhs: Box::new(rhs),
    }
}

fn numeric_types(names: &[&str]) -> NameMap<ValueType> {
    NameMap::from_entries(
        names
            .iter()
            .map(|n| (n.to_string(), ValueType::Numeric))
            .collect()
    )
}

fn eval(
    d: &TransformDef,
    r: &Row,
    types: &NameMap<ValueType>,
) -> Result<NameMap<Option<Value>>, EvalError> {
    evaluate(d, r, types, &mut RegexCache::new())
}

#[test]
fn evaluates_column_plus_literal() {
    let d = def(vec![FieldDef {
        name: "total".to_string(),
        expr: plus(col("price"), Expr::NumberLiteral("5".to_string())),
    }]);
    let r = row(&[("price", Some("10.50"))]);
    let result = eval(&d, &r, &numeric_types(&["price"])).unwrap();
    match result.get("total").unwrap().as_ref().unwrap() {
        Value::Numeric(n) => assert_eq!(n.to_string(), "15.50"),
        other => panic!("expected Numeric, got {other:?}"),
    }
}

#[test]
fn same_name_passthrough_of_a_source_column_evaluates_without_cycle_error() {
    let d = def(vec![FieldDef {
        name: "c".to_string(),
        expr: col("c"),
    }]);
    let r = row(&[("c", Some("10.50"))]);
    let result = eval(&d, &r, &numeric_types(&["c"])).unwrap();
    match result.get("c").unwrap().as_ref().unwrap() {
        Value::Numeric(n) => assert_eq!(n.to_string(), "10.50"),
        other => panic!("expected Numeric, got {other:?}"),
    }
}

#[test]
fn null_propagates_through_addition() {
    let d = def(vec![FieldDef {
        name: "total".to_string(),
        expr: plus(col("price"), col("tax")),
    }]);
    let r = row(&[("price", Some("10")), ("tax", None)]);
    let result = eval(&d, &r, &numeric_types(&["price", "tax"])).unwrap();
    assert_eq!(*result.get("total").unwrap(), None);
}

#[test]
fn double_null_is_null() {
    let d = def(vec![FieldDef {
        name: "total".to_string(),
        expr: plus(col("a"), col("b")),
    }]);
    let r = row(&[("a", None), ("b", None)]);
    let result = eval(&d, &r, &numeric_types(&["a", "b"])).unwrap();
    assert_eq!(*result.get("total").unwrap(), None);
}

#[test]
fn resolves_forward_reference_to_another_calculated_field() {
    let d = def(vec![
        FieldDef {
            name: "total".to_string(),
            expr: plus(col("double_price"), Expr::NumberLiteral("1".to_string())),
        },
        FieldDef {
            name: "double_price".to_string(),
            expr: plus(col("price"), col("price")),
        },
    ]);
    let r = row(&[("price", Some("2"))]);
    let result = eval(&d, &r, &numeric_types(&["price"])).unwrap();
    match (result.get("double_price").unwrap(), result.get("total").unwrap()) {
        (Some(Value::Numeric(dp)), Some(Value::Numeric(t))) => {
            assert_eq!(dp.to_string(), "4");
            assert_eq!(t.to_string(), "5");
        }
        other => panic!("expected Numeric values, got {other:?}"),
    }
}

#[test]
fn missing_column_is_an_error_not_null() {
    let d = def(vec![FieldDef {
        name: "total".to_string(),
        expr: col("price"),
    }]);
    let r = row(&[]);
    let err = eval(&d, &r, &numeric_types(&["price"])).unwrap_err();
    assert_eq!(
        err,
        EvalError::MissingColumn {
            field: "total".to_string(),
            column: "price".to_string(),
        }
    );
}

#[test]
fn cyclic_definition_returns_error_instead_of_overflowing() {
    let d = def(vec![
        FieldDef {
            name: "a".to_string(),
            expr: plus(col("b"), Expr::NumberLiteral("1".to_string())),
        },
        FieldDef {
            name: "b".to_string(),
            expr: plus(col("a"), Expr::NumberLiteral("1".to_string())),
        },
    ]);
    let r = row(&[]);
    let err = eval(&d, &r, &NameMap::new()).unwrap_err();
    assert!(matches!(err, EvalError::Cycle(_)));
}

#[test]
fn evaluation_is_deterministic() {
    let d = def(vec![FieldDef {
        name: "total".to_string(),
        expr: plus(col("price"), col("tax")),
    }]);
    let r = row(&[("price", Some("10.5")), ("tax", Some("2.25"))]);
    let types = numeric_types(&["price", "tax"]);
    let first = eval(&d, &r, &types).unwrap();
    let second = eval(&d, &r, &types).unwrap();
    assert_eq!(first.get("total"), second.get("total"));
    assert!(first.get("total").is_some());
}

#[test]
fn text_column_passes_through_unchanged() {
    let d = def(vec![FieldDef {
        name: "out".to_string(),
        expr: col("text_col"),
    }]);
    let r = row(&[("text_col", Some("hello world"))]);
    let types: NameMap<ValueType> =
        NameMap::from_entries(vec![("text_col".to_string(), ValueType::Text)]);
    let result = eval(&d, &r, &types).unwrap();
    assert_eq!(*result.get("out").unwrap(), Some(Value::Text("hello world".to_string())));
}

#[test]
fn boolean_column_passes_through_unchanged() {
    let d = def(vec![FieldDef {
        name: "out".to_string(),
        expr: col("flag"),
    }]);
    let r = row(&[("flag", Some("t"))]);
    let types: NameMap<ValueType> =
        NameMap::from_entries(vec![("flag".to_string(), ValueType::Boolean)]);
    let result = eval(&d, &r, &types).unwrap();
    assert_eq!(*result.get("out").unwrap(), Some(Value::Boolean(true)));
}

#[test]
fn uuid_column_passes_through_unchanged() {
    let d = def(vec![FieldDef {
        name: "author".to_string(),
        expr: col("author"),
    }]);
    let r = row(&[("author", Some("11111111-1111-1111-1111-111111111111"))]);
    let types: NameMap<ValueType> =
        NameMap::from_entries(vec![("author".to_string(), ValueType::Uuid)]);
    let result = eval(&d, &r, &types).unwrap();
    assert_eq!(
        *result.get("author").unwrap(),
        Some(Value::Uuid(
            "11111111-1111-1111-1111-111111111111".to_string()
        ))
    );
}

#[test]
fn other_typed_column_passes_through_tagged_with_its_real_pg_type() {
    let d = def(vec![FieldDef {
        name: "payload".to_string(),
        expr: col("payload"),
    }]);
    let r = row(&[("payload", Some(r#"{"a": 1}"#))]);
    let types: NameMap<ValueType> =
        NameMap::from_entries(vec![("payload".to_string(), ValueType::Other(PgType::Jsonb))]);
    let result = eval(&d, &r, &types).unwrap();
    assert_eq!(
        *result.get("payload").unwrap(),
        Some(Value::Other(PgType::Jsonb, r#"{"a": 1}"#.to_string()))
    );
    assert_eq!(
        result.get("payload").unwrap().as_ref().unwrap().value_type(),
        ValueType::Other(PgType::Jsonb)
    );
    assert_eq!(
        result.get("payload").unwrap().as_ref().unwrap().to_string(),
        r#"{"a": 1}"#
    );
}

#[test]
fn string_literal_evaluates_to_text() {
    let d = def(vec![FieldDef {
        name: "out".to_string(),
        expr: Expr::StringLiteral("hi".to_string()),
    }]);
    let result = eval(&d, &Row::new(), &NameMap::new()).unwrap();
    assert_eq!(*result.get("out").unwrap(), Some(Value::Text("hi".to_string())));
}

fn call(name: &str, args: Vec<Expr>) -> Expr {
    Expr::FunctionCall {
        name: name.to_string(),
        args,
    }
}

fn text_types(names: &[&str]) -> NameMap<ValueType> {
    NameMap::from_entries(
        names
            .iter()
            .map(|n| (n.to_string(), ValueType::Text))
            .collect()
    )
}

fn numeric_of(result: &NameMap<Option<Value>>, field: &str) -> String {
    match result.get(field).unwrap().as_ref().unwrap() {
        Value::Numeric(n) => n.to_string(),
        other => panic!("expected Numeric, got {other:?}"),
    }
}

#[test]
fn octet_length_counts_utf8_bytes_not_characters() {
    let d = def(vec![FieldDef {
        name: "out".to_string(),
        expr: call("OCTET_LENGTH", vec![col("text_col")]),
    }]);
    let r = row(&[("text_col", Some("café"))]);
    let result = eval(&d, &r, &text_types(&["text_col"])).unwrap();
    assert_eq!(numeric_of(&result, "out"), "5");
}

#[test]
fn char_length_counts_codepoints_not_bytes() {
    let d = def(vec![FieldDef {
        name: "out".to_string(),
        expr: call("CHAR_LENGTH", vec![col("text_col")]),
    }]);
    let r = row(&[("text_col", Some("café"))]);
    let result = eval(&d, &r, &text_types(&["text_col"])).unwrap();
    assert_eq!(numeric_of(&result, "out"), "4");
}

#[test]
fn octet_length_and_char_length_diverge_on_emoji() {
    let d = def(vec![
        FieldDef {
            name: "bytes".to_string(),
            expr: call("OCTET_LENGTH", vec![col("text_col")]),
        },
        FieldDef {
            name: "chars".to_string(),
            expr: call("CHAR_LENGTH", vec![col("text_col")]),
        },
    ]);
    let r = row(&[("text_col", Some("🎉"))]);
    let result = eval(&d, &r, &text_types(&["text_col"])).unwrap();
    assert_eq!(numeric_of(&result, "bytes"), "4");
    assert_eq!(numeric_of(&result, "chars"), "1");
}

#[test]
fn strpos_finds_a_multibyte_substring() {
    let d = def(vec![FieldDef {
        name: "out".to_string(),
        expr: call("STRPOS", vec![col("haystack"), col("needle")]),
    }]);
    let types: NameMap<ValueType> = NameMap::from_entries(vec![
        ("haystack".to_string(), ValueType::Text),
        ("needle".to_string(), ValueType::Text),
    ]);
    let r = row(&[("haystack", Some("café bar")), ("needle", Some("bar"))]);
    let result = eval(&d, &r, &types).unwrap();
    assert_eq!(numeric_of(&result, "out"), "6");
}

#[test]
fn strpos_returns_zero_when_absent() {
    let d = def(vec![FieldDef {
        name: "out".to_string(),
        expr: call("STRPOS", vec![col("haystack"), col("needle")]),
    }]);
    let types: NameMap<ValueType> = NameMap::from_entries(vec![
        ("haystack".to_string(), ValueType::Text),
        ("needle".to_string(), ValueType::Text),
    ]);
    let r = row(&[("haystack", Some("hello")), ("needle", Some("xyz"))]);
    let result = eval(&d, &r, &types).unwrap();
    assert_eq!(numeric_of(&result, "out"), "0");
}

#[test]
fn regexp_count_counts_non_overlapping_literal_matches() {
    let d = def(vec![FieldDef {
        name: "out".to_string(),
        expr: call("REGEXP_COUNT", vec![col("text_col"), col("pattern")]),
    }]);
    let types: NameMap<ValueType> = NameMap::from_entries(vec![
        ("text_col".to_string(), ValueType::Text),
        ("pattern".to_string(), ValueType::Text),
    ]);
    let r = row(&[("text_col", Some("abcabcabc")), ("pattern", Some("abc"))]);
    let result = eval(&d, &r, &types).unwrap();
    assert_eq!(numeric_of(&result, "out"), "3");
}

#[test]
fn regexp_count_over_multibyte_text() {
    let d = def(vec![FieldDef {
        name: "out".to_string(),
        expr: call("REGEXP_COUNT", vec![col("text_col"), col("pattern")]),
    }]);
    let types: NameMap<ValueType> = NameMap::from_entries(vec![
        ("text_col".to_string(), ValueType::Text),
        ("pattern".to_string(), ValueType::Text),
    ]);
    let r = row(&[
        ("text_col", Some("café café café")),
        ("pattern", Some("café")),
    ]);
    let result = eval(&d, &r, &types).unwrap();
    assert_eq!(numeric_of(&result, "out"), "3");
}

#[test]
fn regexp_count_matches_real_regex_metacharacters() {
    let d = def(vec![FieldDef {
        name: "out".to_string(),
        expr: call("REGEXP_COUNT", vec![col("text_col"), col("pattern")]),
    }]);
    let types: NameMap<ValueType> = NameMap::from_entries(vec![
        ("text_col".to_string(), ValueType::Text),
        ("pattern".to_string(), ValueType::Text),
    ]);
    let r = row(&[
        ("text_col", Some("abc adc aec xyz")),
        ("pattern", Some("a.c")),
    ]);
    let result = eval(&d, &r, &types).unwrap();
    assert_eq!(numeric_of(&result, "out"), "3");
}

#[test]
fn regexp_count_counts_a_trailing_empty_match_like_postgres() {
    let d = def(vec![FieldDef {
        name: "out".to_string(),
        expr: call("REGEXP_COUNT", vec![col("text_col"), col("pattern")]),
    }]);
    let types: NameMap<ValueType> = NameMap::from_entries(vec![
        ("text_col".to_string(), ValueType::Text),
        ("pattern".to_string(), ValueType::Text),
    ]);
    let r = row(&[("text_col", Some("aaa")), ("pattern", Some("a*"))]);
    let result = eval(&d, &r, &types).unwrap();
    assert_eq!(numeric_of(&result, "out"), "2");
}

#[test]
fn regexp_count_with_an_uncompilable_pattern_returns_null() {
    let d = def(vec![FieldDef {
        name: "out".to_string(),
        expr: call("REGEXP_COUNT", vec![col("text_col"), col("pattern")]),
    }]);
    let types: NameMap<ValueType> = NameMap::from_entries(vec![
        ("text_col".to_string(), ValueType::Text),
        ("pattern".to_string(), ValueType::Text),
    ]);
    let r = row(&[("text_col", Some("abc")), ("pattern", Some("("))]);
    let result = eval(&d, &r, &types).unwrap();
    assert_eq!(*result.get("out").unwrap(), None);
}

fn gt(lhs: Expr, rhs: Expr) -> Expr {
    Expr::BinaryOp {
        op: Operator::GreaterThan,
        lhs: Box::new(lhs),
        rhs: Box::new(rhs),
    }
}

#[test]
fn greater_than_evaluates_to_boolean() {
    let d = def(vec![FieldDef {
        name: "out".to_string(),
        expr: gt(col("a"), Expr::NumberLiteral("0".to_string())),
    }]);
    let r = row(&[("a", Some("5"))]);
    let result = eval(&d, &r, &numeric_types(&["a"])).unwrap();
    assert_eq!(*result.get("out").unwrap(), Some(Value::Boolean(true)));
}

#[test]
fn greater_than_is_false_when_not_strictly_greater() {
    let d = def(vec![FieldDef {
        name: "out".to_string(),
        expr: gt(col("a"), Expr::NumberLiteral("5".to_string())),
    }]);
    let r = row(&[("a", Some("5"))]);
    let result = eval(&d, &r, &numeric_types(&["a"])).unwrap();
    assert_eq!(*result.get("out").unwrap(), Some(Value::Boolean(false)));
}

#[test]
fn greater_than_propagates_null() {
    let d = def(vec![FieldDef {
        name: "out".to_string(),
        expr: gt(col("a"), Expr::NumberLiteral("0".to_string())),
    }]);
    let r = row(&[("a", None)]);
    let result = eval(&d, &r, &numeric_types(&["a"])).unwrap();
    assert_eq!(*result.get("out").unwrap(), None);
}

#[test]
fn function_call_composed_with_greater_than() {
    let d = def(vec![FieldDef {
        name: "has_foo".to_string(),
        expr: gt(
            call(
                "STRPOS",
                vec![col("name"), Expr::StringLiteral("foo".to_string())],
            ),
            Expr::NumberLiteral("0".to_string()),
        ),
    }]);
    let r = row(&[("name", Some("has foo in it"))]);
    let result = eval(&d, &r, &text_types(&["name"])).unwrap();
    assert_eq!(*result.get("has_foo").unwrap(), Some(Value::Boolean(true)));

    let r_absent = row(&[("name", Some("no match here"))]);
    let result_absent = eval(&d, &r_absent, &text_types(&["name"])).unwrap();
    assert_eq!(*result_absent.get("has_foo").unwrap(), Some(Value::Boolean(false)));
}

#[test]
fn function_call_returns_null_when_an_argument_is_null() {
    let d = def(vec![FieldDef {
        name: "out".to_string(),
        expr: call("OCTET_LENGTH", vec![col("text_col")]),
    }]);
    let r = row(&[("text_col", None)]);
    let result = eval(&d, &r, &text_types(&["text_col"])).unwrap();
    assert_eq!(*result.get("out").unwrap(), None);
}

#[test]
fn coalesce_returns_the_first_non_null_argument() {
    let d = def(vec![FieldDef {
        name: "out".to_string(),
        expr: call("COALESCE", vec![col("a"), col("b")]),
    }]);

    let r = row(&[("a", None), ("b", Some("7"))]);
    let result = eval(&d, &r, &numeric_types(&["a", "b"])).unwrap();
    match result.get("out").unwrap().as_ref().unwrap() {
        Value::Numeric(n) => assert_eq!(n.to_string(), "7"),
        other => panic!("expected Numeric, got {other:?}"),
    }

    let r = row(&[("a", Some("3")), ("b", Some("7"))]);
    let result = eval(&d, &r, &numeric_types(&["a", "b"])).unwrap();
    match result.get("out").unwrap().as_ref().unwrap() {
        Value::Numeric(n) => assert_eq!(n.to_string(), "3"),
        other => panic!("expected Numeric, got {other:?}"),
    }
}

#[test]
fn coalesce_falls_through_to_a_literal_default() {
    let d = def(vec![FieldDef {
        name: "out".to_string(),
        expr: call(
            "COALESCE",
            vec![col("a"), col("b"), Expr::NumberLiteral("0".to_string())],
        ),
    }]);
    let r = row(&[("a", None), ("b", None)]);
    let result = eval(&d, &r, &numeric_types(&["a", "b"])).unwrap();
    match result.get("out").unwrap().as_ref().unwrap() {
        Value::Numeric(n) => assert_eq!(n.to_string(), "0"),
        other => panic!("expected Numeric, got {other:?}"),
    }
}

#[test]
fn coalesce_is_null_when_every_argument_is_null() {
    let d = def(vec![FieldDef {
        name: "out".to_string(),
        expr: call("COALESCE", vec![col("a"), col("b")]),
    }]);
    let r = row(&[("a", None), ("b", None)]);
    let result = eval(&d, &r, &numeric_types(&["a", "b"])).unwrap();
    assert_eq!(*result.get("out").unwrap(), None);
}

fn aggregate_def(group_by: &[&str], fields: Vec<FieldDef>) -> TransformDef {
    TransformDef {
        target: "t".to_string(),
        source: "s".to_string(),
        key_space: KeySpace::Aggregate {
            group_by: group_by
                .iter()
                .map(|s| GroupByKey::Column(s.to_string()))
                .collect(),
        },
        fields,
        predicate: Predicate::True,
        explicit_source_schema: None,
        explicit_target_schema: None,
    }
}

#[test]
fn aggregate_argument_can_reference_another_calculated_field() {
    let d = aggregate_def(
        &["id"],
        vec![
            FieldDef {
                name: "adj".to_string(),
                expr: plus(col("id"), Expr::NumberLiteral("1".to_string())),
            },
            FieldDef {
                name: "t".to_string(),
                expr: call("SUM", vec![col("adj")]),
            },
        ],
    );
    let rows = vec![
        row(&[("id", Some("1"))]),
        row(&[("id", Some("1"))]),
        row(&[("id", Some("1"))]),
    ];
    let result =
        evaluate_aggregate(&d, &rows, &numeric_types(&["id"]), &mut RegexCache::new()).unwrap();
    match result.get("t").unwrap().as_ref().unwrap() {
        Value::Numeric(n) => assert_eq!(n.to_string(), "6"),
        other => panic!("expected Numeric, got {other:?}"),
    }
}

#[test]
fn coalesce_over_an_aggregate_replaces_the_empty_group_null() {
    let d = aggregate_def(
        &["id"],
        vec![
            FieldDef {
                name: "id".to_string(),
                expr: col("id"),
            },
            FieldDef {
                name: "total".to_string(),
                expr: call(
                    "COALESCE",
                    vec![
                        call("SUM", vec![col("amount")]),
                        Expr::NumberLiteral("0".to_string()),
                    ],
                ),
            },
        ],
    );
    let rows = vec![
        row(&[("id", Some("1")), ("amount", None)]),
        row(&[("id", Some("1")), ("amount", None)]),
    ];
    let result = evaluate_aggregate(
        &d,
        &rows,
        &numeric_types(&["id", "amount"]),
        &mut RegexCache::new(),
    )
    .unwrap();
    match result.get("total").unwrap().as_ref().unwrap() {
        Value::Numeric(n) => assert_eq!(n.to_string(), "0"),
        other => panic!("expected Numeric, got {other:?}"),
    }
}

fn rel_path(rel: &str, column: &str) -> Expr {
    Expr::RelationshipPath {
        rel: rel.to_string(),
        column: column.to_string(),
    }
}

fn category_context() -> RelationshipContext {
    let mut to_columns = NameMap::new();
    to_columns.insert("name".to_string(), ValueType::Text);
    to_columns.insert("rate".to_string(), ValueType::Numeric);

    let mut to_rows_by_key = NameMap::new();
    to_rows_by_key.insert(
        "10".to_string(),
        row(&[
            ("id", Some("10")),
            ("name", Some("Widgets")),
            ("rate", Some("1.5")),
        ]),
    );
    to_rows_by_key.insert(
        "20".to_string(),
        row(&[("id", Some("20")), ("name", None), ("rate", Some("2"))]),
    );

    let mut by_name = NameMap::new();
    by_name.insert(
        "category".to_string(),
        ToOneRelationship {
            from_col: "category_id".to_string(),
            cardinality: RelationshipCardinality::ToOne,
            to_columns,
            to_rows_by_key,
        },
    );
    RelationshipContext::new(by_name)
}

fn eval_rel(
    d: &TransformDef,
    r: &Row,
    types: &NameMap<ValueType>,
    rels: &RelationshipContext,
) -> Result<NameMap<Option<Value>>, EvalError> {
    evaluate_with_relationships(d, r, types, rels, &mut RegexCache::new())
}

#[test]
fn to_one_path_reads_the_matched_to_side_column() {
    let d = def(vec![FieldDef {
        name: "category_name".to_string(),
        expr: rel_path("category", "name"),
    }]);
    let r = row(&[("category_id", Some("10"))]);
    let result = eval_rel(
        &d,
        &r,
        &numeric_types(&["category_id"]),
        &category_context(),
    )
    .unwrap();
    match result.get("category_name").unwrap().as_ref().unwrap() {
        Value::Text(s) => assert_eq!(s, "Widgets"),
        other => panic!("expected Text, got {other:?}"),
    }
}

#[test]
fn to_one_path_numeric_column_parses_with_to_side_type() {
    let d = def(vec![FieldDef {
        name: "category_rate".to_string(),
        expr: rel_path("category", "rate"),
    }]);
    let r = row(&[("category_id", Some("10"))]);
    let result = eval_rel(
        &d,
        &r,
        &numeric_types(&["category_id"]),
        &category_context(),
    )
    .unwrap();
    match result.get("category_rate").unwrap().as_ref().unwrap() {
        Value::Numeric(n) => assert_eq!(n.to_string(), "1.5"),
        other => panic!("expected Numeric, got {other:?}"),
    }
}

#[test]
fn to_one_path_no_match_is_null() {
    let d = def(vec![FieldDef {
        name: "category_name".to_string(),
        expr: rel_path("category", "name"),
    }]);
    let r = row(&[("category_id", Some("99"))]);
    let result = eval_rel(
        &d,
        &r,
        &numeric_types(&["category_id"]),
        &category_context(),
    )
    .unwrap();
    assert_eq!(*result.get("category_name").unwrap(), None);
}

#[test]
fn to_one_path_null_fk_is_null() {
    let d = def(vec![FieldDef {
        name: "category_name".to_string(),
        expr: rel_path("category", "name"),
    }]);
    let r = row(&[("category_id", None)]);
    let result = eval_rel(
        &d,
        &r,
        &numeric_types(&["category_id"]),
        &category_context(),
    )
    .unwrap();
    assert_eq!(*result.get("category_name").unwrap(), None);
}

#[test]
fn to_one_path_null_to_side_column_is_null() {
    let d = def(vec![FieldDef {
        name: "category_name".to_string(),
        expr: rel_path("category", "name"),
    }]);
    let r = row(&[("category_id", Some("20"))]);
    let result = eval_rel(
        &d,
        &r,
        &numeric_types(&["category_id"]),
        &category_context(),
    )
    .unwrap();
    assert_eq!(*result.get("category_name").unwrap(), None);
}

#[test]
fn to_one_path_composes_in_a_larger_expression() {
    let d = def(vec![FieldDef {
        name: "adjusted".to_string(),
        expr: plus(
            rel_path("category", "rate"),
            Expr::NumberLiteral("10".to_string()),
        ),
    }]);
    let r = row(&[("category_id", Some("10"))]);
    let result = eval_rel(
        &d,
        &r,
        &numeric_types(&["category_id"]),
        &category_context(),
    )
    .unwrap();
    match result.get("adjusted").unwrap().as_ref().unwrap() {
        Value::Numeric(n) => assert_eq!(n.to_string(), "11.5"),
        other => panic!("expected Numeric, got {other:?}"),
    }
}

#[test]
fn unknown_relationship_errors() {
    let d = def(vec![FieldDef {
        name: "x".to_string(),
        expr: rel_path("nonexistent", "name"),
    }]);
    let r = row(&[("category_id", Some("10"))]);
    let err = eval_rel(
        &d,
        &r,
        &numeric_types(&["category_id"]),
        &category_context(),
    )
    .unwrap_err();
    assert!(
        matches!(err, EvalError::UnknownRelationship { .. }),
        "got {err:?}"
    );
}

#[test]
fn to_many_bare_path_requires_aggregate() {
    let mut by_name = NameMap::new();
    by_name.insert(
        "orders".to_string(),
        ToOneRelationship {
            from_col: "id".to_string(),
            cardinality: RelationshipCardinality::ToMany,
            to_columns: NameMap::new(),
            to_rows_by_key: NameMap::new(),
        },
    );
    let rels = RelationshipContext::new(by_name);
    let d = def(vec![FieldDef {
        name: "x".to_string(),
        expr: rel_path("orders", "total"),
    }]);
    let r = row(&[("id", Some("1"))]);
    let err = eval_rel(&d, &r, &numeric_types(&["id"]), &rels).unwrap_err();
    assert!(
        matches!(err, EvalError::AggregateRequiredForToMany { .. }),
        "got {err:?}"
    );
}

#[test]
fn plain_evaluate_has_no_relationships_so_a_path_errors() {
    let d = def(vec![FieldDef {
        name: "x".to_string(),
        expr: rel_path("category", "name"),
    }]);
    let r = row(&[("category_id", Some("10"))]);
    let err = eval(&d, &r, &numeric_types(&["category_id"])).unwrap_err();
    assert!(
        matches!(err, EvalError::UnknownRelationship { .. }),
        "got {err:?}"
    );
}

fn comments_context() -> RelationshipContext {
    let mut to_columns = NameMap::new();
    to_columns.insert("word_count".to_string(), ValueType::Numeric);

    let mut to_rows_by_key: NameMap<Vec<Row>> = NameMap::new();
    to_rows_by_key.insert(
        "1".to_string(),
        vec![
            row(&[("word_count", Some("10"))]),
            row(&[("word_count", Some("20"))]),
            row(&[("word_count", None)]),
        ],
    );
    to_rows_by_key.insert("2".to_string(), vec![row(&[("word_count", Some("5"))])]);

    let mut to_many = NameMap::new();
    to_many.insert(
        "comments".to_string(),
        ToManyRelationship {
            from_col: "id".to_string(),
            to_columns,
            to_rows_by_key,
        },
    );
    RelationshipContext::default().with_to_many(to_many)
}

fn agg_rel(func: &str) -> TransformDef {
    def(vec![FieldDef {
        name: "out".to_string(),
        expr: call(func, vec![rel_path("comments", "word_count")]),
    }])
}

#[test]
fn to_many_sum_folds_related_rows_skipping_null() {
    let r = row(&[("id", Some("1"))]);
    let result = eval_rel(
        &agg_rel("SUM"),
        &r,
        &numeric_types(&["id"]),
        &comments_context(),
    )
    .unwrap();
    match result.get("out").unwrap().as_ref().unwrap() {
        Value::Numeric(n) => assert_eq!(n.to_string(), "30"),
        other => panic!("expected Numeric, got {other:?}"),
    }
}

#[test]
fn to_many_min_max_avg_over_related_rows() {
    let r = row(&[("id", Some("1"))]);
    let types = numeric_types(&["id"]);
    let ctx = comments_context();
    let min = eval_rel(&agg_rel("MIN"), &r, &types, &ctx).unwrap();
    let max = eval_rel(&agg_rel("MAX"), &r, &types, &ctx).unwrap();
    let avg = eval_rel(&agg_rel("AVG"), &r, &types, &ctx).unwrap();
    assert_eq!(
        *min.get("out").unwrap(),
        Some(Value::Numeric(Numeric::parse("10").unwrap()))
    );
    assert_eq!(
        *max.get("out").unwrap(),
        Some(Value::Numeric(Numeric::parse("20").unwrap()))
    );
    match avg.get("out").unwrap().as_ref().unwrap() {
        Value::Numeric(n) => {
            assert_eq!(
                n.compare(&Numeric::parse("15").unwrap()),
                std::cmp::Ordering::Equal
            )
        }
        other => panic!("expected Numeric, got {other:?}"),
    }
}

#[test]
fn to_many_count_counts_non_null_related_values() {
    let r = row(&[("id", Some("1"))]);
    let result = eval_rel(
        &agg_rel("COUNT"),
        &r,
        &numeric_types(&["id"]),
        &comments_context(),
    )
    .unwrap();
    assert_eq!(
        *result.get("out").unwrap(),
        Some(Value::Numeric(Numeric::parse("2").unwrap()))
    );
}

#[test]
fn to_many_empty_set_count_is_zero_others_null() {
    let r = row(&[("id", Some("3"))]);
    let types = numeric_types(&["id"]);
    let ctx = comments_context();
    assert_eq!(
        *eval_rel(&agg_rel("COUNT"), &r, &types, &ctx).unwrap().get("out").unwrap(),
        Some(Value::Numeric(Numeric::parse("0").unwrap())),
        "COUNT over empty set is 0"
    );
    for func in ["SUM", "MIN", "MAX", "AVG"] {
        assert_eq!(
            *eval_rel(&agg_rel(func), &r, &types, &ctx).unwrap().get("out").unwrap(),
            None,
            "{func:?} over empty set is NULL"
        );
    }
}

#[test]
fn to_many_null_join_key_is_the_empty_set() {
    let r = row(&[("id", None)]);
    let result = eval_rel(
        &agg_rel("COUNT"),
        &r,
        &numeric_types(&["id"]),
        &comments_context(),
    )
    .unwrap();
    assert_eq!(
        *result.get("out").unwrap(),
        Some(Value::Numeric(Numeric::parse("0").unwrap()))
    );
}

#[test]
fn to_many_unknown_relationship_errors() {
    let r = row(&[("id", Some("1"))]);
    let d = def(vec![FieldDef {
        name: "out".to_string(),
        expr: call("SUM", vec![rel_path("nope", "word_count")]),
    }]);
    let err = eval_rel(&d, &r, &numeric_types(&["id"]), &comments_context()).unwrap_err();
    assert!(
        matches!(err, EvalError::UnknownRelationship { .. }),
        "got {err:?}"
    );
}
