use trellis::defs::ast::{
    Expr, FieldDef, GroupByKey, KeySpace, Operator, Predicate, TransformDef, ValueType,
};
use trellis::defs::model::RelationshipCardinality;
use trellis::defs::pg_type::PgType;
use trellis::defs::typing::{infer_field_types, ResolvedRelationship};
use trellis::defs::validate::validate;
use trellis::defs::validation_error::ValidationError;
use trellis::names::NameMap;

fn def(fields: Vec<FieldDef>) -> TransformDef {
    TransformDef {
        target: "t".to_string(),
        source: "s".to_string(),
        key_space: KeySpace::OneToOne,
        fields,
        predicate: Predicate::True,
        explicit_source_schema: None,
        explicit_target_schema: None,
    }
}

fn col(name: &str) -> Expr {
    Expr::Column(name.to_string())
}

fn numeric_columns(names: &[&str]) -> NameMap<ValueType> {
    NameMap::from_entries(
        names
            .iter()
            .map(|n| (n.to_string(), ValueType::Numeric))
            .collect()
    )
}

#[test]
fn valid_definition_passes() {
    let d = def(vec![
        FieldDef {
            name: "double_price".to_string(),
            expr: Expr::BinaryOp {
                op: Operator::Add,
                lhs: Box::new(col("price")),
                rhs: Box::new(col("price")),
            },
        },
        FieldDef {
            name: "total".to_string(),
            expr: Expr::BinaryOp {
                op: Operator::Add,
                lhs: Box::new(col("double_price")),
                rhs: Box::new(Expr::NumberLiteral("1".to_string())),
            },
        },
    ]);
    let source_columns = numeric_columns(&["price"]);
    assert_eq!(validate(&d, &source_columns, &NameMap::new()), Ok(()));
}

#[test]
fn unresolved_column_is_rejected() {
    let d = def(vec![FieldDef {
        name: "x".to_string(),
        expr: col("mystery"),
    }]);
    let err = validate(&d, &NameMap::new(), &NameMap::new()).unwrap_err();
    assert_eq!(
        err,
        ValidationError::UnresolvedColumn {
            field: "x".to_string(),
            column: "mystery".to_string(),
        }
    );
}

#[test]
fn two_node_cycle_is_rejected() {
    let d = def(vec![
        FieldDef {
            name: "x".to_string(),
            expr: col("y"),
        },
        FieldDef {
            name: "y".to_string(),
            expr: col("x"),
        },
    ]);
    let err = validate(&d, &NameMap::new(), &NameMap::new()).unwrap_err();
    match err {
        ValidationError::Cycle { .. } => {}
        other => panic!("expected Cycle, got {other:?}"),
    }
}

#[test]
fn self_reference_to_a_nonexistent_column_is_unresolved_not_a_cycle() {
    let d = def(vec![FieldDef {
        name: "x".to_string(),
        expr: col("x"),
    }]);
    let err = validate(&d, &NameMap::new(), &NameMap::new()).unwrap_err();
    assert_eq!(
        err,
        ValidationError::UnresolvedColumn {
            field: "x".to_string(),
            column: "x".to_string(),
        }
    );
}

#[test]
fn diamond_dependency_is_not_a_false_positive_cycle() {
    let d = def(vec![
        FieldDef {
            name: "a".to_string(),
            expr: col("c"),
        },
        FieldDef {
            name: "b".to_string(),
            expr: col("c"),
        },
        FieldDef {
            name: "d".to_string(),
            expr: Expr::BinaryOp {
                op: Operator::Add,
                lhs: Box::new(col("a")),
                rhs: Box::new(col("b")),
            },
        },
    ]);
    let source_columns = numeric_columns(&["c"]);
    assert_eq!(validate(&d, &source_columns, &NameMap::new()), Ok(()));
}

#[test]
fn a_calc_field_named_after_a_real_column_must_be_a_bare_passthrough() {
    let d = def(vec![FieldDef {
        name: "total_posted_words".to_string(),
        expr: Expr::BinaryOp {
            op: Operator::Add,
            lhs: Box::new(col("word_count")),
            rhs: Box::new(Expr::NumberLiteral("1".to_string())),
        },
    }]);
    let source_columns = numeric_columns(&["word_count", "total_posted_words"]);
    let err = validate(&d, &source_columns, &NameMap::new()).unwrap_err();
    assert_eq!(
        err,
        ValidationError::CalculatedFieldShadowsSourceColumn {
            field: "total_posted_words".to_string(),
        }
    );
}

#[test]
fn a_calc_field_bare_passthrough_of_a_same_named_column_is_still_allowed() {
    let d = def(vec![FieldDef {
        name: "price".to_string(),
        expr: col("price"),
    }]);
    let source_columns = numeric_columns(&["price"]);
    assert_eq!(validate(&d, &source_columns, &NameMap::new()), Ok(()));
}

#[test]
fn target_equals_source_is_rejected() {
    let mut d = def(vec![FieldDef {
        name: "x".to_string(),
        expr: Expr::NumberLiteral("1".to_string()),
    }]);
    d.target = "s".to_string();
    d.source = "s".to_string();
    let err = validate(&d, &NameMap::new(), &NameMap::new()).unwrap_err();
    assert_eq!(
        err,
        ValidationError::TargetEqualsSource {
            table: "s".to_string()
        }
    );
}

#[test]
fn duplicate_field_name_is_rejected() {
    let d = def(vec![
        FieldDef {
            name: "x".to_string(),
            expr: Expr::NumberLiteral("1".to_string()),
        },
        FieldDef {
            name: "x".to_string(),
            expr: Expr::NumberLiteral("2".to_string()),
        },
    ]);
    let err = validate(&d, &NameMap::new(), &NameMap::new()).unwrap_err();
    assert_eq!(
        err,
        ValidationError::DuplicateFieldName {
            name: "x".to_string()
        }
    );
}

#[test]
fn text_column_passthrough_is_accepted() {
    let d = def(vec![FieldDef {
        name: "out".to_string(),
        expr: col("text_col"),
    }]);
    let source_columns = NameMap::from_entries(vec![("text_col".to_string(), ValueType::Text)]);
    assert_eq!(validate(&d, &source_columns, &NameMap::new()), Ok(()));
}

#[test]
fn uuid_column_passthrough_is_accepted() {
    let d = def(vec![FieldDef {
        name: "author".to_string(),
        expr: col("author"),
    }]);
    let source_columns = NameMap::from_entries(vec![("author".to_string(), ValueType::Uuid)]);
    assert_eq!(validate(&d, &source_columns, &NameMap::new()), Ok(()));
}

#[test]
fn uuid_column_works_as_an_aggregate_group_by_key() {
    let d = aggregate_def(
        &["author"],
        vec![
            FieldDef {
                name: "author".to_string(),
                expr: col("author"),
            },
            FieldDef {
                name: "total_words".to_string(),
                expr: Expr::FunctionCall {
                    name: "SUM".to_string(),
                    args: vec![col("word_count")],
                },
            },
        ],
    );
    let source_columns = NameMap::from_entries(vec![
        ("author".to_string(), ValueType::Uuid),
        ("word_count".to_string(), ValueType::Numeric),
    ]);
    assert_eq!(validate(&d, &source_columns, &NameMap::new()), Ok(()));
}

#[test]
fn an_other_typed_column_is_rejected_as_an_aggregate_group_by_key() {
    for pg_type in [PgType::Interval, PgType::TimestampTz, PgType::Json] {
        let d = aggregate_def(
            &["k"],
            vec![
                FieldDef {
                    name: "k".to_string(),
                    expr: col("k"),
                },
                FieldDef {
                    name: "total_words".to_string(),
                    expr: Expr::FunctionCall {
                        name: "SUM".to_string(),
                        args: vec![col("word_count")],
                    },
                },
            ],
        );
        let source_columns = NameMap::from_entries(vec![
            ("k".to_string(), ValueType::Other(pg_type)),
            ("word_count".to_string(), ValueType::Numeric),
        ]);
        assert_eq!(
            validate(&d, &source_columns, &NameMap::new()),
            Err(ValidationError::UnsupportedGroupByKeyType {
                column: "k".to_string(),
                value_type: ValueType::Other(pg_type),
            }),
            "{pg_type:?} must not be accepted as a GROUP BY key"
        );
    }
}

#[test]
fn an_other_typed_column_passthrough_is_still_accepted() {
    let d = def(vec![FieldDef {
        name: "payload".to_string(),
        expr: col("payload"),
    }]);
    let source_columns =
        NameMap::from_entries(vec![("payload".to_string(), ValueType::Other(PgType::Jsonb))]);
    assert_eq!(validate(&d, &source_columns, &NameMap::new()), Ok(()));
}

#[test]
fn boolean_column_passthrough_is_accepted() {
    let d = def(vec![FieldDef {
        name: "out".to_string(),
        expr: col("flag"),
    }]);
    let source_columns = NameMap::from_entries(vec![("flag".to_string(), ValueType::Boolean)]);
    assert_eq!(validate(&d, &source_columns, &NameMap::new()), Ok(()));
}

#[test]
fn adding_a_text_column_is_a_type_mismatch() {
    let d = def(vec![FieldDef {
        name: "out".to_string(),
        expr: Expr::BinaryOp {
            op: Operator::Add,
            lhs: Box::new(col("text_col")),
            rhs: Box::new(Expr::NumberLiteral("1".to_string())),
        },
    }]);
    let source_columns = NameMap::from_entries(vec![("text_col".to_string(), ValueType::Text)]);
    let err = validate(&d, &source_columns, &NameMap::new()).unwrap_err();
    assert_eq!(
        err,
        ValidationError::TypeMismatch {
            field: "out".to_string(),
            expected: ValueType::Numeric,
            found: ValueType::Text,
        }
    );
}

#[test]
fn string_literal_type_checks_as_text() {
    let d = def(vec![FieldDef {
        name: "out".to_string(),
        expr: Expr::StringLiteral("hi".to_string()),
    }]);
    assert_eq!(validate(&d, &NameMap::new(), &NameMap::new()), Ok(()));
}

#[test]
fn function_call_over_a_text_column_type_checks_as_numeric() {
    let d = def(vec![FieldDef {
        name: "out".to_string(),
        expr: Expr::FunctionCall {
            name: "OCTET_LENGTH".to_string(),
            args: vec![col("text_col")],
        },
    }]);
    let source_columns = NameMap::from_entries(vec![("text_col".to_string(), ValueType::Text)]);
    assert_eq!(validate(&d, &source_columns, &NameMap::new()), Ok(()));
}

#[test]
fn function_call_with_a_numeric_argument_is_a_type_mismatch() {
    let d = def(vec![FieldDef {
        name: "out".to_string(),
        expr: Expr::FunctionCall {
            name: "OCTET_LENGTH".to_string(),
            args: vec![col("number_col")],
        },
    }]);
    let source_columns = NameMap::from_entries(vec![("number_col".to_string(), ValueType::Numeric)]);
    let err = validate(&d, &source_columns, &NameMap::new()).unwrap_err();
    assert_eq!(
        err,
        ValidationError::FunctionArgTypeMismatch {
            field: "out".to_string(),
            function: "OCTET_LENGTH".to_string(),
            arg_index: 0,
            expected: ValueType::Text,
            found: ValueType::Numeric,
        }
    );
}

#[test]
fn coalesce_infers_the_common_argument_type() {
    let d = def(vec![FieldDef {
        name: "out".to_string(),
        expr: Expr::FunctionCall {
            name: "COALESCE".to_string(),
            args: vec![col("text_col"), Expr::StringLiteral("fallback".to_string())],
        },
    }]);
    let source_columns = NameMap::from_entries(vec![("text_col".to_string(), ValueType::Text)]);
    assert_eq!(validate(&d, &source_columns, &NameMap::new()), Ok(()));
    let types = infer_field_types(&d, &source_columns, &NameMap::new()).unwrap();
    assert_eq!(*types.get("out").unwrap(), ValueType::Text);
}

#[test]
fn coalesce_with_incompatible_argument_types_is_rejected() {
    let d = def(vec![FieldDef {
        name: "out".to_string(),
        expr: Expr::FunctionCall {
            name: "COALESCE".to_string(),
            args: vec![col("number_col"), col("text_col")],
        },
    }]);
    let source_columns = NameMap::from_entries(vec![
        ("number_col".to_string(), ValueType::Numeric),
        ("text_col".to_string(), ValueType::Text),
    ]);
    let err = validate(&d, &source_columns, &NameMap::new()).unwrap_err();
    assert_eq!(
        err,
        ValidationError::FunctionArgTypeMismatch {
            field: "out".to_string(),
            function: "COALESCE".to_string(),
            arg_index: 1,
            expected: ValueType::Numeric,
            found: ValueType::Text,
        }
    );
}

#[test]
fn coalesce_rejects_a_string_literal_postgres_would_coerce() {
    let d = def(vec![FieldDef {
        name: "out".to_string(),
        expr: Expr::FunctionCall {
            name: "COALESCE".to_string(),
            args: vec![col("number_col"), Expr::StringLiteral("0".to_string())],
        },
    }]);
    let source_columns = numeric_columns(&["number_col"]);
    let err = validate(&d, &source_columns, &NameMap::new()).unwrap_err();
    assert_eq!(
        err,
        ValidationError::FunctionArgTypeMismatch {
            field: "out".to_string(),
            function: "COALESCE".to_string(),
            arg_index: 1,
            expected: ValueType::Numeric,
            found: ValueType::Text,
        }
    );

    let d = def(vec![FieldDef {
        name: "out".to_string(),
        expr: Expr::FunctionCall {
            name: "COALESCE".to_string(),
            args: vec![col("number_col"), Expr::NumberLiteral("0".to_string())],
        },
    }]);
    assert_eq!(validate(&d, &source_columns, &NameMap::new()), Ok(()));
}

#[test]
fn greater_than_over_numeric_operands_type_checks_as_boolean() {
    let d = def(vec![FieldDef {
        name: "out".to_string(),
        expr: Expr::BinaryOp {
            op: Operator::GreaterThan,
            lhs: Box::new(col("number_col")),
            rhs: Box::new(Expr::NumberLiteral("0".to_string())),
        },
    }]);
    let source_columns = numeric_columns(&["number_col"]);
    assert_eq!(validate(&d, &source_columns, &NameMap::new()), Ok(()));
}

#[test]
fn greater_than_over_a_text_operand_is_a_type_mismatch() {
    let d = def(vec![FieldDef {
        name: "out".to_string(),
        expr: Expr::BinaryOp {
            op: Operator::GreaterThan,
            lhs: Box::new(col("text_col")),
            rhs: Box::new(Expr::NumberLiteral("0".to_string())),
        },
    }]);
    let source_columns = NameMap::from_entries(vec![("text_col".to_string(), ValueType::Text)]);
    let err = validate(&d, &source_columns, &NameMap::new()).unwrap_err();
    assert_eq!(
        err,
        ValidationError::TypeMismatch {
            field: "out".to_string(),
            expected: ValueType::Numeric,
            found: ValueType::Text,
        }
    );
}

#[test]
fn function_call_composed_with_greater_than_type_checks_as_boolean() {
    let d = def(vec![FieldDef {
        name: "has_foo".to_string(),
        expr: Expr::BinaryOp {
            op: Operator::GreaterThan,
            lhs: Box::new(Expr::FunctionCall {
                name: "STRPOS".to_string(),
                args: vec![col("name"), Expr::StringLiteral("foo".to_string())],
            }),
            rhs: Box::new(Expr::NumberLiteral("0".to_string())),
        },
    }]);
    let source_columns = NameMap::from_entries(vec![("name".to_string(), ValueType::Text)]);
    assert_eq!(validate(&d, &source_columns, &NameMap::new()), Ok(()));
    let types = infer_field_types(&d, &source_columns, &NameMap::new()).unwrap();
    assert_eq!(*types.get("has_foo").unwrap(), ValueType::Boolean);
}

#[test]
fn boolean_target_field_from_greater_than_is_accepted() {
    let d = def(vec![FieldDef {
        name: "is_positive".to_string(),
        expr: Expr::BinaryOp {
            op: Operator::GreaterThan,
            lhs: Box::new(col("number_col")),
            rhs: Box::new(Expr::NumberLiteral("0".to_string())),
        },
    }]);
    let source_columns = numeric_columns(&["number_col"]);
    assert_eq!(validate(&d, &source_columns, &NameMap::new()), Ok(()));
}

#[test]
fn regexp_count_with_a_literal_pattern_is_accepted() {
    let d = def(vec![FieldDef {
        name: "out".to_string(),
        expr: Expr::FunctionCall {
            name: "REGEXP_COUNT".to_string(),
            args: vec![col("text_col"), Expr::StringLiteral("a.c".to_string())],
        },
    }]);
    let source_columns = NameMap::from_entries(vec![("text_col".to_string(), ValueType::Text)]);
    assert_eq!(validate(&d, &source_columns, &NameMap::new()), Ok(()));
}

#[test]
fn regexp_count_with_a_column_sourced_pattern_is_rejected() {
    let d = def(vec![FieldDef {
        name: "out".to_string(),
        expr: Expr::FunctionCall {
            name: "REGEXP_COUNT".to_string(),
            args: vec![col("text_col"), col("pattern_col")],
        },
    }]);
    let source_columns = NameMap::from_entries(vec![
        ("text_col".to_string(), ValueType::Text),
        ("pattern_col".to_string(), ValueType::Text),
    ]);
    let err = validate(&d, &source_columns, &NameMap::new()).unwrap_err();
    assert_eq!(
        err,
        ValidationError::NonLiteralRegexPattern {
            field: "out".to_string(),
        }
    );
}

fn aggregate_def(group_by: &[&str], fields: Vec<FieldDef>) -> TransformDef {
    aggregate_def_with_keys(
        group_by
            .iter()
            .map(|s| GroupByKey::Column(s.to_string()))
            .collect(),
        fields,
    )
}

fn aggregate_def_with_keys(group_by: Vec<GroupByKey>, fields: Vec<FieldDef>) -> TransformDef {
    TransformDef {
        target: "t".to_string(),
        source: "s".to_string(),
        key_space: KeySpace::Aggregate { group_by },
        fields,
        predicate: Predicate::True,
        explicit_source_schema: None,
        explicit_target_schema: None,
    }
}

#[test]
fn a_valid_aggregate_definition_passes() {
    let d = aggregate_def(
        &["order_id"],
        vec![
            FieldDef {
                name: "order_id".to_string(),
                expr: col("order_id"),
            },
            FieldDef {
                name: "total".to_string(),
                expr: Expr::FunctionCall {
                    name: "SUM".to_string(),
                    args: vec![col("amount")],
                },
            },
            FieldDef {
                name: "avg_amount".to_string(),
                expr: Expr::FunctionCall {
                    name: "AVG".to_string(),
                    args: vec![col("amount")],
                },
            },
        ],
    );
    let source_columns = numeric_columns(&["order_id", "amount"]);
    assert_eq!(validate(&d, &source_columns, &NameMap::new()), Ok(()));
}

#[test]
fn a_to_many_relationship_path_in_an_aggregate_definition_is_rejected() {
    let d = aggregate_def(
        &["order_id"],
        vec![
            FieldDef {
                name: "order_id".to_string(),
                expr: col("order_id"),
            },
            FieldDef {
                name: "total_words".to_string(),
                expr: Expr::FunctionCall {
                    name: "SUM".to_string(),
                    args: vec![Expr::RelationshipPath {
                        rel: "comments".to_string(),
                        column: "word_count".to_string(),
                    }],
                },
            },
        ],
    );
    let source_columns = numeric_columns(&["order_id"]);
    let relationships = NameMap::from_entries(vec![(
        "comments".to_string(),
        ResolvedRelationship {
            cardinality: RelationshipCardinality::ToMany,
            to_table: "comments".to_string(),
            to_col: "order_id".to_string(),
            column_types: NameMap::from_entries(vec![("word_count".to_string(), ValueType::Numeric)]),
        },
    )]);
    let err = validate(&d, &source_columns, &relationships).unwrap_err();
    assert_eq!(
        err,
        ValidationError::RelationshipPathInAggregate {
            field: "total_words".to_string(),
            rel: "comments".to_string(),
            column: "word_count".to_string(),
        }
    );
}

fn to_one_rel(name: &str, to_table: &str, column: &str) -> NameMap<ResolvedRelationship> {
    to_one_rel_of(name, to_table, column, ValueType::Numeric)
}

fn to_one_rel_of(
    name: &str,
    to_table: &str,
    column: &str,
    value_type: ValueType,
) -> NameMap<ResolvedRelationship> {
    NameMap::from_entries(vec![(
        name.to_string(),
        ResolvedRelationship {
            cardinality: RelationshipCardinality::ToOne,
            to_table: to_table.to_string(),
            to_col: "id".to_string(),
            column_types: NameMap::from_entries(vec![(column.to_string(), value_type)]),
        },
    )])
}

#[test]
fn a_to_one_relationship_path_aggregated_in_a_group_by_is_accepted() {
    let d = aggregate_def(
        &["tag"],
        vec![
            FieldDef {
                name: "tag".to_string(),
                expr: col("tag"),
            },
            FieldDef {
                name: "total_words".to_string(),
                expr: Expr::FunctionCall {
                    name: "SUM".to_string(),
                    args: vec![Expr::RelationshipPath {
                        rel: "post".to_string(),
                        column: "word_count".to_string(),
                    }],
                },
            },
        ],
    );
    let source_columns = numeric_columns(&["tag", "post"]);
    let relationships = to_one_rel("post", "posts", "word_count");
    assert_eq!(validate(&d, &source_columns, &relationships), Ok(()));
}

#[test]
fn a_bare_to_one_relationship_path_in_a_group_by_is_rejected() {
    let d = aggregate_def(
        &["tag"],
        vec![
            FieldDef {
                name: "tag".to_string(),
                expr: col("tag"),
            },
            FieldDef {
                name: "wc".to_string(),
                expr: Expr::RelationshipPath {
                    rel: "post".to_string(),
                    column: "word_count".to_string(),
                },
            },
        ],
    );
    let source_columns = numeric_columns(&["tag", "post"]);
    let relationships = to_one_rel("post", "posts", "word_count");
    let err = validate(&d, &source_columns, &relationships).unwrap_err();
    assert_eq!(
        err,
        ValidationError::UngroupedRelationshipReference {
            field: "wc".to_string(),
            rel: "post".to_string(),
            column: "word_count".to_string(),
        }
    );
}

#[test]
fn group_by_on_a_nonexistent_column_is_rejected() {
    let d = aggregate_def(
        &["missing"],
        vec![FieldDef {
            name: "missing".to_string(),
            expr: col("missing"),
        }],
    );
    let err = validate(&d, &NameMap::new(), &NameMap::new()).unwrap_err();
    assert_eq!(
        err,
        ValidationError::UnresolvedGroupByColumn {
            column: "missing".to_string()
        }
    );
}

#[test]
fn rejects_a_bare_non_grouping_column_reference() {
    let d = aggregate_def(
        &["order_id"],
        vec![FieldDef {
            name: "amount".to_string(),
            expr: col("amount"),
        }],
    );
    let source_columns = numeric_columns(&["order_id", "amount"]);
    let err = validate(&d, &source_columns, &NameMap::new()).unwrap_err();
    assert_eq!(
        err,
        ValidationError::UngroupedColumnReference {
            field: "amount".to_string(),
            column: "amount".to_string(),
        }
    );
}

#[test]
fn aggregating_over_the_grouping_key_itself_is_allowed() {
    let d = aggregate_def(
        &["order_id"],
        vec![FieldDef {
            name: "order_id_sum".to_string(),
            expr: Expr::FunctionCall {
                name: "SUM".to_string(),
                args: vec![col("order_id")],
            },
        }],
    );
    let source_columns = numeric_columns(&["order_id"]);
    assert_eq!(validate(&d, &source_columns, &NameMap::new()), Ok(()));
}

#[test]
fn a_field_named_after_the_grouping_column_must_be_a_bare_passthrough() {
    let d = aggregate_def(
        &["order_id"],
        vec![FieldDef {
            name: "order_id".to_string(),
            expr: Expr::FunctionCall {
                name: "SUM".to_string(),
                args: vec![col("order_id")],
            },
        }],
    );
    let source_columns = numeric_columns(&["order_id"]);
    let err = validate(&d, &source_columns, &NameMap::new()).unwrap_err();
    assert_eq!(
        err,
        ValidationError::GroupingColumnFieldMustBePassthrough {
            field: "order_id".to_string(),
        }
    );
}

#[test]
fn a_field_named_after_the_grouping_column_as_a_bare_passthrough_is_allowed() {
    let d = aggregate_def(
        &["order_id"],
        vec![FieldDef {
            name: "order_id".to_string(),
            expr: col("order_id"),
        }],
    );
    let source_columns = numeric_columns(&["order_id"]);
    assert_eq!(validate(&d, &source_columns, &NameMap::new()), Ok(()));
}

#[test]
fn a_to_one_relationship_path_group_by_key_is_accepted() {
    let d = aggregate_def_with_keys(
        vec![
            GroupByKey::Column("tag".to_string()),
            GroupByKey::RelationshipPath {
                rel: "post".to_string(),
                column: "author".to_string(),
            },
        ],
        vec![FieldDef {
            name: "post_count".to_string(),
            expr: Expr::FunctionCall {
                name: "COUNT".to_string(),
                args: Vec::new(),
            },
        }],
    );
    let source_columns = numeric_columns(&["tag", "post"]);
    let relationships = to_one_rel_of("post", "posts", "author", ValueType::Text);
    assert_eq!(validate(&d, &source_columns, &relationships), Ok(()));
}

#[test]
fn a_group_by_relationship_path_bare_passthrough_field_is_allowed() {
    let d = aggregate_def_with_keys(
        vec![GroupByKey::RelationshipPath {
            rel: "post".to_string(),
            column: "author".to_string(),
        }],
        vec![FieldDef {
            name: "author".to_string(),
            expr: Expr::RelationshipPath {
                rel: "post".to_string(),
                column: "author".to_string(),
            },
        }],
    );
    let source_columns = numeric_columns(&["post"]);
    let relationships = to_one_rel_of("post", "posts", "author", ValueType::Text);
    assert_eq!(validate(&d, &source_columns, &relationships), Ok(()));
}

#[test]
fn a_group_by_relationship_path_field_must_be_a_bare_passthrough() {
    let d = aggregate_def_with_keys(
        vec![GroupByKey::RelationshipPath {
            rel: "post".to_string(),
            column: "author".to_string(),
        }],
        vec![FieldDef {
            name: "author".to_string(),
            expr: Expr::FunctionCall {
                name: "COUNT".to_string(),
                args: Vec::new(),
            },
        }],
    );
    let source_columns = numeric_columns(&["post"]);
    let relationships = to_one_rel_of("post", "posts", "author", ValueType::Text);
    let err = validate(&d, &source_columns, &relationships).unwrap_err();
    assert_eq!(
        err,
        ValidationError::GroupingColumnFieldMustBePassthrough {
            field: "author".to_string(),
        }
    );
}

#[test]
fn an_unknown_relationship_in_group_by_is_rejected() {
    let d = aggregate_def_with_keys(
        vec![GroupByKey::RelationshipPath {
            rel: "nope".to_string(),
            column: "author".to_string(),
        }],
        vec![FieldDef {
            name: "c".to_string(),
            expr: Expr::FunctionCall {
                name: "COUNT".to_string(),
                args: Vec::new(),
            },
        }],
    );
    let source_columns = numeric_columns(&["post"]);
    let err = validate(&d, &source_columns, &NameMap::new()).unwrap_err();
    assert_eq!(
        err,
        ValidationError::UnknownGroupByRelationship {
            rel: "nope".to_string(),
        }
    );
}

#[test]
fn a_to_many_relationship_path_in_group_by_is_rejected() {
    let d = aggregate_def_with_keys(
        vec![GroupByKey::RelationshipPath {
            rel: "comments".to_string(),
            column: "author".to_string(),
        }],
        vec![FieldDef {
            name: "c".to_string(),
            expr: Expr::FunctionCall {
                name: "COUNT".to_string(),
                args: Vec::new(),
            },
        }],
    );
    let source_columns = numeric_columns(&["id"]);
    let relationships = NameMap::from_entries(vec![(
        "comments".to_string(),
        ResolvedRelationship {
            cardinality: RelationshipCardinality::ToMany,
            to_table: "comments".to_string(),
            to_col: "post_id".to_string(),
            column_types: NameMap::from_entries(vec![("author".to_string(), ValueType::Text)]),
        },
    )]);
    let err = validate(&d, &source_columns, &relationships).unwrap_err();
    assert_eq!(
        err,
        ValidationError::GroupByRelationshipMustBeToOne {
            rel: "comments".to_string(),
            column: "author".to_string(),
        }
    );
}

#[test]
fn a_group_by_relationship_path_referencing_an_unknown_to_side_column_is_rejected() {
    let d = aggregate_def_with_keys(
        vec![GroupByKey::RelationshipPath {
            rel: "post".to_string(),
            column: "missing".to_string(),
        }],
        vec![FieldDef {
            name: "c".to_string(),
            expr: Expr::FunctionCall {
                name: "COUNT".to_string(),
                args: Vec::new(),
            },
        }],
    );
    let source_columns = numeric_columns(&["post"]);
    let relationships = to_one_rel("post", "posts", "word_count");
    let err = validate(&d, &source_columns, &relationships).unwrap_err();
    assert_eq!(
        err,
        ValidationError::UnknownRelationshipColumn {
            table: "posts".to_string(),
            column: "missing".to_string(),
        }
    );
}

#[test]
fn aggregate_function_argument_must_be_numeric() {
    let d = aggregate_def(
        &["id"],
        vec![FieldDef {
            name: "total".to_string(),
            expr: Expr::FunctionCall {
                name: "SUM".to_string(),
                args: vec![col("label")],
            },
        }],
    );
    let source_columns = NameMap::from_entries(vec![
        ("id".to_string(), ValueType::Numeric),
        ("label".to_string(), ValueType::Text),
    ]);
    let err = validate(&d, &source_columns, &NameMap::new()).unwrap_err();
    assert_eq!(
        err,
        ValidationError::FunctionArgTypeMismatch {
            field: "total".to_string(),
            function: "SUM".to_string(),
            arg_index: 0,
            expected: ValueType::Numeric,
            found: ValueType::Text,
        }
    );
}

#[test]
fn regexp_count_with_an_uncompilable_pattern_literal_is_rejected() {
    let d = def(vec![FieldDef {
        name: "out".to_string(),
        expr: Expr::FunctionCall {
            name: "REGEXP_COUNT".to_string(),
            args: vec![col("text_col"), Expr::StringLiteral("(".to_string())],
        },
    }]);
    let source_columns = NameMap::from_entries(vec![("text_col".to_string(), ValueType::Text)]);
    let err = validate(&d, &source_columns, &NameMap::new()).unwrap_err();
    match err {
        ValidationError::InvalidRegexPattern { field, pattern, .. } => {
            assert_eq!(field, "out");
            assert_eq!(pattern, "(");
        }
        other => panic!("expected InvalidRegexPattern, got {other:?}"),
    }
}
