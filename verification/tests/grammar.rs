use trellis::defs::ast::{
    Expr, FieldDef, GroupByKey, KeySpace, Operator, Predicate, RelationshipDef, ValueType,
};
use trellis::defs::error::ParseError;
use trellis::defs::parser::{parse, parse_relationship};
use trellis::defs::registry::lookup_function;
use trellis::defs::validate::validate;
use trellis::defs::validation_error::ValidationError;
use trellis::names::NameMap;

#[test]
fn parses_a_binary_add_expression() {
    let def = parse("TRANSFORM order_totals FROM orders SELECT a + b AS total").unwrap();

    assert_eq!(def.target, "order_totals");
    assert_eq!(def.source, "orders");
    assert_eq!(def.key_space, KeySpace::OneToOne);
    assert_eq!(def.predicate, Predicate::True);
    assert_eq!(
        def.fields,
        vec![FieldDef {
            name: "total".to_string(),
            expr: Expr::BinaryOp {
                op: Operator::Add,
                lhs: Box::new(Expr::Column("a".to_string())),
                rhs: Box::new(Expr::Column("b".to_string())),
            },
        }]
    );
}

#[test]
fn parses_numeric_literals_and_multiple_fields() {
    let def = parse("TRANSFORM t FROM s SELECT 1 + 2 AS literal_sum, price + 5 AS with_column")
        .unwrap();

    assert_eq!(
        def.fields,
        vec![
            FieldDef {
                name: "literal_sum".to_string(),
                expr: Expr::BinaryOp {
                    op: Operator::Add,
                    lhs: Box::new(Expr::NumberLiteral("1".to_string())),
                    rhs: Box::new(Expr::NumberLiteral("2".to_string())),
                },
            },
            FieldDef {
                name: "with_column".to_string(),
                expr: Expr::BinaryOp {
                    op: Operator::Add,
                    lhs: Box::new(Expr::Column("price".to_string())),
                    rhs: Box::new(Expr::NumberLiteral("5".to_string())),
                },
            },
        ]
    );
}

#[test]
fn parses_a_decimal_literal() {
    let def = parse("TRANSFORM t FROM s SELECT price + 0.5 AS total").unwrap();
    assert_eq!(
        def.fields[0].expr,
        Expr::BinaryOp {
            op: Operator::Add,
            lhs: Box::new(Expr::Column("price".to_string())),
            rhs: Box::new(Expr::NumberLiteral("0.5".to_string())),
        }
    );
}

#[test]
fn accepts_an_explicit_true_predicate() {
    let def = parse("TRANSFORM t FROM s SELECT a AS x WHERE TRUE").unwrap();
    assert_eq!(def.predicate, Predicate::True);
}

#[test]
fn parses_a_single_column_group_by_into_aggregate_key_space() {
    let def = parse(
        "TRANSFORM order_totals FROM order_line_items GROUP BY order_id \
         SELECT order_id AS order_id, SUM(amount) AS total_amount",
    )
    .unwrap();
    assert_eq!(
        def.key_space,
        KeySpace::Aggregate {
            group_by: vec![GroupByKey::Column("order_id".to_string())]
        }
    );
    assert_eq!(
        def.fields[1].expr,
        Expr::FunctionCall {
            name: "SUM".to_string(),
            args: vec![Expr::Column("amount".to_string())],
        }
    );
}

#[test]
fn parses_a_multi_column_group_by() {
    let def = parse("TRANSFORM t FROM s GROUP BY a, b SELECT a AS a, b AS b, SUM(c) AS total")
        .unwrap();
    assert_eq!(
        def.key_space,
        KeySpace::Aggregate {
            group_by: vec![
                GroupByKey::Column("a".to_string()),
                GroupByKey::Column("b".to_string())
            ]
        }
    );
}

#[test]
fn parses_min_max_avg_calls_in_an_aggregate_definition() {
    let def = parse(
        "TRANSFORM t FROM s GROUP BY id \
         SELECT MIN(x) AS lo, MAX(x) AS hi, AVG(x) AS avg_x",
    )
    .unwrap();
    assert_eq!(
        def.fields
            .iter()
            .map(|f| match &f.expr {
                Expr::FunctionCall { name, .. } => name.as_str(),
                _ => panic!("expected FunctionCall"),
            })
            .collect::<Vec<_>>(),
        vec!["MIN", "MAX", "AVG"]
    );
}

#[test]
fn rejects_a_bare_non_grouping_column_reference_at_parse_time_is_not_the_job_here() {
    let def = parse("TRANSFORM t FROM s GROUP BY a SELECT b AS x").unwrap();
    assert_eq!(def.fields[0].expr, Expr::Column("b".to_string()));
}

#[test]
fn parses_count_star_in_an_aggregate_definition() {
    let def = parse("TRANSFORM t FROM s GROUP BY a SELECT COUNT(*) AS x").unwrap();
    assert_eq!(
        def.fields[0].expr,
        Expr::FunctionCall {
            name: "COUNT".to_string(),
            args: Vec::new(),
        }
    );
}

#[test]
fn parses_count_of_a_column_in_an_aggregate_definition() {
    let def = parse("TRANSFORM t FROM s GROUP BY a SELECT COUNT(b) AS x").unwrap();
    assert_eq!(
        def.fields[0].expr,
        Expr::FunctionCall {
            name: "COUNT".to_string(),
            args: vec![Expr::Column("b".to_string())],
        }
    );
}

#[test]
fn rejects_count_with_more_than_one_argument() {
    let err = parse("TRANSFORM t FROM s GROUP BY a SELECT COUNT(a, b) AS x").unwrap_err();
    match err {
        ParseError::FunctionArityMismatch {
            name,
            expected,
            found,
        } => {
            assert_eq!(name, "COUNT");
            assert_eq!(expected, 1);
            assert_eq!(found, 2);
        }
        other => panic!("expected FunctionArityMismatch, got {other:?}"),
    }
}

#[test]
fn rejects_count_star_outside_an_aggregate_definition_too() {
    let err = parse("TRANSFORM t FROM s SELECT COUNT(*) AS x").unwrap_err();
    match err {
        ParseError::UnsupportedKeySpace { construct, .. } => {
            assert_eq!(construct, "COUNT(...)");
        }
        other => panic!("expected UnsupportedKeySpace, got {other:?}"),
    }
}

#[test]
fn rejects_join() {
    let err =
        parse("TRANSFORM t FROM s JOIN other ON s.id = other.id SELECT a AS x").unwrap_err();
    match err {
        ParseError::UnsupportedKeySpace { construct, .. } => {
            assert_eq!(construct, "JOIN");
        }
        other => panic!("expected UnsupportedKeySpace, got {other:?}"),
    }
}

#[test]
fn rejects_group_by_trailing_after_select() {
    let err = parse("TRANSFORM t FROM s SELECT a AS x GROUP BY b").unwrap_err();
    match &err {
        ParseError::UnsupportedKeySpace { construct, .. } => {
            assert_eq!(construct, "GROUP BY");
        }
        other => panic!("expected UnsupportedKeySpace, got {other:?}"),
    }
    assert!(err.to_string().contains("GROUP BY"));
    assert!(err.to_string().contains("FROM <source>"));
}

#[test]
fn rejects_join_trailing_after_select() {
    let err =
        parse("TRANSFORM t FROM s SELECT a AS x JOIN other ON s.id = other.id").unwrap_err();
    match err {
        ParseError::UnsupportedKeySpace { construct, .. } => {
            assert_eq!(construct, "JOIN");
        }
        other => panic!("expected UnsupportedKeySpace, got {other:?}"),
    }
}

#[test]
fn parses_relationship_path() {
    let def = parse("TRANSFORM t FROM s SELECT product.category_name AS x").unwrap();
    assert_eq!(
        def.fields[0].expr,
        Expr::RelationshipPath {
            rel: "product".to_string(),
            column: "category_name".to_string(),
        }
    );
}

#[test]
fn rejects_non_plus_operator() {
    let err = parse("TRANSFORM t FROM s SELECT a - b AS x").unwrap_err();
    match err {
        ParseError::UnsupportedOperator { operator } => assert_eq!(operator, "-"),
        other => panic!("expected UnsupportedOperator, got {other:?}"),
    }
}

#[test]
fn rejects_less_than_operator_as_unsupported_operator() {
    let err = parse("TRANSFORM t FROM s SELECT a < b AS x").unwrap_err();
    match err {
        ParseError::UnsupportedOperator { operator } => assert_eq!(operator, "<"),
        other => panic!("expected UnsupportedOperator, got {other:?}"),
    }
}

#[test]
fn rejects_equals_operator_as_unsupported_operator() {
    let err = parse("TRANSFORM t FROM s SELECT a = b AS x").unwrap_err();
    match err {
        ParseError::UnsupportedOperator { operator } => assert_eq!(operator, "="),
        other => panic!("expected UnsupportedOperator, got {other:?}"),
    }
}

#[test]
fn rejects_aggregate_function_call_with_key_space_specific_message() {
    let err = parse("TRANSFORM t FROM s SELECT SUM(a) AS x").unwrap_err();
    match err {
        ParseError::UnsupportedKeySpace { construct, .. } => {
            assert_eq!(construct, "SUM(...)");
        }
        other => panic!("expected UnsupportedKeySpace, got {other:?}"),
    }
}

#[test]
fn rejects_unregistered_function_call() {
    assert!(lookup_function("ROUND").is_none());
    let err = parse("TRANSFORM t FROM s SELECT ROUND(a) AS x").unwrap_err();
    match err {
        ParseError::UnsupportedFunction { name } => assert_eq!(name, "ROUND"),
        other => panic!("expected UnsupportedFunction, got {other:?}"),
    }
}

#[test]
fn rejects_non_immutable_construct() {
    let err = parse("TRANSFORM t FROM s SELECT a + NOW() AS x").unwrap_err();
    match err {
        ParseError::NonImmutableConstruct { name } => assert_eq!(name, "NOW"),
        other => panic!("expected NonImmutableConstruct, got {other:?}"),
    }
}

#[test]
fn parses_a_registered_function_call() {
    let def = parse("TRANSFORM t FROM s SELECT octet_length(name) AS len").unwrap();
    assert_eq!(
        def.fields,
        vec![FieldDef {
            name: "len".to_string(),
            expr: Expr::FunctionCall {
                name: "OCTET_LENGTH".to_string(),
                args: vec![Expr::Column("name".to_string())],
            },
        }]
    );
}

#[test]
fn parses_a_two_argument_function_call() {
    let def = parse("TRANSFORM t FROM s SELECT strpos(name, 'x') AS pos").unwrap();
    assert_eq!(
        def.fields,
        vec![FieldDef {
            name: "pos".to_string(),
            expr: Expr::FunctionCall {
                name: "STRPOS".to_string(),
                args: vec![
                    Expr::Column("name".to_string()),
                    Expr::StringLiteral("x".to_string()),
                ],
            },
        }]
    );
}

#[test]
fn rejects_function_call_with_wrong_arity() {
    let err = parse("TRANSFORM t FROM s SELECT octet_length(a, b) AS x").unwrap_err();
    match err {
        ParseError::FunctionArityMismatch {
            name,
            expected,
            found,
        } => {
            assert_eq!(name, "octet_length");
            assert_eq!(expected, 1);
            assert_eq!(found, 2);
        }
        other => panic!("expected FunctionArityMismatch, got {other:?}"),
    }
}

#[test]
fn parses_a_variadic_coalesce_call() {
    let def = parse("TRANSFORM t FROM s SELECT COALESCE(a, b, 0) AS x").unwrap();
    assert_eq!(
        def.fields[0].expr,
        Expr::FunctionCall {
            name: "COALESCE".to_string(),
            args: vec![
                Expr::Column("a".to_string()),
                Expr::Column("b".to_string()),
                Expr::NumberLiteral("0".to_string()),
            ],
        }
    );
}

#[test]
fn parses_a_single_argument_coalesce_call() {
    let def = parse("TRANSFORM t FROM s SELECT COALESCE(a) AS x").unwrap();
    assert_eq!(
        def.fields[0].expr,
        Expr::FunctionCall {
            name: "COALESCE".to_string(),
            args: vec![Expr::Column("a".to_string())],
        }
    );
}

#[test]
fn rejects_coalesce_with_no_arguments() {
    let err = parse("TRANSFORM t FROM s SELECT COALESCE() AS x").unwrap_err();
    match err {
        ParseError::AtLeastOneArgumentRequired { name } => assert_eq!(name, "COALESCE"),
        other => panic!("expected AtLeastOneArgumentRequired, got {other:?}"),
    }
}

#[test]
fn coalesce_with_a_null_literal_argument_is_unsupported() {
    let def = parse("TRANSFORM t FROM s SELECT COALESCE(a, NULL) AS x").unwrap();
    assert_eq!(
        def.fields[0].expr,
        Expr::FunctionCall {
            name: "COALESCE".to_string(),
            args: vec![
                Expr::Column("a".to_string()),
                Expr::Column("NULL".to_string()),
            ],
        }
    );
    let source_columns =
        NameMap::from_entries(vec![("a".to_string(), ValueType::Numeric)]);
    let err = validate(&def, &source_columns, &NameMap::new()).unwrap_err();
    assert_eq!(
        err,
        ValidationError::UnresolvedColumn {
            field: "x".to_string(),
            column: "NULL".to_string(),
        }
    );
}

#[test]
fn parses_a_greater_than_expression() {
    let def = parse("TRANSFORM t FROM s SELECT a > 0 AS positive").unwrap();
    assert_eq!(
        def.fields,
        vec![FieldDef {
            name: "positive".to_string(),
            expr: Expr::BinaryOp {
                op: Operator::GreaterThan,
                lhs: Box::new(Expr::Column("a".to_string())),
                rhs: Box::new(Expr::NumberLiteral("0".to_string())),
            },
        }]
    );
}

#[test]
fn mixed_operators_respect_precedence() {
    let def = parse("TRANSFORM t FROM s SELECT a > b + c AS result").unwrap();
    assert_eq!(
        def.fields[0].expr,
        Expr::BinaryOp {
            op: Operator::GreaterThan,
            lhs: Box::new(Expr::Column("a".to_string())),
            rhs: Box::new(Expr::BinaryOp {
                op: Operator::Add,
                lhs: Box::new(Expr::Column("b".to_string())),
                rhs: Box::new(Expr::Column("c".to_string())),
            }),
        }
    );

    let source_columns: NameMap<ValueType> = NameMap::from_entries(vec![
        ("a".to_string(), ValueType::Numeric),
        ("b".to_string(), ValueType::Numeric),
        ("c".to_string(), ValueType::Numeric),
    ]);
    validate(&def, &source_columns, &NameMap::new())
        .expect("a > (b + c) type-checks cleanly under real precedence");
}

#[test]
fn additive_before_comparison_still_binds_additive_first() {
    let def = parse("TRANSFORM t FROM s SELECT a + b > c AS result").unwrap();
    assert_eq!(
        def.fields[0].expr,
        Expr::BinaryOp {
            op: Operator::GreaterThan,
            lhs: Box::new(Expr::BinaryOp {
                op: Operator::Add,
                lhs: Box::new(Expr::Column("a".to_string())),
                rhs: Box::new(Expr::Column("b".to_string())),
            }),
            rhs: Box::new(Expr::Column("c".to_string())),
        }
    );

    let source_columns: NameMap<ValueType> = NameMap::from_entries(vec![
        ("a".to_string(), ValueType::Numeric),
        ("b".to_string(), ValueType::Numeric),
        ("c".to_string(), ValueType::Numeric),
    ]);
    validate(&def, &source_columns, &NameMap::new())
        .expect("(a + b) > c type-checks cleanly");
}

#[test]
fn parenthesized_grouping_overrides_precedence() {
    let def = parse("TRANSFORM t FROM s SELECT (a > b) + c AS result").unwrap();
    assert_eq!(
        def.fields[0].expr,
        Expr::BinaryOp {
            op: Operator::Add,
            lhs: Box::new(Expr::BinaryOp {
                op: Operator::GreaterThan,
                lhs: Box::new(Expr::Column("a".to_string())),
                rhs: Box::new(Expr::Column("b".to_string())),
            }),
            rhs: Box::new(Expr::Column("c".to_string())),
        }
    );
}

#[test]
fn same_precedence_chain_is_left_associative() {
    let def = parse("TRANSFORM t FROM s SELECT a + b + c AS result").unwrap();
    assert_eq!(
        def.fields[0].expr,
        Expr::BinaryOp {
            op: Operator::Add,
            lhs: Box::new(Expr::BinaryOp {
                op: Operator::Add,
                lhs: Box::new(Expr::Column("a".to_string())),
                rhs: Box::new(Expr::Column("b".to_string())),
            }),
            rhs: Box::new(Expr::Column("c".to_string())),
        }
    );
}

#[test]
fn parses_a_function_call_composed_with_greater_than() {
    let def = parse("TRANSFORM t FROM s SELECT strpos(name, 'foo') > 0 AS has_foo").unwrap();
    assert_eq!(
        def.fields,
        vec![FieldDef {
            name: "has_foo".to_string(),
            expr: Expr::BinaryOp {
                op: Operator::GreaterThan,
                lhs: Box::new(Expr::FunctionCall {
                    name: "STRPOS".to_string(),
                    args: vec![
                        Expr::Column("name".to_string()),
                        Expr::StringLiteral("foo".to_string()),
                    ],
                }),
                rhs: Box::new(Expr::NumberLiteral("0".to_string())),
            },
        }]
    );
}

#[test]
fn parses_a_relationship_declaration() {
    let rel = parse_relationship(
        "RELATIONSHIP product FROM order_line_items.product_id TO products.id",
    )
    .unwrap();
    assert_eq!(
        rel,
        RelationshipDef {
            name: "product".to_string(),
            from_table: "order_line_items".to_string(),
            from_col: "product_id".to_string(),
            to_table: "products".to_string(),
            to_col: "id".to_string(),
        }
    );
}

#[test]
fn parses_a_second_relationship_declaration_with_different_names() {
    let rel =
        parse_relationship("RELATIONSHIP author FROM posts.author_id TO users.id").unwrap();
    assert_eq!(
        rel,
        RelationshipDef {
            name: "author".to_string(),
            from_table: "posts".to_string(),
            from_col: "author_id".to_string(),
            to_table: "users".to_string(),
            to_col: "id".to_string(),
        }
    );
}

#[test]
fn relationship_keywords_are_case_insensitive() {
    let rel = parse_relationship(
        "relationship product from order_line_items.product_id to products.id",
    )
    .unwrap();
    assert_eq!(rel.name, "product");
}

#[test]
fn rejects_relationship_missing_from() {
    let err =
        parse_relationship("RELATIONSHIP product order_line_items.product_id TO products.id")
            .unwrap_err();
    match err {
        ParseError::UnexpectedToken { expected, .. } => assert_eq!(expected, "'FROM'"),
        other => panic!("expected UnexpectedToken, got {other:?}"),
    }
}

#[test]
fn rejects_relationship_missing_dot_on_from_column() {
    let err = parse_relationship("RELATIONSHIP product FROM order_line_items TO products.id")
        .unwrap_err();
    match err {
        ParseError::UnexpectedToken { expected, .. } => assert_eq!(expected, "'.'"),
        other => panic!("expected UnexpectedToken, got {other:?}"),
    }
}

#[test]
fn rejects_relationship_missing_to() {
    let err =
        parse_relationship("RELATIONSHIP product FROM order_line_items.product_id products.id")
            .unwrap_err();
    match err {
        ParseError::UnexpectedToken { expected, .. } => assert_eq!(expected, "'TO'"),
        other => panic!("expected UnexpectedToken, got {other:?}"),
    }
}

#[test]
fn rejects_relationship_missing_name() {
    let err =
        parse_relationship("RELATIONSHIP FROM order_line_items.product_id TO products.id")
            .unwrap_err();
    match err {
        ParseError::UnexpectedToken { expected, .. } => assert_eq!(expected, "'FROM'"),
        other => panic!("expected UnexpectedToken, got {other:?}"),
    }
}

#[test]
fn rejects_relationship_trailing_garbage() {
    let err = parse_relationship(
        "RELATIONSHIP product FROM order_line_items.product_id TO products.id EXTRA",
    )
    .unwrap_err();
    match err {
        ParseError::UnexpectedToken { expected, .. } => assert_eq!(expected, "end of input"),
        other => panic!("expected UnexpectedToken, got {other:?}"),
    }
}

#[test]
fn rejects_relationship_missing_dot_on_to_column() {
    let err =
        parse_relationship("RELATIONSHIP product FROM order_line_items.product_id TO products")
            .unwrap_err();
    match err {
        ParseError::UnexpectedEof { expected } => assert_eq!(expected, "'.'"),
        other => panic!("expected UnexpectedEof, got {other:?}"),
    }
}

#[test]
fn rejects_general_predicates() {
    let err = parse("TRANSFORM t FROM s SELECT a AS x WHERE a = b").unwrap_err();
    match err {
        ParseError::UnsupportedPredicate { detail } => {
            assert!(detail.contains("TRUE"));
        }
        other => panic!("expected UnsupportedPredicate, got {other:?}"),
    }
}

#[test]
fn bare_source_and_target_still_parse_with_no_explicit_schema() {
    let def = parse("TRANSFORM order_totals FROM orders SELECT a + b AS total").unwrap();

    assert_eq!(def.target, "order_totals");
    assert_eq!(def.explicit_target_schema, None);
    assert_eq!(def.source, "orders");
    assert_eq!(def.explicit_source_schema, None);
}

#[test]
fn parses_an_explicitly_qualified_source() {
    let def = parse("TRANSFORM order_totals FROM custom.orders SELECT a + b AS total").unwrap();

    assert_eq!(def.target, "order_totals");
    assert_eq!(def.explicit_target_schema, None);
    assert_eq!(def.source, "orders");
    assert_eq!(def.explicit_source_schema, Some("custom".to_string()));
}

#[test]
fn parses_an_explicitly_qualified_target() {
    let def = parse("TRANSFORM custom.order_totals FROM orders SELECT a + b AS total").unwrap();

    assert_eq!(def.target, "order_totals");
    assert_eq!(def.explicit_target_schema, Some("custom".to_string()));
    assert_eq!(def.source, "orders");
    assert_eq!(def.explicit_source_schema, None);
}

#[test]
fn parses_explicitly_qualified_source_and_target_together() {
    let def = parse("TRANSFORM reporting.order_totals FROM sales.orders SELECT a + b AS total")
        .unwrap();

    assert_eq!(def.target, "order_totals");
    assert_eq!(def.explicit_target_schema, Some("reporting".to_string()));
    assert_eq!(def.source, "orders");
    assert_eq!(def.explicit_source_schema, Some("sales".to_string()));
}

#[test]
fn rejects_a_table_reference_with_a_trailing_dot() {
    let err = parse("TRANSFORM t FROM s.").unwrap_err();
    match err {
        ParseError::UnexpectedEof { expected } => assert_eq!(expected, "an identifier"),
        other => panic!("expected UnexpectedEof, got {other:?}"),
    }
}

#[test]
fn rejects_a_table_reference_with_an_empty_schema_component() {
    let err = parse("TRANSFORM t FROM .orders SELECT a AS x").unwrap_err();
    match err {
        ParseError::UnexpectedToken { expected, found } => {
            assert_eq!(expected, "an identifier");
            assert_eq!(found, "'.'");
        }
        other => panic!("expected UnexpectedToken, got {other:?}"),
    }
}

#[test]
fn rejects_a_table_reference_with_more_than_two_qualified_parts() {
    let err = parse("TRANSFORM t FROM a.b.c SELECT x AS y").unwrap_err();
    match err {
        ParseError::TooManyQualifiedNameParts { reference } => {
            assert_eq!(reference, "a.b.c");
        }
        other => panic!("expected TooManyQualifiedNameParts, got {other:?}"),
    }
}

#[test]
fn rejects_a_target_reference_with_more_than_two_qualified_parts() {
    let err = parse("TRANSFORM a.b.c FROM s SELECT x AS y").unwrap_err();
    match err {
        ParseError::TooManyQualifiedNameParts { reference } => {
            assert_eq!(reference, "a.b.c");
        }
        other => panic!("expected TooManyQualifiedNameParts, got {other:?}"),
    }
}

#[test]
fn qualified_table_reference_does_not_collide_with_relationship_path_syntax() {
    let def = parse("TRANSFORM t FROM custom.orders SELECT product.category_name AS category")
        .unwrap();

    assert_eq!(def.source, "orders");
    assert_eq!(def.explicit_source_schema, Some("custom".to_string()));
    assert_eq!(
        def.fields,
        vec![FieldDef {
            name: "category".to_string(),
            expr: Expr::RelationshipPath {
                rel: "product".to_string(),
                column: "category_name".to_string(),
            },
        }]
    );
}
