use trellis::defs::ast::{Expr, FieldDef, KeySpace, Operator, Predicate, TransformDef, ValueType};
use trellis::defs::deps::detect_cycle;
use trellis::defs::model::RelationshipCardinality;
use trellis::defs::parser::parse;
use trellis::defs::pg_type::PgType;
use trellis::defs::typing::{
    can_be_typed, common_numeric_type, infer_field_types, number_literal_type, ResolvedRelationship,
};
use trellis::defs::validate::validate;
use trellis::defs::validation_error::{RelationshipWarning, ValidationError};
use trellis::error_code::ErrorCode;
use trellis::float::FloatWidth;
use trellis::integer::IntWidth;
use trellis::names::NameMap;

fn columns(types: &[(&str, ValueType)]) -> NameMap<ValueType> {
    NameMap::from_entries(types.iter().map(|(n, t)| (n.to_string(), *t)).collect())
}

fn relationship(
    name: &str,
    cardinality: RelationshipCardinality,
) -> NameMap<ResolvedRelationship> {
    NameMap::from_entries(vec![(
        name.to_string(),
        ResolvedRelationship {
            cardinality,
            to_table: "others".to_string(),
            to_col: "id".to_string(),
            column_types: columns(&[("size", ValueType::Integer(IntWidth::Int4))]),
        },
    )])
}

fn problem(text: &str, types: &[(&str, ValueType)]) -> ValidationError {
    validate(&parse(text).unwrap(), &columns(types), &NameMap::new()).unwrap_err()
}

fn field_type(expr: &str, types: &[(&str, ValueType)]) -> ValueType {
    let def = parse(&format!("TRANSFORM t FROM s SELECT {expr} AS out")).unwrap();
    let types = infer_field_types(&def, &columns(types), &NameMap::new()).unwrap();
    *types.get("out").unwrap()
}

const INT4: ValueType = ValueType::Integer(IntWidth::Int4);
const INT8: ValueType = ValueType::Integer(IntWidth::Int8);

#[test]
fn a_mismatch_blames_the_operand_that_is_not_a_number() {
    let types = [
        ("f", ValueType::Float(FloatWidth::Float8)),
        ("t", ValueType::Text),
    ];
    assert_eq!(
        problem("TRANSFORM x FROM s SELECT f + t AS out", &types),
        ValidationError::TypeMismatch {
            field: "out".to_string(),
            expected: ValueType::Numeric,
            found: ValueType::Text,
        }
    );
    assert_eq!(
        problem("TRANSFORM x FROM s SELECT t + f AS out", &types),
        ValidationError::TypeMismatch {
            field: "out".to_string(),
            expected: ValueType::Numeric,
            found: ValueType::Text,
        }
    );
}

#[test]
fn numbers_have_the_narrowest_type_that_holds_them() {
    assert_eq!(number_literal_type("0"), INT4);
    assert_eq!(number_literal_type("2147483647"), INT4);
    assert_eq!(number_literal_type("2147483648"), INT8);
    assert_eq!(number_literal_type("-2147483648"), INT4);
    assert_eq!(number_literal_type("-2147483649"), INT8);
    assert_eq!(number_literal_type("9223372036854775807"), INT8);
    assert_eq!(number_literal_type("9223372036854775808"), ValueType::Numeric);
    assert_eq!(number_literal_type("-9223372036854775808"), INT8);
    assert_eq!(number_literal_type("0000000000000000000000001"), INT4);
    assert_eq!(number_literal_type("1.0"), ValueType::Numeric);
    assert_eq!(number_literal_type(""), ValueType::Numeric);
}

#[test]
fn numbers_unify_and_other_types_do_not() {
    let real = ValueType::Float(FloatWidth::Float4);
    assert_eq!(common_numeric_type(INT4, INT8), Some(INT8));
    assert_eq!(common_numeric_type(INT8, ValueType::Numeric), Some(ValueType::Numeric));
    assert_eq!(common_numeric_type(real, ValueType::Numeric), Some(real));
    assert_eq!(common_numeric_type(ValueType::Numeric, real), Some(real));
    assert_eq!(common_numeric_type(ValueType::Uuid, ValueType::Uuid), Some(ValueType::Uuid));
    assert_eq!(common_numeric_type(ValueType::Text, ValueType::Uuid), None);
    assert_eq!(common_numeric_type(ValueType::Text, INT4), None);
}

#[test]
fn fields_have_the_types_of_their_expressions() {
    assert_eq!(field_type("a + 1", &[("a", INT8)]), INT8);
    assert_eq!(field_type("a + 0.5", &[("a", INT8)]), ValueType::Numeric);
    assert_eq!(field_type("a > 1", &[("a", INT4)]), ValueType::Boolean);
    assert_eq!(field_type("char_length(a)", &[("a", ValueType::Text)]), INT4);
    assert_eq!(field_type("coalesce(a, 3000000000)", &[("a", INT4)]), INT8);
    assert_eq!(
        field_type("date '2024-02-29'", &[]),
        ValueType::Other(PgType::Date)
    );
}

#[test]
fn a_literal_has_to_be_in_canonical_form() {
    let err = problem("TRANSFORM x FROM s SELECT date '2024-2-29' AS d", &[]);
    match err {
        ValidationError::InvalidTypedLiteral { field, value_type, text, .. } => {
            assert_eq!(field, "d");
            assert_eq!(value_type, ValueType::Other(PgType::Date));
            assert_eq!(text, "2024-2-29");
        }
        other => panic!("expected InvalidTypedLiteral, got {other:?}"),
    }
}

#[test]
fn a_literal_of_a_type_without_literals_is_refused() {
    let def = TransformDef {
        target: "x".to_string(),
        source: "s".to_string(),
        key_space: KeySpace::OneToOne,
        fields: vec![FieldDef {
            name: "m".to_string(),
            expr: Expr::TypedLiteral {
                value_type: ValueType::Other(PgType::Money),
                text: "1".to_string(),
            },
        }],
        predicate: Predicate::True,
        explicit_source_schema: None,
        explicit_target_schema: None,
    };
    assert_eq!(
        validate(&def, &NameMap::new(), &NameMap::new()).unwrap_err(),
        ValidationError::UnsupportedLiteralType {
            field: "m".to_string(),
            value_type: ValueType::Other(PgType::Money),
        }
    );
}

#[test]
fn relationships_are_followed_as_their_cardinality_says() {
    let bare = parse("TRANSFORM x FROM s SELECT r.size AS out").unwrap();
    let folded = parse("TRANSFORM x FROM s SELECT SUM(r.size) AS out").unwrap();
    let one = relationship("r", RelationshipCardinality::ToOne);
    let many = relationship("r", RelationshipCardinality::ToMany);
    let none = NameMap::new();
    assert_eq!(validate(&bare, &NameMap::new(), &one), Ok(()));
    assert_eq!(validate(&folded, &NameMap::new(), &many), Ok(()));
    assert_eq!(
        validate(&folded, &NameMap::new(), &one),
        Err(ValidationError::RelationshipToOneWrappedInAggregate {
            field: "out".to_string(),
            rel: "r".to_string(),
            column: "size".to_string(),
        })
    );
    assert_eq!(
        validate(&bare, &NameMap::new(), &many),
        Err(ValidationError::RelationshipToManyRequiresAggregate {
            field: "out".to_string(),
            rel: "r".to_string(),
            column: "size".to_string(),
        })
    );
    assert_eq!(
        validate(&bare, &NameMap::new(), &none),
        Err(ValidationError::UnknownRelationship {
            field: "out".to_string(),
            rel: "r".to_string(),
        })
    );
    let missing = parse("TRANSFORM x FROM s SELECT r.weight AS out").unwrap();
    assert_eq!(
        validate(&missing, &NameMap::new(), &one),
        Err(ValidationError::UnknownRelationshipColumn {
            table: "others".to_string(),
            column: "weight".to_string(),
        })
    );
}

#[test]
fn a_float_is_no_key_and_a_date_is_one() {
    let def = parse("TRANSFORM x FROM s GROUP BY k SELECT COUNT(*) AS n").unwrap();
    let float = ValueType::Float(FloatWidth::Float8);
    assert_eq!(
        validate(&def, &columns(&[("k", float)]), &NameMap::new()),
        Err(ValidationError::UnsupportedGroupByKeyType {
            column: "k".to_string(),
            value_type: float,
        })
    );
    let date = ValueType::Other(PgType::Date);
    assert_eq!(validate(&def, &columns(&[("k", date)]), &NameMap::new()), Ok(()));
}

#[test]
fn a_cycle_is_reported_in_order() {
    let def = parse("TRANSFORM x FROM s SELECT b AS a, c AS b, a AS c").unwrap();
    match detect_cycle(&def.fields).unwrap_err() {
        ValidationError::Cycle { cycle } => {
            assert_eq!(cycle.len(), 4);
            assert_eq!(cycle[0], cycle[3]);
            for (user, used) in [("a", "b"), ("b", "c"), ("c", "a")] {
                let at = cycle.iter().position(|n| n == user).unwrap();
                assert_eq!(cycle[at + 1], used);
            }
        }
        other => panic!("expected Cycle, got {other:?}"),
    }
    let def = parse("TRANSFORM x FROM s SELECT b AS a, c AS b").unwrap();
    assert_eq!(detect_cycle(&def.fields), Ok(()));
}

#[test]
fn messages_say_what_is_wrong() {
    assert_eq!(
        ValidationError::DuplicateFieldName {
            name: "a".to_string()
        }
        .to_string(),
        "duplicate calculated field name 'a'"
    );
    assert_eq!(
        ValidationError::Cycle {
            cycle: vec!["a".to_string(), "b".to_string(), "a".to_string()]
        }
        .to_string(),
        "cycle among calculated columns: a -> b -> a"
    );
    assert_eq!(
        ValidationError::TypeMismatch {
            field: "f".to_string(),
            expected: ValueType::Numeric,
            found: ValueType::Text,
        }
        .to_string(),
        "calculated field 'f' expects a numeric value here, found text"
    );
    assert_eq!(
        ValidationError::UnresolvedGroupByColumn {
            column: "k".to_string()
        }
        .to_string(),
        "GROUP BY references 'k', which is not a source column"
    );
    assert_eq!(
        ValidationError::UnknownRelationshipColumn {
            table: "t".to_string(),
            column: "c".to_string(),
        }
        .code(),
        ErrorCode::Validation
    );
}

#[test]
fn nested_operands_are_typed_from_the_inside() {
    let expr = Expr::BinaryOp {
        op: Operator::Add,
        lhs: Box::new(Expr::BinaryOp {
            op: Operator::GreaterThan,
            lhs: Box::new(Expr::NumberLiteral("1".to_string())),
            rhs: Box::new(Expr::NumberLiteral("2".to_string())),
        }),
        rhs: Box::new(Expr::NumberLiteral("3".to_string())),
    };
    let mut def = parse("TRANSFORM x FROM s SELECT 1 AS out").unwrap();
    def.fields[0].expr = expr;
    assert_eq!(
        validate(&def, &NameMap::new(), &NameMap::new()),
        Err(ValidationError::TypeMismatch {
            field: "out".to_string(),
            expected: ValueType::Numeric,
            found: ValueType::Boolean,
        })
    );
}

#[test]
fn a_warning_names_the_column_to_index() {
    assert_eq!(
        RelationshipWarning::MissingFkIndex {
            from_table: "posts".to_string(),
            from_col: "author_id".to_string(),
        }
        .to_string(),
        "no index on 'posts.author_id'; finding rows to re-derive when a related row changes \
         will require a full scan of 'posts' — consider `CREATE INDEX ON posts (author_id);`"
    );
}

#[test]
fn the_argument_of_a_count_is_typed() {
    let to_many = relationship("comments", RelationshipCardinality::ToMany);
    let count = |column: &str| {
        let text = format!("TRANSFORM t FROM s SELECT COUNT(comments.{column}) AS c");
        validate(&parse(&text).unwrap(), &columns(&[("id", ValueType::Numeric)]), &to_many)
    };
    assert_eq!(count("size"), Ok(()));
    assert_eq!(
        count("missing"),
        Err(ValidationError::UnknownRelationshipColumn {
            table: "others".to_string(),
            column: "missing".to_string(),
        })
    );
    let types = [("k", ValueType::Numeric), ("s", ValueType::Text)];
    let grouped = |arg: &str| {
        let text = format!("TRANSFORM t FROM src GROUP BY k SELECT k AS k, COUNT({arg}) AS c");
        validate(&parse(&text).unwrap(), &columns(&types), &NameMap::new())
    };
    assert_eq!(grouped("*"), Ok(()));
    assert_eq!(grouped("s"), Ok(()));
    assert!(matches!(grouped("s + 1"), Err(ValidationError::TypeMismatch { .. })));
    assert!(matches!(
        grouped("DATE '2024-1-1'"),
        Err(ValidationError::InvalidTypedLiteral { .. })
    ));
    assert!(matches!(
        grouped("REGEXP_COUNT(s, '(')"),
        Err(ValidationError::InvalidRegexPattern { .. })
    ));
    let def = parse("TRANSFORM t FROM src GROUP BY k SELECT k AS k, COUNT(s) AS c").unwrap();
    let inferred = infer_field_types(&def, &columns(&types), &NameMap::new()).unwrap();
    assert_eq!(*inferred.get("c").unwrap(), ValueType::Numeric);
}

#[test]
fn a_problem_in_front_of_an_empty_coalesce_is_reported() {
    let mut def = parse("TRANSFORM t FROM s SELECT a AS x").unwrap();
    assert!(can_be_typed(&def));
    def.fields[0].expr = Expr::FunctionCall {
        name: "COALESCE".to_string(),
        args: Vec::new(),
    };
    assert!(!can_be_typed(&def));
    def.source = "t".to_string();
    assert_eq!(
        validate(&def, &columns(&[("a", ValueType::Numeric)]), &NameMap::new()),
        Err(ValidationError::TargetEqualsSource {
            table: "t".to_string()
        })
    );
}
