use trellis::defs::ast::{
    AlterClause, AlterTransform, Expr, FieldDef, Operator, Statement, ValueType,
};
use trellis::defs::error::ParseError;
use trellis::defs::parser::{parse, parse_statement};
use trellis::defs::pg_type::PgType;
use trellis::float::FloatWidth;

fn failure(text: &str) -> ParseError {
    parse(text).unwrap_err()
}

#[test]
fn a_string_has_to_be_closed() {
    let err = failure("TRANSFORM t FROM s SELECT 'abc AS x");
    assert_eq!(err, ParseError::UnterminatedString);
    assert_eq!(err.to_string(), "unterminated string literal");
}

#[test]
fn the_cast_operator_is_not_part_of_the_language() {
    assert_eq!(
        failure("TRANSFORM t FROM s SELECT a::text AS x"),
        ParseError::UnsupportedCastOperator
    );
}

#[test]
fn a_character_outside_the_language_is_named() {
    let err = failure("TRANSFORM t FROM s SELECT a ? b AS x");
    assert_eq!(err, ParseError::UnexpectedChar { found: '?' });
    assert_eq!(err.to_string(), "unexpected character '?'");
}

#[test]
fn a_literal_names_one_of_the_literal_types() {
    assert_eq!(
        failure("TRANSFORM t FROM s SELECT timestamptz '2024-01-01 00:00:00+00' AS x"),
        ParseError::UnsupportedLiteralType {
            name: "timestamptz".to_string()
        }
    );
    assert_eq!(
        failure("TRANSFORM t FROM s SELECT CAST('1' AS money) AS x"),
        ParseError::UnsupportedLiteralType {
            name: "MONEY".to_string()
        }
    );
}

#[test]
fn only_a_literal_is_cast() {
    assert_eq!(
        failure("TRANSFORM t FROM s SELECT CAST(a AS date) AS x"),
        ParseError::UnsupportedCast {
            found: "identifier 'a'".to_string()
        }
    );
}

#[test]
fn a_function_takes_a_fixed_number_of_arguments() {
    let err = failure("TRANSFORM t FROM s SELECT strpos(a) AS x");
    assert_eq!(
        err,
        ParseError::FunctionArityMismatch {
            name: "strpos".to_string(),
            expected: 2,
            found: 1,
        }
    );
    assert_eq!(err.to_string(), "function 'strpos' takes 2 argument(s), found 1");
}

#[test]
fn both_spellings_of_a_literal_are_the_same_literal() {
    let prefixed = parse("TRANSFORM t FROM s SELECT DATE '2024-01-01' AS d").unwrap();
    let cast = parse("TRANSFORM t FROM s SELECT cast('2024-01-01' as date) AS d").unwrap();
    assert_eq!(prefixed, cast);
    assert_eq!(
        prefixed.fields[0].expr,
        Expr::TypedLiteral {
            value_type: ValueType::Other(PgType::Date),
            text: "2024-01-01".to_string(),
        }
    );
}

#[test]
fn a_literal_type_may_have_two_words() {
    let def = parse("TRANSFORM t FROM s SELECT double precision '1.5' AS d").unwrap();
    assert_eq!(
        def.fields[0].expr,
        Expr::TypedLiteral {
            value_type: ValueType::Float(FloatWidth::Float8),
            text: "1.5".to_string(),
        }
    );
    let def = parse("TRANSFORM t FROM s SELECT CAST('1.5' AS DOUBLE PRECISION) AS d").unwrap();
    assert_eq!(
        def.fields[0].expr,
        Expr::TypedLiteral {
            value_type: ValueType::Float(FloatWidth::Float8),
            text: "1.5".to_string(),
        }
    );
}

#[test]
fn a_doubled_quote_is_one_quote() {
    let def = parse("TRANSFORM t FROM s SELECT 'it''s' AS x").unwrap();
    assert_eq!(def.fields[0].expr, Expr::StringLiteral("it's".to_string()));
}

#[test]
fn alterations_come_in_three_forms() {
    assert_eq!(
        parse_statement("ALTER TRANSFORM t ADD a + 1 AS x, DROP y, ALTER z AS b").unwrap(),
        Statement::AlterTransform(AlterTransform {
            target: "t".to_string(),
            clauses: vec![
                AlterClause::Add(FieldDef {
                    name: "x".to_string(),
                    expr: Expr::BinaryOp {
                        op: Operator::Add,
                        lhs: Box::new(Expr::Column("a".to_string())),
                        rhs: Box::new(Expr::NumberLiteral("1".to_string())),
                    },
                }),
                AlterClause::Drop("y".to_string()),
                AlterClause::Alter(FieldDef {
                    name: "z".to_string(),
                    expr: Expr::Column("b".to_string()),
                }),
            ],
        })
    );
}

#[test]
fn whitespace_in_front_changes_nothing() {
    assert_eq!(
        parse(" \n\t TRANSFORM t FROM s SELECT a AS x").unwrap(),
        parse("TRANSFORM t FROM s SELECT a AS x").unwrap()
    );
}

#[test]
fn a_dot_without_digits_ends_a_number() {
    assert_eq!(
        failure("TRANSFORM t FROM s SELECT 1.x AS y"),
        ParseError::UnexpectedToken {
            expected: "'AS'".to_string(),
            found: "'.'".to_string(),
        }
    );
}

#[test]
fn a_non_immutable_name_is_refused_without_parentheses_too() {
    assert_eq!(
        failure("TRANSFORM t FROM s SELECT current_timestamp AS x"),
        ParseError::NonImmutableConstruct {
            name: "current_timestamp".to_string()
        }
    );
}
