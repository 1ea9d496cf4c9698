use std::collections::HashSet;

use trellis::defs::ast::{
    Expr, FieldDef, KeySpace, Operator, Predicate, RelationshipDef, TransformDef,
};
use trellis::defs::oracle::{
    referenced_source_columns, render_expr_sql, render_relationship_select_sql,
};
use trellis::names::NameMap;

fn def() -> TransformDef {
    TransformDef {
        target: "order_totals".to_string(),
        source: "orders".to_string(),
        key_space: KeySpace::OneToOne,
        fields: vec![
            FieldDef {
                name: "double_price".to_string(),
                expr: Expr::BinaryOp {
                    op: Operator::Add,
                    lhs: Box::new(Expr::Column("price".to_string())),
                    rhs: Box::new(Expr::Column("price".to_string())),
                },
            },
            FieldDef {
                name: "total".to_string(),
                expr: Expr::BinaryOp {
                    op: Operator::Add,
                    lhs: Box::new(Expr::Column("double_price".to_string())),
                    rhs: Box::new(Expr::Column("tax".to_string())),
                },
            },
        ],
        predicate: Predicate::True,
        explicit_source_schema: None,
        explicit_target_schema: None,
    }
}

#[test]
fn referenced_source_columns_excludes_calculated_field_names() {
    let listed = referenced_source_columns(&def());
    let columns: HashSet<String> = listed.iter().cloned().collect();
    assert_eq!(listed.len(), columns.len());
    assert_eq!(
        columns,
        HashSet::from(["price".to_string(), "tax".to_string()])
    );
}

#[test]
fn referenced_source_columns_includes_a_self_named_passthrough_columns_own_source() {
    let def = TransformDef {
        target: "t1".to_string(),
        source: "t0".to_string(),
        key_space: KeySpace::OneToOne,
        fields: vec![FieldDef {
            name: "c".to_string(),
            expr: Expr::Column("c".to_string()),
        }],
        predicate: Predicate::True,
        explicit_source_schema: None,
        explicit_target_schema: None,
    };
    let listed = referenced_source_columns(&def);
    let columns: HashSet<String> = listed.iter().cloned().collect();
    assert_eq!(listed.len(), columns.len());
    assert_eq!(
        columns,
        HashSet::from(["c".to_string()]),
        "a field's own source column must not be excluded just because it shares the \
         field's name"
    );
}

#[test]
fn render_expr_sql_renders_greater_than_composed_with_a_function_call() {
    let expr = Expr::BinaryOp {
        op: Operator::GreaterThan,
        lhs: Box::new(Expr::FunctionCall {
            name: "STRPOS".to_string(),
            args: vec![
                Expr::Column("name".to_string()),
                Expr::StringLiteral("foo".to_string()),
            ],
        }),
        rhs: Box::new(Expr::NumberLiteral("0".to_string())),
    };
    assert_eq!(
        render_expr_sql(&expr),
        "(strpos(\"name\", 'foo'::text) > 0::numeric)"
    );
}

#[test]
fn render_expr_sql_renders_coalesce_as_a_postgres_function_call() {
    let expr = Expr::FunctionCall {
        name: "COALESCE".to_string(),
        args: vec![
            Expr::Column("amount".to_string()),
            Expr::NumberLiteral("0".to_string()),
        ],
    };
    assert_eq!(render_expr_sql(&expr), "coalesce(\"amount\", 0::numeric)");
}

fn category_rel() -> NameMap<RelationshipDef> {
    NameMap::from_entries(vec![(
        "category".to_string(),
        RelationshipDef {
            name: "category".to_string(),
            from_table: "products".to_string(),
            from_col: "category_id".to_string(),
            to_table: "categories".to_string(),
            to_col: "id".to_string(),
        },
    )])
}

fn comments_rel() -> NameMap<RelationshipDef> {
    NameMap::from_entries(vec![(
        "comments".to_string(),
        RelationshipDef {
            name: "comments".to_string(),
            from_table: "posts".to_string(),
            from_col: "id".to_string(),
            to_table: "comments".to_string(),
            to_col: "post_id".to_string(),
        },
    )])
}

#[test]
fn render_relationship_select_sql_renders_a_to_one_left_join() {
    let def = TransformDef {
        target: "product_view".to_string(),
        source: "products".to_string(),
        key_space: KeySpace::OneToOne,
        fields: vec![
            FieldDef {
                name: "id".to_string(),
                expr: Expr::Column("id".to_string()),
            },
            FieldDef {
                name: "category_name".to_string(),
                expr: Expr::RelationshipPath {
                    rel: "category".to_string(),
                    column: "name".to_string(),
                },
            },
        ],
        predicate: Predicate::True,
        explicit_source_schema: None,
        explicit_target_schema: None,
    };
    assert_eq!(
        render_relationship_select_sql(&def, &category_rel()),
        "select \"products\".\"id\" as \"id\", \
         \"category\".\"name\" as \"category_name\" \
         from \"products\" \
         left join \"categories\" as \"category\" \
         on \"products\".\"category_id\" = \"category\".\"id\""
    );
}

#[test]
fn render_relationship_select_sql_renders_a_to_many_correlated_aggregate() {
    let def = TransformDef {
        target: "post_stats".to_string(),
        source: "posts".to_string(),
        key_space: KeySpace::OneToOne,
        fields: vec![FieldDef {
            name: "total_words".to_string(),
            expr: Expr::FunctionCall {
                name: "SUM".to_string(),
                args: vec![Expr::RelationshipPath {
                    rel: "comments".to_string(),
                    column: "word_count".to_string(),
                }],
            },
        }],
        predicate: Predicate::True,
        explicit_source_schema: None,
        explicit_target_schema: None,
    };
    assert_eq!(
        render_relationship_select_sql(&def, &comments_rel()),
        "select (select sum(\"comments\".\"word_count\") \
         from \"comments\" as \"comments\" \
         where \"comments\".\"post_id\" = \"posts\".\"id\") as \"total_words\" \
         from \"posts\""
    );
}

#[test]
fn render_expr_sql_escapes_a_single_quote_in_a_function_call_string_literal() {
    let expr = Expr::FunctionCall {
        name: "REGEXP_COUNT".to_string(),
        args: vec![
            Expr::Column("description".to_string()),
            Expr::StringLiteral("o'clock".to_string()),
        ],
    };
    assert_eq!(
        render_expr_sql(&expr),
        "regexp_count(\"description\", 'o''clock'::text)"
    );
}
