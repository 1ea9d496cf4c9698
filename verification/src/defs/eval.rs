//! The values of calculated fields.
//!
//! A row of the source table, or a group of rows, goes in; the values of the
//! calculated fields come out. A field may use others, before or behind it.

use vstd::prelude::*;

use crate::defs::ast::{
    call_view, expr_views, field_views, key_views, Expr, ExprView, FieldDef, FieldDefView,
    GroupByKey, GroupByKeyView, KeySpace, KeySpaceView, TransformDef, TransformDefView, ValueType,
    ValueTypeView,
};
use crate::defs::builtins::{
    aggregate_value, apply_function, apply_operator, call_patterns, for_field, function_value,
    in_field, operator_value, opt_values, reduce_aggregate, value_views, whole,
};
use crate::defs::deps::{
    field_at, field_at_finds, find_field, open_fields, opening_shrinks,
};
use crate::defs::model::RelationshipCardinality;
use crate::defs::registry;
use crate::defs::registry::aggregate_name;
use crate::defs::relationship_data::{
    cell, cells, filled, known, no_relationships, related_rows, row_view,
    row_views, to_one_value, ContextView, Outcome, RowView,
};
pub use crate::defs::relationship_data::{
    RelationshipContext, Row, ToManyRelationship, ToOneRelationship,
};
use crate::defs::typing::types_view;
use crate::defs::value::{
    copy_opt, number_value, opt_value, parse_number, parse_value, value_of, EvalErrorView,
    ValueView,
};
pub use crate::defs::value::{EvalError, Value};
use crate::names::{name_set, name_set_push, NameMap};
use crate::numeric::Numeric;
pub use crate::pattern::RegexCache;
use crate::pattern::{meetings_add_up, nothing_is_met};
use crate::text;

verus! {

// ---------------------------------------------------------------------------
// What evaluation means
// ---------------------------------------------------------------------------

/// Values found so far.
pub type Values = Map<Seq<char>, Option<ValueView>>;

/// Fields, the outcome of each expression that can be answered without
/// evaluating others, and the patterns that are compiled on the way to it.
pub struct Engine {
    pub fields: Seq<FieldDefView>,
    pub given: spec_fn(ExprView, Seq<char>) -> Option<Outcome>,
    pub compiled: spec_fn(ExprView, Seq<char>) -> Set<Seq<char>>,
}

/// The outcome of a literal.
pub open spec fn literal_given(e: ExprView, field: Seq<char>) -> Option<Outcome> {
    match e {
        ExprView::NumberLiteral(n) => Some(
            match number_value(field, n) {
                Ok(v) => Ok(Some(ValueView::Numeric(v))),
                Err(x) => Err(x),
            },
        ),
        ExprView::StringLiteral(s) => Some(Ok(Some(ValueView::Text(s)))),
        ExprView::TypedLiteral { value_type, text } => Some(
            known(value_of(field, value_type, text)),
        ),
        _ => None,
    }
}

/// An aggregate over the rows behind a relationship.
pub open spec fn to_many_value(
    row: RowView,
    context: ContextView,
    name: Seq<char>,
    field: Seq<char>,
    rel: Seq<char>,
    column: Seq<char>,
) -> Outcome {
    if !context.to_many.contains_key(rel) {
        Err(EvalErrorView::UnknownRelationship { field, rel })
    } else {
        let data = context.to_many[rel];
        match related_rows(row, data, field) {
            Err(e) => Err(e),
            Ok(rows) => if name == "COUNT"@ {
                match filled(rows, field, column) {
                    Err(e) => Err(e),
                    Ok(n) => Ok(Some(whole(n))),
                }
            } else {
                match cells(rows, data.to_columns, field, column) {
                    Err(e) => Err(e),
                    Ok(vs) => in_field(aggregate_value(name, vs), field),
                }
            },
        }
    }
}

/// What can be answered from one row: literals, source columns, and what lies
/// behind relationships. A column named like its own field is the source
/// column of that name; any other name of a field means the field.
pub open spec fn row_given(
    fields: Seq<FieldDefView>,
    row: RowView,
    columns: Map<Seq<char>, ValueTypeView>,
    context: ContextView,
    e: ExprView,
    field: Seq<char>,
) -> Option<Outcome> {
    match e {
        ExprView::Column(name) => if field_at(fields, name) is None || (name == field
            && columns.contains_key(name)) {
            Some(cell(row, columns, field, name))
        } else {
            None
        },
        ExprView::RelationshipPath { rel, column } => Some(
            to_one_value(row, context, field, rel, column),
        ),
        ExprView::FunctionCall { name, args } => if aggregate_name(name) && args.len() == 1 {
            match args[0] {
                ExprView::RelationshipPath { rel, column } => Some(
                    to_many_value(row, context, name, field, rel, column),
                ),
                _ => None,
            }
        } else {
            None
        },
        ExprView::BinaryOp { .. } => None,
        _ => literal_given(e, field),
    }
}

/// Evaluation over one row.
pub open spec fn row_engine(
    fields: Seq<FieldDefView>,
    row: RowView,
    columns: Map<Seq<char>, ValueTypeView>,
    context: ContextView,
) -> Engine {
    Engine {
        fields,
        given: |e: ExprView, field: Seq<char>| row_given(fields, row, columns, context, e, field),
        compiled: |e: ExprView, field: Seq<char>| Set::empty(),
    }
}

/// The value of field `i`, with the fields of `path` still being evaluated and
/// `values` known: what is known is taken, and a field that is met while it is
/// being evaluated depends on itself.
pub open spec fn eval_field(c: Engine, i: int, path: Set<Seq<char>>, values: Values) -> Result<
    (Option<ValueView>, Values),
    EvalErrorView,
>
    decreases open_fields(c.fields, path), 0nat, c.fields[i].expr, 0nat,
{
    if i < 0 || i >= c.fields.len() {
        arbitrary()
    } else {
        let f = c.fields[i];
        if values.contains_key(f.name) {
            Ok((values[f.name], values))
        } else if path.contains(f.name) {
            Err(EvalErrorView::Cycle(f.name))
        } else {
            proof {
                opening_shrinks(c.fields, path, i);
            }
            match eval_expr(c, f.expr, f.name, path.insert(f.name), values) {
                Err(e) => Err(e),
                Ok((v, vs)) => Ok((v, vs.insert(f.name, v))),
            }
        }
    }
}

/// The value of an expression in the field `field`.
pub open spec fn eval_expr(
    c: Engine,
    e: ExprView,
    field: Seq<char>,
    path: Set<Seq<char>>,
    values: Values,
) -> Result<(Option<ValueView>, Values), EvalErrorView>
    decreases open_fields(c.fields, path), 1nat, e, 0nat,
{
    match (c.given)(e, field) {
        Some(Ok(v)) => Ok((v, values)),
        Some(Err(x)) => Err(x),
        None => match e {
            ExprView::Column(name) => match field_at(c.fields, name) {
                Some(i) => eval_field(c, i, path, values),
                None => Err(EvalErrorView::MissingColumn { field, column: name }),
            },
            ExprView::BinaryOp { op, lhs, rhs } => match eval_expr(c, *lhs, field, path, values) {
                Err(x) => Err(x),
                Ok((l, vs1)) => match eval_expr(c, *rhs, field, path, vs1) {
                    Err(x) => Err(x),
                    Ok((r, vs2)) => match in_field(operator_value(op, l, r), field) {
                        Err(x) => Err(x),
                        Ok(v) => Ok((v, vs2)),
                    },
                },
            },
            ExprView::FunctionCall { name, args } => if name == "COALESCE"@ {
                eval_first(c, args, 0, field, path, values)
            } else {
                match eval_args(c, args, 0, field, path, values, seq![]) {
                    Err(x) => Err(x),
                    Ok((vals, vs)) => Ok((function_value(name, vals), vs)),
                }
            },
            _ => Ok((None, values)),
        },
    }
}

/// The value of the first of the arguments from `k` on that is not null; those
/// behind it are not evaluated.
pub open spec fn eval_first(
    c: Engine,
    args: Seq<ExprView>,
    k: nat,
    field: Seq<char>,
    path: Set<Seq<char>>,
    values: Values,
) -> Result<(Option<ValueView>, Values), EvalErrorView>
    decreases open_fields(c.fields, path), 1nat, args, args.len() - k,
{
    if k >= args.len() {
        Ok((None, values))
    } else {
        match eval_expr(c, args[k as int], field, path, values) {
            Err(e) => Err(e),
            Ok((Some(v), vs)) => Ok((Some(v), vs)),
            Ok((None, vs)) => eval_first(c, args, k + 1, field, path, vs),
        }
    }
}

/// `acc` and the values of the arguments from `k` on.
pub open spec fn eval_args(
    c: Engine,
    args: Seq<ExprView>,
    k: nat,
    field: Seq<char>,
    path: Set<Seq<char>>,
    values: Values,
    acc: Seq<Option<ValueView>>,
) -> Result<(Seq<Option<ValueView>>, Values), EvalErrorView>
    decreases open_fields(c.fields, path), 1nat, args, args.len() - k,
{
    if k >= args.len() {
        Ok((acc, values))
    } else {
        match eval_expr(c, args[k as int], field, path, values) {
            Err(e) => Err(e),
            Ok((v, vs)) => eval_args(c, args, k + 1, field, path, vs, acc.push(v)),
        }
    }
}

/// The values of the fields from `i` on, and those known before.
pub open spec fn eval_from(c: Engine, i: nat, values: Values) -> Result<Values, EvalErrorView>
    decreases c.fields.len() - i,
{
    if i >= c.fields.len() {
        Ok(values)
    } else {
        match eval_field(c, i as int, Set::empty(), values) {
            Err(e) => Err(e),
            Ok((v, vs)) => eval_from(c, i + 1, vs),
        }
    }
}

/// The names of `excluded`, each with null.
pub open spec fn nulls(excluded: Set<Seq<char>>) -> Values {
    Map::new(|n: Seq<char>| excluded.contains(n), |n: Seq<char>| None)
}

/// The value of every field but those of `excluded`, which count as null for
/// the others.
pub open spec fn field_values(c: Engine, excluded: Set<Seq<char>>) -> Result<
    Values,
    EvalErrorView,
> {
    match eval_from(c, 0, nulls(excluded)) {
        Err(e) => Err(e),
        Ok(vs) => Ok(vs.remove_keys(excluded)),
    }
}

/// The patterns that evaluating field `i` compiles.
pub open spec fn field_patterns(c: Engine, i: int, path: Set<Seq<char>>, values: Values) -> Set<
    Seq<char>,
>
    decreases open_fields(c.fields, path), 0nat, c.fields[i].expr, 0nat,
{
    if i < 0 || i >= c.fields.len() {
        arbitrary()
    } else {
        let f = c.fields[i];
        if values.contains_key(f.name) || path.contains(f.name) {
            Set::empty()
        } else {
            proof {
                opening_shrinks(c.fields, path, i);
            }
            expr_patterns(c, f.expr, f.name, path.insert(f.name), values)
        }
    }
}

/// The patterns that evaluating an expression compiles.
pub open spec fn expr_patterns(
    c: Engine,
    e: ExprView,
    field: Seq<char>,
    path: Set<Seq<char>>,
    values: Values,
) -> Set<Seq<char>>
    decreases open_fields(c.fields, path), 1nat, e, 0nat,
{
    if (c.given)(e, field) is Some {
        (c.compiled)(e, field)
    } else {
        match e {
            ExprView::Column(name) => match field_at(c.fields, name) {
                Some(i) => field_patterns(c, i, path, values),
                None => Set::empty(),
            },
            ExprView::BinaryOp { op, lhs, rhs } => expr_patterns(
                c,
                *lhs,
                field,
                path,
                values,
            ).union(
                match eval_expr(c, *lhs, field, path, values) {
                    Err(_) => Set::empty(),
                    Ok((_, vs)) => expr_patterns(c, *rhs, field, path, vs),
                },
            ),
            ExprView::FunctionCall { name, args } => if name == "COALESCE"@ {
                first_patterns(c, args, 0, field, path, values)
            } else {
                args_patterns(c, args, 0, field, path, values).union(
                    match eval_args(c, args, 0, field, path, values, seq![]) {
                        Err(_) => Set::empty(),
                        Ok((vals, _)) => call_patterns(name, vals),
                    },
                )
            },
            _ => Set::empty(),
        }
    }
}

/// The patterns that evaluating the arguments from `k` on compiles, up to the
/// first that is not null.
pub open spec fn first_patterns(
    c: Engine,
    args: Seq<ExprView>,
    k: nat,
    field: Seq<char>,
    path: Set<Seq<char>>,
    values: Values,
) -> Set<Seq<char>>
    decreases open_fields(c.fields, path), 1nat, args, args.len() - k,
{
    if k >= args.len() {
        Set::empty()
    } else {
        expr_patterns(c, args[k as int], field, path, values).union(
            match eval_expr(c, args[k as int], field, path, values) {
                Ok((None, vs)) => first_patterns(c, args, k + 1, field, path, vs),
                _ => Set::empty(),
            },
        )
    }
}

/// The patterns that evaluating the arguments from `k` on compiles.
pub open spec fn args_patterns(
    c: Engine,
    args: Seq<ExprView>,
    k: nat,
    field: Seq<char>,
    path: Set<Seq<char>>,
    values: Values,
) -> Set<Seq<char>>
    decreases open_fields(c.fields, path), 1nat, args, args.len() - k,
{
    if k >= args.len() {
        Set::empty()
    } else {
        expr_patterns(c, args[k as int], field, path, values).union(
            match eval_expr(c, args[k as int], field, path, values) {
                Ok((_, vs)) => args_patterns(c, args, k + 1, field, path, vs),
                Err(_) => Set::empty(),
            },
        )
    }
}

/// The patterns that evaluating the fields from `i` on compiles.
pub open spec fn patterns_from(c: Engine, i: nat, values: Values) -> Set<Seq<char>>
    decreases c.fields.len() - i,
{
    if i >= c.fields.len() {
        Set::empty()
    } else {
        field_patterns(c, i as int, Set::empty(), values).union(
            match eval_field(c, i as int, Set::empty(), values) {
                Err(_) => Set::empty(),
                Ok((_, vs)) => patterns_from(c, i + 1, vs),
            },
        )
    }
}

/// The patterns that evaluating every field but those of `excluded` compiles.
pub open spec fn patterns_met(c: Engine, excluded: Set<Seq<char>>) -> Set<Seq<char>> {
    patterns_from(c, 0, nulls(excluded))
}

/// The value of `arg` over one row of the group.
#[verifier::opaque]
pub open spec fn over_row(
    fields: Seq<FieldDefView>,
    row: RowView,
    columns: Map<Seq<char>, ValueTypeView>,
    arg: ExprView,
    field: Seq<char>,
) -> Outcome {
    match eval_expr(
        row_engine(fields, row, columns, no_relationships()),
        arg,
        field,
        Set::empty(),
        Map::empty(),
    ) {
        Ok((v, _)) => Ok(v),
        Err(e) => Err(e),
    }
}

/// The values of `arg` that are not null, each over one row of the group.
pub open spec fn values_over_rows(
    fields: Seq<FieldDefView>,
    rows: Seq<RowView>,
    columns: Map<Seq<char>, ValueTypeView>,
    arg: ExprView,
    field: Seq<char>,
) -> Result<Seq<ValueView>, EvalErrorView>
    decreases rows.len(),
{
    if rows.len() == 0 {
        Ok(seq![])
    } else {
        match values_over_rows(fields, rows.drop_last(), columns, arg, field) {
            Err(e) => Err(e),
            Ok(vs) => match over_row(fields, rows.last(), columns, arg, field) {
                Err(e) => Err(e),
                Ok(None) => Ok(vs),
                Ok(Some(v)) => Ok(vs.push(v)),
            },
        }
    }
}

/// The patterns that evaluating `arg` over each row of the group compiles, up
/// to the first row over which it fails.
pub open spec fn patterns_over_rows(
    fields: Seq<FieldDefView>,
    rows: Seq<RowView>,
    columns: Map<Seq<char>, ValueTypeView>,
    arg: ExprView,
    field: Seq<char>,
) -> Set<Seq<char>>
    decreases rows.len(),
{
    if rows.len() == 0 {
        Set::empty()
    } else {
        patterns_over_rows(fields, rows.drop_last(), columns, arg, field).union(
            match values_over_rows(fields, rows.drop_last(), columns, arg, field) {
                Err(_) => Set::empty(),
                Ok(_) => expr_patterns(
                    row_engine(fields, rows.last(), columns, no_relationships()),
                    arg,
                    field,
                    Set::empty(),
                    Map::empty(),
                ),
            },
        )
    }
}

/// The patterns that an aggregate compiles on the way to its value.
pub open spec fn group_patterns(
    fields: Seq<FieldDefView>,
    rows: Seq<RowView>,
    columns: Map<Seq<char>, ValueTypeView>,
    e: ExprView,
    field: Seq<char>,
) -> Set<Seq<char>> {
    match e {
        ExprView::FunctionCall { name, args } => if aggregate_name(name) && args.len() > 0 {
            patterns_over_rows(fields, rows, columns, args[0], field)
        } else {
            Set::empty()
        },
        _ => Set::empty(),
    }
}

/// What can be answered from a group of rows: literals, the columns that it
/// is grouped by, and aggregates.
pub open spec fn group_given(
    fields: Seq<FieldDefView>,
    rows: Seq<RowView>,
    keys: Set<Seq<char>>,
    columns: Map<Seq<char>, ValueTypeView>,
    e: ExprView,
    field: Seq<char>,
) -> Option<Outcome> {
    match e {
        ExprView::Column(name) => if keys.contains(name) {
            Some(cell(rows[0], columns, field, name))
        } else if field_at(fields, name) is None {
            Some(Err(EvalErrorView::MissingColumn { field, column: name }))
        } else {
            None
        },
        ExprView::RelationshipPath { rel, column } => Some(
            Err(EvalErrorView::UnsupportedRelationshipPath { field, rel, column }),
        ),
        ExprView::FunctionCall { name, args } => if name == "COUNT"@ && args.len() == 0 {
            Some(Ok(Some(whole(rows.len()))))
        } else if aggregate_name(name) && args.len() > 0 {
            Some(
                match values_over_rows(fields, rows, columns, args[0], field) {
                    Err(x) => Err(x),
                    Ok(vs) => in_field(aggregate_value(name, vs), field),
                },
            )
        } else {
            None
        },
        ExprView::BinaryOp { .. } => None,
        _ => literal_given(e, field),
    }
}

/// Evaluation over a group of rows.
pub open spec fn group_engine(
    fields: Seq<FieldDefView>,
    rows: Seq<RowView>,
    keys: Set<Seq<char>>,
    columns: Map<Seq<char>, ValueTypeView>,
) -> Engine {
    Engine {
        fields,
        given: |e: ExprView, field: Seq<char>| group_given(fields, rows, keys, columns, e, field),
        compiled: |e: ExprView, field: Seq<char>| group_patterns(fields, rows, columns, e, field),
    }
}

/// The target columns of the keys.
pub open spec fn key_columns(keys: Seq<GroupByKeyView>) -> Set<Seq<char>> {
    Set::new(
        |n: Seq<char>|
            exists|i: int| 0 <= i < keys.len() && #[trigger] keys[i].target_column_name() == n,
    )
}

/// An expression that can be evaluated over a group: every aggregate but
/// `COUNT` has an argument.
pub open spec fn foldable(e: ExprView) -> bool
    decreases e,
{
    match e {
        ExprView::BinaryOp { op, lhs, rhs } => foldable(*lhs) && foldable(*rhs),
        ExprView::FunctionCall { name, args } => if aggregate_name(name) {
            name == "COUNT"@ || args.len() > 0
        } else {
            forall|i: int| 0 <= i < args.len() ==> foldable(#[trigger] args[i])
        },
        _ => true,
    }
}

/// Every field's expression can be evaluated over a group.
pub open spec fn all_foldable(fields: Seq<FieldDefView>) -> bool {
    forall|i: int| 0 <= i < fields.len() ==> foldable(#[trigger] fields[i].expr)
}

/// Evaluating field `i` over a group meets no aggregate that lacks its
/// argument.
pub open spec fn field_folds(c: Engine, i: int, path: Set<Seq<char>>, values: Values) -> bool
    decreases open_fields(c.fields, path), 0nat, c.fields[i].expr, 0nat,
{
    if i < 0 || i >= c.fields.len() {
        true
    } else {
        let f = c.fields[i];
        if values.contains_key(f.name) || path.contains(f.name) {
            true
        } else {
            proof {
                opening_shrinks(c.fields, path, i);
            }
            expr_folds(c, f.expr, f.name, path.insert(f.name), values)
        }
    }
}

/// Evaluating an expression over a group meets no aggregate that lacks its
/// argument.
pub open spec fn expr_folds(
    c: Engine,
    e: ExprView,
    field: Seq<char>,
    path: Set<Seq<char>>,
    values: Values,
) -> bool
    decreases open_fields(c.fields, path), 1nat, e, 0nat,
{
    if (c.given)(e, field) is Some {
        true
    } else {
        match e {
            ExprView::Column(name) => match field_at(c.fields, name) {
                Some(i) => field_folds(c, i, path, values),
                None => true,
            },
            ExprView::BinaryOp { op, lhs, rhs } => expr_folds(c, *lhs, field, path, values) && (
            match eval_expr(c, *lhs, field, path, values) {
                Ok((_, vs)) => expr_folds(c, *rhs, field, path, vs),
                Err(_) => true,
            }),
            ExprView::FunctionCall { name, args } => if aggregate_name(name) {
                false
            } else if name == "COALESCE"@ {
                first_folds(c, args, 0, field, path, values)
            } else {
                args_fold(c, args, 0, field, path, values)
            },
            _ => true,
        }
    }
}

/// Evaluating the arguments from `k` on, up to the first that is not null,
/// meets no aggregate that lacks its argument.
pub open spec fn first_folds(
    c: Engine,
    args: Seq<ExprView>,
    k: nat,
    field: Seq<char>,
    path: Set<Seq<char>>,
    values: Values,
) -> bool
    decreases open_fields(c.fields, path), 1nat, args, args.len() - k,
{
    k < args.len() ==> expr_folds(c, args[k as int], field, path, values) && (match eval_expr(
        c,
        args[k as int],
        field,
        path,
        values,
    ) {
        Ok((None, vs)) => first_folds(c, args, k + 1, field, path, vs),
        _ => true,
    })
}

/// Evaluating the arguments from `k` on meets no aggregate that lacks its
/// argument.
pub open spec fn args_fold(
    c: Engine,
    args: Seq<ExprView>,
    k: nat,
    field: Seq<char>,
    path: Set<Seq<char>>,
    values: Values,
) -> bool
    decreases open_fields(c.fields, path), 1nat, args, args.len() - k,
{
    k < args.len() ==> expr_folds(c, args[k as int], field, path, values) && (match eval_expr(
        c,
        args[k as int],
        field,
        path,
        values,
    ) {
        Ok((_, vs)) => args_fold(c, args, k + 1, field, path, vs),
        Err(_) => true,
    })
}

/// Evaluating the fields from `i` on meets no aggregate that lacks its
/// argument.
pub open spec fn folds_from(c: Engine, i: nat, values: Values) -> bool
    decreases c.fields.len() - i,
{
    i < c.fields.len() ==> field_folds(c, i as int, Set::empty(), values) && (match eval_field(
        c,
        i as int,
        Set::empty(),
        values,
    ) {
        Ok((_, vs)) => folds_from(c, i + 1, vs),
        Err(_) => true,
    })
}

/// Evaluating the fields over a group meets no aggregate but `COUNT` that
/// lacks its argument.
#[verifier::opaque]
pub open spec fn folding_is_clear(c: Engine) -> bool {
    folds_from(c, 0, nulls(Set::empty()))
}

/// The view of a map of values.
pub open spec fn values_view(m: Map<Seq<char>, Option<Value>>) -> Values {
    m.map_values(|v: Option<Value>| opt_value(v))
}

// ---------------------------------------------------------------------------
// Reading rows
// ---------------------------------------------------------------------------

/// What an attempt to evaluate came to.
pub open spec fn outcome_view(r: Result<Option<Value>, EvalError>) -> Outcome {
    match r {
        Ok(v) => Ok(opt_value(v)),
        Err(e) => Err(e@),
    }
}

/// The value of the column `name` in `row`.
fn row_scalar(
    name: &str,
    field: &str,
    row: &Row,
    columns: &NameMap<ValueType>,
) -> (r: Result<Option<Value>, EvalError>)
    ensures
        outcome_view(r) == cell(row_view(row@), types_view(columns@), field@, name@),
{
    match row.get(name) {
        Some(Some(s)) => {
            let value_type = match columns.get(name) {
                Some(t) => *t,
                None => ValueType::Numeric,
            };
            match parse_value(field, value_type, s.as_str()) {
                Ok(v) => Ok(Some(v)),
                Err(e) => Err(e),
            }
        },
        Some(None) => Ok(None),
        None => Err(
            EvalError::MissingColumn { field: text::owned(field), column: text::owned(name) },
        ),
    }
}

/// The value of the column `column` behind the relationship `rel`.
fn eval_to_one(
    rel: &str,
    column: &str,
    field: &str,
    row: &Row,
    context: &RelationshipContext,
) -> (r: Result<Option<Value>, EvalError>)
    ensures
        outcome_view(r) == to_one_value(row_view(row@), context@, field@, rel@, column@),
{
    let data = match context.to_one(rel) {
        Some(data) => data,
        None => {
            return Err(
                EvalError::UnknownRelationship { field: text::owned(field), rel: text::owned(rel) },
            );
        },
    };
    if data.cardinality == RelationshipCardinality::ToMany {
        return Err(
            EvalError::AggregateRequiredForToMany {
                field: text::owned(field),
                rel: text::owned(rel),
                column: text::owned(column),
            },
        );
    }
    match row.get(data.from_col.as_str()) {
        None => Err(
            EvalError::MissingColumn { field: text::owned(field), column: data.from_col.clone() },
        ),
        Some(None) => Ok(None),
        Some(Some(key)) => match data.to_rows_by_key.get(key.as_str()) {
            None => Ok(None),
            Some(to_row) => row_scalar(column, field, to_row, &data.to_columns),
        },
    }
}

fn count_filled(rows: &Vec<Row>, field: &str, column: &str) -> (r: Result<usize, EvalError>)
    ensures
        match r {
            Ok(n) => filled(row_views(rows@), field@, column@) == Ok::<nat, EvalErrorView>(
                n as nat,
            ),
            Err(e) => filled(row_views(rows@), field@, column@) == Err::<nat, EvalErrorView>(e@),
        },
{
    let ghost all = row_views(rows@);
    let mut n: usize = 0;
    let mut i: usize = 0;
    while i < rows.len()
        invariant
            0 <= i <= rows.len(),
            n <= i,
            all == row_views(rows@),
            filled(all.take(i as int), field@, column@) == Ok::<nat, EvalErrorView>(n as nat),
        decreases rows@.len() - i,
    {
        proof {
            assert(all.take(i + 1).drop_last() =~= all.take(i as int));
            assert(all[i as int] == row_view(rows@[i as int]@));
        }
        match rows[i].get(column) {
            Some(Some(_)) => {
                n += 1;
            },
            Some(None) => {},
            None => {
                proof {
                    fails_stay(all, i + 1, field@, column@);
                }
                return Err(
                    EvalError::MissingColumn {
                        field: text::owned(field),
                        column: text::owned(column),
                    },
                );
            },
        }
        i += 1;
    }
    assert(all.take(i as int) =~= all);
    Ok(n)
}

proof fn fails_stay(rows: Seq<RowView>, i: int, field: Seq<char>, column: Seq<char>)
    requires
        0 <= i <= rows.len(),
        filled(rows.take(i), field, column) is Err,
    ensures
        filled(rows, field, column) == filled(rows.take(i), field, column),
    decreases rows.len() - i,
{
    if i < rows.len() {
        assert(rows.take(i + 1).drop_last() =~= rows.take(i));
        fails_stay(rows, i + 1, field, column);
    } else {
        assert(rows.take(i) =~= rows);
    }
}

fn read_cells(
    rows: &Vec<Row>,
    columns: &NameMap<ValueType>,
    field: &str,
    column: &str,
) -> (r: Result<Vec<Value>, EvalError>)
    ensures
        match r {
            Ok(vs) => cells(row_views(rows@), types_view(columns@), field@, column@) == Ok::<
                Seq<ValueView>,
                EvalErrorView,
            >(value_views(vs@)),
            Err(e) => cells(row_views(rows@), types_view(columns@), field@, column@) == Err::<
                Seq<ValueView>,
                EvalErrorView,
            >(e@),
        },
{
    let ghost all = row_views(rows@);
    let ghost types = types_view(columns@);
    let mut vs: Vec<Value> = Vec::new();
    assert(value_views(vs@) =~= seq![]);
    let mut i: usize = 0;
    while i < rows.len()
        invariant
            0 <= i <= rows@.len(),
            all == row_views(rows@),
            types == types_view(columns@),
            cells(all.take(i as int), types, field@, column@) == Ok::<Seq<ValueView>, EvalErrorView>(
                value_views(vs@),
            ),
        decreases rows@.len() - i,
    {
        proof {
            assert(all.take(i + 1).drop_last() =~= all.take(i as int));
            assert(all[i as int] == row_view(rows@[i as int]@));
        }
        match row_scalar(column, field, &rows[i], columns) {
            Ok(None) => {},
            Ok(Some(v)) => {
                let ghost before = vs@;
                vs.push(v);
                assert(value_views(vs@) =~= value_views(before).push(v@));
            },
            Err(e) => {
                proof {
                    cell_errors_stay(all, i + 1, types, field@, column@);
                }
                return Err(e);
            },
        }
        i += 1;
    }
    assert(all.take(i as int) =~= all);
    Ok(vs)
}

proof fn cell_errors_stay(
    rows: Seq<RowView>,
    i: int,
    columns: Map<Seq<char>, ValueTypeView>,
    field: Seq<char>,
    column: Seq<char>,
)
    requires
        0 <= i <= rows.len(),
        cells(rows.take(i), columns, field, column) is Err,
    ensures
        cells(rows, columns, field, column) == cells(rows.take(i), columns, field, column),
    decreases rows.len() - i,
{
    if i < rows.len() {
        assert(rows.take(i + 1).drop_last() =~= rows.take(i));
        cell_errors_stay(rows, i + 1, columns, field, column);
    } else {
        assert(rows.take(i) =~= rows);
    }
}

/// An aggregate over the rows behind the relationship `rel`.
fn eval_to_many_aggregate(
    name: &str,
    rel: &str,
    column: &str,
    field: &str,
    row: &Row,
    context: &RelationshipContext,
) -> (r: Result<Option<Value>, EvalError>)
    ensures
        outcome_view(r) == to_many_value(row_view(row@), context@, name@, field@, rel@, column@),
{
    let data = match context.to_many(rel) {
        Some(data) => data,
        None => {
            return Err(
                EvalError::UnknownRelationship { field: text::owned(field), rel: text::owned(rel) },
            );
        },
    };
    let none: Vec<Row> = Vec::new();
    assert(row_views(none@) =~= seq![]);
    let rows: &Vec<Row> = match row.get(data.from_col.as_str()) {
        None => {
            return Err(
                EvalError::MissingColumn {
                    field: text::owned(field),
                    column: data.from_col.clone(),
                },
            );
        },
        Some(None) => &none,
        Some(Some(key)) => match data.to_rows_by_key.get(key.as_str()) {
            None => &none,
            Some(rows) => rows,
        },
    };
    assert(related_rows(row_view(row@), data@, field@) == Ok::<Seq<RowView>, EvalErrorView>(
        row_views(rows@),
    ));
    if text::same(name, "COUNT") {
        return match count_filled(rows, field, column) {
            Ok(n) => Ok(Some(Value::Numeric(Numeric::whole(n as u128)))),
            Err(e) => Err(e),
        };
    }
    match read_cells(rows, &data.to_columns, field, column) {
        Ok(vs) => for_field(reduce_aggregate(name, &vs), field),
        Err(e) => Err(e),
    }
}

// ---------------------------------------------------------------------------
// Evaluating
// ---------------------------------------------------------------------------

/// What fields are evaluated over.
#[derive(Clone, Copy)]
enum Source<'a> {
    Row { row: &'a Row, context: &'a RelationshipContext },
    Group { rows: &'a [Row], keys: &'a Vec<GroupByKey> },
}

/// Evaluates fields one after another.
struct Evaluator<'a> {
    fields: &'a Vec<FieldDef>,
    columns: &'a NameMap<ValueType>,
    source: Source<'a>,
    values: NameMap<Option<Value>>,
    path: Vec<String>,
}

/// What evaluation came to.
spec fn came_to<T, V>(
    r: Result<T, EvalError>,
    view: spec_fn(T) -> V,
    before: &Evaluator,
    after: &Evaluator,
    expected: Result<(V, Values), EvalErrorView>,
) -> bool {
    &&& after.fields == before.fields
    &&& after.columns == before.columns
    &&& after.source == before.source
    &&& match r {
        Ok(t) => {
            &&& expected == Ok::<(V, Values), EvalErrorView>((view(t), values_view(after.values@)))
            &&& after.path@ == before.path@
        },
        Err(e) => expected == Err::<(V, Values), EvalErrorView>(e@),
    }
}

impl<'a> Evaluator<'a> {
    spec fn engine(&self) -> Engine {
        match self.source {
            Source::Row { row, context } => row_engine(
                field_views(self.fields@),
                row_view(row@),
                types_view(self.columns@),
                context@,
            ),
            Source::Group { rows, keys } => group_engine(
                field_views(self.fields@),
                row_views(rows@),
                key_columns(key_views(keys@)),
                types_view(self.columns@),
            ),
        }
    }

    spec fn known(&self) -> Values {
        values_view(self.values@)
    }

    spec fn on_path(&self) -> Set<Seq<char>> {
        name_set(self.path@)
    }

    /// One over a group, whose aggregates are evaluated row by row; zero over
    /// a row.
    spec fn depth(&self) -> nat {
        match self.source {
            Source::Row { .. } => 0,
            Source::Group { .. } => 1,
        }
    }

    spec fn ok(&self) -> bool {
        self.source matches Source::Group { rows, keys } ==> rows@.len() > 0
    }

    fn eval_field(&mut self, i: usize, cache: &mut RegexCache) -> (r: Result<
        Option<Value>,
        EvalError,
    >)
        requires
            old(self).ok(),
            i < old(self).fields@.len(),
        ensures
            came_to(
                r,
                |v: Option<Value>| opt_value(v),
                old(self),
                final(self),
                eval_field(old(self).engine(), i as int, old(self).on_path(), old(self).known()),
            ),
            final(cache).after_meeting(
                *old(cache),
                field_patterns(old(self).engine(), i as int, old(self).on_path(), old(self).known()),
            ),
        decreases
                old(self).depth(),
                open_fields(old(self).engine().fields, old(self).on_path()),
                0nat,
                old(self).fields@[i as int].expr,
                0nat,
    {
        let fields: &'a Vec<FieldDef> = self.fields;
        let name: &'a String = &fields[i].name;
        let ghost c = self.engine();
        let ghost f = c.fields[i as int];
        assert(f == fields@[i as int]@);
        proof {
            nothing_is_met(*cache);
        }
        if let Some(v) = self.values.get(name.as_str()) {
            return Ok(copy_opt(v));
        }
        if text::is_in(name.as_str(), &self.path) {
            return Err(EvalError::Cycle(name.clone()));
        }
        let ghost before = self.path@;
        self.path.push(name.clone());
        proof {
            name_set_push(before, self.path@.last());
            opening_shrinks(c.fields, name_set(before), i as int);
            assert(self.path@ =~= before.push(self.path@.last()));
        }
        let v = match self.eval_expr(&fields[i].expr, name, cache) {
            Ok(v) => v,
            Err(e) => {
                return Err(e);
            },
        };
        let _ = self.path.pop();
        let ghost vs = self.known();
        self.values.insert(name.clone(), copy_opt(&v));
        proof {
            assert(self.path@ =~= before);
            assert(self.known() =~= vs.insert(f.name, opt_value(v)));
        }
        Ok(v)
    }

    fn eval_expr(&mut self, expr: &Expr, field: &str, cache: &mut RegexCache) -> (r: Result<
        Option<Value>,
        EvalError,
    >)
        requires
            old(self).ok(),
        ensures
            came_to(
                r,
                |v: Option<Value>| opt_value(v),
                old(self),
                final(self),
                eval_expr(
                    old(self).engine(),
                    expr@,
                    field@,
                    old(self).on_path(),
                    old(self).known(),
                ),
            ),
            final(cache).after_meeting(
                *old(cache),
                expr_patterns(
                    old(self).engine(),
                    expr@,
                    field@,
                    old(self).on_path(),
                    old(self).known(),
                ),
            ),
        decreases
                old(self).depth(),
                open_fields(old(self).engine().fields, old(self).on_path()),
                1nat,
                *expr,
                1nat,
    {
        let ghost c = self.engine();
        proof {
            nothing_is_met(*cache);
        }
        match self.given(expr, field, cache) {
            Some(r) => {
                return r;
            },
            None => {},
        }
        match expr {
            Expr::Column(name) => {
                proof {
                    field_at_finds(c.fields, name@);
                }
                match find_field(self.fields, name.as_str()) {
                    Some(i) => self.eval_field(i, cache),
                    None => Err(
                        EvalError::MissingColumn {
                            field: text::owned(field),
                            column: name.clone(),
                        },
                    ),
                }
            },
            Expr::BinaryOp { op, lhs, rhs } => {
                let ghost left = expr_patterns(c, lhs@, field@, self.on_path(), self.known());
                assert(left.union(Set::empty()) =~= left);
                let l = match self.eval_expr(lhs, field, cache) {
                    Ok(v) => v,
                    Err(e) => {
                        return Err(e);
                    },
                };
                let ghost between = *cache;
                let ghost right = expr_patterns(c, rhs@, field@, self.on_path(), self.known());
                let r = self.eval_expr(rhs, field, cache);
                proof {
                    meetings_add_up(*old(cache), between, *cache, left, right);
                }
                let r = match r {
                    Ok(v) => v,
                    Err(e) => {
                        return Err(e);
                    },
                };
                for_field(apply_operator(*op, l, r), field)
            },
            Expr::FunctionCall { name, args } => {
                proof {
                    call_view(*name, *args);
                }
                if text::same(name.as_str(), "COALESCE") {
                    return self.eval_first(args, field, cache);
                }
                let ghost all = expr_views(args@);
                let ghost inner = args_patterns(c, all, 0, field@, self.on_path(), self.known());
                assert(inner.union(Set::empty()) =~= inner);
                match self.eval_args(args, field, cache) {
                    Ok(vals) => {
                        let ghost between = *cache;
                        let v = apply_function(name.as_str(), &vals, cache);
                        proof {
                            meetings_add_up(
                                *old(cache),
                                between,
                                *cache,
                                inner,
                                call_patterns(name@, opt_values(vals@)),
                            );
                        }
                        Ok(v)
                    },
                    Err(e) => Err(e),
                }
            },
            _ => Ok(None),
        }
    }

    fn eval_first(&mut self, args: &Vec<Expr>, field: &str, cache: &mut RegexCache) -> (r: Result<
        Option<Value>,
        EvalError,
    >)
        requires
            old(self).ok(),
        ensures
            came_to(
                r,
                |v: Option<Value>| opt_value(v),
                old(self),
                final(self),
                eval_first(
                    old(self).engine(),
                    expr_views(args@),
                    0,
                    field@,
                    old(self).on_path(),
                    old(self).known(),
                ),
            ),
            final(cache).after_meeting(
                *old(cache),
                first_patterns(
                    old(self).engine(),
                    expr_views(args@),
                    0,
                    field@,
                    old(self).on_path(),
                    old(self).known(),
                ),
            ),
        decreases
                old(self).depth(),
                open_fields(old(self).engine().fields, old(self).on_path()),
                1nat,
                *args,
                2nat,
    {
        let ghost c = self.engine();
        let ghost all = expr_views(args@);
        let ghost path = self.on_path();
        let ghost values0 = self.known();
        let ghost mut met: Set<Seq<char>> = Set::empty();
        proof {
            nothing_is_met(*cache);
            assert(met.union(first_patterns(c, all, 0, field@, path, values0)) =~= first_patterns(
                c,
                all,
                0,
                field@,
                path,
                values0,
            ));
        }
        let mut k: usize = 0;
        while k < args.len()
            invariant
                0 <= k <= args@.len(),
                all == expr_views(args@),
                c == old(self).engine(),
                path == old(self).on_path(),
                values0 == old(self).known(),
                self.ok(),
                self.fields == old(self).fields,
                self.columns == old(self).columns,
                self.source == old(self).source,
                self.path@ == old(self).path@,
                cache.after_meeting(*old(cache), met),
                first_patterns(c, all, 0, field@, path, values0) == met.union(
                    first_patterns(c, all, k as nat, field@, path, self.known()),
                ),
                eval_first(c, all, 0, field@, path, values0) == eval_first(
                    c,
                    all,
                    k as nat,
                    field@,
                    path,
                    self.known(),
                ),
            decreases args@.len() - k,
        {
            assert(all[k as int] == args@[k as int]@);
            assert(self.engine() == c);
            let ghost before = *cache;
            let ghost here = expr_patterns(c, all[k as int], field@, path, self.known());
            let r = self.eval_expr(&args[k], field, cache);
            proof {
                meetings_add_up(*old(cache), before, *cache, met, here);
                assert(here.union(Set::empty()) =~= here);
            }
            match r {
                Ok(Some(v)) => {
                    return Ok(Some(v));
                },
                Ok(None) => {},
                Err(e) => {
                    return Err(e);
                },
            }
            proof {
                let rest = first_patterns(c, all, (k + 1) as nat, field@, path, self.known());
                assert(met.union(here.union(rest)) =~= met.union(here).union(rest));
                met = met.union(here);
            }
            k += 1;
        }
        assert(met.union(Set::empty()) =~= met);
        Ok(None)
    }

    fn eval_args(&mut self, args: &Vec<Expr>, field: &str, cache: &mut RegexCache) -> (r: Result<
        Vec<Option<Value>>,
        EvalError,
    >)
        requires
            old(self).ok(),
        ensures
            came_to(
                r,
                |vs: Vec<Option<Value>>| opt_values(vs@),
                old(self),
                final(self),
                eval_args(
                    old(self).engine(),
                    expr_views(args@),
                    0,
                    field@,
                    old(self).on_path(),
                    old(self).known(),
                    seq![],
                ),
            ),
            final(cache).after_meeting(
                *old(cache),
                args_patterns(
                    old(self).engine(),
                    expr_views(args@),
                    0,
                    field@,
                    old(self).on_path(),
                    old(self).known(),
                ),
            ),
        decreases
                old(self).depth(),
                open_fields(old(self).engine().fields, old(self).on_path()),
                1nat,
                *args,
                2nat,
    {
        let ghost c = self.engine();
        let ghost all = expr_views(args@);
        let ghost path = self.on_path();
        let ghost values0 = self.known();
        let mut vals: Vec<Option<Value>> = Vec::new();
        assert(opt_values(vals@) =~= seq![]);
        let ghost mut met: Set<Seq<char>> = Set::empty();
        proof {
            nothing_is_met(*cache);
            assert(met.union(args_patterns(c, all, 0, field@, path, values0)) =~= args_patterns(
                c,
                all,
                0,
                field@,
                path,
                values0,
            ));
        }
        let mut k: usize = 0;
        while k < args.len()
            invariant
                0 <= k <= args@.len(),
                all == expr_views(args@),
                c == old(self).engine(),
                path == old(self).on_path(),
                values0 == old(self).known(),
                self.ok(),
                self.fields == old(self).fields,
                self.columns == old(self).columns,
                self.source == old(self).source,
                self.path@ == old(self).path@,
                cache.after_meeting(*old(cache), met),
                args_patterns(c, all, 0, field@, path, values0) == met.union(
                    args_patterns(c, all, k as nat, field@, path, self.known()),
                ),
                eval_args(c, all, 0, field@, path, values0, seq![]) == eval_args(
                    c,
                    all,
                    k as nat,
                    field@,
                    path,
                    self.known(),
                    opt_values(vals@),
                ),
            decreases args@.len() - k,
        {
            assert(all[k as int] == args@[k as int]@);
            assert(self.engine() == c);
            let ghost so_far = *cache;
            let ghost here = expr_patterns(c, all[k as int], field@, path, self.known());
            let r = self.eval_expr(&args[k], field, cache);
            proof {
                meetings_add_up(*old(cache), so_far, *cache, met, here);
                assert(here.union(Set::empty()) =~= here);
            }
            match r {
                Ok(v) => {
                    let ghost before = vals@;
                    vals.push(v);
                    assert(opt_values(vals@) =~= opt_values(before).push(opt_value(v)));
                },
                Err(e) => {
                    return Err(e);
                },
            }
            proof {
                let rest = args_patterns(c, all, (k + 1) as nat, field@, path, self.known());
                assert(met.union(here.union(rest)) =~= met.union(here).union(rest));
                met = met.union(here);
            }
            k += 1;
        }
        assert(met.union(Set::empty()) =~= met);
        Ok(vals)
    }

    /// The outcome of an expression that can be answered without evaluating
    /// others.
    fn given(&self, expr: &Expr, field: &str, cache: &mut RegexCache) -> (r: Option<
        Result<Option<Value>, EvalError>,
    >)
        requires
            self.ok(),
        ensures
            match r {
                Some(o) => (self.engine().given)(expr@, field@) == Some(outcome_view(o)),
                None => (self.engine().given)(expr@, field@) is None,
            },
            r is Some ==> final(cache).after_meeting(
                *old(cache),
                (self.engine().compiled)(expr@, field@),
            ),
            r is None ==> *final(cache) == *old(cache),
        decreases
                self.depth(),
                open_fields(self.engine().fields, self.on_path()),
                1nat,
                *expr,
                0nat,
    {
        proof {
            nothing_is_met(*cache);
        }
        match expr {
            Expr::NumberLiteral(n) => Some(
                match parse_number(field, n.as_str()) {
                    Ok(v) => Ok(Some(Value::Numeric(v))),
                    Err(e) => Err(e),
                },
            ),
            Expr::StringLiteral(s) => Some(Ok(Some(Value::Text(s.clone())))),
            Expr::TypedLiteral { value_type, text } => Some(
                match parse_value(field, *value_type, text.as_str()) {
                    Ok(v) => Ok(Some(v)),
                    Err(e) => Err(e),
                },
            ),
            Expr::BinaryOp { .. } => None,
            Expr::Column(name) => match self.source {
                Source::Row { row, .. } => {
                    let passes_through = text::same(name.as_str(), field)
                        && self.columns.contains_key(name.as_str());
                    if passes_through || find_field(self.fields, name.as_str()).is_none() {
                        Some(row_scalar(name.as_str(), field, row, self.columns))
                    } else {
                        None
                    }
                },
                Source::Group { rows, keys } => {
                    assert(row_views(rows@)[0] == row_view(rows@[0]@));
                    if is_key(keys, name.as_str()) {
                        Some(row_scalar(name.as_str(), field, &rows[0], self.columns))
                    } else if find_field(self.fields, name.as_str()).is_none() {
                        Some(
                            Err(
                                EvalError::MissingColumn {
                                    field: text::owned(field),
                                    column: name.clone(),
                                },
                            ),
                        )
                    } else {
                        None
                    }
                },
            },
            Expr::RelationshipPath { rel, column } => match self.source {
                Source::Row { row, context } => Some(
                    eval_to_one(rel.as_str(), column.as_str(), field, row, context),
                ),
                Source::Group { .. } => Some(
                    Err(
                        EvalError::UnsupportedRelationshipPath {
                            field: text::owned(field),
                            rel: rel.clone(),
                            column: column.clone(),
                        },
                    ),
                ),
            },
            Expr::FunctionCall { name, args } => {
                proof {
                    call_view(*name, *args);
                }
                let is_aggregate = registry::is_aggregate_function(name.as_str());
                match self.source {
                    Source::Row { row, context } => {
                        if is_aggregate && args.len() == 1 {
                            assert(expr_views(args@)[0] == args@[0]@);
                            match &args[0] {
                                Expr::RelationshipPath { rel, column } => Some(
                                    eval_to_many_aggregate(
                                        name.as_str(),
                                        rel.as_str(),
                                        column.as_str(),
                                        field,
                                        row,
                                        context,
                                    ),
                                ),
                                _ => None,
                            }
                        } else {
                            None
                        }
                    },
                    Source::Group { rows, .. } => {
                        if text::same(name.as_str(), "COUNT") && args.len() == 0 {
                            let n: usize = rows.len();
                            Some(Ok(Some(Value::Numeric(Numeric::whole(n as u128)))))
                        } else if is_aggregate && args.len() > 0 {
                            assert(expr_views(args@)[0] == args@[0]@);
                            Some(self.fold_aggregate(name.as_str(), &args[0], field, rows, cache))
                        } else {
                            None
                        }
                    },
                }
            },
        }
    }

    /// An aggregate of `arg` over the rows of the group.
    fn fold_aggregate(
        &self,
        name: &str,
        arg: &Expr,
        field: &str,
        rows: &[Row],
        cache: &mut RegexCache,
    ) -> (r: Result<Option<Value>, EvalError>)
        requires
            self.source is Group,
        ensures
            outcome_view(r) == (match values_over_rows(
                field_views(self.fields@),
                row_views(rows@),
                types_view(self.columns@),
                arg@,
                field@,
            ) {
                Err(x) => Err::<Option<ValueView>, EvalErrorView>(x),
                Ok(vs) => in_field(aggregate_value(name@, vs), field@),
            }),
            final(cache).after_meeting(
                *old(cache),
                patterns_over_rows(
                    field_views(self.fields@),
                    row_views(rows@),
                    types_view(self.columns@),
                    arg@,
                    field@,
                ),
            ),
        decreases
                self.depth(),
                open_fields(self.engine().fields, self.on_path()),
                1nat,
                *arg,
                0nat,
    {
        let ghost fields = field_views(self.fields@);
        let ghost types = types_view(self.columns@);
        let ghost all = row_views(rows@);
        let context = RelationshipContext::default();
        let mut vs: Vec<Value> = Vec::new();
        assert(value_views(vs@) =~= seq![]);
        proof {
            nothing_is_met(*cache);
        }
        let mut i: usize = 0;
        while i < rows.len()
            invariant
                0 <= i <= rows@.len(),
                self.source is Group,
                fields == field_views(self.fields@),
                types == types_view(self.columns@),
                all == row_views(rows@),
                context@ == no_relationships(),
                cache.after_meeting(
                    *old(cache),
                    patterns_over_rows(fields, all.take(i as int), types, arg@, field@),
                ),
                values_over_rows(fields, all.take(i as int), types, arg@, field@) == Ok::<
                    Seq<ValueView>,
                    EvalErrorView,
                >(value_views(vs@)),
            decreases rows@.len() - i,
        {
            proof {
                reveal(over_row);
                assert(all.take(i + 1).drop_last() =~= all.take(i as int));
                assert(all[i as int] == row_view(rows@[i as int]@));
            }
            let mut each = Evaluator {
                fields: self.fields,
                columns: self.columns,
                source: Source::Row { row: &rows[i], context: &context },
                values: NameMap::new(),
                path: Vec::new(),
            };
            proof {
                assert(each.known() =~= Map::empty());
                assert(each.on_path() =~= Set::empty());
            }
            let ghost so_far = *cache;
            let ghost met = patterns_over_rows(fields, all.take(i as int), types, arg@, field@);
            let ghost here = expr_patterns(
                each.engine(),
                arg@,
                field@,
                Set::empty(),
                Map::empty(),
            );
            let r = each.eval_expr(arg, field, cache);
            proof {
                meetings_add_up(*old(cache), so_far, *cache, met, here);
            }
            match r {
                Ok(None) => {},
                Ok(Some(v)) => {
                    let ghost before = vs@;
                    vs.push(v);
                    assert(value_views(vs@) =~= value_views(before).push(v@));
                },
                Err(e) => {
                    proof {
                        row_errors_stay(fields, all, i + 1, types, arg@, field@);
                    }
                    return Err(e);
                },
            }
            i += 1;
        }
        assert(all.take(i as int) =~= all);
        for_field(reduce_aggregate(name, &vs), field)
    }
}

proof fn row_errors_stay(
    fields: Seq<FieldDefView>,
    rows: Seq<RowView>,
    i: int,
    columns: Map<Seq<char>, ValueTypeView>,
    arg: ExprView,
    field: Seq<char>,
)
    requires
        0 <= i <= rows.len(),
        values_over_rows(fields, rows.take(i), columns, arg, field) is Err,
    ensures
        values_over_rows(fields, rows, columns, arg, field) == values_over_rows(
            fields,
            rows.take(i),
            columns,
            arg,
            field,
        ),
        patterns_over_rows(fields, rows, columns, arg, field) == patterns_over_rows(
            fields,
            rows.take(i),
            columns,
            arg,
            field,
        ),
    decreases rows.len() - i,
{
    if i < rows.len() {
        assert(rows.take(i + 1).drop_last() =~= rows.take(i));
        row_errors_stay(fields, rows, i + 1, columns, arg, field);
    } else {
        assert(rows.take(i) =~= rows);
    }
}

/// Whether `name` is the target column of one of the keys.
fn is_key(keys: &Vec<GroupByKey>, name: &str) -> (r: bool)
    ensures
        r == key_columns(key_views(keys@)).contains(name@),
{
    let ghost ks = key_views(keys@);
    let mut i: usize = 0;
    while i < keys.len()
        invariant
            0 <= i <= keys@.len(),
            ks == key_views(keys@),
            forall|j: int| 0 <= j < i ==> (#[trigger] ks[j]).target_column_name() != name@,
        decreases keys@.len() - i,
    {
        assert(ks[i as int] == keys@[i as int]@);
        if text::same(keys[i].target_column_name(), name) {
            return true;
        }
        i += 1;
    }
    false
}

// ---------------------------------------------------------------------------
// Definitions
// ---------------------------------------------------------------------------

/// The row engine of a definition.
pub open spec fn definition_engine(
    def: TransformDefView,
    row: RowView,
    columns: Map<Seq<char>, ValueTypeView>,
    context: ContextView,
) -> Engine {
    row_engine(def.fields, row, columns, context)
}

/// What evaluating a definition came to.
pub open spec fn gives(
    r: Result<NameMap<Option<Value>>, EvalError>,
    expected: Result<Values, EvalErrorView>,
) -> bool {
    match r {
        Ok(values) => expected == Ok::<Values, EvalErrorView>(values_view(values@)),
        Err(e) => expected == Err::<Values, EvalErrorView>(e@),
    }
}

/// The value of every calculated field over one row, without relationships.
pub fn evaluate(
    def: &TransformDef,
    row: &Row,
    source_columns: &NameMap<ValueType>,
    regex_cache: &mut RegexCache,
) -> (r: Result<NameMap<Option<Value>>, EvalError>)
    ensures
        gives(
            r,
            field_values(
                definition_engine(
                    def@,
                    row_view(row@),
                    types_view(source_columns@),
                    no_relationships(),
                ),
                Set::empty(),
            ),
        ),
        final(regex_cache).after_meeting(
            *old(regex_cache),
            patterns_met(
                definition_engine(
                    def@,
                    row_view(row@),
                    types_view(source_columns@),
                    no_relationships(),
                ),
                Set::empty(),
            ),
        ),
{
    evaluate_with_relationships(
        def,
        row,
        source_columns,
        &RelationshipContext::default(),
        regex_cache,
    )
}

/// The value of every calculated field but the excluded ones over one row,
/// without relationships.
pub fn evaluate_excluding(
    def: &TransformDef,
    row: &Row,
    source_columns: &NameMap<ValueType>,
    regex_cache: &mut RegexCache,
    excluded: &Vec<String>,
) -> (r: Result<NameMap<Option<Value>>, EvalError>)
    ensures
        gives(
            r,
            field_values(
                definition_engine(
                    def@,
                    row_view(row@),
                    types_view(source_columns@),
                    no_relationships(),
                ),
                name_set(excluded@),
            ),
        ),
        final(regex_cache).after_meeting(
            *old(regex_cache),
            patterns_met(
                definition_engine(
                    def@,
                    row_view(row@),
                    types_view(source_columns@),
                    no_relationships(),
                ),
                name_set(excluded@),
            ),
        ),
{
    evaluate_with_relationships_excluding(
        def,
        row,
        source_columns,
        &RelationshipContext::default(),
        regex_cache,
        excluded,
    )
}

/// The value of every calculated field over one row.
pub fn evaluate_with_relationships(
    def: &TransformDef,
    row: &Row,
    source_columns: &NameMap<ValueType>,
    relationships: &RelationshipContext,
    regex_cache: &mut RegexCache,
) -> (r: Result<NameMap<Option<Value>>, EvalError>)
    ensures
        gives(
            r,
            field_values(
                definition_engine(
                    def@,
                    row_view(row@),
                    types_view(source_columns@),
                    relationships@,
                ),
                Set::empty(),
            ),
        ),
        final(regex_cache).after_meeting(
            *old(regex_cache),
            patterns_met(
                definition_engine(
                    def@,
                    row_view(row@),
                    types_view(source_columns@),
                    relationships@,
                ),
                Set::empty(),
            ),
        ),
{
    let none: Vec<String> = Vec::new();
    assert(name_set(none@) =~= Set::empty());
    evaluate_with_relationships_excluding(
        def,
        row,
        source_columns,
        relationships,
        regex_cache,
        &none,
    )
}

/// The value of every calculated field but the excluded ones over one row. An
/// excluded field counts as null for the others, and has no value of its own.
pub fn evaluate_with_relationships_excluding(
    def: &TransformDef,
    row: &Row,
    source_columns: &NameMap<ValueType>,
    relationships: &RelationshipContext,
    regex_cache: &mut RegexCache,
    excluded: &Vec<String>,
) -> (r: Result<NameMap<Option<Value>>, EvalError>)
    ensures
        gives(
            r,
            field_values(
                definition_engine(
                    def@,
                    row_view(row@),
                    types_view(source_columns@),
                    relationships@,
                ),
                name_set(excluded@),
            ),
        ),
        final(regex_cache).after_meeting(
            *old(regex_cache),
            patterns_met(
                definition_engine(
                    def@,
                    row_view(row@),
                    types_view(source_columns@),
                    relationships@,
                ),
                name_set(excluded@),
            ),
        ),
{
    let mut values: NameMap<Option<Value>> = NameMap::new();
    let mut i: usize = 0;
    proof {
        assert(values_view(values@) =~= nulls(name_set(excluded@.take(0))));
    }
    while i < excluded.len()
        invariant
            0 <= i <= excluded@.len(),
            values_view(values@) == nulls(name_set(excluded@.take(i as int))),
        decreases excluded@.len() - i,
    {
        let ghost before = values@;
        values.insert(excluded[i].clone(), None);
        proof {
            let name = excluded@[i as int];
            assert(excluded@.take(i + 1) =~= excluded@.take(i as int).push(name));
            name_set_push(excluded@.take(i as int), name);
            assert(values_view(values@) =~= values_view(before).insert(name@, None));
            assert(values_view(values@) =~= nulls(name_set(excluded@.take(i + 1))));
        }
        i += 1;
    }
    assert(excluded@.take(i as int) =~= excluded@);
    let evaluator = Evaluator {
        fields: &def.fields,
        columns: source_columns,
        source: Source::Row { row, context: relationships },
        values,
        path: Vec::new(),
    };
    let mut values = match evaluator.run(regex_cache) {
        Ok(values) => values,
        Err(e) => {
            return Err(e);
        },
    };
    let ghost all = values_view(values@);
    let mut i: usize = 0;
    proof {
        assert(all.remove_keys(name_set(excluded@.take(0))) =~= all);
    }
    while i < excluded.len()
        invariant
            0 <= i <= excluded@.len(),
            values_view(values@) == all.remove_keys(name_set(excluded@.take(i as int))),
        decreases excluded@.len() - i,
    {
        let ghost before = values@;
        values.remove(excluded[i].as_str());
        proof {
            let name = excluded@[i as int];
            assert(excluded@.take(i + 1) =~= excluded@.take(i as int).push(name));
            name_set_push(excluded@.take(i as int), name);
            assert(values_view(values@) =~= values_view(before).remove(name@));
            assert(values_view(values@) =~= all.remove_keys(name_set(excluded@.take(i + 1))));
        }
        i += 1;
    }
    assert(excluded@.take(i as int) =~= excluded@);
    Ok(values)
}

/// The group engine of a definition.
pub open spec fn definition_group_engine(
    def: TransformDefView,
    rows: Seq<RowView>,
    columns: Map<Seq<char>, ValueTypeView>,
) -> Engine {
    group_engine(
        def.fields,
        rows,
        match def.key_space {
            KeySpaceView::Aggregate { group_by } => key_columns(group_by),
            KeySpaceView::OneToOne => Set::empty(),
        },
        columns,
    )
}

/// Every one of the expressions can be evaluated over a group.
spec fn all_views_foldable(args: Seq<ExprView>) -> bool {
    forall|i: int| 0 <= i < args.len() ==> foldable(#[trigger] args[i])
}

proof fn call_folds(name: Seq<char>, args: Seq<ExprView>)
    requires
        !aggregate_name(name),
    ensures
        foldable(ExprView::FunctionCall { name, args }) == all_views_foldable(args),
{
    let e = ExprView::FunctionCall { name, args };
    assert(e->args == args);
    if !all_views_foldable(args) {
        let i = choose|i: int| 0 <= i < args.len() && !foldable(#[trigger] args[i]);
        assert(!foldable(args[i]));
        assert(!foldable(e));
    }
}

fn is_foldable(expr: &Expr) -> (r: bool)
    ensures
        r == foldable(expr@),
    decreases *expr, 0nat,
{
    match expr {
        Expr::BinaryOp { op, lhs, rhs } => is_foldable(lhs) && is_foldable(rhs),
        Expr::FunctionCall { name, args } => {
            proof {
                call_view(*name, *args);
            }
            let ghost views = expr_views(args@);
            assert(expr@ == (ExprView::FunctionCall { name: name@, args: views }));
            if registry::is_aggregate_function(name.as_str()) {
                text::same(name.as_str(), "COUNT") || args.len() > 0
            } else {
                proof {
                    call_folds(name@, views);
                }
                are_foldable(args)
            }
        },
        _ => true,
    }
}

fn are_foldable(args: &Vec<Expr>) -> (r: bool)
    ensures
        r == all_views_foldable(expr_views(args@)),
    decreases *args, 1nat,
{
    let ghost all = expr_views(args@);
    let mut i: usize = 0;
    while i < args.len()
        invariant
            0 <= i <= args@.len(),
            all == expr_views(args@),
            forall|j: int| 0 <= j < i ==> foldable(#[trigger] all[j]),
        decreases args@.len() - i,
    {
        assert(all[i as int] == args@[i as int]@);
        if !is_foldable(&args[i]) {
            assert(!foldable(all[i as int]));
            return false;
        }
        i += 1;
    }
    true
}

/// Every aggregate that a group does not answer lacks its argument.
spec fn answers_folds(c: Engine) -> bool {
    &&& all_foldable(c.fields)
    &&& forall|e: ExprView, f: Seq<char>| #[trigger]
        (c.given)(e, f) is None ==> !(e is FunctionCall && aggregate_name(e->name) && foldable(e))
}

proof fn field_can_fold(c: Engine, i: int, path: Set<Seq<char>>, values: Values)
    requires
        answers_folds(c),
        0 <= i < c.fields.len(),
    ensures
        field_folds(c, i, path, values),
    decreases open_fields(c.fields, path), 0nat, c.fields[i].expr, 0nat,
{
    let f = c.fields[i];
    if !values.contains_key(f.name) && !path.contains(f.name) {
        opening_shrinks(c.fields, path, i);
        expr_can_fold(c, f.expr, f.name, path.insert(f.name), values);
    }
}

proof fn expr_can_fold(
    c: Engine,
    e: ExprView,
    field: Seq<char>,
    path: Set<Seq<char>>,
    values: Values,
)
    requires
        answers_folds(c),
        foldable(e),
    ensures
        expr_folds(c, e, field, path, values),
    decreases open_fields(c.fields, path), 1nat, e, 0nat,
{
    if (c.given)(e, field) is None {
        match e {
            ExprView::Column(name) => {
                field_at_finds(c.fields, name);
                if let Some(i) = field_at(c.fields, name) {
                    field_can_fold(c, i, path, values);
                }
            },
            ExprView::BinaryOp { op, lhs, rhs } => {
                expr_can_fold(c, *lhs, field, path, values);
                if let Ok((_, vs)) = eval_expr(c, *lhs, field, path, values) {
                    expr_can_fold(c, *rhs, field, path, vs);
                }
            },
            ExprView::FunctionCall { name, args } => {
                assert(e->name == name && e->args == args);
                assert(!aggregate_name(name));
                call_folds(name, args);
                if name == "COALESCE"@ {
                    first_can_fold(c, args, 0, field, path, values);
                } else {
                    args_can_fold(c, args, 0, field, path, values);
                }
            },
            _ => {},
        }
    }
}

proof fn first_can_fold(
    c: Engine,
    args: Seq<ExprView>,
    k: nat,
    field: Seq<char>,
    path: Set<Seq<char>>,
    values: Values,
)
    requires
        answers_folds(c),
        all_views_foldable(args),
    ensures
        first_folds(c, args, k, field, path, values),
    decreases open_fields(c.fields, path), 1nat, args, args.len() - k,
{
    if k < args.len() {
        expr_can_fold(c, args[k as int], field, path, values);
        if let Ok((_, vs)) = eval_expr(c, args[k as int], field, path, values) {
            first_can_fold(c, args, k + 1, field, path, vs);
        }
    }
}

proof fn args_can_fold(
    c: Engine,
    args: Seq<ExprView>,
    k: nat,
    field: Seq<char>,
    path: Set<Seq<char>>,
    values: Values,
)
    requires
        answers_folds(c),
        all_views_foldable(args),
    ensures
        args_fold(c, args, k, field, path, values),
    decreases open_fields(c.fields, path), 1nat, args, args.len() - k,
{
    if k < args.len() {
        expr_can_fold(c, args[k as int], field, path, values);
        if let Ok((_, vs)) = eval_expr(c, args[k as int], field, path, values) {
            args_can_fold(c, args, k + 1, field, path, vs);
        }
    }
}

proof fn rest_can_fold(c: Engine, i: nat, values: Values)
    requires
        answers_folds(c),
    ensures
        folds_from(c, i, values),
    decreases c.fields.len() - i,
{
    if i < c.fields.len() {
        field_can_fold(c, i as int, Set::empty(), values);
        if let Ok((_, vs)) = eval_field(c, i as int, Set::empty(), values) {
            rest_can_fold(c, i + 1, vs);
        }
    }
}

/// Where every aggregate but `COUNT` has an argument, none that lacks one is
/// met over any group.
pub proof fn foldable_definitions_are_clear(
    def: TransformDefView,
    rows: Seq<RowView>,
    columns: Map<Seq<char>, ValueTypeView>,
)
    requires
        all_foldable(def.fields),
    ensures
        folding_is_clear(definition_group_engine(def, rows, columns)),
{
    reveal(folding_is_clear);
    let c = definition_group_engine(def, rows, columns);
    assert forall|e: ExprView, f: Seq<char>| #[trigger] (c.given)(e, f) is None implies !(
    e is FunctionCall && aggregate_name(e->name) && foldable(e)) by {
        if let ExprView::FunctionCall { name, args } = e {
            assert(e->name == name && e->args == args);
        }
    }
    rest_can_fold(c, 0, nulls(Set::empty()));
}

/// Whether every aggregate but `COUNT` has an argument in the definition's
/// fields, which can then be evaluated over any group.
pub fn can_be_folded(def: &TransformDef) -> (r: bool)
    ensures
        r == all_foldable(def@.fields),
        r ==> forall|rows: Seq<RowView>, columns: Map<Seq<char>, ValueTypeView>|
            folding_is_clear(#[trigger] definition_group_engine(def@, rows, columns)),
{
    let ghost fs = field_views(def.fields@);
    let mut i: usize = 0;
    while i < def.fields.len()
        invariant
            0 <= i <= def.fields@.len(),
            fs == field_views(def.fields@),
            forall|j: int| 0 <= j < i ==> foldable(#[trigger] fs[j].expr),
        decreases def.fields@.len() - i,
    {
        assert(fs[i as int] == def.fields@[i as int]@);
        if !is_foldable(&def.fields[i].expr) {
            assert(!foldable(fs[i as int].expr));
            return false;
        }
        i += 1;
    }
    proof {
        assert forall|rows: Seq<RowView>, columns: Map<Seq<char>, ValueTypeView>|
            folding_is_clear(#[trigger] definition_group_engine(def@, rows, columns)) by {
            foldable_definitions_are_clear(def@, rows, columns);
        }
    }
    true
}

/// The value of every calculated field over a group of rows.
pub fn evaluate_aggregate(
    def: &TransformDef,
    rows: &[Row],
    source_columns: &NameMap<ValueType>,
    regex_cache: &mut RegexCache,
) -> (r: Result<NameMap<Option<Value>>, EvalError>)
    requires
        def@.key_space is Aggregate,
        rows@.len() > 0,
        folding_is_clear(
            definition_group_engine(def@, row_views(rows@), types_view(source_columns@)),
        ),
    ensures
        gives(
            r,
            field_values(
                definition_group_engine(def@, row_views(rows@), types_view(source_columns@)),
                Set::empty(),
            ),
        ),
        final(regex_cache).after_meeting(
            *old(regex_cache),
            patterns_met(
                definition_group_engine(def@, row_views(rows@), types_view(source_columns@)),
                Set::empty(),
            ),
        ),
{
    let none: Vec<GroupByKey> = Vec::new();
    let keys = match &def.key_space {
        KeySpace::Aggregate { group_by } => group_by,
        KeySpace::OneToOne => &none,
    };
    let evaluator = Evaluator {
        fields: &def.fields,
        columns: source_columns,
        source: Source::Group { rows, keys },
        values: NameMap::new(),
        path: Vec::new(),
    };
    proof {
        assert(evaluator.known() =~= nulls(Set::empty()));
    }
    match evaluator.run(regex_cache) {
        Ok(values) => {
            assert(values_view(values@).remove_keys(Set::empty()) =~= values_view(values@));
            Ok(values)
        },
        Err(e) => Err(e),
    }
}

impl<'a> Evaluator<'a> {
    /// The value of every field, and those known before.
    fn run(self, cache: &mut RegexCache) -> (r: Result<NameMap<Option<Value>>, EvalError>)
        requires
            self.ok(),
            self.path@.len() == 0,
        ensures
            gives(r, eval_from(self.engine(), 0, self.known())),
            final(cache).after_meeting(*old(cache), patterns_from(self.engine(), 0, self.known())),
    {
        let ghost c = self.engine();
        let ghost known = self.known();
        let fields = self.fields;
        let mut evaluator = self;
        let ghost mut met: Set<Seq<char>> = Set::empty();
        proof {
            nothing_is_met(*cache);
            assert(met.union(patterns_from(c, 0, known)) =~= patterns_from(c, 0, known));
        }
        let mut i: usize = 0;
        while i < fields.len()
            invariant
                0 <= i <= fields@.len(),
                c == self.engine(),
                c.fields.len() == fields@.len(),
                known == self.known(),
                evaluator.ok(),
                evaluator.engine() == c,
                evaluator.fields == fields,
                evaluator.columns == self.columns,
                evaluator.source == self.source,
                evaluator.path@.len() == 0,
                cache.after_meeting(*old(cache), met),
                patterns_from(c, 0, known) == met.union(
                    patterns_from(c, i as nat, evaluator.known()),
                ),
                eval_from(c, 0, known) == eval_from(c, i as nat, evaluator.known()),
            decreases fields@.len() - i,
        {
            proof {
                assert(evaluator.on_path() =~= Set::empty());
            }
            let ghost so_far = *cache;
            let ghost here = field_patterns(c, i as int, Set::empty(), evaluator.known());
            let r = evaluator.eval_field(i, cache);
            proof {
                meetings_add_up(*old(cache), so_far, *cache, met, here);
                assert(here.union(Set::empty()) =~= here);
            }
            match r {
                Ok(_) => {},
                Err(e) => {
                    return Err(e);
                },
            }
            proof {
                let rest = patterns_from(c, (i + 1) as nat, evaluator.known());
                assert(met.union(here.union(rest)) =~= met.union(here).union(rest));
                met = met.union(here);
            }
            i += 1;
        }
        assert(met.union(Set::empty()) =~= met);
        Ok(evaluator.values)
    }
}

// ---------------------------------------------------------------------------
// Relationships that a definition follows
// ---------------------------------------------------------------------------

/// The relationship paths in an expression, in order.
pub open spec fn path_references(e: ExprView) -> Seq<(Seq<char>, Seq<char>)>
    decreases e,
{
    match e {
        ExprView::RelationshipPath { rel, column } => seq![(rel, column)],
        ExprView::BinaryOp { op, lhs, rhs } => path_references(*lhs) + path_references(*rhs),
        ExprView::FunctionCall { name, args } => path_references_of_all(args),
        _ => seq![],
    }
}

/// The relationship paths in a list of expressions, in order.
pub open spec fn path_references_of_all(es: Seq<ExprView>) -> Seq<(Seq<char>, Seq<char>)>
    decreases es,
{
    if es.len() == 0 {
        seq![]
    } else {
        path_references_of_all(es.drop_last()) + path_references(es[es.len() - 1])
    }
}

/// The relationship paths in the fields, in order.
pub open spec fn field_path_references(fields: Seq<FieldDefView>) -> Seq<(Seq<char>, Seq<char>)>
    decreases fields.len(),
{
    if fields.len() == 0 {
        seq![]
    } else {
        field_path_references(fields.drop_last()) + path_references(fields.last().expr)
    }
}

/// The relationship paths among the keys, in order.
pub open spec fn key_path_references(keys: Seq<GroupByKeyView>) -> Seq<(Seq<char>, Seq<char>)>
    decreases keys.len(),
{
    if keys.len() == 0 {
        seq![]
    } else {
        match keys.last() {
            GroupByKeyView::RelationshipPath { rel, column } => key_path_references(
                keys.drop_last(),
            ).push((rel, column)),
            GroupByKeyView::Column(_) => key_path_references(keys.drop_last()),
        }
    }
}

/// The relationship paths of a definition: those of its fields, and behind
/// them those that it groups by.
pub open spec fn definition_path_references(def: TransformDefView) -> Seq<
    (Seq<char>, Seq<char>),
> {
    field_path_references(def.fields) + (match def.key_space {
        KeySpaceView::Aggregate { group_by } => key_path_references(group_by),
        KeySpaceView::OneToOne => seq![],
    })
}

/// The views of a list of pairs of names.
pub open spec fn pair_views(s: Seq<(String, String)>) -> Seq<(Seq<char>, Seq<char>)> {
    s.map_values(|p: (String, String)| (p.0@, p.1@))
}

/// The relationship paths of a definition, each as the relationship's name and
/// the column; one that occurs twice is listed twice.
pub fn relationship_references(def: &TransformDef) -> (r: Vec<(String, String)>)
    ensures
        pair_views(r@) == definition_path_references(def@),
{
    let ghost fs = def@.fields;
    let mut refs: Vec<(String, String)> = Vec::new();
    assert(pair_views(refs@) =~= seq![]);
    let mut i: usize = 0;
    while i < def.fields.len()
        invariant
            0 <= i <= def.fields@.len(),
            fs == def@.fields,
            fs.len() == def.fields@.len(),
            pair_views(refs@) == field_path_references(fs.take(i as int)),
        decreases def.fields@.len() - i,
    {
        collect_relationship_refs(&def.fields[i].expr, &mut refs);
        proof {
            assert(fs[i as int] == def.fields@[i as int]@);
            assert(fs.take(i + 1).drop_last() =~= fs.take(i as int));
        }
        i += 1;
    }
    assert(fs.take(i as int) =~= fs);
    if let KeySpace::Aggregate { group_by } = &def.key_space {
        let ghost ks = key_views(group_by@);
        let ghost before = pair_views(refs@);
        assert(before + key_path_references(ks.take(0)) =~= before);
        let mut i: usize = 0;
        while i < group_by.len()
            invariant
                0 <= i <= group_by@.len(),
                ks == key_views(group_by@),
                pair_views(refs@) == before + key_path_references(ks.take(i as int)),
            decreases group_by@.len() - i,
        {
            proof {
                assert(ks[i as int] == group_by@[i as int]@);
                assert(ks.take(i + 1).drop_last() =~= ks.take(i as int));
            }
            if let GroupByKey::RelationshipPath { rel, column } = &group_by[i] {
                let ghost so_far = refs@;
                refs.push((rel.clone(), column.clone()));
                assert(pair_views(refs@) =~= pair_views(so_far).push((rel@, column@)));
                assert(pair_views(refs@) =~= before + key_path_references(ks.take(i + 1)));
            }
            i += 1;
        }
        assert(ks.take(i as int) =~= ks);
    } else {
        assert(pair_views(refs@) =~= pair_views(refs@) + seq![]);
    }
    refs
}

fn collect_relationship_refs(expr: &Expr, out: &mut Vec<(String, String)>)
    ensures
        pair_views(final(out)@) == pair_views(old(out)@) + path_references(expr@),
    decreases *expr, 0nat,
{
    let ghost before = pair_views(out@);
    match expr {
        Expr::RelationshipPath { rel, column } => {
            out.push((rel.clone(), column.clone()));
            assert(pair_views(out@) =~= before + seq![(rel@, column@)]);
        },
        Expr::BinaryOp { lhs, rhs, .. } => {
            collect_relationship_refs(lhs, out);
            collect_relationship_refs(rhs, out);
            assert(pair_views(out@) =~= before + path_references(expr@));
        },
        Expr::FunctionCall { name, args } => {
            proof {
                call_view(*name, *args);
            }
            collect_relationship_refs_of_all(args, out);
        },
        _ => {
            assert(pair_views(out@) =~= before + seq![]);
        },
    }
}

fn collect_relationship_refs_of_all(args: &Vec<Expr>, out: &mut Vec<(String, String)>)
    ensures
        pair_views(final(out)@) == pair_views(old(out)@) + path_references_of_all(
            expr_views(args@),
        ),
    decreases *args, 1nat,
{
    let ghost before = pair_views(out@);
    let ghost all = expr_views(args@);
    assert(pair_views(out@) =~= before + path_references_of_all(all.take(0)));
    let mut i: usize = 0;
    while i < args.len()
        invariant
            0 <= i <= args@.len(),
            all == expr_views(args@),
            pair_views(out@) == before + path_references_of_all(all.take(i as int)),
        decreases args@.len() - i,
    {
        collect_relationship_refs(&args[i], out);
        proof {
            let next = all.take(i + 1);
            assert(next.drop_last() =~= all.take(i as int));
            assert(next[next.len() - 1] == args@[i as int]@);
            assert(pair_views(out@) =~= before + path_references_of_all(next));
        }
        i += 1;
    }
    assert(all.take(i as int) =~= all);
}

} // verus!
