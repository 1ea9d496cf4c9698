//! Definitions that read no float, whose values do not depend on the order of
//! rows.

use vstd::prelude::*;

use crate::defs::ast::{ExprView, FieldDefView, ValueTypeView};
use crate::defs::builtins::has_float;
use crate::defs::deps::{field_at, field_at_finds, open_fields, opening_shrinks};
use crate::defs::eval::{
    eval_args, eval_expr, eval_field, eval_first, over_row, row_engine, values_over_rows, Engine,
    Values,
};
use crate::defs::registry::aggregate_name;
use crate::defs::relationship_data::{no_relationships, RowView};
use crate::defs::row_order_laws::{all_fold_freely, folds_freely};
use crate::defs::value::ValueView;

verus! {

/// The value is no float.
spec fn exact_value(v: Option<ValueView>) -> bool {
    v matches Some(x) ==> !(x is Float)
}

/// No column or literal of the expression is a float.
pub open spec fn exact_expr(columns: Map<Seq<char>, ValueTypeView>, e: ExprView) -> bool
    decreases e,
{
    match e {
        ExprView::Column(name) => columns.contains_key(name) ==> !(columns[name] is Float),
        ExprView::TypedLiteral { value_type, text } => !(value_type is Float),
        ExprView::BinaryOp { op, lhs, rhs } => exact_expr(columns, *lhs) && exact_expr(
            columns,
            *rhs,
        ),
        ExprView::FunctionCall { name, args } => forall|i: int|
            0 <= i < args.len() ==> exact_expr(columns, #[trigger] args[i]),
        _ => true,
    }
}

/// No field reads a column or holds a literal that is a float.
pub open spec fn without_floats(
    fields: Seq<FieldDefView>,
    columns: Map<Seq<char>, ValueTypeView>,
) -> bool {
    forall|i: int| 0 <= i < fields.len() ==> exact_expr(columns, (#[trigger] fields[i]).expr)
}

spec fn exact_values(values: Values) -> bool {
    forall|n: Seq<char>| #[trigger] values.contains_key(n) ==> exact_value(values[n])
}

/// What is answered of expressions that read no float is no float.
spec fn answers_exactly(c: Engine, columns: Map<Seq<char>, ValueTypeView>) -> bool {
    &&& forall|i: int|
        0 <= i < c.fields.len() ==> exact_expr(columns, (#[trigger] c.fields[i]).expr)
    &&& forall|e: ExprView, f: Seq<char>|
        #![trigger (c.given)(e, f)]
        exact_expr(columns, e) ==> ((c.given)(e, f) matches Some(Ok(v)) ==> exact_value(v))
}

proof fn field_is_exact(
    c: Engine,
    columns: Map<Seq<char>, ValueTypeView>,
    i: int,
    path: Set<Seq<char>>,
    values: Values,
)
    requires
        answers_exactly(c, columns),
        exact_values(values),
        0 <= i < c.fields.len(),
    ensures
        eval_field(c, i, path, values) matches Ok((v, vs)) ==> exact_value(v) && exact_values(vs),
    decreases open_fields(c.fields, path), 0nat, c.fields[i].expr, 0nat,
{
    let f = c.fields[i];
    if !values.contains_key(f.name) && !path.contains(f.name) {
        opening_shrinks(c.fields, path, i);
        expr_is_exact(c, columns, f.expr, f.name, path.insert(f.name), values);
    }
}

proof fn expr_is_exact(
    c: Engine,
    columns: Map<Seq<char>, ValueTypeView>,
    e: ExprView,
    field: Seq<char>,
    path: Set<Seq<char>>,
    values: Values,
)
    requires
        answers_exactly(c, columns),
        exact_values(values),
        exact_expr(columns, e),
    ensures
        eval_expr(c, e, field, path, values) matches Ok((v, vs)) ==> exact_value(v)
            && exact_values(vs),
    decreases open_fields(c.fields, path), 1nat, e, 0nat,
{
    if (c.given)(e, field) is None {
        match e {
            ExprView::Column(name) => {
                field_at_finds(c.fields, name);
                if let Some(i) = field_at(c.fields, name) {
                    field_is_exact(c, columns, i, path, values);
                }
            },
            ExprView::BinaryOp { op, lhs, rhs } => {
                expr_is_exact(c, columns, *lhs, field, path, values);
                if let Ok((_, vs)) = eval_expr(c, *lhs, field, path, values) {
                    expr_is_exact(c, columns, *rhs, field, path, vs);
                }
            },
            ExprView::FunctionCall { name, args } => {
                if name == "COALESCE"@ {
                    first_is_exact(c, columns, args, 0, field, path, values);
                } else {
                    args_are_exact(c, columns, args, 0, field, path, values, seq![]);
                }
            },
            _ => {},
        }
    }
}

proof fn first_is_exact(
    c: Engine,
    columns: Map<Seq<char>, ValueTypeView>,
    args: Seq<ExprView>,
    k: nat,
    field: Seq<char>,
    path: Set<Seq<char>>,
    values: Values,
)
    requires
        answers_exactly(c, columns),
        exact_values(values),
        forall|i: int| 0 <= i < args.len() ==> exact_expr(columns, #[trigger] args[i]),
    ensures
        eval_first(c, args, k, field, path, values) matches Ok((v, vs)) ==> exact_value(v)
            && exact_values(vs),
    decreases open_fields(c.fields, path), 1nat, args, args.len() - k,
{
    if k < args.len() {
        expr_is_exact(c, columns, args[k as int], field, path, values);
        if let Ok((None, vs)) = eval_expr(c, args[k as int], field, path, values) {
            first_is_exact(c, columns, args, k + 1, field, path, vs);
        }
    }
}

proof fn args_are_exact(
    c: Engine,
    columns: Map<Seq<char>, ValueTypeView>,
    args: Seq<ExprView>,
    k: nat,
    field: Seq<char>,
    path: Set<Seq<char>>,
    values: Values,
    acc: Seq<Option<ValueView>>,
)
    requires
        answers_exactly(c, columns),
        exact_values(values),
        forall|i: int| 0 <= i < args.len() ==> exact_expr(columns, #[trigger] args[i]),
    ensures
        eval_args(c, args, k, field, path, values, acc) matches Ok((_, vs)) ==> exact_values(vs),
    decreases open_fields(c.fields, path), 1nat, args, args.len() - k,
{
    if k < args.len() {
        expr_is_exact(c, columns, args[k as int], field, path, values);
        if let Ok((v, vs)) = eval_expr(c, args[k as int], field, path, values) {
            args_are_exact(c, columns, args, k + 1, field, path, vs, acc.push(v));
        }
    }
}

proof fn rows_answer_exactly(
    fields: Seq<FieldDefView>,
    row: RowView,
    columns: Map<Seq<char>, ValueTypeView>,
)
    requires
        without_floats(fields, columns),
    ensures
        answers_exactly(row_engine(fields, row, columns, no_relationships()), columns),
{
    let c = row_engine(fields, row, columns, no_relationships());
    assert forall|e: ExprView, f: Seq<char>|
        #![trigger (c.given)(e, f)]
        exact_expr(columns, e) implies ((c.given)(e, f) matches Some(Ok(v)) ==> exact_value(v)) by {
        if let ExprView::Column(name) = e {
            assert(columns.contains_key(name) ==> !(columns[name] is Float));
        }
    }
}

proof fn folds_exactly(
    fields: Seq<FieldDefView>,
    rows: Seq<RowView>,
    columns: Map<Seq<char>, ValueTypeView>,
    arg: ExprView,
    field: Seq<char>,
)
    requires
        without_floats(fields, columns),
        exact_expr(columns, arg),
    ensures
        values_over_rows(fields, rows, columns, arg, field) matches Ok(vs) ==> !has_float(vs),
    decreases rows.len(),
{
    reveal(over_row);
    if rows.len() > 0 {
        folds_exactly(fields, rows.drop_last(), columns, arg, field);
        rows_answer_exactly(fields, rows.last(), columns);
        expr_is_exact(
            row_engine(fields, rows.last(), columns, no_relationships()),
            columns,
            arg,
            field,
            Set::empty(),
            Map::empty(),
        );
        if let Ok(vs) = values_over_rows(fields, rows, columns, arg, field) {
            if let Ok(us) = values_over_rows(fields, rows.drop_last(), columns, arg, field) {
                assert forall|i: int| 0 <= i < vs.len() implies !((#[trigger] vs[i]) is Float) by {
                    if i < us.len() {
                        assert(vs[i] == us[i]);
                    }
                }
            }
        }
    }
}

proof fn expr_folds_freely(
    fields: Seq<FieldDefView>,
    rows: Seq<RowView>,
    columns: Map<Seq<char>, ValueTypeView>,
    e: ExprView,
    field: Seq<char>,
)
    requires
        without_floats(fields, columns),
        exact_expr(columns, e),
    ensures
        folds_freely(fields, rows, columns, e, field),
    decreases e,
{
    match e {
        ExprView::BinaryOp { op, lhs, rhs } => {
            expr_folds_freely(fields, rows, columns, *lhs, field);
            expr_folds_freely(fields, rows, columns, *rhs, field);
        },
        ExprView::FunctionCall { name, args } => {
            assert(e->args == args);
            if aggregate_name(name) {
                if args.len() > 0 {
                    assert(exact_expr(columns, args[0]));
                    folds_exactly(fields, rows, columns, args[0], field);
                }
            } else {
                assert forall|i: int| 0 <= i < args.len() implies folds_freely(
                    fields,
                    rows,
                    columns,
                    #[trigger] args[i],
                    field,
                ) by {
                    assert(exact_expr(columns, args[i]));
                    expr_folds_freely(fields, rows, columns, args[i], field);
                }
            }
        },
        _ => {},
    }
}

/// Where no field reads a float, every aggregate makes the same of what it
/// folds in every order, over any group.
pub proof fn definitions_without_floats_fold_freely(
    fields: Seq<FieldDefView>,
    rows: Seq<RowView>,
    columns: Map<Seq<char>, ValueTypeView>,
)
    requires
        without_floats(fields, columns),
    ensures
        all_fold_freely(fields, rows, columns),
{
    assert forall|i: int| 0 <= i < fields.len() implies folds_freely(
        fields,
        rows,
        columns,
        (#[trigger] fields[i]).expr,
        fields[i].name,
    ) by {
        assert(exact_expr(columns, fields[i].expr));
        expr_folds_freely(fields, rows, columns, fields[i].expr, fields[i].name);
    }
}

} // verus!
