//! What holds of evaluation whatever the names of the fields are, also where
//! two fields share one.

use vstd::prelude::*;

use crate::defs::ast::{ExprView, FieldDefView, TransformDefView, ValueTypeView};
use crate::defs::deps::{field_at, field_at_finds, is_field, open_fields, opening_shrinks};
use crate::defs::eval::{
    definition_engine, definition_group_engine, eval_args, eval_expr, eval_field, eval_first,
    eval_from, field_values, nulls, row_engine, row_given, over_row, values_over_rows, Engine,
    Values,
};
use crate::defs::eval_laws::keeps;
use crate::defs::relationship_data::{
    cells, filled, no_relationships, related_rows, ContextView, RowView,
};
use crate::defs::value::{EvalErrorView, ValueView};

verus! {

// ---------------------------------------------------------------------------
// What becomes known, and what errors name
// ---------------------------------------------------------------------------

/// An error in answering an expression of the field `f` names `f`, or another
/// field.
spec fn names_fields(c: Engine) -> bool {
    forall|e: ExprView, f: Seq<char>|
        #![trigger (c.given)(e, f)]
        (c.given)(e, f) matches Some(Err(x)) ==> x.field() == f || is_field(c.fields, x.field())
}

/// Nothing that was known is lost, and what became known are fields.
spec fn learns(c: Engine, before: Values, after: Values) -> bool {
    &&& keeps(before, after)
    &&& forall|n: Seq<char>| #[trigger]
        after.contains_key(n) ==> before.contains_key(n) || is_field(c.fields, n)
}

spec fn blames(c: Engine, x: EvalErrorView, field: Seq<char>) -> bool {
    names_fields(c) ==> x.field() == field || is_field(c.fields, x.field())
}

proof fn field_learns(c: Engine, i: int, path: Set<Seq<char>>, values: Values)
    requires
        0 <= i < c.fields.len(),
    ensures
        match eval_field(c, i, path, values) {
            Ok((_, vs)) => learns(c, values, vs) && vs.contains_key(c.fields[i].name),
            Err(x) => blames(c, x, c.fields[i].name),
        },
    decreases open_fields(c.fields, path), 0nat, c.fields[i].expr, 0nat,
{
    let f = c.fields[i];
    assert(is_field(c.fields, f.name));
    if !values.contains_key(f.name) && !path.contains(f.name) {
        opening_shrinks(c.fields, path, i);
        expr_learns(c, f.expr, f.name, path.insert(f.name), values);
        if let Ok((v, vs)) = eval_expr(c, f.expr, f.name, path.insert(f.name), values) {
            let after = vs.insert(f.name, v);
            assert forall|n: Seq<char>| #[trigger] values.contains_key(n) implies after.contains_key(
                n,
            ) && after[n] == values[n] by {
                assert(vs.contains_key(n));
            }
        }
    }
}

proof fn expr_learns(
    c: Engine,
    e: ExprView,
    field: Seq<char>,
    path: Set<Seq<char>>,
    values: Values,
)
    ensures
        match eval_expr(c, e, field, path, values) {
            Ok((_, vs)) => learns(c, values, vs),
            Err(x) => blames(c, x, field),
        },
    decreases open_fields(c.fields, path), 1nat, e, 0nat,
{
    if (c.given)(e, field) is None {
        match e {
            ExprView::Column(name) => {
                field_at_finds(c.fields, name);
                if let Some(i) = field_at(c.fields, name) {
                    field_learns(c, i, path, values);
                }
            },
            ExprView::BinaryOp { op, lhs, rhs } => {
                expr_learns(c, *lhs, field, path, values);
                if let Ok((_, vs)) = eval_expr(c, *lhs, field, path, values) {
                    expr_learns(c, *rhs, field, path, vs);
                }
            },
            ExprView::FunctionCall { name, args } => {
                if name == "COALESCE"@ {
                    first_learns(c, args, 0, field, path, values);
                } else {
                    args_learn(c, args, 0, field, path, values, seq![]);
                }
            },
            _ => {},
        }
    }
}

proof fn first_learns(
    c: Engine,
    args: Seq<ExprView>,
    k: nat,
    field: Seq<char>,
    path: Set<Seq<char>>,
    values: Values,
)
    ensures
        match eval_first(c, args, k, field, path, values) {
            Ok((_, vs)) => learns(c, values, vs),
            Err(x) => blames(c, x, field),
        },
    decreases open_fields(c.fields, path), 1nat, args, args.len() - k,
{
    if k < args.len() {
        expr_learns(c, args[k as int], field, path, values);
        if let Ok((None, vs)) = eval_expr(c, args[k as int], field, path, values) {
            first_learns(c, args, k + 1, field, path, vs);
        }
    }
}

proof fn args_learn(
    c: Engine,
    args: Seq<ExprView>,
    k: nat,
    field: Seq<char>,
    path: Set<Seq<char>>,
    values: Values,
    acc: Seq<Option<ValueView>>,
)
    ensures
        match eval_args(c, args, k, field, path, values, acc) {
            Ok((_, vs)) => learns(c, values, vs),
            Err(x) => blames(c, x, field),
        },
    decreases open_fields(c.fields, path), 1nat, args, args.len() - k,
{
    if k < args.len() {
        expr_learns(c, args[k as int], field, path, values);
        if let Ok((v, vs)) = eval_expr(c, args[k as int], field, path, values) {
            args_learn(c, args, k + 1, field, path, vs, acc.push(v));
        }
    }
}

proof fn rest_learns(c: Engine, i: nat, values: Values)
    requires
        i <= c.fields.len(),
        forall|j: int| 0 <= j < i ==> values.contains_key(#[trigger] c.fields[j].name),
    ensures
        match eval_from(c, i, values) {
            Ok(vs) => learns(c, values, vs) && forall|j: int|
                0 <= j < c.fields.len() ==> vs.contains_key(#[trigger] c.fields[j].name),
            Err(x) => names_fields(c) ==> is_field(c.fields, x.field()),
        },
    decreases c.fields.len() - i,
{
    if i < c.fields.len() {
        assert(is_field(c.fields, c.fields[i as int].name));
        field_learns(c, i as int, Set::empty(), values);
        if let Ok((_, vs)) = eval_field(c, i as int, Set::empty(), values) {
            assert forall|j: int| 0 <= j < i + 1 implies vs.contains_key(
                #[trigger] c.fields[j].name,
            ) by {
                if j < i {
                    assert(values.contains_key(c.fields[j].name));
                }
            }
            rest_learns(c, i + 1, vs);
        }
    }
}

/// What evaluation gives values to are exactly the fields that are not
/// excluded: an excluded field is absent, not null.
pub proof fn results_are_the_fields_not_excluded(c: Engine, excluded: Set<Seq<char>>)
    ensures
        field_values(c, excluded) matches Ok(values) ==> forall|n: Seq<char>| #[trigger]
            values.contains_key(n) <==> is_field(c.fields, n) && !excluded.contains(n),
{
    rest_learns(c, 0, nulls(excluded));
    if let Ok(vs) = eval_from(c, 0, nulls(excluded)) {
        let values = vs.remove_keys(excluded);
        assert forall|n: Seq<char>| #[trigger]
            values.contains_key(n) <==> is_field(c.fields, n) && !excluded.contains(n) by {
            if is_field(c.fields, n) {
                let j = choose|j: int| 0 <= j < c.fields.len() && #[trigger] c.fields[j].name == n;
                assert(vs.contains_key(c.fields[j].name));
            }
        }
    }
}

// ---------------------------------------------------------------------------
// Errors
// ---------------------------------------------------------------------------

proof fn related_errors_name_the_field(
    rows: Seq<RowView>,
    columns: Map<Seq<char>, ValueTypeView>,
    field: Seq<char>,
    column: Seq<char>,
)
    ensures
        cells(rows, columns, field, column) matches Err(x) ==> x.field() == field,
        filled(rows, field, column) matches Err(x) ==> x.field() == field,
    decreases rows.len(),
{
    if rows.len() > 0 {
        related_errors_name_the_field(rows.drop_last(), columns, field, column);
    }
}

proof fn rows_name_fields(
    fields: Seq<FieldDefView>,
    row: RowView,
    columns: Map<Seq<char>, ValueTypeView>,
    context: ContextView,
)
    ensures
        names_fields(row_engine(fields, row, columns, context)),
{
    let c = row_engine(fields, row, columns, context);
    assert forall|e: ExprView, f: Seq<char>|
        #![trigger (c.given)(e, f)]
        (c.given)(e, f) matches Some(Err(x)) ==> x.field() == f || is_field(c.fields, x.field()) by {
        assert((c.given)(e, f) == row_given(fields, row, columns, context, e, f));
        if let ExprView::FunctionCall { name, args } = e {
            if let ExprView::RelationshipPath { rel, column } = args[0] {
                let data = context.to_many[rel];
                if let Ok(rows) = related_rows(row, data, f) {
                    related_errors_name_the_field(rows, data.to_columns, f, column);
                }
            }
        }
    }
}

proof fn folded_rows_name_fields(
    fields: Seq<FieldDefView>,
    rows: Seq<RowView>,
    columns: Map<Seq<char>, ValueTypeView>,
    arg: ExprView,
    field: Seq<char>,
)
    ensures
        values_over_rows(fields, rows, columns, arg, field) matches Err(x) ==> x.field() == field
            || is_field(fields, x.field()),
    decreases rows.len(),
{
    reveal(over_row);
    if rows.len() > 0 {
        folded_rows_name_fields(fields, rows.drop_last(), columns, arg, field);
        rows_name_fields(fields, rows.last(), columns, no_relationships());
        expr_learns(
            row_engine(fields, rows.last(), columns, no_relationships()),
            arg,
            field,
            Set::empty(),
            Map::empty(),
        );
    }
}

/// The error of an evaluation over a row names a field of the definition.
pub proof fn errors_name_a_field(
    def: TransformDefView,
    row: RowView,
    columns: Map<Seq<char>, ValueTypeView>,
    context: ContextView,
    excluded: Set<Seq<char>>,
)
    ensures
        field_values(definition_engine(def, row, columns, context), excluded) matches Err(x)
            ==> is_field(def.fields, x.field()),
{
    let c = definition_engine(def, row, columns, context);
    rows_name_fields(def.fields, row, columns, context);
    rest_learns(c, 0, nulls(excluded));
}

/// The error of an evaluation over a group names a field of the definition.
pub proof fn group_errors_name_a_field(
    def: TransformDefView,
    rows: Seq<RowView>,
    columns: Map<Seq<char>, ValueTypeView>,
    excluded: Set<Seq<char>>,
)
    ensures
        field_values(definition_group_engine(def, rows, columns), excluded) matches Err(x)
            ==> is_field(def.fields, x.field()),
{
    let c = definition_group_engine(def, rows, columns);
    assert forall|e: ExprView, f: Seq<char>|
        #![trigger (c.given)(e, f)]
        (c.given)(e, f) matches Some(Err(x)) ==> x.field() == f || is_field(c.fields, x.field()) by {
        if let ExprView::FunctionCall { name, args } = e {
            folded_rows_name_fields(def.fields, rows, columns, args[0], f);
        }
    }
    rest_learns(c, 0, nulls(excluded));
}

// ---------------------------------------------------------------------------
// Excluded fields
// ---------------------------------------------------------------------------

/// The names of `excluded` are known, and null.
pub open spec fn knows_nulls(values: Values, excluded: Set<Seq<char>>) -> bool {
    forall|n: Seq<char>| #[trigger]
        excluded.contains(n) ==> values.contains_key(n) && values[n] is None
}

/// A field that refers to an excluded one reads null for it, and evaluating
/// on from there the excluded ones stay known as null.
pub proof fn excluded_fields_read_as_null(
    c: Engine,
    excluded: Set<Seq<char>>,
    i: int,
    path: Set<Seq<char>>,
    values: Values,
)
    requires
        0 <= i < c.fields.len(),
        knows_nulls(values, excluded),
    ensures
        excluded.contains(c.fields[i].name) ==> eval_field(c, i, path, values) == Ok::<
            (Option<ValueView>, Values),
            EvalErrorView,
        >((None, values)),
        eval_field(c, i, path, values) matches Ok((_, vs)) ==> knows_nulls(vs, excluded),
        knows_nulls(nulls(excluded), excluded),
{
    field_learns(c, i, path, values);
    if let Ok((_, vs)) = eval_field(c, i, path, values) {
        assert forall|n: Seq<char>| #[trigger] excluded.contains(n) implies vs.contains_key(n)
            && vs[n] is None by {
            assert(values.contains_key(n));
        }
    }
}

/// Two engines answer alike, and their fields have the same names and, but
/// for the excluded ones, the same expressions.
pub open spec fn differ_in_excluded(a: Engine, b: Engine, excluded: Set<Seq<char>>) -> bool {
    &&& a.given == b.given
    &&& a.fields.len() == b.fields.len()
    &&& forall|i: int|
        0 <= i < a.fields.len() ==> (#[trigger] a.fields[i]).name == b.fields[i].name
    &&& forall|i: int|
        0 <= i < a.fields.len() && !excluded.contains((#[trigger] a.fields[i]).name)
            ==> a.fields[i].expr == b.fields[i].expr
}

proof fn same_place(a: Seq<FieldDefView>, b: Seq<FieldDefView>, n: Seq<char>)
    requires
        a.len() == b.len(),
        forall|i: int| 0 <= i < a.len() ==> (#[trigger] a[i]).name == b[i].name,
    ensures
        field_at(a, n) == field_at(b, n),
    decreases a.len(),
{
    if a.len() > 0 {
        assert(a.last().name == b.last().name);
        assert forall|i: int| 0 <= i < a.drop_last().len() implies (#[trigger] a.drop_last()[i]).name
            == b.drop_last()[i].name by {
            assert(a[i].name == b[i].name);
        }
        same_place(a.drop_last(), b.drop_last(), n);
    }
}

proof fn field_ignores(
    a: Engine,
    b: Engine,
    excluded: Set<Seq<char>>,
    i: int,
    path: Set<Seq<char>>,
    values: Values,
)
    requires
        differ_in_excluded(a, b, excluded),
        knows_nulls(values, excluded),
        0 <= i < a.fields.len(),
    ensures
        eval_field(a, i, path, values) == eval_field(b, i, path, values),
        eval_field(a, i, path, values) matches Ok((_, vs)) ==> knows_nulls(vs, excluded),
    decreases open_fields(a.fields, path), 0nat, a.fields[i].expr, 0nat,
{
    let f = a.fields[i];
    excluded_fields_read_as_null(a, excluded, i, path, values);
    assert(b.fields[i].name == f.name);
    if !values.contains_key(f.name) && !path.contains(f.name) {
        assert(!excluded.contains(f.name));
        assert(b.fields[i].expr == f.expr);
        opening_shrinks(a.fields, path, i);
        expr_ignores(a, b, excluded, f.expr, f.name, path.insert(f.name), values);
    }
}

proof fn expr_ignores(
    a: Engine,
    b: Engine,
    excluded: Set<Seq<char>>,
    e: ExprView,
    field: Seq<char>,
    path: Set<Seq<char>>,
    values: Values,
)
    requires
        differ_in_excluded(a, b, excluded),
        knows_nulls(values, excluded),
    ensures
        eval_expr(a, e, field, path, values) == eval_expr(b, e, field, path, values),
        eval_expr(a, e, field, path, values) matches Ok((_, vs)) ==> knows_nulls(vs, excluded),
    decreases open_fields(a.fields, path), 1nat, e, 0nat,
{
    if (a.given)(e, field) is None {
        match e {
            ExprView::Column(name) => {
                field_at_finds(a.fields, name);
                same_place(a.fields, b.fields, name);
                if let Some(i) = field_at(a.fields, name) {
                    field_ignores(a, b, excluded, i, path, values);
                }
            },
            ExprView::BinaryOp { op, lhs, rhs } => {
                expr_ignores(a, b, excluded, *lhs, field, path, values);
                if let Ok((_, vs)) = eval_expr(a, *lhs, field, path, values) {
                    expr_ignores(a, b, excluded, *rhs, field, path, vs);
                }
            },
            ExprView::FunctionCall { name, args } => {
                if name == "COALESCE"@ {
                    first_ignores(a, b, excluded, args, 0, field, path, values);
                } else {
                    args_ignore(a, b, excluded, args, 0, field, path, values, seq![]);
                }
            },
            _ => {},
        }
    }
}

proof fn first_ignores(
    a: Engine,
    b: Engine,
    excluded: Set<Seq<char>>,
    args: Seq<ExprView>,
    k: nat,
    field: Seq<char>,
    path: Set<Seq<char>>,
    values: Values,
)
    requires
        differ_in_excluded(a, b, excluded),
        knows_nulls(values, excluded),
    ensures
        eval_first(a, args, k, field, path, values) == eval_first(b, args, k, field, path, values),
        eval_first(a, args, k, field, path, values) matches Ok((_, vs)) ==> knows_nulls(
            vs,
            excluded,
        ),
    decreases open_fields(a.fields, path), 1nat, args, args.len() - k,
{
    if k < args.len() {
        expr_ignores(a, b, excluded, args[k as int], field, path, values);
        if let Ok((None, vs)) = eval_expr(a, args[k as int], field, path, values) {
            first_ignores(a, b, excluded, args, k + 1, field, path, vs);
        }
    }
}

proof fn args_ignore(
    a: Engine,
    b: Engine,
    excluded: Set<Seq<char>>,
    args: Seq<ExprView>,
    k: nat,
    field: Seq<char>,
    path: Set<Seq<char>>,
    values: Values,
    acc: Seq<Option<ValueView>>,
)
    requires
        differ_in_excluded(a, b, excluded),
        knows_nulls(values, excluded),
    ensures
        eval_args(a, args, k, field, path, values, acc) == eval_args(
            b,
            args,
            k,
            field,
            path,
            values,
            acc,
        ),
        eval_args(a, args, k, field, path, values, acc) matches Ok((_, vs)) ==> knows_nulls(
            vs,
            excluded,
        ),
    decreases open_fields(a.fields, path), 1nat, args, args.len() - k,
{
    if k < args.len() {
        expr_ignores(a, b, excluded, args[k as int], field, path, values);
        if let Ok((v, vs)) = eval_expr(a, args[k as int], field, path, values) {
            args_ignore(a, b, excluded, args, k + 1, field, path, vs, acc.push(v));
        }
    }
}

proof fn rest_ignores(a: Engine, b: Engine, excluded: Set<Seq<char>>, i: nat, values: Values)
    requires
        differ_in_excluded(a, b, excluded),
        knows_nulls(values, excluded),
    ensures
        eval_from(a, i, values) == eval_from(b, i, values),
    decreases a.fields.len() - i,
{
    if i < a.fields.len() {
        field_ignores(a, b, excluded, i as int, Set::empty(), values);
        if let Ok((_, vs)) = eval_field(a, i as int, Set::empty(), values) {
            rest_ignores(a, b, excluded, i + 1, vs);
        }
    }
}

/// How the excluded fields are defined makes no difference over a row: the
/// others have the same values, and no error comes from an excluded field.
pub proof fn excluded_expressions_make_no_difference(
    a: TransformDefView,
    b: TransformDefView,
    row: RowView,
    columns: Map<Seq<char>, ValueTypeView>,
    context: ContextView,
    excluded: Set<Seq<char>>,
)
    requires
        a.fields.len() == b.fields.len(),
        forall|i: int|
            0 <= i < a.fields.len() ==> (#[trigger] a.fields[i]).name == b.fields[i].name,
        forall|i: int|
            0 <= i < a.fields.len() && !excluded.contains((#[trigger] a.fields[i]).name)
                ==> a.fields[i].expr == b.fields[i].expr,
    ensures
        field_values(definition_engine(a, row, columns, context), excluded) == field_values(
            definition_engine(b, row, columns, context),
            excluded,
        ),
{
    let x = definition_engine(a, row, columns, context);
    let y = definition_engine(b, row, columns, context);
    assert forall|e: ExprView, f: Seq<char>| #[trigger] (x.given)(e, f) == (y.given)(e, f) by {
        if let ExprView::Column(name) = e {
            same_place(a.fields, b.fields, name);
        }
    }
    assert(x.given =~= y.given);
    rest_ignores(x, y, excluded, 0, nulls(excluded));
}

} // verus!
