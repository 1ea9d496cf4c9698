//! Typing and evaluation agree: a field of an accepted definition has a value
//! of the field's type, or null.

use vstd::prelude::*;

use crate::defs::ast::{
    ExprView, GroupByKeyView, KeySpaceView, Operator, TransformDefView, ValueTypeView,
};
use crate::defs::builtins::{
    aggregate_value, extreme_moment, extremes_are_unbeaten, function_value, has_float, intervals,
    is_text, numbers, operator_value, text_of,
};
use crate::defs::deps::{
    distinct_names, field_at, field_at_finds, is_field, open_fields, opening_shrinks,
};
use crate::defs::eval::{
    definition_engine, definition_group_engine, field_values, group_engine, key_columns,
    row_engine, to_many_value, over_row, values_over_rows, Values,
};
use crate::defs::eval_laws::{
    accepted_names_resolve, args_outcome, expr_outcome, faithful, field_outcome,
    fields_have_their_values, first_outcome, memory_of_expr, no_problem_at,
};
use crate::defs::pg_type::PgTypeView;
use crate::defs::registry::{
    aggregate_name, aggregate_named, aggregates_are_no_functions, function_named,
    functions_take_text, FunctionSpecView,
};
use crate::defs::relationship_data::{
    cells, no_relationships, related_rows, ContextView, RowView,
};
use crate::defs::typed_literal;
use crate::defs::typing::{
    common_type, field_types, operator_typing, passes_through, row_named, Scope, Types,
};
use crate::defs::typing_laws::{
    arg_types_given, common_given, type_given, types_satisfy_their_expressions,
};
use crate::defs::validate::{grouped_fields, key_for, key_problems, valid};
use crate::defs::validation_error::ValidationErrorView;
use crate::defs::value::{EvalErrorView, ValueView};
use crate::pattern::pattern_error;

verus! {

/// `v` is a value of the type `t`. Exact numbers are held as decimals, and
/// where a float is asked for a decimal can stand in, as in `COALESCE`.
pub open spec fn fits(v: ValueView, t: ValueTypeView) -> bool {
    match t {
        ValueTypeView::Integer(_) | ValueTypeView::Numeric => v is Numeric,
        ValueTypeView::Float(_) => v is Float || v is Numeric,
        ValueTypeView::Text => v is Text,
        ValueTypeView::Boolean => v is Boolean,
        ValueTypeView::Uuid => v is Uuid,
        ValueTypeView::Other(p) => v matches ValueView::Other(q, _) && q == p,
    }
}

/// `v` is null or a value of the type `t`.
pub open spec fn fits_or_null(v: Option<ValueView>, t: ValueTypeView) -> bool {
    match v {
        Some(x) => fits(x, t),
        None => true,
    }
}

/// The data behind relationships has the columns that the scope gives them.
pub open spec fn agrees(c: Scope, context: ContextView) -> bool {
    &&& forall|rel: Seq<char>| #[trigger]
        context.to_one.contains_key(rel) ==> c.relationships.contains_key(rel)
            && context.to_one[rel].to_columns == c.relationships[rel].column_types
    &&& forall|rel: Seq<char>| #[trigger]
        context.to_many.contains_key(rel) ==> c.relationships.contains_key(rel)
            && context.to_many[rel].to_columns == c.relationships[rel].column_types
}

/// Every field has a type, which is that of its expression.
spec fn typed(c: Scope, types: Types) -> bool {
    forall|i: int|
        0 <= i < c.fields.len() ==> types.contains_key(#[trigger] c.fields[i].name) && type_given(
            c,
            types,
            c.fields[i].expr,
            c.fields[i].name,
        ) == Ok::<ValueTypeView, ValidationErrorView>(types[c.fields[i].name])
}

spec fn all_fit(vs: Seq<ValueView>, t: ValueTypeView) -> bool {
    forall|i: int| 0 <= i < vs.len() ==> fits(#[trigger] vs[i], t)
}

proof fn cells_fit(
    rows: Seq<RowView>,
    columns: Map<Seq<char>, ValueTypeView>,
    field: Seq<char>,
    column: Seq<char>,
)
    requires
        columns.contains_key(column),
    ensures
        cells(rows, columns, field, column) matches Ok(vs) ==> all_fit(vs, columns[column]),
    decreases rows.len(),
{
    if rows.len() > 0 {
        cells_fit(rows.drop_last(), columns, field, column);
    }
}

proof fn folded_kinds(vs: Seq<ValueView>, t: ValueTypeView)
    requires
        all_fit(vs, t),
    ensures
        numbers(vs).len() > 0 ==> t.numeric_family(),
        has_float(vs) ==> t is Float,
        intervals(vs).len() > 0 ==> t == ValueTypeView::Other(PgTypeView::Interval),
        forall|latest: bool| (#[trigger] extreme_moment(vs, latest)) matches Some(v) ==> t is Other
            && fits(v, t),
    decreases vs.len(),
{
    assert forall|latest: bool| (#[trigger] extreme_moment(vs, latest)) matches Some(v) ==> t
        is Other && fits(v, t) by {
        extremes_are_unbeaten(vs, latest);
    }
    if vs.len() > 0 {
        assert(all_fit(vs.drop_last(), t));
        folded_kinds(vs.drop_last(), t);
        assert(fits(vs[vs.len() - 1], t));
    }
    if has_float(vs) {
        let i = choose|i: int| 0 <= i < vs.len() && (#[trigger] vs[i]) is Float;
        assert(fits(vs[i], t));
    }
}

proof fn aggregate_names_differ()
    ensures
        "SUM"@ != "COUNT"@ && "SUM"@ != "AVG"@ && "SUM"@ != "MIN"@ && "SUM"@ != "MAX"@ && "SUM"@
            != "BOOL_AND"@ && "SUM"@ != "BOOL_OR"@,
        "AVG"@ != "COUNT"@ && "AVG"@ != "MIN"@ && "AVG"@ != "MAX"@ && "AVG"@ != "BOOL_AND"@
            && "AVG"@ != "BOOL_OR"@,
        "MIN"@ != "COUNT"@ && "MIN"@ != "MAX"@ && "MIN"@ != "BOOL_AND"@ && "MIN"@ != "BOOL_OR"@,
        "MAX"@ != "COUNT"@ && "MAX"@ != "BOOL_AND"@ && "MAX"@ != "BOOL_OR"@,
        "COUNT"@ != "BOOL_AND"@ && "COUNT"@ != "BOOL_OR"@ && "BOOL_AND"@ != "BOOL_OR"@,
{
    reveal_strlit("SUM");
    reveal_strlit("COUNT");
    reveal_strlit("AVG");
    reveal_strlit("MIN");
    reveal_strlit("MAX");
    reveal_strlit("BOOL_AND");
    reveal_strlit("BOOL_OR");
    assert("SUM"@[0] == 'S' && "AVG"@[0] == 'A' && "MIN"@[1] == 'I' && "MAX"@[1] == 'A' && "MIN"@[0]
        == 'M' && "MAX"@[0] == 'M');
    assert("SUM"@.len() == 3 && "AVG"@.len() == 3 && "MIN"@.len() == 3 && "MAX"@.len() == 3);
    assert("COUNT"@.len() == 5 && "BOOL_AND"@.len() == 8 && "BOOL_OR"@.len() == 7);
}

/// An operator that is accepted has a value whenever both of its operands do:
/// no operand of an accepted definition is of a wrong type.
pub proof fn accepted_operators_have_values(
    field: Seq<char>,
    op: Operator,
    lhs: ValueTypeView,
    rhs: ValueTypeView,
    l: Option<ValueView>,
    r: Option<ValueView>,
)
    requires
        operator_typing(field, op, lhs, rhs) is Ok,
        fits_or_null(l, lhs),
        fits_or_null(r, rhs),
    ensures
        operator_value(op, l, r) matches Ok(v) ==> (v is Some <==> l is Some && r is Some)
            && fits_or_null(v, operator_typing(field, op, lhs, rhs)->Ok_0),
{
}

/// A function has a value whenever all of its arguments do and are of the
/// types that it takes; `REGEXP_COUNT` also needs its pattern to be one.
pub proof fn accepted_functions_have_values(
    name: Seq<char>,
    row: FunctionSpecView,
    vals: Seq<Option<ValueView>>,
)
    requires
        function_named(name) == Some(row),
        vals.len() == row.arg_types.len(),
        forall|i: int| 0 <= i < vals.len() ==> fits_or_null(#[trigger] vals[i], row.arg_types[i]),
        name == "REGEXP_COUNT"@ && vals[1] is Some ==> pattern_error(text_of(vals[1])) is None,
    ensures
        function_value(name, vals) is Some <==> forall|i: int|
            0 <= i < vals.len() ==> (#[trigger] vals[i]) is Some,
{
    functions_take_text(name);
    reveal_strlit("STRPOS");
    reveal_strlit("OCTET_LENGTH");
    reveal_strlit("CHAR_LENGTH");
    reveal_strlit("REGEXP_COUNT");
    assert("STRPOS"@.len() == 6 && "CHAR_LENGTH"@.len() == 11);
    assert("OCTET_LENGTH"@.len() == 12 && "OCTET_LENGTH"@[0] == 'O');
    assert("REGEXP_COUNT"@.len() == 12 && "REGEXP_COUNT"@[0] == 'R');
    if forall|i: int| 0 <= i < vals.len() ==> (#[trigger] vals[i]) is Some {
        assert forall|i: int| 0 <= i < vals.len() implies is_text(#[trigger] vals[i]) by {
            assert(fits_or_null(vals[i], row.arg_types[i]));
        }
        if name == "REGEXP_COUNT"@ {
            assert(is_text(vals[1]));
        }
    }
}

/// An aggregate that is accepted over values of the type `t` comes to a value
/// of the type that it is given.
proof fn aggregates_fit(
    c: Scope,
    types: Types,
    name: Seq<char>,
    args: Seq<ExprView>,
    field: Seq<char>,
    vs: Seq<ValueView>,
    result: ValueTypeView,
)
    requires
        aggregate_name(name),
        args.len() > 0,
        type_given(c, types, ExprView::FunctionCall { name, args }, field) == Ok::<
            ValueTypeView,
            ValidationErrorView,
        >(result),
        name != "COUNT"@ ==> all_fit(vs, type_given(c, types, args[0], field)->Ok_0),
    ensures
        aggregate_value(name, vs) matches Ok(v) ==> fits_or_null(v, result),
{
    aggregates_are_no_functions();
    aggregate_names_differ();
    assert(name != "COALESCE"@);
    let row = aggregate_named(name)->0;
    if name != "COUNT"@ {
        assert(row_named(name) == aggregate_named(name));
        let t = type_given(c, types, args[0], field)->Ok_0;
        reveal_with_fuel(arg_types_given, 3);
        assert(row.arg_types.len() == 1);
        assert(arg_types_given(c, types, args, 0, name, row, field, seq![]) == Ok::<
            Seq<ValueTypeView>,
            ValidationErrorView,
        >(Seq::<ValueTypeView>::empty().push(t)));
        assert(Seq::<ValueTypeView>::empty().push(t)[0] == t);
        folded_kinds(vs, t);
    } else {
        assert(row_named(name) is None);
    }
}

proof fn argument_types(
    c: Scope,
    types: Types,
    name: Seq<char>,
    args: Seq<ExprView>,
    field: Seq<char>,
)
    requires
        aggregate_name(name),
        name != "COUNT"@,
        args.len() > 0,
        type_given(c, types, ExprView::FunctionCall { name, args }, field) is Ok,
    ensures
        type_given(c, types, args[0], field) is Ok,
{
    aggregates_are_no_functions();
    let row = aggregate_named(name)->0;
    assert(row_named(name) == aggregate_named(name));
    assert(name != "COALESCE"@);
    aggregate_names_differ();
    assert(row.arg_types.len() == 1);
    assert(arg_types_given(c, types, args, 0, name, row, field, seq![]) is Ok);
}

/// A scalar function that is accepted comes to a value of the type that it is
/// given.
proof fn scalars_fit(
    c: Scope,
    types: Types,
    name: Seq<char>,
    args: Seq<ExprView>,
    field: Seq<char>,
    vals: Seq<Option<ValueView>>,
    t: ValueTypeView,
)
    requires
        name != "COALESCE"@,
        type_given(c, types, ExprView::FunctionCall { name, args }, field) == Ok::<
            ValueTypeView,
            ValidationErrorView,
        >(t),
    ensures
        fits_or_null(function_value(name, vals), t),
{
    aggregates_are_no_functions();
    if function_value(name, vals) is Some {
        assert(function_named(name) is Some);
        assert(!aggregate_name(name));
        assert(aggregate_named(name) is None);
    }
}

/// An aggregate over a path that is accepted comes to a value of the type that
/// it is given.
proof fn gathered_fit(
    c: Scope,
    types: Types,
    row: RowView,
    context: ContextView,
    name: Seq<char>,
    args: Seq<ExprView>,
    rel: Seq<char>,
    column: Seq<char>,
    field: Seq<char>,
    t: ValueTypeView,
)
    requires
        agrees(c, context),
        aggregate_name(name),
        args.len() == 1,
        args[0] == (ExprView::RelationshipPath { rel, column }),
        type_given(c, types, ExprView::FunctionCall { name, args }, field) == Ok::<
            ValueTypeView,
            ValidationErrorView,
        >(t),
    ensures
        to_many_value(row, context, name, field, rel, column) matches Ok(v) ==> fits_or_null(v, t),
{
    if context.to_many.contains_key(rel) {
        let data = context.to_many[rel];
        if let Ok(rows) = related_rows(row, data, field) {
            if name == "COUNT"@ {
                aggregates_fit(c, types, name, args, field, seq![], t);
            } else {
                argument_types(c, types, name, args, field);
                cells_fit(rows, data.to_columns, field, column);
                if let Ok(vs) = cells(rows, data.to_columns, field, column) {
                    aggregates_fit(c, types, name, args, field, vs, t);
                }
            }
        }
    }
}

// ---------------------------------------------------------------------------
// Over a row
// ---------------------------------------------------------------------------

proof fn field_fits(
    c: Scope,
    types: Types,
    row: RowView,
    context: ContextView,
    excluded: Set<Seq<char>>,
    i: int,
    path: Set<Seq<char>>,
)
    requires
        typed(c, types),
        agrees(c, context),
        0 <= i < c.fields.len(),
    ensures
        field_outcome(row_engine(c.fields, row, c.columns, context), excluded, i, path) matches Ok(
            v,
        ) ==> fits_or_null(v, types[c.fields[i].name]),
    decreases open_fields(c.fields, path), 0nat, c.fields[i].expr, 0nat,
{
    let f = c.fields[i];
    if !excluded.contains(f.name) && !path.contains(f.name) {
        opening_shrinks(c.fields, path, i);
        assert(types.contains_key(c.fields[i].name));
        expr_fits(
            c,
            types,
            row,
            context,
            excluded,
            f.expr,
            f.name,
            path.insert(f.name),
            types[f.name],
        );
    }
}

proof fn expr_fits(
    c: Scope,
    types: Types,
    row: RowView,
    context: ContextView,
    excluded: Set<Seq<char>>,
    e: ExprView,
    field: Seq<char>,
    path: Set<Seq<char>>,
    t: ValueTypeView,
)
    requires
        typed(c, types),
        agrees(c, context),
        type_given(c, types, e, field) == Ok::<ValueTypeView, ValidationErrorView>(t),
    ensures
        expr_outcome(
            row_engine(c.fields, row, c.columns, context),
            excluded,
            e,
            field,
            path,
        ) matches Ok(v) ==> fits_or_null(v, t),
    decreases open_fields(c.fields, path), 1nat, e, 0nat,
{
    let engine = row_engine(c.fields, row, c.columns, context);
    match e {
        ExprView::Column(name) => {
            field_at_finds(c.fields, name);
            if let Some(i) = field_at(c.fields, name) {
                if !passes_through(c, field, name) {
                    field_fits(c, types, row, context, excluded, i, path);
                }
            }
        },
        ExprView::TypedLiteral { value_type, text } => {
            typed_literal::literals_have_the_type_they_name(value_type);
        },
        ExprView::BinaryOp { op, lhs, rhs } => {
            let l = type_given(c, types, *lhs, field)->Ok_0;
            let r = type_given(c, types, *rhs, field)->Ok_0;
            expr_fits(c, types, row, context, excluded, *lhs, field, path, l);
            expr_fits(c, types, row, context, excluded, *rhs, field, path, r);
            if let Ok(a) = expr_outcome(engine, excluded, *lhs, field, path) {
                if let Ok(b) = expr_outcome(engine, excluded, *rhs, field, path) {
                    accepted_operators_have_values(field, op, l, r, a, b);
                }
            }
        },
        ExprView::FunctionCall { name, args } => {
            call_fits(c, types, row, context, excluded, name, args, field, path, t);
        },
        _ => {},
    }
}

proof fn call_fits(
    c: Scope,
    types: Types,
    row: RowView,
    context: ContextView,
    excluded: Set<Seq<char>>,
    name: Seq<char>,
    args: Seq<ExprView>,
    field: Seq<char>,
    path: Set<Seq<char>>,
    t: ValueTypeView,
)
    requires
        typed(c, types),
        agrees(c, context),
        type_given(c, types, ExprView::FunctionCall { name, args }, field) == Ok::<
            ValueTypeView,
            ValidationErrorView,
        >(t),
    ensures
        expr_outcome(
            row_engine(c.fields, row, c.columns, context),
            excluded,
            ExprView::FunctionCall { name, args },
            field,
            path,
        ) matches Ok(v) ==> fits_or_null(v, t),
    decreases open_fields(c.fields, path), 1nat, args, args.len() + 1,
{
    let engine = row_engine(c.fields, row, c.columns, context);
    let e = ExprView::FunctionCall { name, args };
    if (engine.given)(e, field) is Some {
        let rel = args[0]->RelationshipPath_rel;
        let column = args[0]->column;
        gathered_fit(c, types, row, context, name, args, rel, column, field, t);
    } else if name == "COALESCE"@ {
        first_fits(c, types, row, context, excluded, args, 0, field, path, None);
    } else {
        if let Ok(vals) = args_outcome(engine, excluded, args, 0, field, path, seq![]) {
            scalars_fit(c, types, name, args, field, vals, t);
        }
    }
}

/// `a` is no wider than `b`, which stands for the types of more arguments.
spec fn within(a: Option<ValueTypeView>, b: Option<ValueTypeView>) -> bool {
    match (a, b) {
        (None, _) => true,
        (Some(x), Some(y)) => x == y || (x.numeric_family() && y.numeric_family() && (x is Float
            ==> y is Float)),
        (Some(_), None) => false,
    }
}

proof fn common_grows(
    c: Scope,
    types: Types,
    args: Seq<ExprView>,
    k: nat,
    field: Seq<char>,
    common: Option<ValueTypeView>,
)
    ensures
        common_given(c, types, args, k, field, common) matches Ok(t) ==> within(common, t),
    decreases args.len() - k,
{
    if k < args.len() {
        if let Ok(t) = type_given(c, types, args[k as int], field) {
            let next = match common {
                None => Some(t),
                Some(ct) => common_type(ct, t),
            };
            common_grows(c, types, args, k + 1, field, next);
        }
    }
}

proof fn first_fits(
    c: Scope,
    types: Types,
    row: RowView,
    context: ContextView,
    excluded: Set<Seq<char>>,
    args: Seq<ExprView>,
    k: nat,
    field: Seq<char>,
    path: Set<Seq<char>>,
    common: Option<ValueTypeView>,
)
    requires
        typed(c, types),
        agrees(c, context),
        common_given(c, types, args, k, field, common) is Ok,
    ensures
        first_outcome(
            row_engine(c.fields, row, c.columns, context),
            excluded,
            args,
            k,
            field,
            path,
        ) matches Ok(Some(v)) ==> fits(
            v,
            (common_given(c, types, args, k, field, common)->Ok_0)->0,
        ),
    decreases open_fields(c.fields, path), 1nat, args, args.len() - k,
{
    if k < args.len() {
        let t = type_given(c, types, args[k as int], field)->Ok_0;
        let next = match common {
            None => Some(t),
            Some(ct) => common_type(ct, t),
        };
        expr_fits(c, types, row, context, excluded, args[k as int], field, path, t);
        common_grows(c, types, args, k + 1, field, next);
        first_fits(c, types, row, context, excluded, args, k + 1, field, path, next);
    }
}

proof fn all_typed(def: TransformDefView, c: Scope, types: Types)
    requires
        valid(def, c),
        field_types(c) == Ok::<Types, ValidationErrorView>(types),
    ensures
        distinct_names(c.fields),
        typed(c, types),
{
    accepted_names_resolve(def, c);
    assert forall|i: int| 0 <= i < c.fields.len() implies types.contains_key(
        #[trigger] c.fields[i].name,
    ) && type_given(c, types, c.fields[i].expr, c.fields[i].name) == Ok::<
        ValueTypeView,
        ValidationErrorView,
    >(types[c.fields[i].name]) by {
        types_satisfy_their_expressions(c, types, i);
    }
}

/// In a definition that is accepted, every value that evaluation over a row
/// gives a field is one of the field's type, or null.
pub proof fn values_have_their_types(
    def: TransformDefView,
    c: Scope,
    row: RowView,
    context: ContextView,
    excluded: Set<Seq<char>>,
    types: Types,
    values: Values,
    i: int,
)
    requires
        valid(def, c),
        def.fields == c.fields,
        agrees(c, context),
        field_types(c) == Ok::<Types, ValidationErrorView>(types),
        field_values(definition_engine(def, row, c.columns, context), excluded) == Ok::<
            Values,
            EvalErrorView,
        >(values),
        0 <= i < c.fields.len(),
        !excluded.contains(c.fields[i].name),
    ensures
        types.contains_key(c.fields[i].name),
        values.contains_key(c.fields[i].name),
        fits_or_null(values[c.fields[i].name], types[c.fields[i].name]),
{
    let engine = definition_engine(def, row, c.columns, context);
    all_typed(def, c, types);
    fields_have_their_values(engine, excluded);
    assert(engine.fields[i].name == c.fields[i].name);
    assert(is_field(engine.fields, c.fields[i].name));
    field_fits(c, types, row, context, excluded, i, Set::empty());
}

// ---------------------------------------------------------------------------
// Over a group
// ---------------------------------------------------------------------------

/// Each key is a source column, and a field of that name is that column.
pub open spec fn keys_pass(c: Scope, keys: Set<Seq<char>>) -> bool {
    forall|n: Seq<char>| #[trigger]
        keys.contains(n) ==> c.columns.contains_key(n) && (match field_at(c.fields, n) {
            Some(i) => c.fields[i].expr == ExprView::Column(n),
            None => true,
        })
}

proof fn rows_fit(
    c: Scope,
    types: Types,
    rows: Seq<RowView>,
    arg: ExprView,
    field: Seq<char>,
    t: ValueTypeView,
)
    requires
        distinct_names(c.fields),
        typed(c, types),
        type_given(c, types, arg, field) == Ok::<ValueTypeView, ValidationErrorView>(t),
    ensures
        values_over_rows(c.fields, rows, c.columns, arg, field) matches Ok(vs) ==> all_fit(vs, t),
    decreases rows.len(),
{
    reveal(over_row);
    if rows.len() > 0 {
        rows_fit(c, types, rows.drop_last(), arg, field, t);
        let engine = row_engine(c.fields, rows.last(), c.columns, no_relationships());
        assert(faithful(engine, Set::empty(), Map::empty()));
        memory_of_expr(engine, Set::empty(), arg, field, Set::empty(), Map::empty());
        expr_fits(
            c,
            types,
            rows.last(),
            no_relationships(),
            Set::empty(),
            arg,
            field,
            Set::empty(),
            t,
        );
    }
}

proof fn group_field_fits(
    c: Scope,
    types: Types,
    rows: Seq<RowView>,
    keys: Set<Seq<char>>,
    i: int,
    path: Set<Seq<char>>,
)
    requires
        distinct_names(c.fields),
        typed(c, types),
        keys_pass(c, keys),
        0 <= i < c.fields.len(),
    ensures
        field_outcome(
            group_engine(c.fields, rows, keys, c.columns),
            Set::empty(),
            i,
            path,
        ) matches Ok(v) ==> fits_or_null(v, types[c.fields[i].name]),
    decreases open_fields(c.fields, path), 0nat, c.fields[i].expr, 0nat,
{
    let f = c.fields[i];
    if !path.contains(f.name) {
        opening_shrinks(c.fields, path, i);
        assert(types.contains_key(c.fields[i].name));
        group_expr_fits(
            c,
            types,
            rows,
            keys,
            f.expr,
            f.name,
            path.insert(f.name),
            types[f.name],
        );
    }
}

proof fn group_column_fits(
    c: Scope,
    types: Types,
    rows: Seq<RowView>,
    keys: Set<Seq<char>>,
    name: Seq<char>,
    field: Seq<char>,
    path: Set<Seq<char>>,
    t: ValueTypeView,
)
    requires
        distinct_names(c.fields),
        typed(c, types),
        keys_pass(c, keys),
        path.contains(field),
        type_given(c, types, ExprView::Column(name), field) == Ok::<
            ValueTypeView,
            ValidationErrorView,
        >(t),
    ensures
        expr_outcome(
            group_engine(c.fields, rows, keys, c.columns),
            Set::empty(),
            ExprView::Column(name),
            field,
            path,
        ) matches Ok(v) ==> fits_or_null(v, t),
    decreases open_fields(c.fields, path), 1nat, ExprView::Column(name), 0nat,
{
    field_at_finds(c.fields, name);
    if let Some(i) = field_at(c.fields, name) {
        assert(types.contains_key(c.fields[i].name));
        if keys.contains(name) {
            assert(types[name] == c.columns[name]);
        } else {
            group_field_fits(c, types, rows, keys, i, path);
        }
    }
}

proof fn group_expr_fits(
    c: Scope,
    types: Types,
    rows: Seq<RowView>,
    keys: Set<Seq<char>>,
    e: ExprView,
    field: Seq<char>,
    path: Set<Seq<char>>,
    t: ValueTypeView,
)
    requires
        distinct_names(c.fields),
        typed(c, types),
        keys_pass(c, keys),
        path.contains(field),
        type_given(c, types, e, field) == Ok::<ValueTypeView, ValidationErrorView>(t),
    ensures
        expr_outcome(
            group_engine(c.fields, rows, keys, c.columns),
            Set::empty(),
            e,
            field,
            path,
        ) matches Ok(v) ==> fits_or_null(v, t),
    decreases open_fields(c.fields, path), 1nat, e, 1nat,
{
    let engine = group_engine(c.fields, rows, keys, c.columns);
    match e {
        ExprView::Column(name) => {
            group_column_fits(c, types, rows, keys, name, field, path, t);
        },
        ExprView::TypedLiteral { value_type, text } => {
            typed_literal::literals_have_the_type_they_name(value_type);
        },
        ExprView::BinaryOp { op, lhs, rhs } => {
            let l = type_given(c, types, *lhs, field)->Ok_0;
            let r = type_given(c, types, *rhs, field)->Ok_0;
            group_expr_fits(c, types, rows, keys, *lhs, field, path, l);
            group_expr_fits(c, types, rows, keys, *rhs, field, path, r);
            if let Ok(a) = expr_outcome(engine, Set::empty(), *lhs, field, path) {
                if let Ok(b) = expr_outcome(engine, Set::empty(), *rhs, field, path) {
                    accepted_operators_have_values(field, op, l, r, a, b);
                }
            }
        },
        ExprView::FunctionCall { name, args } => {
            group_call_fits(c, types, rows, keys, name, args, field, path, t);
        },
        _ => {},
    }
}

proof fn group_call_fits(
    c: Scope,
    types: Types,
    rows: Seq<RowView>,
    keys: Set<Seq<char>>,
    name: Seq<char>,
    args: Seq<ExprView>,
    field: Seq<char>,
    path: Set<Seq<char>>,
    t: ValueTypeView,
)
    requires
        distinct_names(c.fields),
        typed(c, types),
        keys_pass(c, keys),
        path.contains(field),
        type_given(c, types, ExprView::FunctionCall { name, args }, field) == Ok::<
            ValueTypeView,
            ValidationErrorView,
        >(t),
    ensures
        expr_outcome(
            group_engine(c.fields, rows, keys, c.columns),
            Set::empty(),
            ExprView::FunctionCall { name, args },
            field,
            path,
        ) matches Ok(v) ==> fits_or_null(v, t),
    decreases open_fields(c.fields, path), 1nat, args, args.len() + 1,
{
    let engine = group_engine(c.fields, rows, keys, c.columns);
    if name == "COUNT"@ && args.len() == 0 {
        counts_fit(c, types, args, field, t);
    } else if aggregate_name(name) && args.len() > 0 {
        if name == "COUNT"@ {
            counts_fit(c, types, args, field, t);
        } else {
            argument_types(c, types, name, args, field);
            let arg_type = type_given(c, types, args[0], field)->Ok_0;
            rows_fit(c, types, rows, args[0], field, arg_type);
            if let Ok(vs) = values_over_rows(c.fields, rows, c.columns, args[0], field) {
                aggregates_fit(c, types, name, args, field, vs, t);
            }
        }
    } else if name == "COALESCE"@ {
        group_first_fits(c, types, rows, keys, args, 0, field, path, None);
    } else {
        if let Ok(vals) = args_outcome(engine, Set::empty(), args, 0, field, path, seq![]) {
            scalars_fit(c, types, name, args, field, vals, t);
        }
    }
}

proof fn counts_fit(
    c: Scope,
    types: Types,
    args: Seq<ExprView>,
    field: Seq<char>,
    t: ValueTypeView,
)
    requires
        type_given(c, types, ExprView::FunctionCall { name: "COUNT"@, args }, field) == Ok::<
            ValueTypeView,
            ValidationErrorView,
        >(t),
    ensures
        t.numeric_family(),
{
    aggregates_are_no_functions();
    aggregate_names_differ();
    assert(aggregate_name("COUNT"@));
    assert(row_named("COUNT"@) is None);
}

proof fn group_first_fits(
    c: Scope,
    types: Types,
    rows: Seq<RowView>,
    keys: Set<Seq<char>>,
    args: Seq<ExprView>,
    k: nat,
    field: Seq<char>,
    path: Set<Seq<char>>,
    common: Option<ValueTypeView>,
)
    requires
        distinct_names(c.fields),
        typed(c, types),
        keys_pass(c, keys),
        path.contains(field),
        common_given(c, types, args, k, field, common) is Ok,
    ensures
        first_outcome(
            group_engine(c.fields, rows, keys, c.columns),
            Set::empty(),
            args,
            k,
            field,
            path,
        ) matches Ok(Some(v)) ==> fits(
            v,
            (common_given(c, types, args, k, field, common)->Ok_0)->0,
        ),
    decreases open_fields(c.fields, path), 1nat, args, args.len() - k,
{
    if k < args.len() {
        let t = type_given(c, types, args[k as int], field)->Ok_0;
        let next = match common {
            None => Some(t),
            Some(ct) => common_type(ct, t),
        };
        group_expr_fits(c, types, rows, keys, args[k as int], field, path, t);
        common_grows(c, types, args, k + 1, field, next);
        group_first_fits(c, types, rows, keys, args, k + 1, field, path, next);
    }
}

/// Every key is a source column.
pub open spec fn groups_by_columns(group_by: Seq<GroupByKeyView>) -> bool {
    forall|i: int| 0 <= i < group_by.len() ==> (#[trigger] group_by[i]) is Column
}

proof fn key_is_found(group_by: Seq<GroupByKeyView>, i: nat, k: int)
    requires
        groups_by_columns(group_by),
        i <= k < group_by.len(),
    ensures
        key_for(group_by, group_by[k].target_column_name(), i) == Some(group_by[k]),
    decreases group_by.len() - i,
{
    assert(group_by[i as int] is Column);
    assert(group_by[k] is Column);
    if group_by[i as int].target_column_name() != group_by[k].target_column_name() {
        key_is_found(group_by, i + 1, k);
    }
}

/// In a definition that is accepted and groups by columns of its source, a
/// field that is named like a key is that key.
pub proof fn accepted_keys_pass(
    def: TransformDefView,
    c: Scope,
    group_by: Seq<GroupByKeyView>,
)
    requires
        valid(def, c),
        def.key_space == (KeySpaceView::Aggregate { group_by }),
        groups_by_columns(group_by),
    ensures
        keys_pass(c, key_columns(group_by)),
{
    let keys = key_columns(group_by);
    assert forall|n: Seq<char>| #[trigger] keys.contains(n) implies c.columns.contains_key(n) && (
    match field_at(c.fields, n) {
        Some(j) => c.fields[j].expr == ExprView::Column(n),
        None => true,
    }) by {
        let k = choose|k: int|
            0 <= k < group_by.len() && #[trigger] group_by[k].target_column_name() == n;
        assert(group_by[k] is Column);
        no_problem_at(0, group_by.len() as int, key_problems(c, group_by), k);
        field_at_finds(c.fields, n);
        if let Some(j) = field_at(c.fields, n) {
            no_problem_at(0, c.fields.len() as int, grouped_fields(c, group_by), j);
            key_is_found(group_by, 0, k);
        }
    }
}

/// In a definition that is accepted and groups by columns of its source, every
/// value that evaluation over a group gives a field is one of the field's
/// type, or null.
pub proof fn group_values_have_their_types(
    def: TransformDefView,
    c: Scope,
    group_by: Seq<GroupByKeyView>,
    rows: Seq<RowView>,
    types: Types,
    values: Values,
    i: int,
)
    requires
        valid(def, c),
        def.fields == c.fields,
        def.key_space == (KeySpaceView::Aggregate { group_by }),
        groups_by_columns(group_by),
        field_types(c) == Ok::<Types, ValidationErrorView>(types),
        field_values(definition_group_engine(def, rows, c.columns), Set::empty()) == Ok::<
            Values,
            EvalErrorView,
        >(values),
        0 <= i < c.fields.len(),
    ensures
        types.contains_key(c.fields[i].name),
        values.contains_key(c.fields[i].name),
        fits_or_null(values[c.fields[i].name], types[c.fields[i].name]),
{
    let engine = definition_group_engine(def, rows, c.columns);
    let keys = key_columns(group_by);
    all_typed(def, c, types);
    accepted_keys_pass(def, c, group_by);
    fields_have_their_values(engine, Set::empty());
    assert(engine.fields[i].name == c.fields[i].name);
    assert(is_field(engine.fields, c.fields[i].name));
    group_field_fits(c, types, rows, keys, i, Set::empty());
}

} // verus!
