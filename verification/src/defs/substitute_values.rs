//! A field that is written in terms of source columns has the value that the
//! field has.

use vstd::prelude::*;

use crate::defs::ast::{
    ExprView, FieldDefView, GroupByKeyView, KeySpaceView, Operator, TransformDefView,
    ValueTypeView,
};
use crate::defs::deps::{
    distinct_names, field_at, field_at_finds, is_field, open_fields, opening_shrinks, references,
    references_of_each,
};
use crate::defs::eval::{
    definition_engine, definition_group_engine, field_values, group_engine, key_columns,
    row_engine, row_given, over_row, values_over_rows, Engine, Values,
};
use crate::defs::eval_laws::{
    accepted_names_resolve, args_outcome, expr_outcome, faithful, field_outcome,
    fields_have_their_values, first_outcome, memory_of_expr,
};
use crate::defs::grammar_laws::supported;
use crate::defs::registry::{aggregate_name, aggregates_are_no_functions};
use crate::defs::relationship_data::{
    cells, filled, no_relationships, related_rows, ContextView, RowView,
};
use crate::defs::soundness::{accepted_keys_pass, groups_by_columns};
use crate::defs::substitute::{substituted, substituted_all, substituted_field};
use crate::defs::typing::Scope;
use crate::defs::validate::{resolves, valid};
use crate::defs::value::{EvalErrorView, ValueView};

verus! {

/// Evaluation of an expression that names source columns alone.
pub open spec fn source_engine(
    row: RowView,
    columns: Map<Seq<char>, ValueTypeView>,
    context: ContextView,
) -> Engine {
    row_engine(seq![], row, columns, context)
}

/// No aggregate is called.
pub open spec fn plain(e: ExprView) -> bool
    decreases e,
{
    match e {
        ExprView::BinaryOp { op, lhs, rhs } => plain(*lhs) && plain(*rhs),
        ExprView::FunctionCall { name, args } => {
            &&& !aggregate_name(name)
            &&& forall|i: int| 0 <= i < args.len() ==> plain(#[trigger] args[i])
        },
        _ => true,
    }
}

proof fn plain_parts(name: Seq<char>, args: Seq<ExprView>)
    requires
        plain(ExprView::FunctionCall { name, args }),
    ensures
        !aggregate_name(name),
        forall|i: int| 0 <= i < args.len() ==> plain(#[trigger] args[i]),
{
    let e = ExprView::FunctionCall { name, args };
    assert(e->args == args);
}

/// If `e`, in the field `field`, names its own field, there is a source column
/// of that name.
spec fn own(columns: Map<Seq<char>, ValueTypeView>, e: ExprView, field: Seq<char>) -> bool {
    references(e).contains(field) ==> columns.contains_key(field)
}

proof fn own_operands(
    columns: Map<Seq<char>, ValueTypeView>,
    op: Operator,
    lhs: ExprView,
    rhs: ExprView,
    field: Seq<char>,
)
    requires
        own(
            columns,
            ExprView::BinaryOp { op, lhs: Box::new(lhs), rhs: Box::new(rhs) },
            field,
        ),
    ensures
        own(columns, lhs, field),
        own(columns, rhs, field),
{
    let l = references(lhs);
    let r = references(rhs);
    if l.contains(field) {
        assert((l + r)[l.index_of(field)] == field);
    }
    if r.contains(field) {
        assert((l + r)[l.len() + r.index_of(field)] == field);
    }
}

proof fn own_parts(
    columns: Map<Seq<char>, ValueTypeView>,
    name: Seq<char>,
    args: Seq<ExprView>,
    field: Seq<char>,
)
    requires
        own(columns, ExprView::FunctionCall { name, args }, field),
    ensures
        forall|k: int| 0 <= k < args.len() ==> own(columns, #[trigger] args[k], field),
{
    assert forall|k: int| 0 <= k < args.len() implies own(columns, #[trigger] args[k], field) by {
        if references(args[k]).contains(field) {
            references_of_each(args, k, field);
        }
    }
}

spec fn all_supported(fields: Seq<FieldDefView>) -> bool {
    forall|i: int| 0 <= i < fields.len() ==> supported(#[trigger] fields[i].expr, false)
}

proof fn parts_substitute(
    fields: Seq<FieldDefView>,
    es: Seq<ExprView>,
    field: Seq<char>,
    path: Set<Seq<char>>,
)
    requires
        substituted_all(fields, es, field, path) is Some,
    ensures
        (substituted_all(fields, es, field, path)->0).len() == es.len(),
        forall|k: int|
            0 <= k < es.len() ==> substituted(fields, #[trigger] es[k], field, path) == Some(
                (substituted_all(fields, es, field, path)->0)[k],
            ),
    decreases es.len(),
{
    if es.len() > 0 {
        let less = es.drop_last();
        parts_substitute(fields, less, field, path);
        let head = substituted_all(fields, less, field, path)->0;
        assert forall|k: int| 0 <= k < es.len() implies substituted(
            fields,
            #[trigger] es[k],
            field,
            path,
        ) == Some((substituted_all(fields, es, field, path)->0)[k]) by {
            if k < es.len() - 1 {
                assert(less[k] == es[k]);
            }
        }
    }
}

proof fn related_cells_stay(
    rows: Seq<RowView>,
    columns: Map<Seq<char>, ValueTypeView>,
    a: Seq<char>,
    b: Seq<char>,
    column: Seq<char>,
)
    ensures
        cells(rows, columns, a, column) is Ok ==> cells(rows, columns, b, column) == cells(
            rows,
            columns,
            a,
            column,
        ),
        filled(rows, a, column) is Ok ==> filled(rows, b, column) == filled(rows, a, column),
    decreases rows.len(),
{
    if rows.len() > 0 {
        related_cells_stay(rows.drop_last(), columns, a, b, column);
    }
}

/// What is read from a row does not depend on the field that it is read for.
proof fn given_stays(
    fields: Seq<FieldDefView>,
    row: RowView,
    columns: Map<Seq<char>, ValueTypeView>,
    context: ContextView,
    e: ExprView,
    field: Seq<char>,
    other: Seq<char>,
    v: Option<ValueView>,
)
    requires
        row_given(fields, row, columns, context, e, field) == Some(
            Ok::<Option<ValueView>, EvalErrorView>(v),
        ),
    ensures
        row_given(seq![], row, columns, context, e, other) == Some(
            Ok::<Option<ValueView>, EvalErrorView>(v),
        ),
{
    if let ExprView::Column(name) = e {
        field_at_finds(Seq::<FieldDefView>::empty(), name);
        if let Some(i) = field_at(Seq::<FieldDefView>::empty(), name) {
            assert(false);
        }
    }
    if let ExprView::FunctionCall { name, args } = e {
        if let ExprView::RelationshipPath { rel, column } = args[0] {
            let data = context.to_many[rel];
            if let Ok(rows) = related_rows(row, data, field) {
                related_cells_stay(rows, data.to_columns, field, other, column);
            }
        }
    }
}

/// `e` may be replaced by `s`: no aggregate of `s` can have got another
/// argument.
spec fn replaceable(fields: Seq<FieldDefView>, e: ExprView, s: ExprView) -> bool {
    plain(s) || (all_supported(fields) && supported(e, false))
}

/// That `e` names its own field is known to be a circle, or to mean a source
/// column.
spec fn settled(
    columns: Map<Seq<char>, ValueTypeView>,
    e: ExprView,
    field: Seq<char>,
    path: Set<Seq<char>>,
) -> bool {
    path.contains(field) || own(columns, e, field)
}

proof fn value_kept(
    fields: Seq<FieldDefView>,
    row: RowView,
    columns: Map<Seq<char>, ValueTypeView>,
    context: ContextView,
    e: ExprView,
    field: Seq<char>,
    path: Set<Seq<char>>,
    sub: Set<Seq<char>>,
    other: Seq<char>,
)
    requires
        settled(columns, e, field, path),
        expr_outcome(row_engine(fields, row, columns, context), Set::empty(), e, field, path) is Ok,
        substituted(fields, e, field, sub) is Some,
        replaceable(fields, e, substituted(fields, e, field, sub)->0),
    ensures
        expr_outcome(
            source_engine(row, columns, context),
            Set::empty(),
            substituted(fields, e, field, sub)->0,
            other,
            Set::empty(),
        ) == expr_outcome(
            row_engine(fields, row, columns, context),
            Set::empty(),
            e,
            field,
            path,
        ),
    decreases open_fields(fields, path), 1nat, e, 1nat,
{
    let engine = row_engine(fields, row, columns, context);
    let v = expr_outcome(engine, Set::empty(), e, field, path)->Ok_0;
    match e {
        ExprView::Column(name) => {
            column_kept(fields, row, columns, context, name, field, path, sub, other);
        },
        ExprView::BinaryOp { op, lhs, rhs } => {
            if own(columns, e, field) {
                own_operands(columns, op, *lhs, *rhs, field);
            }
            value_kept(fields, row, columns, context, *lhs, field, path, sub, other);
            value_kept(fields, row, columns, context, *rhs, field, path, sub, other);
        },
        ExprView::FunctionCall { name, args } => {
            call_kept(fields, row, columns, context, name, args, field, path, sub, other);
        },
        _ => {
            given_stays(fields, row, columns, context, e, field, other, v);
        },
    }
}

proof fn column_kept(
    fields: Seq<FieldDefView>,
    row: RowView,
    columns: Map<Seq<char>, ValueTypeView>,
    context: ContextView,
    name: Seq<char>,
    field: Seq<char>,
    path: Set<Seq<char>>,
    sub: Set<Seq<char>>,
    other: Seq<char>,
)
    requires
        settled(columns, ExprView::Column(name), field, path),
        expr_outcome(
            row_engine(fields, row, columns, context),
            Set::empty(),
            ExprView::Column(name),
            field,
            path,
        ) is Ok,
        substituted(fields, ExprView::Column(name), field, sub) is Some,
        replaceable(
            fields,
            ExprView::Column(name),
            substituted(fields, ExprView::Column(name), field, sub)->0,
        ),
    ensures
        expr_outcome(
            source_engine(row, columns, context),
            Set::empty(),
            substituted(fields, ExprView::Column(name), field, sub)->0,
            other,
            Set::empty(),
        ) == expr_outcome(
            row_engine(fields, row, columns, context),
            Set::empty(),
            ExprView::Column(name),
            field,
            path,
        ),
    decreases open_fields(fields, path), 1nat, ExprView::Column(name), 0nat,
{
    let engine = row_engine(fields, row, columns, context);
    let e = ExprView::Column(name);
    let v = expr_outcome(engine, Set::empty(), e, field, path)->Ok_0;
    field_at_finds(fields, name);
    match (engine.given)(e, field) {
        Some(_) => {
            given_stays(fields, row, columns, context, e, field, other, v);
        },
        None => {
            let i = field_at(fields, name)->0;
            assert(fields[i].name == name);
            assert(field_outcome(engine, Set::empty(), i, path) == Ok::<
                Option<ValueView>,
                EvalErrorView,
            >(v));
            assert(!path.contains(name));
            assert(name != field) by {
                assert(references(e)[0] == name);
            }
            opening_shrinks(fields, path, i);
            if all_supported(fields) {
                assert(supported(fields[i].expr, false));
            }
            value_kept(
                fields,
                row,
                columns,
                context,
                fields[i].expr,
                name,
                path.insert(name),
                sub.insert(name),
                other,
            );
        },
    }
}

proof fn call_kept(
    fields: Seq<FieldDefView>,
    row: RowView,
    columns: Map<Seq<char>, ValueTypeView>,
    context: ContextView,
    name: Seq<char>,
    args: Seq<ExprView>,
    field: Seq<char>,
    path: Set<Seq<char>>,
    sub: Set<Seq<char>>,
    other: Seq<char>,
)
    requires
        settled(columns, ExprView::FunctionCall { name, args }, field, path),
        expr_outcome(
            row_engine(fields, row, columns, context),
            Set::empty(),
            ExprView::FunctionCall { name, args },
            field,
            path,
        ) is Ok,
        substituted(fields, ExprView::FunctionCall { name, args }, field, sub) is Some,
        replaceable(
            fields,
            ExprView::FunctionCall { name, args },
            substituted(fields, ExprView::FunctionCall { name, args }, field, sub)->0,
        ),
    ensures
        expr_outcome(
            source_engine(row, columns, context),
            Set::empty(),
            substituted(fields, ExprView::FunctionCall { name, args }, field, sub)->0,
            other,
            Set::empty(),
        ) == expr_outcome(
            row_engine(fields, row, columns, context),
            Set::empty(),
            ExprView::FunctionCall { name, args },
            field,
            path,
        ),
    decreases open_fields(fields, path), 1nat, args, args.len() + 1,
{
    let engine = row_engine(fields, row, columns, context);
    let e = ExprView::FunctionCall { name, args };
    let v = expr_outcome(engine, Set::empty(), e, field, path)->Ok_0;
    let es = substituted_all(fields, args, field, sub)->0;
    parts_substitute(fields, args, field, sub);
    aggregates_are_no_functions();
    if plain(ExprView::FunctionCall { name, args: es }) {
        plain_parts(name, es);
    }
    if own(columns, e, field) {
        own_parts(columns, name, args, field);
    }
    if aggregate_name(name) {
        assert(substituted(fields, args[0], field, sub) == Some(args[0]));
        assert(es =~= args);
        given_stays(fields, row, columns, context, e, field, other, v);
    } else if name == "COALESCE"@ {
        first_kept(fields, row, columns, context, args, 0, field, path, sub, other);
    } else {
        args_kept(fields, row, columns, context, args, 0, field, path, sub, seq![], other);
    }
}

proof fn first_kept(
    fields: Seq<FieldDefView>,
    row: RowView,
    columns: Map<Seq<char>, ValueTypeView>,
    context: ContextView,
    args: Seq<ExprView>,
    k: nat,
    field: Seq<char>,
    path: Set<Seq<char>>,
    sub: Set<Seq<char>>,
    other: Seq<char>,
)
    requires
        forall|j: int| 0 <= j < args.len() ==> settled(columns, #[trigger] args[j], field, path),
        first_outcome(
            row_engine(fields, row, columns, context),
            Set::empty(),
            args,
            k,
            field,
            path,
        ) is Ok,
        substituted_all(fields, args, field, sub) is Some,
        forall|j: int|
            0 <= j < args.len() ==> replaceable(
                fields,
                #[trigger] args[j],
                (substituted_all(fields, args, field, sub)->0)[j],
            ),
    ensures
        first_outcome(
            source_engine(row, columns, context),
            Set::empty(),
            substituted_all(fields, args, field, sub)->0,
            k,
            other,
            Set::empty(),
        ) == first_outcome(
            row_engine(fields, row, columns, context),
            Set::empty(),
            args,
            k,
            field,
            path,
        ),
    decreases open_fields(fields, path), 1nat, args, args.len() - k,
{
    let engine = row_engine(fields, row, columns, context);
    parts_substitute(fields, args, field, sub);
    if k < args.len() {
        let arg = args[k as int];
        value_kept(fields, row, columns, context, arg, field, path, sub, other);
        if expr_outcome(engine, Set::empty(), arg, field, path) == Ok::<
            Option<ValueView>,
            EvalErrorView,
        >(None) {
            first_kept(fields, row, columns, context, args, k + 1, field, path, sub, other);
        }
    }
}

proof fn args_kept(
    fields: Seq<FieldDefView>,
    row: RowView,
    columns: Map<Seq<char>, ValueTypeView>,
    context: ContextView,
    args: Seq<ExprView>,
    k: nat,
    field: Seq<char>,
    path: Set<Seq<char>>,
    sub: Set<Seq<char>>,
    acc: Seq<Option<ValueView>>,
    other: Seq<char>,
)
    requires
        forall|j: int| 0 <= j < args.len() ==> settled(columns, #[trigger] args[j], field, path),
        args_outcome(
            row_engine(fields, row, columns, context),
            Set::empty(),
            args,
            k,
            field,
            path,
            acc,
        ) is Ok,
        substituted_all(fields, args, field, sub) is Some,
        forall|j: int|
            0 <= j < args.len() ==> replaceable(
                fields,
                #[trigger] args[j],
                (substituted_all(fields, args, field, sub)->0)[j],
            ),
    ensures
        args_outcome(
            source_engine(row, columns, context),
            Set::empty(),
            substituted_all(fields, args, field, sub)->0,
            k,
            other,
            Set::empty(),
            acc,
        ) == args_outcome(
            row_engine(fields, row, columns, context),
            Set::empty(),
            args,
            k,
            field,
            path,
            acc,
        ),
    decreases open_fields(fields, path), 1nat, args, args.len() - k,
{
    let engine = row_engine(fields, row, columns, context);
    parts_substitute(fields, args, field, sub);
    if k < args.len() {
        let arg = args[k as int];
        value_kept(fields, row, columns, context, arg, field, path, sub, other);
        let v = expr_outcome(engine, Set::empty(), arg, field, path)->Ok_0;
        args_kept(
            fields,
            row,
            columns,
            context,
            args,
            k + 1,
            field,
            path,
            sub,
            acc.push(v),
            other,
        );
    }
}

/// Where a definition made of supported constructs has values over a row,
/// each field that is written in terms of source columns has the same value
/// when it is evaluated over those columns alone.
pub proof fn substituted_fields_keep_their_values(
    def: TransformDefView,
    row: RowView,
    columns: Map<Seq<char>, ValueTypeView>,
    context: ContextView,
    values: Values,
    i: int,
)
    requires
        distinct_names(def.fields),
        forall|j: int|
            0 <= j < def.fields.len() ==> supported(#[trigger] def.fields[j].expr, false),
        field_values(definition_engine(def, row, columns, context), Set::empty()) == Ok::<
            Values,
            EvalErrorView,
        >(values),
        0 <= i < def.fields.len(),
        substituted_field(def.fields, i) is Some,
    ensures
        values.contains_key(def.fields[i].name),
        expr_outcome(
            source_engine(row, columns, context),
            Set::empty(),
            substituted_field(def.fields, i)->0,
            def.fields[i].name,
            Set::empty(),
        ) == Ok::<Option<ValueView>, EvalErrorView>(values[def.fields[i].name]),
{
    let f = def.fields[i];
    let engine = definition_engine(def, row, columns, context);
    fields_have_their_values(engine, Set::empty());
    assert(engine.fields[i].name == f.name);
    assert(is_field(engine.fields, f.name));
    assert(field_outcome(engine, Set::empty(), i, Set::empty()) is Ok);
    assert(all_supported(def.fields));
    value_kept(
        def.fields,
        row,
        columns,
        context,
        f.expr,
        f.name,
        Set::empty().insert(f.name),
        Set::empty().insert(f.name),
        f.name,
    );
}

// ---------------------------------------------------------------------------
// Over a group
// ---------------------------------------------------------------------------

/// Evaluation over a group of an expression that names source columns alone.
pub open spec fn group_source_engine(
    rows: Seq<RowView>,
    keys: Set<Seq<char>>,
    columns: Map<Seq<char>, ValueTypeView>,
) -> Engine {
    group_engine(seq![], rows, keys, columns)
}

/// No aggregate stands inside another.
pub open spec fn flat(e: ExprView) -> bool
    decreases e,
{
    match e {
        ExprView::BinaryOp { op, lhs, rhs } => flat(*lhs) && flat(*rhs),
        ExprView::FunctionCall { name, args } => if aggregate_name(name) {
            forall|i: int| 0 <= i < args.len() ==> plain(#[trigger] args[i])
        } else {
            forall|i: int| 0 <= i < args.len() ==> flat(#[trigger] args[i])
        },
        _ => true,
    }
}

proof fn flat_parts(name: Seq<char>, args: Seq<ExprView>)
    requires
        flat(ExprView::FunctionCall { name, args }),
    ensures
        aggregate_name(name) ==> forall|i: int|
            0 <= i < args.len() ==> plain(#[trigger] args[i]),
        !aggregate_name(name) ==> forall|i: int|
            0 <= i < args.len() ==> flat(#[trigger] args[i]),
{
    let e = ExprView::FunctionCall { name, args };
    assert(e->args == args);
}

/// Names are distinct, a field that names itself means a source column, and
/// a field named like a key is that key.
spec fn grouped(
    fields: Seq<FieldDefView>,
    keys: Set<Seq<char>>,
    columns: Map<Seq<char>, ValueTypeView>,
) -> bool {
    &&& distinct_names(fields)
    &&& forall|i: int|
        0 <= i < fields.len() ==> own(columns, #[trigger] fields[i].expr, fields[i].name)
    &&& forall|n: Seq<char>| #[trigger]
        keys.contains(n) ==> (match field_at(fields, n) {
            Some(i) => fields[i].expr == ExprView::Column(n),
            None => true,
        })
}

proof fn rows_kept(
    fields: Seq<FieldDefView>,
    rows: Seq<RowView>,
    columns: Map<Seq<char>, ValueTypeView>,
    arg: ExprView,
    field: Seq<char>,
    sub: Set<Seq<char>>,
    other: Seq<char>,
)
    requires
        distinct_names(fields),
        own(columns, arg, field),
        substituted(fields, arg, field, sub) is Some,
        plain(substituted(fields, arg, field, sub)->0),
        values_over_rows(fields, rows, columns, arg, field) is Ok,
    ensures
        values_over_rows(
            seq![],
            rows,
            columns,
            substituted(fields, arg, field, sub)->0,
            other,
        ) == values_over_rows(fields, rows, columns, arg, field),
    decreases rows.len(),
{
    reveal(over_row);
    if rows.len() > 0 {
        let row = rows.last();
        let s = substituted(fields, arg, field, sub)->0;
        let none = Set::<Seq<char>>::empty();
        rows_kept(fields, rows.drop_last(), columns, arg, field, sub, other);
        let engine = row_engine(fields, row, columns, no_relationships());
        let source = source_engine(row, columns, no_relationships());
        assert(faithful(engine, none, Map::empty()));
        assert(faithful(source, none, Map::empty()));
        memory_of_expr(engine, none, arg, field, none, Map::empty());
        memory_of_expr(source, none, s, other, none, Map::empty());
        value_kept(fields, row, columns, no_relationships(), arg, field, none, sub, other);
    }
}

proof fn group_value_kept(
    fields: Seq<FieldDefView>,
    rows: Seq<RowView>,
    keys: Set<Seq<char>>,
    columns: Map<Seq<char>, ValueTypeView>,
    e: ExprView,
    field: Seq<char>,
    path: Set<Seq<char>>,
    other: Seq<char>,
)
    requires
        grouped(fields, keys, columns),
        own(columns, e, field),
        path.contains(field),
        expr_outcome(group_engine(fields, rows, keys, columns), Set::empty(), e, field, path) is Ok,
        substituted(fields, e, field, path) is Some,
        flat(substituted(fields, e, field, path)->0),
    ensures
        expr_outcome(
            group_source_engine(rows, keys, columns),
            Set::empty(),
            substituted(fields, e, field, path)->0,
            other,
            Set::empty(),
        ) == expr_outcome(
            group_engine(fields, rows, keys, columns),
            Set::empty(),
            e,
            field,
            path,
        ),
    decreases open_fields(fields, path), 1nat, e, 1nat,
{
    match e {
        ExprView::Column(name) => {
            group_column_kept(fields, rows, keys, columns, name, field, path, other);
        },
        ExprView::BinaryOp { op, lhs, rhs } => {
            own_operands(columns, op, *lhs, *rhs, field);
            group_value_kept(fields, rows, keys, columns, *lhs, field, path, other);
            group_value_kept(fields, rows, keys, columns, *rhs, field, path, other);
        },
        ExprView::FunctionCall { name, args } => {
            group_call_kept(fields, rows, keys, columns, name, args, field, path, other);
        },
        _ => {},
    }
}

proof fn group_column_kept(
    fields: Seq<FieldDefView>,
    rows: Seq<RowView>,
    keys: Set<Seq<char>>,
    columns: Map<Seq<char>, ValueTypeView>,
    name: Seq<char>,
    field: Seq<char>,
    path: Set<Seq<char>>,
    other: Seq<char>,
)
    requires
        grouped(fields, keys, columns),
        path.contains(field),
        expr_outcome(
            group_engine(fields, rows, keys, columns),
            Set::empty(),
            ExprView::Column(name),
            field,
            path,
        ) is Ok,
        substituted(fields, ExprView::Column(name), field, path) is Some,
        flat(substituted(fields, ExprView::Column(name), field, path)->0),
    ensures
        expr_outcome(
            group_source_engine(rows, keys, columns),
            Set::empty(),
            substituted(fields, ExprView::Column(name), field, path)->0,
            other,
            Set::empty(),
        ) == expr_outcome(
            group_engine(fields, rows, keys, columns),
            Set::empty(),
            ExprView::Column(name),
            field,
            path,
        ),
    decreases open_fields(fields, path), 1nat, ExprView::Column(name), 0nat,
{
    let engine = group_engine(fields, rows, keys, columns);
    let e = ExprView::Column(name);
    field_at_finds(fields, name);
    if keys.contains(name) {
        if field_at(fields, name) is Some && name != field {
            let i = field_at(fields, name)->0;
            assert(!path.contains(name));
            assert(fields[i].expr == ExprView::Column(name));
            assert(substituted(fields, ExprView::Column(name), name, path.insert(name)) == Some(e));
        }
        assert(substituted(fields, e, field, path) == Some(e));
    } else {
        let i = field_at(fields, name)->0;
        assert(field_outcome(engine, Set::empty(), i, path) is Ok);
        assert(!path.contains(name));
        opening_shrinks(fields, path, i);
        assert(own(columns, fields[i].expr, fields[i].name));
        group_value_kept(
            fields,
            rows,
            keys,
            columns,
            fields[i].expr,
            name,
            path.insert(name),
            other,
        );
    }
}

proof fn group_call_kept(
    fields: Seq<FieldDefView>,
    rows: Seq<RowView>,
    keys: Set<Seq<char>>,
    columns: Map<Seq<char>, ValueTypeView>,
    name: Seq<char>,
    args: Seq<ExprView>,
    field: Seq<char>,
    path: Set<Seq<char>>,
    other: Seq<char>,
)
    requires
        grouped(fields, keys, columns),
        own(columns, ExprView::FunctionCall { name, args }, field),
        path.contains(field),
        expr_outcome(
            group_engine(fields, rows, keys, columns),
            Set::empty(),
            ExprView::FunctionCall { name, args },
            field,
            path,
        ) is Ok,
        substituted(fields, ExprView::FunctionCall { name, args }, field, path) is Some,
        flat(substituted(fields, ExprView::FunctionCall { name, args }, field, path)->0),
    ensures
        expr_outcome(
            group_source_engine(rows, keys, columns),
            Set::empty(),
            substituted(fields, ExprView::FunctionCall { name, args }, field, path)->0,
            other,
            Set::empty(),
        ) == expr_outcome(
            group_engine(fields, rows, keys, columns),
            Set::empty(),
            ExprView::FunctionCall { name, args },
            field,
            path,
        ),
    decreases open_fields(fields, path), 1nat, args, args.len() + 1,
{
    let e = ExprView::FunctionCall { name, args };
    let es = substituted_all(fields, args, field, path)->0;
    parts_substitute(fields, args, field, path);
    aggregates_are_no_functions();
    flat_parts(name, es);
    own_parts(columns, name, args, field);
    if name == "COUNT"@ && args.len() == 0 {
    } else if aggregate_name(name) && args.len() > 0 {
        assert(substituted(fields, args[0], field, path) == Some(es[0]));
        assert(own(columns, args[0], field));
        rows_kept(fields, rows, columns, args[0], field, path, other);
    } else if name == "COALESCE"@ {
        group_first_kept(fields, rows, keys, columns, args, 0, field, path, other);
    } else {
        group_args_kept(fields, rows, keys, columns, args, 0, field, path, seq![], other);
    }
}

proof fn group_first_kept(
    fields: Seq<FieldDefView>,
    rows: Seq<RowView>,
    keys: Set<Seq<char>>,
    columns: Map<Seq<char>, ValueTypeView>,
    args: Seq<ExprView>,
    k: nat,
    field: Seq<char>,
    path: Set<Seq<char>>,
    other: Seq<char>,
)
    requires
        grouped(fields, keys, columns),
        forall|j: int| 0 <= j < args.len() ==> own(columns, #[trigger] args[j], field),
        path.contains(field),
        first_outcome(
            group_engine(fields, rows, keys, columns),
            Set::empty(),
            args,
            k,
            field,
            path,
        ) is Ok,
        substituted_all(fields, args, field, path) is Some,
        forall|j: int|
            0 <= j < args.len() ==> flat(
                #[trigger] (substituted_all(fields, args, field, path)->0)[j],
            ),
    ensures
        first_outcome(
            group_source_engine(rows, keys, columns),
            Set::empty(),
            substituted_all(fields, args, field, path)->0,
            k,
            other,
            Set::empty(),
        ) == first_outcome(
            group_engine(fields, rows, keys, columns),
            Set::empty(),
            args,
            k,
            field,
            path,
        ),
    decreases open_fields(fields, path), 1nat, args, args.len() - k,
{
    let engine = group_engine(fields, rows, keys, columns);
    parts_substitute(fields, args, field, path);
    if k < args.len() {
        let arg = args[k as int];
        assert(flat((substituted_all(fields, args, field, path)->0)[k as int]));
        group_value_kept(fields, rows, keys, columns, arg, field, path, other);
        if expr_outcome(engine, Set::empty(), arg, field, path) == Ok::<
            Option<ValueView>,
            EvalErrorView,
        >(None) {
            group_first_kept(fields, rows, keys, columns, args, k + 1, field, path, other);
        }
    }
}

proof fn group_args_kept(
    fields: Seq<FieldDefView>,
    rows: Seq<RowView>,
    keys: Set<Seq<char>>,
    columns: Map<Seq<char>, ValueTypeView>,
    args: Seq<ExprView>,
    k: nat,
    field: Seq<char>,
    path: Set<Seq<char>>,
    acc: Seq<Option<ValueView>>,
    other: Seq<char>,
)
    requires
        grouped(fields, keys, columns),
        forall|j: int| 0 <= j < args.len() ==> own(columns, #[trigger] args[j], field),
        path.contains(field),
        args_outcome(
            group_engine(fields, rows, keys, columns),
            Set::empty(),
            args,
            k,
            field,
            path,
            acc,
        ) is Ok,
        substituted_all(fields, args, field, path) is Some,
        forall|j: int|
            0 <= j < args.len() ==> flat(
                #[trigger] (substituted_all(fields, args, field, path)->0)[j],
            ),
    ensures
        args_outcome(
            group_source_engine(rows, keys, columns),
            Set::empty(),
            substituted_all(fields, args, field, path)->0,
            k,
            other,
            Set::empty(),
            acc,
        ) == args_outcome(
            group_engine(fields, rows, keys, columns),
            Set::empty(),
            args,
            k,
            field,
            path,
            acc,
        ),
    decreases open_fields(fields, path), 1nat, args, args.len() - k,
{
    let engine = group_engine(fields, rows, keys, columns);
    parts_substitute(fields, args, field, path);
    if k < args.len() {
        let arg = args[k as int];
        assert(flat((substituted_all(fields, args, field, path)->0)[k as int]));
        group_value_kept(fields, rows, keys, columns, arg, field, path, other);
        let v = expr_outcome(engine, Set::empty(), arg, field, path)->Ok_0;
        group_args_kept(
            fields,
            rows,
            keys,
            columns,
            args,
            k + 1,
            field,
            path,
            acc.push(v),
            other,
        );
    }
}

/// Where a definition that is accepted and groups by columns of its source has
/// values over a group, each field that is written in terms of source columns,
/// with no aggregate inside another, has the same value when it is evaluated
/// over those columns alone.
pub proof fn grouped_fields_keep_their_values(
    def: TransformDefView,
    c: Scope,
    group_by: Seq<GroupByKeyView>,
    rows: Seq<RowView>,
    values: Values,
    i: int,
)
    requires
        valid(def, c),
        def.fields == c.fields,
        def.key_space == (KeySpaceView::Aggregate { group_by }),
        groups_by_columns(group_by),
        field_values(definition_group_engine(def, rows, c.columns), Set::empty()) == Ok::<
            Values,
            EvalErrorView,
        >(values),
        0 <= i < def.fields.len(),
        substituted_field(def.fields, i) is Some,
        flat(substituted_field(def.fields, i)->0),
    ensures
        values.contains_key(def.fields[i].name),
        expr_outcome(
            group_source_engine(rows, key_columns(group_by), c.columns),
            Set::empty(),
            substituted_field(def.fields, i)->0,
            def.fields[i].name,
            Set::empty(),
        ) == Ok::<Option<ValueView>, EvalErrorView>(values[def.fields[i].name]),
{
    let f = def.fields[i];
    let keys = key_columns(group_by);
    let engine = definition_group_engine(def, rows, c.columns);
    accepted_names_resolve(def, c);
    accepted_keys_pass(def, c, group_by);
    assert forall|j: int| 0 <= j < c.fields.len() implies own(
        c.columns,
        #[trigger] c.fields[j].expr,
        c.fields[j].name,
    ) by {
        if references(c.fields[j].expr).contains(c.fields[j].name) {
            assert(resolves(c, c.fields[j].name, c.fields[j].name));
        }
    }
    fields_have_their_values(engine, Set::empty());
    assert(engine.fields[i].name == f.name);
    assert(is_field(engine.fields, f.name));
    assert(field_outcome(engine, Set::empty(), i, Set::empty()) is Ok);
    group_value_kept(
        def.fields,
        rows,
        keys,
        c.columns,
        f.expr,
        f.name,
        Set::empty().insert(f.name),
        f.name,
    );
}

} // verus!
