//! What holds of targets that are worked out from their sources: the columns
//! that are read are all that evaluation asks for.

use vstd::prelude::*;

use crate::defs::ast::{
    ExprView, FieldDefView, GroupByKeyView, KeySpaceView, TransformDefView, ValueTypeView,
};
use crate::defs::deps::{
    distinct_names, field_at, field_at_finds, is_field, open_fields, opening_shrinks, references,
    references_of_each,
};
use crate::defs::eval::{
    definition_engine, definition_group_engine, field_values, group_engine, key_columns,
    row_engine, over_row, values_over_rows,
};
use crate::defs::eval_laws::{
    accepted_names_resolve, args_outcome, expr_outcome, faithful, field_outcome,
    fields_have_their_values, first_outcome, memory_of_expr, no_problem_at,
};
use crate::defs::oracle::reads_column;
use crate::defs::recompute::{group_reads, holds_key};
use crate::defs::registry::{aggregate_functions_have_rows, aggregate_name};
use crate::defs::relationship_data::{no_relationships, RowView};
use crate::defs::typing::Scope;
use crate::defs::validate::{
    group_problem, group_problem_from, grouped_fields, groups_by_column, resolves, valid,
};
use crate::defs::value::{EvalErrorView, ValueView};

verus! {

/// The row holds every source column that `e` names in the field `field`.
spec fn supplied(fields: Seq<FieldDefView>, row: RowView, e: ExprView, field: Seq<char>) -> bool {
    forall|r: Seq<char>| #[trigger]
        references(e).contains(r) && (r == field || !is_field(fields, r)) ==> row.contains_key(r)
}

/// The row holds every source column that the fields read.
pub open spec fn holds_all_read(fields: Seq<FieldDefView>, row: RowView) -> bool {
    forall|n: Seq<char>| #[trigger] reads_column(fields, n) ==> row.contains_key(n)
}

proof fn field_supplied(fields: Seq<FieldDefView>, row: RowView, i: int)
    requires
        holds_all_read(fields, row),
        0 <= i < fields.len(),
    ensures
        supplied(fields, row, fields[i].expr, fields[i].name),
{
    assert forall|r: Seq<char>| #[trigger]
        references(fields[i].expr).contains(r) && (r == fields[i].name || !is_field(
            fields,
            r,
        )) implies row.contains_key(r) by {
        assert(reads_column(fields, r));
    }
}

proof fn operands_supplied(
    fields: Seq<FieldDefView>,
    row: RowView,
    e: ExprView,
    lhs: ExprView,
    rhs: ExprView,
    field: Seq<char>,
)
    requires
        references(e) == references(lhs) + references(rhs),
        supplied(fields, row, e, field),
    ensures
        supplied(fields, row, lhs, field),
        supplied(fields, row, rhs, field),
{
    let (a, b) = (references(lhs), references(rhs));
    assert forall|r: Seq<char>| #[trigger]
        a.contains(r) && (r == field || !is_field(fields, r)) implies row.contains_key(r) by {
        assert((a + b)[a.index_of(r)] == r);
        assert(references(e).contains(r));
    }
    assert forall|r: Seq<char>| #[trigger]
        b.contains(r) && (r == field || !is_field(fields, r)) implies row.contains_key(r) by {
        assert((a + b)[a.len() + b.index_of(r)] == r);
        assert(references(e).contains(r));
    }
}

proof fn argument_supplied(
    fields: Seq<FieldDefView>,
    row: RowView,
    name: Seq<char>,
    args: Seq<ExprView>,
    field: Seq<char>,
    k: int,
)
    requires
        supplied(fields, row, ExprView::FunctionCall { name, args }, field),
        0 <= k < args.len(),
    ensures
        supplied(fields, row, args[k], field),
{
    assert forall|r: Seq<char>| #[trigger]
        references(args[k]).contains(r) && (r == field || !is_field(
            fields,
            r,
        )) implies row.contains_key(r) by {
        references_of_each(args, k, r);
        assert(references(ExprView::FunctionCall { name, args }).contains(r));
    }
}

// ---------------------------------------------------------------------------
// Over a row
// ---------------------------------------------------------------------------

proof fn field_misses_nothing(
    fields: Seq<FieldDefView>,
    row: RowView,
    columns: Map<Seq<char>, ValueTypeView>,
    excluded: Set<Seq<char>>,
    i: int,
    path: Set<Seq<char>>,
)
    requires
        holds_all_read(fields, row),
        0 <= i < fields.len(),
    ensures
        field_outcome(
            row_engine(fields, row, columns, no_relationships()),
            excluded,
            i,
            path,
        ) matches Err(x) ==> !(x is MissingColumn),
    decreases open_fields(fields, path), 0nat, fields[i].expr, 0nat,
{
    let f = fields[i];
    if !excluded.contains(f.name) && !path.contains(f.name) {
        opening_shrinks(fields, path, i);
        field_supplied(fields, row, i);
        expr_misses_nothing(
            fields,
            row,
            columns,
            excluded,
            f.expr,
            f.name,
            path.insert(f.name),
        );
    }
}

proof fn expr_misses_nothing(
    fields: Seq<FieldDefView>,
    row: RowView,
    columns: Map<Seq<char>, ValueTypeView>,
    excluded: Set<Seq<char>>,
    e: ExprView,
    field: Seq<char>,
    path: Set<Seq<char>>,
)
    requires
        holds_all_read(fields, row),
        supplied(fields, row, e, field),
    ensures
        expr_outcome(
            row_engine(fields, row, columns, no_relationships()),
            excluded,
            e,
            field,
            path,
        ) matches Err(x) ==> !(x is MissingColumn),
    decreases open_fields(fields, path), 1nat, e, 0nat,
{
    match e {
        ExprView::Column(name) => {
            field_at_finds(fields, name);
            assert(references(e)[0] == name);
            assert(references(e).contains(name));
            if let Some(i) = field_at(fields, name) {
                field_misses_nothing(fields, row, columns, excluded, i, path);
            }
        },
        ExprView::BinaryOp { op, lhs, rhs } => {
            operands_supplied(fields, row, e, *lhs, *rhs, field);
            expr_misses_nothing(fields, row, columns, excluded, *lhs, field, path);
            expr_misses_nothing(fields, row, columns, excluded, *rhs, field, path);
        },
        ExprView::FunctionCall { name, args } => {
            call_misses_nothing(fields, row, columns, excluded, name, args, field, path);
        },
        _ => {},
    }
}

proof fn call_misses_nothing(
    fields: Seq<FieldDefView>,
    row: RowView,
    columns: Map<Seq<char>, ValueTypeView>,
    excluded: Set<Seq<char>>,
    name: Seq<char>,
    args: Seq<ExprView>,
    field: Seq<char>,
    path: Set<Seq<char>>,
)
    requires
        holds_all_read(fields, row),
        supplied(fields, row, ExprView::FunctionCall { name, args }, field),
    ensures
        expr_outcome(
            row_engine(fields, row, columns, no_relationships()),
            excluded,
            ExprView::FunctionCall { name, args },
            field,
            path,
        ) matches Err(x) ==> !(x is MissingColumn),
    decreases open_fields(fields, path), 1nat, args, args.len() + 1,
{
    assert forall|k: int| 0 <= k < args.len() implies supplied(
        fields,
        row,
        #[trigger] args[k],
        field,
    ) by {
        argument_supplied(fields, row, name, args, field, k);
    }
    first_misses_nothing(fields, row, columns, excluded, args, 0, field, path);
    args_miss_nothing(fields, row, columns, excluded, args, 0, field, path, seq![]);
}

proof fn first_misses_nothing(
    fields: Seq<FieldDefView>,
    row: RowView,
    columns: Map<Seq<char>, ValueTypeView>,
    excluded: Set<Seq<char>>,
    args: Seq<ExprView>,
    k: nat,
    field: Seq<char>,
    path: Set<Seq<char>>,
)
    requires
        holds_all_read(fields, row),
        forall|j: int| 0 <= j < args.len() ==> supplied(fields, row, #[trigger] args[j], field),
    ensures
        first_outcome(
            row_engine(fields, row, columns, no_relationships()),
            excluded,
            args,
            k,
            field,
            path,
        ) matches Err(x) ==> !(x is MissingColumn),
    decreases open_fields(fields, path), 1nat, args, args.len() - k,
{
    if k < args.len() {
        expr_misses_nothing(fields, row, columns, excluded, args[k as int], field, path);
        first_misses_nothing(fields, row, columns, excluded, args, k + 1, field, path);
    }
}

proof fn args_miss_nothing(
    fields: Seq<FieldDefView>,
    row: RowView,
    columns: Map<Seq<char>, ValueTypeView>,
    excluded: Set<Seq<char>>,
    args: Seq<ExprView>,
    k: nat,
    field: Seq<char>,
    path: Set<Seq<char>>,
    acc: Seq<Option<ValueView>>,
)
    requires
        holds_all_read(fields, row),
        forall|j: int| 0 <= j < args.len() ==> supplied(fields, row, #[trigger] args[j], field),
    ensures
        args_outcome(
            row_engine(fields, row, columns, no_relationships()),
            excluded,
            args,
            k,
            field,
            path,
            acc,
        ) matches Err(x) ==> !(x is MissingColumn),
    decreases open_fields(fields, path), 1nat, args, args.len() - k,
{
    let engine = row_engine(fields, row, columns, no_relationships());
    if k < args.len() {
        expr_misses_nothing(fields, row, columns, excluded, args[k as int], field, path);
        if let Ok(v) = expr_outcome(engine, excluded, args[k as int], field, path) {
            args_miss_nothing(
                fields,
                row,
                columns,
                excluded,
                args,
                k + 1,
                field,
                path,
                acc.push(v),
            );
        }
    }
}

/// The columns that `referenced_source_columns` lists are all that evaluation
/// over a row asks for: a row that holds them is never reported to lack one.
pub proof fn listed_columns_suffice(
    def: TransformDefView,
    row: RowView,
    columns: Map<Seq<char>, ValueTypeView>,
    excluded: Set<Seq<char>>,
)
    requires
        distinct_names(def.fields),
        holds_all_read(def.fields, row),
    ensures
        field_values(
            definition_engine(def, row, columns, no_relationships()),
            excluded,
        ) matches Err(x) ==> !(x is MissingColumn),
{
    let engine = definition_engine(def, row, columns, no_relationships());
    fields_have_their_values(engine, excluded);
    if let Err(x) = field_values(engine, excluded) {
        let i = choose|i: int|
            0 <= i < engine.fields.len() && #[trigger] field_outcome(
                engine,
                excluded,
                i,
                Set::empty(),
            ) == Err::<Option<ValueView>, EvalErrorView>(x) && forall|k: int|
                0 <= k < i ==> (#[trigger] field_outcome(engine, excluded, k, Set::empty())) is Ok;
        field_misses_nothing(def.fields, row, columns, excluded, i, Set::empty());
    }
}

// ---------------------------------------------------------------------------
// Over a group
// ---------------------------------------------------------------------------

/// Every row holds the columns that the definition reads, and its keys.
pub open spec fn all_hold_all_read(def: TransformDefView, rows: Seq<RowView>) -> bool {
    forall|i: int, n: Seq<char>|
        #![trigger rows[i], group_reads(def, n)]
        0 <= i < rows.len() && group_reads(def, n) ==> rows[i].contains_key(n)
}

/// What a definition that forms groups, and its rows, have to be like.
spec fn readable(
    def: TransformDefView,
    c: Scope,
    group_by: Seq<GroupByKeyView>,
    rows: Seq<RowView>,
) -> bool {
    &&& valid(def, c)
    &&& def.fields == c.fields
    &&& def.key_space == (KeySpaceView::Aggregate { group_by })
    &&& rows.len() > 0
    &&& all_hold_all_read(def, rows)
}

/// `e` is part of an accepted field of a definition that forms groups.
spec fn acceptable(
    def: TransformDefView,
    c: Scope,
    group_by: Seq<GroupByKeyView>,
    rows: Seq<RowView>,
    e: ExprView,
    field: Seq<char>,
) -> bool {
    &&& group_problem(c, group_by, e, field, false) is None
    &&& forall|r: Seq<char>| #[trigger]
        references(e).contains(r) ==> c.columns.contains_key(r) || is_field(c.fields, r)
    &&& forall|i: int|
        0 <= i < rows.len() ==> supplied(c.fields, #[trigger] rows[i], e, field)
}

proof fn rows_hold_all_read(
    def: TransformDefView,
    c: Scope,
    group_by: Seq<GroupByKeyView>,
    rows: Seq<RowView>,
    i: int,
)
    requires
        readable(def, c, group_by, rows),
        0 <= i < rows.len(),
    ensures
        holds_all_read(c.fields, rows[i]),
{
    assert forall|n: Seq<char>| #[trigger] reads_column(c.fields, n) implies rows[i].contains_key(
        n,
    ) by {
        assert(group_reads(def, n));
    }
}

proof fn field_acceptable(
    def: TransformDefView,
    c: Scope,
    group_by: Seq<GroupByKeyView>,
    rows: Seq<RowView>,
    i: int,
)
    requires
        readable(def, c, group_by, rows),
        0 <= i < c.fields.len(),
    ensures
        acceptable(def, c, group_by, rows, c.fields[i].expr, c.fields[i].name),
{
    let f = c.fields[i];
    accepted_names_resolve(def, c);
    no_problem_at(0, c.fields.len() as int, grouped_fields(c, group_by), i);
    assert forall|r: Seq<char>| #[trigger]
        references(f.expr).contains(r) implies c.columns.contains_key(r) || is_field(
        c.fields,
        r,
    ) by {
        assert(references(c.fields[i].expr).contains(r));
        assert(resolves(c, f.name, r));
    }
    assert forall|j: int| 0 <= j < rows.len() implies supplied(
        c.fields,
        #[trigger] rows[j],
        f.expr,
        f.name,
    ) by {
        rows_hold_all_read(def, c, group_by, rows, j);
        field_supplied(c.fields, rows[j], i);
    }
}

proof fn operands_acceptable(
    def: TransformDefView,
    c: Scope,
    group_by: Seq<GroupByKeyView>,
    rows: Seq<RowView>,
    e: ExprView,
    lhs: ExprView,
    rhs: ExprView,
    field: Seq<char>,
)
    requires
        references(e) == references(lhs) + references(rhs),
        group_problem(c, group_by, lhs, field, false) is None,
        group_problem(c, group_by, rhs, field, false) is None,
        acceptable(def, c, group_by, rows, e, field),
    ensures
        acceptable(def, c, group_by, rows, lhs, field),
        acceptable(def, c, group_by, rows, rhs, field),
{
    let (a, b) = (references(lhs), references(rhs));
    assert forall|r: Seq<char>| #[trigger] a.contains(r) implies c.columns.contains_key(r)
        || is_field(c.fields, r) by {
        assert((a + b)[a.index_of(r)] == r);
        assert(references(e).contains(r));
    }
    assert forall|r: Seq<char>| #[trigger] b.contains(r) implies c.columns.contains_key(r)
        || is_field(c.fields, r) by {
        assert((a + b)[a.len() + b.index_of(r)] == r);
        assert(references(e).contains(r));
    }
    assert forall|i: int| 0 <= i < rows.len() implies supplied(
        c.fields,
        #[trigger] rows[i],
        lhs,
        field,
    ) && supplied(c.fields, rows[i], rhs, field) by {
        operands_supplied(c.fields, rows[i], e, lhs, rhs, field);
    }
}

proof fn no_problem_in_argument(
    c: Scope,
    group_by: Seq<GroupByKeyView>,
    args: Seq<ExprView>,
    k: nat,
    field: Seq<char>,
    j: int,
)
    requires
        group_problem_from(c, group_by, args, k, field, false) is None,
        k <= j < args.len(),
    ensures
        group_problem(c, group_by, args[j], field, false) is None,
    decreases args.len() - k,
{
    if k < j {
        no_problem_in_argument(c, group_by, args, k + 1, field, j);
    }
}

proof fn argument_acceptable(
    def: TransformDefView,
    c: Scope,
    group_by: Seq<GroupByKeyView>,
    rows: Seq<RowView>,
    name: Seq<char>,
    args: Seq<ExprView>,
    field: Seq<char>,
    k: int,
)
    requires
        !aggregate_name(name),
        acceptable(def, c, group_by, rows, ExprView::FunctionCall { name, args }, field),
        0 <= k < args.len(),
    ensures
        acceptable(def, c, group_by, rows, args[k], field),
{
    let e = ExprView::FunctionCall { name, args };
    aggregate_functions_have_rows(name);
    no_problem_in_argument(c, group_by, args, 0, field, k);
    assert forall|r: Seq<char>| #[trigger]
        references(args[k]).contains(r) implies c.columns.contains_key(r) || is_field(
        c.fields,
        r,
    ) by {
        references_of_each(args, k, r);
        assert(references(e).contains(r));
    }
    assert forall|i: int| 0 <= i < rows.len() implies supplied(
        c.fields,
        #[trigger] rows[i],
        args[k],
        field,
    ) by {
        argument_supplied(c.fields, rows[i], name, args, field, k);
    }
}

proof fn rows_miss_nothing(
    fields: Seq<FieldDefView>,
    rows: Seq<RowView>,
    columns: Map<Seq<char>, ValueTypeView>,
    arg: ExprView,
    field: Seq<char>,
)
    requires
        distinct_names(fields),
        forall|i: int|
            0 <= i < rows.len() ==> holds_all_read(fields, #[trigger] rows[i]) && supplied(
                fields,
                rows[i],
                arg,
                field,
            ),
    ensures
        values_over_rows(fields, rows, columns, arg, field) matches Err(x) ==> !(x is MissingColumn),
    decreases rows.len(),
{
    reveal(over_row);
    if rows.len() > 0 {
        let less = rows.drop_last();
        assert forall|i: int| 0 <= i < less.len() implies holds_all_read(fields, #[trigger] less[i])
            && supplied(fields, less[i], arg, field) by {
            assert(less[i] == rows[i]);
        }
        rows_miss_nothing(fields, less, columns, arg, field);
        let last = rows[rows.len() - 1];
        assert(holds_all_read(fields, last));
        let engine = row_engine(fields, rows.last(), columns, no_relationships());
        assert(faithful(engine, Set::empty(), Map::empty()));
        memory_of_expr(engine, Set::empty(), arg, field, Set::empty(), Map::empty());
        expr_misses_nothing(
            fields,
            rows.last(),
            columns,
            Set::empty(),
            arg,
            field,
            Set::empty(),
        );
    }
}

proof fn group_field_misses_nothing(
    def: TransformDefView,
    c: Scope,
    group_by: Seq<GroupByKeyView>,
    rows: Seq<RowView>,
    i: int,
    path: Set<Seq<char>>,
)
    requires
        readable(def, c, group_by, rows),
        0 <= i < c.fields.len(),
    ensures
        field_outcome(
            group_engine(c.fields, rows, key_columns(group_by), c.columns),
            Set::empty(),
            i,
            path,
        ) matches Err(x) ==> !(x is MissingColumn),
    decreases open_fields(c.fields, path), 0nat, c.fields[i].expr, 0nat,
{
    let f = c.fields[i];
    if !path.contains(f.name) {
        opening_shrinks(c.fields, path, i);
        field_acceptable(def, c, group_by, rows, i);
        group_expr_misses_nothing(
            def,
            c,
            group_by,
            rows,
            f.expr,
            f.name,
            path.insert(f.name),
        );
    }
}

proof fn group_expr_misses_nothing(
    def: TransformDefView,
    c: Scope,
    group_by: Seq<GroupByKeyView>,
    rows: Seq<RowView>,
    e: ExprView,
    field: Seq<char>,
    path: Set<Seq<char>>,
)
    requires
        readable(def, c, group_by, rows),
        acceptable(def, c, group_by, rows, e, field),
    ensures
        expr_outcome(
            group_engine(c.fields, rows, key_columns(group_by), c.columns),
            Set::empty(),
            e,
            field,
            path,
        ) matches Err(x) ==> !(x is MissingColumn),
    decreases open_fields(c.fields, path), 1nat, e, 1nat,
{
    match e {
        ExprView::Column(name) => {
            group_column_misses_nothing(def, c, group_by, rows, name, field, path);
        },
        ExprView::BinaryOp { op, lhs, rhs } => {
            operands_acceptable(def, c, group_by, rows, e, *lhs, *rhs, field);
            group_expr_misses_nothing(def, c, group_by, rows, *lhs, field, path);
            group_expr_misses_nothing(def, c, group_by, rows, *rhs, field, path);
        },
        ExprView::FunctionCall { name, args } => {
            group_call_misses_nothing(def, c, group_by, rows, name, args, field, path);
        },
        _ => {},
    }
}

proof fn group_column_misses_nothing(
    def: TransformDefView,
    c: Scope,
    group_by: Seq<GroupByKeyView>,
    rows: Seq<RowView>,
    name: Seq<char>,
    field: Seq<char>,
    path: Set<Seq<char>>,
)
    requires
        readable(def, c, group_by, rows),
        acceptable(def, c, group_by, rows, ExprView::Column(name), field),
    ensures
        expr_outcome(
            group_engine(c.fields, rows, key_columns(group_by), c.columns),
            Set::empty(),
            ExprView::Column(name),
            field,
            path,
        ) matches Err(x) ==> !(x is MissingColumn),
    decreases open_fields(c.fields, path), 1nat, ExprView::Column(name), 0nat,
{
    let keys = key_columns(group_by);
    field_at_finds(c.fields, name);
    assert(references(ExprView::Column(name))[0] == name);
    assert(references(ExprView::Column(name)).contains(name));
    if keys.contains(name) {
        assert(holds_key(group_by, name));
        assert(group_reads(def, name));
        assert(rows[0].contains_key(name));
    } else {
        if c.columns.contains_key(name) {
            let key = GroupByKeyView::Column(name);
            assert(groups_by_column(group_by, name));
            let j = group_by.index_of(key);
            assert(group_by[j].target_column_name() == name);
        }
        let i = field_at(c.fields, name)->0;
        group_field_misses_nothing(def, c, group_by, rows, i, path);
    }
}

proof fn group_call_misses_nothing(
    def: TransformDefView,
    c: Scope,
    group_by: Seq<GroupByKeyView>,
    rows: Seq<RowView>,
    name: Seq<char>,
    args: Seq<ExprView>,
    field: Seq<char>,
    path: Set<Seq<char>>,
)
    requires
        readable(def, c, group_by, rows),
        acceptable(def, c, group_by, rows, ExprView::FunctionCall { name, args }, field),
    ensures
        expr_outcome(
            group_engine(c.fields, rows, key_columns(group_by), c.columns),
            Set::empty(),
            ExprView::FunctionCall { name, args },
            field,
            path,
        ) matches Err(x) ==> !(x is MissingColumn),
    decreases open_fields(c.fields, path), 1nat, args, args.len() + 1,
{
    if aggregate_name(name) {
        if args.len() > 0 {
            accepted_names_resolve(def, c);
            assert forall|i: int| 0 <= i < rows.len() implies holds_all_read(
                c.fields,
                #[trigger] rows[i],
            ) && supplied(c.fields, rows[i], args[0], field) by {
                rows_hold_all_read(def, c, group_by, rows, i);
                argument_supplied(c.fields, rows[i], name, args, field, 0);
            }
            rows_miss_nothing(c.fields, rows, c.columns, args[0], field);
        } else if name != "COUNT"@ {
            group_args_miss_nothing(def, c, group_by, rows, args, 0, field, path, seq![]);
            group_first_misses_nothing(def, c, group_by, rows, args, 0, field, path);
        }
    } else {
        assert forall|k: int| 0 <= k < args.len() implies acceptable(
            def,
            c,
            group_by,
            rows,
            #[trigger] args[k],
            field,
        ) by {
            argument_acceptable(def, c, group_by, rows, name, args, field, k);
        }
        group_args_miss_nothing(def, c, group_by, rows, args, 0, field, path, seq![]);
        group_first_misses_nothing(def, c, group_by, rows, args, 0, field, path);
    }
}

proof fn group_first_misses_nothing(
    def: TransformDefView,
    c: Scope,
    group_by: Seq<GroupByKeyView>,
    rows: Seq<RowView>,
    args: Seq<ExprView>,
    k: nat,
    field: Seq<char>,
    path: Set<Seq<char>>,
)
    requires
        readable(def, c, group_by, rows),
        forall|j: int|
            0 <= j < args.len() ==> acceptable(def, c, group_by, rows, #[trigger] args[j], field),
    ensures
        first_outcome(
            group_engine(c.fields, rows, key_columns(group_by), c.columns),
            Set::empty(),
            args,
            k,
            field,
            path,
        ) matches Err(x) ==> !(x is MissingColumn),
    decreases open_fields(c.fields, path), 1nat, args, args.len() - k,
{
    if k < args.len() {
        group_expr_misses_nothing(def, c, group_by, rows, args[k as int], field, path);
        group_first_misses_nothing(def, c, group_by, rows, args, k + 1, field, path);
    }
}

proof fn group_args_miss_nothing(
    def: TransformDefView,
    c: Scope,
    group_by: Seq<GroupByKeyView>,
    rows: Seq<RowView>,
    args: Seq<ExprView>,
    k: nat,
    field: Seq<char>,
    path: Set<Seq<char>>,
    acc: Seq<Option<ValueView>>,
)
    requires
        readable(def, c, group_by, rows),
        forall|j: int|
            0 <= j < args.len() ==> acceptable(def, c, group_by, rows, #[trigger] args[j], field),
    ensures
        args_outcome(
            group_engine(c.fields, rows, key_columns(group_by), c.columns),
            Set::empty(),
            args,
            k,
            field,
            path,
            acc,
        ) matches Err(x) ==> !(x is MissingColumn),
    decreases open_fields(c.fields, path), 1nat, args, args.len() - k,
{
    let engine = group_engine(c.fields, rows, key_columns(group_by), c.columns);
    if k < args.len() {
        group_expr_misses_nothing(def, c, group_by, rows, args[k as int], field, path);
        if let Ok(v) = expr_outcome(engine, Set::empty(), args[k as int], field, path) {
            group_args_miss_nothing(
                def,
                c,
                group_by,
                rows,
                args,
                k + 1,
                field,
                path,
                acc.push(v),
            );
        }
    }
}

/// The columns that `grouped_source_columns` lists are all that evaluation of
/// an accepted definition over a group asks for: rows that hold them are
/// never reported to lack one.
pub proof fn grouped_columns_suffice(
    def: TransformDefView,
    c: Scope,
    group_by: Seq<GroupByKeyView>,
    rows: Seq<RowView>,
)
    requires
        valid(def, c),
        def.fields == c.fields,
        def.key_space == (KeySpaceView::Aggregate { group_by }),
        rows.len() > 0,
        all_hold_all_read(def, rows),
    ensures
        field_values(
            definition_group_engine(def, rows, c.columns),
            Set::empty(),
        ) matches Err(x) ==> !(x is MissingColumn),
{
    let engine = definition_group_engine(def, rows, c.columns);
    accepted_names_resolve(def, c);
    fields_have_their_values(engine, Set::empty());
    if let Err(x) = field_values(engine, Set::empty()) {
        let i = choose|i: int|
            0 <= i < engine.fields.len() && #[trigger] field_outcome(
                engine,
                Set::empty(),
                i,
                Set::empty(),
            ) == Err::<Option<ValueView>, EvalErrorView>(x) && forall|k: int|
                0 <= k < i ==> (#[trigger] field_outcome(
                    engine,
                    Set::empty(),
                    k,
                    Set::empty(),
                )) is Ok;
        group_field_misses_nothing(def, c, group_by, rows, i, Set::empty());
    }
}

} // verus!
