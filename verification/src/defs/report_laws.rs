//! What validation reports of a definition is so.

use vstd::prelude::*;

use crate::defs::ast::{ExprView, GroupByKeyView, KeySpaceView, TransformDefView};
use crate::defs::deps::{is_field, references};
use crate::defs::model::RelationshipCardinality;
use crate::defs::occurrence_laws::{holds, named_columns_stand_there, path, stands_outside};
use crate::defs::registry;
use crate::defs::typing::Scope;
use crate::defs::validate::{
    duplicates, first_problem, group_problem, group_problem_from, grouped_fields, key_for,
    key_problem, key_problems, problem_before_cycles, shadowing, unresolved, unresolved_from,
};
use crate::defs::validate_laws::can_be_key;
use crate::defs::validation_error::ValidationErrorView;

verus! {

/// The problem that is found is that of some index, and none before it has
/// one.
proof fn found_at(
    i: int,
    n: int,
    f: spec_fn(int) -> Option<ValidationErrorView>,
    x: ValidationErrorView,
) -> (k: int)
    requires
        first_problem(i, n, f) == Some(x),
    ensures
        i <= k < n,
        f(k) == Some(x),
        forall|j: int| i <= j < k ==> #[trigger] f(j) is None,
    decreases n - i,
{
    if f(i) is Some {
        i
    } else {
        found_at(i + 1, n, f, x)
    }
}

proof fn found_in_arguments(
    c: Scope,
    group_by: Seq<GroupByKeyView>,
    args: Seq<ExprView>,
    k: nat,
    field: Seq<char>,
    inside: bool,
    x: ValidationErrorView,
) -> (i: int)
    requires
        group_problem_from(c, group_by, args, k, field, inside) == Some(x),
    ensures
        k <= i < args.len(),
        group_problem(c, group_by, args[i], field, inside) == Some(x),
    decreases args.len() - k,
{
    if group_problem(c, group_by, args[k as int], field, inside) is Some {
        k as int
    } else {
        found_in_arguments(c, group_by, args, k + 1, field, inside, x)
    }
}

/// What is reported of a grouped field is so: a column or a to-one path that
/// the rows are not grouped by stands outside aggregates, or a to-many path
/// stands anywhere.
pub open spec fn stands_ungrouped(
    c: Scope,
    group_by: Seq<GroupByKeyView>,
    e: ExprView,
    field: Seq<char>,
    x: ValidationErrorView,
) -> bool {
    match x {
        ValidationErrorView::UngroupedColumnReference { field: f, column } => {
            &&& f == field
            &&& c.columns.contains_key(column)
            &&& !group_by.contains(GroupByKeyView::Column(column))
            &&& stands_outside(e, ExprView::Column(column))
        },
        ValidationErrorView::UngroupedRelationshipReference { field: f, rel, column } => {
            &&& f == field
            &&& c.relationships.contains_key(rel)
            &&& c.relationships[rel].cardinality == RelationshipCardinality::ToOne
            &&& !group_by.contains(GroupByKeyView::RelationshipPath { rel, column })
            &&& stands_outside(e, path(rel, column))
        },
        ValidationErrorView::RelationshipPathInAggregate { field: f, rel, column } => {
            &&& f == field
            &&& c.relationships.contains_key(rel)
            &&& c.relationships[rel].cardinality == RelationshipCardinality::ToMany
            &&& holds(e, path(rel, column))
        },
        _ => false,
    }
}

proof fn group_reports_are_so(
    c: Scope,
    group_by: Seq<GroupByKeyView>,
    e: ExprView,
    field: Seq<char>,
    inside: bool,
)
    ensures
        group_problem(c, group_by, e, field, inside) matches Some(x) ==> (if inside {
            x is RelationshipPathInAggregate
        } else {
            true
        }) && stands_ungrouped(c, group_by, e, field, x),
    decreases e,
{
    if let Some(x) = group_problem(c, group_by, e, field, inside) {
        match e {
            ExprView::BinaryOp { op, lhs, rhs } => {
                group_reports_are_so(c, group_by, *lhs, field, inside);
                group_reports_are_so(c, group_by, *rhs, field, inside);
            },
            ExprView::FunctionCall { name, args } => {
                assert(e->args == args);
                registry::aggregate_functions_have_rows(name);
                let within = inside || registry::aggregate_named(name) is Some;
                let i = found_in_arguments(c, group_by, args, 0, field, within, x);
                group_reports_are_so(c, group_by, args[i], field, within);
            },
            _ => {},
        }
    }
}

/// What is reported of a key is so.
pub open spec fn no_key(c: Scope, key: GroupByKeyView, x: ValidationErrorView) -> bool {
    &&& !can_be_key(c, key)
    &&& match x {
        ValidationErrorView::UnresolvedGroupByColumn { column } => key == GroupByKeyView::Column(
            column,
        ) && !c.columns.contains_key(column),
        ValidationErrorView::UnknownGroupByRelationship { rel } => key matches
            GroupByKeyView::RelationshipPath { rel: r, .. } && r == rel
            && !c.relationships.contains_key(rel),
        ValidationErrorView::GroupByRelationshipMustBeToOne { rel, column } => key == (
        GroupByKeyView::RelationshipPath { rel, column }) && c.relationships.contains_key(rel)
            && c.relationships[rel].cardinality == RelationshipCardinality::ToMany,
        ValidationErrorView::UnknownRelationshipColumn { table, column } => key matches
            GroupByKeyView::RelationshipPath { rel, column: k } && k == column
            && c.relationships.contains_key(rel) && c.relationships[rel].to_table == table
            && !c.relationships[rel].column_types.contains_key(column),
        ValidationErrorView::UnsupportedGroupByKeyType { column, value_type } => match key {
            GroupByKeyView::Column(k) => k == column && c.columns.contains_key(column)
                && c.columns[column] == value_type,
            GroupByKeyView::RelationshipPath { rel, column: k } => k == column
                && c.relationships.contains_key(rel)
                && c.relationships[rel].column_types.contains_key(column)
                && c.relationships[rel].column_types[column] == value_type,
        },
        _ => false,
    }
}

proof fn keyed_by(group_by: Seq<GroupByKeyView>, name: Seq<char>, i: nat)
    ensures
        key_for(group_by, name, i) matches Some(k) ==> group_by.contains(k)
            && k.target_column_name() == name,
    decreases group_by.len() - i,
{
    if i < group_by.len() && group_by[i as int].target_column_name() != name {
        keyed_by(group_by, name, i + 1);
    }
}

/// What is reported of the key space of a definition is so.
pub open spec fn rows_do_not_fit(def: TransformDefView, c: Scope, x: ValidationErrorView) -> bool {
    match def.key_space {
        KeySpaceView::OneToOne => exists|i: int|
            #![trigger c.fields[i]]
            0 <= i < c.fields.len() && x
                == (ValidationErrorView::CalculatedFieldShadowsSourceColumn {
                field: c.fields[i].name,
            }) && c.columns.contains_key(c.fields[i].name) && c.fields[i].expr != ExprView::Column(
                c.fields[i].name,
            ),
        KeySpaceView::Aggregate { group_by } => {
            ||| exists|k: int| 0 <= k < group_by.len() && no_key(c, #[trigger] group_by[k], x)
            ||| exists|i: int|
                0 <= i < c.fields.len() && stands_ungrouped(
                    c,
                    group_by,
                    (#[trigger] c.fields[i]).expr,
                    c.fields[i].name,
                    x,
                )
            ||| exists|i: int, k: int|
                #![trigger c.fields[i], group_by[k]]
                0 <= i < c.fields.len() && 0 <= k < group_by.len() && x
                    == (ValidationErrorView::GroupingColumnFieldMustBePassthrough {
                    field: c.fields[i].name,
                }) && group_by[k].target_column_name() == c.fields[i].name && c.fields[i].expr
                    != group_by[k].as_expr()
        },
    }
}

/// What is reported of the names of a definition is so: two fields share a
/// name, or a field names a column that there is not.
pub open spec fn names_are_wrong(c: Scope, x: ValidationErrorView) -> bool {
    match x {
        ValidationErrorView::DuplicateFieldName { name } => exists|i: int, j: int|
            #![trigger c.fields[i], c.fields[j]]
            0 <= i < j < c.fields.len() && c.fields[i].name == name && c.fields[j].name == name,
        ValidationErrorView::UnresolvedColumn { field, column } => {
            &&& !c.columns.contains_key(column)
            &&& column == field || !is_field(c.fields, column)
            &&& exists|i: int|
                0 <= i < c.fields.len() && (#[trigger] c.fields[i]).name == field && holds(
                    c.fields[i].expr,
                    ExprView::Column(column),
                )
        },
        _ => false,
    }
}

proof fn unresolved_is_named(
    c: Scope,
    field: Seq<char>,
    refs: Seq<Seq<char>>,
    k: nat,
)
    ensures
        unresolved_from(c, field, refs, k) matches Some(x) ==> (x matches
            ValidationErrorView::UnresolvedColumn { field: f, column } && f == field
            && refs.contains(column) && !c.columns.contains_key(column) && (column == field
            || !is_field(c.fields, column))),
    decreases refs.len() - k,
{
    if k < refs.len() {
        unresolved_is_named(c, field, refs, k + 1);
    }
}

proof fn key_space_reports_are_so(def: TransformDefView, c: Scope)
    ensures
        crate::defs::validate::key_space_problem(c, def.key_space) matches Some(x)
            ==> rows_do_not_fit(def, c, x),
{
    let n = c.fields.len() as int;
    if let Some(x) = crate::defs::validate::key_space_problem(c, def.key_space) {
        match def.key_space {
            KeySpaceView::OneToOne => {
                let i = found_at(0, n, shadowing(c), x);
                assert(c.fields[i].name == c.fields[i].name);
            },
            KeySpaceView::Aggregate { group_by } => {
                let m = group_by.len() as int;
                if first_problem(0, m, key_problems(c, group_by)) is Some {
                    let k = found_at(0, m, key_problems(c, group_by), x);
                    assert(key_problem(c, group_by[k]) == Some(x));
                    assert(no_key(c, group_by[k], x));
                } else {
                    let i = found_at(0, n, grouped_fields(c, group_by), x);
                    let f = c.fields[i];
                    keyed_by(group_by, f.name, 0);
                    group_reports_are_so(c, group_by, f.expr, f.name, false);
                    if group_problem(c, group_by, f.expr, f.name, false) == Some(x) {
                        assert(stands_ungrouped(c, group_by, c.fields[i].expr, c.fields[i].name, x));
                    } else {
                        let key = key_for(group_by, f.name, 0)->0;
                        let k = group_by.index_of(key);
                        assert(group_by[k] == key);
                    }
                }
            },
        }
    }
}

/// Whatever is reported of a definition before it is typed is so: its target is
/// its source, its rows do not fit, or its names are wrong.
pub proof fn reported_problems_are_so(def: TransformDefView, c: Scope)
    ensures
        problem_before_cycles(def, c) matches Some(x) ==> {
            ||| x == (ValidationErrorView::TargetEqualsSource { table: def.target }) && def.target
                == def.source
            ||| rows_do_not_fit(def, c, x)
            ||| names_are_wrong(c, x)
        },
        def.target == def.source ==> problem_before_cycles(def, c) == Some(
            ValidationErrorView::TargetEqualsSource { table: def.target },
        ),
{
    let n = c.fields.len() as int;
    key_space_reports_are_so(def, c);
    if let Some(x) = problem_before_cycles(def, c) {
        if def.target != def.source && crate::defs::validate::key_space_problem(
            c,
            def.key_space,
        ) is None {
            if first_problem(0, n, duplicates(c.fields)) is Some {
                let j = found_at(0, n, duplicates(c.fields), x);
                let name = c.fields[j].name;
                let i = choose|i: int|
                    0 <= i < c.fields.take(j).len() && #[trigger] c.fields.take(j)[i].name == name;
                assert(c.fields[i].name == name);
            } else {
                let i = found_at(0, n, unresolved(c), x);
                let f = c.fields[i];
                let refs = references(f.expr);
                unresolved_is_named(c, f.name, refs, 0);
                if let ValidationErrorView::UnresolvedColumn { field, column } = x {
                    named_columns_stand_there(f.expr, column);
                    assert(c.fields[i].name == field);
                }
            }
        }
    }
}

} // verus!
