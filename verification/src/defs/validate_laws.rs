//! Which definitions are accepted, told by what stands where in them.

use vstd::prelude::*;

use crate::defs::ast::{
    ExprView, FieldDefView, GroupByKeyView, KeySpaceView, TransformDefView, ValueTypeView,
};
use crate::defs::deps::{cyclic, distinct_names, is_field, references};
use crate::defs::model::RelationshipCardinality;
use crate::defs::occurrence_laws::{
    directly_in, held_by_child, held_in_child, holds, is_aggregate, named_columns_stand_there,
    outside_is_held, path, stands_aggregated, stands_bare, stands_outside,
};
use crate::defs::pg_type::PgTypeView;
use crate::defs::registry;
use crate::defs::typing::{field_types, Scope};
use crate::defs::validate::{
    duplicates, first_problem, group_problem, group_problem_from, grouped_fields, key_for,
    key_problem, key_problems, key_space_problem, path_problem, path_problem_from, path_problems,
    resolves, shadowing, unresolved, unresolved_from, valid,
};
use crate::defs::validation_error::ValidationErrorView;

verus! {

// ---------------------------------------------------------------------------
// Looking for the first problem
// ---------------------------------------------------------------------------

proof fn nothing_is_found(i: int, n: int, f: spec_fn(int) -> Option<ValidationErrorView>)
    ensures
        first_problem(i, n, f) is None <==> forall|k: int| i <= k < n ==> (#[trigger] f(k)) is None,
        first_problem(i, n, f) matches Some(e) ==> exists|k: int|
            i <= k < n && #[trigger] f(k) == Some(e),
    decreases n - i,
{
    if i < n {
        nothing_is_found(i + 1, n, f);
        if f(i) is None && first_problem(i + 1, n, f) is None {
            assert forall|k: int| i <= k < n implies (#[trigger] f(k)) is None by {
                if k > i {
                    assert(f(k) is None);
                }
            }
        }
    }
}

// ---------------------------------------------------------------------------
// Paths
// ---------------------------------------------------------------------------

/// A call or operator that is no aggregate has the part as its own operand or
/// argument.
spec fn bare_below(e: ExprView, part: ExprView) -> bool {
    exists|around: ExprView| #[trigger]
        holds(e, around) && directly_in(around, part) && !is_aggregate(around)
}

spec fn leads_to_many(c: Scope, rel: Seq<char>) -> bool {
    c.relationships[rel].cardinality == RelationshipCardinality::ToMany
}

spec fn path_in_place(
    c: Scope,
    e: ExprView,
    rel: Seq<char>,
    column: Seq<char>,
    grouped: bool,
    inside: bool,
) -> bool {
    let p = path(rel, column);
    &&& c.relationships.contains_key(rel)
    &&& leads_to_many(c, rel) ==> !bare_below(e, p) && (e == p ==> inside)
    &&& !leads_to_many(c, rel) && !grouped ==> !stands_aggregated(e, p) && (e == p ==> !inside)
}

spec fn paths_in_place(c: Scope, e: ExprView, grouped: bool, inside: bool) -> bool {
    forall|rel: Seq<char>, column: Seq<char>| #[trigger]
        holds(e, path(rel, column)) ==> path_in_place(c, e, rel, column, grouped, inside)
}

proof fn below_is_below_a_child(e: ExprView, child: ExprView, part: ExprView)
    requires
        directly_in(e, child),
    ensures
        bare_below(child, part) || (child == part && !is_aggregate(e)) ==> bare_below(e, part),
        stands_aggregated(child, part) || (child == part && is_aggregate(e)) ==> stands_aggregated(
            e,
            part,
        ),
{
    assert(holds(e, e));
    if bare_below(child, part) {
        let around = choose|around: ExprView| #[trigger]
            holds(child, around) && directly_in(around, part) && !is_aggregate(around);
        held_by_child(e, child, around);
    }
    if stands_aggregated(child, part) {
        let around = choose|around: ExprView| #[trigger]
            holds(child, around) && directly_in(around, part) && is_aggregate(around);
        held_by_child(e, child, around);
    }
}

proof fn bare_below_some_child(e: ExprView, part: ExprView) -> (child: ExprView)
    requires
        bare_below(e, part),
    ensures
        directly_in(e, child),
        bare_below(child, part) || (child == part && !is_aggregate(e)),
        holds(child, part),
{
    let around = choose|around: ExprView| #[trigger]
        holds(e, around) && directly_in(around, part) && !is_aggregate(around);
    if around == e {
        part
    } else {
        let child = held_in_child(e, around);
        part_is_held(child, around, part);
        child
    }
}

proof fn aggregated_in_some_child(e: ExprView, part: ExprView) -> (child: ExprView)
    requires
        stands_aggregated(e, part),
    ensures
        directly_in(e, child),
        stands_aggregated(child, part) || (child == part && is_aggregate(e)),
        holds(child, part),
{
    let around = choose|around: ExprView| #[trigger]
        holds(e, around) && directly_in(around, part) && is_aggregate(around);
    if around == e {
        part
    } else {
        let child = held_in_child(e, around);
        part_is_held(child, around, part);
        child
    }
}

proof fn part_is_held(e: ExprView, around: ExprView, part: ExprView)
    requires
        holds(e, around),
        directly_in(around, part),
    ensures
        holds(e, part),
    decreases e,
{
    if e == around {
        held_by_child(e, part, part);
    } else {
        match e {
            ExprView::BinaryOp { op, lhs, rhs } => {
                if holds(*lhs, around) {
                    part_is_held(*lhs, around, part);
                } else {
                    part_is_held(*rhs, around, part);
                }
            },
            ExprView::FunctionCall { name, args } => {
                assert(e->args == args);
                let i = choose|i: int| 0 <= i < args.len() && holds(#[trigger] args[i], around);
                part_is_held(args[i], around, part);
                assert(holds(args[i], part));
            },
            _ => {},
        }
    }
}

proof fn in_place_child_by_child(c: Scope, e: ExprView, grouped: bool, inside: bool)
    requires
        !(e is RelationshipPath),
    ensures
        paths_in_place(c, e, grouped, inside) <==> forall|child: ExprView| #[trigger]
            directly_in(e, child) ==> paths_in_place(c, child, grouped, is_aggregate(e)),
{
    if paths_in_place(c, e, grouped, inside) {
        assert forall|child: ExprView| #[trigger]
            directly_in(e, child) implies paths_in_place(c, child, grouped, is_aggregate(e)) by {
            assert forall|rel: Seq<char>, column: Seq<char>| #[trigger]
                holds(child, path(rel, column)) implies path_in_place(
                c,
                child,
                rel,
                column,
                grouped,
                is_aggregate(e),
            ) by {
                held_by_child(e, child, path(rel, column));
                below_is_below_a_child(e, child, path(rel, column));
                assert(path_in_place(c, e, rel, column, grouped, inside));
            }
        }
    }
    if forall|child: ExprView| #[trigger]
        directly_in(e, child) ==> paths_in_place(c, child, grouped, is_aggregate(e)) {
        assert forall|rel: Seq<char>, column: Seq<char>| #[trigger]
            holds(e, path(rel, column)) implies path_in_place(
            c,
            e,
            rel,
            column,
            grouped,
            inside,
        ) by {
            let p = path(rel, column);
            let child = held_in_child(e, p);
            assert(path_in_place(c, child, rel, column, grouped, is_aggregate(e)));
            if bare_below(e, p) {
                let other = bare_below_some_child(e, p);
                assert(path_in_place(c, other, rel, column, grouped, is_aggregate(e)));
            }
            if stands_aggregated(e, p) {
                let other = aggregated_in_some_child(e, p);
                assert(path_in_place(c, other, rel, column, grouped, is_aggregate(e)));
            }
        }
    }
}

proof fn paths_are_checked(c: Scope, e: ExprView, field: Seq<char>, grouped: bool, inside: bool)
    ensures
        path_problem(c, e, field, grouped, inside) is None <==> paths_in_place(
            c,
            e,
            grouped,
            inside,
        ),
    decreases e, 0nat,
{
    match e {
        ExprView::RelationshipPath { rel, column } => {
            assert(holds(e, path(rel, column)));
            assert forall|around: ExprView, part: ExprView|
                #![trigger holds(e, around), directly_in(around, part)]
                holds(e, around) implies !directly_in(around, part) by {
                assert(around == e);
            }
            assert forall|r: Seq<char>, k: Seq<char>| #[trigger] holds(e, path(r, k)) implies r
                == rel && k == column by {
                assert(e == path(r, k));
            }
        },
        ExprView::BinaryOp { op, lhs, rhs } => {
            paths_are_checked(c, *lhs, field, grouped, false);
            paths_are_checked(c, *rhs, field, grouped, false);
            in_place_child_by_child(c, e, grouped, inside);
            assert(directly_in(e, *lhs) && directly_in(e, *rhs));
        },
        ExprView::FunctionCall { name, args } => {
            assert(e->args == args);
            registry::aggregate_functions_have_rows(name);
            args_are_checked(c, args, 0, field, grouped, is_aggregate(e));
            in_place_child_by_child(c, e, grouped, inside);
            assert forall|i: int| 0 <= i < args.len() implies directly_in(
                e,
                #[trigger] args[i],
            ) by {
                assert(args.contains(args[i]));
            }
            if forall|i: int|
                0 <= i < args.len() ==> paths_in_place(
                    c,
                    #[trigger] args[i],
                    grouped,
                    is_aggregate(e),
                ) {
                assert forall|child: ExprView| #[trigger]
                    directly_in(e, child) implies paths_in_place(
                    c,
                    child,
                    grouped,
                    is_aggregate(e),
                ) by {
                    assert(args[args.index_of(child)] == child);
                }
            }
        },
        _ => {},
    }
}

proof fn args_are_checked(
    c: Scope,
    args: Seq<ExprView>,
    k: nat,
    field: Seq<char>,
    grouped: bool,
    inside: bool,
)
    ensures
        path_problem_from(c, args, k, field, grouped, inside) is None <==> forall|i: int|
            k <= i < args.len() ==> paths_in_place(c, #[trigger] args[i], grouped, inside),
    decreases args, args.len() - k,
{
    if k < args.len() {
        paths_are_checked(c, args[k as int], field, grouped, inside);
        args_are_checked(c, args, k + 1, field, grouped, inside);
    }
}

/// Every path is through a known relationship; one that leads to many rows
/// stands nowhere but as the argument of an aggregate, and one that leads to
/// one row nowhere as that of an aggregate, unless groups are formed.
pub open spec fn paths_stand_well(c: Scope, e: ExprView, grouped: bool) -> bool {
    forall|rel: Seq<char>, column: Seq<char>| #[trigger]
        holds(e, path(rel, column)) ==> {
            &&& c.relationships.contains_key(rel)
            &&& c.relationships[rel].cardinality == RelationshipCardinality::ToMany
                ==> !stands_bare(e, path(rel, column))
            &&& c.relationships[rel].cardinality == RelationshipCardinality::ToOne && !grouped
                ==> !stands_aggregated(e, path(rel, column))
        }
}

/// A field's expression has no problem with its paths exactly if they stand
/// well.
pub proof fn paths_pass_where_they_stand_well(
    c: Scope,
    e: ExprView,
    field: Seq<char>,
    grouped: bool,
)
    ensures
        path_problem(c, e, field, grouped, false) is None <==> paths_stand_well(c, e, grouped),
{
    paths_are_checked(c, e, field, grouped, false);
    assert forall|rel: Seq<char>, column: Seq<char>| #[trigger]
        holds(e, path(rel, column)) implies path_in_place(c, e, rel, column, grouped, false) == ({
        &&& c.relationships.contains_key(rel)
        &&& c.relationships[rel].cardinality == RelationshipCardinality::ToMany ==> !stands_bare(
            e,
            path(rel, column),
        )
        &&& c.relationships[rel].cardinality == RelationshipCardinality::ToOne && !grouped
            ==> !stands_aggregated(e, path(rel, column))
    }) by {}
}

/// What is reported of a path is so: the relationship is not known, or the
/// path stands where it should not.
pub proof fn reported_paths_stand_badly(
    c: Scope,
    e: ExprView,
    field: Seq<char>,
    grouped: bool,
    inside: bool,
)
    ensures
        path_problem(c, e, field, grouped, inside) matches Some(x) ==> match x {
            ValidationErrorView::UnknownRelationship { field: f, rel } => f == field
                && !c.relationships.contains_key(rel) && exists|column: Seq<char>| #[trigger]
                holds(e, path(rel, column)),
            ValidationErrorView::RelationshipToManyRequiresAggregate { field: f, rel, column } => {
                &&& f == field
                &&& c.relationships.contains_key(rel)
                &&& c.relationships[rel].cardinality == RelationshipCardinality::ToMany
                &&& holds(e, path(rel, column))
                &&& stands_bare(e, path(rel, column))
                &&& e == path(rel, column) ==> !inside
            },
            ValidationErrorView::RelationshipToOneWrappedInAggregate { field: f, rel, column } => {
                &&& f == field
                &&& !grouped
                &&& c.relationships.contains_key(rel)
                &&& c.relationships[rel].cardinality == RelationshipCardinality::ToOne
                &&& holds(e, path(rel, column))
                &&& stands_aggregated(e, path(rel, column)) || (inside && e == path(rel, column))
            },
            _ => false,
        },
    decreases e, 0nat,
{
    match e {
        ExprView::RelationshipPath { rel, column } => {
            assert(holds(e, path(rel, column)));
        },
        ExprView::BinaryOp { op, lhs, rhs } => {
            reported_paths_stand_badly(c, *lhs, field, grouped, false);
            reported_paths_stand_badly(c, *rhs, field, grouped, false);
            assert(directly_in(e, *lhs) && directly_in(e, *rhs));
            report_goes_up(e, *lhs, false);
            report_goes_up(e, *rhs, false);
        },
        ExprView::FunctionCall { name, args } => {
            assert(e->args == args);
            registry::aggregate_functions_have_rows(name);
            reported_arguments_stand_badly(c, e, args, 0, field, grouped, is_aggregate(e));
        },
        _ => {},
    }
}

spec fn seen_from_above(e: ExprView, child: ExprView, p: ExprView, inside: bool) -> bool {
    &&& holds(child, p) ==> holds(e, p)
    &&& stands_bare(child, p) && (child == p ==> !inside) ==> stands_bare(e, p)
    &&& stands_aggregated(child, p) || (inside && child == p) ==> stands_aggregated(e, p)
}

proof fn report_goes_up(e: ExprView, child: ExprView, inside: bool)
    requires
        directly_in(e, child),
        inside == is_aggregate(e),
    ensures
        forall|rel: Seq<char>, column: Seq<char>|
            seen_from_above(e, child, #[trigger] path(rel, column), inside),
{
    assert forall|rel: Seq<char>, column: Seq<char>|
        seen_from_above(e, child, #[trigger] path(rel, column), inside) by {
        let p = path(rel, column);
        below_is_below_a_child(e, child, p);
        if holds(child, p) {
            held_by_child(e, child, p);
        }
        if stands_bare(child, p) && child != p {
            assert(bare_below(child, p));
        }
    }
}

proof fn reported_arguments_stand_badly(
    c: Scope,
    e: ExprView,
    args: Seq<ExprView>,
    k: nat,
    field: Seq<char>,
    grouped: bool,
    inside: bool,
)
    requires
        e is FunctionCall,
        e->args == args,
        inside == is_aggregate(e),
    ensures
        path_problem_from(c, args, k, field, grouped, inside) matches Some(x) ==> match x {
            ValidationErrorView::UnknownRelationship { field: f, rel } => f == field
                && !c.relationships.contains_key(rel) && exists|column: Seq<char>| #[trigger]
                holds(e, path(rel, column)),
            ValidationErrorView::RelationshipToManyRequiresAggregate { field: f, rel, column } => {
                &&& f == field
                &&& c.relationships.contains_key(rel)
                &&& c.relationships[rel].cardinality == RelationshipCardinality::ToMany
                &&& holds(e, path(rel, column))
                &&& stands_bare(e, path(rel, column))
            },
            ValidationErrorView::RelationshipToOneWrappedInAggregate { field: f, rel, column } => {
                &&& f == field
                &&& !grouped
                &&& c.relationships.contains_key(rel)
                &&& c.relationships[rel].cardinality == RelationshipCardinality::ToOne
                &&& holds(e, path(rel, column))
                &&& stands_aggregated(e, path(rel, column))
            },
            _ => false,
        },
    decreases args, args.len() - k,
{
    if k < args.len() {
        let child = args[k as int];
        assert(args.contains(child));
        reported_paths_stand_badly(c, child, field, grouped, inside);
        reported_arguments_stand_badly(c, e, args, k + 1, field, grouped, inside);
        report_goes_up(e, child, inside);
    }
}

// ---------------------------------------------------------------------------
// Groups
// ---------------------------------------------------------------------------

spec fn column_grouped(
    c: Scope,
    group_by: Seq<GroupByKeyView>,
    e: ExprView,
    n: Seq<char>,
    inside: bool,
) -> bool {
    !inside && stands_outside(e, ExprView::Column(n)) && c.columns.contains_key(n)
        ==> group_by.contains(GroupByKeyView::Column(n))
}

spec fn path_grouped(
    c: Scope,
    group_by: Seq<GroupByKeyView>,
    e: ExprView,
    rel: Seq<char>,
    column: Seq<char>,
    inside: bool,
) -> bool {
    holds(e, path(rel, column)) && c.relationships.contains_key(rel) ==> {
        &&& c.relationships[rel].cardinality == RelationshipCardinality::ToOne
        &&& !inside && stands_outside(e, path(rel, column)) ==> group_by.contains(
            GroupByKeyView::RelationshipPath { rel, column },
        )
    }
}

spec fn all_grouped(c: Scope, group_by: Seq<GroupByKeyView>, e: ExprView, inside: bool) -> bool {
    &&& forall|n: Seq<char>| #[trigger] column_grouped(c, group_by, e, n, inside)
    &&& forall|rel: Seq<char>, column: Seq<char>| #[trigger]
        path_grouped(c, group_by, e, rel, column, inside)
}

proof fn grouped_argument_by_argument(
    c: Scope,
    group_by: Seq<GroupByKeyView>,
    e: ExprView,
    inside: bool,
)
    requires
        e is FunctionCall,
    ensures
        all_grouped(c, group_by, e, inside) <==> forall|i: int|
            0 <= i < e->args.len() ==> all_grouped(
                c,
                group_by,
                #[trigger] e->args[i],
                inside || is_aggregate(e),
            ),
{
    let args = e->args;
    let deep = inside || is_aggregate(e);
    if all_grouped(c, group_by, e, inside) {
        assert forall|i: int| 0 <= i < args.len() implies all_grouped(
            c,
            group_by,
            #[trigger] args[i],
            deep,
        ) by {
            assert forall|n: Seq<char>| #[trigger] column_grouped(c, group_by, args[i], n, deep) by {
                assert(column_grouped(c, group_by, e, n, inside));
            }
            assert forall|rel: Seq<char>, column: Seq<char>| #[trigger]
                path_grouped(c, group_by, args[i], rel, column, deep) by {
                assert(path_grouped(c, group_by, e, rel, column, inside));
            }
        }
    }
    if forall|i: int|
        0 <= i < args.len() ==> all_grouped(c, group_by, #[trigger] args[i], deep) {
        assert forall|n: Seq<char>| #[trigger] column_grouped(c, group_by, e, n, inside) by {
            if !inside && stands_outside(e, ExprView::Column(n)) {
                let i = choose|i: int|
                    0 <= i < args.len() && stands_outside(
                        #[trigger] args[i],
                        ExprView::Column(n),
                    );
                assert(column_grouped(c, group_by, args[i], n, deep));
            }
        }
        assert forall|rel: Seq<char>, column: Seq<char>| #[trigger]
            path_grouped(c, group_by, e, rel, column, inside) by {
            let p = path(rel, column);
            if holds(e, p) {
                let i = choose|i: int| 0 <= i < args.len() && holds(#[trigger] args[i], p);
                assert(path_grouped(c, group_by, args[i], rel, column, deep));
            }
            if !inside && stands_outside(e, p) {
                let i = choose|i: int| 0 <= i < args.len() && stands_outside(#[trigger] args[i], p);
                outside_is_held(args[i], p);
                assert(path_grouped(c, group_by, args[i], rel, column, deep));
            }
        }
    }
}

proof fn groups_are_checked(
    c: Scope,
    group_by: Seq<GroupByKeyView>,
    e: ExprView,
    field: Seq<char>,
    inside: bool,
)
    ensures
        group_problem(c, group_by, e, field, inside) is None <==> all_grouped(
            c,
            group_by,
            e,
            inside,
        ),
    decreases e, 0nat,
{
    match e {
        ExprView::Column(name) => {
            assert(column_grouped(c, group_by, e, name, inside) == (!inside
                && c.columns.contains_key(name) ==> group_by.contains(
                GroupByKeyView::Column(name),
            )));
            assert forall|n: Seq<char>| n != name implies #[trigger] column_grouped(
                c,
                group_by,
                e,
                n,
                inside,
            ) by {}
        },
        ExprView::RelationshipPath { rel, column } => {
            assert(holds(e, path(rel, column)) && stands_outside(e, path(rel, column)));
            assert(path_grouped(c, group_by, e, rel, column, inside) ==> (
            c.relationships.contains_key(rel) ==> c.relationships[rel].cardinality
                == RelationshipCardinality::ToOne && (!inside ==> group_by.contains(
                GroupByKeyView::RelationshipPath { rel, column },
            ))));
            assert forall|r: Seq<char>, k: Seq<char>|
                (r != rel || k != column) implies #[trigger] path_grouped(
                c,
                group_by,
                e,
                r,
                k,
                inside,
            ) by {
                assert(e != path(r, k));
            }
            assert forall|n: Seq<char>| #[trigger] column_grouped(c, group_by, e, n, inside) by {}
        },
        ExprView::BinaryOp { op, lhs, rhs } => {
            groups_are_checked(c, group_by, *lhs, field, inside);
            groups_are_checked(c, group_by, *rhs, field, inside);
            assert forall|n: Seq<char>| #[trigger]
                column_grouped(c, group_by, e, n, inside) == (column_grouped(
                c,
                group_by,
                *lhs,
                n,
                inside,
            ) && column_grouped(c, group_by, *rhs, n, inside)) by {}
            assert forall|r: Seq<char>, k: Seq<char>| #[trigger]
                path_grouped(c, group_by, e, r, k, inside) == (path_grouped(
                c,
                group_by,
                *lhs,
                r,
                k,
                inside,
            ) && path_grouped(c, group_by, *rhs, r, k, inside)) by {
                if stands_outside(*lhs, path(r, k)) {
                    outside_is_held(*lhs, path(r, k));
                }
                if stands_outside(*rhs, path(r, k)) {
                    outside_is_held(*rhs, path(r, k));
                }
            }
            if all_grouped(c, group_by, e, inside) {
                assert forall|n: Seq<char>|
                    #![trigger column_grouped(c, group_by, *lhs, n, inside)]
                    #![trigger column_grouped(c, group_by, *rhs, n, inside)]
                    column_grouped(c, group_by, *lhs, n, inside) && column_grouped(
                        c,
                        group_by,
                        *rhs,
                        n,
                        inside,
                    ) by {
                    assert(column_grouped(c, group_by, e, n, inside));
                }
                assert forall|r: Seq<char>, k: Seq<char>|
                    #![trigger path_grouped(c, group_by, *lhs, r, k, inside)]
                    #![trigger path_grouped(c, group_by, *rhs, r, k, inside)]
                    path_grouped(c, group_by, *lhs, r, k, inside) && path_grouped(
                        c,
                        group_by,
                        *rhs,
                        r,
                        k,
                        inside,
                    ) by {
                    assert(path_grouped(c, group_by, e, r, k, inside));
                }
            }
        },
        ExprView::FunctionCall { name, args } => {
            assert(e->args == args);
            registry::aggregate_functions_have_rows(name);
            group_arguments_are_checked(
                c,
                group_by,
                args,
                0,
                field,
                inside || is_aggregate(e),
            );
            grouped_argument_by_argument(c, group_by, e, inside);
        },
        _ => {},
    }
}

proof fn group_arguments_are_checked(
    c: Scope,
    group_by: Seq<GroupByKeyView>,
    args: Seq<ExprView>,
    k: nat,
    field: Seq<char>,
    inside: bool,
)
    ensures
        group_problem_from(c, group_by, args, k, field, inside) is None <==> forall|i: int|
            k <= i < args.len() ==> all_grouped(c, group_by, #[trigger] args[i], inside),
    decreases args, args.len() - k,
{
    if k < args.len() {
        groups_are_checked(c, group_by, args[k as int], field, inside);
        group_arguments_are_checked(c, group_by, args, k + 1, field, inside);
    }
}

/// Outside aggregates an expression names only those source columns and paths
/// that rows are grouped by, and no path in it leads to many rows.
pub open spec fn has_one_value_for_a_group(
    c: Scope,
    group_by: Seq<GroupByKeyView>,
    e: ExprView,
) -> bool {
    &&& forall|n: Seq<char>| #[trigger]
        stands_outside(e, ExprView::Column(n)) && c.columns.contains_key(n) ==> group_by.contains(
            GroupByKeyView::Column(n),
        )
    &&& forall|rel: Seq<char>, column: Seq<char>| #[trigger]
        holds(e, path(rel, column)) && c.relationships.contains_key(rel)
            ==> c.relationships[rel].cardinality == RelationshipCardinality::ToOne
    &&& forall|rel: Seq<char>, column: Seq<char>| #[trigger]
        stands_outside(e, path(rel, column)) && c.relationships.contains_key(rel)
            ==> group_by.contains(GroupByKeyView::RelationshipPath { rel, column })
}

/// A field passes in a definition that forms groups exactly if it has one value
/// for a group.
pub proof fn grouped_fields_have_one_value(
    c: Scope,
    group_by: Seq<GroupByKeyView>,
    e: ExprView,
    field: Seq<char>,
)
    ensures
        group_problem(c, group_by, e, field, false) is None <==> has_one_value_for_a_group(
            c,
            group_by,
            e,
        ),
{
    groups_are_checked(c, group_by, e, field, false);
    if all_grouped(c, group_by, e, false) {
        assert forall|n: Seq<char>| #[trigger]
            stands_outside(e, ExprView::Column(n)) && c.columns.contains_key(
                n,
            ) implies group_by.contains(GroupByKeyView::Column(n)) by {
            assert(column_grouped(c, group_by, e, n, false));
        }
        assert forall|rel: Seq<char>, column: Seq<char>| #[trigger]
            holds(e, path(rel, column)) && c.relationships.contains_key(
                rel,
            ) implies c.relationships[rel].cardinality == RelationshipCardinality::ToOne by {
            assert(path_grouped(c, group_by, e, rel, column, false));
        }
        assert forall|rel: Seq<char>, column: Seq<char>| #[trigger]
            stands_outside(e, path(rel, column)) && c.relationships.contains_key(
                rel,
            ) implies group_by.contains(GroupByKeyView::RelationshipPath { rel, column }) by {
            outside_is_held(e, path(rel, column));
            assert(path_grouped(c, group_by, e, rel, column, false));
        }
    }
    if has_one_value_for_a_group(c, group_by, e) {
        assert forall|n: Seq<char>| #[trigger] column_grouped(c, group_by, e, n, false) by {
            assert(stands_outside(e, ExprView::Column(n)) || !stands_outside(
                e,
                ExprView::Column(n),
            ));
        }
        assert forall|rel: Seq<char>, column: Seq<char>| #[trigger]
            path_grouped(c, group_by, e, rel, column, false) by {
            assert(holds(e, path(rel, column)) || !holds(e, path(rel, column)));
            assert(stands_outside(e, path(rel, column)) || !stands_outside(e, path(rel, column)));
        }
    }
}

// ---------------------------------------------------------------------------
// Keys
// ---------------------------------------------------------------------------

/// Equal values of the type are always spelled the same.
pub open spec fn spelled_one_way(t: ValueTypeView) -> bool {
    match t {
        ValueTypeView::Integer(_)
        | ValueTypeView::Numeric
        | ValueTypeView::Text
        | ValueTypeView::Boolean
        | ValueTypeView::Uuid => true,
        ValueTypeView::Float(_) => false,
        ValueTypeView::Other(p) => match p {
            PgTypeView::Oid
            | PgTypeView::Bytea
            | PgTypeView::Date
            | PgTypeView::Time
            | PgTypeView::TimeTz
            | PgTypeView::Timestamp => true,
            _ => false,
        },
    }
}

/// Rows can be grouped by the key: it is a column of the source, or one at the
/// end of a relationship that leads to one row, of a type whose equal values
/// are spelled the same.
pub open spec fn can_be_key(c: Scope, key: GroupByKeyView) -> bool {
    match key {
        GroupByKeyView::Column(n) => c.columns.contains_key(n) && spelled_one_way(c.columns[n]),
        GroupByKeyView::RelationshipPath { rel, column } => {
            &&& c.relationships.contains_key(rel)
            &&& c.relationships[rel].cardinality == RelationshipCardinality::ToOne
            &&& c.relationships[rel].column_types.contains_key(column)
            &&& spelled_one_way(c.relationships[rel].column_types[column])
        },
    }
}

/// A key passes exactly if rows can be grouped by it.
pub proof fn keys_pass_where_rows_can_be_grouped(c: Scope, key: GroupByKeyView)
    ensures
        key_problem(c, key) is None <==> can_be_key(c, key),
{
}

proof fn first_key_of_the_name(group_by: Seq<GroupByKeyView>, name: Seq<char>, i: nat)
    ensures
        match key_for(group_by, name, i) {
            Some(key) => exists|k: int|
                i <= k < group_by.len() && #[trigger] group_by[k] == key
                    && key.target_column_name() == name && forall|j: int|
                    i <= j < k ==> (#[trigger] group_by[j]).target_column_name() != name,
            None => forall|k: int|
                i <= k < group_by.len() ==> (#[trigger] group_by[k]).target_column_name() != name,
        },
    decreases group_by.len() - i,
{
    if i < group_by.len() && group_by[i as int].target_column_name() != name {
        first_key_of_the_name(group_by, name, i + 1);
        if let Some(key) = key_for(group_by, name, i + 1) {
            let k = choose|k: int|
                i + 1 <= k < group_by.len() && #[trigger] group_by[k] == key
                    && key.target_column_name() == name && forall|j: int|
                    i + 1 <= j < k ==> (#[trigger] group_by[j]).target_column_name() != name;
            assert(group_by[k] == key);
            assert forall|j: int| i <= j < k implies (
            #[trigger] group_by[j]).target_column_name() != name by {}
        }
    } else if i < group_by.len() {
        assert(group_by[i as int].target_column_name() == name);
    }
}

/// The field is the key that is the first to give its target column the
/// field's name, if there is one.
pub open spec fn is_its_key(group_by: Seq<GroupByKeyView>, f: FieldDefView) -> bool {
    forall|k: int|
        0 <= k < group_by.len() && (#[trigger] group_by[k]).target_column_name() == f.name && (
        forall|j: int|
            0 <= j < k ==> (#[trigger] group_by[j]).target_column_name() != f.name) ==> f.expr
            == group_by[k].as_expr()
}

proof fn grouped_field_passes(c: Scope, group_by: Seq<GroupByKeyView>, i: int)
    ensures
        grouped_fields(c, group_by)(i) is None <==> is_its_key(group_by, c.fields[i])
            && has_one_value_for_a_group(c, group_by, c.fields[i].expr),
{
    let f = c.fields[i];
    grouped_fields_have_one_value(c, group_by, f.expr, f.name);
    first_key_of_the_name(group_by, f.name, 0);
    if let Some(key) = key_for(group_by, f.name, 0) {
        let k = choose|k: int|
            0 <= k < group_by.len() && #[trigger] group_by[k] == key && key.target_column_name()
                == f.name && forall|j: int|
                0 <= j < k ==> (#[trigger] group_by[j]).target_column_name() != f.name;
        assert(group_by[k].target_column_name() == f.name);
        if f.expr == key.as_expr() {
            assert forall|m: int|
                0 <= m < group_by.len() && (#[trigger] group_by[m]).target_column_name() == f.name
                    && (forall|j: int|
                    0 <= j < m ==> (#[trigger] group_by[j]).target_column_name()
                        != f.name) implies f.expr == group_by[m].as_expr() by {
                if m < k {
                    assert(group_by[m].target_column_name() != f.name);
                } else if k < m {
                    assert(group_by[k].target_column_name() != f.name);
                }
            }
        }
    }
}

// ---------------------------------------------------------------------------
// Names
// ---------------------------------------------------------------------------

proof fn references_resolve(c: Scope, field: Seq<char>, refs: Seq<Seq<char>>, k: nat)
    ensures
        unresolved_from(c, field, refs, k) is None <==> forall|i: int|
            k <= i < refs.len() ==> resolves(c, field, #[trigger] refs[i]),
    decreases refs.len() - k,
{
    if k < refs.len() {
        references_resolve(c, field, refs, k + 1);
    }
}

/// Every column that stands in the field is one of the source, or the name of
/// another field.
pub open spec fn names_known_columns(c: Scope, f: FieldDefView) -> bool {
    forall|n: Seq<char>| #[trigger]
        holds(f.expr, ExprView::Column(n)) ==> c.columns.contains_key(n) || (n != f.name && exists|
            j: int,
        |
            0 <= j < c.fields.len() && #[trigger] c.fields[j].name == n)
}

proof fn field_names_pass(c: Scope, i: int)
    ensures
        unresolved(c)(i) is None <==> names_known_columns(c, c.fields[i]),
{
    let f = c.fields[i];
    let refs = references(f.expr);
    references_resolve(c, f.name, refs, 0);
    if unresolved(c)(i) is None {
        assert forall|n: Seq<char>| #[trigger]
            holds(f.expr, ExprView::Column(n)) implies c.columns.contains_key(n) || (n != f.name
            && exists|j: int| 0 <= j < c.fields.len() && #[trigger] c.fields[j].name == n) by {
            named_columns_stand_there(f.expr, n);
            assert(resolves(c, f.name, refs[refs.index_of(n)]));
        }
    }
    if names_known_columns(c, f) {
        assert forall|k: int| 0 <= k < refs.len() implies resolves(
            c,
            f.name,
            #[trigger] refs[k],
        ) by {
            assert(refs.contains(refs[k]));
            named_columns_stand_there(f.expr, refs[k]);
            assert(holds(f.expr, ExprView::Column(refs[k])));
        }
    }
}

proof fn names_differ(fields: Seq<FieldDefView>)
    ensures
        first_problem(0, fields.len() as int, duplicates(fields)) is None <==> distinct_names(
            fields,
        ),
{
    let f = duplicates(fields);
    nothing_is_found(0, fields.len() as int, f);
    if first_problem(0, fields.len() as int, f) is None {
        assert forall|i: int, j: int| 0 <= i < j < fields.len() implies #[trigger] fields[i].name
            != #[trigger] fields[j].name by {
            assert(f(j) is None);
            assert(fields.take(j)[i].name == fields[i].name);
        }
    }
    if distinct_names(fields) {
        assert forall|j: int| 0 <= j < fields.len() implies (#[trigger] f(j)) is None by {
            if is_field(fields.take(j), fields[j].name) {
                let i = choose|i: int|
                    0 <= i < fields.take(j).len() && #[trigger] fields.take(j)[i].name
                        == fields[j].name;
                assert(fields[i].name == fields[j].name);
            }
        }
    }
}

// ---------------------------------------------------------------------------
// Whole definitions
// ---------------------------------------------------------------------------

/// What every definition has to meet: it does not write to its source, its
/// fields have names of their own and name only columns and fields, none of
/// them depends on itself, and their paths stand well and have types that
/// agree.
pub open spec fn makes_sense(def: TransformDefView, c: Scope) -> bool {
    &&& def.target != def.source
    &&& forall|i: int, j: int|
        0 <= i < j < c.fields.len() ==> #[trigger] c.fields[i].name != #[trigger] c.fields[j].name
    &&& forall|i: int| 0 <= i < c.fields.len() ==> names_known_columns(c, #[trigger] c.fields[i])
    &&& !cyclic(c.fields)
    &&& forall|i: int|
        0 <= i < c.fields.len() ==> paths_stand_well(
            c,
            (#[trigger] c.fields[i]).expr,
            def.key_space is Aggregate,
        )
    &&& field_types(c) is Ok
}

/// What the fields have to meet for the rows that the target is to have.
pub open spec fn fits_its_rows(def: TransformDefView, c: Scope) -> bool {
    match def.key_space {
        KeySpaceView::OneToOne => forall|i: int|
            0 <= i < c.fields.len() ==> (c.columns.contains_key((#[trigger] c.fields[i]).name)
                ==> c.fields[i].expr == ExprView::Column(c.fields[i].name)),
        KeySpaceView::Aggregate { group_by } => {
            &&& forall|k: int| 0 <= k < group_by.len() ==> can_be_key(c, #[trigger] group_by[k])
            &&& forall|i: int|
                0 <= i < c.fields.len() ==> is_its_key(group_by, #[trigger] c.fields[i])
                    && has_one_value_for_a_group(c, group_by, c.fields[i].expr)
        },
    }
}

proof fn rows_are_checked(def: TransformDefView, c: Scope)
    ensures
        key_space_problem(c, def.key_space) is None <==> fits_its_rows(def, c),
{
    let n = c.fields.len() as int;
    match def.key_space {
        KeySpaceView::OneToOne => {
            nothing_is_found(0, n, shadowing(c));
            if first_problem(0, n, shadowing(c)) is None {
                assert forall|i: int| 0 <= i < n implies (c.columns.contains_key(
                    (#[trigger] c.fields[i]).name,
                ) ==> c.fields[i].expr == ExprView::Column(c.fields[i].name)) by {
                    assert(shadowing(c)(i) is None);
                }
            }
        },
        KeySpaceView::Aggregate { group_by } => {
            let m = group_by.len() as int;
            nothing_is_found(0, m, key_problems(c, group_by));
            nothing_is_found(0, n, grouped_fields(c, group_by));
            assert forall|k: int| 0 <= k < m implies ((#[trigger] key_problems(c, group_by)(k))
                is None) == can_be_key(c, group_by[k]) by {
                keys_pass_where_rows_can_be_grouped(c, group_by[k]);
            }
            assert forall|i: int| 0 <= i < n implies ((#[trigger] grouped_fields(c, group_by)(i))
                is None) == (is_its_key(group_by, c.fields[i]) && has_one_value_for_a_group(
                c,
                group_by,
                c.fields[i].expr,
            )) by {
                grouped_field_passes(c, group_by, i);
            }
            if first_problem(0, m, key_problems(c, group_by)) is None {
                assert forall|k: int| 0 <= k < m implies can_be_key(c, #[trigger] group_by[k]) by {
                    assert(key_problems(c, group_by)(k) is None);
                }
            }
            if first_problem(0, n, grouped_fields(c, group_by)) is None {
                assert forall|i: int| 0 <= i < n implies is_its_key(
                    group_by,
                    #[trigger] c.fields[i],
                ) && has_one_value_for_a_group(c, group_by, c.fields[i].expr) by {
                    assert(grouped_fields(c, group_by)(i) is None);
                }
            }
        },
    }
}

/// A definition is accepted exactly if it makes sense and its fields fit the
/// rows that the target is to have.
pub proof fn accepted_exactly_if_it_makes_sense(def: TransformDefView, c: Scope)
    ensures
        valid(def, c) <==> makes_sense(def, c) && fits_its_rows(def, c),
{
    let n = c.fields.len() as int;
    let grouped = def.key_space is Aggregate;
    rows_are_checked(def, c);
    names_differ(c.fields);
    nothing_is_found(0, n, unresolved(c));
    nothing_is_found(0, n, path_problems(c, grouped));
    assert forall|i: int| 0 <= i < n implies ((#[trigger] unresolved(c)(i)) is None)
        == names_known_columns(c, c.fields[i]) by {
        field_names_pass(c, i);
    }
    assert forall|i: int| 0 <= i < n implies ((#[trigger] path_problems(c, grouped)(i)) is None)
        == paths_stand_well(c, c.fields[i].expr, grouped) by {
        paths_pass_where_they_stand_well(c, c.fields[i].expr, c.fields[i].name, grouped);
    }
    if first_problem(0, n, unresolved(c)) is None {
        assert forall|i: int| 0 <= i < n implies names_known_columns(
            c,
            #[trigger] c.fields[i],
        ) by {
            assert(unresolved(c)(i) is None);
        }
    }
    if first_problem(0, n, path_problems(c, grouped)) is None {
        assert forall|i: int| 0 <= i < n implies paths_stand_well(
            c,
            (#[trigger] c.fields[i]).expr,
            grouped,
        ) by {
            assert(path_problems(c, grouped)(i) is None);
        }
    }
}

} // verus!
