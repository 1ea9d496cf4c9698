//! What stands where in an expression, and that walking one finds it.

use vstd::prelude::*;

use crate::defs::ast::{ExprView, FieldDefView, GroupByKeyView, KeySpaceView, TransformDefView};
use crate::defs::deps::{references, references_of_all};
use crate::defs::eval::{
    definition_path_references, field_path_references, key_path_references, path_references,
    path_references_of_all,
};
use crate::defs::oracle::{followed, followed_by_all};
use crate::defs::registry::aggregate_name;

verus! {

/// `part` stands somewhere in `e`, or is all of it.
pub open spec fn holds(e: ExprView, part: ExprView) -> bool
    decreases e,
{
    ||| e == part
    ||| match e {
        ExprView::BinaryOp { op, lhs, rhs } => holds(*lhs, part) || holds(*rhs, part),
        ExprView::FunctionCall { name, args } => exists|i: int|
            0 <= i < args.len() && holds(#[trigger] args[i], part),
        _ => false,
    }
}

/// `part` is an operand or an argument of `e` itself.
pub open spec fn directly_in(e: ExprView, part: ExprView) -> bool {
    match e {
        ExprView::BinaryOp { op, lhs, rhs } => *lhs == part || *rhs == part,
        ExprView::FunctionCall { name, args } => args.contains(part),
        _ => false,
    }
}

/// A call of an aggregate.
pub open spec fn is_aggregate(e: ExprView) -> bool {
    e matches ExprView::FunctionCall { name, .. } && aggregate_name(name)
}

/// `part` stands in `e` at a place that is not the argument of an aggregate.
pub open spec fn stands_bare(e: ExprView, part: ExprView) -> bool {
    ||| e == part
    ||| exists|around: ExprView| #[trigger]
        holds(e, around) && directly_in(around, part) && !is_aggregate(around)
}

/// `part` is the argument of an aggregate somewhere in `e`.
pub open spec fn stands_aggregated(e: ExprView, part: ExprView) -> bool {
    exists|around: ExprView| #[trigger]
        holds(e, around) && directly_in(around, part) && is_aggregate(around)
}

/// `part` stands in `e` with no aggregate around it.
pub open spec fn stands_outside(e: ExprView, part: ExprView) -> bool
    decreases e,
{
    ||| e == part
    ||| match e {
        ExprView::BinaryOp { op, lhs, rhs } => stands_outside(*lhs, part) || stands_outside(
            *rhs,
            part,
        ),
        ExprView::FunctionCall { name, args } => !aggregate_name(name) && exists|i: int|
            0 <= i < args.len() && stands_outside(#[trigger] args[i], part),
        _ => false,
    }
}

/// What stands outside aggregates stands there.
pub proof fn outside_is_held(e: ExprView, part: ExprView)
    requires
        stands_outside(e, part),
    ensures
        holds(e, part),
    decreases e,
{
    if e != part {
        match e {
            ExprView::BinaryOp { op, lhs, rhs } => {
                if stands_outside(*lhs, part) {
                    outside_is_held(*lhs, part);
                } else {
                    outside_is_held(*rhs, part);
                }
            },
            ExprView::FunctionCall { name, args } => {
                assert(e->args == args);
                let i = choose|i: int|
                    0 <= i < args.len() && stands_outside(#[trigger] args[i], part);
                outside_is_held(args[i], part);
                assert(holds(args[i], part));
            },
            _ => {},
        }
    }
}

// ---------------------------------------------------------------------------
// Taking places apart
// ---------------------------------------------------------------------------

/// What stands in an operand or argument stands in the whole.
pub proof fn held_by_child(e: ExprView, child: ExprView, part: ExprView)
    requires
        directly_in(e, child),
        holds(child, part),
    ensures
        holds(e, part),
{
    if let ExprView::FunctionCall { name, args } = e {
        let i = args.index_of(child);
        assert(args[i] == child);
        assert(e->args == args);
    }
}

/// Where something other than the whole stands, an operand or argument holds
/// it.
pub proof fn held_in_child(e: ExprView, part: ExprView) -> (child: ExprView)
    requires
        holds(e, part),
        e != part,
    ensures
        directly_in(e, child),
        holds(child, part),
{
    match e {
        ExprView::BinaryOp { op, lhs, rhs } => if holds(*lhs, part) {
            *lhs
        } else {
            *rhs
        },
        ExprView::FunctionCall { name, args } => {
            let i = choose|i: int| 0 <= i < args.len() && holds(#[trigger] args[i], part);
            assert(args.contains(args[i]));
            args[i]
        },
        _ => e,
    }
}

// ---------------------------------------------------------------------------
// Columns
// ---------------------------------------------------------------------------

proof fn joined_contains<A>(a: Seq<A>, b: Seq<A>, x: A)
    ensures
        (a + b).contains(x) <==> a.contains(x) || b.contains(x),
{
    if a.contains(x) {
        assert((a + b)[a.index_of(x)] == x);
    }
    if b.contains(x) {
        assert((a + b)[a.len() + b.index_of(x)] == x);
    }
    if (a + b).contains(x) {
        let k = (a + b).index_of(x);
        if k < a.len() {
            assert(a[k] == x);
        } else {
            assert(b[k - a.len()] == x);
        }
    }
}

/// An expression names exactly the columns that stand in it.
pub proof fn named_columns_stand_there(e: ExprView, n: Seq<char>)
    ensures
        references(e).contains(n) <==> holds(e, ExprView::Column(n)),
    decreases e, 0nat,
{
    match e {
        ExprView::Column(name) => {
            assert(references(e)[0] == name);
        },
        ExprView::BinaryOp { op, lhs, rhs } => {
            named_columns_stand_there(*lhs, n);
            named_columns_stand_there(*rhs, n);
            joined_contains(references(*lhs), references(*rhs), n);
        },
        ExprView::FunctionCall { name, args } => {
            assert(e->args == args);
            columns_of_each(args, n);
        },
        _ => {},
    }
}

proof fn columns_of_each(es: Seq<ExprView>, n: Seq<char>)
    ensures
        references_of_all(es).contains(n) <==> exists|i: int|
            0 <= i < es.len() && holds(#[trigger] es[i], ExprView::Column(n)),
    decreases es, 1nat,
{
    if es.len() > 0 {
        let less = es.drop_last();
        let last = es[es.len() - 1];
        columns_of_each(less, n);
        named_columns_stand_there(last, n);
        joined_contains(references_of_all(less), references(last), n);
        if references_of_all(less).contains(n) {
            let i = choose|i: int|
                0 <= i < less.len() && holds(#[trigger] less[i], ExprView::Column(n));
            assert(holds(es[i], ExprView::Column(n)));
        }
        if exists|i: int| 0 <= i < es.len() && holds(#[trigger] es[i], ExprView::Column(n)) {
            let i = choose|i: int|
                0 <= i < es.len() && holds(#[trigger] es[i], ExprView::Column(n));
            if i < less.len() {
                assert(holds(less[i], ExprView::Column(n)));
            }
        }
    }
}

// ---------------------------------------------------------------------------
// Paths
// ---------------------------------------------------------------------------

/// A relationship path.
pub open spec fn path(rel: Seq<char>, column: Seq<char>) -> ExprView {
    ExprView::RelationshipPath { rel, column }
}

/// An expression follows exactly the paths that stand in it.
pub proof fn followed_paths_stand_there(e: ExprView, rel: Seq<char>, column: Seq<char>)
    ensures
        path_references(e).contains((rel, column)) <==> holds(e, path(rel, column)),
    decreases e, 0nat,
{
    match e {
        ExprView::RelationshipPath { rel: r, column: c } => {
            assert(path_references(e)[0] == (r, c));
        },
        ExprView::BinaryOp { op, lhs, rhs } => {
            followed_paths_stand_there(*lhs, rel, column);
            followed_paths_stand_there(*rhs, rel, column);
            joined_contains(path_references(*lhs), path_references(*rhs), (rel, column));
        },
        ExprView::FunctionCall { name, args } => {
            assert(e->args == args);
            paths_of_each(args, rel, column);
        },
        _ => {},
    }
}

proof fn paths_of_each(es: Seq<ExprView>, rel: Seq<char>, column: Seq<char>)
    ensures
        path_references_of_all(es).contains((rel, column)) <==> exists|i: int|
            0 <= i < es.len() && holds(#[trigger] es[i], path(rel, column)),
    decreases es, 1nat,
{
    let p = path(rel, column);
    if es.len() > 0 {
        let less = es.drop_last();
        let last = es[es.len() - 1];
        paths_of_each(less, rel, column);
        followed_paths_stand_there(last, rel, column);
        joined_contains(path_references_of_all(less), path_references(last), (rel, column));
        if path_references_of_all(less).contains((rel, column)) {
            let i = choose|i: int| 0 <= i < less.len() && holds(#[trigger] less[i], p);
            assert(holds(es[i], p));
        }
        if exists|i: int| 0 <= i < es.len() && holds(#[trigger] es[i], p) {
            let i = choose|i: int| 0 <= i < es.len() && holds(#[trigger] es[i], p);
            if i < less.len() {
                assert(holds(less[i], p));
            }
        }
    }
}

proof fn field_paths(fields: Seq<FieldDefView>, rel: Seq<char>, column: Seq<char>)
    ensures
        field_path_references(fields).contains((rel, column)) <==> exists|i: int|
            0 <= i < fields.len() && holds((#[trigger] fields[i]).expr, path(rel, column)),
    decreases fields.len(),
{
    let p = path(rel, column);
    if fields.len() > 0 {
        let less = fields.drop_last();
        let last = fields[fields.len() - 1];
        field_paths(less, rel, column);
        followed_paths_stand_there(last.expr, rel, column);
        joined_contains(field_path_references(less), path_references(last.expr), (rel, column));
        if field_path_references(less).contains((rel, column)) {
            let i = choose|i: int| 0 <= i < less.len() && holds((#[trigger] less[i]).expr, p);
            assert(holds(fields[i].expr, p));
        }
        if exists|i: int| 0 <= i < fields.len() && holds((#[trigger] fields[i]).expr, p) {
            let i = choose|i: int| 0 <= i < fields.len() && holds((#[trigger] fields[i]).expr, p);
            if i < less.len() {
                assert(holds(less[i].expr, p));
            }
        }
    }
}

proof fn key_paths(keys: Seq<GroupByKeyView>, rel: Seq<char>, column: Seq<char>)
    ensures
        key_path_references(keys).contains((rel, column)) <==> keys.contains(
            GroupByKeyView::RelationshipPath { rel, column },
        ),
    decreases keys.len(),
{
    let k = GroupByKeyView::RelationshipPath { rel, column };
    if keys.len() > 0 {
        let less = keys.drop_last();
        let last = keys[keys.len() - 1];
        key_paths(less, rel, column);
        let before = key_path_references(less);
        if before.contains((rel, column)) {
            assert(keys[less.index_of(k)] == k);
            assert(key_path_references(keys)[before.index_of((rel, column))] == (rel, column));
        }
        if last == k {
            assert(key_path_references(keys)[before.len() as int] == (rel, column));
        }
        if keys.contains(k) && last != k {
            assert(less[keys.index_of(k)] == k);
        }
        if key_path_references(keys).contains((rel, column)) && !before.contains((rel, column)) {
            let j = key_path_references(keys).index_of((rel, column));
            if j < before.len() {
                assert(before[j] == (rel, column));
            }
        }
    }
}

/// The definition has a field in which the path stands, or groups by it.
pub open spec fn definition_holds_path(
    def: TransformDefView,
    rel: Seq<char>,
    column: Seq<char>,
) -> bool {
    ||| exists|i: int|
        0 <= i < def.fields.len() && holds((#[trigger] def.fields[i]).expr, path(rel, column))
    ||| def.key_space matches KeySpaceView::Aggregate { group_by } && group_by.contains(
        GroupByKeyView::RelationshipPath { rel, column },
    )
}

/// A definition follows exactly the paths that stand in it.
pub proof fn definition_paths_stand_there(
    def: TransformDefView,
    rel: Seq<char>,
    column: Seq<char>,
)
    ensures
        definition_path_references(def).contains((rel, column)) <==> definition_holds_path(
            def,
            rel,
            column,
        ),
{
    field_paths(def.fields, rel, column);
    if let KeySpaceView::Aggregate { group_by } = def.key_space {
        key_paths(group_by, rel, column);
        joined_contains(
            field_path_references(def.fields),
            key_path_references(group_by),
            (rel, column),
        );
        joined_contains(
            key_path_references(group_by),
            field_path_references(def.fields),
            (rel, column),
        );
    }
}

/// An aggregate of one argument.
pub open spec fn is_plain_aggregate(e: ExprView) -> bool {
    e matches ExprView::FunctionCall { name, args } && aggregate_name(name) && args.len() == 1
}

/// `part` stands in `e` at a place that a join has to bring in: with
/// `to_one`, not where it is all that an aggregate is over.
pub open spec fn stands_joined(e: ExprView, part: ExprView, to_one: bool) -> bool {
    ||| e == part
    ||| exists|around: ExprView| #[trigger]
        holds(e, around) && directly_in(around, part) && !(to_one && is_plain_aggregate(around))
}

/// A path through the relationship stands where a join has to bring it in.
pub open spec fn needs_join(e: ExprView, rel: Seq<char>, to_one: bool) -> bool {
    exists|column: Seq<char>| #[trigger] stands_joined(e, path(rel, column), to_one)
}

proof fn joined_in_child(e: ExprView, child: ExprView, rel: Seq<char>, to_one: bool)
    requires
        directly_in(e, child),
        needs_join(child, rel, to_one),
        child is RelationshipPath ==> !(to_one && is_plain_aggregate(e)),
    ensures
        needs_join(e, rel, to_one),
{
    let column = choose|column: Seq<char>| #[trigger]
        stands_joined(child, path(rel, column), to_one);
    let part = path(rel, column);
    if child == part {
        assert(holds(e, e));
    } else {
        let around = choose|around: ExprView| #[trigger]
            holds(child, around) && directly_in(around, part) && !(to_one && is_plain_aggregate(
                around,
            ));
        held_by_child(e, child, around);
    }
    assert(stands_joined(e, part, to_one));
}

proof fn joined_from_child(e: ExprView, rel: Seq<char>, to_one: bool) -> (child: ExprView)
    requires
        needs_join(e, rel, to_one),
        !(e is RelationshipPath),
    ensures
        directly_in(e, child),
        needs_join(child, rel, to_one),
        child is RelationshipPath ==> !(to_one && is_plain_aggregate(e)),
{
    let column = choose|column: Seq<char>| #[trigger] stands_joined(e, path(rel, column), to_one);
    let part = path(rel, column);
    let around = choose|around: ExprView| #[trigger]
        holds(e, around) && directly_in(around, part) && !(to_one && is_plain_aggregate(around));
    if around == e {
        assert(stands_joined(part, part, to_one));
        part
    } else {
        let child = held_in_child(e, around);
        assert(stands_joined(child, part, to_one));
        if child is RelationshipPath {
            assert(child == around);
        }
        child
    }
}

/// A relationship is joined for an expression exactly if a path through it
/// stands where a join has to bring it in.
pub proof fn joined_relationships_are_needed(e: ExprView, rel: Seq<char>, to_one: bool)
    ensures
        followed(e, to_one).contains(rel) <==> needs_join(e, rel, to_one),
    decreases e, 0nat,
{
    if let ExprView::RelationshipPath { rel: r, column } = e {
        assert(followed(e, to_one) =~= seq![r]);
        if r == rel {
            assert(followed(e, to_one)[0] == rel);
            assert(stands_joined(e, path(rel, column), to_one));
        }
        if needs_join(e, rel, to_one) {
            let c = choose|c: Seq<char>| #[trigger] stands_joined(e, path(rel, c), to_one);
            assert(path(rel, c)->RelationshipPath_rel == rel);
            assert(e == path(rel, c));
        }
        if followed(e, to_one).contains(rel) {
            assert(rel == r);
        }
    } else {
        if needs_join(e, rel, to_one) {
            let child = joined_from_child(e, rel, to_one);
            match e {
                ExprView::BinaryOp { op, lhs, rhs } => {
                    joined_relationships_are_needed(*lhs, rel, to_one);
                    joined_relationships_are_needed(*rhs, rel, to_one);
                    joined_contains(followed(*lhs, to_one), followed(*rhs, to_one), rel);
                },
                ExprView::FunctionCall { name, args } => {
                    assert(e->args == args);
                    let i = args.index_of(child);
                    assert(args[i] == child);
                    joined_for_each(args, rel, to_one);
                    assert(needs_join(args[i], rel, to_one));
                },
                _ => {},
            }
        }
        if followed(e, to_one).contains(rel) {
            match e {
                ExprView::BinaryOp { op, lhs, rhs } => {
                    joined_relationships_are_needed(*lhs, rel, to_one);
                    joined_relationships_are_needed(*rhs, rel, to_one);
                    joined_contains(followed(*lhs, to_one), followed(*rhs, to_one), rel);
                    if needs_join(*lhs, rel, to_one) {
                        joined_in_child(e, *lhs, rel, to_one);
                    } else {
                        joined_in_child(e, *rhs, rel, to_one);
                    }
                },
                ExprView::FunctionCall { name, args } => {
                    assert(e->args == args);
                    joined_for_each(args, rel, to_one);
                    let i = choose|i: int|
                        0 <= i < args.len() && needs_join(#[trigger] args[i], rel, to_one);
                    assert(args.contains(args[i]));
                    joined_in_child(e, args[i], rel, to_one);
                },
                _ => {},
            }
        }
    }
}

proof fn joined_for_each(es: Seq<ExprView>, rel: Seq<char>, to_one: bool)
    ensures
        followed_by_all(es, to_one).contains(rel) <==> exists|i: int|
            0 <= i < es.len() && needs_join(#[trigger] es[i], rel, to_one),
    decreases es, 1nat,
{
    if es.len() > 0 {
        let less = es.drop_last();
        let last = es[es.len() - 1];
        joined_for_each(less, rel, to_one);
        joined_relationships_are_needed(last, rel, to_one);
        joined_contains(followed_by_all(less, to_one), followed(last, to_one), rel);
        if followed_by_all(less, to_one).contains(rel) {
            let i = choose|i: int|
                0 <= i < less.len() && needs_join(#[trigger] less[i], rel, to_one);
            assert(needs_join(es[i], rel, to_one));
        }
        if exists|i: int| 0 <= i < es.len() && needs_join(#[trigger] es[i], rel, to_one) {
            let i = choose|i: int|
                0 <= i < es.len() && needs_join(#[trigger] es[i], rel, to_one);
            if i < less.len() {
                assert(needs_join(less[i], rel, to_one));
            }
        }
    }
}

} // verus!
