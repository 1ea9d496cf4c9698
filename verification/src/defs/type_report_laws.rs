//! What is reported of types is so.

use vstd::prelude::*;

use crate::defs::ast::{ExprView, Operator, ValueTypeView};
use crate::defs::registry::FunctionSpecView;
use crate::defs::type_laws::rung;
use crate::defs::typing::{
    admits, call_typing, common_type, infer_args, infer_common, infer_expr, operator_typing,
    path_type, Scope, Types,
};
use crate::defs::validation_error::ValidationErrorView;
use crate::pattern::pattern_error;

verus! {

/// An operator is refused exactly if an operand is not a number, and the
/// report names the first operand that is none.
pub proof fn operands_that_are_no_numbers_are_named(
    field: Seq<char>,
    op: Operator,
    l: ValueTypeView,
    r: ValueTypeView,
)
    ensures
        operator_typing(field, op, l, r) is Ok <==> rung(l) is Some && rung(r) is Some,
        operator_typing(field, op, l, r) matches Err(x) ==> x == (ValidationErrorView::TypeMismatch {
            field,
            expected: ValueTypeView::Numeric,
            found: if rung(l) is None {
                l
            } else {
                r
            },
        }),
{
}

/// A path has the type of its column, and is refused exactly if there is no
/// such relationship or no such column behind it.
pub proof fn paths_have_the_type_of_their_column(
    c: Scope,
    field: Seq<char>,
    rel: Seq<char>,
    column: Seq<char>,
)
    ensures
        match path_type(c, field, rel, column) {
            Ok(t) => c.relationships.contains_key(rel)
                && c.relationships[rel].column_types.contains_key(column)
                && c.relationships[rel].column_types[column] == t,
            Err(ValidationErrorView::UnknownRelationship { field: f, rel: r }) => f == field && r
                == rel && !c.relationships.contains_key(rel),
            Err(ValidationErrorView::UnknownRelationshipColumn { table, column: k }) => k == column
                && c.relationships.contains_key(rel) && c.relationships[rel].to_table == table
                && !c.relationships[rel].column_types.contains_key(column),
            Err(_) => false,
        },
{
}

/// The expression has type `t` when it is typed after some others were.
pub open spec fn has_type(
    c: Scope,
    e: ExprView,
    field: Seq<char>,
    path: Set<Seq<char>>,
    t: ValueTypeView,
) -> bool {
    exists|before: Types|
        (#[trigger] infer_expr(c, e, field, path, before)) matches Ok((found, _)) && found == t
}

/// Typing the expression fails with `x` when it is typed after some others
/// were.
pub open spec fn fails_with(
    c: Scope,
    e: ExprView,
    field: Seq<char>,
    path: Set<Seq<char>>,
    x: ValidationErrorView,
) -> bool {
    exists|before: Types| #[trigger]
        infer_expr(c, e, field, path, before) == Err::<(ValueTypeView, Types), ValidationErrorView>(
            x,
        )
}

/// The report of a call's arguments is that of one of them, or says of one
/// which type it has and that this is not taken there.
pub open spec fn argument_is_wrong(
    c: Scope,
    args: Seq<ExprView>,
    j: int,
    name: Seq<char>,
    row: FunctionSpecView,
    field: Seq<char>,
    path: Set<Seq<char>>,
    x: ValidationErrorView,
) -> bool {
    ||| fails_with(c, args[j], field, path, x)
    ||| x matches ValidationErrorView::FunctionArgTypeMismatch {
        field: f,
        function,
        arg_index,
        expected,
        found,
    } && {
        &&& f == field
        &&& function == name
        &&& arg_index == j as usize
        &&& expected == row.arg_types[j]
        &&& has_type(c, args[j], field, path, found)
        &&& !admits(name, expected, found)
    }
}

/// What is reported of the arguments of a call is so of one of them.
pub proof fn reported_arguments_are_wrong(
    c: Scope,
    args: Seq<ExprView>,
    k: nat,
    name: Seq<char>,
    row: FunctionSpecView,
    field: Seq<char>,
    path: Set<Seq<char>>,
    types: Types,
    acc: Seq<ValueTypeView>,
)
    ensures
        infer_args(c, args, k, name, row, field, path, types, acc) matches Err(x) ==> exists|j: int|
            k <= j < args.len() && j < row.arg_types.len() && #[trigger] argument_is_wrong(
                c,
                args,
                j,
                name,
                row,
                field,
                path,
                x,
            ),
    decreases args.len() - k,
{
    if let Err(x) = infer_args(c, args, k, name, row, field, path, types, acc) {
        let j = k as int;
        match infer_expr(c, args[j], field, path, types) {
            Err(y) => {
                assert(fails_with(c, args[j], field, path, x));
                assert(argument_is_wrong(c, args, j, name, row, field, path, x));
            },
            Ok((t, ts)) => {
                if admits(name, row.arg_types[j], t) {
                    reported_arguments_are_wrong(
                        c,
                        args,
                        k + 1,
                        name,
                        row,
                        field,
                        path,
                        ts,
                        acc.push(t),
                    );
                } else {
                    assert(has_type(c, args[j], field, path, t));
                    assert(argument_is_wrong(c, args, j, name, row, field, path, x));
                }
            },
        }
    }
}

/// The report of the arguments of `COALESCE` is that of one of them, or says
/// of one which type it has and that the ones before it have none in common
/// with it.
pub open spec fn alternative_is_wrong(
    c: Scope,
    args: Seq<ExprView>,
    j: int,
    field: Seq<char>,
    path: Set<Seq<char>>,
    x: ValidationErrorView,
) -> bool {
    ||| fails_with(c, args[j], field, path, x)
    ||| x matches ValidationErrorView::FunctionArgTypeMismatch {
        field: f,
        function,
        arg_index,
        expected,
        found,
    } && {
        &&& f == field
        &&& function == "COALESCE"@
        &&& arg_index == j as usize
        &&& has_type(c, args[j], field, path, found)
        &&& common_type(expected, found) is None
    }
}

/// What is reported of the arguments of `COALESCE` is so of one of them, and of
/// none before a type is known.
pub proof fn reported_alternatives_are_wrong(
    c: Scope,
    args: Seq<ExprView>,
    k: nat,
    field: Seq<char>,
    path: Set<Seq<char>>,
    types: Types,
    common: Option<ValueTypeView>,
)
    ensures
        infer_common(c, args, k, field, path, types, common) matches Err(x) ==> exists|j: int|
            k <= j < args.len() && #[trigger] alternative_is_wrong(c, args, j, field, path, x),
    decreases args.len() - k,
{
    if let Err(x) = infer_common(c, args, k, field, path, types, common) {
        let j = k as int;
        match infer_expr(c, args[j], field, path, types) {
            Err(y) => {
                assert(fails_with(c, args[j], field, path, x));
                assert(alternative_is_wrong(c, args, j, field, path, x));
            },
            Ok((t, ts)) => {
                let next = match common {
                    None => Some(t),
                    Some(u) => common_type(u, t),
                };
                if next is Some {
                    reported_alternatives_are_wrong(c, args, k + 1, field, path, ts, next);
                } else {
                    assert(has_type(c, args[j], field, path, t));
                    assert(alternative_is_wrong(c, args, j, field, path, x));
                }
            },
        }
    }
}

/// A call of `REGEXP_COUNT` is refused, once its arguments are typed, exactly if
/// its second argument is not a string that is a pattern, and no other call is.
pub proof fn patterns_are_literal(
    field: Seq<char>,
    name: Seq<char>,
    args: Seq<ExprView>,
    row: FunctionSpecView,
    types: Seq<ValueTypeView>,
)
    requires
        args.len() == 2,
    ensures
        call_typing(field, name, args, row, types) is Err <==> name == "REGEXP_COUNT"@ && !(args[1]
            matches ExprView::StringLiteral(p) && pattern_error(p) is None),
        call_typing(field, name, args, row, types) matches Err(x) ==> match args[1] {
            ExprView::StringLiteral(p) => pattern_error(p) is Some && x
                == (ValidationErrorView::InvalidRegexPattern {
                field,
                pattern: p,
                error: pattern_error(p)->0,
            }),
            _ => x == (ValidationErrorView::NonLiteralRegexPattern { field }),
        },
{
}

} // verus!
