//! What holds of the types of calculated fields, and of the values that they
//! get.

use vstd::prelude::*;

use crate::defs::ast::{ExprView, ValueTypeView};
use crate::defs::deps::{
    distinct_names, field_at, field_at_finds, open_fields, opening_shrinks, place_of,
};
use crate::defs::registry::FunctionSpecView;
use crate::defs::typing::{
    admits, call_typing, column_type, common_type, field_types, infer_all, infer_args,
    infer_common, infer_expr, infer_field, infer_from, literal_typing, number_type,
    operator_typing, passes_through, path_type, row_named, Scope, Types,
};
use crate::defs::validation_error::ValidationErrorView;

verus! {

// ---------------------------------------------------------------------------
// Types that are known
// ---------------------------------------------------------------------------

/// The type of an expression where each field has the type that `types` gives
/// it; a field without one is still being typed.
pub open spec fn type_given(c: Scope, types: Types, e: ExprView, field: Seq<char>) -> Result<
    ValueTypeView,
    ValidationErrorView,
>
    decreases e, 0nat,
{
    match e {
        ExprView::Column(name) => if field_at(c.fields, name) is None || passes_through(
            c,
            field,
            name,
        ) {
            Ok(column_type(c, name))
        } else if types.contains_key(name) {
            Ok(types[name])
        } else {
            Err(ValidationErrorView::Cycle { cycle: seq![name] })
        },
        ExprView::NumberLiteral(n) => Ok(number_type(n)),
        ExprView::StringLiteral(_) => Ok(ValueTypeView::Text),
        ExprView::TypedLiteral { value_type, text } => literal_typing(field, value_type, text),
        ExprView::RelationshipPath { rel, column } => path_type(c, field, rel, column),
        ExprView::BinaryOp { op, lhs, rhs } => match type_given(c, types, *lhs, field) {
            Err(x) => Err(x),
            Ok(l) => match type_given(c, types, *rhs, field) {
                Err(x) => Err(x),
                Ok(r) => operator_typing(field, op, l, r),
            },
        },
        ExprView::FunctionCall { name, args } => if name == "COALESCE"@ {
            match common_given(c, types, args, 0, field, None) {
                Err(x) => Err(x),
                Ok(t) => Ok(t->0),
            }
        } else {
            match row_named(name) {
                None => match all_given(c, types, args, 0, field) {
                    Err(x) => Err(x),
                    Ok(_) => Ok(ValueTypeView::Numeric),
                },
                Some(row) => match arg_types_given(c, types, args, 0, name, row, field, seq![]) {
                    Err(x) => Err(x),
                    Ok(arg_types) => call_typing(field, name, args, row, arg_types),
                },
            }
        },
    }
}

/// The type that the arguments from `k` on have in common, with `common` that
/// of those before, where each field has its type.
pub open spec fn common_given(
    c: Scope,
    types: Types,
    args: Seq<ExprView>,
    k: nat,
    field: Seq<char>,
    common: Option<ValueTypeView>,
) -> Result<Option<ValueTypeView>, ValidationErrorView>
    decreases args, args.len() - k,
{
    if k >= args.len() {
        Ok(common)
    } else {
        match type_given(c, types, args[k as int], field) {
            Err(x) => Err(x),
            Ok(t) => match common {
                None => common_given(c, types, args, k + 1, field, Some(t)),
                Some(ct) => match common_type(ct, t) {
                    Some(u) => common_given(c, types, args, k + 1, field, Some(u)),
                    None => Err(
                        ValidationErrorView::FunctionArgTypeMismatch {
                            field,
                            function: "COALESCE"@,
                            arg_index: k as usize,
                            expected: ct,
                            found: t,
                        },
                    ),
                },
            },
        }
    }
}

/// Whether all the arguments from `k` on can be typed where each field has its
/// type.
pub open spec fn all_given(
    c: Scope,
    types: Types,
    args: Seq<ExprView>,
    k: nat,
    field: Seq<char>,
) -> Result<(), ValidationErrorView>
    decreases args, args.len() - k,
{
    if k >= args.len() {
        Ok(())
    } else {
        match type_given(c, types, args[k as int], field) {
            Err(x) => Err(x),
            Ok(_) => all_given(c, types, args, k + 1, field),
        }
    }
}

/// `acc` and the types of the arguments from `k` on, as far as the function
/// declares any, where each field has its type.
pub open spec fn arg_types_given(
    c: Scope,
    types: Types,
    args: Seq<ExprView>,
    k: nat,
    name: Seq<char>,
    row: FunctionSpecView,
    field: Seq<char>,
    acc: Seq<ValueTypeView>,
) -> Result<Seq<ValueTypeView>, ValidationErrorView>
    decreases args, args.len() - k,
{
    if k >= args.len() || k >= row.arg_types.len() {
        Ok(acc)
    } else {
        match type_given(c, types, args[k as int], field) {
            Err(x) => Err(x),
            Ok(t) => if admits(name, row.arg_types[k as int], t) {
                arg_types_given(c, types, args, k + 1, name, row, field, acc.push(t))
            } else {
                Err(
                    ValidationErrorView::FunctionArgTypeMismatch {
                        field,
                        function: name,
                        arg_index: k as usize,
                        expected: row.arg_types[k as int],
                        found: t,
                    },
                )
            },
        }
    }
}

/// `after` holds all that `before` does.
spec fn keeps(before: Types, after: Types) -> bool {
    forall|n: Seq<char>| #[trigger]
        before.contains_key(n) ==> after.contains_key(n) && after[n] == before[n]
}

proof fn given_grows(c: Scope, a: Types, b: Types, e: ExprView, field: Seq<char>)
    requires
        keeps(a, b),
        type_given(c, a, e, field) is Ok,
    ensures
        type_given(c, b, e, field) == type_given(c, a, e, field),
    decreases e, 0nat,
{
    match e {
        ExprView::BinaryOp { op, lhs, rhs } => {
            given_grows(c, a, b, *lhs, field);
            given_grows(c, a, b, *rhs, field);
        },
        ExprView::FunctionCall { name, args } => {
            if name == "COALESCE"@ {
                common_grows(c, a, b, args, 0, field, None);
            } else {
                match row_named(name) {
                    None => {
                        all_grows(c, a, b, args, 0, field);
                    },
                    Some(row) => {
                        args_grow(c, a, b, args, 0, name, row, field, seq![]);
                    },
                }
            }
        },
        _ => {},
    }
}

proof fn common_grows(
    c: Scope,
    a: Types,
    b: Types,
    args: Seq<ExprView>,
    k: nat,
    field: Seq<char>,
    common: Option<ValueTypeView>,
)
    requires
        keeps(a, b),
        common_given(c, a, args, k, field, common) is Ok,
    ensures
        common_given(c, b, args, k, field, common) == common_given(c, a, args, k, field, common),
    decreases args, args.len() - k,
{
    if k < args.len() {
        given_grows(c, a, b, args[k as int], field);
        let t = type_given(c, a, args[k as int], field)->Ok_0;
        match common {
            None => {
                common_grows(c, a, b, args, k + 1, field, Some(t));
            },
            Some(ct) => {
                common_grows(c, a, b, args, k + 1, field, common_type(ct, t));
            },
        }
    }
}

proof fn all_grows(c: Scope, a: Types, b: Types, args: Seq<ExprView>, k: nat, field: Seq<char>)
    requires
        keeps(a, b),
        all_given(c, a, args, k, field) is Ok,
    ensures
        all_given(c, b, args, k, field) is Ok,
    decreases args, args.len() - k,
{
    if k < args.len() {
        given_grows(c, a, b, args[k as int], field);
        all_grows(c, a, b, args, k + 1, field);
    }
}

proof fn args_grow(
    c: Scope,
    a: Types,
    b: Types,
    args: Seq<ExprView>,
    k: nat,
    name: Seq<char>,
    row: FunctionSpecView,
    field: Seq<char>,
    acc: Seq<ValueTypeView>,
)
    requires
        keeps(a, b),
        arg_types_given(c, a, args, k, name, row, field, acc) is Ok,
    ensures
        arg_types_given(c, b, args, k, name, row, field, acc) == arg_types_given(
            c,
            a,
            args,
            k,
            name,
            row,
            field,
            acc,
        ),
    decreases args, args.len() - k,
{
    if k < args.len() && k < row.arg_types.len() {
        given_grows(c, a, b, args[k as int], field);
        let t = type_given(c, a, args[k as int], field)->Ok_0;
        args_grow(c, a, b, args, k + 1, name, row, field, acc.push(t));
    }
}

/// `t` is what the expression of the field named `n` is typed as.
pub open spec fn is_type(c: Scope, types: Types, n: Seq<char>, t: ValueTypeView) -> bool {
    match field_at(c.fields, n) {
        Some(i) => type_given(c, types, c.fields[i].expr, n) == Ok::<
            ValueTypeView,
            ValidationErrorView,
        >(t),
        None => false,
    }
}

/// Every type that is known is that of the field's expression, where the
/// others have the types that are known.
pub open spec fn settled(c: Scope, types: Types) -> bool {
    forall|n: Seq<char>| #[trigger] types.contains_key(n) ==> is_type(c, types, n, types[n])
}

spec fn apart(path: Set<Seq<char>>, types: Types) -> bool {
    forall|n: Seq<char>| #[trigger] path.contains(n) ==> !types.contains_key(n)
}

proof fn field_settles(c: Scope, i: int, path: Set<Seq<char>>, types: Types)
    requires
        distinct_names(c.fields),
        0 <= i < c.fields.len(),
        settled(c, types),
        apart(path, types),
    ensures
        infer_field(c, i, path, types) matches Ok((t, ts)) ==> {
            &&& settled(c, ts)
            &&& keeps(types, ts)
            &&& apart(path, ts)
            &&& ts.contains_key(c.fields[i].name)
            &&& ts[c.fields[i].name] == t
        },
    decreases open_fields(c.fields, path), 0nat, c.fields[i].expr, 0nat,
{
    let f = c.fields[i];
    place_of(c.fields, i);
    if !types.contains_key(f.name) && !path.contains(f.name) {
        opening_shrinks(c.fields, path, i);
        let inner = path.insert(f.name);
        expr_settles(c, f.expr, f.name, inner, types);
        if let Ok((t, ts)) = infer_expr(c, f.expr, f.name, inner, types) {
            let after = ts.insert(f.name, t);
            assert(inner.contains(f.name));
            assert(!ts.contains_key(f.name));
            assert(keeps(ts, after));
            assert forall|n: Seq<char>| #[trigger] after.contains_key(n) implies is_type(
                c,
                after,
                n,
                after[n],
            ) by {
                if n == f.name {
                    given_grows(c, ts, after, f.expr, f.name);
                } else {
                    assert(ts.contains_key(n));
                    let j = field_at(c.fields, n)->0;
                    given_grows(c, ts, after, c.fields[j].expr, n);
                }
            }
            assert forall|n: Seq<char>| #[trigger] path.contains(n) implies !after.contains_key(
                n,
            ) by {
                assert(inner.contains(n));
            }
        }
    }
}

proof fn expr_settles(c: Scope, e: ExprView, field: Seq<char>, path: Set<Seq<char>>, types: Types)
    requires
        distinct_names(c.fields),
        settled(c, types),
        apart(path, types),
    ensures
        infer_expr(c, e, field, path, types) matches Ok((t, ts)) ==> {
            &&& settled(c, ts)
            &&& keeps(types, ts)
            &&& apart(path, ts)
            &&& type_given(c, ts, e, field) == Ok::<ValueTypeView, ValidationErrorView>(t)
        },
    decreases open_fields(c.fields, path), 1nat, e, 0nat,
{
    match e {
        ExprView::Column(name) => {
            field_at_finds(c.fields, name);
            if let Some(i) = field_at(c.fields, name) {
                if !passes_through(c, field, name) {
                    field_settles(c, i, path, types);
                }
            }
        },
        ExprView::BinaryOp { op, lhs, rhs } => {
            expr_settles(c, *lhs, field, path, types);
            if let Ok((l, ts1)) = infer_expr(c, *lhs, field, path, types) {
                expr_settles(c, *rhs, field, path, ts1);
                if let Ok((r, ts2)) = infer_expr(c, *rhs, field, path, ts1) {
                    given_grows(c, ts1, ts2, *lhs, field);
                }
            }
        },
        ExprView::FunctionCall { name, args } => {
            if name == "COALESCE"@ {
                common_settles(c, args, 0, field, path, types, None);
            } else {
                match row_named(name) {
                    None => {
                        all_settle(c, args, 0, field, path, types);
                    },
                    Some(row) => {
                        args_settle(c, args, 0, name, row, field, path, types, seq![]);
                    },
                }
            }
        },
        _ => {},
    }
}

proof fn common_settles(
    c: Scope,
    args: Seq<ExprView>,
    k: nat,
    field: Seq<char>,
    path: Set<Seq<char>>,
    types: Types,
    common: Option<ValueTypeView>,
)
    requires
        distinct_names(c.fields),
        settled(c, types),
        apart(path, types),
    ensures
        infer_common(c, args, k, field, path, types, common) matches Ok((t, ts)) ==> {
            &&& settled(c, ts)
            &&& keeps(types, ts)
            &&& apart(path, ts)
            &&& common_given(c, ts, args, k, field, common) == Ok::<
                Option<ValueTypeView>,
                ValidationErrorView,
            >(t)
        },
    decreases open_fields(c.fields, path), 1nat, args, args.len() - k,
{
    if k < args.len() {
        expr_settles(c, args[k as int], field, path, types);
        if let Ok((t, ts1)) = infer_expr(c, args[k as int], field, path, types) {
            let next = match common {
                None => Some(t),
                Some(ct) => common_type(ct, t),
            };
            common_settles(c, args, k + 1, field, path, ts1, next);
            if let Ok((u, ts)) = infer_common(c, args, k + 1, field, path, ts1, next) {
                given_grows(c, ts1, ts, args[k as int], field);
            }
        }
    }
}

proof fn all_settle(
    c: Scope,
    args: Seq<ExprView>,
    k: nat,
    field: Seq<char>,
    path: Set<Seq<char>>,
    types: Types,
)
    requires
        distinct_names(c.fields),
        settled(c, types),
        apart(path, types),
    ensures
        infer_all(c, args, k, field, path, types) matches Ok(ts) ==> {
            &&& settled(c, ts)
            &&& keeps(types, ts)
            &&& apart(path, ts)
            &&& all_given(c, ts, args, k, field) is Ok
        },
    decreases open_fields(c.fields, path), 1nat, args, args.len() - k,
{
    if k < args.len() {
        expr_settles(c, args[k as int], field, path, types);
        if let Ok((t, ts1)) = infer_expr(c, args[k as int], field, path, types) {
            all_settle(c, args, k + 1, field, path, ts1);
            if let Ok(ts) = infer_all(c, args, k + 1, field, path, ts1) {
                given_grows(c, ts1, ts, args[k as int], field);
            }
        }
    }
}

proof fn args_settle(
    c: Scope,
    args: Seq<ExprView>,
    k: nat,
    name: Seq<char>,
    row: FunctionSpecView,
    field: Seq<char>,
    path: Set<Seq<char>>,
    types: Types,
    acc: Seq<ValueTypeView>,
)
    requires
        distinct_names(c.fields),
        settled(c, types),
        apart(path, types),
    ensures
        infer_args(c, args, k, name, row, field, path, types, acc) matches Ok((arg_types, ts)) ==> {
            &&& settled(c, ts)
            &&& keeps(types, ts)
            &&& apart(path, ts)
            &&& arg_types_given(c, ts, args, k, name, row, field, acc) == Ok::<
                Seq<ValueTypeView>,
                ValidationErrorView,
            >(arg_types)
        },
    decreases open_fields(c.fields, path), 1nat, args, args.len() - k,
{
    if k < args.len() && k < row.arg_types.len() {
        expr_settles(c, args[k as int], field, path, types);
        if let Ok((t, ts1)) = infer_expr(c, args[k as int], field, path, types) {
            args_settle(c, args, k + 1, name, row, field, path, ts1, acc.push(t));
            if let Ok((u, ts)) = infer_args(
                c,
                args,
                k + 1,
                name,
                row,
                field,
                path,
                ts1,
                acc.push(t),
            ) {
                given_grows(c, ts1, ts, args[k as int], field);
            }
        }
    }
}

proof fn rest_settles(c: Scope, i: nat, types: Types)
    requires
        distinct_names(c.fields),
        settled(c, types),
        i <= c.fields.len(),
        forall|k: int| 0 <= k < i ==> types.contains_key(#[trigger] c.fields[k].name),
    ensures
        infer_from(c, i, types) matches Ok(ts) ==> {
            &&& settled(c, ts)
            &&& forall|k: int|
                0 <= k < c.fields.len() ==> ts.contains_key(#[trigger] c.fields[k].name)
        },
    decreases c.fields.len() - i,
{
    if i < c.fields.len() {
        field_settles(c, i as int, Set::empty(), types);
        if let Ok((t, ts)) = infer_field(c, i as int, Set::empty(), types) {
            rest_settles(c, i + 1, ts);
        }
    }
}

/// The type of each field is that of its expression, where every field that
/// it uses has the type that it has in the result.
pub proof fn types_satisfy_their_expressions(c: Scope, types: Types, i: int)
    requires
        distinct_names(c.fields),
        field_types(c) == Ok::<Types, ValidationErrorView>(types),
        0 <= i < c.fields.len(),
    ensures
        types.contains_key(c.fields[i].name),
        type_given(c, types, c.fields[i].expr, c.fields[i].name) == Ok::<
            ValueTypeView,
            ValidationErrorView,
        >(types[c.fields[i].name]),
{
    rest_settles(c, 0, Map::empty());
    place_of(c.fields, i);
}

} // verus!
