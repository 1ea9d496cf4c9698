//! What holds of the values of calculated fields.

use vstd::prelude::*;

use crate::defs::ast::{ExprView, FieldDefView, TransformDefView, ValueTypeView};
use crate::defs::builtins::{function_value, in_field, operator_value};
use crate::defs::deps::{
    cyclic, depends, distinct_names, field_at, field_at_finds, is_field, is_path, open_fields,
    opening_shrinks, place_of, references, references_of_all, references_of_each,
    coming_back_is_cyclic,
    comes_back,
};
use crate::defs::eval::{
    definition_engine, eval_args, eval_expr, eval_field, eval_first, eval_from, field_values,
    nulls, row_given, Engine, Values,
};
use crate::defs::relationship_data::{cells, filled, ContextView, Outcome, RowView};
use crate::defs::typing::Scope;
use crate::defs::validate::{
    duplicates, first_problem, resolves, unresolved, unresolved_from, valid,
};
use crate::defs::value::{EvalErrorView, ValueView};

verus! {

// ---------------------------------------------------------------------------
// Values without a memory
// ---------------------------------------------------------------------------

/// The value of field `i`, with the fields of `path` being evaluated, worked
/// out afresh.
pub open spec fn field_outcome(
    c: Engine,
    excluded: Set<Seq<char>>,
    i: int,
    path: Set<Seq<char>>,
) -> Outcome
    decreases open_fields(c.fields, path), 0nat, c.fields[i].expr, 0nat,
{
    if i < 0 || i >= c.fields.len() {
        arbitrary()
    } else {
        let f = c.fields[i];
        if excluded.contains(f.name) {
            Ok(None)
        } else if path.contains(f.name) {
            Err(EvalErrorView::Cycle(f.name))
        } else {
            proof {
                opening_shrinks(c.fields, path, i);
            }
            expr_outcome(c, excluded, f.expr, f.name, path.insert(f.name))
        }
    }
}

/// The value of an expression, worked out afresh.
pub open spec fn expr_outcome(
    c: Engine,
    excluded: Set<Seq<char>>,
    e: ExprView,
    field: Seq<char>,
    path: Set<Seq<char>>,
) -> Outcome
    decreases open_fields(c.fields, path), 1nat, e, 0nat,
{
    match (c.given)(e, field) {
        Some(o) => o,
        None => match e {
            ExprView::Column(name) => match field_at(c.fields, name) {
                Some(i) => field_outcome(c, excluded, i, path),
                None => Err(EvalErrorView::MissingColumn { field, column: name }),
            },
            ExprView::BinaryOp { op, lhs, rhs } => match expr_outcome(
                c,
                excluded,
                *lhs,
                field,
                path,
            ) {
                Err(x) => Err(x),
                Ok(l) => match expr_outcome(c, excluded, *rhs, field, path) {
                    Err(x) => Err(x),
                    Ok(r) => in_field(operator_value(op, l, r), field),
                },
            },
            ExprView::FunctionCall { name, args } => if name == "COALESCE"@ {
                first_outcome(c, excluded, args, 0, field, path)
            } else {
                match args_outcome(c, excluded, args, 0, field, path, seq![]) {
                    Err(x) => Err(x),
                    Ok(vals) => Ok(function_value(name, vals)),
                }
            },
            _ => Ok(None),
        },
    }
}

/// The value of the first of the arguments from `k` on that is not null,
/// worked out afresh.
pub open spec fn first_outcome(
    c: Engine,
    excluded: Set<Seq<char>>,
    args: Seq<ExprView>,
    k: nat,
    field: Seq<char>,
    path: Set<Seq<char>>,
) -> Outcome
    decreases open_fields(c.fields, path), 1nat, args, args.len() - k,
{
    if k >= args.len() {
        Ok(None)
    } else {
        match expr_outcome(c, excluded, args[k as int], field, path) {
            Err(x) => Err(x),
            Ok(Some(v)) => Ok(Some(v)),
            Ok(None) => first_outcome(c, excluded, args, k + 1, field, path),
        }
    }
}

/// `acc` and the values of the arguments from `k` on, worked out afresh.
pub open spec fn args_outcome(
    c: Engine,
    excluded: Set<Seq<char>>,
    args: Seq<ExprView>,
    k: nat,
    field: Seq<char>,
    path: Set<Seq<char>>,
    acc: Seq<Option<ValueView>>,
) -> Result<Seq<Option<ValueView>>, EvalErrorView>
    decreases open_fields(c.fields, path), 1nat, args, args.len() - k,
{
    if k >= args.len() {
        Ok(acc)
    } else {
        match expr_outcome(c, excluded, args[k as int], field, path) {
            Err(x) => Err(x),
            Ok(v) => args_outcome(c, excluded, args, k + 1, field, path, acc.push(v)),
        }
    }
}

// ---------------------------------------------------------------------------
// A shorter path changes nothing that succeeds
// ---------------------------------------------------------------------------

proof fn field_on_less(
    c: Engine,
    excluded: Set<Seq<char>>,
    i: int,
    p: Set<Seq<char>>,
    q: Set<Seq<char>>,
)
    requires
        0 <= i < c.fields.len(),
        p.subset_of(q),
        field_outcome(c, excluded, i, q) is Ok,
    ensures
        field_outcome(c, excluded, i, p) == field_outcome(c, excluded, i, q),
    decreases open_fields(c.fields, p), 0nat, c.fields[i].expr, 0nat,
{
    let f = c.fields[i];
    if !excluded.contains(f.name) {
        opening_shrinks(c.fields, p, i);
        expr_on_less(c, excluded, f.expr, f.name, p.insert(f.name), q.insert(f.name));
    }
}

proof fn expr_on_less(
    c: Engine,
    excluded: Set<Seq<char>>,
    e: ExprView,
    field: Seq<char>,
    p: Set<Seq<char>>,
    q: Set<Seq<char>>,
)
    requires
        p.subset_of(q),
        expr_outcome(c, excluded, e, field, q) is Ok,
    ensures
        expr_outcome(c, excluded, e, field, p) == expr_outcome(c, excluded, e, field, q),
    decreases open_fields(c.fields, p), 1nat, e, 0nat,
{
    if (c.given)(e, field) is None {
        match e {
            ExprView::Column(name) => {
                field_at_finds(c.fields, name);
                if let Some(i) = field_at(c.fields, name) {
                    field_on_less(c, excluded, i, p, q);
                }
            },
            ExprView::BinaryOp { op, lhs, rhs } => {
                expr_on_less(c, excluded, *lhs, field, p, q);
                expr_on_less(c, excluded, *rhs, field, p, q);
            },
            ExprView::FunctionCall { name, args } => {
                if name == "COALESCE"@ {
                    first_on_less(c, excluded, args, 0, field, p, q);
                } else {
                    args_on_less(c, excluded, args, 0, field, p, q, seq![]);
                }
            },
            _ => {},
        }
    }
}

proof fn first_on_less(
    c: Engine,
    excluded: Set<Seq<char>>,
    args: Seq<ExprView>,
    k: nat,
    field: Seq<char>,
    p: Set<Seq<char>>,
    q: Set<Seq<char>>,
)
    requires
        p.subset_of(q),
        first_outcome(c, excluded, args, k, field, q) is Ok,
    ensures
        first_outcome(c, excluded, args, k, field, p) == first_outcome(
            c,
            excluded,
            args,
            k,
            field,
            q,
        ),
    decreases open_fields(c.fields, p), 1nat, args, args.len() - k,
{
    if k < args.len() {
        expr_on_less(c, excluded, args[k as int], field, p, q);
        if expr_outcome(c, excluded, args[k as int], field, q) == Ok::<
            Option<ValueView>,
            EvalErrorView,
        >(None) {
            first_on_less(c, excluded, args, k + 1, field, p, q);
        }
    }
}

proof fn args_on_less(
    c: Engine,
    excluded: Set<Seq<char>>,
    args: Seq<ExprView>,
    k: nat,
    field: Seq<char>,
    p: Set<Seq<char>>,
    q: Set<Seq<char>>,
    acc: Seq<Option<ValueView>>,
)
    requires
        p.subset_of(q),
        args_outcome(c, excluded, args, k, field, q, acc) is Ok,
    ensures
        args_outcome(c, excluded, args, k, field, p, acc) == args_outcome(
            c,
            excluded,
            args,
            k,
            field,
            q,
            acc,
        ),
    decreases open_fields(c.fields, p), 1nat, args, args.len() - k,
{
    if k < args.len() {
        expr_on_less(c, excluded, args[k as int], field, p, q);
        let v = expr_outcome(c, excluded, args[k as int], field, q)->Ok_0;
        args_on_less(c, excluded, args, k + 1, field, p, q, acc.push(v));
    }
}

// ---------------------------------------------------------------------------
// Remembering values changes nothing
// ---------------------------------------------------------------------------

/// The names without a value.
pub open spec fn unknown(values: Values) -> Set<Seq<char>> {
    Set::new(|n: Seq<char>| !values.contains_key(n))
}

/// `v` is the value of the field named `n`, with the fields of `path` being
/// evaluated.
pub open spec fn is_value(
    c: Engine,
    excluded: Set<Seq<char>>,
    n: Seq<char>,
    path: Set<Seq<char>>,
    v: Option<ValueView>,
) -> bool {
    match field_at(c.fields, n) {
        Some(i) => field_outcome(c, excluded, i, path) == Ok::<Option<ValueView>, EvalErrorView>(v),
        None => false,
    }
}

/// Every value that is known is the one that the field has, and was worked
/// out from fields whose values are known too.
pub open spec fn faithful(c: Engine, excluded: Set<Seq<char>>, values: Values) -> bool {
    &&& forall|n: Seq<char>| #[trigger]
        excluded.contains(n) ==> values.contains_key(n) && values[n] is None
    &&& forall|n: Seq<char>| #[trigger]
        values.contains_key(n) && !excluded.contains(n) ==> is_value(
            c,
            excluded,
            n,
            unknown(values),
            values[n],
        )
}

/// No field of `path` has a value yet.
pub open spec fn apart(path: Set<Seq<char>>, values: Values) -> bool {
    forall|n: Seq<char>| #[trigger] path.contains(n) ==> !values.contains_key(n)
}

/// `after` holds all that `before` does.
pub open spec fn keeps(before: Values, after: Values) -> bool {
    forall|n: Seq<char>| #[trigger]
        before.contains_key(n) ==> after.contains_key(n) && after[n] == before[n]
}

proof fn memory_of_field(
    c: Engine,
    excluded: Set<Seq<char>>,
    i: int,
    path: Set<Seq<char>>,
    values: Values,
)
    requires
        distinct_names(c.fields),
        0 <= i < c.fields.len(),
        faithful(c, excluded, values),
        apart(path, values),
    ensures
        match eval_field(c, i, path, values) {
            Err(x) => field_outcome(c, excluded, i, path) == Err::<
                Option<ValueView>,
                EvalErrorView,
            >(x),
            Ok((v, vs)) => {
                &&& field_outcome(c, excluded, i, path) == Ok::<Option<ValueView>, EvalErrorView>(v)
                &&& faithful(c, excluded, vs)
                &&& keeps(values, vs)
                &&& apart(path, vs)
                &&& vs.contains_key(c.fields[i].name)
                &&& vs[c.fields[i].name] == v
                &&& forall|n: Seq<char>| #[trigger]
                    vs.contains_key(n) ==> values.contains_key(n) || is_field(c.fields, n)
            },
        },
    decreases open_fields(c.fields, path), 0nat, c.fields[i].expr, 0nat,
{
    let f = c.fields[i];
    place_of(c.fields, i);
    if values.contains_key(f.name) {
        if !excluded.contains(f.name) {
            assert(path.subset_of(unknown(values)));
            field_on_less(c, excluded, i, path, unknown(values));
        }
    } else if !path.contains(f.name) {
        opening_shrinks(c.fields, path, i);
        let inner = path.insert(f.name);
        memory_of_expr(c, excluded, f.expr, f.name, inner, values);
        if let Ok((v, vs)) = eval_expr(c, f.expr, f.name, inner, values) {
            let after = vs.insert(f.name, v);
            assert(inner.contains(f.name));
            assert(!vs.contains_key(f.name));
            assert(unknown(after).insert(f.name) =~= unknown(vs));
            assert(!unknown(after).contains(f.name));
            assert(field_outcome(c, excluded, i, unknown(after)) == Ok::<
                Option<ValueView>,
                EvalErrorView,
            >(v));
            assert forall|n: Seq<char>| #[trigger]
                after.contains_key(n) && !excluded.contains(n) implies is_value(
                c,
                excluded,
                n,
                unknown(after),
                after[n],
            ) by {
                if n != f.name {
                    assert(vs.contains_key(n));
                    field_at_finds(c.fields, n);
                    let j = field_at(c.fields, n)->0;
                    assert(unknown(after).subset_of(unknown(vs)));
                    field_on_less(c, excluded, j, unknown(after), unknown(vs));
                }
            }
            assert forall|n: Seq<char>| #[trigger] excluded.contains(n) implies after.contains_key(n)
                && after[n] is None by {
                assert(vs.contains_key(n));
            }
            assert(faithful(c, excluded, after));
            assert forall|n: Seq<char>| #[trigger] path.contains(n) implies !after.contains_key(
                n,
            ) by {
                assert(inner.contains(n));
            }
            assert(is_field(c.fields, f.name));
        }
    }
}

/// Evaluating an expression with a memory of values gives what working it out
/// afresh gives, and leaves a memory that does so too.
pub proof fn memory_of_expr(
    c: Engine,
    excluded: Set<Seq<char>>,
    e: ExprView,
    field: Seq<char>,
    path: Set<Seq<char>>,
    values: Values,
)
    requires
        distinct_names(c.fields),
        faithful(c, excluded, values),
        apart(path, values),
    ensures
        match eval_expr(c, e, field, path, values) {
            Err(x) => expr_outcome(c, excluded, e, field, path) == Err::<
                Option<ValueView>,
                EvalErrorView,
            >(x),
            Ok((v, vs)) => {
                &&& expr_outcome(c, excluded, e, field, path) == Ok::<
                    Option<ValueView>,
                    EvalErrorView,
                >(v)
                &&& expr_outcome(c, excluded, e, field, unknown(vs)) == Ok::<
                    Option<ValueView>,
                    EvalErrorView,
                >(v)
                &&& faithful(c, excluded, vs)
                &&& keeps(values, vs)
                &&& apart(path, vs)
                &&& forall|n: Seq<char>| #[trigger]
                    vs.contains_key(n) ==> values.contains_key(n) || is_field(c.fields, n)
            },
        },
    decreases open_fields(c.fields, path), 1nat, e, 0nat,
{
    if (c.given)(e, field) is None {
        match e {
            ExprView::Column(name) => {
                field_at_finds(c.fields, name);
                if let Some(i) = field_at(c.fields, name) {
                    memory_of_field(c, excluded, i, path, values);
                    if let Ok((v, vs)) = eval_field(c, i, path, values) {
                        if excluded.contains(name) {
                            assert(vs.contains_key(name));
                        }
                        assert(field_outcome(c, excluded, i, unknown(vs)) == Ok::<
                            Option<ValueView>,
                            EvalErrorView,
                        >(v));
                    }
                }
            },
            ExprView::BinaryOp { op, lhs, rhs } => {
                memory_of_expr(c, excluded, *lhs, field, path, values);
                if let Ok((l, vs1)) = eval_expr(c, *lhs, field, path, values) {
                    memory_of_expr(c, excluded, *rhs, field, path, vs1);
                    if let Ok((r, vs2)) = eval_expr(c, *rhs, field, path, vs1) {
                        assert(unknown(vs2).subset_of(unknown(vs1)));
                        expr_on_less(c, excluded, *lhs, field, unknown(vs2), unknown(vs1));
                    }
                }
            },
            ExprView::FunctionCall { name, args } => {
                if name == "COALESCE"@ {
                    memory_of_first(c, excluded, args, 0, field, path, values);
                } else {
                    memory_of_args(c, excluded, args, 0, field, path, values, seq![]);
                }
            },
            _ => {},
        }
    }
}

proof fn memory_of_first(
    c: Engine,
    excluded: Set<Seq<char>>,
    args: Seq<ExprView>,
    k: nat,
    field: Seq<char>,
    path: Set<Seq<char>>,
    values: Values,
)
    requires
        distinct_names(c.fields),
        faithful(c, excluded, values),
        apart(path, values),
    ensures
        match eval_first(c, args, k, field, path, values) {
            Err(x) => first_outcome(c, excluded, args, k, field, path) == Err::<
                Option<ValueView>,
                EvalErrorView,
            >(x),
            Ok((v, vs)) => {
                &&& first_outcome(c, excluded, args, k, field, path) == Ok::<
                    Option<ValueView>,
                    EvalErrorView,
                >(v)
                &&& first_outcome(c, excluded, args, k, field, unknown(vs)) == Ok::<
                    Option<ValueView>,
                    EvalErrorView,
                >(v)
                &&& faithful(c, excluded, vs)
                &&& keeps(values, vs)
                &&& apart(path, vs)
                &&& forall|n: Seq<char>| #[trigger]
                    vs.contains_key(n) ==> values.contains_key(n) || is_field(c.fields, n)
            },
        },
    decreases open_fields(c.fields, path), 1nat, args, args.len() - k,
{
    if k < args.len() {
        let e = args[k as int];
        memory_of_expr(c, excluded, e, field, path, values);
        if let Ok((v, vs1)) = eval_expr(c, e, field, path, values) {
            if v is None {
                memory_of_first(c, excluded, args, k + 1, field, path, vs1);
                if let Ok((w, vs2)) = eval_first(c, args, k + 1, field, path, vs1) {
                    assert(unknown(vs2).subset_of(unknown(vs1)));
                    expr_on_less(c, excluded, e, field, unknown(vs2), unknown(vs1));
                }
            }
        }
    }
}

proof fn memory_of_args(
    c: Engine,
    excluded: Set<Seq<char>>,
    args: Seq<ExprView>,
    k: nat,
    field: Seq<char>,
    path: Set<Seq<char>>,
    values: Values,
    acc: Seq<Option<ValueView>>,
)
    requires
        distinct_names(c.fields),
        faithful(c, excluded, values),
        apart(path, values),
    ensures
        match eval_args(c, args, k, field, path, values, acc) {
            Err(x) => args_outcome(c, excluded, args, k, field, path, acc) == Err::<
                Seq<Option<ValueView>>,
                EvalErrorView,
            >(x),
            Ok((v, vs)) => {
                &&& args_outcome(c, excluded, args, k, field, path, acc) == Ok::<
                    Seq<Option<ValueView>>,
                    EvalErrorView,
                >(v)
                &&& args_outcome(c, excluded, args, k, field, unknown(vs), acc) == Ok::<
                    Seq<Option<ValueView>>,
                    EvalErrorView,
                >(v)
                &&& faithful(c, excluded, vs)
                &&& keeps(values, vs)
                &&& apart(path, vs)
                &&& forall|n: Seq<char>| #[trigger]
                    vs.contains_key(n) ==> values.contains_key(n) || is_field(c.fields, n)
            },
        },
    decreases open_fields(c.fields, path), 1nat, args, args.len() - k,
{
    if k < args.len() {
        let e = args[k as int];
        memory_of_expr(c, excluded, e, field, path, values);
        if let Ok((v, vs1)) = eval_expr(c, e, field, path, values) {
            memory_of_args(c, excluded, args, k + 1, field, path, vs1, acc.push(v));
            if let Ok((w, vs2)) = eval_args(c, args, k + 1, field, path, vs1, acc.push(v)) {
                assert(unknown(vs2).subset_of(unknown(vs1)));
                expr_on_less(c, excluded, e, field, unknown(vs2), unknown(vs1));
            }
        }
    }
}

// ---------------------------------------------------------------------------
// Laws
// ---------------------------------------------------------------------------

proof fn memory_of_all(c: Engine, excluded: Set<Seq<char>>, i: nat, values: Values)
    requires
        distinct_names(c.fields),
        i <= c.fields.len(),
        faithful(c, excluded, values),
        forall|j: int| 0 <= j < i ==> values.contains_key(#[trigger] c.fields[j].name),
        forall|n: Seq<char>| #[trigger]
            values.contains_key(n) ==> excluded.contains(n) || is_field(c.fields, n),
        forall|j: int|
            0 <= j < i ==> (#[trigger] field_outcome(c, excluded, j, Set::empty())) is Ok,
    ensures
        match eval_from(c, i, values) {
            Ok(vs) => {
                &&& faithful(c, excluded, vs)
                &&& forall|j: int|
                    0 <= j < c.fields.len() ==> vs.contains_key(#[trigger] c.fields[j].name)
                &&& forall|n: Seq<char>| #[trigger]
                    vs.contains_key(n) ==> excluded.contains(n) || is_field(c.fields, n)
            },
            Err(x) => exists|j: int|
                0 <= j < c.fields.len() && #[trigger] field_outcome(c, excluded, j, Set::empty())
                    == Err::<Option<ValueView>, EvalErrorView>(x) && forall|k: int|
                    0 <= k < j ==> (#[trigger] field_outcome(c, excluded, k, Set::empty())) is Ok,
        },
    decreases c.fields.len() - i,
{
    if i < c.fields.len() {
        memory_of_field(c, excluded, i as int, Set::empty(), values);
        if let Ok((v, vs)) = eval_field(c, i as int, Set::empty(), values) {
            assert forall|j: int| 0 <= j < i + 1 implies vs.contains_key(
                #[trigger] c.fields[j].name,
            ) by {
                if j < i {
                    assert(values.contains_key(c.fields[j].name));
                }
            }
            memory_of_all(c, excluded, i + 1, vs);
        }
    }
}

/// Evaluation gives each field that is not excluded the value that working it
/// out afresh gives, whatever the order of the fields; where that fails for
/// some, the error is that of the first.
pub proof fn fields_have_their_values(c: Engine, excluded: Set<Seq<char>>)
    requires
        distinct_names(c.fields),
    ensures
        match field_values(c, excluded) {
            Ok(values) => {
                &&& forall|n: Seq<char>| #[trigger]
                    values.contains_key(n) <==> is_field(c.fields, n) && !excluded.contains(n)
                &&& forall|i: int|
                    0 <= i < c.fields.len() && !excluded.contains(#[trigger] c.fields[i].name)
                        ==> field_outcome(c, excluded, i, Set::empty()) == Ok::<
                        Option<ValueView>,
                        EvalErrorView,
                    >(values[c.fields[i].name])
            },
            Err(x) => exists|i: int|
                0 <= i < c.fields.len() && #[trigger] field_outcome(c, excluded, i, Set::empty())
                    == Err::<Option<ValueView>, EvalErrorView>(x) && forall|k: int|
                    0 <= k < i ==> (#[trigger] field_outcome(c, excluded, k, Set::empty())) is Ok,
        },
{
    assert(faithful(c, excluded, nulls(excluded)));
    memory_of_all(c, excluded, 0, nulls(excluded));
    if let Ok(vs) = eval_from(c, 0, nulls(excluded)) {
        let values = vs.remove_keys(excluded);
        assert forall|n: Seq<char>| #[trigger]
            values.contains_key(n) <==> is_field(c.fields, n) && !excluded.contains(n) by {
            if is_field(c.fields, n) {
                let j = choose|j: int| 0 <= j < c.fields.len() && #[trigger] c.fields[j].name == n;
                assert(vs.contains_key(c.fields[j].name));
            }
        }
        assert forall|i: int|
            0 <= i < c.fields.len() && !excluded.contains(
                #[trigger] c.fields[i].name,
            ) implies field_outcome(c, excluded, i, Set::empty()) == Ok::<
            Option<ValueView>,
            EvalErrorView,
        >(values[c.fields[i].name]) by {
            let n = c.fields[i].name;
            assert(vs.contains_key(n));
            place_of(c.fields, i);
            field_on_less(c, excluded, i, Set::empty(), unknown(vs));
        }
    }
}

/// The value that is read for the field `n`: null where it has none.
pub open spec fn read(values: Values, n: Seq<char>) -> Option<ValueView> {
    if values.contains_key(n) {
        values[n]
    } else {
        None
    }
}

/// What an expression comes to where each field has the value that `values`
/// gives it.
pub open spec fn outcome_given(c: Engine, values: Values, e: ExprView, field: Seq<char>) -> Outcome
    decreases e, 0nat,
{
    match (c.given)(e, field) {
        Some(o) => o,
        None => match e {
            ExprView::Column(name) => Ok(read(values, name)),
            ExprView::BinaryOp { op, lhs, rhs } => match outcome_given(c, values, *lhs, field) {
                Err(x) => Err(x),
                Ok(l) => match outcome_given(c, values, *rhs, field) {
                    Err(x) => Err(x),
                    Ok(r) => in_field(operator_value(op, l, r), field),
                },
            },
            ExprView::FunctionCall { name, args } => if name == "COALESCE"@ {
                first_given(c, values, args, 0, field)
            } else {
                match args_given(c, values, args, 0, field, seq![]) {
                    Err(x) => Err(x),
                    Ok(vals) => Ok(function_value(name, vals)),
                }
            },
            _ => Ok(None),
        },
    }
}

/// The first of the arguments from `k` on that is not null, where each field
/// has its value.
pub open spec fn first_given(
    c: Engine,
    values: Values,
    args: Seq<ExprView>,
    k: nat,
    field: Seq<char>,
) -> Outcome
    decreases args, args.len() - k,
{
    if k >= args.len() {
        Ok(None)
    } else {
        match outcome_given(c, values, args[k as int], field) {
            Err(x) => Err(x),
            Ok(Some(v)) => Ok(Some(v)),
            Ok(None) => first_given(c, values, args, k + 1, field),
        }
    }
}

/// `acc` and the arguments from `k` on, where each field has its value.
pub open spec fn args_given(
    c: Engine,
    values: Values,
    args: Seq<ExprView>,
    k: nat,
    field: Seq<char>,
    acc: Seq<Option<ValueView>>,
) -> Result<Seq<Option<ValueView>>, EvalErrorView>
    decreases args, args.len() - k,
{
    if k >= args.len() {
        Ok(acc)
    } else {
        match outcome_given(c, values, args[k as int], field) {
            Err(x) => Err(x),
            Ok(v) => args_given(c, values, args, k + 1, field, acc.push(v)),
        }
    }
}

spec fn reads_as(c: Engine, excluded: Set<Seq<char>>, values: Values) -> bool {
    forall|i: int|
        0 <= i < c.fields.len() ==> #[trigger] field_outcome(c, excluded, i, Set::empty()) == Ok::<
            Option<ValueView>,
            EvalErrorView,
        >(read(values, c.fields[i].name))
}

proof fn expr_reads(
    c: Engine,
    excluded: Set<Seq<char>>,
    values: Values,
    e: ExprView,
    field: Seq<char>,
)
    requires
        reads_as(c, excluded, values),
        expr_outcome(c, excluded, e, field, Set::empty()) is Ok,
    ensures
        outcome_given(c, values, e, field) == expr_outcome(c, excluded, e, field, Set::empty()),
    decreases e, 0nat,
{
    if (c.given)(e, field) is None {
        match e {
            ExprView::Column(name) => {
                field_at_finds(c.fields, name);
                let i = field_at(c.fields, name)->0;
                assert(field_outcome(c, excluded, i, Set::empty()) == Ok::<
                    Option<ValueView>,
                    EvalErrorView,
                >(read(values, name)));
            },
            ExprView::BinaryOp { op, lhs, rhs } => {
                expr_reads(c, excluded, values, *lhs, field);
                expr_reads(c, excluded, values, *rhs, field);
                assert(outcome_given(c, values, e, field) == expr_outcome(
                    c,
                    excluded,
                    e,
                    field,
                    Set::empty(),
                ));
            },
            ExprView::FunctionCall { name, args } => {
                if name == "COALESCE"@ {
                    first_reads(c, excluded, values, args, 0, field);
                } else {
                    args_read(c, excluded, values, args, 0, field, seq![]);
                }
            },
            _ => {},
        }
    }
}

proof fn first_reads(
    c: Engine,
    excluded: Set<Seq<char>>,
    values: Values,
    args: Seq<ExprView>,
    k: nat,
    field: Seq<char>,
)
    requires
        reads_as(c, excluded, values),
        first_outcome(c, excluded, args, k, field, Set::empty()) is Ok,
    ensures
        first_given(c, values, args, k, field) == first_outcome(
            c,
            excluded,
            args,
            k,
            field,
            Set::empty(),
        ),
    decreases args, args.len() - k,
{
    if k < args.len() {
        expr_reads(c, excluded, values, args[k as int], field);
        if outcome_given(c, values, args[k as int], field) == Ok::<
            Option<ValueView>,
            EvalErrorView,
        >(None) {
            first_reads(c, excluded, values, args, k + 1, field);
        }
    }
}

proof fn args_read(
    c: Engine,
    excluded: Set<Seq<char>>,
    values: Values,
    args: Seq<ExprView>,
    k: nat,
    field: Seq<char>,
    acc: Seq<Option<ValueView>>,
)
    requires
        reads_as(c, excluded, values),
        args_outcome(c, excluded, args, k, field, Set::empty(), acc) is Ok,
    ensures
        args_given(c, values, args, k, field, acc) == args_outcome(
            c,
            excluded,
            args,
            k,
            field,
            Set::empty(),
            acc,
        ),
    decreases args, args.len() - k,
{
    if k < args.len() {
        expr_reads(c, excluded, values, args[k as int], field);
        let v = outcome_given(c, values, args[k as int], field)->Ok_0;
        args_read(c, excluded, values, args, k + 1, field, acc.push(v));
    }
}

/// The value of each field that is not excluded is what its expression comes
/// to where every field it uses has the value that it has in the result;
/// excluded fields have no value and are read as null.
pub proof fn values_satisfy_their_expressions(
    c: Engine,
    excluded: Set<Seq<char>>,
    values: Values,
    i: int,
)
    requires
        distinct_names(c.fields),
        field_values(c, excluded) == Ok::<Values, EvalErrorView>(values),
        0 <= i < c.fields.len(),
        !excluded.contains(c.fields[i].name),
    ensures
        values.contains_key(c.fields[i].name),
        outcome_given(c, values, c.fields[i].expr, c.fields[i].name) == Ok::<
            Option<ValueView>,
            EvalErrorView,
        >(values[c.fields[i].name]),
{
    let f = c.fields[i];
    fields_have_their_values(c, excluded);
    assert(is_field(c.fields, f.name));
    assert forall|j: int| 0 <= j < c.fields.len() implies #[trigger] field_outcome(
        c,
        excluded,
        j,
        Set::empty(),
    ) == Ok::<Option<ValueView>, EvalErrorView>(read(values, c.fields[j].name)) by {
        let n = c.fields[j].name;
        assert(is_field(c.fields, n));
        if !excluded.contains(n) {
            assert(values.contains_key(n));
        } else {
            assert(!values.contains_key(n));
        }
    }
    expr_on_less(
        c,
        excluded,
        f.expr,
        f.name,
        Set::empty(),
        Set::<Seq<char>>::empty().insert(f.name),
    );
    expr_reads(c, excluded, values, f.expr, f.name);
}

/// No expression is answered with a cycle, and every field that names itself
/// is answered from what is given.
pub open spec fn grounded(c: Engine) -> bool {
    &&& forall|e: ExprView, field: Seq<char>|
        #![trigger (c.given)(e, field)]
        (c.given)(e, field) matches Some(Err(x)) ==> !(x is Cycle)
    &&& forall|i: int|
        0 <= i < c.fields.len() && references(#[trigger] c.fields[i].expr).contains(
            c.fields[i].name,
        ) ==> (c.given)(ExprView::Column(c.fields[i].name), c.fields[i].name) is Some
}

/// `e` is part of the expression of the field named last in `p`.
spec fn belongs(c: Engine, refs: Seq<Seq<char>>, p: Seq<Seq<char>>) -> bool {
    &&& p.len() > 0
    &&& exists|i: int|
        0 <= i < c.fields.len() && #[trigger] c.fields[i].name == p.last() && (forall|r: Seq<char>|
            #[trigger] refs.contains(r) ==> references(c.fields[i].expr).contains(r))
}

proof fn belongs_less(c: Engine, less: Seq<Seq<char>>, refs: Seq<Seq<char>>, p: Seq<Seq<char>>)
    requires
        belongs(c, refs, p),
        forall|r: Seq<char>| #[trigger] less.contains(r) ==> refs.contains(r),
    ensures
        belongs(c, less, p),
{
    let i = choose|i: int|
        0 <= i < c.fields.len() && #[trigger] c.fields[i].name == p.last() && (forall|r: Seq<char>|
            #[trigger] refs.contains(r) ==> references(c.fields[i].expr).contains(r));
    assert(c.fields[i].name == p.last());
}

proof fn expr_has_no_circle(
    c: Engine,
    excluded: Set<Seq<char>>,
    e: ExprView,
    p: Seq<Seq<char>>,
)
    requires
        distinct_names(c.fields),
        !cyclic(c.fields),
        grounded(c),
        is_path(c.fields, p),
        belongs(c, references(e), p),
    ensures
        expr_outcome(c, excluded, e, p.last(), p.to_set()) matches Err(x) ==> !(x is Cycle),
    decreases open_fields(c.fields, p.to_set()), 1nat, e, 0nat,
{
    let field = p.last();
    if (c.given)(e, field) is None {
        match e {
            ExprView::Column(name) => {
                field_at_finds(c.fields, name);
                if let Some(j) = field_at(c.fields, name) {
                    let refs = references(e);
                    let i = choose|i: int|
                        0 <= i < c.fields.len() && #[trigger] c.fields[i].name == field && (forall|
                            r: Seq<char>,
                        | #[trigger]
                            refs.contains(r) ==> references(c.fields[i].expr).contains(r));
                    assert(refs[0] == name);
                    assert(refs.contains(name));
                    assert(references(c.fields[i].expr).contains(name));
                    assert(name != field);
                    assert(depends(c.fields, field, name));
                    let longer = p.push(name);
                    assert forall|k: int| 0 <= k < longer.len() - 1 implies #[trigger] depends(
                        c.fields,
                        longer[k],
                        longer[k + 1],
                    ) by {
                        if k < p.len() - 1 {
                            assert(depends(c.fields, p[k], p[k + 1]));
                        }
                    }
                    if p.to_set().contains(name) {
                        let m = p.index_of(name);
                        assert(longer[m] == longer[longer.len() - 1]);
                        assert(comes_back(c.fields, longer));
                        coming_back_is_cyclic(c.fields, longer);
                    }
                    if !excluded.contains(name) {
                        opening_shrinks(c.fields, p.to_set(), j);
                        assert(longer.to_set() =~= p.to_set().insert(name)) by {
                            assert forall|x: Seq<char>|
                                longer.to_set().contains(x) == p.to_set().insert(name).contains(
                                    x,
                                ) by {
                                if p.contains(x) {
                                    let m = p.index_of(x);
                                    assert(longer[m] == x);
                                }
                                if x == name {
                                    assert(longer[p.len() as int] == x);
                                }
                                if longer.contains(x) {
                                    let m = longer.index_of(x);
                                    if m < p.len() {
                                        assert(p[m] == x);
                                    }
                                }
                            }
                        }
                        assert(c.fields[j].name == longer.last());
                        expr_has_no_circle(c, excluded, c.fields[j].expr, longer);
                        assert(field_outcome(c, excluded, j, p.to_set()) matches Err(x) ==> !(
                        x is Cycle));
                    }
                    assert(expr_outcome(c, excluded, e, p.last(), p.to_set()) matches Err(x) ==> !(
                    x is Cycle));
                }
            },
            ExprView::BinaryOp { op, lhs, rhs } => {
                let a = references(*lhs);
                let b = references(*rhs);
                assert forall|r: Seq<char>| #[trigger] a.contains(r) implies references(
                    e,
                ).contains(r) by {
                    assert((a + b)[a.index_of(r)] == r);
                }
                assert forall|r: Seq<char>| #[trigger] b.contains(r) implies references(
                    e,
                ).contains(r) by {
                    assert((a + b)[a.len() + b.index_of(r)] == r);
                }
                belongs_less(c, a, references(e), p);
                belongs_less(c, b, references(e), p);
                expr_has_no_circle(c, excluded, *lhs, p);
                expr_has_no_circle(c, excluded, *rhs, p);
                assert(expr_outcome(c, excluded, e, p.last(), p.to_set()) matches Err(x) ==> !(
                x is Cycle));
            },
            ExprView::FunctionCall { name, args } => {
                if name == "COALESCE"@ {
                    first_has_no_circle(c, excluded, args, 0, p);
                } else {
                    args_have_no_circle(c, excluded, args, 0, p, seq![]);
                }
                assert(expr_outcome(c, excluded, e, p.last(), p.to_set()) matches Err(x) ==> !(
                x is Cycle));
            },
            _ => {},
        }
    }
}

proof fn first_has_no_circle(
    c: Engine,
    excluded: Set<Seq<char>>,
    args: Seq<ExprView>,
    k: nat,
    p: Seq<Seq<char>>,
)
    requires
        distinct_names(c.fields),
        !cyclic(c.fields),
        grounded(c),
        is_path(c.fields, p),
        belongs(c, references_of_all(args), p),
    ensures
        first_outcome(c, excluded, args, k, p.last(), p.to_set()) matches Err(x) ==> !(x is Cycle),
    decreases open_fields(c.fields, p.to_set()), 1nat, args, args.len() - k,
{
    if k < args.len() {
        assert forall|r: Seq<char>| #[trigger]
            references(args[k as int]).contains(r) implies references_of_all(args).contains(r) by {
            references_of_each(args, k as int, r);
        }
        belongs_less(c, references(args[k as int]), references_of_all(args), p);
        expr_has_no_circle(c, excluded, args[k as int], p);
        first_has_no_circle(c, excluded, args, k + 1, p);
    }
}

proof fn args_have_no_circle(
    c: Engine,
    excluded: Set<Seq<char>>,
    args: Seq<ExprView>,
    k: nat,
    p: Seq<Seq<char>>,
    acc: Seq<Option<ValueView>>,
)
    requires
        distinct_names(c.fields),
        !cyclic(c.fields),
        grounded(c),
        is_path(c.fields, p),
        belongs(c, references_of_all(args), p),
    ensures
        args_outcome(c, excluded, args, k, p.last(), p.to_set(), acc) matches Err(x) ==> !(
        x is Cycle),
    decreases open_fields(c.fields, p.to_set()), 1nat, args, args.len() - k,
{
    if k < args.len() {
        assert forall|r: Seq<char>| #[trigger]
            references(args[k as int]).contains(r) implies references_of_all(args).contains(r) by {
            references_of_each(args, k as int, r);
        }
        belongs_less(c, references(args[k as int]), references_of_all(args), p);
        expr_has_no_circle(c, excluded, args[k as int], p);
        if let Ok(v) = expr_outcome(c, excluded, args[k as int], p.last(), p.to_set()) {
            args_have_no_circle(c, excluded, args, k + 1, p, acc.push(v));
        }
    }
}

/// Where no field depends on itself, evaluation never reports that one does.
pub proof fn no_circle_is_found(c: Engine, excluded: Set<Seq<char>>)
    requires
        distinct_names(c.fields),
        !cyclic(c.fields),
        grounded(c),
    ensures
        field_values(c, excluded) matches Err(x) ==> !(x is Cycle),
{
    fields_have_their_values(c, excluded);
    if let Err(x) = field_values(c, excluded) {
        let i = choose|i: int|
            0 <= i < c.fields.len() && #[trigger] field_outcome(c, excluded, i, Set::empty())
                == Err::<Option<ValueView>, EvalErrorView>(x) && forall|k: int|
                0 <= k < i ==> (#[trigger] field_outcome(c, excluded, k, Set::empty())) is Ok;
        let f = c.fields[i];
        let p = seq![f.name];
        assert(p.to_set() =~= Set::empty().insert(f.name)) by {
            assert(p[0] == f.name);
        }
        assert(f.name == p.last());
        expr_has_no_circle(c, excluded, f.expr, p);
    }
}

proof fn cells_have_no_circle(
    rows: Seq<RowView>,
    columns: Map<Seq<char>, ValueTypeView>,
    field: Seq<char>,
    column: Seq<char>,
)
    ensures
        cells(rows, columns, field, column) matches Err(x) ==> !(x is Cycle),
        filled(rows, field, column) matches Err(x) ==> !(x is Cycle),
    decreases rows.len(),
{
    if rows.len() > 0 {
        cells_have_no_circle(rows.drop_last(), columns, field, column);
    }
}

proof fn rows_have_no_circle(
    fields: Seq<FieldDefView>,
    row: RowView,
    columns: Map<Seq<char>, ValueTypeView>,
    context: ContextView,
    e: ExprView,
    field: Seq<char>,
)
    ensures
        row_given(fields, row, columns, context, e, field) matches Some(Err(x)) ==> !(x is Cycle),
{
    if let ExprView::FunctionCall { name, args } = e {
        if args.len() == 1 {
            if let ExprView::RelationshipPath { rel, column } = args[0] {
                let data = context.to_many[rel];
                if let Ok(rows) = crate::defs::relationship_data::related_rows(row, data, field) {
                    cells_have_no_circle(rows, data.to_columns, field, column);
                }
            }
        }
    }
}

/// Where no problem is found, there is none at any place that was looked at.
pub proof fn no_problem_at(
    i: int,
    n: int,
    f: spec_fn(int) -> Option<crate::defs::validation_error::ValidationErrorView>,
    k: int,
)
    requires
        first_problem(i, n, f) is None,
        i <= k < n,
    ensures
        f(k) is None,
    decreases n - i,
{
    if i < k {
        no_problem_at(i + 1, n, f, k);
    }
}

proof fn each_resolves(c: Scope, field: Seq<char>, refs: Seq<Seq<char>>, k: nat, j: int)
    requires
        unresolved_from(c, field, refs, k) is None,
        k <= j < refs.len(),
    ensures
        resolves(c, field, refs[j]),
    decreases refs.len() - k,
{
    if k < j {
        each_resolves(c, field, refs, k + 1, j);
    }
}

/// In a definition that is accepted, names are distinct and every column that
/// a field names is a source column or another field.
pub proof fn accepted_names_resolve(def: TransformDefView, c: Scope)
    requires
        valid(def, c),
    ensures
        distinct_names(c.fields),
        forall|i: int, r: Seq<char>|
            #![trigger c.fields[i], references(c.fields[i].expr).contains(r)]
            0 <= i < c.fields.len() && references(c.fields[i].expr).contains(r) ==> resolves(
                c,
                c.fields[i].name,
                r,
            ),
{
    let n = c.fields.len() as int;
    assert forall|i: int, j: int| 0 <= i < j < n implies #[trigger] c.fields[i].name
        != #[trigger] c.fields[j].name by {
        no_problem_at(0, n, duplicates(c.fields), j);
        assert(c.fields.take(j)[i].name == c.fields[i].name);
    }
    assert forall|i: int, r: Seq<char>|
        #![trigger c.fields[i], references(c.fields[i].expr).contains(r)]
        0 <= i < n && references(c.fields[i].expr).contains(r) implies resolves(
        c,
        c.fields[i].name,
        r,
    ) by {
        no_problem_at(0, n, unresolved(c), i);
        let refs = references(c.fields[i].expr);
        each_resolves(c, c.fields[i].name, refs, 0, refs.index_of(r));
    }
}

/// Evaluating a definition that is accepted never reports a cycle.
pub proof fn accepted_definitions_have_no_circle(
    def: TransformDefView,
    c: Scope,
    row: RowView,
    context: ContextView,
    excluded: Set<Seq<char>>,
)
    requires
        valid(def, c),
        def.fields == c.fields,
    ensures
        field_values(definition_engine(def, row, c.columns, context), excluded) matches Err(x)
            ==> !(x is Cycle),
{
    let engine = definition_engine(def, row, c.columns, context);
    accepted_names_resolve(def, c);
    assert forall|e: ExprView, field: Seq<char>|
        #![trigger (engine.given)(e, field)]
        (engine.given)(e, field) matches Some(Err(x)) ==> !(x is Cycle) by {
        rows_have_no_circle(def.fields, row, c.columns, context, e, field);
    }
    assert forall|i: int|
        0 <= i < engine.fields.len() && references(#[trigger] engine.fields[i].expr).contains(
            engine.fields[i].name,
        ) implies (engine.given)(
        ExprView::Column(engine.fields[i].name),
        engine.fields[i].name,
    ) is Some by {
        let f = c.fields[i];
        assert(references(c.fields[i].expr).contains(f.name));
        assert(resolves(c, f.name, f.name));
    }
    no_circle_is_found(engine, excluded);
}

} // verus!
