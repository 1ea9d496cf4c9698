//! A group's values do not depend on the order of its rows.

use vstd::multiset::Multiset;
use vstd::prelude::*;

use crate::defs::ast::{ExprView, FieldDefView, Operator, ValueTypeView};
use crate::defs::builtins::{
    aggregate_value, as_float, booleans, extreme_moment, extremes_are_unbeaten, floats,
    function_value, greatest, greatest_float, has_float, interval_of, intervals, is_number, is_text,
    least, least_float, moment_of, numbers, operator_value, span_total, total, whole, Overflow,
};
use crate::defs::deps::{field_at, field_at_finds, open_fields, opening_shrinks};
use crate::defs::eval::{
    eval_args, eval_expr, eval_field, eval_first, eval_from, field_values, group_engine, nulls,
    over_row, values_over_rows, Values,
};
use crate::defs::relationship_data::{cell, RowView};
use crate::defs::value::{EvalErrorView, ValueView};
use crate::defs::registry::aggregate_name;
use crate::float::{float_sums_keep_order, order_of_floats, FloatView, FloatWidth};
use crate::interval::IntervalView;
use crate::natural::Order;
use crate::numeric::{
    doubles_go_by_value, order_by_value, sum, sum_is_associative, sum_is_commutative,
    sums_keep_values, values_are_ordered, NumericView,
};

verus! {

/// Two values are the same; numbers count by what they are worth, floats also by
/// their width, and dates and times by when they are.
pub open spec fn same_value(a: Option<ValueView>, b: Option<ValueView>) -> bool {
    match (a, b) {
        (Some(ValueView::Numeric(x)), Some(ValueView::Numeric(y))) => order_by_value(x, y)
            == Order::Same,
        (Some(ValueView::Float(x, w)), Some(ValueView::Float(y, v))) => w == v && order_of_floats(
            x,
            y,
        ) == Order::Same,
        (Some(ValueView::Other(..)), Some(ValueView::Other(..))) => a == b || (moment_of(
            a->0,
        ) is Some && moment_of(a->0) == moment_of(b->0)),
        _ => a == b,
    }
}

/// Two computations came to the same value.
pub open spec fn same_outcome(
    a: Result<Option<ValueView>, Overflow>,
    b: Result<Option<ValueView>, Overflow>,
) -> bool {
    match (a, b) {
        (Ok(x), Ok(y)) => same_value(x, y),
        _ => a == b,
    }
}

/// The same names have the same values.
pub open spec fn same_values(a: Values, b: Values) -> bool {
    &&& forall|n: Seq<char>| #[trigger] a.contains_key(n) <==> b.contains_key(n)
    &&& forall|n: Seq<char>| #[trigger] a.contains_key(n) ==> same_value(a[n], b[n])
}

// ---------------------------------------------------------------------------
// What is folded
// ---------------------------------------------------------------------------

spec fn with_value(m: Multiset<ValueView>, v: Option<ValueView>) -> Multiset<ValueView> {
    match v {
        Some(x) => m.insert(x),
        None => m,
    }
}

proof fn row_taken_out(
    fields: Seq<FieldDefView>,
    rows: Seq<RowView>,
    i: int,
    columns: Map<Seq<char>, ValueTypeView>,
    arg: ExprView,
    field: Seq<char>,
)
    requires
        0 <= i < rows.len(),
        values_over_rows(fields, rows, columns, arg, field) is Ok,
    ensures
        over_row(fields, rows[i], columns, arg, field) is Ok,
        values_over_rows(fields, rows.remove(i), columns, arg, field) is Ok,
        values_over_rows(fields, rows, columns, arg, field)->Ok_0.to_multiset() == with_value(
            values_over_rows(fields, rows.remove(i), columns, arg, field)->Ok_0.to_multiset(),
            over_row(fields, rows[i], columns, arg, field)->Ok_0,
        ),
    decreases rows.len(),
{
    broadcast use vstd::seq_lib::group_to_multiset_ensures;

    let less = rows.drop_last();
    if i == rows.len() - 1 {
        assert(rows.remove(i) =~= less);
    } else {
        row_taken_out(fields, less, i, columns, arg, field);
        let out = rows.remove(i);
        assert(out.drop_last() =~= less.remove(i));
        assert(out.last() == rows.last());
        assert(less[i] == rows[i]);
        let v = over_row(fields, rows[i], columns, arg, field)->Ok_0;
        let w = over_row(fields, rows.last(), columns, arg, field)->Ok_0;
        let m = values_over_rows(fields, less.remove(i), columns, arg, field)->Ok_0.to_multiset();
        assert(with_value(with_value(m, v), w) =~= with_value(with_value(m, w), v));
    }
}

proof fn folded_alike(
    fields: Seq<FieldDefView>,
    a: Seq<RowView>,
    b: Seq<RowView>,
    columns: Map<Seq<char>, ValueTypeView>,
    arg: ExprView,
    field: Seq<char>,
)
    requires
        a.to_multiset() == b.to_multiset(),
        values_over_rows(fields, a, columns, arg, field) is Ok,
        values_over_rows(fields, b, columns, arg, field) is Ok,
    ensures
        values_over_rows(fields, a, columns, arg, field)->Ok_0.to_multiset() == values_over_rows(
            fields,
            b,
            columns,
            arg,
            field,
        )->Ok_0.to_multiset(),
    decreases b.len(),
{
    broadcast use vstd::seq_lib::group_to_multiset_ensures;

    assert(a.len() == a.to_multiset().len() && b.len() == b.to_multiset().len());
    if b.len() == 0 {
        assert(a =~= b);
    } else {
        let last = b.last();
        let n = b.len() - 1;
        assert(b[n] == last);
        assert(b.to_multiset().count(last) > 0);
        let i = choose|i: int| 0 <= i < a.len() && a[i] == last;
        assert(b.remove(n) =~= b.drop_last());
        row_taken_out(fields, a, i, columns, arg, field);
        row_taken_out(fields, b, n, columns, arg, field);
        assert(a.remove(i).to_multiset() =~= b.remove(n).to_multiset());
        folded_alike(fields, a.remove(i), b.remove(n), columns, arg, field);
    }
}

// ---------------------------------------------------------------------------
// Folds
// ---------------------------------------------------------------------------

proof fn number_taken_out(vs: Seq<ValueView>, i: int)
    requires
        0 <= i < vs.len(),
    ensures
        numbers(vs).to_multiset() == (match vs[i] {
            ValueView::Numeric(n) => numbers(vs.remove(i)).to_multiset().insert(n),
            _ => numbers(vs.remove(i)).to_multiset(),
        }),
        booleans(vs).to_multiset() == (match vs[i] {
            ValueView::Boolean(b) => booleans(vs.remove(i)).to_multiset().insert(b),
            _ => booleans(vs.remove(i)).to_multiset(),
        }),
    decreases vs.len(),
{
    broadcast use vstd::seq_lib::group_to_multiset_ensures;

    let less = vs.drop_last();
    let out = vs.remove(i);
    if i == vs.len() - 1 {
        assert(out =~= less);
    } else {
        number_taken_out(less, i);
        assert(out.drop_last() =~= less.remove(i));
        assert(out.last() == vs.last());
        assert(less[i] == vs[i]);
        let m = numbers(less.remove(i)).to_multiset();
        let k = booleans(less.remove(i)).to_multiset();
        if let (ValueView::Numeric(x), ValueView::Numeric(y)) = (vs[i], vs.last()) {
            assert(m.insert(x).insert(y) =~= m.insert(y).insert(x));
        }
        if let (ValueView::Boolean(x), ValueView::Boolean(y)) = (vs[i], vs.last()) {
            assert(k.insert(x).insert(y) =~= k.insert(y).insert(x));
        }
    }
}

proof fn numbers_alike(a: Seq<ValueView>, b: Seq<ValueView>)
    requires
        a.to_multiset() == b.to_multiset(),
    ensures
        numbers(a).to_multiset() == numbers(b).to_multiset(),
        booleans(a).to_multiset() == booleans(b).to_multiset(),
    decreases b.len(),
{
    broadcast use vstd::seq_lib::group_to_multiset_ensures;

    assert(a.len() == a.to_multiset().len() && b.len() == b.to_multiset().len());
    if b.len() == 0 {
        assert(a =~= b);
    } else {
        let n = b.len() - 1;
        assert(b[n] == b.last());
        assert(b.to_multiset().count(b[n]) > 0);
        let i = choose|i: int| 0 <= i < a.len() && a[i] == b[n];
        number_taken_out(a, i);
        number_taken_out(b, n);
        assert(a.remove(i).to_multiset() =~= b.remove(n).to_multiset());
        numbers_alike(a.remove(i), b.remove(n));
    }
}

proof fn term_taken_out(ns: Seq<NumericView>, i: int)
    requires
        0 <= i < ns.len(),
        ns.len() >= 2,
    ensures
        total(ns) == sum(total(ns.remove(i)), ns[i]),
    decreases ns.len(),
{
    let less = ns.drop_last();
    let out = ns.remove(i);
    if i == ns.len() - 1 {
        assert(out =~= less);
    } else {
        assert(out.last() == ns.last());
        assert(less[i] == ns[i]);
        if ns.len() == 2 {
            assert(total(less) == ns[0]);
            assert(total(out) == ns[1]);
            sum_is_commutative(ns[0], ns[1]);
        } else {
            term_taken_out(less, i);
            assert(out.drop_last() =~= less.remove(i));
            let t = total(less.remove(i));
            sum_is_associative(t, ns[i], ns.last());
            sum_is_commutative(ns[i], ns.last());
            sum_is_associative(t, ns.last(), ns[i]);
        }
    }
}

proof fn totals_alike(a: Seq<NumericView>, b: Seq<NumericView>)
    requires
        a.to_multiset() == b.to_multiset(),
        b.len() > 0,
    ensures
        a.len() == b.len(),
        total(a) == total(b),
    decreases b.len(),
{
    broadcast use vstd::seq_lib::group_to_multiset_ensures;

    assert(a.len() == a.to_multiset().len() && b.len() == b.to_multiset().len());
    let n = b.len() - 1;
    assert(b.contains(b[n]));
    assert(b.to_multiset().count(b[n]) > 0);
    assert(a.contains(b[n]));
    let i = choose|i: int| 0 <= i < a.len() && a[i] == b[n];
    if b.len() > 1 {
        term_taken_out(a, i);
        term_taken_out(b, n);
        assert(a.remove(i).to_multiset() =~= b.remove(n).to_multiset());
        totals_alike(a.remove(i), b.remove(n));
    }
}

proof fn extremes_bound(ns: Seq<NumericView>)
    requires
        ns.len() > 0,
    ensures
        ns.contains(least(ns)),
        ns.contains(greatest(ns)),
        forall|i: int|
            0 <= i < ns.len() ==> order_by_value(least(ns), #[trigger] ns[i]) != Order::Greater,
        forall|i: int|
            0 <= i < ns.len() ==> order_by_value(greatest(ns), #[trigger] ns[i]) != Order::Less,
    decreases ns.len(),
{
    let last = ns.last();
    assert(ns[ns.len() - 1] == last);
    values_are_ordered(last, last, last);
    if ns.len() > 1 {
        let less = ns.drop_last();
        extremes_bound(less);
        let l = least(less);
        let g = greatest(less);
        let il = less.index_of(l);
        let ig = less.index_of(g);
        assert(ns[il] == l && ns[ig] == g);
        values_are_ordered(last, l, l);
        values_are_ordered(l, last, last);
        values_are_ordered(last, g, g);
        values_are_ordered(g, last, last);
        assert forall|i: int| 0 <= i < ns.len() implies order_by_value(
            least(ns),
            #[trigger] ns[i],
        ) != Order::Greater && order_by_value(greatest(ns), ns[i]) != Order::Less by {
            if i < less.len() {
                assert(less[i] == ns[i]);
                values_are_ordered(last, l, ns[i]);
                values_are_ordered(ns[i], g, last);
                values_are_ordered(g, ns[i], ns[i]);
                values_are_ordered(ns[i], g, g);
                values_are_ordered(last, ns[i], ns[i]);
            }
        }
    }
}

proof fn extremes_alike(a: Seq<NumericView>, b: Seq<NumericView>)
    requires
        a.to_multiset() == b.to_multiset(),
        a.len() > 0,
        b.len() > 0,
    ensures
        order_by_value(least(a), least(b)) == Order::Same,
        order_by_value(greatest(a), greatest(b)) == Order::Same,
{
    broadcast use vstd::seq_lib::group_to_multiset_ensures;

    extremes_bound(a);
    extremes_bound(b);
    assert(a.to_multiset().count(least(a)) > 0);
    assert(a.to_multiset().count(greatest(a)) > 0);
    assert(b.to_multiset().count(least(b)) > 0);
    assert(b.to_multiset().count(greatest(b)) > 0);
    assert(b.contains(least(a)) && a.contains(least(b)));
    assert(b.contains(greatest(a)) && a.contains(greatest(b)));
    assert(b[b.index_of(least(a))] == least(a));
    assert(a[a.index_of(least(b))] == least(b));
    assert(b[b.index_of(greatest(a))] == greatest(a));
    assert(a[a.index_of(greatest(b))] == greatest(b));
    values_are_ordered(least(a), least(b), least(b));
    values_are_ordered(greatest(a), greatest(b), greatest(b));
    values_are_ordered(greatest(b), greatest(a), greatest(a));
}

proof fn moments_alike(a: Seq<ValueView>, b: Seq<ValueView>, latest: bool)
    requires
        a.to_multiset() == b.to_multiset(),
    ensures
        same_value(extreme_moment(a, latest), extreme_moment(b, latest)),
{
    broadcast use vstd::seq_lib::group_to_multiset_ensures;

    extremes_are_unbeaten(a, latest);
    extremes_are_unbeaten(b, latest);
    if let Some(x) = extreme_moment(a, latest) {
        assert(a.to_multiset().count(x) > 0);
        assert(b.contains(x));
    }
    if let Some(y) = extreme_moment(b, latest) {
        assert(b.to_multiset().count(y) > 0);
        assert(a.contains(y));
    }
}

/// The months, days and microseconds of all spans that are finite.
spec fn finite_parts(vs: Seq<IntervalView>) -> (int, int, int)
    decreases vs.len(),
{
    if vs.len() == 0 {
        (0, 0, 0)
    } else {
        let t = finite_parts(vs.drop_last());
        match vs.last() {
            IntervalView::Finite { months, days, micros } => (
                t.0 + months,
                t.1 + days,
                t.2 + micros,
            ),
            _ => t,
        }
    }
}

proof fn parts_taken_out(vs: Seq<IntervalView>, i: int)
    requires
        0 <= i < vs.len(),
    ensures
        ({
            let t = finite_parts(vs.remove(i));
            finite_parts(vs) == (match vs[i] {
                IntervalView::Finite { months, days, micros } => (
                    t.0 + months,
                    t.1 + days,
                    t.2 + micros,
                ),
                _ => t,
            })
        }),
    decreases vs.len(),
{
    let less = vs.drop_last();
    let out = vs.remove(i);
    if i == vs.len() - 1 {
        assert(out =~= less);
    } else {
        parts_taken_out(less, i);
        assert(out.drop_last() =~= less.remove(i));
        assert(out.last() == vs.last());
        assert(less[i] == vs[i]);
    }
}

proof fn parts_alike(a: Seq<IntervalView>, b: Seq<IntervalView>)
    requires
        a.to_multiset() == b.to_multiset(),
    ensures
        finite_parts(a) == finite_parts(b),
    decreases b.len(),
{
    broadcast use vstd::seq_lib::group_to_multiset_ensures;

    assert(a.len() == a.to_multiset().len() && b.len() == b.to_multiset().len());
    if b.len() > 0 {
        let n = b.len() - 1;
        assert(b.contains(b[n]));
        assert(b.to_multiset().count(b[n]) > 0);
        assert(a.contains(b[n]));
        let i = choose|i: int| 0 <= i < a.len() && a[i] == b[n];
        parts_taken_out(a, i);
        parts_taken_out(b, n);
        assert(a.remove(i).to_multiset() =~= b.remove(n).to_multiset());
        parts_alike(a.remove(i), b.remove(n));
    }
}

/// A sum of spans is that of their parts, or the infinity among them.
proof fn span_total_is(vs: Seq<IntervalView>)
    requires
        vs.len() > 0,
        span_total(vs) is Some,
    ensures
        match span_total(vs)->0 {
            IntervalView::Finite { months, days, micros } => {
                &&& (months, days, micros) == finite_parts(vs)
                &&& forall|i: int| 0 <= i < vs.len() ==> (#[trigger] vs[i]) is Finite
            },
            t => vs.contains(t) && forall|i: int|
                0 <= i < vs.len() ==> (#[trigger] vs[i]) is Finite || vs[i] == t,
        },
    decreases vs.len(),
{
    let last = vs[vs.len() - 1];
    let less = vs.drop_last();
    if vs.len() > 1 {
        span_total_is(less);
        let t = span_total(less)->0;
        assert forall|i: int| 0 <= i < vs.len() implies (#[trigger] vs[i] == last || (i < less.len()
            && vs[i] == less[i])) by {}
        if !(t is Finite) {
            assert(vs[less.index_of(t)] == t);
        }
        assert(vs.contains(last));
    } else {
        assert(finite_parts(less) == (0int, 0int, 0int));
    }
}

proof fn spans_alike(a: Seq<IntervalView>, b: Seq<IntervalView>)
    requires
        a.to_multiset() == b.to_multiset(),
        b.len() > 0,
        span_total(a) is Some,
        span_total(b) is Some,
    ensures
        span_total(a) == span_total(b),
{
    broadcast use vstd::seq_lib::group_to_multiset_ensures;

    assert(a.len() == a.to_multiset().len() && b.len() == b.to_multiset().len());
    span_total_is(a);
    span_total_is(b);
    parts_alike(a, b);
    let (t, u) = (span_total(a)->0, span_total(b)->0);
    if !(t is Finite) {
        assert(a.to_multiset().count(t) > 0);
        assert(b.contains(t));
        assert(b[b.index_of(t)] == t);
    }
    if !(u is Finite) {
        assert(b.to_multiset().count(u) > 0);
        assert(a.contains(u));
        assert(a[a.index_of(u)] == u);
    }
}

proof fn span_taken_out(vs: Seq<ValueView>, i: int)
    requires
        0 <= i < vs.len(),
    ensures
        intervals(vs).to_multiset() == (match interval_of(vs[i]) {
            Some(v) => intervals(vs.remove(i)).to_multiset().insert(v),
            None => intervals(vs.remove(i)).to_multiset(),
        }),
    decreases vs.len(),
{
    broadcast use vstd::seq_lib::group_to_multiset_ensures;

    let less = vs.drop_last();
    let out = vs.remove(i);
    if i == vs.len() - 1 {
        assert(out =~= less);
    } else {
        span_taken_out(less, i);
        assert(out.drop_last() =~= less.remove(i));
        assert(out.last() == vs.last());
        assert(less[i] == vs[i]);
        let m = intervals(less.remove(i)).to_multiset();
        if let (Some(x), Some(y)) = (interval_of(vs[i]), interval_of(vs.last())) {
            assert(m.insert(x).insert(y) =~= m.insert(y).insert(x));
        }
    }
}

proof fn intervals_alike(a: Seq<ValueView>, b: Seq<ValueView>)
    requires
        a.to_multiset() == b.to_multiset(),
    ensures
        intervals(a).to_multiset() == intervals(b).to_multiset(),
    decreases b.len(),
{
    broadcast use vstd::seq_lib::group_to_multiset_ensures;

    assert(a.len() == a.to_multiset().len() && b.len() == b.to_multiset().len());
    if b.len() == 0 {
        assert(a =~= b);
    } else {
        let n = b.len() - 1;
        assert(b[n] == b.last());
        assert(b.to_multiset().count(b[n]) > 0);
        let i = choose|i: int| 0 <= i < a.len() && a[i] == b[n];
        span_taken_out(a, i);
        span_taken_out(b, n);
        assert(a.remove(i).to_multiset() =~= b.remove(n).to_multiset());
        intervals_alike(a.remove(i), b.remove(n));
    }
}

/// `f` is what some number among the values is as a float.
spec fn is_float_of(vs: Seq<ValueView>, f: (FloatView, FloatWidth), v: ValueView) -> bool {
    vs.contains(v) && is_number(v) && as_float(v) == Some(f)
}

spec fn comes_from(vs: Seq<ValueView>, f: (FloatView, FloatWidth)) -> bool {
    exists|v: ValueView| is_float_of(vs, f, v)
}

proof fn floats_come_from(vs: Seq<ValueView>)
    requires
        floats(vs) is Some,
    ensures
        forall|i: int|
            0 <= i < (floats(vs)->0).len() ==> comes_from(vs, #[trigger] (floats(vs)->0)[i]),
        forall|v: ValueView, f: (FloatView, FloatWidth)| #[trigger]
            is_float_of(vs, f, v) ==> (floats(vs)->0).contains(f),
    decreases vs.len(),
{
    if vs.len() > 0 {
        let less = vs.drop_last();
        let last = vs.last();
        floats_come_from(less);
        let gs = floats(less)->0;
        let fs = floats(vs)->0;
        assert(vs[vs.len() - 1] == last);
        assert forall|v: ValueView| #[trigger] less.contains(v) implies vs.contains(v) by {
            assert(vs[less.index_of(v)] == v);
        }
        assert forall|i: int| 0 <= i < fs.len() implies comes_from(vs, #[trigger] fs[i]) by {
            if i < gs.len() {
                assert(fs[i] == gs[i]);
                assert(comes_from(less, gs[i]));
                let v = choose|v: ValueView| is_float_of(less, gs[i], v);
                assert(is_float_of(vs, fs[i], v));
            } else {
                assert(is_float_of(vs, fs[i], last));
            }
        }
        assert forall|v: ValueView, f: (FloatView, FloatWidth)| #[trigger]
            is_float_of(vs, f, v) implies fs.contains(f) by {
            if v == last {
                assert(fs[fs.len() - 1] == f);
            } else {
                let j = choose|j: int| 0 <= j < vs.len() && vs[j] == v;
                assert(less[j] == v);
                assert(is_float_of(less, f, v));
                let k = choose|k: int| 0 <= k < gs.len() && gs[k] == f;
                assert(fs[k] == f);
            }
        }
    }
}

proof fn float_extremes_bound(fs: Seq<(FloatView, FloatWidth)>)
    requires
        fs.len() > 0,
    ensures
        fs.contains(least_float(fs)),
        fs.contains(greatest_float(fs)),
        forall|i: int|
            0 <= i < fs.len() ==> order_of_floats(least_float(fs).0, (#[trigger] fs[i]).0)
                != Order::Greater && order_of_floats(greatest_float(fs).0, fs[i].0) != Order::Less,
    decreases fs.len(),
{
    assert(fs[fs.len() - 1] == fs.last());
    if fs.len() > 1 {
        let less = fs.drop_last();
        float_extremes_bound(less);
        assert(fs[less.index_of(least_float(less))] == least_float(less));
        assert(fs[less.index_of(greatest_float(less))] == greatest_float(less));
        assert forall|i: int| 0 <= i < fs.len() implies order_of_floats(
            least_float(fs).0,
            (#[trigger] fs[i]).0,
        ) != Order::Greater && order_of_floats(greatest_float(fs).0, fs[i].0) != Order::Less by {
            if i < less.len() {
                assert(less[i] == fs[i]);
            }
        }
    }
}

/// All the numbers are floats of one width, decimals counting as double
/// precision.
pub open spec fn one_width(vs: Seq<ValueView>) -> bool {
    floats(vs) matches Some(fs) ==> forall|i: int, j: int|
        0 <= i < fs.len() && 0 <= j < fs.len() ==> (#[trigger] fs[i]).1 == (#[trigger] fs[j]).1
}

/// An aggregate makes the same of the values in every order. A sum of floats
/// depends on the order it is taken in, and the least of two floats of
/// different width that are the same in order is the one that comes first.
pub open spec fn order_free(name: Seq<char>, vs: Seq<ValueView>) -> bool {
    has_float(vs) ==> {
        &&& name != "SUM"@
        &&& name != "AVG"@
        &&& name == "MIN"@ || name == "MAX"@ ==> one_width(vs)
    }
}

proof fn floats_alike(a: Seq<ValueView>, b: Seq<ValueView>)
    requires
        a.to_multiset() == b.to_multiset(),
        has_float(a),
        floats(a) is Some,
        floats(b) is Some,
        one_width(a),
    ensures
        ({
            let (fa, fb) = (floats(a)->0, floats(b)->0);
            &&& least_float(fa).1 == least_float(fb).1
            &&& order_of_floats(least_float(fa).0, least_float(fb).0) == Order::Same
            &&& greatest_float(fa).1 == greatest_float(fb).1
            &&& order_of_floats(greatest_float(fa).0, greatest_float(fb).0) == Order::Same
        }),
{
    broadcast use vstd::seq_lib::group_to_multiset_ensures;

    let (fa, fb) = (floats(a)->0, floats(b)->0);
    floats_come_from(a);
    floats_come_from(b);
    assert forall|v: ValueView| #[trigger] a.contains(v) == b.contains(v) by {
        assert(a.contains(v) == (a.to_multiset().count(v) > 0));
        assert(b.contains(v) == (b.to_multiset().count(v) > 0));
    }
    let k = choose|k: int| 0 <= k < a.len() && (#[trigger] a[k]) is Float;
    let f = as_float(a[k])->0;
    assert(a.contains(a[k]));
    assert(b.contains(a[k]));
    assert(is_float_of(a, f, a[k]) && is_float_of(b, f, a[k]));
    assert(fa.contains(f) && fb.contains(f));
    assert forall|g: (FloatView, FloatWidth)| #[trigger] fa.contains(g) implies fb.contains(g) by {
        let i = choose|i: int| 0 <= i < fa.len() && fa[i] == g;
        assert(comes_from(a, fa[i]));
        let v = choose|v: ValueView| is_float_of(a, fa[i], v);
        assert(is_float_of(b, g, v));
    }
    assert forall|g: (FloatView, FloatWidth)| #[trigger] fb.contains(g) implies fa.contains(g) by {
        let i = choose|i: int| 0 <= i < fb.len() && fb[i] == g;
        assert(comes_from(b, fb[i]));
        let v = choose|v: ValueView| is_float_of(b, fb[i], v);
        assert(is_float_of(a, g, v));
    }
    float_extremes_bound(fa);
    float_extremes_bound(fb);
    let (la, lb, ga, gb) = (
        least_float(fa),
        least_float(fb),
        greatest_float(fa),
        greatest_float(fb),
    );
    assert(fb.contains(la) && fa.contains(lb) && fb.contains(ga) && fa.contains(gb));
    assert(fb[fb.index_of(la)] == la && fa[fa.index_of(lb)] == lb);
    assert(fb[fb.index_of(ga)] == ga && fa[fa.index_of(gb)] == gb);
    assert(fa[fa.index_of(la)] == la && fa[fa.index_of(ga)] == ga);
}

proof fn kinds_alike(a: Seq<ValueView>, b: Seq<ValueView>)
    requires
        a.to_multiset() == b.to_multiset(),
    ensures
        a.len() == b.len(),
        has_float(a) == has_float(b),
{
    broadcast use vstd::seq_lib::group_to_multiset_ensures;

    assert(a.len() == a.to_multiset().len() && b.len() == b.to_multiset().len());
    assert forall|v: ValueView| #[trigger] a.contains(v) == b.contains(v) by {
        assert(a.contains(v) == (a.to_multiset().count(v) > 0));
        assert(b.contains(v) == (b.to_multiset().count(v) > 0));
    }
    if has_float(b) {
        let i = choose|i: int| 0 <= i < b.len() && (#[trigger] b[i]) is Float;
        assert(b.contains(b[i]));
        assert(a.contains(b[i]));
        assert(a[a.index_of(b[i])] is Float);
    }
    if has_float(a) {
        let i = choose|i: int| 0 <= i < a.len() && (#[trigger] a[i]) is Float;
        assert(a.contains(a[i]));
        assert(b.contains(a[i]));
        assert(b[b.index_of(a[i])] is Float);
    }
}

proof fn parts_of_folds_alike(a: Seq<ValueView>, b: Seq<ValueView>)
    requires
        a.to_multiset() == b.to_multiset(),
    ensures
        numbers(a).len() == numbers(b).len(),
        booleans(a).len() == booleans(b).len(),
        booleans(a).contains(false) == booleans(b).contains(false),
        booleans(a).contains(true) == booleans(b).contains(true),
        intervals(a).len() == intervals(b).len(),
{
    broadcast use vstd::seq_lib::group_to_multiset_ensures;

    numbers_alike(a, b);
    intervals_alike(a, b);
    let (na, nb) = (numbers(a), numbers(b));
    let (ba, bb) = (booleans(a), booleans(b));
    let (ia, ib) = (intervals(a), intervals(b));
    assert(na.len() == na.to_multiset().len() && nb.len() == nb.to_multiset().len());
    assert(ba.len() == ba.to_multiset().len() && bb.len() == bb.to_multiset().len());
    assert(ia.len() == ia.to_multiset().len() && ib.len() == ib.to_multiset().len());
    assert(ba.contains(false) == (ba.to_multiset().count(false) > 0));
    assert(bb.contains(false) == (bb.to_multiset().count(false) > 0));
    assert(ba.contains(true) == (ba.to_multiset().count(true) > 0));
    assert(bb.contains(true) == (bb.to_multiset().count(true) > 0));
}

#[verifier::spinoff_prover]
#[verifier::rlimit(30)]
proof fn float_folds_alike(name: Seq<char>, a: Seq<ValueView>, b: Seq<ValueView>)
    requires
        a.to_multiset() == b.to_multiset(),
        order_free(name, a),
        aggregate_value(name, a) is Ok,
        aggregate_value(name, b) is Ok,
        has_float(a),
    ensures
        same_value(aggregate_value(name, a)->Ok_0, aggregate_value(name, b)->Ok_0),
{
    kinds_alike(a, b);
    parts_of_folds_alike(a, b);
    if floats(a) is Some && floats(b) is Some && one_width(a) {
        floats_alike(a, b);
    }
    if let Ok(Some(ValueView::Numeric(x))) = aggregate_value(name, a) {
        values_are_ordered(x, x, x);
    }
}

#[verifier::spinoff_prover]
#[verifier::rlimit(30)]
proof fn number_folds_alike(name: Seq<char>, a: Seq<ValueView>, b: Seq<ValueView>)
    requires
        a.to_multiset() == b.to_multiset(),
        order_free(name, a),
        aggregate_value(name, a) is Ok,
        aggregate_value(name, b) is Ok,
        !has_float(a),
        numbers(a).len() > 0,
    ensures
        same_value(aggregate_value(name, a)->Ok_0, aggregate_value(name, b)->Ok_0),
{
    kinds_alike(a, b);
    parts_of_folds_alike(a, b);
    numbers_alike(a, b);
    totals_alike(numbers(a), numbers(b));
    extremes_alike(numbers(a), numbers(b));
    if let Ok(Some(ValueView::Numeric(x))) = aggregate_value(name, a) {
        values_are_ordered(x, x, x);
    }
}

#[verifier::spinoff_prover]
#[verifier::rlimit(30)]
proof fn other_folds_alike(name: Seq<char>, a: Seq<ValueView>, b: Seq<ValueView>)
    requires
        a.to_multiset() == b.to_multiset(),
        order_free(name, a),
        aggregate_value(name, a) is Ok,
        aggregate_value(name, b) is Ok,
        !has_float(a),
        numbers(a).len() == 0,
    ensures
        same_value(aggregate_value(name, a)->Ok_0, aggregate_value(name, b)->Ok_0),
{
    kinds_alike(a, b);
    parts_of_folds_alike(a, b);
    moments_alike(a, b, true);
    moments_alike(a, b, false);
    intervals_alike(a, b);
    let (ia, ib) = (intervals(a), intervals(b));
    if ib.len() > 0 && span_total(ia) is Some && span_total(ib) is Some {
        spans_alike(ia, ib);
    }
    if let Ok(Some(ValueView::Numeric(x))) = aggregate_value(name, a) {
        values_are_ordered(x, x, x);
    }
}

/// An aggregate is the same over the same values in another order, where it
/// has a value in both and is one that makes the same of them in every order.
pub proof fn aggregates_ignore_order(name: Seq<char>, a: Seq<ValueView>, b: Seq<ValueView>)
    requires
        a.to_multiset() == b.to_multiset(),
        order_free(name, a),
        aggregate_value(name, a) is Ok,
        aggregate_value(name, b) is Ok,
    ensures
        same_value(aggregate_value(name, a)->Ok_0, aggregate_value(name, b)->Ok_0),
{
    if has_float(a) {
        float_folds_alike(name, a, b);
    } else if numbers(a).len() > 0 {
        number_folds_alike(name, a, b);
    } else {
        other_folds_alike(name, a, b);
    }
}

// ---------------------------------------------------------------------------
// Groups
// ---------------------------------------------------------------------------

/// The rows hold the same in the columns of `keys`.
pub open spec fn agree_on(a: RowView, b: RowView, keys: Set<Seq<char>>) -> bool {
    forall|k: Seq<char>| #[trigger]
        keys.contains(k) ==> a.contains_key(k) == b.contains_key(k) && (a.contains_key(k) ==> a[k]
            == b[k])
}

/// Two groups hold the same rows, which agree on the keys.
pub open spec fn reordered(a: Seq<RowView>, b: Seq<RowView>, keys: Set<Seq<char>>) -> bool {
    &&& a.len() > 0
    &&& a.to_multiset() == b.to_multiset()
    &&& forall|i: int, j: int|
        0 <= i < a.len() && 0 <= j < a.len() ==> agree_on(#[trigger] a[i], #[trigger] a[j], keys)
}

/// Every aggregate of the expression makes the same of what it folds in every
/// order.
pub open spec fn folds_freely(
    fields: Seq<FieldDefView>,
    rows: Seq<RowView>,
    columns: Map<Seq<char>, ValueTypeView>,
    e: ExprView,
    field: Seq<char>,
) -> bool
    decreases e,
{
    match e {
        ExprView::BinaryOp { op, lhs, rhs } => folds_freely(fields, rows, columns, *lhs, field)
            && folds_freely(fields, rows, columns, *rhs, field),
        ExprView::FunctionCall { name, args } => if aggregate_name(name) {
            args.len() > 0 ==> (values_over_rows(fields, rows, columns, args[0], field) matches Ok(
                vs,
            ) ==> order_free(name, vs))
        } else {
            forall|i: int|
                0 <= i < args.len() ==> folds_freely(
                    fields,
                    rows,
                    columns,
                    #[trigger] args[i],
                    field,
                )
        },
        _ => true,
    }
}

/// Every aggregate of the fields makes the same of what it folds in every
/// order.
pub open spec fn all_fold_freely(
    fields: Seq<FieldDefView>,
    rows: Seq<RowView>,
    columns: Map<Seq<char>, ValueTypeView>,
) -> bool {
    forall|i: int|
        0 <= i < fields.len() ==> folds_freely(
            fields,
            rows,
            columns,
            (#[trigger] fields[i]).expr,
            fields[i].name,
        )
}

proof fn given_alike(
    fields: Seq<FieldDefView>,
    a: Seq<RowView>,
    b: Seq<RowView>,
    keys: Set<Seq<char>>,
    columns: Map<Seq<char>, ValueTypeView>,
    e: ExprView,
    field: Seq<char>,
)
    requires
        reordered(a, b, keys),
        folds_freely(fields, a, columns, e, field),
    ensures
        ({
            let x = (group_engine(fields, a, keys, columns).given)(e, field);
            let y = (group_engine(fields, b, keys, columns).given)(e, field);
            &&& x is Some <==> y is Some
            &&& x matches Some(Ok(v)) ==> y matches Some(Ok(w)) ==> same_value(v, w)
        }),
{
    broadcast use vstd::seq_lib::group_to_multiset_ensures;

    assert(a.len() == a.to_multiset().len() && b.len() == b.to_multiset().len());
    assert(b.contains(b[0]));
    assert(b.to_multiset().count(b[0]) > 0);
    assert(a.contains(b[0]));
    let i = a.index_of(b[0]);
    assert(agree_on(a[0], a[i], keys));
    let x = (group_engine(fields, a, keys, columns).given)(e, field);
    if let Some(Ok(Some(ValueView::Numeric(n)))) = x {
        values_are_ordered(n, n, n);
    }
    match e {
        ExprView::Column(name) => {
            if keys.contains(name) {
                assert(cell(a[0], columns, field, name) == cell(b[0], columns, field, name));
            }
        },
        ExprView::FunctionCall { name, args } => {
            if aggregate_name(name) && args.len() > 0 {
                let va = values_over_rows(fields, a, columns, args[0], field);
                let vb = values_over_rows(fields, b, columns, args[0], field);
                if va is Ok && vb is Ok {
                    folded_alike(fields, a, b, columns, args[0], field);
                    let (oa, ob) = (
                        aggregate_value(name, va->Ok_0),
                        aggregate_value(name, vb->Ok_0),
                    );
                    if oa is Ok && ob is Ok {
                        aggregates_ignore_order(name, va->Ok_0, vb->Ok_0);
                    }
                }
            }
        },
        _ => {},
    }
}

proof fn as_floats_alike(a: ValueView, b: ValueView)
    requires
        same_value(Some(a), Some(b)),
        is_number(a),
    ensures
        is_number(b),
        match (as_float(a), as_float(b)) {
            (Some((x, w)), Some((y, v))) => w == v && order_of_floats(x, y) == Order::Same,
            (None, None) => true,
            _ => false,
        },
{
    if let (ValueView::Numeric(m), ValueView::Numeric(n)) = (a, b) {
        doubles_go_by_value(m, n);
    }
}

proof fn operators_alike(
    op: Operator,
    l: Option<ValueView>,
    r: Option<ValueView>,
    x: Option<ValueView>,
    y: Option<ValueView>,
)
    requires
        same_value(l, x),
        same_value(r, y),
    ensures
        same_outcome(operator_value(op, l, r), operator_value(op, x, y)),
{
    if let (Some(a), Some(b)) = (l, r) {
        if let (Some(c), Some(d)) = (x, y) {
            if is_number(a) && is_number(b) {
                as_floats_alike(a, c);
                as_floats_alike(b, d);
                if let (Some((f, fw)), Some((g, gw))) = (as_float(a), as_float(b)) {
                    let (h, _) = as_float(c)->0;
                    let (k, _) = as_float(d)->0;
                    float_sums_keep_order(f, g, h, k, fw, gw);
                    float_sums_keep_order(f, g, h, k, FloatWidth::Float8, FloatWidth::Float8);
                }
                if let (ValueView::Numeric(m), ValueView::Numeric(n)) = (a, b) {
                    let (p, q) = (c->Numeric_0, d->Numeric_0);
                    sums_keep_values(m, n, p, q);
                    values_are_ordered(m, p, n);
                    values_are_ordered(n, q, p);
                }
            }
        }
    }
}

spec fn same_lists(a: Seq<Option<ValueView>>, b: Seq<Option<ValueView>>) -> bool {
    a.len() == b.len() && forall|i: int| 0 <= i < a.len() ==> same_value(#[trigger] a[i], b[i])
}

proof fn functions_alike(
    name: Seq<char>,
    a: Seq<Option<ValueView>>,
    b: Seq<Option<ValueView>>,
)
    requires
        same_lists(a, b),
    ensures
        same_value(function_value(name, a), function_value(name, b)),
{
    if forall|i: int| 0 <= i < a.len() ==> is_text(#[trigger] a[i]) {
        assert(a =~= b);
    } else {
        let i = choose|i: int| 0 <= i < a.len() && !is_text(#[trigger] a[i]);
        assert(same_value(a[i], b[i]));
        assert(!is_text(b[i]));
    }
    if let Some(ValueView::Numeric(n)) = function_value(name, a) {
        values_are_ordered(n, n, n);
    }
}

proof fn field_alike(
    fields: Seq<FieldDefView>,
    a: Seq<RowView>,
    b: Seq<RowView>,
    keys: Set<Seq<char>>,
    columns: Map<Seq<char>, ValueTypeView>,
    i: int,
    path: Set<Seq<char>>,
    va: Values,
    vb: Values,
)
    requires
        reordered(a, b, keys),
        all_fold_freely(fields, a, columns),
        same_values(va, vb),
        0 <= i < fields.len(),
        eval_field(group_engine(fields, a, keys, columns), i, path, va) is Ok,
        eval_field(group_engine(fields, b, keys, columns), i, path, vb) is Ok,
    ensures
        ({
            let x = eval_field(group_engine(fields, a, keys, columns), i, path, va)->Ok_0;
            let y = eval_field(group_engine(fields, b, keys, columns), i, path, vb)->Ok_0;
            same_value(x.0, y.0) && same_values(x.1, y.1)
        }),
    decreases open_fields(fields, path), 0nat, fields[i].expr, 0nat,
{
    let f = fields[i];
    if !va.contains_key(f.name) && !path.contains(f.name) {
        opening_shrinks(fields, path, i);
        expr_alike(fields, a, b, keys, columns, f.expr, f.name, path.insert(f.name), va, vb);
    }
}

proof fn expr_alike(
    fields: Seq<FieldDefView>,
    a: Seq<RowView>,
    b: Seq<RowView>,
    keys: Set<Seq<char>>,
    columns: Map<Seq<char>, ValueTypeView>,
    e: ExprView,
    field: Seq<char>,
    path: Set<Seq<char>>,
    va: Values,
    vb: Values,
)
    requires
        reordered(a, b, keys),
        all_fold_freely(fields, a, columns),
        folds_freely(fields, a, columns, e, field),
        same_values(va, vb),
        eval_expr(group_engine(fields, a, keys, columns), e, field, path, va) is Ok,
        eval_expr(group_engine(fields, b, keys, columns), e, field, path, vb) is Ok,
    ensures
        ({
            let x = eval_expr(group_engine(fields, a, keys, columns), e, field, path, va)->Ok_0;
            let y = eval_expr(group_engine(fields, b, keys, columns), e, field, path, vb)->Ok_0;
            same_value(x.0, y.0) && same_values(x.1, y.1)
        }),
    decreases open_fields(fields, path), 1nat, e, 0nat,
{
    let ca = group_engine(fields, a, keys, columns);
    let cb = group_engine(fields, b, keys, columns);
    given_alike(fields, a, b, keys, columns, e, field);
    if (ca.given)(e, field) is None {
        match e {
            ExprView::Column(name) => {
                field_at_finds(fields, name);
                if let Some(i) = field_at(fields, name) {
                    field_alike(fields, a, b, keys, columns, i, path, va, vb);
                }
            },
            ExprView::BinaryOp { op, lhs, rhs } => {
                expr_alike(fields, a, b, keys, columns, *lhs, field, path, va, vb);
                let l = eval_expr(ca, *lhs, field, path, va)->Ok_0;
                let x = eval_expr(cb, *lhs, field, path, vb)->Ok_0;
                expr_alike(fields, a, b, keys, columns, *rhs, field, path, l.1, x.1);
                let r = eval_expr(ca, *rhs, field, path, l.1)->Ok_0;
                let y = eval_expr(cb, *rhs, field, path, x.1)->Ok_0;
                operators_alike(op, l.0, r.0, x.0, y.0);
            },
            ExprView::FunctionCall { name, args } => {
                if name == "COALESCE"@ {
                    first_alike(fields, a, b, keys, columns, args, 0, field, path, va, vb);
                } else {
                    args_alike(
                        fields,
                        a,
                        b,
                        keys,
                        columns,
                        args,
                        0,
                        field,
                        path,
                        va,
                        vb,
                        seq![],
                        seq![],
                    );
                    let x = eval_args(ca, args, 0, field, path, va, seq![])->Ok_0;
                    let y = eval_args(cb, args, 0, field, path, vb, seq![])->Ok_0;
                    functions_alike(name, x.0, y.0);
                }
            },
            _ => {},
        }
    }
}

proof fn first_alike(
    fields: Seq<FieldDefView>,
    a: Seq<RowView>,
    b: Seq<RowView>,
    keys: Set<Seq<char>>,
    columns: Map<Seq<char>, ValueTypeView>,
    args: Seq<ExprView>,
    k: nat,
    field: Seq<char>,
    path: Set<Seq<char>>,
    va: Values,
    vb: Values,
)
    requires
        reordered(a, b, keys),
        all_fold_freely(fields, a, columns),
        forall|i: int|
            0 <= i < args.len() ==> folds_freely(fields, a, columns, #[trigger] args[i], field),
        same_values(va, vb),
        eval_first(group_engine(fields, a, keys, columns), args, k, field, path, va) is Ok,
        eval_first(group_engine(fields, b, keys, columns), args, k, field, path, vb) is Ok,
    ensures
        ({
            let x = eval_first(
                group_engine(fields, a, keys, columns),
                args,
                k,
                field,
                path,
                va,
            )->Ok_0;
            let y = eval_first(
                group_engine(fields, b, keys, columns),
                args,
                k,
                field,
                path,
                vb,
            )->Ok_0;
            same_value(x.0, y.0) && same_values(x.1, y.1)
        }),
    decreases open_fields(fields, path), 1nat, args, args.len() - k,
{
    if k < args.len() {
        let ca = group_engine(fields, a, keys, columns);
        let cb = group_engine(fields, b, keys, columns);
        expr_alike(fields, a, b, keys, columns, args[k as int], field, path, va, vb);
        let x = eval_expr(ca, args[k as int], field, path, va)->Ok_0;
        let y = eval_expr(cb, args[k as int], field, path, vb)->Ok_0;
        if x.0 is None {
            first_alike(fields, a, b, keys, columns, args, k + 1, field, path, x.1, y.1);
        }
    }
}

proof fn args_alike(
    fields: Seq<FieldDefView>,
    a: Seq<RowView>,
    b: Seq<RowView>,
    keys: Set<Seq<char>>,
    columns: Map<Seq<char>, ValueTypeView>,
    args: Seq<ExprView>,
    k: nat,
    field: Seq<char>,
    path: Set<Seq<char>>,
    va: Values,
    vb: Values,
    la: Seq<Option<ValueView>>,
    lb: Seq<Option<ValueView>>,
)
    requires
        reordered(a, b, keys),
        all_fold_freely(fields, a, columns),
        forall|i: int|
            0 <= i < args.len() ==> folds_freely(fields, a, columns, #[trigger] args[i], field),
        same_values(va, vb),
        same_lists(la, lb),
        eval_args(group_engine(fields, a, keys, columns), args, k, field, path, va, la) is Ok,
        eval_args(group_engine(fields, b, keys, columns), args, k, field, path, vb, lb) is Ok,
    ensures
        ({
            let x = eval_args(
                group_engine(fields, a, keys, columns),
                args,
                k,
                field,
                path,
                va,
                la,
            )->Ok_0;
            let y = eval_args(
                group_engine(fields, b, keys, columns),
                args,
                k,
                field,
                path,
                vb,
                lb,
            )->Ok_0;
            same_lists(x.0, y.0) && same_values(x.1, y.1)
        }),
    decreases open_fields(fields, path), 1nat, args, args.len() - k,
{
    if k < args.len() {
        let ca = group_engine(fields, a, keys, columns);
        let cb = group_engine(fields, b, keys, columns);
        expr_alike(fields, a, b, keys, columns, args[k as int], field, path, va, vb);
        let x = eval_expr(ca, args[k as int], field, path, va)->Ok_0;
        let y = eval_expr(cb, args[k as int], field, path, vb)->Ok_0;
        args_alike(
            fields,
            a,
            b,
            keys,
            columns,
            args,
            k + 1,
            field,
            path,
            x.1,
            y.1,
            la.push(x.0),
            lb.push(y.0),
        );
    }
}

proof fn rest_alike(
    fields: Seq<FieldDefView>,
    a: Seq<RowView>,
    b: Seq<RowView>,
    keys: Set<Seq<char>>,
    columns: Map<Seq<char>, ValueTypeView>,
    i: nat,
    va: Values,
    vb: Values,
)
    requires
        reordered(a, b, keys),
        all_fold_freely(fields, a, columns),
        same_values(va, vb),
        eval_from(group_engine(fields, a, keys, columns), i, va) is Ok,
        eval_from(group_engine(fields, b, keys, columns), i, vb) is Ok,
    ensures
        same_values(
            eval_from(group_engine(fields, a, keys, columns), i, va)->Ok_0,
            eval_from(group_engine(fields, b, keys, columns), i, vb)->Ok_0,
        ),
    decreases fields.len() - i,
{
    if i < fields.len() {
        let ca = group_engine(fields, a, keys, columns);
        let cb = group_engine(fields, b, keys, columns);
        field_alike(fields, a, b, keys, columns, i as int, Set::empty(), va, vb);
        let x = eval_field(ca, i as int, Set::empty(), va)->Ok_0;
        let y = eval_field(cb, i as int, Set::empty(), vb)->Ok_0;
        rest_alike(fields, a, b, keys, columns, i + 1, x.1, y.1);
    }
}

/// Where the rows of a group agree on its keys and no float is summed, each
/// field has the same value whatever the order of the rows; numbers are compared
/// by value, dates and times by their moments.
pub proof fn row_order_makes_no_difference(
    fields: Seq<FieldDefView>,
    a: Seq<RowView>,
    b: Seq<RowView>,
    keys: Set<Seq<char>>,
    columns: Map<Seq<char>, ValueTypeView>,
)
    requires
        reordered(a, b, keys),
        all_fold_freely(fields, a, columns),
        field_values(group_engine(fields, a, keys, columns), Set::empty()) is Ok,
        field_values(group_engine(fields, b, keys, columns), Set::empty()) is Ok,
    ensures
        same_values(
            field_values(group_engine(fields, a, keys, columns), Set::empty())->Ok_0,
            field_values(group_engine(fields, b, keys, columns), Set::empty())->Ok_0,
        ),
{
    let none = nulls(Set::empty());
    rest_alike(fields, a, b, keys, columns, 0, none, none);
}

// ---------------------------------------------------------------------------
// Nulls
// ---------------------------------------------------------------------------

/// A row over which the argument of an aggregate is null changes nothing of
/// what is folded, wherever in the group it stands.
pub proof fn nulls_are_passed_over(
    fields: Seq<FieldDefView>,
    rows: Seq<RowView>,
    i: int,
    columns: Map<Seq<char>, ValueTypeView>,
    arg: ExprView,
    field: Seq<char>,
)
    requires
        0 <= i < rows.len(),
        values_over_rows(fields, rows, columns, arg, field) is Ok,
        over_row(fields, rows[i], columns, arg, field) == Ok::<Option<ValueView>, EvalErrorView>(
            None,
        ),
    ensures
        values_over_rows(fields, rows.remove(i), columns, arg, field) == values_over_rows(
            fields,
            rows,
            columns,
            arg,
            field,
        ),
    decreases rows.len(),
{
    let less = rows.drop_last();
    let out = rows.remove(i);
    if i == rows.len() - 1 {
        assert(out =~= less);
    } else {
        assert(less[i] == rows[i]);
        nulls_are_passed_over(fields, less, i, columns, arg, field);
        assert(out.drop_last() =~= less.remove(i));
        assert(out.last() == rows.last());
    }
}

proof fn column_folds(
    fields: Seq<FieldDefView>,
    rows: Seq<RowView>,
    columns: Map<Seq<char>, ValueTypeView>,
    column: Seq<char>,
    field: Seq<char>,
)
    requires
        field_at(fields, column) is None,
        columns.contains_key(column) ==> columns[column] == ValueTypeView::Numeric,
        values_over_rows(fields, rows, columns, ExprView::Column(column), field) is Ok,
    ensures
        ({
            let vs = values_over_rows(
                fields,
                rows,
                columns,
                ExprView::Column(column),
                field,
            )->Ok_0;
            &&& numbers(vs).len() == vs.len()
            &&& forall|i: int| 0 <= i < vs.len() ==> (#[trigger] vs[i]) is Numeric
            &&& vs.len() == 0 <==> forall|i: int|
                0 <= i < rows.len() ==> (#[trigger] rows[i])[column] is None
        }),
    decreases rows.len(),
{
    reveal(over_row);
    if rows.len() > 0 {
        let less = rows.drop_last();
        column_folds(fields, less, columns, column, field);
        let vs = values_over_rows(fields, rows, columns, ExprView::Column(column), field)->Ok_0;
        let us = values_over_rows(fields, less, columns, ExprView::Column(column), field)->Ok_0;
        assert(rows[rows.len() - 1] == rows.last());
        if rows.last()[column] is Some {
            assert(vs.drop_last() =~= us);
            assert(vs.len() > 0);
        } else {
            assert(vs == us);
            if us.len() > 0 {
                let i = choose|i: int| 0 <= i < less.len() && (#[trigger] less[i])[column] is Some;
                assert(rows[i] == less[i]);
            } else {
                assert forall|i: int| 0 <= i < rows.len() implies (#[trigger] rows[i])[column]
                    is None by {
                    if i < less.len() {
                        assert(less[i] == rows[i]);
                    }
                }
            }
        }
    }
}

/// `COUNT(*)` counts the rows, and a sum, least value, greatest value or
/// average of a numeric column is null exactly if the column is null in every
/// row.
pub proof fn folds_of_a_column(
    fields: Seq<FieldDefView>,
    rows: Seq<RowView>,
    keys: Set<Seq<char>>,
    columns: Map<Seq<char>, ValueTypeView>,
    column: Seq<char>,
    field: Seq<char>,
    name: Seq<char>,
)
    requires
        field_at(fields, column) is None,
        columns.contains_key(column) ==> columns[column] == ValueTypeView::Numeric,
        name == "SUM"@ || name == "MIN"@ || name == "MAX"@ || name == "AVG"@,
    ensures
        ({
            let engine = group_engine(fields, rows, keys, columns);
            let fold = ExprView::FunctionCall { name, args: seq![ExprView::Column(column)] };
            let count = ExprView::FunctionCall { name: "COUNT"@, args: seq![] };
            &&& (engine.given)(count, field) == Some(
                Ok::<Option<ValueView>, EvalErrorView>(Some(whole(rows.len()))),
            )
            &&& (engine.given)(fold, field) matches Some(Ok(v)) ==> (v is None <==> forall|i: int|
                0 <= i < rows.len() ==> (#[trigger] rows[i])[column] is None)
        }),
{
    let arg = ExprView::Column(column);
    let fold = ExprView::FunctionCall { name, args: seq![arg] };
    assert(fold->args[0] == arg);
    if values_over_rows(fields, rows, columns, arg, field) is Ok {
        column_folds(fields, rows, columns, column, field);
    }
    reveal_strlit("SUM");
    reveal_strlit("MIN");
    reveal_strlit("MAX");
    reveal_strlit("AVG");
    reveal_strlit("COUNT");
    reveal_strlit("BOOL_AND");
    reveal_strlit("BOOL_OR");
    assert(name.len() == 3);
    assert("COUNT"@.len() == 5 && "BOOL_AND"@.len() == 8 && "BOOL_OR"@.len() == 7);
}

} // verus!
