//! What the operators and aggregates come to, over the numbers themselves.

use vstd::prelude::*;

use crate::defs::ast::Operator;
use crate::defs::builtins::{
    aggregate_value, booleans, extreme_moment, extremes_are_unbeaten, greatest, has_float, least,
    moment_of, numbers, operator_value, total, Overflow,
};
use crate::defs::value::ValueView;
use crate::float::{FloatView, FloatWidth};
use crate::natural::{pow10, pow10_adds, pow10_positive, Order};
use crate::numeric::{
    absolute, larger, order_at_any_scale, order_by_value, quotient, quotient_scale, rounded, sum,
    values_are_ordered, NumericView,
};
use crate::temporal::MomentView;

verus! {

// ---------------------------------------------------------------------------
// Comparing
// ---------------------------------------------------------------------------

/// `x` is worth more than `y`.
pub open spec fn worth_more(x: NumericView, y: NumericView) -> bool {
    x.mantissa * pow10(y.scale) > y.mantissa * pow10(x.scale)
}

/// `x` and `y` are worth the same.
pub open spec fn worth_the_same(x: NumericView, y: NumericView) -> bool {
    x.mantissa * pow10(y.scale) == y.mantissa * pow10(x.scale)
}

proof fn orders_by_worth(x: NumericView, y: NumericView)
    ensures
        order_by_value(x, y) == Order::Greater <==> worth_more(x, y),
        order_by_value(x, y) == Order::Less <==> worth_more(y, x),
        order_by_value(x, y) == Order::Same <==> worth_the_same(x, y),
{
    order_at_any_scale(x, y, x.scale + y.scale);
}

/// `x > y` is true exactly if `x` is worth more than `y`, so it is never true
/// both ways round.
pub proof fn greater_is_worth_more(x: NumericView, y: NumericView)
    ensures
        operator_value(
            Operator::GreaterThan,
            Some(ValueView::Numeric(x)),
            Some(ValueView::Numeric(y)),
        ) == Ok::<Option<ValueView>, Overflow>(
            Some(
                ValueView::Boolean(x.mantissa * pow10(y.scale) > y.mantissa * pow10(x.scale)),
            ),
        ),
        !(worth_more(x, y) && worth_more(y, x)),
{
    orders_by_worth(x, y);
}

/// `x > y` of floats is true exactly if `x` lies above `y`: what is not a
/// number above all that is one, the infinities at the ends.
pub proof fn greater_lies_above(x: FloatView, xw: FloatWidth, y: FloatView, yw: FloatWidth)
    ensures
        operator_value(
            Operator::GreaterThan,
            Some(ValueView::Float(x, xw)),
            Some(ValueView::Float(y, yw)),
        ) == Ok::<Option<ValueView>, Overflow>(
            Some(
                ValueView::Boolean(
                    match (x, y) {
                        (_, FloatView::NaN) => false,
                        (FloatView::NaN, _) => true,
                        (FloatView::Infinity { negative }, _) => !negative && x != y,
                        (_, FloatView::Infinity { negative }) => negative,
                        (
                            FloatView::Finite { .. },
                            FloatView::Finite { .. },
                        ) => x.amount() > y.amount(),
                    },
                ),
            ),
        ),
{
}

// ---------------------------------------------------------------------------
// Adding
// ---------------------------------------------------------------------------

/// `s` is worth as much as `x` and `y` together.
pub open spec fn worth_both(s: NumericView, x: NumericView, y: NumericView) -> bool {
    s.mantissa * pow10(x.scale + y.scale) == (x.mantissa * pow10(y.scale) + y.mantissa * pow10(
        x.scale,
    )) * pow10(s.scale)
}

proof fn sums_are_worth_both(x: NumericView, y: NumericView)
    ensures
        worth_both(sum(x, y), x, y),
        sum(x, y).scale == larger(x.scale, y.scale),
{
    let s = sum(x, y);
    let (m, n) = (x.mantissa, y.mantissa);
    let (p, q) = (pow10(x.scale) as int, pow10(y.scale) as int);
    pow10_adds(x.scale, y.scale);
    assert(pow10(x.scale + y.scale) == p * q);
    if x.scale >= y.scale {
        let d = (x.scale - y.scale) as nat;
        let k = pow10(d) as int;
        pow10_adds(d, y.scale);
        assert(d + y.scale == x.scale);
        assert(pow10(0) == 1);
        assert(s.mantissa == m * 1 + n * k);
        assert((m + n * k) * (p * q) == (m * q + n * p) * p) by (nonlinear_arith)
            requires
                p == k * q,
        ;
    } else {
        let d = (y.scale - x.scale) as nat;
        let k = pow10(d) as int;
        pow10_adds(d, x.scale);
        assert(d + x.scale == y.scale);
        assert(pow10(0) == 1);
        assert(s.mantissa == m * k + n * 1);
        assert((m * k + n) * (p * q) == (m * q + n * p) * q) by (nonlinear_arith)
            requires
                q == k * p,
        ;
    }
}

/// `x + y` of decimals is exact, with the decimal places of the more precise
/// of them.
pub proof fn addition_is_exact(x: NumericView, y: NumericView)
    ensures
        operator_value(
            Operator::Add,
            Some(ValueView::Numeric(x)),
            Some(ValueView::Numeric(y)),
        ) matches Ok(Some(ValueView::Numeric(s))) && worth_both(s, x, y) && s.scale >= x.scale
            && s.scale >= y.scale && (s.scale == x.scale || s.scale == y.scale),
{
    sums_are_worth_both(x, y);
}

// ---------------------------------------------------------------------------
// Folding decimals
// ---------------------------------------------------------------------------

/// Every value is a decimal, and there is one.
pub open spec fn all_decimals(vs: Seq<ValueView>) -> bool {
    vs.len() > 0 && forall|i: int| 0 <= i < vs.len() ==> (#[trigger] vs[i]) is Numeric
}

pub(crate) proof fn decimals_are_the_numbers(vs: Seq<ValueView>)
    requires
        forall|i: int| 0 <= i < vs.len() ==> (#[trigger] vs[i]) is Numeric,
    ensures
        !has_float(vs),
        numbers(vs).len() == vs.len(),
        forall|i: int|
            0 <= i < vs.len() ==> vs[i] == ValueView::Numeric(#[trigger] numbers(vs)[i]),
    decreases vs.len(),
{
    if vs.len() > 0 {
        let less = vs.drop_last();
        decimals_are_the_numbers(less);
        assert(vs[vs.len() - 1] == vs.last());
        assert forall|i: int| 0 <= i < vs.len() implies vs[i] == ValueView::Numeric(
            #[trigger] numbers(vs)[i],
        ) by {
            if i < less.len() {
                assert(less[i] == vs[i]);
                assert(numbers(vs)[i] == numbers(less)[i]);
            }
        }
    }
}

pub(crate) proof fn fold_names_differ()
    ensures
        "SUM"@ != "COUNT"@ && "SUM"@ != "BOOL_AND"@ && "SUM"@ != "BOOL_OR"@,
        "MIN"@ != "COUNT"@ && "MIN"@ != "BOOL_AND"@ && "MIN"@ != "BOOL_OR"@ && "MIN"@ != "SUM"@,
        "MAX"@ != "COUNT"@ && "MAX"@ != "BOOL_AND"@ && "MAX"@ != "BOOL_OR"@ && "MAX"@ != "SUM"@,
        "MAX"@ != "MIN"@,
        "AVG"@ != "COUNT"@ && "AVG"@ != "BOOL_AND"@ && "AVG"@ != "BOOL_OR"@ && "AVG"@ != "SUM"@,
        "AVG"@ != "MIN"@ && "AVG"@ != "MAX"@,
        "BOOL_AND"@ != "COUNT"@ && "BOOL_OR"@ != "COUNT"@ && "BOOL_OR"@ != "BOOL_AND"@,
{
    reveal_strlit("SUM");
    reveal_strlit("COUNT");
    reveal_strlit("MIN");
    reveal_strlit("MAX");
    reveal_strlit("AVG");
    reveal_strlit("BOOL_AND");
    reveal_strlit("BOOL_OR");
    assert("SUM"@.len() == 3 && "MIN"@.len() == 3 && "MAX"@.len() == 3 && "AVG"@.len() == 3);
    assert("COUNT"@.len() == 5 && "BOOL_AND"@.len() == 8 && "BOOL_OR"@.len() == 7);
    assert("SUM"@[0] == 'S' && "MIN"@[0] == 'M' && "MAX"@[0] == 'M' && "AVG"@[0] == 'A');
    assert("MIN"@[1] == 'I' && "MAX"@[1] == 'A');
}

/// The sum of one decimal is that decimal, and one more decimal adds what it
/// is worth.
pub proof fn sums_grow_by_each_decimal(vs: Seq<ValueView>, v: NumericView)
    ensures
        aggregate_value("SUM"@, seq![ValueView::Numeric(v)]) == Ok::<Option<ValueView>, Overflow>(
            Some(ValueView::Numeric(v)),
        ),
        all_decimals(vs) ==> {
            &&& aggregate_value("SUM"@, vs) matches Ok(Some(ValueView::Numeric(t)))
            &&& aggregate_value("SUM"@, vs.push(ValueView::Numeric(v))) matches Ok(
                Some(ValueView::Numeric(u)),
            )
            &&& worth_both(u, t, v)
            &&& u.scale == (if t.scale >= v.scale {
                t.scale
            } else {
                v.scale
            })
        },
{
    fold_names_differ();
    let one = seq![ValueView::Numeric(v)];
    decimals_are_the_numbers(one);
    assert(one[0] == ValueView::Numeric(numbers(one)[0]));
    if all_decimals(vs) {
        let more = vs.push(ValueView::Numeric(v));
        decimals_are_the_numbers(vs);
        decimals_are_the_numbers(more);
        assert(more.drop_last() =~= vs);
        assert(numbers(more) == numbers(vs).push(v));
        assert(numbers(more).drop_last() =~= numbers(vs));
        sums_are_worth_both(total(numbers(vs)), v);
    }
}

proof fn folds_bound(ns: Seq<NumericView>)
    requires
        ns.len() > 0,
    ensures
        ns.contains(least(ns)),
        ns.contains(greatest(ns)),
        forall|i: int| 0 <= i < ns.len() ==> !worth_more(least(ns), #[trigger] ns[i]),
        forall|i: int| 0 <= i < ns.len() ==> !worth_more(#[trigger] ns[i], greatest(ns)),
    decreases ns.len(),
{
    let last = ns.last();
    assert(ns[ns.len() - 1] == last);
    if ns.len() > 1 {
        let less = ns.drop_last();
        folds_bound(less);
        let (l, g) = (least(less), greatest(less));
        assert(ns[less.index_of(l)] == l && ns[less.index_of(g)] == g);
        orders_by_worth(last, l);
        orders_by_worth(last, g);
        assert forall|i: int| 0 <= i < ns.len() implies !worth_more(least(ns), #[trigger] ns[i])
            && !worth_more(ns[i], greatest(ns)) by {
            if i < less.len() {
                let n = less[i];
                assert(n == ns[i]);
                orders_by_worth(l, n);
                orders_by_worth(n, g);
                orders_by_worth(last, n);
                orders_by_worth(n, last);
                values_are_ordered(last, l, n);
                values_are_ordered(n, g, last);
                values_are_ordered(l, last, last);
                values_are_ordered(last, g, g);
            }
        }
    }
}

/// `MIN` and `MAX` of decimals are among them, and none is worth less or more.
pub proof fn extremes_are_among_the_decimals(vs: Seq<ValueView>)
    requires
        all_decimals(vs),
    ensures
        aggregate_value("MIN"@, vs) matches Ok(Some(low)) && low is Numeric && vs.contains(low)
            && forall|i: int|
            0 <= i < vs.len() ==> !worth_more(low->Numeric_0, (#[trigger] vs[i])->Numeric_0),
        aggregate_value("MAX"@, vs) matches Ok(Some(high)) && high is Numeric && vs.contains(high)
            && forall|i: int|
            0 <= i < vs.len() ==> !worth_more((#[trigger] vs[i])->Numeric_0, high->Numeric_0),
{
    fold_names_differ();
    decimals_are_the_numbers(vs);
    let ns = numbers(vs);
    folds_bound(ns);
    let (a, b) = (ns.index_of(least(ns)), ns.index_of(greatest(ns)));
    assert(vs[a] == ValueView::Numeric(ns[a]) && vs[b] == ValueView::Numeric(ns[b]));
    assert forall|i: int| 0 <= i < vs.len() implies (#[trigger] vs[i])->Numeric_0 == ns[i] by {
        assert(vs[i] == ValueView::Numeric(ns[i]));
    }
}

// ---------------------------------------------------------------------------
// Averages
// ---------------------------------------------------------------------------

/// `n` times `q` is worth `t`, up to `n` halves of a unit of `q`'s last place.
pub open spec fn is_nth_part(q: NumericView, t: NumericView, n: nat) -> bool {
    let (l, r) = (q.mantissa * n * pow10(t.scale), t.mantissa * pow10(q.scale));
    -(n * pow10(t.scale)) <= 2 * (l - r) <= n * pow10(t.scale)
}

proof fn rounding_is_near(n: nat, d: nat)
    requires
        d > 0,
    ensures
        2 * n <= 2 * (rounded(n, d) * d) + d,
        2 * (rounded(n, d) * d) <= 2 * n + d,
{
    let e = 2 * d as int;
    let x = 2 * n + d as int;
    vstd::arithmetic::div_mod::lemma_fundamental_div_mod(x, e);
    vstd::arithmetic::div_mod::lemma_mod_bound(x, e);
    let q = rounded(n, d) as int;
    assert(e * q == 2 * (q * d)) by (nonlinear_arith)
        requires
            e == 2 * d,
    ;
}

proof fn quotients_are_parts(t: NumericView, n: nat)
    requires
        n > 0,
    ensures
        is_nth_part(quotient(t, NumericView { mantissa: n as int, scale: 0 }), t, n),
{
    let count = NumericView { mantissa: n as int, scale: 0 };
    let q = quotient(t, count);
    let s = quotient_scale(t, count);
    let (m, p, u) = (absolute(t.mantissa) as int, pow10(s) as int, pow10(t.scale) as int);
    pow10_positive(t.scale);
    pow10_positive(s);
    assert(pow10(0) == 1);
    assert(n * u > 0) by (nonlinear_arith)
        requires
            n > 0,
            u > 0,
    ;
    assert(m * p * 1 == m * p) by (nonlinear_arith);
    assert(m * p >= 0) by (nonlinear_arith)
        requires
            m >= 0,
            p > 0,
    ;
    rounding_is_near((m * p) as nat, (n * u) as nat);
    let k = rounded((m * p) as nat, (n * u) as nat) as int;
    assert(k * (n * u) == k * n * u) by (nonlinear_arith);
    assert((-k) * n * u == -(k * n * u)) by (nonlinear_arith);
    assert((-m) * p == -(m * p)) by (nonlinear_arith);
    assert(t.mantissa == m || t.mantissa == -m);
}

/// The average of decimals is the `n`th part of their sum, where `n` is how
/// many there are, to the nearest unit of its last place.
pub proof fn averages_are_parts_of_sums(vs: Seq<ValueView>)
    requires
        all_decimals(vs),
    ensures
        aggregate_value("SUM"@, vs) matches Ok(Some(ValueView::Numeric(t))) && aggregate_value(
            "AVG"@,
            vs,
        ) matches Ok(Some(ValueView::Numeric(q))) && is_nth_part(q, t, vs.len()),
{
    fold_names_differ();
    decimals_are_the_numbers(vs);
    quotients_are_parts(total(numbers(vs)), vs.len());
}

proof fn copies_add_up(ns: Seq<NumericView>, v: NumericView)
    requires
        ns.len() > 0,
        forall|i: int| 0 <= i < ns.len() ==> #[trigger] ns[i] == v,
    ensures
        total(ns) == (NumericView { mantissa: ns.len() * v.mantissa, scale: v.scale }),
    decreases ns.len(),
{
    if ns.len() > 1 {
        let less = ns.drop_last();
        assert forall|i: int| 0 <= i < less.len() implies #[trigger] less[i] == v by {
            assert(ns[i] == v);
        }
        copies_add_up(less, v);
        assert(ns[ns.len() - 1] == v);
        let (k, m) = (less.len() as int, v.mantissa);
        assert(pow10(0) == 1);
        assert((k * m) * 1 + m * 1 == (k + 1) * m) by (nonlinear_arith);
    } else {
        assert(ns[0] == v);
        assert(1 * v.mantissa == v.mantissa);
    }
}

/// The average of copies of one decimal is worth that decimal.
pub proof fn averages_of_copies(vs: Seq<ValueView>, v: NumericView)
    requires
        vs.len() > 0,
        forall|i: int| 0 <= i < vs.len() ==> #[trigger] vs[i] == ValueView::Numeric(v),
        v.scale <= 1000,
    ensures
        aggregate_value("AVG"@, vs) matches Ok(Some(ValueView::Numeric(q))) && worth_the_same(q, v),
{
    fold_names_differ();
    assert(all_decimals(vs));
    decimals_are_the_numbers(vs);
    let ns = numbers(vs);
    assert forall|i: int| 0 <= i < ns.len() implies #[trigger] ns[i] == v by {
        assert(vs[i] == ValueView::Numeric(ns[i]));
    }
    copies_add_up(ns, v);
    let n = vs.len() as int;
    let t = total(ns);
    let count = NumericView { mantissa: n, scale: 0 };
    let q = quotient(t, count);
    quotients_are_parts(t, vs.len());
    let u = pow10(v.scale) as int;
    let d = (q.scale - v.scale) as nat;
    assert(q.scale >= v.scale);
    pow10_adds(v.scale, d);
    pow10_positive(v.scale);
    let f = pow10(d) as int;
    let (x, m) = (q.mantissa, v.mantissa);
    assert(pow10(q.scale) == u * f);
    assert(x * n * u - (n * m) * (u * f) == (n * u) * (x - m * f)) by (nonlinear_arith);
    assert(x == m * f) by (nonlinear_arith)
        requires
            -(n * u) <= 2 * ((n * u) * (x - m * f)) <= n * u,
            n > 0,
            u > 0,
    ;
    assert((m * f) * u == m * (u * f)) by (nonlinear_arith);
}

// ---------------------------------------------------------------------------
// Counting, and truth values
// ---------------------------------------------------------------------------

/// A count is how many values there are, whatever they are.
pub proof fn counts_are_lengths(vs: Seq<ValueView>)
    ensures
        aggregate_value("COUNT"@, vs) == Ok::<Option<ValueView>, Overflow>(
            Some(ValueView::Numeric(NumericView { mantissa: vs.len() as int, scale: 0 })),
        ),
{
}

proof fn truths_are_the_values(vs: Seq<ValueView>)
    requires
        forall|i: int| 0 <= i < vs.len() ==> (#[trigger] vs[i]) is Boolean,
    ensures
        booleans(vs).len() == vs.len(),
        forall|i: int|
            0 <= i < vs.len() ==> vs[i] == ValueView::Boolean(#[trigger] booleans(vs)[i]),
    decreases vs.len(),
{
    if vs.len() > 0 {
        let less = vs.drop_last();
        truths_are_the_values(less);
        assert(vs[vs.len() - 1] == vs.last());
        assert forall|i: int| 0 <= i < vs.len() implies vs[i] == ValueView::Boolean(
            #[trigger] booleans(vs)[i],
        ) by {
            if i < less.len() {
                assert(less[i] == vs[i]);
                assert(booleans(vs)[i] == booleans(less)[i]);
            }
        }
    }
}

/// `BOOL_AND` is true exactly if every truth value is, `BOOL_OR` exactly if
/// one is.
pub proof fn truth_folds_are_all_and_any(vs: Seq<ValueView>)
    requires
        vs.len() > 0,
        forall|i: int| 0 <= i < vs.len() ==> (#[trigger] vs[i]) is Boolean,
    ensures
        aggregate_value("BOOL_AND"@, vs) == Ok::<Option<ValueView>, Overflow>(
            Some(
                ValueView::Boolean(
                    forall|i: int|
                        0 <= i < vs.len() ==> #[trigger] vs[i] == ValueView::Boolean(true),
                ),
            ),
        ),
        aggregate_value("BOOL_OR"@, vs) == Ok::<Option<ValueView>, Overflow>(
            Some(ValueView::Boolean(vs.contains(ValueView::Boolean(true)))),
        ),
{
    fold_names_differ();
    truths_are_the_values(vs);
    let bs = booleans(vs);
    if bs.contains(false) {
        let i = bs.index_of(false);
        assert(vs[i] == ValueView::Boolean(bs[i]));
        assert(vs[i] != ValueView::Boolean(true));
    } else {
        assert forall|i: int| 0 <= i < vs.len() implies #[trigger] vs[i] == ValueView::Boolean(
            true,
        ) by {
            assert(vs[i] == ValueView::Boolean(bs[i]));
            assert(bs.contains(bs[i]));
        }
    }
    if bs.contains(true) {
        let i = bs.index_of(true);
        assert(vs[i] == ValueView::Boolean(bs[i]));
    }
    if vs.contains(ValueView::Boolean(true)) {
        let i = vs.index_of(ValueView::Boolean(true));
        assert(vs[i] == ValueView::Boolean(bs[i]));
        assert(bs[i]);
    }
}

// ---------------------------------------------------------------------------
// Dates and times
// ---------------------------------------------------------------------------

/// `a` comes before `b`: it lies on an earlier side, at fewer microseconds, or
/// further east at the same.
pub open spec fn comes_before(a: MomentView, b: MomentView) -> bool {
    ||| a.side < b.side
    ||| a.side == b.side && a.micros < b.micros
    ||| a.side == b.side && a.micros == b.micros && a.west < b.west
}

proof fn no_numbers_among(vs: Seq<ValueView>)
    requires
        forall|i: int| 0 <= i < vs.len() ==> (#[trigger] vs[i]) is Other,
    ensures
        numbers(vs).len() == 0,
        !has_float(vs),
    decreases vs.len(),
{
    if vs.len() > 0 {
        let less = vs.drop_last();
        assert(vs[vs.len() - 1] is Other);
        assert forall|i: int| 0 <= i < less.len() implies (#[trigger] less[i]) is Other by {
            assert(vs[i] is Other);
        }
        no_numbers_among(less);
    }
}

/// `MIN` and `MAX` of dates and times are among them, and none comes before
/// the least or after the greatest.
pub proof fn extremes_are_among_the_moments(vs: Seq<ValueView>)
    requires
        vs.len() > 0,
        forall|i: int|
            0 <= i < vs.len() ==> (#[trigger] vs[i]) is Other && moment_of(vs[i]) is Some,
    ensures
        aggregate_value("MIN"@, vs) matches Ok(Some(low)) && vs.contains(low) && forall|i: int|
            0 <= i < vs.len() ==> !comes_before(moment_of(#[trigger] vs[i])->0, moment_of(low)->0),
        aggregate_value("MAX"@, vs) matches Ok(Some(high)) && vs.contains(high) && forall|i: int|
            0 <= i < vs.len() ==> !comes_before(
                moment_of(high)->0,
                moment_of(#[trigger] vs[i])->0,
            ),
{
    fold_names_differ();
    no_numbers_among(vs);
    extremes_are_unbeaten(vs, false);
    extremes_are_unbeaten(vs, true);
    assert(vs.contains(vs[0]));
    assert(extreme_moment(vs, false) is Some && extreme_moment(vs, true) is Some);
    assert forall|i: int| 0 <= i < vs.len() implies vs.contains(#[trigger] vs[i]) by {}
}

} // verus!
