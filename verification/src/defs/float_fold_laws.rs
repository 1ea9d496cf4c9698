//! What the operators and aggregates come to where floats are among the
//! values.

use vstd::prelude::*;

use crate::binary::{half_even, half_even_is_near, nearest, pow2, pow2_adds, pow2_positive};
use crate::defs::arithmetic_laws::fold_names_differ;
use crate::defs::ast::Operator;
use crate::defs::builtins::{
    aggregate_value, as_float, float_total, floats, greatest_float, has_float, least_float,
    operator_value, widened, Overflow,
};
use crate::defs::value::ValueView;
use crate::float::{
    floats_are_ordered, order_of_floats, part_of, FloatView, FloatWidth,
};
use crate::natural::Order;

verus! {

/// Numbers with a float among them, none of them out of range of floats.
pub open spec fn can_be_floats(vs: Seq<ValueView>) -> bool {
    &&& forall|i: int| 0 <= i < vs.len() ==> as_float(#[trigger] vs[i]) is Some
    &&& exists|i: int| 0 <= i < vs.len() && (#[trigger] vs[i]) is Float
}

proof fn each_is_a_float(vs: Seq<ValueView>)
    requires
        forall|i: int| 0 <= i < vs.len() ==> as_float(#[trigger] vs[i]) is Some,
    ensures
        floats(vs) is Some,
        floats(vs)->0.len() == vs.len(),
        forall|i: int|
            0 <= i < vs.len() ==> as_float(#[trigger] vs[i]) == Some((floats(vs)->0)[i]),
    decreases vs.len(),
{
    if vs.len() > 0 {
        let less = vs.drop_last();
        assert forall|i: int| 0 <= i < less.len() implies as_float(#[trigger] less[i]) is Some by {
            assert(as_float(vs[i]) is Some);
        }
        each_is_a_float(less);
        assert(as_float(vs[vs.len() - 1]) is Some);
        assert forall|i: int| 0 <= i < vs.len() implies as_float(#[trigger] vs[i]) == Some(
            (floats(vs)->0)[i],
        ) by {
            if i < less.len() {
                assert(as_float(less[i]) == Some((floats(less)->0)[i]));
            }
        }
    }
}

// ---------------------------------------------------------------------------
// Sums
// ---------------------------------------------------------------------------

/// The sum of one float is that float, and one more number is added to a sum
/// as the operator adds it.
pub proof fn sums_grow_by_each_number(vs: Seq<ValueView>, f: FloatView, w: FloatWidth, v: ValueView)
    requires
        can_be_floats(vs),
        v is Numeric || v is Float,
    ensures
        aggregate_value("SUM"@, seq![ValueView::Float(f, w)]) == Ok::<Option<ValueView>, Overflow>(
            Some(ValueView::Float(f, w)),
        ),
        aggregate_value("SUM"@, vs) matches Ok(t) ==> t matches Some(ValueView::Float(_, _))
            && aggregate_value("SUM"@, vs.push(v)) == match v {
            ValueView::Float(..) => operator_value(Operator::Add, t, Some(v)),
            _ => match as_float(v) {
                Some((g, _)) => operator_value(
                    Operator::Add,
                    t,
                    Some(ValueView::Float(g, FloatWidth::Float8)),
                ),
                None => Err(Overflow::Float(FloatWidth::Float8)),
            },
        },
        aggregate_value("SUM"@, vs) is Err ==> aggregate_value("SUM"@, vs.push(v)) is Err,
{
    fold_names_differ();
    let one = seq![ValueView::Float(f, w)];
    assert(one[0] is Float);
    assert(one.drop_last() =~= seq![]);
    assert(floats(one.drop_last()) == Some(Seq::<(FloatView, FloatWidth)>::empty()));
    each_is_a_float(one);
    assert(as_float(one[0]) == Some((floats(one)->0)[0]));
    each_is_a_float(vs);
    let more = vs.push(v);
    assert(more.drop_last() =~= vs);
    let i = choose|i: int| 0 <= i < vs.len() && (#[trigger] vs[i]) is Float;
    assert(more[i] is Float);
    assert(has_float(vs) && has_float(more));
    if let Some(g) = as_float(v) {
        let fs = floats(vs)->0;
        assert(floats(more) == Some(fs.push(g)));
        assert(fs.push(g).drop_last() =~= fs);
    }
}

// ---------------------------------------------------------------------------
// The least and the greatest
// ---------------------------------------------------------------------------

proof fn float_folds_bound(fs: Seq<(FloatView, FloatWidth)>)
    requires
        fs.len() > 0,
    ensures
        fs.contains(least_float(fs)),
        fs.contains(greatest_float(fs)),
        forall|i: int|
            0 <= i < fs.len() ==> order_of_floats(least_float(fs).0, (#[trigger] fs[i]).0)
                != Order::Greater,
        forall|i: int|
            0 <= i < fs.len() ==> order_of_floats((#[trigger] fs[i]).0, greatest_float(fs).0)
                != Order::Greater,
    decreases fs.len(),
{
    if fs.len() > 1 {
        let less = fs.drop_last();
        float_folds_bound(less);
        let (l, g) = (least_float(less), greatest_float(less));
        let last = fs.last();
        assert(fs[fs.len() - 1] == last);
        assert(fs[less.index_of(l)] == l);
        assert(fs[less.index_of(g)] == g);
        floats_are_ordered(last.0, l.0, last.0);
        floats_are_ordered(g.0, last.0, g.0);
        floats_are_ordered(least_float(fs).0, last.0, last.0);
        floats_are_ordered(last.0, greatest_float(fs).0, last.0);
        assert forall|i: int| 0 <= i < fs.len() implies order_of_floats(
            least_float(fs).0,
            (#[trigger] fs[i]).0,
        ) != Order::Greater && order_of_floats(fs[i].0, greatest_float(fs).0)
            != Order::Greater by {
            if i < less.len() {
                assert(less[i] == fs[i]);
                floats_are_ordered(last.0, l.0, fs[i].0);
                floats_are_ordered(fs[i].0, g.0, last.0);
                floats_are_ordered(g.0, last.0, fs[i].0);
                floats_are_ordered(l.0, last.0, fs[i].0);
            }
        }
    } else {
        assert(fs[0] == fs[0]);
        floats_are_ordered(fs[0].0, fs[0].0, fs[0].0);
    }
}

/// `MIN` and `MAX` take one of the numbers, as the float that it is, and no
/// number is below the one or above the other.
pub proof fn extremes_are_among_the_floats(vs: Seq<ValueView>)
    requires
        can_be_floats(vs),
    ensures
        aggregate_value("MIN"@, vs) matches Ok(Some(ValueView::Float(low, lw))) && (exists|i: int|
            0 <= i < vs.len() && as_float(#[trigger] vs[i]) == Some((low, lw))) && forall|i: int|
            0 <= i < vs.len() ==> operator_value(
                Operator::GreaterThan,
                Some(ValueView::Float(low, lw)),
                Some(#[trigger] vs[i]),
            ) == Ok::<Option<ValueView>, Overflow>(Some(ValueView::Boolean(false))),
        aggregate_value("MAX"@, vs) matches Ok(Some(ValueView::Float(high, hw))) && (exists|i: int|
            0 <= i < vs.len() && as_float(#[trigger] vs[i]) == Some((high, hw))) && forall|i: int|
            0 <= i < vs.len() ==> operator_value(
                Operator::GreaterThan,
                Some(#[trigger] vs[i]),
                Some(ValueView::Float(high, hw)),
            ) == Ok::<Option<ValueView>, Overflow>(Some(ValueView::Boolean(false))),
{
    fold_names_differ();
    each_is_a_float(vs);
    let fs = floats(vs)->0;
    float_folds_bound(fs);
    let (a, b) = (fs.index_of(least_float(fs)), fs.index_of(greatest_float(fs)));
    assert(as_float(vs[a]) == Some(fs[a]) && as_float(vs[b]) == Some(fs[b]));
    assert forall|i: int| 0 <= i < vs.len() implies as_float(#[trigger] vs[i]) == Some(fs[i]) by {}
}

// ---------------------------------------------------------------------------
// Rounding
// ---------------------------------------------------------------------------

/// `m * 2^k` is the `d`th part of `n`, up to half a unit of the last of its
/// binary digits.
pub open spec fn rounds_to(m: nat, k: nat, n: nat, d: nat) -> bool {
    -(d * pow2(k)) <= 2 * (m * pow2(k) * d - n) <= d * pow2(k)
}

proof fn nearest_is_near(p: nat, n: nat, d: nat)
    requires
        p > 0,
        d > 0,
    ensures
        rounds_to(nearest(p, n, d).0, nearest(p, n, d).1, n, d),
{
    let b = crate::binary::bits(n / d);
    let k: nat = if b <= p {
        0
    } else {
        (b - p) as nat
    };
    pow2_positive(k);
    let t = pow2(k) as int;
    let e = d as int;
    assert(e * t > 0) by (nonlinear_arith)
        requires
            e > 0,
            t > 0,
    ;
    half_even_is_near(n, d * pow2(k));
    let m = half_even(n, d * pow2(k)) as int;
    assert((2 * m + 1) * (e * t) == 2 * (m * t * e) + e * t) by (nonlinear_arith);
    assert(2 * m * (e * t) == 2 * (m * t * e)) by (nonlinear_arith);
    if m == pow2(p) {
        let q = pow2((p - 1) as nat) as int;
        pow2_adds((p - 1) as nat, 1);
        pow2_adds(k, 1);
        assert(pow2(1) == 2) by {
            assert(pow2(0) == 1);
        }
        assert(pow2(k + 1) == 2 * t && m == 2 * q);
        assert(q * (2 * t) * e == (2 * q) * t * e) by (nonlinear_arith);
        assert(e * (2 * t) == 2 * (e * t)) by (nonlinear_arith);
    }
}

/// The sum of two doubles lies within half a unit of its last binary digit of
/// what they come to together.
pub proof fn double_sums_are_near(x: FloatView, y: FloatView)
    requires
        x is Finite,
        y is Finite,
    ensures
        operator_value(
            Operator::Add,
            Some(ValueView::Float(x, FloatWidth::Float8)),
            Some(ValueView::Float(y, FloatWidth::Float8)),
        ) matches Ok(r) ==> {
            &&& r matches Some(ValueView::Float(s, w))
            &&& w == FloatWidth::Float8
            &&& s matches FloatView::Finite { significand, shift, .. }
            &&& -(pow2(shift) as int) <= 2 * (s.amount() - (x.amount() + y.amount())) <= pow2(shift)
        },
{
    let total = x.amount() + y.amount();
    let n = if total < 0 {
        (-total) as nat
    } else {
        total as nat
    };
    let (m, k) = nearest(53, n, 1);
    nearest_is_near(53, n, 1);
    crate::binary::nearest_is_normal(53, n, 1);
    crate::binary::nearest_is_exact(53, m, k, 1);
    assert(m * pow2(k) * 1 == m * pow2(k)) by (nonlinear_arith);
    assert(pow2(0) == 1);
}

/// The average of floats is taken in double precision, and lies within half a
/// unit of its last binary digit of that part of their sum.
pub proof fn averages_of_floats_are_parts(vs: Seq<ValueView>)
    requires
        can_be_floats(vs),
        forall|i: int|
            0 <= i < vs.len() ==> (#[trigger] vs[i] matches ValueView::Float(_, w) ==> w
                == FloatWidth::Float8),
    ensures
        aggregate_value("AVG"@, vs) is Ok <==> aggregate_value("SUM"@, vs) is Ok,
        aggregate_value("SUM"@, vs) matches Ok(t) ==> {
            &&& t matches Some(ValueView::Float(sum, _))
            &&& aggregate_value("AVG"@, vs) matches Ok(Some(ValueView::Float(part, w)))
            &&& w == FloatWidth::Float8
            &&& !(sum is Finite) ==> part == sum
            &&& sum matches FloatView::Finite { negative: s, .. } ==> (part matches FloatView::Finite {
                negative,
                significand,
                shift,
            } ==> negative == s && rounds_to(significand, shift, sum.magnitude(), vs.len()))
        },
{
    fold_names_differ();
    each_is_a_float(vs);
    let fs = floats(vs)->0;
    assert forall|i: int| 0 <= i < fs.len() implies (#[trigger] fs[i]).1
        == FloatWidth::Float8 by {
        assert(as_float(vs[i]) == Some(fs[i]));
    }
    assert(widened(fs) =~= fs);
    if let Ok((t, w)) = float_total(fs) {
        nearest_is_near(53, t.magnitude(), vs.len());
        assert(part_of(t, fs.len()) == part_of(t, vs.len()));
    }
}

} // verus!
