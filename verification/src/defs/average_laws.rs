//! How many digits an average has.

use vstd::prelude::*;

use crate::defs::arithmetic_laws::{all_decimals, decimals_are_the_numbers, fold_names_differ};
use crate::defs::builtins::{aggregate_value, numbers, total};
use crate::defs::value::ValueView;
use crate::natural::{pow10, pow10_adds, pow10_grows, pow10_positive};
use crate::numeric::{
    absolute, digit_count, first_digit, quotient, quotient_scale, rounded, weight, NumericView,
};

verus! {

proof fn digits_bound(n: nat)
    requires
        n > 0,
    ensures
        digit_count(n) > 0,
        pow10((digit_count(n) - 1) as nat) <= n,
        n < pow10(digit_count(n)),
    decreases n,
{
    if n >= 10 {
        digits_bound(n / 10);
    } else {
        assert(digit_count(n / 10) == 0);
        assert(pow10(0) == 1 && pow10(1) == 10) by {
            reveal_with_fuel(pow10, 2);
        }
    }
}

/// Where the highest digit in base ten thousand stands, in powers of ten.
spec fn place(x: nat, scale: nat) -> int {
    4 * weight(x, scale) + scale
}

spec fn up(p: int) -> nat {
    if p > 0 {
        p as nat
    } else {
        0
    }
}

/// A number is at least as large as its highest digit says, and less than ten
/// thousand at that place.
proof fn highest_digit_bounds(x: nat, scale: nat)
    requires
        x > 0,
    ensures
        ({
            let p = place(x, scale);
            let f = first_digit(x, scale);
            &&& f >= 1
            &&& x * pow10(up(-p)) >= f * pow10(up(p))
            &&& p + 4 >= 1
            &&& x < pow10((p + 4) as nat)
            &&& p >= 0 ==> x < (f + 1) * pow10(p as nat) && pow10(p as nat) <= x
        }),
{
    digits_bound(x);
    let len = digit_count(x) as int;
    let e = len - 1 - scale;
    let k = e % 4;
    let p = place(x, scale);
    assert(e == 4 * (e / 4) + k && 0 <= k < 4);
    assert(p == len - 1 - k);
    pow10_grows(len as nat, (p + 4) as nat);
    assert(pow10(0) == 1);
    if p >= 0 {
        let t = pow10(p as nat) as int;
        pow10_positive(p as nat);
        pow10_grows(p as nat, (len - 1) as nat);
        vstd::arithmetic::div_mod::lemma_fundamental_div_mod(x as int, t);
        vstd::arithmetic::div_mod::lemma_mod_bound(x as int, t);
        let f = first_digit(x, scale) as int;
        assert(f == x as int / t);
        assert(t * f == f * t) by (nonlinear_arith);
        assert((f + 1) * t == f * t + t) by (nonlinear_arith);
        assert(f >= 1) by (nonlinear_arith)
            requires
                x < (f + 1) * t,
                x >= t,
                t > 0,
        ;
        assert(x * 1 == x);
    } else {
        let t = pow10((-p) as nat) as int;
        pow10_positive((-p) as nat);
        assert(first_digit(x, scale) == x * pow10((-p) as nat));
        assert(x * t >= 1) by (nonlinear_arith)
            requires
                x >= 1,
                t >= 1,
        ;
        assert((x * t) * 1 == x * t);
    }
}

proof fn scaled_up(x: nat, y: nat, f: nat, n: nat, m: nat, r: nat, s: nat, b: nat)
    requires
        x * pow10(n) >= f * pow10(m),
        y < f * pow10(r),
        n <= s,
        m + (s - n) >= r + b,
    ensures
        x * pow10(s) >= y * pow10(b),
{
    let d = (s - n) as nat;
    pow10_adds(n, d);
    pow10_adds(m, d);
    pow10_adds(r, b);
    pow10_grows(r + b, m + d);
    pow10_positive(d);
    pow10_positive(b);
    let (pn, pd, pm) = (pow10(n) as int, pow10(d) as int, pow10(m) as int);
    let (pr, pb) = (pow10(r) as int, pow10(b) as int);
    let (xx, yy, ff) = (x as int, y as int, f as int);
    assert(xx * (pn * pd) >= ff * (pm * pd)) by (nonlinear_arith)
        requires
            xx * pn >= ff * pm,
            pd >= 1,
    ;
    assert(ff * (pm * pd) >= ff * (pr * pb)) by (nonlinear_arith)
        requires
            pm * pd >= pr * pb,
            ff >= 0,
    ;
    assert(ff * (pr * pb) >= yy * pb) by (nonlinear_arith)
        requires
            yy < ff * pr,
            pb >= 1,
    ;
}

/// The quotient of two numbers that are not zero, in whole units of its last
/// place.
proof fn quotients_have_digits(t: NumericView, n: nat)
    requires
        n > 0,
        t.mantissa != 0,
    ensures
        ({
            let s = quotient_scale(t, NumericView { mantissa: n as int, scale: 0 });
            let x = absolute(t.mantissa);
            &&& s == 1000 || x * pow10(s) >= pow10(16) * (n * pow10(t.scale))
            &&& s > t.scale ==> x * pow10(s) <= pow10(24) * (n * pow10(t.scale))
        }),
{
    let count = NumericView { mantissa: n as int, scale: 0 };
    let s = quotient_scale(t, count);
    let x = absolute(t.mantissa);
    let (a, b) = (t.scale, 0nat);
    highest_digit_bounds(x, a);
    highest_digit_bounds(n, b);
    let (p, q) = (place(x, a), place(n, b));
    let (f, g) = (first_digit(x, a), first_digit(n, b));
    assert(q >= 0) by {
        digits_bound(n);
    }
    let steps = weight(x, a) - weight(n, b) - (if f <= g {
        1int
    } else {
        0int
    });
    let u = a + 16;
    pow10_adds(a, 16);
    let (pa, pc) = (pow10(a) as int, pow10(16) as int);
    let nn = n as int;
    assert(nn * (pa * pc) == pc * (nn * pa)) by (nonlinear_arith);
    if s < 1000 {
        assert(s + 4 * steps >= 16);
        if f > g {
            let y = pow10(q as nat) as int;
            assert(nn < f * y) by (nonlinear_arith)
                requires
                    nn < (g + 1) * y,
                    g + 1 <= f,
                    y >= 0,
            ;
            assert(p + s >= q + u);
            scaled_up(x, n, f, up(-p), up(p), q as nat, s, u);
        } else {
            let r = (q + 4) as nat;
            assert(1 * pow10(r) == pow10(r));
            assert(x * pow10(up(-p)) >= 1 * pow10(up(p))) by {
                let v = pow10(up(p)) as int;
                assert(f * v >= v) by (nonlinear_arith)
                    requires
                        f >= 1,
                        v >= 0,
                ;
            }
            assert(p + s >= r + u);
            scaled_up(x, n, 1, up(-p), up(p), r, s, u);
        }
    }
    if s > a {
        assert(s <= 16 - 4 * steps);
        pow10_adds((p + 4) as nat, s);
        pow10_positive(s);
        let (px, ps) = (pow10((p + 4) as nat) as int, pow10(s) as int);
        assert(x * ps <= px * ps) by (nonlinear_arith)
            requires
                x < px,
                ps >= 1,
        ;
        let top = (q + a + 24) as nat;
        assert(p + 4 + s <= top);
        pow10_grows((p + 4) as nat + s, top);
        pow10_adds(q as nat, a + 24);
        pow10_adds(a, 24);
        let (pq, pd) = (pow10(q as nat) as int, pow10(24) as int);
        pow10_positive(a);
        pow10_positive(24);
        assert(pq * (pa * pd) <= pd * (nn * pa)) by (nonlinear_arith)
            requires
                pq <= nn,
                pa >= 1,
                pd >= 1,
        ;
    }
}

proof fn rounding_stays_between(n: nat, d: nat, low: nat, high: nat)
    requires
        d > 0,
    ensures
        n >= low * d ==> rounded(n, d) >= low,
        n <= high * d ==> rounded(n, d) <= high,
{
    let e = 2 * d as int;
    let v = 2 * n + d as int;
    let q = rounded(n, d) as int;
    vstd::arithmetic::div_mod::lemma_fundamental_div_mod(v, e);
    vstd::arithmetic::div_mod::lemma_mod_bound(v, e);
    if n >= low * d {
        assert(q >= low) by (nonlinear_arith)
            requires
                2 * n + d < e * q + e,
                n >= low * d,
                e == 2 * d,
                d > 0,
        ;
    }
    if n <= high * d {
        assert(q <= high) by (nonlinear_arith)
            requires
                e * q <= 2 * n + d,
                n <= high * d,
                e == 2 * d,
                d > 0,
        ;
    }
}

/// An average has at least sixteen digits unless it has a thousand decimal
/// places, and as many decimal places as the sum up to a thousand; beyond those
/// of the sum it has none that are not needed for the digits.
pub proof fn averages_have_sixteen_digits(vs: Seq<ValueView>)
    requires
        all_decimals(vs),
    ensures
        aggregate_value("SUM"@, vs) matches Ok(Some(ValueView::Numeric(t))) && aggregate_value(
            "AVG"@,
            vs,
        ) matches Ok(Some(ValueView::Numeric(q))) && {
            &&& q.scale <= 1000
            &&& q.scale >= t.scale || q.scale == 1000
            &&& t.mantissa != 0 ==> q.scale == 1000 || absolute(q.mantissa) >= pow10(16)
            &&& t.mantissa != 0 && q.scale > t.scale ==> absolute(q.mantissa) <= pow10(24)
        },
{
    fold_names_differ();
    decimals_are_the_numbers(vs);
    let t = total(numbers(vs));
    let n = vs.len();
    let count = NumericView { mantissa: n as int, scale: 0 };
    let q = quotient(t, count);
    let s = quotient_scale(t, count);
    if t.mantissa != 0 {
        quotients_have_digits(t, n);
        assert(pow10(0) == 1);
        let x = absolute(t.mantissa);
        let (xs, d) = (x * pow10(s) * 1, n * pow10(t.scale));
        assert(x * pow10(s) * 1 == x * pow10(s));
        pow10_positive(t.scale);
        assert(d > 0) by (nonlinear_arith)
            requires
                d == n * pow10(t.scale),
                n > 0,
                pow10(t.scale) >= 1,
        ;
        rounding_stays_between(xs, d, pow10(16), pow10(24));
        assert(absolute(q.mantissa) == rounded(xs, d));
    }
}

} // verus!
