//! Rounding numbers to a given number of binary digits.

use vstd::prelude::*;

use crate::natural::{Natural, Order};

verus! {

/// Two to the power of `n`.
pub open spec fn pow2(n: nat) -> nat
    decreases n,
{
    if n == 0 {
        1
    } else {
        2 * pow2((n - 1) as nat)
    }
}

pub proof fn pow2_positive(n: nat)
    ensures
        pow2(n) >= 1,
    decreases n,
{
    if n > 0 {
        pow2_positive((n - 1) as nat);
    }
}

pub proof fn pow2_adds(a: nat, b: nat)
    ensures
        pow2(a + b) == pow2(a) * pow2(b),
    decreases a,
{
    if a == 0 {
        assert(pow2(0) * pow2(b) == pow2(b)) by (nonlinear_arith)
            requires
                pow2(0) == 1,
        ;
    } else {
        pow2_adds((a - 1) as nat, b);
        let p = pow2((a - 1) as nat) as int;
        let q = pow2(b) as int;
        assert(2 * (p * q) == (2 * p) * q) by (nonlinear_arith);
        assert((a - 1) as nat + b == (a + b - 1) as nat);
    }
}

pub proof fn pow2_grows(a: nat, b: nat)
    requires
        a <= b,
    ensures
        pow2(a) <= pow2(b),
    decreases b,
{
    if a < b {
        pow2_grows(a, (b - 1) as nat);
    }
}

/// The powers of two that binary floats are made of.
pub proof fn small_powers()
    ensures
        pow2(23) == 0x80_0000,
        pow2(24) == 0x100_0000,
        pow2(52) == 0x10_0000_0000_0000,
        pow2(53) == 0x20_0000_0000_0000,
{
    reveal_with_fuel(pow2, 13);
    assert(pow2(12) == 4096);
    pow2_adds(12, 12);
    assert(pow2(24) == 2 * pow2(23));
    pow2_adds(24, 24);
    pow2_adds(48, 4);
    assert(pow2(48) == 0x1_0000_0000_0000);
    assert(pow2(53) == 2 * pow2(52));
}

proof fn twentieth_power()
    ensures
        pow2(20) == 0x10_0000,
{
    reveal_with_fuel(pow2, 11);
    assert(pow2(10) == 1024);
    pow2_adds(10, 10);
}

/// The number of binary digits.
pub open spec fn bits(z: nat) -> nat
    decreases z,
{
    if z == 0 {
        0
    } else {
        1 + bits(z / 2)
    }
}

/// A number lies between two powers of two.
pub proof fn bits_bound(z: nat)
    ensures
        z < pow2(bits(z)),
        z > 0 ==> bits(z) > 0 && pow2((bits(z) - 1) as nat) <= z,
    decreases z,
{
    if z > 0 {
        bits_bound(z / 2);
        if z / 2 > 0 {
            assert(pow2(bits(z / 2)) == 2 * pow2((bits(z / 2) - 1) as nat));
        } else {
            assert(z == 1);
            assert(bits(0) == 0);
        }
    }
}

/// The powers of two that a number lies between tell how many binary digits it
/// has.
pub proof fn bits_are(z: nat, b: nat)
    requires
        z < pow2(b),
        b > 0 ==> pow2((b - 1) as nat) <= z,
    ensures
        bits(z) == b,
{
    bits_bound(z);
    if bits(z) < b {
        pow2_grows(bits(z), (b - 1) as nat);
    } else if b < bits(z) {
        pow2_grows(b, (bits(z) - 1) as nat);
    }
}

/// `n / d` rounded to the nearest whole number, halves to the even one.
pub open spec fn half_even(n: nat, d: nat) -> nat {
    let q = n / d;
    let r = n % d;
    if 2 * r < d {
        q
    } else if 2 * r > d {
        q + 1
    } else {
        q + q % 2
    }
}

/// `n / d` rounded to `p` binary digits: the digits, and the power of two that
/// they are multiplied by. There are fewer digits where the power would fall
/// below one.
pub open spec fn nearest(p: nat, n: nat, d: nat) -> (nat, nat) {
    let b = bits(n / d);
    let k = if b <= p {
        0
    } else {
        (b - p) as nat
    };
    let m = half_even(n, d * pow2(k));
    if m == pow2(p) {
        (pow2((p - 1) as nat), k + 1)
    } else {
        (m, k)
    }
}

/// A rounded value is spelled in one way.
pub open spec fn normal(p: nat, m: nat, k: nat) -> bool {
    m < pow2(p) && (k > 0 ==> pow2((p - 1) as nat) <= m)
}

// ---------------------------------------------------------------------------
// Facts about rounding
// ---------------------------------------------------------------------------

proof fn divide(n: nat, d: nat)
    requires
        d > 0,
    ensures
        n == (n / d) * d + n % d,
        n % d < d,
{
    vstd::arithmetic::div_mod::lemma_fundamental_div_mod(n as int, d as int);
    assert((n / d) * d == d * (n / d)) by (nonlinear_arith);
}

/// What a quotient in whole numbers is bounded by.
pub proof fn quotient_below(n: nat, d: nat, top: nat)
    requires
        d > 0,
        n / d < top,
    ensures
        n < top * d,
{
    divide(n, d);
    let q = (n / d) as int;
    let e = d as int;
    assert(q * e + e <= top * e) by (nonlinear_arith)
        requires
            q + 1 <= top,
            e > 0,
    ;
}

proof fn quotient_at_least(n: nat, d: nat, low: nat)
    requires
        d > 0,
        low * d <= n,
    ensures
        low <= n / d,
{
    divide(n, d);
    let q = (n / d) as int;
    let e = d as int;
    if q < low {
        assert((q + 1) * e <= low * e) by (nonlinear_arith)
            requires
                q + 1 <= low,
                e > 0,
        ;
        assert((q + 1) * e == q * e + e) by (nonlinear_arith);
    }
}

/// A rounded quotient lies within half of one of the exact one.
pub proof fn half_even_is_near(n: nat, d: nat)
    requires
        d > 0,
    ensures
        2 * n <= (2 * half_even(n, d) + 1) * d,
        2 * half_even(n, d) * d <= 2 * n + d,
        n / d <= half_even(n, d) <= n / d + 1,
{
    divide(n, d);
    let q = (n / d) as int;
    let r = (n % d) as int;
    let e = d as int;
    let m = half_even(n, d) as int;
    assert((2 * q + 1) * e == 2 * (q * e) + e) by (nonlinear_arith);
    assert((2 * (q + 1) + 1) * e == 2 * (q * e) + 3 * e) by (nonlinear_arith);
    assert(2 * q * e == 2 * (q * e)) by (nonlinear_arith);
    assert(2 * (q + 1) * e == 2 * (q * e) + 2 * e) by (nonlinear_arith);
    assert(m == q || m == q + 1);
}

/// An exact multiple is rounded to itself.
pub proof fn half_even_of_multiple(m: nat, d: nat)
    requires
        d > 0,
    ensures
        half_even(m * d, d) == m,
{
    vstd::arithmetic::div_mod::lemma_fundamental_div_mod_converse(
        (m * d) as int,
        d as int,
        m as int,
        0,
    );
}

/// The digits that a value is rounded to fit.
pub proof fn nearest_is_normal(p: nat, n: nat, d: nat)
    requires
        p > 0,
        d > 0,
    ensures
        normal(p, nearest(p, n, d).0, nearest(p, n, d).1),
        n == 0 ==> nearest(p, n, d) == (0nat, 0nat),
{
    let z = n / d;
    let b = bits(z);
    bits_bound(z);
    let k = if b <= p {
        0
    } else {
        (b - p) as nat
    };
    pow2_positive(k);
    let d2 = d * pow2(k);
    assert(d2 > 0) by (nonlinear_arith)
        requires
            d > 0,
            pow2(k) >= 1,
            d2 == d * pow2(k),
    ;
    let m = half_even(n, d2);
    half_even_is_near(n, d2);
    // At most `p` digits stand before the point.
    assert(n / d2 < pow2(p)) by {
        quotient_below(n, d, pow2(b));
        if b <= p {
            pow2_grows(b, p);
            assert(d2 == d) by (nonlinear_arith)
                requires
                    d2 == d * pow2(k),
                    pow2(k) == 1,
            ;
            if n / d2 >= pow2(p) {
                assert(false);
            }
        } else {
            pow2_adds(p, k);
            let top = pow2(p) as int;
            assert(pow2(b) * d == top * d2) by (nonlinear_arith)
                requires
                    pow2(b) == pow2(p) * pow2(k),
                    d2 == d * pow2(k),
                    top == pow2(p),
            ;
            if n / d2 >= pow2(p) {
                divide(n, d2);
                let q = (n / d2) as int;
                let e = d2 as int;
                assert(q * e >= top * e) by (nonlinear_arith)
                    requires
                        q >= top,
                        e > 0,
                ;
            }
        }
    }
    assert(m <= pow2(p));
    pow2_positive((p - 1) as nat);
    assert(pow2(p) == 2 * pow2((p - 1) as nat));
    if k > 0 {
        // All of them are used.
        assert(pow2((p - 1) as nat) <= n / d2) by {
            pow2_adds((p - 1) as nat, k);
            divide(n, d);
            let low = pow2((p - 1) as nat) as int;
            assert(low * d2 <= n) by (nonlinear_arith)
                requires
                    low * pow2(k) == pow2((b - 1) as nat),
                    pow2((b - 1) as nat) <= z,
                    z * d <= n,
                    d2 == d * pow2(k),
                    d > 0,
            ;
            quotient_at_least(n, d2, low as nat);
        }
    }
    if n == 0 {
        assert(0nat / d == 0) by (nonlinear_arith)
            requires
                d > 0,
        ;
        assert(bits(0) == 0);
        assert(0 * d2 == 0) by (nonlinear_arith);
        half_even_of_multiple(0, d2);
        pow2_positive(p);
    }
}

/// Multiplying by a power of two adds as many binary digits.
pub proof fn bits_of_shifted(m: nat, k: nat)
    requires
        m > 0,
    ensures
        bits(m * pow2(k)) == bits(m) + k,
{
    let b = bits(m);
    let z = m * pow2(k);
    bits_bound(m);
    pow2_positive(k);
    pow2_adds(b, k);
    pow2_adds((b - 1) as nat, k);
    let t = pow2(k) as int;
    assert(z < pow2(b + k)) by (nonlinear_arith)
        requires
            z == m * t,
            m < pow2(b),
            pow2(b + k) == pow2(b) * t,
            t >= 1,
    ;
    assert(pow2((b - 1) as nat + k) <= z) by (nonlinear_arith)
        requires
            z == m * t,
            pow2((b - 1) as nat) <= m,
            pow2((b - 1) as nat + k) == pow2((b - 1) as nat) * t,
            t >= 1,
    ;
    bits_are(z, b + k);
}

/// A whole number with few enough digits keeps its value.
pub proof fn few_digits_are_kept(p: nat, m: nat, j: nat)
    requires
        p > 0,
        m < pow2(p),
    ensures
        nearest(p, m * pow2(j), 1).0 * pow2(nearest(p, m * pow2(j), 1).1) == m * pow2(j),
        nearest(p, m * pow2(j), 1).1 <= j,
{
    let n = m * pow2(j);
    pow2_positive(j);
    assert(n / 1 == n);
    nearest_is_normal(p, n, 1);
    if m == 0 {
        assert(n == 0) by (nonlinear_arith)
            requires
                n == m * pow2(j),
                m == 0,
        ;
        assert(0 * pow2(0) == 0) by (nonlinear_arith);
    } else {
        bits_of_shifted(m, j);
        bits_bound(m);
        if bits(m) > p {
            pow2_grows(p, (bits(m) - 1) as nat);
        }
        let b = bits(n);
        let k = if b <= p {
            0
        } else {
            (b - p) as nat
        };
        assert(k <= j);
        let rest = (j - k) as nat;
        pow2_adds(rest, k);
        let q = m * pow2(rest);
        let d = 1 * pow2(k);
        assert(n == q * d) by (nonlinear_arith)
            requires
                n == m * pow2(j),
                pow2(j) == pow2(rest) * pow2(k),
                q == m * pow2(rest),
                d == 1 * pow2(k),
        ;
        pow2_positive(k);
        half_even_of_multiple(q, d);
        // No carry: the digits fit.
        bits_of_shifted(m, rest);
        bits_bound(q);
        pow2_grows(bits(q), p);
        assert(q * pow2(k) == n) by (nonlinear_arith)
            requires
                n == q * d,
                d == 1 * pow2(k),
        ;
    }
}

/// A value that has no more digits is rounded to itself.
pub proof fn nearest_is_exact(p: nat, m: nat, k: nat, d: nat)
    requires
        p > 0,
        d > 0,
        normal(p, m, k),
    ensures
        nearest(p, m * pow2(k) * d, d) == (m, k),
{
    let n = m * pow2(k) * d;
    let z = m * pow2(k);
    vstd::arithmetic::div_mod::lemma_fundamental_div_mod_converse(n as int, d as int, z as int, 0);
    assert(n / d == z);
    bits_bound(m);
    pow2_positive(k);
    let b = bits(m);
    if m == 0 {
        assert(k == 0) by {
            pow2_positive((p - 1) as nat);
        }
        assert(z == 0) by (nonlinear_arith)
            requires
                z == m * pow2(k),
                m == 0,
        ;
        assert(n == 0) by (nonlinear_arith)
            requires
                n == z * d,
                z == 0,
        ;
        nearest_is_normal(p, n, d);
    } else {
        bits_of_shifted(m, k);
        let t = pow2(k) as int;
        if k > 0 {
            // The digits fill the precision.
            assert(b == p) by {
                if b < p {
                    pow2_grows(b, (p - 1) as nat);
                } else if b > p {
                    pow2_grows(p, (b - 1) as nat);
                }
            }
        } else {
            if b > p {
                pow2_grows(p, (b - 1) as nat);
            }
        }
        let d2 = d * pow2(k);
        assert(n == m * d2) by (nonlinear_arith)
            requires
                n == m * pow2(k) * d,
                d2 == d * pow2(k),
        ;
        assert(d2 > 0) by (nonlinear_arith)
            requires
                d > 0,
                t >= 1,
                d2 == d * t,
        ;
        half_even_of_multiple(m, d2);
    }
}

/// A value is at most twice what it is rounded to, unless that is nothing.
pub proof fn nearest_is_within_twice(p: nat, n: nat, d: nat)
    requires
        p > 0,
        d > 0,
        nearest(p, n, d).0 > 0,
    ensures
        n <= 2 * (nearest(p, n, d).0 * pow2(nearest(p, n, d).1)) * d,
{
    let b = bits(n / d);
    let k = if b <= p {
        0
    } else {
        (b - p) as nat
    };
    pow2_positive(k);
    let t = pow2(k) as int;
    let d2 = d * pow2(k);
    assert(d2 > 0) by (nonlinear_arith)
        requires
            d > 0,
            t >= 1,
            d2 == d * t,
    ;
    half_even_is_near(n, d2);
    let m = half_even(n, d2) as int;
    pow2_positive(p);
    assert(m > 0);
    let e = d2 as int;
    assert(2 * n <= (2 * m + 1) * e);
    assert(n <= 2 * m * e) by (nonlinear_arith)
        requires
            2 * n <= (2 * m + 1) * e,
            m >= 1,
            e > 0,
    ;
    assert(2 * m * e == 2 * (m * t) * d) by (nonlinear_arith)
        requires
            e == d * t,
    ;
    if m == pow2(p) {
        assert(pow2(p) == 2 * pow2((p - 1) as nat));
        assert(pow2(k + 1) == 2 * pow2(k));
        let h = pow2((p - 1) as nat) as int;
        assert(m * t == h * (2 * t)) by (nonlinear_arith)
            requires
                m == 2 * h,
        ;
    }
}

// ---------------------------------------------------------------------------
// Rounding
// ---------------------------------------------------------------------------

impl Natural {
    /// The number times two to the power of `k`.
    pub fn doubled(&self, k: u128) -> (r: Natural)
        ensures
            r@ == self@ * pow2(k as nat),
    {
        let mut r = self.copy();
        let mut i: u128 = 0;
        proof {
            assert(self@ * pow2(0) == self@) by (nonlinear_arith)
                requires
                    pow2(0) == 1,
            ;
            twentieth_power();
        }
        while k - i >= 20
            invariant
                0 <= i <= k,
                r@ == self@ * pow2(i as nat),
                pow2(20) == 0x10_0000,
            decreases k - i,
        {
            proof {
                pow2_adds(i as nat, 20);
                let a = self@ as int;
                let t = pow2(i as nat) as int;
                assert((a * t) * 0x10_0000 == a * (t * 0x10_0000)) by (nonlinear_arith);
            }
            r = r.times(0x10_0000);
            i += 20;
        }
        while i < k
            invariant
                0 <= i <= k,
                r@ == self@ * pow2(i as nat),
            decreases k - i,
        {
            proof {
                assert(pow2((i + 1) as nat) == 2 * pow2(i as nat));
                let a = self@ as int;
                let t = pow2(i as nat) as int;
                assert(a * t + a * t == a * (2 * t)) by (nonlinear_arith);
            }
            r = r.plus(&r);
            i += 1;
        }
        r
    }

    /// The number of binary digits.
    pub fn bit_length(&self) -> (r: u128)
        ensures
            r == bits(self@),
            r <= 0x4_0000_0000_0000_0000,
    {
        let mut b: u128 = 0;
        let mut top = Natural::from_u128(1);
        let n: usize = self.len();
        proof {
            below_pow16(self@, n as nat);
            twentieth_power();
        }
        loop
            invariant
                top@ == pow2(b as nat),
                b > 0 ==> pow2((b - 1) as nat) <= self@,
                self@ < pow2(4 * n as nat),
                b <= 4 * n,
                pow2(20) == 0x10_0000,
            ensures
                top@ == pow2(b as nat),
                b > 0 ==> pow2((b - 1) as nat) <= self@,
                b <= 4 * n,
            decreases 4 * n - b,
        {
            let next = top.times(0x10_0000);
            if next.order(self) == Order::Greater {
                break;
            }
            proof {
                pow2_adds(b as nat, 20);
                if b + 20 >= 4 * n {
                    pow2_grows(4 * n as nat, (b + 20) as nat);
                }
                pow2_grows((b + 19) as nat, (b + 20) as nat);
            }
            top = next;
            b += 20;
        }
        while top.order(self) != Order::Greater
            invariant
                top@ == pow2(b as nat),
                b > 0 ==> pow2((b - 1) as nat) <= self@,
                self@ < pow2(4 * n as nat),
                b <= 4 * n,
                b <= 0x4_0000_0000_0000_0000,
            decreases 4 * n - b,
        {
            proof {
                if b >= 4 * n {
                    assert(b == 4 * n);
                }
                assert(pow2((b + 1) as nat) == 2 * pow2(b as nat));
            }
            top = top.plus(&top);
            b += 1;
        }
        proof {
            bits_are(self@, b as nat);
        }
        b
    }
}

proof fn below_pow16(x: nat, n: nat)
    requires
        x < crate::natural::pow10(n),
    ensures
        x < pow2(4 * n),
    decreases n,
{
    ten_below_sixteen(n);
}

proof fn ten_below_sixteen(n: nat)
    ensures
        crate::natural::pow10(n) <= pow2(4 * n),
    decreases n,
{
    if n > 0 {
        ten_below_sixteen((n - 1) as nat);
        let k = 4 * n;
        assert(pow2(k) == 2 * pow2((k - 1) as nat));
        assert(pow2((k - 1) as nat) == 2 * pow2((k - 2) as nat));
        assert(pow2((k - 2) as nat) == 2 * pow2((k - 3) as nat));
        assert(pow2((k - 3) as nat) == 2 * pow2((k - 4) as nat));
        assert((k - 4) as nat == 4 * ((n - 1) as nat));
    }
}

/// `n / d` rounded to the nearest whole number, halves to the even one.
pub fn round_half_even(n: &Natural, d: &Natural) -> (r: Natural)
    requires
        d@ > 0,
    ensures
        r@ == half_even(n@, d@),
{
    let (q, rest) = n.divided(d);
    proof {
        vstd::arithmetic::div_mod::lemma_fundamental_div_mod_converse(
            n@ as int,
            d@ as int,
            q@ as int,
            rest@ as int,
        );
    }
    let one = Natural::from_u128(1);
    match rest.plus(&rest).order(d) {
        Order::Less => q,
        Order::Greater => q.plus(&one),
        Order::Same => {
            let two = Natural::from_u128(2);
            let (half, odd) = q.divided(&two);
            proof {
                vstd::arithmetic::div_mod::lemma_fundamental_div_mod_converse(
                    q@ as int,
                    2,
                    half@ as int,
                    odd@ as int,
                );
            }
            q.plus(&odd)
        },
    }
}

/// A common factor changes no quotient.
pub proof fn quotient_cancels(n: nat, d: nat, f: nat)
    requires
        d > 0,
        f > 0,
    ensures
        (n * f) / (d * f) == n / d,
        half_even(n * f, d * f) == half_even(n, d),
        d * f > 0,
{
    divide(n, d);
    let q = (n / d) as int;
    let r = (n % d) as int;
    let (x, e, g) = (n as int, d as int, f as int);
    assert(d * f > 0) by (nonlinear_arith)
        requires
            d > 0,
            f > 0,
    ;
    assert(x * g == q * (e * g) + r * g) by (nonlinear_arith)
        requires
            x == q * e + r,
    ;
    assert(0 <= r * g < e * g) by (nonlinear_arith)
        requires
            0 <= r < e,
            g > 0,
    ;
    vstd::arithmetic::div_mod::lemma_fundamental_div_mod_converse(x * g, e * g, q, r * g);
    assert(2 * (r * g) < e * g <==> 2 * r < e) by (nonlinear_arith)
        requires
            g > 0,
    ;
    assert(2 * (r * g) > e * g <==> 2 * r > e) by (nonlinear_arith)
        requires
            g > 0,
    ;
}

/// A common factor changes nothing of what a quotient is rounded to.
pub proof fn nearest_cancels(p: nat, n: nat, d: nat, f: nat)
    requires
        d > 0,
        f > 0,
    ensures
        nearest(p, n * f, d * f) == nearest(p, n, d),
{
    quotient_cancels(n, d, f);
    let b = bits(n / d);
    let k: nat = if b <= p {
        0
    } else {
        (b - p) as nat
    };
    pow2_positive(k);
    let t = pow2(k);
    assert(d * t > 0) by (nonlinear_arith)
        requires
            d > 0,
            t > 0,
    ;
    quotient_cancels(n, d * t, f);
    assert((d * f) * t == (d * t) * f) by (nonlinear_arith);
}

/// A quotient is below what its dividend is that many times below.
proof fn quotient_less(n: nat, d: nat, top: nat)
    requires
        d > 0,
        n < top * d,
    ensures
        n / d < top,
{
    divide(n, d);
    let q = (n / d) as int;
    let e = d as int;
    if q >= top {
        assert(q * e >= top * e) by (nonlinear_arith)
            requires
                q >= top,
                e > 0,
        ;
    }
}

/// The number of binary digits that `n * 2^u / d` has is told by those of `n`
/// and `d`, up to one.
proof fn ratio_bits(n: nat, u: nat, d: nat)
    requires
        n > 0,
        d > 0,
    ensures
        bits(n) + u + 1 < bits(d) ==> bits((n * pow2(u)) / d) == 0,
        bits(n) + u + 1 >= bits(d) ==> bits((n * pow2(u)) / d) <= bits(n) + u + 1 - bits(d),
        bits(n) + u > bits(d) ==> bits((n * pow2(u)) / d) == (if n * pow2(u) >= d * pow2(
            (bits(n) + u - bits(d)) as nat,
        ) {
            bits(n) + u + 1 - bits(d)
        } else {
            bits(n) + u - bits(d)
        }),
{
    bits_bound(n);
    bits_bound(d);
    let a = bits(n) + u;
    let e = bits(d);
    let x = n * pow2(u);
    let z = x / d;
    pow2_positive(u);
    pow2_adds(bits(n), u);
    pow2_adds((bits(n) - 1) as nat, u);
    assert((bits(n) - 1) as nat + u == (a - 1) as nat);
    let (n1, w) = (n as int, pow2(u) as int);
    let hi = pow2(bits(n)) as int;
    let lo = pow2((bits(n) - 1) as nat) as int;
    assert(lo * w <= n1 * w < hi * w) by (nonlinear_arith)
        requires
            lo <= n1 < hi,
            w >= 1,
    ;
    assert(pow2((a - 1) as nat) <= x < pow2(a));
    bits_bound(z);
    if a + 1 < e {
        pow2_grows(a, (e - 1) as nat);
        assert(z == 0) by {
            assert(1 * d == d) by (nonlinear_arith);
            quotient_less(x, d, 1);
        }
    } else {
        let t = (a + 1 - e) as nat;
        pow2_adds(t, (e - 1) as nat);
        assert(t + (e - 1) as nat == a);
        let (top, half, d1) = (pow2(t) as int, pow2((e - 1) as nat) as int, d as int);
        pow2_positive(t);
        assert(top * half <= top * d1) by (nonlinear_arith)
            requires
                half <= d1,
                top >= 1,
        ;
        quotient_less(x, d, pow2(t));
        if bits(z) > t {
            pow2_grows(t, (bits(z) - 1) as nat);
        }
        if a > e {
            let s = (a - e) as nat;
            let ps = pow2(s);
            assert(d * ps == ps * d) by (nonlinear_arith);
            if x >= d * ps {
                quotient_at_least(x, d, ps);
                assert(t == s + 1);
                bits_are(z, t);
            } else {
                quotient_less(x, d, ps);
                pow2_adds((s - 1) as nat, e);
                assert((s - 1) as nat + e == (a - 1) as nat);
                let (low, full) = (pow2((s - 1) as nat) as int, pow2(e) as int);
                assert(low * d1 <= low * full) by (nonlinear_arith)
                    requires
                        d1 <= full,
                        low >= 0,
                ;
                quotient_at_least(x, d, pow2((s - 1) as nat));
                bits_are(z, s);
            }
        }
    }
}

proof fn shifts_part(n: nat, u: nat, k: nat)
    ensures
        u >= k ==> n * pow2(u) == n * pow2((u - k) as nat) * pow2(k),
{
    if u >= k {
        pow2_adds((u - k) as nat, k);
        let (x, a, b) = (n as int, pow2((u - k) as nat) as int, pow2(k) as int);
        assert(x * (a * b) == (x * a) * b) by (nonlinear_arith);
    }
}

/// Whether `n * 2^u` is at least `d * 2^s`.
fn reaches(n: &Natural, u: u128, d: &Natural, s: u128) -> (r: bool)
    ensures
        r == (n@ * pow2(u as nat) >= d@ * pow2(s as nat)),
{
    if u >= s {
        let x = n.doubled(u - s);
        proof {
            shifts_part(n@, u as nat, s as nat);
            pow2_positive(s as nat);
            let (a, b, f) = (x@ as int, d@ as int, pow2(s as nat) as int);
            assert(a * f >= b * f <==> a >= b) by (nonlinear_arith)
                requires
                    f >= 1,
            ;
        }
        x.order(d) != Order::Less
    } else {
        let y = d.doubled(s - u);
        proof {
            shifts_part(d@, s as nat, u as nat);
            pow2_positive(u as nat);
            let (a, b, f) = (n@ as int, y@ as int, pow2(u as nat) as int);
            assert(a * f >= b * f <==> a >= b) by (nonlinear_arith)
                requires
                    f >= 1,
            ;
        }
        n.order(&y) != Order::Less
    }
}

/// `n * 2^u / (d * 2^k)` rounded to the nearest whole number, halves to the
/// even one.
pub fn round_shifted(n: &Natural, u: u128, d: &Natural, k: u128) -> (r: Natural)
    requires
        d@ > 0,
    ensures
        r@ == half_even(n@ * pow2(u as nat), d@ * pow2(k as nat)),
{
    if u >= k {
        proof {
            shifts_part(n@, u as nat, k as nat);
            pow2_positive(k as nat);
            quotient_cancels(n@ * pow2((u - k) as nat), d@, pow2(k as nat));
        }
        round_half_even(&n.doubled(u - k), d)
    } else {
        let e = d.doubled(k - u);
        proof {
            shifts_part(d@, k as nat, u as nat);
            pow2_positive(u as nat);
            pow2_positive((k - u) as nat);
            assert(e@ > 0) by (nonlinear_arith)
                requires
                    d@ > 0,
                    pow2((k - u) as nat) >= 1,
                    e@ == d@ * pow2((k - u) as nat),
            ;
            quotient_cancels(n@, e@, pow2(u as nat));
        }
        round_half_even(n, &e)
    }
}

/// `n * 2^u / d` rounded to `p` binary digits.
pub fn round_ratio(p: u128, n: &Natural, u: u128, d: &Natural) -> (r: (u64, u128))
    requires
        0 < p <= 53,
        u <= 0xffff_ffff,
        d@ > 0,
    ensures
        (r.0 as nat, r.1 as nat) == nearest(p as nat, n@ * pow2(u as nat), d@),
{
    let ghost x = n@ * pow2(u as nat);
    proof {
        nearest_is_normal(p as nat, x, d@);
        pow2_grows(p as nat, 53);
        small_powers();
    }
    if n.is_zero() {
        assert(x == 0) by (nonlinear_arith)
            requires
                n@ == 0,
                x == n@ * pow2(u as nat),
        ;
        return (0, 0);
    }
    proof {
        ratio_bits(n@, u as nat, d@);
    }
    let top: u128 = n.bit_length() + u;
    let e: u128 = d.bit_length();
    let k: u128 = if top < e + p {
        0
    } else {
        let s: u128 = top - e;
        let b: u128 = if reaches(n, u, d, s) {
            s + 1
        } else {
            s
        };
        b - p
    };
    let m = round_shifted(n, u, d, k);
    let full = Natural::from_u128(1).doubled(p);
    assert(1 * pow2(p as nat) == pow2(p as nat)) by (nonlinear_arith);
    match m.order(&full) {
        Order::Same => {
            let half = Natural::from_u128(1).doubled(p - 1);
            assert(1 * pow2((p - 1) as nat) == pow2((p - 1) as nat)) by (nonlinear_arith);
            assert(k < u128::MAX);
            (half.to_u64(), k + 1)
        },
        _ => (m.to_u64(), k),
    }
}

/// `n / d` rounded to `p` binary digits.
pub fn round_binary(p: u128, n: &Natural, d: &Natural) -> (r: (u64, u128))
    requires
        0 < p <= 53,
        d@ > 0,
    ensures
        (r.0 as nat, r.1 as nat) == nearest(p as nat, n@, d@),
{
    assert(n@ * pow2(0) == n@) by (nonlinear_arith)
        requires
            pow2(0) == 1,
    ;
    round_ratio(p, n, 0, d)
}

} // verus!
