//! Decimal numbers read as binary ones, and the shortest decimal number that
//! reads as a given one.
//!
//! A binary number is `m * 2^k` units, a unit being `2^-u`, and has at most
//! `p` binary digits.

use vstd::prelude::*;

use crate::binary::{
    bits, bits_bound, half_even, nearest, nearest_is_normal, nearest_is_within_twice, normal, pow2,
    pow2_adds, pow2_grows, pow2_positive, quotient_below, quotient_cancels, round_half_even,
    round_ratio,
};
use crate::natural::{pow10, pow10_adds, pow10_grows, pow10_positive, Natural, Order};

verus! {

/// `c * 10^q`, rounded to `p` binary digits, in units of `2^-u`.
pub open spec fn decimal_nearest(p: nat, u: nat, c: nat, q: int) -> (nat, nat) {
    if q >= 0 {
        nearest(p, c * pow10(q as nat) * pow2(u), 1)
    } else {
        nearest(p, c * pow2(u), pow10((-q) as nat))
    }
}

/// `m * 2^k` units in terms of `10^q`, above the line.
pub open spec fn upper(u: nat, m: nat, k: nat, q: int) -> nat {
    if q >= 0 {
        m * pow2(k)
    } else {
        m * pow2(k) * pow10((-q) as nat)
    }
}

/// `m * 2^k` units in terms of `10^q`, below the line.
pub open spec fn lower(u: nat, q: int) -> nat {
    if q >= 0 {
        pow2(u) * pow10(q as nat)
    } else {
        pow2(u)
    }
}

/// The multiple of `10^q` that reads as `m * 2^k` units: of the two that it
/// lies between the one that does, and if both do the nearer, or the even one.
pub open spec fn digits_at(p: nat, u: nat, m: nat, k: nat, q: int) -> Option<nat> {
    let n = upper(u, m, k, q);
    let d = lower(u, q);
    let c = n / d;
    let below = decimal_nearest(p, u, c, q) == (m, k);
    let above = decimal_nearest(p, u, c + 1, q) == (m, k);
    if below && above {
        Some(half_even(n, d))
    } else if below {
        Some(c)
    } else if above {
        Some(c + 1)
    } else {
        None
    }
}

/// The greatest power of ten at or below `q` of which some multiple reads as
/// `m * 2^k` units.
pub open spec fn scale_from(p: nat, u: nat, m: nat, k: nat, q: int) -> int
    decreases q + 1200,
{
    if q < -1100 || digits_at(p, u, m, k, q) is Some {
        q
    } else {
        scale_from(p, u, m, k, q - 1)
    }
}

/// The power of ten of the shortest decimal number.
pub open spec fn scale(p: nat, u: nat, m: nat, k: nat) -> int {
    scale_from(p, u, m, k, 310)
}

/// The digits of the shortest decimal number.
pub open spec fn digits(p: nat, u: nat, m: nat, k: nat) -> nat {
    match digits_at(p, u, m, k, scale(p, u, m, k)) {
        Some(c) => c,
        None => 0,
    }
}

// ---------------------------------------------------------------------------
// Reading
// ---------------------------------------------------------------------------

proof fn eight_below_ten(n: nat)
    ensures
        pow2(3 * n) <= pow10(n),
    decreases n,
{
    if n > 0 {
        eight_below_ten((n - 1) as nat);
        let k = 3 * n;
        assert(pow2(k) == 2 * pow2((k - 1) as nat));
        assert(pow2((k - 1) as nat) == 2 * pow2((k - 2) as nat));
        assert(pow2((k - 2) as nat) == 2 * pow2((k - 3) as nat));
        assert((k - 3) as nat == 3 * ((n - 1) as nat));
    }
}

/// The digits that a decimal number is rounded to fit.
pub proof fn decimal_nearest_is_normal(p: nat, u: nat, c: nat, q: int)
    requires
        p > 0,
    ensures
        normal(p, decimal_nearest(p, u, c, q).0, decimal_nearest(p, u, c, q).1),
{
    if q >= 0 {
        nearest_is_normal(p, c * pow10(q as nat) * pow2(u), 1);
    } else {
        pow10_positive((-q) as nat);
        nearest_is_normal(p, c * pow2(u), pow10((-q) as nat));
    }
}

/// A number below half a unit is rounded to nothing.
proof fn below_half_is_nothing(p: nat, n: nat, d: nat)
    requires
        p > 0,
        d > 0,
        2 * n < d,
    ensures
        nearest(p, n, d) == (0nat, 0nat),
{
    assert(n / d == 0 && n % d == n) by {
        vstd::arithmetic::div_mod::lemma_fundamental_div_mod_converse(
            n as int,
            d as int,
            0,
            n as int,
        );
    }
    assert(bits(0) == 0);
    assert(d * pow2(0) == d) by (nonlinear_arith)
        requires
            pow2(0) == 1,
    ;
    pow2_positive(p);
}

/// A number of many binary digits is rounded to one with a high power of two.
proof fn large_stays_large(p: nat, n: nat, d: nat, b: nat)
    requires
        p > 0,
        d > 0,
        pow2(b) * d <= n,
        b >= p,
    ensures
        nearest(p, n, d).1 > b - p,
{
    let z = n / d;
    bits_bound(z);
    if bits(z) <= b {
        pow2_grows(bits(z), b);
        quotient_below(n, d, pow2(bits(z)));
        let t = pow2(bits(z)) as int;
        let s = pow2(b) as int;
        assert(t * d <= s * d) by (nonlinear_arith)
            requires
                t <= s,
                d > 0,
        ;
    }
}

/// A number far above the range is rounded out of it.
proof fn huge_overflows(p: nat, u: nat, c: nat, q: int, len: nat)
    requires
        0 < p <= 53,
        len > 0,
        c >= pow10((len - 1) as nat),
        len + q > 400,
    ensures
        decimal_nearest(p, u, c, q).1 > 1140 + u - p,
{
    // c * 10^q is at least 10^400, and so at least 2^1200.
    let b = 1200 + u;
    eight_below_ten(400);
    pow2_adds(1200, u);
    pow2_positive(u);
    let t = pow2(u) as int;
    if q >= 0 {
        let n = c * pow10(q as nat) * pow2(u);
        pow10_adds((len - 1) as nat, q as nat);
        pow10_grows(400, (len - 1) as nat + q as nat);
        pow10_positive(q as nat);
        let w = pow10(q as nat) as int;
        assert(pow2(1200) * t * 1 <= n) by (nonlinear_arith)
            requires
                n == c * w * t,
                c >= pow10((len - 1) as nat),
                pow10((len - 1) as nat) * w >= pow2(1200),
                w >= 1,
                t >= 1,
        ;
        large_stays_large(p, n, 1, b);
    } else {
        let d = pow10((-q) as nat);
        let n = c * pow2(u);
        let rest = (len - 1 + q) as nat;
        pow10_adds(rest, (-q) as nat);
        assert(rest + (-q) as nat == (len - 1) as nat);
        pow10_grows(400, rest);
        pow10_positive((-q) as nat);
        let w = pow10(rest) as int;
        assert(pow2(1200) * t * d <= n) by (nonlinear_arith)
            requires
                n == c * t,
                c >= w * d,
                w >= pow2(1200),
                d >= 1,
                t >= 1,
        ;
        large_stays_large(p, n, d, b);
    }
}

/// A number far below the range is rounded to nothing.
proof fn tiny_vanishes(p: nat, u: nat, c: nat, q: int, len: nat)
    requires
        0 < p <= 53,
        u <= 1074,
        c < pow10(len),
        len + q < -400,
    ensures
        decimal_nearest(p, u, c, q) == (0nat, 0nat),
{
    let d = pow10((-q) as nat);
    let n = c * pow2(u);
    let rest = (-q - len) as nat;
    pow10_adds(len, rest);
    assert(len + rest == (-q) as nat);
    pow10_grows(401, rest);
    eight_below_ten(401);
    pow2_grows(u, 1202);
    assert(pow2(1203) == 2 * pow2(1202));
    pow10_positive(len);
    pow10_positive(rest);
    pow2_positive(u);
    let t = pow2(u) as int;
    let a = pow10(len) as int;
    let b = pow10(rest) as int;
    assert(2 * n < d) by (nonlinear_arith)
        requires
            n == c * t,
            d == a * b,
            c < a,
            b >= 2 * t,
            t >= 1,
            c >= 0,
    ;
    below_half_is_nothing(p, n, d);
}

/// Powers of ten that are far out of range make no difference to how a number
/// is read, however far out they are.
pub proof fn far_scales_read_alike(p: nat, u: nat, c: nat, len: nat, near: int, away: int, most: nat)
    requires
        0 < p <= 53,
        u <= 1074,
        most <= 1074 + u,
        c < pow10(len),
        len > 0 ==> c >= pow10((len - 1) as nat),
        (near + len > 400 && away >= near && near >= 0) || (near + len < -400 && away <= near),
    ensures
        decimal_nearest(p, u, c, near).1 > most <==> decimal_nearest(p, u, c, away).1 > most,
        decimal_nearest(p, u, c, near).1 <= most ==> decimal_nearest(p, u, c, near)
            == decimal_nearest(p, u, c, away),
{
    if near >= 0 && near + len > 400 {
        if len > 0 {
            huge_overflows(p, u, c, near, len);
            huge_overflows(p, u, c, away, len);
        } else {
            nothing_reads_as_nothing(p, u, near);
            nothing_reads_as_nothing(p, u, away);
        }
    } else {
        tiny_vanishes(p, u, c, near, len);
        tiny_vanishes(p, u, c, away, len);
    }
}

proof fn nothing_reads_as_nothing(p: nat, u: nat, q: int)
    requires
        p > 0,
    ensures
        decimal_nearest(p, u, 0, q) == (0nat, 0nat),
{
    if q >= 0 {
        let n = 0nat * pow10(q as nat) * pow2(u);
        assert(n == 0) by (nonlinear_arith)
            requires
                n == 0nat * pow10(q as nat) * pow2(u),
        ;
        nearest_is_normal(p, n, 1);
    } else {
        let n = 0nat * pow2(u);
        assert(n == 0) by (nonlinear_arith)
            requires
                n == 0nat * pow2(u),
        ;
        pow10_positive((-q) as nat);
        nearest_is_normal(p, n, pow10((-q) as nat));
    }
}

/// `c * 10^q` rounded to `p` binary digits; none where the power of two is
/// above `most`.
pub fn read_decimal(p: u128, u: u128, c: &Natural, q: i128, most: u128) -> (r: Option<(u64, u128)>)
    requires
        0 < p <= 53,
        u <= 1074,
        most <= 1074 + u,
        -0x1_0000_0000_0000_0000_0000_0000 < q < 0x1_0000_0000_0000_0000_0000_0000,
    ensures
        match r {
            Some((m, k)) => (m as nat, k as nat) == decimal_nearest(p as nat, u as nat, c@, q as int)
                && k <= most,
            None => decimal_nearest(p as nat, u as nat, c@, q as int).1 > most,
        },
{
    let len: usize = c.len();
    if len == 0 {
        proof {
            assert(c@ == 0);
            nothing_reads_as_nothing(p as nat, u as nat, q as int);
        }
        return Some((0, 0));
    }
    let top: i128 = len as i128 + q;
    if top > 400 {
        proof {
            huge_overflows(p as nat, u as nat, c@, q as int, len as nat);
        }
        return None;
    }
    if top < -400 {
        proof {
            tiny_vanishes(p as nat, u as nat, c@, q as int, len as nat);
        }
        return Some((0, 0));
    }
    let (m, k) = read_in_range(p, u, c, q);
    if k > most {
        None
    } else {
        Some((m, k))
    }
}

fn read_in_range(p: u128, u: u128, c: &Natural, q: i128) -> (r: (u64, u128))
    requires
        0 < p <= 53,
        u <= 1074,
        -0x1_0000_0000_0000_0000_0000 < q < 0x1_0000_0000_0000_0000_0000,
    ensures
        (r.0 as nat, r.1 as nat) == decimal_nearest(p as nat, u as nat, c@, q as int),
{
    let one = Natural::from_u128(1);
    if q >= 0 {
        round_ratio(p, &c.raised(q as u128), u, &one)
    } else {
        let d = one.raised((-q) as u128);
        assert(1 * pow10((-q) as nat) == pow10((-q) as nat)) by (nonlinear_arith);
        proof {
            pow10_positive((-q) as nat);
        }
        round_ratio(p, c, u, &d)
    }
}

impl Natural {
    /// The number times ten to the power of `k`.
    pub fn raised(&self, k: u128) -> (r: Natural)
        ensures
            r@ == self@ * pow10(k as nat),
    {
        let mut r = self.copy();
        let mut left: u128 = k;
        assert(self@ * pow10(0) == self@) by (nonlinear_arith)
            requires
                pow10(0) == 1,
        ;
        while left > 0
            invariant
                0 <= left <= k,
                r@ == self@ * pow10((k - left) as nat),
            decreases left,
        {
            let step: usize = if left > 0xffff_ffff {
                0xffff_ffff
            } else {
                left as usize
            };
            proof {
                let a = self@ as int;
                let done = (k - left) as nat;
                pow10_adds(done, step as nat);
                let x = pow10(done) as int;
                let y = pow10(step as nat) as int;
                assert((a * x) * y == a * (x * y)) by (nonlinear_arith);
                assert(done + step as nat == (k - (left - step)) as nat);
            }
            r = r.scaled(step);
            left -= step as u128;
        }
        r
    }
}

// ---------------------------------------------------------------------------
// Writing
// ---------------------------------------------------------------------------

/// `m * 2^k` units in terms of `10^q`, with the powers of two that both sides
/// of the line share taken out.
proof fn without_common_powers(m: nat, k: nat, u: nat, common: nat, q: int)
    requires
        common <= k,
        common <= u,
    ensures
        q >= 0 ==> {
            let d = 1 * pow2((u - common) as nat) * pow10(q as nat);
            &&& upper(u, m, k, q) == m * pow2((k - common) as nat) * pow2(common)
            &&& lower(u, q) == d * pow2(common)
            &&& d > 0
        },
        q < 0 ==> {
            let d = 1 * pow2((u - common) as nat);
            &&& upper(u, m, k, q) == m * pow2((k - common) as nat) * pow10((-q) as nat) * pow2(
                common,
            )
            &&& lower(u, q) == d * pow2(common)
            &&& d > 0
        },
{
    pow2_adds((k - common) as nat, common);
    pow2_adds((u - common) as nat, common);
    pow2_positive((u - common) as nat);
    let (a, b, f) = (
        pow2((k - common) as nat) as int,
        pow2((u - common) as nat) as int,
        pow2(common) as int,
    );
    let x = m as int;
    assert(x * (a * f) == (x * a) * f) by (nonlinear_arith);
    assert(1 * b == b) by (nonlinear_arith);
    if q >= 0 {
        pow10_positive(q as nat);
        let t = pow10(q as nat) as int;
        assert((b * f) * t == ((1 * b) * t) * f) by (nonlinear_arith);
        assert((1 * b) * t > 0) by (nonlinear_arith)
            requires
                b >= 1,
                t >= 1,
        ;
    } else {
        let t = pow10((-q) as nat) as int;
        assert((x * (a * f)) * t == ((x * a) * t) * f) by (nonlinear_arith);
    }
}

/// The multiple of `10^q` that reads as `m * 2^k` units, if one does.
fn find_digits(p: u128, u: u128, m: u64, k: u128, q: i128) -> (r: Option<Natural>)
    requires
        0 < p <= 53,
        u <= 1074,
        -2000 < q < 2000,
    ensures
        match r {
            Some(c) => digits_at(p as nat, u as nat, m as nat, k as nat, q as int) == Some(c@),
            None => digits_at(p as nat, u as nat, m as nat, k as nat, q as int) is None,
        },
{
    let common: u128 = if k <= u {
        k
    } else {
        u
    };
    let one = Natural::from_u128(1);
    let value = Natural::from_u128(m as u128).doubled((k - common) as u128);
    let unit = one.doubled((u - common) as u128);
    let n = if q >= 0 {
        value
    } else {
        value.raised((-q) as u128)
    };
    let d = if q >= 0 {
        unit.raised(q as u128)
    } else {
        unit
    };
    proof {
        without_common_powers(m as nat, k as nat, u as nat, common as nat, q as int);
        pow2_positive(common as nat);
        quotient_cancels(n@, d@, pow2(common as nat));
    }
    let (c, rest) = n.divided(&d);
    proof {
        vstd::arithmetic::div_mod::lemma_fundamental_div_mod_converse(
            n@ as int,
            d@ as int,
            c@ as int,
            rest@ as int,
        );
    }
    let next = c.plus(&one);
    let (m0, k0) = read_in_range(p, u, &c, q);
    let (m1, k1) = read_in_range(p, u, &next, q);
    let below = m0 == m && k0 == k;
    let above = m1 == m && k1 == k;
    if below && above {
        Some(round_half_even(&n, &d))
    } else if below {
        Some(c)
    } else if above {
        Some(next)
    } else {
        None
    }
}

/// No multiple of a power of ten that is more than twice `m * 2^k` units reads
/// as that.
proof fn too_coarse(p: nat, u: nat, m: nat, k: nat, q: int)
    requires
        p > 0,
        m > 0,
        q >= 0,
        pow2(u) * pow10(q as nat) > 2 * (m * pow2(k)),
    ensures
        digits_at(p, u, m, k, q) is None,
{
    let n = m * pow2(k);
    let d = pow2(u) * pow10(q as nat);
    assert(n / d == 0) by {
        vstd::arithmetic::div_mod::lemma_fundamental_div_mod_converse(
            n as int,
            d as int,
            0,
            n as int,
        );
    }
    let zero = 0nat * pow10(q as nat) * pow2(u);
    assert(zero == 0) by (nonlinear_arith)
        requires
            zero == 0nat * pow10(q as nat) * pow2(u),
    ;
    nearest_is_normal(p, zero, 1);
    let one = 1nat * pow10(q as nat) * pow2(u);
    assert(one == d) by (nonlinear_arith)
        requires
            one == 1nat * pow10(q as nat) * pow2(u),
            d == pow2(u) * pow10(q as nat),
    ;
    if nearest(p, one, 1) == (m, k) {
        nearest_is_within_twice(p, one, 1);
        assert(2 * n * 1 == 2 * n) by (nonlinear_arith);
    }
}

/// The shortest decimal number that reads as `m * 2^k` units: its digits and
/// its power of ten.
pub fn shortest_decimal(p: u128, u: u128, m: u64, k: u128) -> (r: (Natural, i128))
    requires
        0 < p <= 53,
        u <= 1074,
        m > 0,
    ensures
        r.0@ == digits(p as nat, u as nat, m as nat, k as nat),
        r.1 == scale(p as nat, u as nat, m as nat, k as nat),
        -1101 <= r.1 <= 310,
{
    let common: u128 = if k <= u {
        k
    } else {
        u
    };
    let twice = Natural::from_u128(m as u128).doubled((k - common) as u128).doubled(1);
    let unit = Natural::from_u128(1).doubled((u - common) as u128);
    let ghost f = pow2(common as nat);
    proof {
        pow2_positive(common as nat);
        pow2_adds((k - common) as nat, common as nat);
        pow2_adds((u - common) as nat, common as nat);
        reveal_with_fuel(pow2, 2);
        assert(pow2(1) == 2);
        let (x, a, b, g) = (
            m as int,
            pow2((k - common) as nat) as int,
            pow2((u - common) as nat) as int,
            f as int,
        );
        assert(((x * a) * 2) * g == 2 * (x * (a * g))) by (nonlinear_arith);
        assert((1 * b) * g == b * g) by (nonlinear_arith);
    }
    let mut q: i128 = 310;
    while q >= 0 && unit.raised(q as u128).order(&twice) == Order::Greater
        invariant
            0 < p <= 53,
            m > 0,
            -1 <= q <= 310,
            f >= 1,
            unit@ * f == pow2(u as nat),
            twice@ * f == 2 * (m * pow2(k as nat)),
            scale(p as nat, u as nat, m as nat, k as nat) == scale_from(
                p as nat,
                u as nat,
                m as nat,
                k as nat,
                q as int,
            ),
        decreases q + 1,
    {
        proof {
            let (x, y, t, g) = (
                unit@ as int,
                twice@ as int,
                pow10(q as nat) as int,
                f as int,
            );
            assert((x * g) * t > y * g) by (nonlinear_arith)
                requires
                    x * t > y,
                    g >= 1,
            ;
        }
        proof {
            too_coarse(p as nat, u as nat, m as nat, k as nat, q as int);
        }
        q -= 1;
    }
    while q >= -1100
        invariant
            0 < p <= 53,
            u <= 1074,
            -1101 <= q <= 310,
            scale(p as nat, u as nat, m as nat, k as nat) == scale_from(
                p as nat,
                u as nat,
                m as nat,
                k as nat,
                q as int,
            ),
        decreases q + 1101,
    {
        match find_digits(p, u, m, k, q) {
            Some(c) => {
                return (c, q);
            },
            None => {},
        }
        q -= 1;
    }
    // Nothing reads as the number down to here.
    match find_digits(p, u, m, k, q) {
        Some(c) => (c, q),
        None => (Natural::zero(), q),
    }
}

} // verus!
