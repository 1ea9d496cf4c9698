//! What is written for a floating-point value reads back as the value.

use vstd::prelude::*;

use crate::binary::{
    bits, bits_bound, half_even_is_near, nearest, nearest_is_exact, nearest_is_normal,
    nearest_is_within_twice, normal, pow2, pow2_adds, pow2_grows, pow2_positive,
};
use crate::float::{
    carried, carried_is_narrowed_back, narrowed, rounded, Float, FloatView, FloatWidth,
};
use crate::float_text::{
    at_width, decimal_of_text, exponent_of, fits, formatted, marker_at, reading, rendered, signed,
    two_digits, DecimalView, Reading,
};
use crate::natural::{pow10, pow10_positive};
use crate::numeric::{
    decimal_reads_back, dot_at_is, leading_zeros_count_nothing, numeral, only_digits, zeros,
};
use crate::shortest::{
    decimal_nearest, digits, digits_at, lower, scale, scale_from, upper,
};
use crate::text;
use crate::text::{decimal, digits_value};

verus! {

// ---------------------------------------------------------------------------
// The shortest decimal number
// ---------------------------------------------------------------------------

/// Ten to the power of `n` holds two to the power of `n`.
proof fn ten_is_even(n: nat) -> (f: nat)
    ensures
        pow10(n) == pow2(n) * f,
        f >= 1,
    decreases n,
{
    if n == 0 {
        1
    } else {
        let g = ten_is_even((n - 1) as nat);
        let t = pow2((n - 1) as nat) as int;
        assert(10 * (t * g) == (2 * t) * (5 * g)) by (nonlinear_arith);
        5 * g
    }
}

/// Fine enough decimal places hold every value exactly.
proof fn fine_digits_exist(p: nat, u: nat, m: nat, k: nat)
    requires
        p > 0,
        u > 0,
        normal(p, m, k),
    ensures
        digits_at(p, u, m, k, -(u as int)) is Some,
{
    let q = -(u as int);
    let f = ten_is_even(u);
    let v = m * pow2(k);
    let c = v * f;
    let n = upper(u, m, k, q);
    let d = lower(u, q);
    pow2_positive(u);
    pow10_positive(u);
    assert(n == c * d) by (nonlinear_arith)
        requires
            n == v * pow10(u),
            pow10(u) == pow2(u) * f,
            d == pow2(u),
            c == v * f,
    ;
    vstd::arithmetic::div_mod::lemma_fundamental_div_mod_converse(n as int, d as int, c as int, 0);
    assert(c * pow2(u) == v * pow10(u)) by (nonlinear_arith)
        requires
            pow10(u) == pow2(u) * f,
            c == v * f,
    ;
    nearest_is_exact(p, m, k, pow10(u));
}

proof fn scale_is_found(p: nat, u: nat, m: nat, k: nat, q: int)
    requires
        p > 0,
        0 < u <= 1074,
        normal(p, m, k),
        q >= -(u as int),
    ensures
        digits_at(p, u, m, k, scale_from(p, u, m, k, q)) is Some,
        -(u as int) <= scale_from(p, u, m, k, q) <= q,
    decreases q + u,
{
    if q == -(u as int) {
        fine_digits_exist(p, u, m, k);
    } else if digits_at(p, u, m, k, q) is None {
        scale_is_found(p, u, m, k, q - 1);
    }
}

/// The shortest decimal number reads as the value that it was found for.
pub proof fn shortest_reads_back(p: nat, u: nat, m: nat, k: nat)
    requires
        p > 0,
        0 < u <= 1074,
        normal(p, m, k),
        m > 0,
    ensures
        decimal_nearest(p, u, digits(p, u, m, k), scale(p, u, m, k)) == (m, k),
        digits(p, u, m, k) > 0,
        -(u as int) <= scale(p, u, m, k) <= 310,
{
    scale_is_found(p, u, m, k, 310);
    let q = scale(p, u, m, k);
    let n = upper(u, m, k, q);
    let d = lower(u, q);
    pow2_positive(u);
    if q >= 0 {
        pow10_positive(q as nat);
        assert(pow2(u) * pow10(q as nat) > 0) by (nonlinear_arith)
            requires
                pow2(u) >= 1,
                pow10(q as nat) >= 1,
        ;
    }
    half_even_is_near(n, d);
    let c = digits(p, u, m, k);
    if c == 0 {
        if q >= 0 {
            let z = 0nat * pow10(q as nat) * pow2(u);
            assert(z == 0) by (nonlinear_arith)
                requires
                    z == 0nat * pow10(q as nat) * pow2(u),
            ;
            nearest_is_normal(p, z, 1);
        } else {
            let z = 0nat * pow2(u);
            assert(z == 0) by (nonlinear_arith)
                requires
                    z == 0nat * pow2(u),
            ;
            pow10_positive((-q) as nat);
            nearest_is_normal(p, z, pow10((-q) as nat));
        }
    }
}

// ---------------------------------------------------------------------------
// Digits
// ---------------------------------------------------------------------------

proof fn trailing_zeros_multiply(s: Seq<char>, n: nat)
    requires
        only_digits(s),
    ensures
        only_digits(s + zeros(n)),
        digits_value(s + zeros(n)) == digits_value(s) * pow10(n),
    decreases n,
{
    let all = s + zeros(n);
    if n == 0 {
        assert(all =~= s);
        assert(digits_value(s) * pow10(0) == digits_value(s)) by (nonlinear_arith)
            requires
                pow10(0) == 1,
        ;
    } else {
        trailing_zeros_multiply(s, (n - 1) as nat);
        assert(all.drop_last() =~= s + zeros((n - 1) as nat));
        let a = digits_value(s) as int;
        let t = pow10((n - 1) as nat) as int;
        assert(10 * (a * t) == a * (10 * t)) by (nonlinear_arith);
        assert forall|i: int| 0 <= i < all.len() implies text::ascii_digit(#[trigger] all[i]) by {
            if i < s.len() {
                assert(text::ascii_digit(s[i]));
            }
        }
    }
}

proof fn marker_is(s: Seq<char>, i: int, at: int)
    requires
        0 <= i <= at <= s.len(),
        forall|j: int| i <= j < at ==> s[j] != 'e' && s[j] != 'E',
        at < s.len() ==> s[at] == 'e',
    ensures
        marker_at(s, i) == at,
    decreases at - i,
{
    if i < at {
        marker_is(s, i + 1, at);
    }
}

proof fn two_digits_read_back(n: nat)
    ensures
        only_digits(two_digits(n)),
        two_digits(n).len() > 0,
        digits_value(two_digits(n)) == n,
{
    decimal_reads_back(n);
    text::decimal_is_digits(n);
    if n < 10 {
        reveal_strlit("0");
        assert("0"@ =~= zeros(1));
        leading_zeros_count_nothing(1, decimal(n));
    }
}

proof fn exponents_read_back(e: int)
    ensures
        exponent_of("-"@ + two_digits(e as nat)) == Some(-(e as nat as int)),
        exponent_of("+"@ + two_digits(e as nat)) == Some(e as nat as int),
{
    reveal_strlit("-");
    reveal_strlit("+");
    let t = two_digits(e as nat);
    two_digits_read_back(e as nat);
    assert(("-"@ + t).skip(1) =~= t);
    assert(("+"@ + t).skip(1) =~= t);
}

// ---------------------------------------------------------------------------
// Texts
// ---------------------------------------------------------------------------

/// Digits with a dot among them are those digits.
proof fn dotted_reads_back(whole: Seq<char>, fraction: Seq<char>)
    requires
        only_digits(whole),
        only_digits(fraction),
        whole.len() > 0,
    ensures
        numeral(whole + "."@ + fraction) == Some((whole + fraction, fraction.len())),
{
    reveal_strlit(".");
    let s = whole + "."@ + fraction;
    assert forall|i: int| 0 <= i < whole.len() implies s[i] != '.' by {
        assert(s[i] == whole[i]);
        assert(text::ascii_digit(whole[i]));
    }
    dot_at_is(s, whole.len() as int);
    assert(s.take(whole.len() as int) =~= whole);
    assert(s.skip(whole.len() as int + 1) =~= fraction);
}

/// Digits without a dot are those digits.
proof fn undotted_reads_back(s: Seq<char>)
    requires
        only_digits(s),
        s.len() > 0,
    ensures
        numeral(s) == Some((s, 0nat)),
{
    assert forall|i: int| 0 <= i < s.len() implies s[i] != '.' by {
        assert(text::ascii_digit(s[i]));
    }
    dot_at_is(s, s.len() as int);
    assert(s.take(s.len() as int) =~= s);
    assert(s + Seq::<char>::empty() =~= s);
}

/// Every character is a digit or a dot.
spec fn plain(s: Seq<char>) -> bool {
    forall|i: int| 0 <= i < s.len() ==> text::ascii_digit(#[trigger] s[i]) || s[i] == '.'
}

/// The number that a text without an exponent spells.
proof fn plain_reads(negative: bool, body: Seq<char>, ds: Seq<char>, places: nat)
    requires
        plain(body),
        body.len() > 0,
        numeral(body) == Some((ds, places)),
    ensures
        decimal_of_text(signed(negative, body)) == Some(
            (DecimalView { negative, digits: digits_value(ds), scale: -(places as int) }),
        ),
{
    reveal_strlit("-");
    let s = signed(negative, body);
    let from = if negative {
        1int
    } else {
        0
    };
    assert(s.skip(from) =~= body);
    if !negative {
        assert(text::ascii_digit(body[0]) || body[0] == '.');
    }
    assert forall|j: int| 0 <= j < body.len() implies body[j] != 'e' && body[j] != 'E' by {
        assert(text::ascii_digit(body[j]) || body[j] == '.');
    }
    marker_is(body, 0, body.len() as int);
    assert(body.take(body.len() as int) =~= body);
}

/// The number that a text with an exponent spells.
proof fn scientific_reads(
    negative: bool,
    head: Seq<char>,
    ds: Seq<char>,
    places: nat,
    down: bool,
    e: nat,
)
    requires
        plain(head),
        head.len() > 0,
        numeral(head) == Some((ds, places)),
    ensures
        ({
            let body = head + (if down {
                "e-"@
            } else {
                "e+"@
            }) + two_digits(e);
            decimal_of_text(signed(negative, body)) == Some(
                (DecimalView {
                    negative,
                    digits: digits_value(ds),
                    scale: (if down {
                        -(e as int)
                    } else {
                        e as int
                    }) - places,
                }),
            )
        }),
{
    reveal_strlit("-");
    reveal_strlit("+");
    reveal_strlit("e-");
    reveal_strlit("e+");
    let mark = if down {
        "e-"@
    } else {
        "e+"@
    };
    let body = head + mark + two_digits(e);
    let s = signed(negative, body);
    let from = if negative {
        1int
    } else {
        0
    };
    assert(s.skip(from) =~= body);
    assert(body[0] == head[0]);
    if !negative {
        assert(text::ascii_digit(head[0]) || head[0] == '.');
    }
    let at = head.len() as int;
    assert forall|j: int| 0 <= j < at implies body[j] != 'e' && body[j] != 'E' by {
        assert(body[j] == head[j]);
        assert(text::ascii_digit(head[j]) || head[j] == '.');
    }
    assert(body[at] == 'e');
    marker_is(body, 0, at);
    assert(body.take(at) =~= head);
    let tail = body.skip(at + 1);
    if down {
        assert(tail =~= "-"@ + two_digits(e));
    } else {
        assert(tail =~= "+"@ + two_digits(e));
    }
    exponents_read_back(e as int);
}

/// What is written for a decimal number reads as that number.
proof fn formatted_reads(w: FloatWidth, negative: bool, c: nat, q: int) -> (d: DecimalView)
    requires
        c > 0,
    ensures
        decimal_of_text(signed(negative, formatted(w, c, q))) == Some(d),
        d.negative == negative,
        (d.digits == c && d.scale == q) || (q >= 0 && d.digits == c * pow10(q as nat) && d.scale
            == 0),
        formatted(w, c, q).len() > 0,
        text::ascii_digit(formatted(w, c, q)[0]),
{
    let s = decimal(c);
    let e = q + s.len() - 1;
    decimal_reads_back(c);
    text::decimal_is_digits(c);
    reveal_strlit(".");
    reveal_strlit("0.");
    reveal_strlit("0");
    let body = formatted(w, c, q);
    if -4 <= e < w.decimal_digits_spec() {
        if e < 0 {
            let z = zeros((-e - 1) as nat);
            let fraction = z + s;
            leading_zeros_count_nothing((-e - 1) as nat, s);
            let whole = zeros(1);
            assert(body =~= whole + "."@ + fraction);
            dotted_reads_back(whole, fraction);
            leading_zeros_count_nothing(1, fraction);
            assert forall|i: int| 0 <= i < body.len() implies text::ascii_digit(#[trigger] body[i])
                || body[i] == '.' by {
                if i > 1 {
                    assert(body[i] == fraction[i - 2]);
                    assert(text::ascii_digit(fraction[i - 2]));
                }
            }
            plain_reads(negative, body, whole + fraction, fraction.len());
            DecimalView { negative, digits: c, scale: q }
        } else if s.len() <= e + 1 {
            let n = (e + 1 - s.len()) as nat;
            trailing_zeros_multiply(s, n);
            undotted_reads_back(body);
            plain_reads(negative, body, body, 0);
            assert(body[0] == s[0]);
            assert(text::ascii_digit(s[0]));
            DecimalView { negative, digits: c * pow10(q as nat), scale: 0 }
        } else {
            let whole = s.take(e + 1);
            let fraction = s.skip(e + 1);
            assert(only_digits(whole)) by {
                assert forall|i: int| 0 <= i < whole.len() implies text::ascii_digit(
                    #[trigger] whole[i],
                ) by {
                    assert(text::ascii_digit(s[i]));
                }
            }
            assert(only_digits(fraction)) by {
                assert forall|i: int| 0 <= i < fraction.len() implies text::ascii_digit(
                    #[trigger] fraction[i],
                ) by {
                    assert(text::ascii_digit(s[i + e + 1]));
                }
            }
            dotted_reads_back(whole, fraction);
            assert(whole + fraction =~= s);
            assert(body =~= whole + "."@ + fraction);
            assert forall|i: int| 0 <= i < body.len() implies text::ascii_digit(#[trigger] body[i])
                || body[i] == '.' by {
                if i < whole.len() {
                    assert(body[i] == whole[i]);
                    assert(text::ascii_digit(whole[i]));
                } else if i > whole.len() {
                    assert(body[i] == fraction[i - whole.len() - 1]);
                    assert(text::ascii_digit(fraction[i - whole.len() - 1]));
                }
            }
            plain_reads(negative, body, s, fraction.len());
            assert(body[0] == whole[0]);
            assert(text::ascii_digit(whole[0]));
            DecimalView { negative, digits: c, scale: q }
        }
    } else {
        let head = if s.len() == 1 {
            s
        } else {
            s.take(1) + "."@ + s.skip(1)
        };
        let places = (s.len() - 1) as nat;
        assert(text::ascii_digit(s[0]));
        if s.len() == 1 {
            undotted_reads_back(s);
        } else {
            let whole = s.take(1);
            let fraction = s.skip(1);
            assert(only_digits(whole)) by {
                assert(whole[0] == s[0]);
            }
            assert(only_digits(fraction)) by {
                assert forall|i: int| 0 <= i < fraction.len() implies text::ascii_digit(
                    #[trigger] fraction[i],
                ) by {
                    assert(text::ascii_digit(s[i + 1]));
                }
            }
            dotted_reads_back(whole, fraction);
            assert(whole + fraction =~= s);
        }
        assert forall|i: int| 0 <= i < head.len() implies text::ascii_digit(#[trigger] head[i])
            || head[i] == '.' by {
            if s.len() == 1 {
                assert(text::ascii_digit(s[i]));
            } else if i == 0 {
                assert(head[0] == s[0]);
            } else if i > 1 {
                assert(head[i] == s[i - 1]);
                assert(text::ascii_digit(s[i - 1]));
            }
        }
        let n = if e < 0 {
            (-e) as nat
        } else {
            e as nat
        };
        scientific_reads(negative, head, s, places, e < 0, n);
        assert(body[0] == head[0]);
        assert(head[0] == s[0]);
        DecimalView { negative, digits: c, scale: q }
    }
}

// ---------------------------------------------------------------------------
// Laws
// ---------------------------------------------------------------------------

proof fn small_stays_small(n: nat, d: nat, b: nat)
    requires
        d > 0,
        n <= pow2(b) * d,
        b >= 53,
    ensures
        nearest(53, n, d).1 <= b,
{
    let z = n / d;
    bits_bound(z);
    if bits(z) > b + 1 {
        pow2_grows(b + 1, (bits(z) - 1) as nat);
        assert(pow2(b + 1) == 2 * pow2(b));
        pow2_positive(b);
        vstd::arithmetic::div_mod::lemma_fundamental_div_mod(n as int, d as int);
        let t = pow2(b) as int;
        assert(d * z > t * d) by (nonlinear_arith)
            requires
                z >= 2 * t,
                t >= 1,
                d > 0,
        ;
    }
}

/// What is in the range of the narrower width is in that of the wider one.
proof fn narrow_range_is_in_wide(d: DecimalView, m: nat, k: nat)
    requires
        decimal_nearest(24, 149, d.digits, d.scale) == (m, k),
        m > 0,
        normal(24, m, k),
        k <= 253,
    ensures
        decimal_nearest(53, 1074, d.digits, d.scale).1 <= 2045,
{
    pow2_grows(k, 253);
    pow2_adds(24, 253);
    pow2_adds(277, 925);
    pow2_adds(149, 925);
    assert(pow2(278) == 2 * pow2(277));
    assert(pow2(1203) == 2 * pow2(1202));
    let v = m * pow2(k);
    assert(v <= pow2(277)) by (nonlinear_arith)
        requires
            v == m * pow2(k),
            m <= pow2(24),
            pow2(k) <= pow2(253),
            pow2(277) == pow2(24) * pow2(253),
    ;
    let c = d.digits;
    let t = pow2(149) as int;
    let far = pow2(925) as int;
    if d.scale >= 0 {
        let x = c * pow10(d.scale as nat);
        let n = x * pow2(149);
        nearest_is_within_twice(24, n, 1);
        let n8 = x * pow2(1074);
        assert(n8 <= pow2(1203) * 1) by (nonlinear_arith)
            requires
                n8 == x * (t * far),
                n == x * t,
                n <= 2 * v * 1,
                v <= pow2(277),
                pow2(1203) == 2 * (pow2(277) * far),
                far >= 0,
        ;
        small_stays_small(n8, 1, 1203);
    } else {
        let b = pow10((-d.scale) as nat);
        pow10_positive((-d.scale) as nat);
        let n = c * pow2(149);
        nearest_is_within_twice(24, n, b);
        let n8 = c * pow2(1074);
        assert(n8 <= pow2(1203) * b) by (nonlinear_arith)
            requires
                n8 == c * (t * far),
                n == c * t,
                n <= 2 * v * b,
                v <= pow2(277),
                pow2(1203) == 2 * (pow2(277) * far),
                far >= 0,
                b > 0,
        ;
        small_stays_small(n8, b, 1203);
    }
}

proof fn same_number_reads_alike(p: nat, u: nat, c: nat, q: int)
    requires
        q >= 0,
    ensures
        decimal_nearest(p, u, c * pow10(q as nat), 0) == decimal_nearest(p, u, c, q),
{
    let x = c * pow10(q as nat);
    assert(x * pow10(0) * pow2(u) == x * pow2(u)) by (nonlinear_arith)
        requires
            pow10(0) == 1,
    ;
}

proof fn not_a_name(negative: bool, body: Seq<char>)
    requires
        body.len() > 0,
        text::ascii_digit(body[0]),
    ensures
        signed(negative, body) != "NaN"@,
        signed(negative, body) != "Infinity"@,
        signed(negative, body) != "-Infinity"@,
{
    reveal_strlit("-");
    reveal_strlit("NaN");
    reveal_strlit("Infinity");
    reveal_strlit("-Infinity");
    let s = signed(negative, body);
    if negative {
        assert(s[0] == '-');
        assert(s[1] == body[0]);
    } else {
        assert(s[0] == body[0]);
    }
}

proof fn infinities_read_back(w: FloatWidth, negative: bool)
    ensures
        reading(signed(negative, "Infinity"@), w) == Reading::Value(
            FloatView::Infinity { negative },
        ),
{
    reveal_strlit("-");
    reveal_strlit("NaN");
    reveal_strlit("Infinity");
    reveal_strlit("-Infinity");
    assert("-"@ + "Infinity"@ =~= "-Infinity"@);
    assert("NaN"@.len() == 3);
    assert("Infinity"@[0] == 'I');
    assert("-Infinity"@[0] == '-');
}

proof fn zeros_read_back(w: FloatWidth, negative: bool)
    ensures
        decimal_of_text(signed(negative, "0"@)) == Some(
            (DecimalView { negative, digits: 0, scale: 0 }),
        ),
        "0"@.len() > 0,
        text::ascii_digit("0"@[0]),
{
    reveal_strlit("0");
    assert("0"@ =~= zeros(1));
    leading_zeros_count_nothing(1, seq![]);
    assert(zeros(1) + Seq::<char>::empty() =~= zeros(1));
    assert(digits_value(seq![]) == 0);
    undotted_reads_back("0"@);
    plain_reads(negative, "0"@, "0"@, 0);
}

/// A text that spells a number which rounds to `m * 2^k` units at the width,
/// and is how that value is written, is read as the value.
proof fn texts_read_back(
    w: FloatWidth,
    negative: bool,
    body: Seq<char>,
    d: DecimalView,
    m: nat,
    k: nat,
)
    requires
        body.len() > 0,
        text::ascii_digit(body[0]),
        decimal_of_text(signed(negative, body)) == Some(d),
        d.negative == negative,
        at_width(w, d) == (m, k),
        at_width(FloatWidth::Float8, d).1 <= 2045,
        normal(w.precision(), m, k),
        k <= w.most(),
        body == (if m == 0 {
            "0"@
        } else {
            formatted(
                w,
                digits(w.precision(), w.unit(), m, k),
                scale(w.precision(), w.unit(), m, k),
            )
        }),
    ensures
        reading(signed(negative, body), w) == Reading::Value(carried(w, negative, (m, k))),
{
    not_a_name(negative, body);
    carried_is_narrowed_back(w, negative, (m, k));
    let v = carried(w, negative, (m, k));
    assert(rendered(w, v) == signed(negative, body));
}

/// What is written for a value of a width reads back, at that width, as the
/// value.
pub proof fn written_values_read_back(w: FloatWidth, f: Float)
    requires
        fits(w, f@),
    ensures
        reading(rendered(w, f@), w) == Reading::Value(rounded(w, f@)),
{
    let v = f@;
    match v {
        FloatView::NaN => {},
        FloatView::Infinity { negative } => {
            infinities_read_back(w, negative);
        },
        FloatView::Finite { negative, .. } => {
            let (m, k) = narrowed(w, v.magnitude());
            pow2_positive(925);
            nearest_is_normal(24, v.magnitude(), pow2(925));
            nearest_is_normal(53, v.magnitude(), 1);
            finite_values_read_back(w, negative, m, k);
        },
    }
}

proof fn finite_values_read_back(w: FloatWidth, negative: bool, m: nat, k: nat)
    requires
        normal(w.precision(), m, k),
        k <= w.most(),
    ensures
        ({
            let body = if m == 0 {
                "0"@
            } else {
                formatted(
                    w,
                    digits(w.precision(), w.unit(), m, k),
                    scale(w.precision(), w.unit(), m, k),
                )
            };
            reading(signed(negative, body), w) == Reading::Value(carried(w, negative, (m, k)))
        }),
{
    let p = w.precision();
    let u = w.unit();
    if m == 0 {
        pow2_positive((p - 1) as nat);
        zeros_read_back(w, negative);
        nothing_reads_as_nothing(p, u);
        nothing_reads_as_nothing(53, 1074);
        let d = DecimalView { negative, digits: 0, scale: 0 };
        texts_read_back(w, negative, "0"@, d, 0, 0);
    } else {
        shortest_reads_back(p, u, m, k);
        let c = digits(p, u, m, k);
        let q = scale(p, u, m, k);
        let d = formatted_reads(w, negative, c, q);
        if d.scale != q || d.digits != c {
            same_number_reads_alike(p, u, c, q);
        }
        assert(at_width(w, d) == (m, k));
        if w == FloatWidth::Float4 {
            narrow_range_is_in_wide(d, m, k);
        }
        texts_read_back(w, negative, formatted(w, c, q), d, m, k);
    }
}

proof fn nothing_reads_as_nothing(p: nat, u: nat)
    requires
        p > 0,
    ensures
        decimal_nearest(p, u, 0, 0) == (0nat, 0nat),
{
    let n = 0nat * pow10(0) * pow2(u);
    assert(n == 0) by (nonlinear_arith)
        requires
            n == 0nat * pow10(0) * pow2(u),
    ;
    nearest_is_normal(p, n, 1);
}

/// A value of the wider width is one that it holds.
pub proof fn wide_values_stay(f: Float)
    ensures
        rounded(FloatWidth::Float8, f@) == f@,
        fits(FloatWidth::Float8, f@),
{
    crate::float::finite_values_are_normal(f);
    if let FloatView::Finite { negative, significand, shift } = f@ {
        assert(significand * pow2(shift) * 1 == significand * pow2(shift)) by (nonlinear_arith);
        nearest_is_exact(53, significand, shift, 1);
    }
}

/// Every value of the wider width is read back from what is written for it.
pub proof fn every_value_is_read_back(f: Float)
    ensures
        reading(rendered(FloatWidth::Float8, f@), FloatWidth::Float8) == Reading::Value(f@),
{
    wide_values_stay(f);
    written_values_read_back(FloatWidth::Float8, f);
}

/// Rounding a value to a width again changes nothing.
pub proof fn rounding_twice_is_rounding_once(w: FloatWidth, v: FloatView)
    ensures
        rounded(w, rounded(w, v)) == rounded(w, v),
{
    if let FloatView::Finite { negative, .. } = v {
        let mk = narrowed(w, v.magnitude());
        pow2_positive(925);
        nearest_is_normal(24, v.magnitude(), pow2(925));
        nearest_is_normal(53, v.magnitude(), 1);
        if mk.1 <= w.most() {
            carried_is_narrowed_back(w, negative, mk);
        }
    }
}

} // verus!
