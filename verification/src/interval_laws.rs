//! Spans of time read back as they are spelled.

use vstd::prelude::*;

use crate::calendar_laws::{clock_parts, spelled_clock, two};
use crate::defs::typed_literal::clock_text;
use crate::interval::{
    clock_span, clock_spelled, digits_down, finite, in_two_digits, interval_read, interval_spelled,
    of_unit, past_the_hour, short_digits, signed_as, span_in, unsigned, whole_number, whole_part,
    with_clock, with_unit, IntervalView,
};
use crate::natural::pow10;
use crate::numeric::decimal_reads_back;
use crate::temporal::{clock_micros, first_of, fraction_from};
use crate::text::{ascii_digit, decimal, digit_char, digit_value, digits_value};

verus! {

// ---------------------------------------------------------------------------
// Numbers
// ---------------------------------------------------------------------------

proof fn found_first(s: Seq<char>, c: char, i: int, n: int)
    requires
        0 <= i <= n <= s.len(),
        forall|k: int| i <= k < n ==> #[trigger] s[k] != c,
        n < s.len() ==> s[n] == c,
    ensures
        first_of(s, c, c, i) == n,
    decreases n - i,
{
    if i < n {
        assert(s[i] != c);
        found_first(s, c, i + 1, n);
    }
}

proof fn decimals_are_short(n: nat, k: nat)
    requires
        n < pow10(k),
        k > 0,
    ensures
        1 <= decimal(n).len() <= k,
    decreases k,
{
    if n >= 10 {
        if k == 1 {
            assert(pow10(1) == 10) by {
                reveal_with_fuel(pow10, 2);
            }
        }
        assert(pow10(k) == 10 * pow10((k - 1) as nat));
        decimals_are_short(n / 10, (k - 1) as nat);
    }
}

proof fn ten_billion()
    ensures
        pow10(10) == 10_000_000_000,
{
    reveal_with_fuel(pow10, 11);
}

proof fn decimals_read_back(n: nat)
    requires
        n < 10_000_000_000,
    ensures
        short_digits(decimal(n)),
        digits_value(decimal(n)) == n,
        decimal(n).len() > 0,
        ascii_digit(decimal(n)[0]),
{
    ten_billion();
    decimals_are_short(n, 10);
    decimal_reads_back(n);
    assert forall|i: int| 0 <= i < decimal(n).len() implies ascii_digit(
        #[trigger] decimal(n)[i],
    ) by {}
}

/// A number with its sign, a plus only where it has to be said.
spec fn number(n: int, negative: bool) -> Seq<char> {
    if n < 0 {
        "-"@ + decimal((-n) as nat)
    } else if negative {
        "+"@ + decimal(n as nat)
    } else {
        decimal(n as nat)
    }
}

/// The text starts like a number.
spec fn starts_with_number(s: Seq<char>) -> bool {
    s.len() > 0 && (ascii_digit(s[0]) || (s.len() > 1 && (s[0] == '-' || s[0] == '+')
        && ascii_digit(s[1])))
}

proof fn numbers_read_back(n: int, negative: bool)
    requires
        -10_000_000_000 < n < 10_000_000_000,
    ensures
        whole_number(number(n, negative)) == Some(n),
        number(n, negative).len() > 0,
        forall|i: int| 0 <= i < number(n, negative).len() ==> #[trigger] number(n, negative)[i] != ' ',
        starts_with_number(number(n, negative)),
{
    reveal_strlit("-");
    reveal_strlit("+");
    let m = if n < 0 {
        (-n) as nat
    } else {
        n as nat
    };
    let d = decimal(m);
    let s = number(n, negative);
    decimals_read_back(m);
    if n < 0 || negative {
        assert(s[1] == d[0]);
        assert(s.skip(1) =~= d);
        assert forall|i: int| 0 <= i < s.len() implies #[trigger] s[i] != ' ' by {
            if i > 0 {
                assert(s[i] == d[i - 1]);
                assert(ascii_digit(d[i - 1]));
            }
        }
    } else {
        assert forall|i: int| 0 <= i < s.len() implies #[trigger] s[i] != ' ' by {
            assert(ascii_digit(d[i]));
        }
    }
}

// ---------------------------------------------------------------------------
// Numbers with units
// ---------------------------------------------------------------------------

/// `s` is the beginning of a span that is worth `v` in `k` parts, whatever
/// follows, and also where nothing does.
#[verifier::opaque]
spec fn leads(s: Seq<char>, v: (int, int, int), k: nat) -> bool {
    &&& starts_with_number(s)
    &&& forall|p: nat| p >= k ==> #[trigger] span_in(s, p) == Some(v)
    &&& forall|x: Seq<char>, p: nat| #[trigger]
        span_in(s + (seq![' '] + x), p + k) == match span_in(x, p) {
            Some(b) => Some((v.0 + b.0, v.1 + b.1, v.2 + b.2)),
            None => None,
        }
}

spec fn unit_word(n: int, unit: Seq<char>) -> Seq<char> {
    unit + (if n == 1 {
        ""@
    } else {
        "s"@
    })
}

proof fn words_name_units(n: int, unit: Seq<char>)
    requires
        unit == "year"@ || unit == "mon"@ || unit == "day"@,
    ensures
        of_unit(n, unit_word(n, unit)) == Some(
            if unit == "year"@ {
                (12 * n, 0int, 0int)
            } else if unit == "mon"@ {
                (n, 0int, 0int)
            } else {
                (0int, n, 0int)
            },
        ),
        forall|i: int| 0 <= i < unit_word(n, unit).len() ==> #[trigger] unit_word(n, unit)[i] != ' ',
        unit_word(n, unit).len() > 0,
{
    reveal_strlit("year");
    reveal_strlit("mon");
    reveal_strlit("day");
    reveal_strlit("years");
    reveal_strlit("mons");
    reveal_strlit("days");
    reveal_strlit("s");
    reveal_strlit("");
    let w = unit_word(n, unit);
    assert("year"@ + "s"@ =~= "years"@ && "year"@ + ""@ =~= "year"@);
    assert("mon"@ + "s"@ =~= "mons"@ && "mon"@ + ""@ =~= "mon"@);
    assert("day"@ + "s"@ =~= "days"@ && "day"@ + ""@ =~= "day"@);
    assert("year"@[0] == 'y' && "mon"@[0] == 'm' && "day"@[0] == 'd' && "years"@[0] == 'y'
        && "mons"@[0] == 'm' && "days"@[0] == 'd');
    assert(w.len() <= 5);
    assert forall|i: int| 0 <= i < w.len() implies #[trigger] w[i] != ' ' by {
        assert(i == 0 || i == 1 || i == 2 || i == 3 || i == 4);
    }
}

proof fn unit_leads(n: int, negative: bool, unit: Seq<char>)
    requires
        -10_000_000_000 < n < 10_000_000_000,
        unit == "year"@ || unit == "mon"@ || unit == "day"@,
    ensures
        leads(
            number(n, negative) + (seq![' '] + unit_word(n, unit)),
            of_unit(n, unit_word(n, unit))->0,
            1,
        ),
{
    reveal(leads);
    let (a, w) = (number(n, negative), unit_word(n, unit));
    let s = a + (seq![' '] + w);
    let v = of_unit(n, w)->0;
    numbers_read_back(n, negative);
    words_name_units(n, unit);
    assert(s[0] == a[0]);
    assert(a.len() > 1 ==> s[1] == a[1]);
    assert forall|p: nat| p >= 1 implies #[trigger] span_in(s, p) == Some(v) by {
        assert(s[a.len() as int] == ' ');
        assert forall|k: int| 0 <= k < a.len() implies #[trigger] s[k] != ' ' by {
            assert(s[k] == a[k]);
        }
        found_first(s, ' ', 0, a.len() as int);
        assert(s.take(a.len() as int) =~= a);
        assert(s.skip(a.len() as int + 1) =~= w);
        found_first(w, ' ', 0, w.len() as int);
        assert(w.take(w.len() as int) =~= w);
    }
    assert forall|x: Seq<char>, p: nat| #[trigger]
        span_in(s + (seq![' '] + x), p + 1) == match span_in(x, p) {
            Some(b) => Some((v.0 + b.0, v.1 + b.1, v.2 + b.2)),
            None => None,
        } by {
        let t = s + (seq![' '] + x);
        let rest = w + (seq![' '] + x);
        assert(t[a.len() as int] == ' ');
        assert forall|k: int| 0 <= k < a.len() implies #[trigger] t[k] != ' ' by {
            assert(t[k] == a[k]);
        }
        found_first(t, ' ', 0, a.len() as int);
        assert(t.take(a.len() as int) =~= a);
        assert(t.skip(a.len() as int + 1) =~= rest);
        assert(rest[w.len() as int] == ' ');
        assert forall|k: int| 0 <= k < w.len() implies #[trigger] rest[k] != ' ' by {
            assert(rest[k] == w[k]);
        }
        found_first(rest, ' ', 0, w.len() as int);
        assert(rest.take(w.len() as int) =~= w);
        assert(rest.skip(w.len() as int + 1) =~= x);
        assert((p + 1 - 1) as nat == p);
    }
}

proof fn leads_on(s: Seq<char>, v: (int, int, int), k: nat, w: Seq<char>, u: (int, int, int))
    requires
        leads(s, v, k),
        leads(w, u, 1),
    ensures
        leads(s + (seq![' '] + w), (v.0 + u.0, v.1 + u.1, v.2 + u.2), k + 1),
{
    reveal(leads);
    let t = s + (seq![' '] + w);
    let sum = (v.0 + u.0, v.1 + u.1, v.2 + u.2);
    assert(t[0] == s[0]);
    assert(s.len() > 1 ==> t[1] == s[1]);
    assert forall|p: nat| p >= k + 1 implies #[trigger] span_in(t, p) == Some(sum) by {
        let q = (p - k) as nat;
        assert(q + k == p);
        assert(span_in(w, q) == Some(u));
        assert(span_in(s + (seq![' '] + w), q + k) == Some(sum));
    }
    assert forall|x: Seq<char>, p: nat| #[trigger]
        span_in(t + (seq![' '] + x), p + (k + 1)) == match span_in(x, p) {
            Some(b) => Some((sum.0 + b.0, sum.1 + b.1, sum.2 + b.2)),
            None => None,
        } by {
        let y = w + (seq![' '] + x);
        assert(t + (seq![' '] + x) =~= s + (seq![' '] + y));
        let q = p + 1;
        assert(q + k == p + (k + 1));
        assert(span_in(s + (seq![' '] + y), q + k) == match span_in(y, q) {
            Some(b) => Some((v.0 + b.0, v.1 + b.1, v.2 + b.2)),
            None => None,
        });
        assert(span_in(w + (seq![' '] + x), p + 1) == match span_in(x, p) {
            Some(b) => Some((u.0 + b.0, u.1 + b.1, u.2 + b.2)),
            None => None,
        });
    }
}

/// Nothing, or the beginning of a span.
spec fn begins(s: Seq<char>, v: (int, int, int), k: nat) -> bool {
    if s.len() == 0 {
        v == (0int, 0int, 0int)
    } else {
        leads(s, v, k)
    }
}

proof fn unit_is_added(s: Seq<char>, n: int, unit: Seq<char>, negative: bool)
    requires
        n != 0,
    ensures
        ({
            let w = number(n, negative) + (seq![' '] + unit_word(n, unit));
            with_unit(s, n, unit, negative) == if s.len() == 0 {
                w
            } else {
                s + (seq![' '] + w)
            }
        }),
{
    reveal_strlit(" ");
    assert(" "@ =~= seq![' ']);
    let w = number(n, negative) + (seq![' '] + unit_word(n, unit));
    let t = with_unit(s, n, unit, negative);
    if s.len() == 0 {
        assert(t =~= w);
    } else {
        assert(t =~= s + (seq![' '] + w));
    }
}

proof fn unit_goes_on(
    s: Seq<char>,
    v: (int, int, int),
    k: nat,
    n: int,
    unit: Seq<char>,
    negative: bool,
) -> (j: nat)
    requires
        begins(s, v, k),
        -10_000_000_000 < n < 10_000_000_000,
        unit == "year"@ || unit == "mon"@ || unit == "day"@,
    ensures
        ({
            let u = of_unit(n, unit_word(n, unit))->0;
            begins(with_unit(s, n, unit, negative), (v.0 + u.0, v.1 + u.1, v.2 + u.2), j)
        }),
        j <= k + 1,
{
    words_name_units(n, unit);
    let u = of_unit(n, unit_word(n, unit))->0;
    if n == 0 {
        assert((v.0 + u.0, v.1 + u.1, v.2 + u.2) == v);
        k
    } else {
        let w = number(n, negative) + (seq![' '] + unit_word(n, unit));
        unit_leads(n, negative, unit);
        unit_is_added(s, n, unit, negative);
        assert(with_unit(s, n, unit, negative).len() > 0) by {
            numbers_read_back(n, negative);
        }
        if s.len() == 0 {
            assert((v.0 + u.0, v.1 + u.1, v.2 + u.2) == u);
            1
        } else {
            leads_on(s, v, k, w, u);
            k + 1
        }
    }
}

// ---------------------------------------------------------------------------
// Clock readings
// ---------------------------------------------------------------------------

proof fn fractions_shift(a: Seq<char>, b: Seq<char>, i: int, unit: int)
    requires
        0 <= i,
    ensures
        fraction_from(a + b, a.len() + i, unit) == fraction_from(b, i, unit),
    decreases b.len() - i,
{
    if i < b.len() {
        assert((a + b)[a.len() + i] == b[i]);
        fractions_shift(a, b, i + 1, unit / 10);
    }
}

proof fn digits_go_down(n: int, unit: int, k: nat)
    requires
        unit == pow10(k),
        0 < n < 10 * unit,
    ensures
        ({
            let d = digits_down(n, unit);
            &&& 1 <= d.len() <= k + 1
            &&& forall|i: int| 0 <= i < d.len() ==> ascii_digit(#[trigger] d[i])
            &&& d.last() != '0'
            &&& fraction_from(d, 0, unit) == n
        }),
    decreases k,
{
    crate::natural::pow10_positive(k);
    let (q, r) = (n / unit, n % unit);
    assert(n == unit * q + r && 0 <= r < unit) by {
        vstd::arithmetic::div_mod::lemma_fundamental_div_mod(n, unit);
        vstd::arithmetic::div_mod::lemma_mod_bound(n, unit);
    }
    assert(0 <= q < 10) by (nonlinear_arith)
        requires
            n == unit * q + r,
            0 <= r < unit,
            0 < n < 10 * unit,
            unit > 0,
    ;
    assert(unit * q == q * unit) by (nonlinear_arith);
    let c = digit_char(q);
    assert(digit_value(c) == q && ascii_digit(c));
    let d = digits_down(n, unit);
    let rest = digits_down(r, unit / 10);
    assert(d == seq![c] + rest);
    fractions_shift(seq![c], rest, 0, unit / 10);
    assert(d[0] == c);
    assert(fraction_from(d, 0, unit) == q * unit + fraction_from(d, 1, unit / 10));
    if r == 0 {
        assert(rest =~= seq![]);
        assert(fraction_from(rest, 0, unit / 10) == 0);
        assert(q != 0) by (nonlinear_arith)
            requires
                n == unit * q,
                n > 0,
        ;
    } else {
        assert(k > 0) by {
            if k == 0 {
                assert(pow10(0) == 1);
            }
        }
        assert(pow10(k) == 10 * pow10((k - 1) as nat));
        assert(unit / 10 == pow10((k - 1) as nat));
        digits_go_down(r, unit / 10, (k - 1) as nat);
        assert(d.last() == rest.last());
        assert forall|i: int| 0 <= i < d.len() implies ascii_digit(#[trigger] d[i]) by {
            if i > 0 {
                assert(d[i] == rest[i - 1]);
            }
        }
    }
}

proof fn two_digits_are_two(n: nat)
    requires
        n < 100,
    ensures
        in_two_digits(n) == two(n as int),
{
    reveal_strlit("0");
    reveal_with_fuel(decimal, 3);
    assert(in_two_digits(n) =~= two(n as int));
}

proof fn hours_read_back(n: nat)
    requires
        n < 10_000_000_000,
    ensures
        short_digits(in_two_digits(n)),
        digits_value(in_two_digits(n)) == n,
        in_two_digits(n).len() > 0,
{
    decimals_read_back(n);
    if n < 10 {
        reveal_strlit("0");
        let d = decimal(n);
        let s = "0"@ + d;
        assert(d.len() == 1);
        assert(s.len() == 2 && s[0] == '0' && s[1] == d[0]);
        assert(s.drop_last() =~= "0"@);
        assert("0"@.drop_last() =~= seq![]);
        reveal_with_fuel(digits_value, 2);
        assert(digits_value("0"@) == 0);
        assert(d.drop_last() =~= seq![]);
        assert(digits_value(s) == digit_value(d[0]));
        assert(digits_value(d) == digit_value(d[0]));
        assert forall|i: int| 0 <= i < s.len() implies ascii_digit(#[trigger] s[i]) by {
            assert(i == 0 || i == 1);
        }
    }
}

/// The fraction of a clock reading, with its dot.
spec fn fraction_of(micros: nat) -> Seq<char> {
    if micros % 1_000_000 == 0 {
        ""@
    } else {
        "."@ + digits_down((micros % 1_000_000) as int, 100_000)
    }
}

proof fn minutes_read_back(micros: nat)
    ensures
        ({
            let s = micros / 1_000_000;
            let t = in_two_digits(s / 60 % 60) + (seq![':'] + (in_two_digits(s % 60) + fraction_of(
                micros,
            )));
            &&& clock_text(past_the_hour(t))
            &&& clock_micros(past_the_hour(t)) == (s / 60 % 60 * 60 + s % 60) * 1_000_000 + micros
                % 1_000_000
        }),
{
    let s = micros / 1_000_000;
    let (m, c) = (s / 60 % 60, s % 60);
    let f = fraction_of(micros);
    let t = in_two_digits(m) + (seq![':'] + (in_two_digits(c) + f));
    two_digits_are_two(m);
    two_digits_are_two(c);
    let whole = past_the_hour(t);
    reveal_strlit("");
    reveal_strlit(".");
    assert(two(0) =~= seq!['0', '0']);
    assert(whole =~= spelled_clock(0, m as int, c as int) + f);
    clock_parts(0, m as int, c as int, f);
    if micros % 1_000_000 != 0 {
        let d = digits_down((micros % 1_000_000) as int, 100_000);
        assert(pow10(5) == 100_000) by {
            reveal_with_fuel(pow10, 6);
        }
        digits_go_down((micros % 1_000_000) as int, 100_000, 5);
        assert(whole[8] == whole.skip(8)[0]);
        assert(whole.skip(9) =~= d);
        let head = whole.take(9);
        assert(head + d =~= whole);
        fractions_shift(head, d, 0, 100_000);
    }
}

/// A clock reading with its sign, a plus only where it has to be said.
spec fn clock_piece(n: int, negative: bool) -> Seq<char> {
    if n < 0 {
        "-"@ + clock_spelled((-n) as nat)
    } else if negative {
        "+"@ + clock_spelled(n as nat)
    } else {
        clock_spelled(n as nat)
    }
}

/// A clock reading, its hours apart.
proof fn clock_comes_apart(m: nat)
    ensures
        ({
            let seconds = m / 1_000_000;
            clock_spelled(m) == in_two_digits(seconds / 3600) + (seq![':'] + (in_two_digits(
                seconds / 60 % 60,
            ) + (seq![':'] + (in_two_digits(seconds % 60) + fraction_of(m)))))
        }),
{
    reveal_strlit(":");
    let seconds = m / 1_000_000;
    assert(":"@ =~= seq![':']);
    assert(clock_spelled(m) =~= in_two_digits(seconds / 3600) + (seq![':'] + (in_two_digits(
        seconds / 60 % 60,
    ) + (seq![':'] + (in_two_digits(seconds % 60) + fraction_of(m))))));
}

proof fn clock_bodies_read_back(m: nat, s: Seq<char>)
    requires
        m < 10_000_000_000_000_000_000,
        unsigned(s) == clock_spelled(m),
    ensures
        clock_span(s) == Some(signed_as(s, m as int)),
{
    let body = clock_spelled(m);
    let seconds = m / 1_000_000;
    let h = in_two_digits(seconds / 3600);
    let rest = in_two_digits(seconds / 60 % 60) + (seq![':'] + (in_two_digits(seconds % 60)
        + fraction_of(m)));
    clock_comes_apart(m);
    hours_read_back(seconds / 3600);
    minutes_read_back(m);
    assert forall|k: int| 0 <= k < h.len() implies #[trigger] body[k] != ':' by {
        assert(body[k] == h[k]);
        assert(ascii_digit(h[k]));
    }
    assert(body[h.len() as int] == ':');
    found_first(body, ':', 0, h.len() as int);
    assert(body.take(h.len() as int) =~= h);
    assert(body.skip(h.len() as int + 1) =~= rest);
    assert(m == seconds * 1_000_000 + m % 1_000_000);
    assert(seconds == seconds / 3600 * 3600 + seconds / 60 % 60 * 60 + seconds % 60);
}

proof fn clocks_read_back(n: int, negative: bool)
    requires
        -10_000_000_000_000_000_000 < n < 10_000_000_000_000_000_000,
    ensures
        clock_span(clock_piece(n, negative)) == Some(n),
        forall|i: int|
            0 <= i < clock_piece(n, negative).len() ==> #[trigger] clock_piece(n, negative)[i]
                != ' ',
        starts_with_number(clock_piece(n, negative)),
{
    reveal_strlit("-");
    reveal_strlit("+");
    let m = if n < 0 {
        (-n) as nat
    } else {
        n as nat
    };
    let s = clock_piece(n, negative);
    let body = clock_spelled(m);
    let h = in_two_digits(m / 1_000_000 / 3600);
    assert(h.len() > 0 && ascii_digit(h[0])) by {
        hours_read_back(m / 1_000_000 / 3600);
    }
    assert(body.len() > 0 && body[0] == h[0]) by {
        clock_comes_apart(m);
    }
    clock_has_no_blank(m);
    if n < 0 || negative {
        assert(s.skip(1) =~= body);
        assert(s[1] == body[0]);
        assert forall|i: int| 0 <= i < s.len() implies #[trigger] s[i] != ' ' by {
            if i > 0 {
                assert(s[i] == body[i - 1]);
            }
        }
    }
    assert(unsigned(s) == body);
    clock_bodies_read_back(m, s);
}

proof fn clock_has_no_blank(m: nat)
    requires
        m < 10_000_000_000_000_000_000,
    ensures
        forall|i: int| 0 <= i < clock_spelled(m).len() ==> #[trigger] clock_spelled(m)[i] != ' ',
{
    reveal_strlit(":");
    reveal_strlit(".");
    reveal_strlit("");
    let seconds = m / 1_000_000;
    let (h, a, b) = (
        in_two_digits(seconds / 3600),
        in_two_digits(seconds / 60 % 60),
        in_two_digits(seconds % 60),
    );
    hours_read_back(seconds / 3600);
    hours_read_back(seconds / 60 % 60);
    hours_read_back(seconds % 60);
    let f = fraction_of(m);
    if m % 1_000_000 != 0 {
        assert(pow10(5) == 100_000) by {
            reveal_with_fuel(pow10, 6);
        }
        digits_go_down((m % 1_000_000) as int, 100_000, 5);
    }
    let s = clock_spelled(m);
    assert(s =~= h + seq![':'] + a + seq![':'] + b + f);
    assert forall|i: int| 0 <= i < s.len() implies #[trigger] s[i] != ' ' by {
        let (x, y, z) = (h.len() as int, a.len() as int, b.len() as int);
        if i < x {
            assert(s[i] == h[i] && ascii_digit(h[i]));
        } else if i == x {
        } else if i < x + 1 + y {
            assert(s[i] == a[i - x - 1] && ascii_digit(a[i - x - 1]));
        } else if i == x + 1 + y {
        } else if i < x + y + z + 2 {
            assert(s[i] == b[i - x - y - 2] && ascii_digit(b[i - x - y - 2]));
        } else {
            let j = i - x - y - z - 2;
            assert(s[i] == f[j]);
            if j > 0 {
                assert(f[j] == digits_down((m % 1_000_000) as int, 100_000)[j - 1]);
            }
        }
    }
}

// ---------------------------------------------------------------------------
// Spans
// ---------------------------------------------------------------------------

/// Whatever span can be held reads back from its spelling.
pub proof fn spans_read_back(v: IntervalView)
    requires
        v matches IntervalView::Finite { months, days, micros } ==> finite(months, days, micros)
            == Some(v),
    ensures
        interval_read(interval_spelled(v)) == Some(v),
{
    reveal(interval_read);
    reveal(interval_spelled);
    reveal_strlit("infinity");
    reveal_strlit("-infinity");
    assert("infinity"@[0] == 'i' && "-infinity"@[0] == '-' && "-infinity"@[1] == 'i');
    assert("infinity"@.len() == 8 && "-infinity"@.len() == 9);
    if let IntervalView::Finite { months, days, micros } = v {
        let years = whole_part(months, 12);
        let mons = months - 12 * years;
        assert(-12 < mons < 12);
        reveal_strlit("");
        let none = (0int, 0int, 0int);
        assert(""@.len() == 0);
        words_name_units(years, "year"@);
        words_name_units(mons, "mon"@);
        words_name_units(days, "day"@);
        reveal_strlit("year");
        reveal_strlit("mon");
        reveal_strlit("day");
        assert("year"@.len() == 4 && "mon"@.len() == 3 && "day"@.len() == 3);
        assert("mon"@[0] == 'm' && "day"@[0] == 'd');
        let a = unit_goes_on(""@, none, 0, years, "year"@, false);
        let s1 = with_unit(""@, years, "year"@, false);
        let v1 = (12 * years, 0int, 0int);
        let b = unit_goes_on(s1, v1, a, mons, "mon"@, months < 0);
        let s2 = with_unit(s1, mons, "mon"@, months < 0);
        let v2 = (12 * years + mons, 0int, 0int);
        let c = unit_goes_on(s2, v2, b, days, "day"@, months < 0);
        let s3 = with_unit(s2, days, "day"@, months < 0);
        let v3 = (months, days, 0int);
        assert(begins(s3, v3, c));
        span_ends(s3, v3, c, micros, if days != 0 {
            days < 0
        } else {
            months < 0
        });
    }
}

proof fn span_ends(s: Seq<char>, v: (int, int, int), k: nat, micros: int, negative: bool)
    requires
        begins(s, v, k),
        k <= 3,
        v.2 == 0,
        -10_000_000_000_000_000_000 < micros < 10_000_000_000_000_000_000,
    ensures
        span_in(with_clock(s, micros, negative), 4) == Some((v.0, v.1, micros)),
        starts_with_number(with_clock(s, micros, negative)),
{
    reveal(leads);
    reveal_strlit(" ");
    assert(" "@ =~= seq![' ']);
    clocks_read_back(micros, negative);
    let c = clock_piece(micros, negative);
    let t = with_clock(s, micros, negative);
    found_first(c, ' ', 0, c.len() as int);
    if s.len() == 0 {
        assert(t =~= c);
        assert(span_in(c, 4) == Some((0int, 0int, micros)));
    } else if micros == 0 {
        assert(span_in(s, 4) == Some(v));
    } else {
        assert(t =~= s + (seq![' '] + c));
        let p = (4 - k) as nat;
        assert(span_in(c, p) == Some((0int, 0int, micros)));
        assert(p + k == 4);
        assert(span_in(s + (seq![' '] + c), p + k) == Some((v.0 + 0, v.1 + 0, v.2 + micros)));
        assert(t[0] == s[0]);
        assert(s.len() > 1 ==> t[1] == s[1]);
    }
}

} // verus!
