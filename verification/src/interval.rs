//! Spans of time: reading, adding and spelling them.

use vstd::prelude::*;

use crate::defs::typed_literal::{clock_text, part};
use crate::temporal::{clock_micros, find_either, first_of, micros_of_clock};
use crate::text::{self, decimal, digit_char};

verus! {

/// A span of time. Months, days and microseconds do not turn into each other.
#[verifier::ext_equal]
pub enum IntervalView {
    NegativeInfinity,
    Infinity,
    Finite { months: int, days: int, micros: int },
}

/// A span of time.
#[derive(Clone, Copy, Debug, PartialEq, Eq)]
pub enum Interval {
    NegativeInfinity,
    Infinity,
    Finite { months: i32, days: i32, micros: i64 },
}

impl View for Interval {
    type V = IntervalView;

    open spec fn view(&self) -> IntervalView {
        match self {
            Interval::NegativeInfinity => IntervalView::NegativeInfinity,
            Interval::Infinity => IntervalView::Infinity,
            Interval::Finite { months, days, micros } => IntervalView::Finite {
                months: *months as int,
                days: *days as int,
                micros: *micros as int,
            },
        }
    }
}

/// The span in months, days and microseconds, where its parts are in range.
/// The ends of all three ranges together stand for the infinities.
pub open spec fn finite(months: int, days: int, micros: int) -> Option<IntervalView> {
    if i32::MIN <= months <= i32::MAX && i32::MIN <= days <= i32::MAX && i64::MIN <= micros
        <= i64::MAX && !(months == i32::MAX && days == i32::MAX && micros == i64::MAX) && !(months
        == i32::MIN && days == i32::MIN && micros == i64::MIN) {
        Some(IntervalView::Finite { months, days, micros })
    } else {
        None
    }
}

fn finite_of(months: i128, days: i128, micros: i128) -> (r: Option<Interval>)
    ensures
        match r {
            Some(v) => finite(months as int, days as int, micros as int) == Some(v@),
            None => finite(months as int, days as int, micros as int) is None,
        },
{
    let low: i128 = i32::MIN as i128;
    let high: i128 = i32::MAX as i128;
    let least: i128 = i64::MIN as i128;
    let most: i128 = i64::MAX as i128;
    if months < low || months > high || days < low || days > high || micros < least || micros
        > most || (months == high && days == high && micros == most) || (months == low && days
        == low && micros == least) {
        None
    } else {
        Some(Interval::Finite { months: months as i32, days: days as i32, micros: micros as i64 })
    }
}

// ---------------------------------------------------------------------------
// Adding
// ---------------------------------------------------------------------------

/// The sum of two spans, part by part; none where it is out of range. An
/// infinity takes in everything but its opposite.
pub open spec fn interval_sum(a: IntervalView, b: IntervalView) -> Option<IntervalView> {
    match (a, b) {
        (
            IntervalView::Finite { months, days, micros },
            IntervalView::Finite { months: m, days: d, micros: u },
        ) => finite(months + m, days + d, micros + u),
        (IntervalView::Finite { .. }, _) => Some(b),
        (_, IntervalView::Finite { .. }) => Some(a),
        _ => if a == b {
            Some(a)
        } else {
            None
        },
    }
}

impl Interval {
    /// The sum of two spans, where it is in range.
    pub fn checked_add(&self, other: &Interval) -> (r: Option<Interval>)
        ensures
            match r {
                Some(v) => interval_sum(self@, other@) == Some(v@),
                None => interval_sum(self@, other@) is None,
            },
    {
        match (self, other) {
            (
                Interval::Finite { months, days, micros },
                Interval::Finite { months: m, days: d, micros: u },
            ) => finite_of(
                *months as i128 + *m as i128,
                *days as i128 + *d as i128,
                *micros as i128 + *u as i128,
            ),
            (Interval::Finite { .. }, _) => Some(*other),
            (_, Interval::Finite { .. }) => Some(*self),
            (Interval::Infinity, Interval::Infinity) => Some(*self),
            (Interval::NegativeInfinity, Interval::NegativeInfinity) => Some(*self),
            _ => None,
        }
    }
}

// ---------------------------------------------------------------------------
// Reading
// ---------------------------------------------------------------------------

/// One to ten decimal digits.
pub open spec fn short_digits(s: Seq<char>) -> bool {
    &&& 1 <= s.len() <= 10
    &&& forall|i: int| 0 <= i < s.len() ==> text::ascii_digit(#[trigger] s[i])
}

/// The text without a sign in front.
pub open spec fn unsigned(s: Seq<char>) -> Seq<char> {
    if s.len() > 0 && (s[0] == '-' || s[0] == '+') {
        s.skip(1)
    } else {
        s
    }
}

/// `n`, or its opposite where the text starts with a minus.
pub open spec fn signed_as(s: Seq<char>, n: int) -> int {
    if s.len() > 0 && s[0] == '-' {
        -n
    } else {
        n
    }
}

/// The whole number that the text spells.
pub open spec fn whole_number(s: Seq<char>) -> Option<int> {
    if short_digits(unsigned(s)) {
        Some(signed_as(s, text::digits_value(unsigned(s)) as int))
    } else {
        None
    }
}

/// Minutes and seconds, as a clock shows them at midnight.
pub open spec fn past_the_hour(s: Seq<char>) -> Seq<char> {
    seq!['0', '0', ':'] + s
}

/// The microseconds of hours, minutes and seconds.
pub open spec fn clock_span(s: Seq<char>) -> Option<int> {
    let body = unsigned(s);
    let k = first_of(body, ':', ':', 0);
    if k < body.len() && short_digits(body.take(k)) && clock_text(
        past_the_hour(body.skip(k + 1)),
    ) {
        Some(
            signed_as(
                s,
                text::digits_value(body.take(k)) * 3_600_000_000 + clock_micros(
                    past_the_hour(body.skip(k + 1)),
                ),
            ),
        )
    } else {
        None
    }
}

/// `n` of a unit in months, days and microseconds.
pub open spec fn of_unit(n: int, unit: Seq<char>) -> Option<(int, int, int)> {
    if unit == "year"@ || unit == "years"@ {
        Some((12 * n, 0, 0))
    } else if unit == "mon"@ || unit == "mons"@ {
        Some((n, 0, 0))
    } else if unit == "day"@ || unit == "days"@ {
        Some((0, n, 0))
    } else {
        None
    }
}

/// What a number and a unit stand for.
pub open spec fn counted(number: Seq<char>, unit: Seq<char>) -> Option<(int, int, int)> {
    match whole_number(number) {
        Some(n) => of_unit(n, unit),
        None => None,
    }
}

/// What the text spells in at most so many parts: numbers with their units,
/// the last part a clock reading or one of these.
pub open spec fn span_in(s: Seq<char>, parts: nat) -> Option<(int, int, int)>
    decreases parts,
{
    let k = first_of(s, ' ', ' ', 0);
    let rest = s.skip(k + 1);
    let j = first_of(rest, ' ', ' ', 0);
    if parts == 0 {
        None
    } else if k >= s.len() {
        match clock_span(s) {
            Some(n) => Some((0, 0, n)),
            None => None,
        }
    } else {
        match counted(s.take(k), rest.take(j)) {
            None => None,
            Some(a) => if j >= rest.len() {
                Some(a)
            } else {
                match span_in(rest.skip(j + 1), (parts - 1) as nat) {
                    Some(b) => Some((a.0 + b.0, a.1 + b.1, a.2 + b.2)),
                    None => None,
                }
            },
        }
    }
}

/// The span that the text spells.
#[verifier::opaque]
pub open spec fn interval_read(s: Seq<char>) -> Option<IntervalView> {
    if s == "infinity"@ {
        Some(IntervalView::Infinity)
    } else if s == "-infinity"@ {
        Some(IntervalView::NegativeInfinity)
    } else {
        match span_in(s, 4) {
            Some((months, days, micros)) => finite(months, days, micros),
            None => None,
        }
    }
}

fn short_number(cs: &Vec<char>) -> (r: Option<i128>)
    ensures
        match r {
            Some(n) => short_digits(cs@) && n == text::digits_value(cs@) && 0 <= n
                < 10_000_000_000_000,
            None => !short_digits(cs@),
        },
{
    let n: usize = cs.len();
    if n < 1 || n > 10 {
        return None;
    }
    let mut value: i128 = 0;
    let mut limit: i128 = 1;
    let mut i: usize = 0;
    while i < n
        invariant
            1 <= n <= 10,
            n == cs@.len(),
            0 <= i <= n,
            forall|j: int| 0 <= j < i ==> text::ascii_digit(#[trigger] cs@[j]),
            value == text::digits_value(cs@.take(i as int)),
            0 <= value < limit,
            i == 0 ==> limit == 1,
            i == 1 ==> limit == 10,
            i == 2 ==> limit == 100,
            i == 3 ==> limit == 1000,
            i == 4 ==> limit == 10_000,
            i == 5 ==> limit == 100_000,
            i == 6 ==> limit == 1_000_000,
            i == 7 ==> limit == 10_000_000,
            i == 8 ==> limit == 100_000_000,
            i == 9 ==> limit == 1_000_000_000,
            i == 10 ==> limit == 10_000_000_000,
        decreases n - i,
    {
        if !text::is_ascii_digit(cs[i]) {
            return None;
        }
        let d: u8 = text::digit_of_char(cs[i]);
        proof {
            assert(cs@.take(i + 1).drop_last() =~= cs@.take(i as int));
            assert(cs@.take(i + 1).last() == cs@[i as int]);
        }
        value = 10 * value + d as i128;
        limit = 10 * limit;
        i += 1;
    }
    assert(cs@.take(i as int) =~= cs@);
    Some(value)
}

fn without_sign(cs: &Vec<char>) -> (r: Vec<char>)
    ensures
        r@ == unsigned(cs@),
{
    let from: usize = if cs.len() > 0 && (cs[0] == '-' || cs[0] == '+') {
        1
    } else {
        0
    };
    let r = part(cs, from, cs.len());
    assert(r@ =~= unsigned(cs@));
    r
}

fn is_negative(cs: &Vec<char>) -> (r: bool)
    ensures
        r == (cs@.len() > 0 && cs@[0] == '-'),
{
    cs.len() > 0 && cs[0] == '-'
}

fn read_number(cs: &Vec<char>) -> (r: Option<i128>)
    ensures
        match r {
            Some(n) => whole_number(cs@) == Some(n as int) && -10_000_000_000_000 < n
                < 10_000_000_000_000,
            None => whole_number(cs@) is None,
        },
{
    let body = without_sign(cs);
    match short_number(&body) {
        Some(n) => if is_negative(cs) {
            Some(-n)
        } else {
            Some(n)
        },
        None => None,
    }
}

fn read_clock_span(cs: &Vec<char>) -> (r: Option<i128>)
    ensures
        match r {
            Some(n) => clock_span(cs@) == Some(n as int) && -100_000_000_000_000_000_000_000 < n
                < 100_000_000_000_000_000_000_000,
            None => clock_span(cs@) is None,
        },
{
    let body = without_sign(cs);
    let k: usize = find_either(&body, ':', ':');
    if k == body.len() {
        return None;
    }
    let hours = part(&body, 0, k);
    let mut clock: Vec<char> = Vec::new();
    clock.push('0');
    clock.push('0');
    clock.push(':');
    let mut i: usize = k + 1;
    while i < body.len()
        invariant
            k < i <= body@.len(),
            clock@ =~= past_the_hour(body@.subrange(k + 1, i as int)),
        decreases body@.len() - i,
    {
        clock.push(body[i]);
        i += 1;
    }
    proof {
        assert(hours@ =~= body@.take(k as int));
        assert(body@.subrange(k + 1, i as int) =~= body@.skip(k + 1));
    }
    match (short_number(&hours), micros_of_clock(&clock)) {
        (Some(h), Some(n)) => {
            let all: i128 = h * 3_600_000_000 + n;
            if is_negative(cs) {
                Some(-all)
            } else {
                Some(all)
            }
        },
        _ => None,
    }
}

fn read_unit(n: i128, unit: &str) -> (r: Option<(i128, i128, i128)>)
    requires
        -10_000_000_000_000 < n < 10_000_000_000_000,
    ensures
        match r {
            Some((a, b, c)) => of_unit(n as int, unit@) == Some((a as int, b as int, c as int))
                && -200_000_000_000_000 < a < 200_000_000_000_000 && -200_000_000_000_000 < b
                < 200_000_000_000_000 && c == 0,
            None => of_unit(n as int, unit@) is None,
        },
{
    if text::same(unit, "year") || text::same(unit, "years") {
        Some((12 * n, 0, 0))
    } else if text::same(unit, "mon") || text::same(unit, "mons") {
        Some((n, 0, 0))
    } else if text::same(unit, "day") || text::same(unit, "days") {
        Some((0, n, 0))
    } else {
        None
    }
}

/// No part of a span in `parts` parts is larger than this.
spec fn moderate(n: int, parts: int) -> bool {
    -100_000_000_000_000_000_000_000 * parts <= n <= 100_000_000_000_000_000_000_000 * parts
}

fn read_span(cs: &Vec<char>, parts: u8) -> (r: Option<(i128, i128, i128)>)
    requires
        parts <= 4,
    ensures
        match r {
            Some((a, b, c)) => span_in(cs@, parts as nat) == Some((a as int, b as int, c as int))
                && moderate(a as int, parts as int) && moderate(b as int, parts as int)
                && moderate(c as int, parts as int),
            None => span_in(cs@, parts as nat) is None,
        },
    decreases parts,
{
    if parts == 0 {
        return None;
    }
    let k: usize = find_either(cs, ' ', ' ');
    if k == cs.len() {
        return match read_clock_span(cs) {
            Some(n) => Some((0, 0, n)),
            None => None,
        };
    }
    let number = part(cs, 0, k);
    let rest = part(cs, k + 1, cs.len());
    let j: usize = find_either(&rest, ' ', ' ');
    let unit = text::string_of(&rest, 0, j);
    proof {
        assert(number@ =~= cs@.take(k as int));
        assert(rest@ =~= cs@.skip(k + 1));
        assert(unit@ =~= rest@.take(j as int));
    }
    let n: i128 = match read_number(&number) {
        Some(n) => n,
        None => {
            return None;
        },
    };
    match read_unit(n, unit.as_str()) {
        None => None,
        Some((a, b, c)) => {
            if j == rest.len() {
                return Some((a, b, c));
            }
            let more = part(&rest, j + 1, rest.len());
            assert(more@ =~= rest@.skip(j + 1));
            match read_span(&more, parts - 1) {
                Some((x, y, z)) => Some((a + x, b + y, c + z)),
                None => None,
            }
        },
    }
}

impl Interval {
    /// The span that the text spells.
    pub fn parse(s: &str) -> (r: Option<Interval>)
        ensures
            match r {
                Some(v) => interval_read(s@) == Some(v@),
                None => interval_read(s@) is None,
            },
    {
        reveal(interval_read);
        if text::same(s, "infinity") {
            return Some(Interval::Infinity);
        }
        if text::same(s, "-infinity") {
            return Some(Interval::NegativeInfinity);
        }
        let cs = text::chars_of(s);
        match read_span(&cs, 4) {
            Some((months, days, micros)) => finite_of(months, days, micros),
            None => None,
        }
    }
}

// ---------------------------------------------------------------------------
// Spelling
// ---------------------------------------------------------------------------

/// The whole part of `a / b`, towards zero.
pub open spec fn whole_part(a: int, b: int) -> int {
    if a < 0 {
        -((-a) / b)
    } else {
        a / b
    }
}

/// `n` in at least two digits.
pub open spec fn in_two_digits(n: nat) -> Seq<char> {
    if n < 10 {
        "0"@ + decimal(n)
    } else {
        decimal(n)
    }
}

/// The digits of `n` counted in `unit`, down to the last that is not zero.
pub open spec fn digits_down(n: int, unit: int) -> Seq<char>
    decreases unit,
{
    if n <= 0 || unit <= 0 {
        seq![]
    } else {
        seq![digit_char(n / unit)] + digits_down(n % unit, unit / 10)
    }
}

/// The text with a space behind it, where there is some.
pub open spec fn spaced(s: Seq<char>) -> Seq<char> {
    if s.len() == 0 {
        s
    } else {
        s + " "@
    }
}

/// The text with `n` of a unit behind it, if `n` is not zero. Behind something
/// negative a number says that it is not.
pub open spec fn with_unit(s: Seq<char>, n: int, unit: Seq<char>, negative: bool) -> Seq<char> {
    if n == 0 {
        s
    } else {
        spaced(s) + (if n < 0 {
            "-"@ + decimal((-n) as nat)
        } else if negative {
            "+"@ + decimal(n as nat)
        } else {
            decimal(n as nat)
        }) + " "@ + unit + (if n == 1 {
            ""@
        } else {
            "s"@
        })
    }
}

/// Hours, minutes and seconds with their fraction.
pub open spec fn clock_spelled(micros: nat) -> Seq<char> {
    let seconds = micros / 1_000_000;
    let fraction = micros % 1_000_000;
    in_two_digits(seconds / 3600) + ":"@ + in_two_digits(seconds / 60 % 60) + ":"@ + in_two_digits(
        seconds % 60,
    ) + (if fraction == 0 {
        ""@
    } else {
        "."@ + digits_down(fraction as int, 100_000)
    })
}

/// The text with a time behind it, unless that is zero and there is some text.
pub open spec fn with_clock(s: Seq<char>, micros: int, negative: bool) -> Seq<char> {
    if micros == 0 && s.len() > 0 {
        s
    } else {
        spaced(s) + (if micros < 0 {
            "-"@ + clock_spelled((-micros) as nat)
        } else if negative {
            "+"@ + clock_spelled(micros as nat)
        } else {
            clock_spelled(micros as nat)
        })
    }
}

/// The spelling of a span: years, months and days as far as there are any, and
/// then the time.
#[verifier::opaque]
pub open spec fn interval_spelled(v: IntervalView) -> Seq<char> {
    match v {
        IntervalView::Infinity => "infinity"@,
        IntervalView::NegativeInfinity => "-infinity"@,
        IntervalView::Finite { months, days, micros } => {
            let years = whole_part(months, 12);
            let mons = months - 12 * years;
            let with_years = with_unit(""@, years, "year"@, false);
            let with_mons = with_unit(with_years, mons, "mon"@, months < 0);
            let with_days = with_unit(with_mons, days, "day"@, months < 0);
            with_clock(
                with_days,
                micros,
                if days != 0 {
                    days < 0
                } else {
                    months < 0
                },
            )
        },
    }
}

fn two_digits_of(n: u128) -> (r: String)
    ensures
        r@ == in_two_digits(n as nat),
{
    if n < 10 {
        text::cat2("0", text::decimal_of(n).as_str())
    } else {
        text::decimal_of(n)
    }
}

fn push_digits_down(out: &mut String, n: u128)
    requires
        n < 1_000_000,
    ensures
        final(out)@ == old(out)@ + digits_down(n as int, 100_000),
{
    let ghost before = out@;
    let mut left: u128 = n;
    let mut unit: u128 = 100_000;
    while left > 0
        invariant
            unit == 100_000 || unit == 10_000 || unit == 1000 || unit == 100 || unit == 10 || unit
                == 1 || unit == 0,
            left < 10 * unit || left == 0,
            out@ + digits_down(left as int, unit as int) =~= before + digits_down(
                n as int,
                100_000,
            ),
        decreases unit,
    {
        let d: u128 = left / unit;
        assert(d < 10) by (nonlinear_arith)
            requires
                d == left / unit,
                left < 10 * unit,
                unit > 0,
        ;
        out.push(text::char_of_digit(d as u8));
        left = left % unit;
        unit = unit / 10;
    }
}

fn push_unit(out: &mut String, n: i64, unit: &str, negative: bool)
    requires
        -3_000_000_000 < n < 3_000_000_000,
    ensures
        final(out)@ == with_unit(old(out)@, n as int, unit@, negative),
{
    if n == 0 {
        return;
    }
    let ghost before = out@;
    let empty = text::same(out.as_str(), "");
    proof {
        reveal_strlit("");
        assert(before.len() == 0 ==> before =~= ""@);
    }
    if !empty {
        out.append(" ");
    }
    assert(out@ =~= spaced(before));
    if n < 0 {
        out.append("-");
        out.append(text::decimal_of((-n) as u128).as_str());
    } else {
        if negative {
            out.append("+");
        }
        out.append(text::decimal_of(n as u128).as_str());
    }
    out.append(" ");
    out.append(unit);
    if n != 1 {
        out.append("s");
    }
    assert(out@ =~= with_unit(before, n as int, unit@, negative));
}

fn clock_of(micros: u128) -> (r: String)
    ensures
        r@ == clock_spelled(micros as nat),
{
    let seconds: u128 = micros / 1_000_000;
    let fraction: u128 = micros % 1_000_000;
    let mut r = two_digits_of(seconds / 3600);
    r.append(":");
    r.append(two_digits_of(seconds / 60 % 60).as_str());
    r.append(":");
    r.append(two_digits_of(seconds % 60).as_str());
    if fraction != 0 {
        r.append(".");
        push_digits_down(&mut r, fraction);
    }
    proof {
        reveal_strlit("");
        assert(r@ =~= clock_spelled(micros as nat));
    }
    r
}

fn push_clock(out: &mut String, micros: i64, negative: bool)
    ensures
        final(out)@ == with_clock(old(out)@, micros as int, negative),
{
    let ghost before = out@;
    let empty = text::same(out.as_str(), "");
    proof {
        reveal_strlit("");
        assert(before.len() == 0 ==> before =~= ""@);
    }
    if micros == 0 && !empty {
        return;
    }
    if !empty {
        out.append(" ");
    }
    assert(out@ =~= spaced(before));
    let n: i128 = micros as i128;
    if n < 0 {
        out.append("-");
        out.append(clock_of((-n) as u128).as_str());
    } else {
        if negative {
            out.append("+");
        }
        out.append(clock_of(n as u128).as_str());
    }
    assert(out@ =~= with_clock(before, micros as int, negative));
}

impl Interval {
    /// The spelling of the span.
    pub fn render(&self) -> (r: String)
        ensures
            r@ == interval_spelled(self@),
    {
        reveal(interval_spelled);
        match self {
            Interval::Infinity => text::owned("infinity"),
            Interval::NegativeInfinity => text::owned("-infinity"),
            Interval::Finite { months, days, micros } => {
                let all: i64 = *months as i64;
                let years: i64 = if all < 0 {
                    -((-all) / 12)
                } else {
                    all / 12
                };
                let mons: i64 = all - 12 * years;
                let mut r = text::owned("");
                push_unit(&mut r, years, "year", false);
                push_unit(&mut r, mons, "mon", all < 0);
                push_unit(&mut r, *days as i64, "day", all < 0);
                let negative = if *days != 0 {
                    *days < 0
                } else {
                    all < 0
                };
                push_clock(&mut r, *micros, negative);
                r
            },
        }
    }
}

// ---------------------------------------------------------------------------
// Laws
// ---------------------------------------------------------------------------

/// Two spans have the same sum either way round.
pub proof fn interval_sum_is_commutative(a: IntervalView, b: IntervalView)
    ensures
        interval_sum(a, b) == interval_sum(b, a),
{
}

/// Three spans have the same sum however they are grouped, as long as neither
/// way leaves the range.
pub proof fn interval_sum_is_associative(a: IntervalView, b: IntervalView, c: IntervalView)
    requires
        interval_sum(a, b) is Some,
        interval_sum(b, c) is Some,
    ensures
        interval_sum(interval_sum(a, b)->0, c) == interval_sum(a, interval_sum(b, c)->0),
{
}

} // verus!
