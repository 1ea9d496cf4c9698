//! Decimal numbers of any size and precision, as Postgres's `numeric`
//! computes with them.

use std::cmp::Ordering;

use vstd::prelude::*;

use crate::float;
use crate::float::{Float, FloatView};
use crate::natural::{
    all_digits, order_of, pow10, pow10_adds, pow10_positive, quotient_unique, value, value_push,
    Natural, Order,
};
use crate::text;
use crate::text::digits_value;

verus! {

/// A decimal number: a whole number of units of a power of ten.
#[verifier::ext_equal]
pub struct NumericView {
    /// The number of units.
    pub mantissa: int,
    /// The number of decimal places of a unit.
    pub scale: nat,
}

/// A decimal number of any size.
#[derive(Debug, PartialEq, Eq)]
pub struct Numeric {
    negative: bool,
    magnitude: Natural,
    scale: usize,
}

impl View for Numeric {
    type V = NumericView;

    closed spec fn view(&self) -> NumericView {
        NumericView {
            mantissa: if self.negative {
                -(self.magnitude@ as int)
            } else {
                self.magnitude@ as int
            },
            scale: self.scale as nat,
        }
    }
}

/// A text that is not a decimal number.
#[derive(Debug, PartialEq, Eq)]
pub struct NumericParseError {
    pub text: String,
}

impl NumericParseError {
    pub open spec fn message(&self) -> Seq<char> {
        "'"@ + self.text@ + "' is not a decimal number"@
    }

    /// What is wrong with the text.
    pub fn to_string(&self) -> (r: String)
        ensures
            r@ == self.message(),
    {
        text::cat3("'", self.text.as_str(), "' is not a decimal number")
    }
}

// ---------------------------------------------------------------------------
// Spelling
// ---------------------------------------------------------------------------

/// The position of the first dot of `s`, or its length.
pub open spec fn dot_at(s: Seq<char>) -> int
    decreases s.len(),
{
    if s.len() == 0 || s[0] == '.' {
        0
    } else {
        1 + dot_at(s.drop_first())
    }
}

/// Every character is a decimal digit.
pub open spec fn only_digits(s: Seq<char>) -> bool {
    forall|i: int| 0 <= i < s.len() ==> text::ascii_digit(#[trigger] s[i])
}

/// The digits of a number without its sign and its dot, and how many of them
/// stand behind the dot.
pub open spec fn numeral(s: Seq<char>) -> Option<(Seq<char>, nat)> {
    let dot = dot_at(s);
    let whole = s.take(dot);
    let fraction = if dot < s.len() {
        s.skip(dot + 1)
    } else {
        seq![]
    };
    if only_digits(whole) && only_digits(fraction) && whole.len() + fraction.len() > 0 {
        Some((whole + fraction, fraction.len()))
    } else {
        None
    }
}

/// The number that a text spells: digits with an optional sign and an
/// optional dot among them.
pub open spec fn number_of(s: Seq<char>) -> Option<NumericView> {
    let signed = s.len() > 0 && (s[0] == '-' || s[0] == '+');
    match numeral(
        if signed {
            s.skip(1)
        } else {
            s
        },
    ) {
        None => None,
        Some((digits, scale)) => Some(
            NumericView {
                mantissa: if s[0] == '-' {
                    -(digits_value(digits) as int)
                } else {
                    digits_value(digits) as int
                },
                scale,
            },
        ),
    }
}

/// `n` zeros.
pub open spec fn zeros(n: nat) -> Seq<char> {
    Seq::new(n, |i: int| '0')
}

/// `digits` with zeros in front, so that there are at least `n`.
pub open spec fn padded(digits: Seq<char>, n: nat) -> Seq<char> {
    if digits.len() < n {
        zeros((n - digits.len()) as nat) + digits
    } else {
        digits
    }
}

/// The spelling of a number of units with `scale` decimal places.
pub open spec fn spelled(magnitude: nat, scale: nat) -> Seq<char> {
    let digits = padded(text::decimal(magnitude), scale + 1);
    if scale == 0 {
        digits
    } else {
        digits.take(digits.len() - scale) + "."@ + digits.skip(digits.len() - scale)
    }
}

impl NumericView {
    /// The spelling of the number: all its decimal places, and a sign if it
    /// is negative.
    pub open spec fn spelling(self) -> Seq<char> {
        if self.mantissa < 0 {
            "-"@ + spelled((-self.mantissa) as nat, self.scale)
        } else {
            spelled(self.mantissa as nat, self.scale)
        }
    }
}

/// Where the first dot is.
pub proof fn dot_at_is(s: Seq<char>, at: int)
    requires
        0 <= at <= s.len(),
        at < s.len() ==> s[at] == '.',
        forall|i: int| 0 <= i < at ==> s[i] != '.',
    ensures
        dot_at(s) == at,
    decreases s.len(),
{
    if at > 0 {
        assert forall|i: int| 0 <= i < at - 1 implies s.drop_first()[i] != '.' by {
            assert(s.drop_first()[i] == s[i + 1]);
        }
        dot_at_is(s.drop_first(), at - 1);
    }
}

proof fn digits_value_prepend(c: char, s: Seq<char>)
    requires
        text::ascii_digit(c),
        only_digits(s),
    ensures
        digits_value(seq![c] + s) == text::digit_value(c) * pow10(s.len()) + digits_value(s),
    decreases s.len(),
{
    let all = seq![c] + s;
    if s.len() == 0 {
        assert(all.drop_last() =~= Seq::<char>::empty());
        assert(all.last() == c);
        assert(digits_value(all.drop_last()) == 0);
        assert(digits_value(all) == text::digit_value(c));
        assert(text::digit_value(c) * pow10(0) == text::digit_value(c)) by (nonlinear_arith)
            requires
                pow10(0) == 1,
        ;
    } else {
        let rest = s.drop_last();
        assert(all.drop_last() =~= seq![c] + rest);
        assert(all.last() == s.last());
        digits_value_prepend(c, rest);
        assert(pow10(s.len()) == 10 * pow10(rest.len()));
        let d = text::digit_value(c);
        let p = pow10(rest.len()) as int;
        assert(10 * (d * p) == d * (10 * p)) by (nonlinear_arith);
        assert(d * pow10(s.len()) == d * (10 * p)) by (nonlinear_arith)
            requires
                pow10(s.len()) == 10 * p,
        ;
        let last = text::digit_value(s.last());
        assert(text::ascii_digit(s.last()));
        assert(0 <= last <= 9);
        assert(digits_value(s) == 10 * digits_value(rest) + last);
        assert(digits_value(all) == 10 * digits_value(seq![c] + rest) + last) by {
            assert(digits_value(all.drop_last()) == digits_value(seq![c] + rest));
        }
    }
}

/// The number that the digits among `cs` stand for, the dot at `dot` left
/// out.
fn read_digits(cs: &Vec<char>, from: usize, dot: usize) -> (r: Natural)
    requires
        from <= dot <= cs@.len(),
        only_digits(cs@.subrange(from as int, dot as int)),
        dot < cs@.len() ==> only_digits(cs@.skip(dot + 1)),
    ensures
        r@ == digits_value(
            cs@.subrange(from as int, dot as int) + (if dot < cs@.len() {
                cs@.skip(dot + 1)
            } else {
                seq![]
            }),
        ),
{
    let n: usize = cs.len();
    let ghost whole = cs@.subrange(from as int, dot as int);
    let ghost fraction = if dot < n {
        cs@.skip(dot + 1)
    } else {
        seq![]
    };
    let ghost all = whole + fraction;
    let mut digits: Vec<u8> = Vec::new();
    let mut i: usize = n;
    let stop: usize = if dot < n {
        dot + 1
    } else {
        n
    };
    assert(fraction.skip(fraction.len() as int) =~= Seq::<char>::empty());
    while i > stop
        invariant
            from <= dot <= n == cs@.len(),
            stop == (if dot < n {
                dot + 1
            } else {
                n as int
            }),
            stop <= i <= n,
            fraction == (if dot < n {
                cs@.skip(dot + 1)
            } else {
                seq![]
            }),
            only_digits(fraction),
            all_digits(digits@),
            digits@.len() == n - i,
            value(digits@) == digits_value(fraction.skip(i - stop)),
        decreases i,
    {
        i -= 1;
        let c = cs[i];
        assert(c == fraction[i - stop]);
        let d: u8 = text::digit_of_char(c);
        proof {
            let tail = fraction.skip(i + 1 - stop);
            assert(fraction.skip(i - stop) =~= seq![c] + tail);
            assert(only_digits(tail));
            digits_value_prepend(c, tail);
            value_push(digits@, d);
        }
        digits.push(d);
    }
    assert(fraction.skip(0) =~= fraction);
    let mut i: usize = dot;
    assert(whole.skip(whole.len() as int) + fraction =~= fraction);
    while i > from
        invariant
            from <= i <= dot <= n == cs@.len(),
            whole == cs@.subrange(from as int, dot as int),
            only_digits(whole),
            only_digits(fraction),
            all_digits(digits@),
            digits@.len() == fraction.len() + (dot - i),
            value(digits@) == digits_value(whole.skip(i - from) + fraction),
        decreases i,
    {
        i -= 1;
        let c = cs[i];
        assert(c == whole[i - from]);
        let d: u8 = text::digit_of_char(c);
        proof {
            let tail = whole.skip(i + 1 - from) + fraction;
            assert(whole.skip(i - from) + fraction =~= seq![c] + tail);
            assert(only_digits(tail)) by {
                assert forall|j: int| 0 <= j < tail.len() implies text::ascii_digit(
                    #[trigger] tail[j],
                ) by {
                    let w = whole.skip(i + 1 - from);
                    if j < w.len() {
                        assert(tail[j] == whole[j + i + 1 - from]);
                    } else {
                        assert(tail[j] == fraction[j - w.len()]);
                    }
                }
            }
            digits_value_prepend(c, tail);
            value_push(digits@, d);
        }
        digits.push(d);
    }
    assert(whole.skip(0) =~= whole);
    Natural::from_digits(digits)
}

/// Whether the characters from `from` to `to` are all digits.
fn digits_only(cs: &Vec<char>, from: usize, to: usize) -> (r: bool)
    requires
        from <= to <= cs@.len(),
    ensures
        r == only_digits(cs@.subrange(from as int, to as int)),
{
    let ghost part = cs@.subrange(from as int, to as int);
    let mut i: usize = from;
    while i < to
        invariant
            from <= i <= to <= cs@.len(),
            part == cs@.subrange(from as int, to as int),
            forall|j: int| 0 <= j < i - from ==> text::ascii_digit(#[trigger] part[j]),
        decreases to - i,
    {
        assert(part[i - from] == cs@[i as int]);
        if !text::is_ascii_digit(cs[i]) {
            return false;
        }
        i += 1;
    }
    true
}

/// The position of the first dot at or behind `from`, or the end.
fn find_dot(cs: &Vec<char>, from: usize) -> (r: usize)
    requires
        from <= cs@.len(),
    ensures
        from <= r <= cs@.len(),
        dot_at(cs@.skip(from as int)) == r - from,
{
    let ghost body = cs@.skip(from as int);
    let mut dot: usize = from;
    while dot < cs.len() && cs[dot] != '.'
        invariant
            from <= dot <= cs@.len(),
            body == cs@.skip(from as int),
            forall|i: int| 0 <= i < dot - from ==> body[i] != '.',
        decreases cs@.len() - dot,
    {
        assert(body[dot - from] == cs@[dot as int]);
        dot += 1;
    }
    proof {
        if dot < cs@.len() {
            assert(body[dot - from] == cs@[dot as int]);
        }
        dot_at_is(body, dot - from);
    }
    dot
}

/// The digits from `from` on without their dot as a number, and how many of
/// them stand behind the dot.
pub fn read_numeral(cs: &Vec<char>, from: usize) -> (r: Option<(Natural, usize)>)
    requires
        from <= cs@.len(),
    ensures
        match r {
            Some((n, scale)) => numeral(cs@.skip(from as int)) matches Some((digits, places))
                && digits_value(digits) == n@ && places == scale,
            None => numeral(cs@.skip(from as int)) is None,
        },
{
    let n: usize = cs.len();
    let ghost body = cs@.skip(from as int);
    let dot = find_dot(cs, from);
    let scale: usize = if dot < n {
        n - dot - 1
    } else {
        0
    };
    proof {
        assert(body.take(dot - from) =~= cs@.subrange(from as int, dot as int));
        if dot < n {
            assert(body.skip(dot - from + 1) =~= cs@.skip(dot + 1));
            assert(cs@.skip(dot + 1) =~= cs@.subrange(dot + 1, n as int));
        }
    }
    if scale + (dot - from) == 0 || !digits_only(cs, from, dot) {
        return None;
    }
    if dot < n && !digits_only(cs, dot + 1, n) {
        return None;
    }
    Some((read_digits(cs, from, dot), scale))
}

impl Numeric {
    #[verifier::type_invariant]
    spec fn no_negative_zero(&self) -> bool {
        self.negative ==> self.magnitude@ > 0
    }

    /// The number with the given sign, units and decimal places.
    fn make(negative: bool, magnitude: Natural, scale: usize) -> (r: Numeric)
        ensures
            r@ == (NumericView {
                mantissa: if negative {
                    -(magnitude@ as int)
                } else {
                    magnitude@ as int
                },
                scale: scale as nat,
            }),
    {
        let zero = magnitude.is_zero();
        Numeric { negative: negative && !zero, magnitude, scale }
    }

    /// The number that `s` spells.
    pub fn parse(s: &str) -> (r: Result<Numeric, NumericParseError>)
        ensures
            match r {
                Ok(n) => number_of(s@) == Some(n@),
                Err(e) => number_of(s@) is None && e.text@ == s@,
            },
    {
        let cs = text::chars_of(s);
        let n: usize = cs.len();
        let signed = n > 0 && (cs[0] == '-' || cs[0] == '+');
        let negative = n > 0 && cs[0] == '-';
        let from: usize = if signed {
            1
        } else {
            0
        };
        assert((if signed {
            s@.skip(1)
        } else {
            s@
        }) =~= cs@.skip(from as int));
        match read_numeral(&cs, from) {
            Some((magnitude, scale)) => Ok(Numeric::make(negative, magnitude, scale)),
            None => Err(NumericParseError { text: text::owned(s) }),
        }
    }

    /// The whole number `n`.
    pub fn whole(n: u128) -> (r: Numeric)
        ensures
            r@ == (NumericView { mantissa: n as int, scale: 0 }),
    {
        Numeric::make(false, Natural::from_u128(n), 0)
    }

    /// A copy.
    pub fn copy(&self) -> (r: Numeric)
        ensures
            r@ == self@,
    {
        proof {
            use_type_invariant(self);
        }
        Numeric { negative: self.negative, magnitude: self.magnitude.copy(), scale: self.scale }
    }

    /// The number's spelling.
    pub fn to_string(&self) -> (r: String)
        ensures
            r@ == self@.spelling(),
    {
        proof {
            use_type_invariant(self);
        }
        let digits = self.magnitude.to_string();
        let ghost shown = text::decimal(self.magnitude@);
        let cs = text::chars_of(digits.as_str());
        let n: usize = cs.len();
        let ghost all = padded(shown, (self.scale + 1) as nat);
        let mut r = if self.negative {
            text::owned("-")
        } else {
            String::new()
        };
        let ghost sign = r@;
        let mut i: usize = 0;
        if n <= self.scale {
            // Zeros: one in front of the dot, the others behind it.
            let missing: usize = self.scale - n;
            r.push('0');
            r.append(".");
            let ghost start = r@;
            while i < missing
                invariant
                    0 <= i <= missing,
                    r@ =~= start + zeros(i as nat),
                decreases missing - i,
            {
                r.push('0');
                i += 1;
            }
            r.append(digits.as_str());
            proof {
                let k = all.len() - self.scale;
                assert(k == 1);
                assert(all.take(k) =~= seq!['0']);
                assert(all.skip(k) =~= zeros(missing as nat) + shown);
                assert(r@ =~= sign + (all.take(k) + "."@ + all.skip(k)));
            }
        } else {
            let k: usize = n - self.scale;
            let whole = text::string_of(&cs, 0, k);
            r.append(whole.as_str());
            assert(all =~= shown);
            if self.scale > 0 {
                let fraction = text::string_of(&cs, k, n);
                r.append(".");
                r.append(fraction.as_str());
                proof {
                    assert(whole@ =~= all.take(k as int));
                    assert(fraction@ =~= all.skip(k as int));
                    assert(r@ =~= sign + (all.take(k as int) + "."@ + all.skip(k as int)));
                }
            } else {
                assert(whole@ =~= all);
                assert(r@ =~= sign + all);
            }
        }
        proof {
            if !self.negative {
                assert(sign + spelled(self.magnitude@, self.scale as nat) =~= spelled(
                    self.magnitude@,
                    self.scale as nat,
                ));
            }
        }
        r
    }
}

// ---------------------------------------------------------------------------
// Arithmetic
// ---------------------------------------------------------------------------

/// The greater of two.
pub open spec fn larger(a: nat, b: nat) -> nat {
    if a >= b {
        a
    } else {
        b
    }
}

/// The number of units of `v` with `scale` decimal places, at least as many
/// as it has.
pub open spec fn units(v: NumericView, scale: nat) -> int {
    v.mantissa * pow10((scale - v.scale) as nat)
}

/// The sum, with the decimal places of the more precise operand.
pub open spec fn sum(a: NumericView, b: NumericView) -> NumericView {
    let scale = larger(a.scale, b.scale);
    NumericView { mantissa: units(a, scale) + units(b, scale), scale }
}

/// The order of two numbers by value.
pub open spec fn order_by_value(a: NumericView, b: NumericView) -> Order {
    let scale = larger(a.scale, b.scale);
    order_of(units(a, scale), units(b, scale))
}

/// The number of decimal digits of `n`; zero has none.
pub open spec fn digit_count(n: nat) -> nat
    decreases n,
{
    if n == 0 {
        0
    } else {
        1 + digit_count(n / 10)
    }
}

/// The power of ten of a number's highest digit, rounded down to a power of
/// ten thousand, in steps of four.
pub open spec fn weight(magnitude: nat, scale: nat) -> int {
    if magnitude == 0 {
        0
    } else {
        (digit_count(magnitude) - 1 - scale) / 4
    }
}

/// The highest digit of a number in base ten thousand.
pub open spec fn first_digit(magnitude: nat, scale: nat) -> nat {
    if magnitude == 0 {
        0
    } else {
        let len = digit_count(magnitude);
        let k = (len - 1 - scale) % 4;
        if len >= k + 1 {
            magnitude / pow10((len - 1 - k) as nat)
        } else {
            magnitude * pow10((k + 1 - len) as nat)
        }
    }
}

/// The decimal places of a quotient: enough for sixteen digits, at least as
/// many as either operand has, and at most a thousand.
pub open spec fn quotient_scale(a: NumericView, b: NumericView) -> nat {
    let x = absolute(a.mantissa);
    let y = absolute(b.mantissa);
    let steps = weight(x, a.scale) - weight(y, b.scale) - (if first_digit(x, a.scale)
        <= first_digit(y, b.scale) {
        1int
    } else {
        0int
    });
    let wanted = if 16 - 4 * steps >= 0 {
        (16 - 4 * steps) as nat
    } else {
        0
    };
    let scale = larger(wanted, larger(a.scale, b.scale));
    if scale <= 1000 {
        scale
    } else {
        1000
    }
}

/// A number without its sign.
pub open spec fn absolute(n: int) -> nat {
    if n < 0 {
        (-n) as nat
    } else {
        n as nat
    }
}

/// `n / d` to the nearest whole number, halves away from zero.
pub open spec fn rounded(n: nat, d: nat) -> nat {
    (2 * n + d) / (2 * d)
}

/// The quotient, rounded to [`quotient_scale`] decimal places.
pub open spec fn quotient(a: NumericView, b: NumericView) -> NumericView {
    let scale = quotient_scale(a, b);
    let q = rounded(
        absolute(a.mantissa) * pow10(scale) * pow10(b.scale),
        absolute(b.mantissa) * pow10(a.scale),
    );
    NumericView {
        mantissa: if (a.mantissa < 0) != (b.mantissa < 0) {
            -(q as int)
        } else {
            q as int
        },
        scale,
    }
}

/// The double precision value nearest to a number.
pub open spec fn double_value(n: NumericView) -> FloatView {
    float::double_of(n.mantissa < 0, absolute(n.mantissa), pow10(n.scale))
}

proof fn digit_count_is(n: nat, r: nat)
    requires
        n < pow10(r),
        r > 0 ==> n >= pow10((r - 1) as nat),
    ensures
        digit_count(n) == r,
    decreases r,
{
    if r == 0 {
        assert(n == 0);
    } else {
        pow10_positive((r - 1) as nat);
        let p = pow10((r - 1) as nat) as int;
        assert(pow10(r) == 10 * p);
        if r > 1 {
            assert(pow10((r - 1) as nat) == 10 * pow10((r - 2) as nat));
        }
        digit_count_is(n / 10, (r - 1) as nat);
    }
}

/// Bringing a signed number to more decimal places.
proof fn signed_units(negative: bool, magnitude: nat, p: nat)
    ensures
        (if negative {
            -(magnitude as int)
        } else {
            magnitude as int
        }) * p == (if negative {
            -((magnitude * p) as int)
        } else {
            (magnitude * p) as int
        }),
{
    let m = magnitude as int;
    let q = p as int;
    assert((-m) * q == -(m * q)) by (nonlinear_arith);
}

/// See [`weight`] and [`first_digit`].
fn leading(magnitude: &Natural, scale: usize) -> (r: (i128, Natural))
    ensures
        r.0 == weight(magnitude@, scale as nat),
        r.1@ == first_digit(magnitude@, scale as nat),
        -18446744073709551616 <= r.0 <= 18446744073709551616,
{
    let len: usize = magnitude.len();
    proof {
        digit_count_is(magnitude@, len as nat);
    }
    if len == 0 {
        return (0, Natural::zero());
    }
    let e: i128 = len as i128 - 1 - scale as i128;
    let k: i128 = if e >= 0 {
        e % 4
    } else {
        (4 - (-e) % 4) % 4
    };
    assert(k == e % 4 && 0 <= k <= 3);
    let w: i128 = (e - k) / 4;
    let k: usize = k as usize;
    let first = if len >= k + 1 {
        magnitude.unscaled(len - 1 - k)
    } else {
        magnitude.scaled(k + 1 - len)
    };
    (w, first)
}

/// See [`quotient_scale`].
fn choose_scale(a: &Numeric, b: &Numeric) -> (r: usize)
    ensures
        r == quotient_scale(a@, b@),
{
    proof {
        use_type_invariant(a);
        use_type_invariant(b);
    }
    let (wa, fa) = leading(&a.magnitude, a.scale);
    let (wb, fb) = leading(&b.magnitude, b.scale);
    let mut steps: i128 = wa - wb;
    match fa.order(&fb) {
        Order::Greater => {},
        _ => {
            steps = steps - 1;
        },
    }
    let wanted: i128 = 16 - 4 * steps;
    let floor: usize = if a.scale >= b.scale {
        a.scale
    } else {
        b.scale
    };
    if wanted > 1000 || floor > 1000 {
        1000
    } else if wanted > floor as i128 {
        wanted as usize
    } else {
        floor
    }
}

impl Numeric {
    /// The number's units with `scale` decimal places.
    fn units_at(&self, scale: usize) -> (r: Natural)
        requires
            self@.scale <= scale,
        ensures
            units(self@, scale as nat) == (if self@.mantissa < 0 {
                -(r@ as int)
            } else {
                r@ as int
            }),
    {
        proof {
            use_type_invariant(self);
            signed_units(self.negative, self.magnitude@, pow10((scale - self.scale) as nat));
        }
        self.magnitude.scaled(scale - self.scale)
    }

    /// The sum.
    pub fn add(&self, other: &Numeric) -> (r: Numeric)
        ensures
            r@ == sum(self@, other@),
    {
        proof {
            use_type_invariant(self);
            use_type_invariant(other);
        }
        let scale: usize = if self.scale >= other.scale {
            self.scale
        } else {
            other.scale
        };
        let a = self.units_at(scale);
        let b = other.units_at(scale);
        if self.negative == other.negative {
            return Numeric::make(self.negative, a.plus(&b), scale);
        }
        match a.order(&b) {
            Order::Less => Numeric::make(other.negative, b.minus(&a), scale),
            _ => Numeric::make(self.negative, a.minus(&b), scale),
        }
    }

    /// The order of two numbers by value.
    pub fn order(&self, other: &Numeric) -> (r: Order)
        ensures
            r == order_by_value(self@, other@),
    {
        proof {
            use_type_invariant(self);
            use_type_invariant(other);
        }
        let scale: usize = if self.scale >= other.scale {
            self.scale
        } else {
            other.scale
        };
        let a = self.units_at(scale);
        let b = other.units_at(scale);
        proof {
            pow10_positive((scale - self.scale) as nat);
            pow10_positive((scale - other.scale) as nat);
        }
        if self.negative == other.negative {
            if self.negative {
                b.order(&a)
            } else {
                a.order(&b)
            }
        } else if self.negative {
            proof {
                let m = self.magnitude@ as int;
                let p = pow10((scale - self.scale) as nat) as int;
                assert((-m) * p < 0) by (nonlinear_arith)
                    requires
                        m > 0,
                        p > 0,
                ;
            }
            Order::Less
        } else {
            proof {
                let m = other.magnitude@ as int;
                let p = pow10((scale - other.scale) as nat) as int;
                assert((-m) * p < 0) by (nonlinear_arith)
                    requires
                        m > 0,
                        p > 0,
                ;
            }
            Order::Greater
        }
    }

    /// The order of two numbers by value.
    pub fn compare(&self, other: &Numeric) -> (r: Ordering)
        ensures
            match order_by_value(self@, other@) {
                Order::Less => r == Ordering::Less,
                Order::Same => r == Ordering::Equal,
                Order::Greater => r == Ordering::Greater,
            },
    {
        match self.order(other) {
            Order::Less => Ordering::Less,
            Order::Same => Ordering::Equal,
            Order::Greater => Ordering::Greater,
        }
    }

    /// The quotient, rounded to as many decimal places as Postgres keeps.
    pub fn div(&self, other: &Numeric) -> (r: Numeric)
        requires
            other@.mantissa != 0,
        ensures
            r@ == quotient(self@, other@),
    {
        proof {
            use_type_invariant(self);
            use_type_invariant(other);
        }
        let scale = choose_scale(self, other);
        let n = self.magnitude.scaled(scale).scaled(other.scale);
        let d = other.magnitude.scaled(self.scale);
        proof {
            pow10_positive(self.scale as nat);
            let m = other.magnitude@ as int;
            let p = pow10(self.scale as nat) as int;
            assert(m * p > 0) by (nonlinear_arith)
                requires
                    m > 0,
                    p > 0,
            ;
        }
        let doubled = n.plus(&n).plus(&d);
        let twice = d.plus(&d);
        let (q, rest) = doubled.divided(&twice);
        proof {
            quotient_unique(doubled@ as int, twice@ as int, q@ as int, rest@ as int);
        }
        Numeric::make(self.negative != other.negative, q, scale)
    }

    /// The double precision value nearest to the number.
    pub fn to_double(&self) -> (r: Float)
        ensures
            r@ == double_value(self@),
    {
        proof {
            use_type_invariant(self);
            pow10_positive(self.scale as nat);
            assert(1 * pow10(self.scale as nat) == pow10(self.scale as nat)) by (nonlinear_arith);
        }
        let unit = Natural::from_u128(1).scaled(self.scale);
        float::double_ratio(self.negative, &self.magnitude, &unit)
    }

    /// Whether the number is zero.
    pub fn is_zero(&self) -> (r: bool)
        ensures
            r == (self@.mantissa == 0),
    {
        self.magnitude.is_zero()
    }
}

// ---------------------------------------------------------------------------
// Laws
// ---------------------------------------------------------------------------

/// The digits of a number read back as it.
pub proof fn decimal_reads_back(n: nat)
    ensures
        only_digits(text::decimal(n)),
        digits_value(text::decimal(n)) == n,
    decreases n,
{
    let s = text::decimal(n);
    if n < 10 {
        assert(s.drop_last() =~= Seq::<char>::empty());
        assert(digits_value(s.drop_last()) == 0);
        assert(text::ascii_digit(s[0]));
    } else {
        let rest = text::decimal(n / 10);
        decimal_reads_back(n / 10);
        assert(s.drop_last() =~= rest);
        let c = text::digit_char((n % 10) as int);
        assert(s.last() == c);
        assert(text::digit_value(c) == n % 10);
        assert(digits_value(s) == 10 * (n / 10) + n % 10);
        assert forall|i: int| 0 <= i < s.len() implies text::ascii_digit(#[trigger] s[i]) by {
            if i < rest.len() {
                assert(s[i] == rest[i]);
            }
        }
    }
}

/// Zeros before a number change nothing.
pub proof fn leading_zeros_count_nothing(k: nat, s: Seq<char>)
    requires
        only_digits(s),
    ensures
        only_digits(zeros(k) + s),
        digits_value(zeros(k) + s) == digits_value(s),
    decreases k,
{
    if k == 0 {
        assert(zeros(0) + s =~= s);
    } else {
        let less = zeros((k - 1) as nat) + s;
        leading_zeros_count_nothing((k - 1) as nat, s);
        assert(zeros(k) + s =~= seq!['0'] + less);
        digits_value_prepend('0', less);
        assert(0 * pow10(less.len()) == 0) by (nonlinear_arith);
        assert forall|i: int| 0 <= i < (zeros(k) + s).len() implies text::ascii_digit(
            #[trigger] (zeros(k) + s)[i],
        ) by {
            if i > 0 {
                assert((zeros(k) + s)[i] == less[i - 1]);
            }
        }
    }
}

proof fn spelled_reads_back(magnitude: nat, scale: nat)
    ensures
        numeral(spelled(magnitude, scale)) matches Some((digits, n)) && n == scale
            && digits_value(digits) == magnitude,
        spelled(magnitude, scale).len() > 0,
        text::ascii_digit(spelled(magnitude, scale)[0]),
{
    reveal_strlit(".");
    let shown = text::decimal(magnitude);
    text::decimal_is_digits(magnitude);
    decimal_reads_back(magnitude);
    let digits = padded(shown, scale + 1);
    if shown.len() < scale + 1 {
        leading_zeros_count_nothing((scale + 1 - shown.len()) as nat, shown);
    }
    let s = spelled(magnitude, scale);
    let k = digits.len() - scale;
    if scale == 0 {
        assert forall|i: int| 0 <= i < s.len() implies s[i] != '.' by {
            assert(text::ascii_digit(digits[i]));
        }
        dot_at_is(s, s.len() as int);
        assert(s.take(s.len() as int) =~= s);
        assert(s + Seq::<char>::empty() =~= s);
        assert(text::ascii_digit(digits[0]));
    } else {
        let whole = digits.take(k);
        let fraction = digits.skip(k);
        assert(s[k] == '.');
        assert forall|i: int| 0 <= i < k implies s[i] != '.' by {
            assert(s[i] == digits[i]);
            assert(text::ascii_digit(digits[i]));
        }
        dot_at_is(s, k);
        assert(s.take(k) =~= whole);
        assert(s.skip(k + 1) =~= fraction);
        assert forall|i: int| 0 <= i < whole.len() implies text::ascii_digit(
            #[trigger] whole[i],
        ) by {
            assert(whole[i] == digits[i]);
        }
        assert forall|i: int| 0 <= i < fraction.len() implies text::ascii_digit(
            #[trigger] fraction[i],
        ) by {
            assert(fraction[i] == digits[i + k]);
        }
        assert(whole + fraction =~= digits);
        assert(s[0] == digits[0]);
        assert(text::ascii_digit(digits[0]));
    }
}

/// Reading a number's spelling gives the number back, with all its decimal
/// places.
pub proof fn spelling_reads_back(v: NumericView)
    ensures
        number_of(v.spelling()) == Some(v),
{
    reveal_strlit("-");
    let m = absolute(v.mantissa);
    let body = spelled(m, v.scale);
    spelled_reads_back(m, v.scale);
    let s = v.spelling();
    if v.mantissa < 0 {
        assert(s[0] == '-');
        assert(s.skip(1) =~= body);
    } else {
        assert(s == body);
    }
}

/// Which operand of a sum comes first makes no difference.
pub proof fn sum_is_commutative(a: NumericView, b: NumericView)
    ensures
        sum(a, b) == sum(b, a),
{
}

proof fn units_regrouped(v: NumericView, s: nat, t: nat)
    requires
        v.scale <= s <= t,
    ensures
        units(v, t) == units(v, s) * pow10((t - s) as nat),
{
    pow10_adds((s - v.scale) as nat, (t - s) as nat);
    assert((s - v.scale) as nat + (t - s) as nat == (t - v.scale) as nat);
    let m = v.mantissa;
    let p = pow10((s - v.scale) as nat) as int;
    let q = pow10((t - s) as nat) as int;
    assert(m * (p * q) == (m * p) * q) by (nonlinear_arith);
}

/// How the terms of a sum are grouped makes no difference.
pub proof fn sum_is_associative(a: NumericView, b: NumericView, c: NumericView)
    ensures
        sum(sum(a, b), c) == sum(a, sum(b, c)),
{
    let ab = larger(a.scale, b.scale);
    let bc = larger(b.scale, c.scale);
    let s = larger(ab, c.scale);
    units_regrouped(a, ab, s);
    units_regrouped(b, ab, s);
    units_regrouped(b, bc, s);
    units_regrouped(c, bc, s);
    let x = units(a, ab);
    let y = units(b, ab);
    let p = pow10((s - ab) as nat) as int;
    assert((x + y) * p == x * p + y * p) by (nonlinear_arith);
    let u = units(b, bc);
    let w = units(c, bc);
    let q = pow10((s - bc) as nat) as int;
    assert((u + w) * q == u * q + w * q) by (nonlinear_arith);
    let o = units(a, s);
    assert(pow10(0) == 1);
    let z = units(sum(a, b), s);
}

/// A sum can be undone: adding the opposite of a term leaves the value of the
/// other.
pub proof fn sum_is_invertible(a: NumericView, b: NumericView)
    ensures
        order_by_value(
            sum(sum(a, b), NumericView { mantissa: -b.mantissa, scale: b.scale }),
            a,
        ) == Order::Same,
{
    let n = NumericView { mantissa: -b.mantissa, scale: b.scale };
    sum_is_associative(a, b, n);
    let z = sum(b, n);
    assert(pow10(0) == 1);
    let m = b.mantissa;
    assert(m * 1 + (-m) * 1 == 0) by (nonlinear_arith);
    assert(units(b, b.scale) == m) by (nonlinear_arith)
        requires
            units(b, b.scale) == m * pow10(0),
            pow10(0) == 1,
    ;
    assert(units(n, b.scale) == -m) by (nonlinear_arith)
        requires
            units(n, b.scale) == (-m) * pow10(0),
            pow10(0) == 1,
    ;
    assert(z.mantissa == 0);
    let s = larger(a.scale, z.scale);
    assert(units(z, s) == 0) by (nonlinear_arith)
        requires
            units(z, s) == z.mantissa * pow10((s - z.scale) as nat),
            z.mantissa == 0,
    ;
    let r = sum(a, z);
    assert(r.scale == s);
    assert(units(r, s) == r.mantissa) by (nonlinear_arith)
        requires
            units(r, s) == r.mantissa * pow10(0),
            pow10(0) == 1,
    ;
}

/// Two numbers are ordered as the units they come to at any scale that holds
/// both.
pub proof fn order_at_any_scale(a: NumericView, b: NumericView, s: nat)
    requires
        a.scale <= s,
        b.scale <= s,
    ensures
        order_by_value(a, b) == order_of(units(a, s), units(b, s)),
{
    let t = larger(a.scale, b.scale);
    let k = pow10((s - t) as nat);
    units_regrouped(a, t, s);
    units_regrouped(b, t, s);
    pow10_positive((s - t) as nat);
    let x = units(a, t);
    let y = units(b, t);
    assert((x < y ==> x * k < y * k) && (x > y ==> x * k > y * k)) by (nonlinear_arith)
        requires
            k > 0,
    ;
}

/// The order by value is transitive and turns round with its operands, and
/// equal values take part in it alike.
pub proof fn values_are_ordered(a: NumericView, b: NumericView, c: NumericView)
    ensures
        order_by_value(a, a) == Order::Same,
        order_by_value(a, b) == Order::Less <==> order_by_value(b, a) == Order::Greater,
        order_by_value(a, b) != Order::Greater && order_by_value(b, c) != Order::Greater
            ==> order_by_value(a, c) != Order::Greater,
        order_by_value(a, b) == Order::Same ==> order_by_value(a, c) == order_by_value(b, c)
            && order_by_value(c, a) == order_by_value(c, b),
{
    let s = larger(a.scale, larger(b.scale, c.scale));
    order_at_any_scale(a, a, s);
    order_at_any_scale(a, b, s);
    order_at_any_scale(b, a, s);
    order_at_any_scale(b, c, s);
    order_at_any_scale(c, b, s);
    order_at_any_scale(a, c, s);
    order_at_any_scale(c, a, s);
}

/// Sums of equal values are equal in value.
pub proof fn sums_keep_values(a: NumericView, b: NumericView, x: NumericView, y: NumericView)
    requires
        order_by_value(a, x) == Order::Same,
        order_by_value(b, y) == Order::Same,
    ensures
        order_by_value(sum(a, b), sum(x, y)) == Order::Same,
{
    let ab = larger(a.scale, b.scale);
    let xy = larger(x.scale, y.scale);
    let s = larger(ab, xy);
    order_at_any_scale(a, x, s);
    order_at_any_scale(b, y, s);
    order_at_any_scale(sum(a, b), sum(x, y), s);
    units_regrouped(a, ab, s);
    units_regrouped(b, ab, s);
    units_regrouped(x, xy, s);
    units_regrouped(y, xy, s);
    let k = pow10((s - ab) as nat);
    let l = pow10((s - xy) as nat);
    let (ua, ub, ux, uy) = (units(a, ab), units(b, ab), units(x, xy), units(y, xy));
    assert((ua + ub) * k == ua * k + ub * k) by (nonlinear_arith);
    assert((ux + uy) * l == ux * l + uy * l) by (nonlinear_arith);
}

proof fn double_at_scale(n: NumericView, s: nat)
    requires
        n.scale <= s,
    ensures
        double_value(n) == float::double_of(
            units(n, s) < 0,
            absolute(units(n, s)),
            pow10(s),
        ),
{
    let f = pow10((s - n.scale) as nat);
    let m = absolute(n.mantissa);
    let w = crate::binary::pow2(1074);
    pow10_positive((s - n.scale) as nat);
    pow10_positive(n.scale);
    pow10_adds(n.scale, (s - n.scale) as nat);
    crate::binary::nearest_cancels(53, m * w, pow10(n.scale), f);
    let x = n.mantissa;
    assert((x < 0 <==> x * f < 0) && absolute(x * f) == absolute(x) * f) by (nonlinear_arith)
        requires
            f > 0,
            absolute(x) == (if x < 0 {
                -x
            } else {
                x
            }),
            absolute(x * f) == (if x * f < 0 {
                -(x * f)
            } else {
                x * f
            }),
    ;
    assert((m * f) * w == (m * w) * f) by (nonlinear_arith);
}

/// Numbers of the same value have the same double precision value.
pub proof fn doubles_go_by_value(a: NumericView, b: NumericView)
    requires
        order_by_value(a, b) == Order::Same,
    ensures
        double_value(a) == double_value(b),
{
    let s = larger(a.scale, b.scale);
    double_at_scale(a, s);
    double_at_scale(b, s);
}

} // verus!
