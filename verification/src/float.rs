//! Postgres's binary floating-point types: their values, their order and how
//! they are spelled.
//!
//! Values are told by whole numbers: a finite one is a number of binary digits
//! times a power of two. Unlike IEEE 754 has it, a value that is not a number
//! equals itself and comes behind all others, so that values can be sorted and
//! grouped.

use std::cmp::Ordering;

use vstd::prelude::*;

use crate::binary::{
    few_digits_are_kept, nearest, nearest_is_exact, nearest_is_normal, normal, pow2, pow2_adds,
    pow2_positive, round_binary, round_ratio, small_powers,
};
pub use crate::float_text::{parse, render};
use crate::natural::{Natural, Order};
use crate::text;

verus! {

/// Which of Postgres's two binary float widths a value has, narrowest first.
#[derive(Debug, Clone, Copy, PartialEq, Eq, PartialOrd, Ord, Hash, Structural)]
pub enum FloatWidth {
    /// `real` / `float4`, IEEE binary32.
    Float4,
    /// `double precision` / `float8`, IEEE binary64.
    Float8,
}

/// Why a float operation failed, in Postgres's own wording.
#[derive(Debug, PartialEq, Eq)]
pub enum FloatError {
    /// A computed result left the width's finite range.
    OutOfRange { width: FloatWidth },
    /// Text that is not a canonical float rendering at all.
    Invalid { width: FloatWidth, text: String },
}

impl FloatError {
    pub open spec fn message(&self) -> Seq<char> {
        match self {
            FloatError::OutOfRange { .. } => "value out of range: overflow"@,
            FloatError::Invalid { width, text } => "invalid input syntax for type "@
                + width.pg_name_spec() + ": \""@ + text@ + "\""@,
        }
    }

    /// The message Postgres gives for the same failure.
    pub fn to_string(&self) -> (r: String)
        ensures
            r@ == self.message(),
    {
        match self {
            FloatError::OutOfRange { .. } => "value out of range: overflow".to_owned(),
            FloatError::Invalid { width, text } => {
                let mut m = "invalid input syntax for type ".to_owned();
                m.append(width.pg_name());
                m.append(": \"");
                m.append(text.as_str());
                m.append("\"");
                m
            },
        }
    }
}

impl FloatWidth {
    /// Every width, narrowest first.
    pub const ALL: [FloatWidth; 2] = [FloatWidth::Float4, FloatWidth::Float8];

    pub open spec fn pg_name_spec(self) -> Seq<char> {
        match self {
            FloatWidth::Float4 => "real"@,
            FloatWidth::Float8 => "double precision"@,
        }
    }

    /// The Postgres spelling of this width: the SQL keyword of a column of
    /// the type, the token it is persisted as, and the keyword of its
    /// literals.
    pub fn pg_name(self) -> (r: &'static str)
        ensures
            r@ == self.pg_name_spec(),
    {
        match self {
            FloatWidth::Float4 => "real",
            FloatWidth::Float8 => "double precision",
        }
    }

    /// The width that `text` names, if it names one.
    pub fn from_pg_name(text: &str) -> (r: Option<FloatWidth>)
        ensures
            match r {
                Some(w) => text@ == w.pg_name_spec(),
                None => forall|w: FloatWidth| text@ != #[trigger] w.pg_name_spec(),
            },
    {
        if *text == *"real" {
            Some(FloatWidth::Float4)
        } else if *text == *"double precision" {
            Some(FloatWidth::Float8)
        } else {
            None
        }
    }

    pub open spec fn wider_spec(self, other: FloatWidth) -> FloatWidth {
        if self == FloatWidth::Float4 && other == FloatWidth::Float4 {
            FloatWidth::Float4
        } else {
            FloatWidth::Float8
        }
    }

    /// The wider of the two widths: the result width of a mixed-width
    /// operation.
    pub fn wider(self, other: FloatWidth) -> (r: FloatWidth)
        ensures
            r == self.wider_spec(other),
    {
        match (self, other) {
            (FloatWidth::Float4, FloatWidth::Float4) => FloatWidth::Float4,
            _ => FloatWidth::Float8,
        }
    }

    pub open spec fn decimal_digits_spec(self) -> int {
        match self {
            FloatWidth::Float4 => 6,
            FloatWidth::Float8 => 15,
        }
    }

    /// The decimal exponent from which a value is printed in scientific
    /// rather than fixed notation.
    pub fn decimal_digits(self) -> (r: i32)
        ensures
            r == self.decimal_digits_spec(),
    {
        match self {
            FloatWidth::Float4 => 6,
            FloatWidth::Float8 => 15,
        }
    }
}

/// Reading a width's name gives the width back, and no two widths share one.
pub proof fn float_width_names_round_trip(a: FloatWidth, b: FloatWidth)
    ensures
        a.pg_name_spec() == b.pg_name_spec() ==> a == b,
{
    reveal_strlit("real");
    reveal_strlit("double precision");
    assert(a.pg_name_spec().len() == b.pg_name_spec().len() ==> a == b);
}

// ---------------------------------------------------------------------------
// Values
// ---------------------------------------------------------------------------

impl FloatWidth {
    /// How many binary digits a value has.
    pub open spec fn precision(self) -> nat {
        match self {
            FloatWidth::Float4 => 24,
            FloatWidth::Float8 => 53,
        }
    }

    /// The least positive value is two to the power of this, negated.
    pub open spec fn unit(self) -> nat {
        match self {
            FloatWidth::Float4 => 149,
            FloatWidth::Float8 => 1074,
        }
    }

    /// The highest power of two that digits are multiplied by, in units.
    pub open spec fn most(self) -> nat {
        match self {
            FloatWidth::Float4 => 253,
            FloatWidth::Float8 => 2045,
        }
    }
}

/// What a [`Float`] stands for. A finite value is `significand * 2^shift`
/// times the least positive one, `2^-1074`.
pub enum FloatView {
    NaN,
    Infinity { negative: bool },
    Finite { negative: bool, significand: nat, shift: nat },
}

/// A value of the wider width, in the bits that IEEE 754 spells it in.
#[derive(Debug, Clone, Copy, PartialEq, Eq, Structural)]
pub struct Float {
    pub bits: u64,
}

/// The value that bits spell: a sign, eleven bits of exponent, and fifty-two
/// of digits.
pub open spec fn value_of_bits(bits: u64) -> FloatView {
    let negative = bits >= 0x8000_0000_0000_0000;
    let rest = bits as nat % 0x8000_0000_0000_0000;
    let exponent = rest / 0x10_0000_0000_0000;
    let fraction = rest % 0x10_0000_0000_0000;
    if exponent == 2047 {
        if fraction == 0 {
            FloatView::Infinity { negative }
        } else {
            FloatView::NaN
        }
    } else if exponent == 0 {
        FloatView::Finite { negative, significand: fraction, shift: 0 }
    } else {
        FloatView::Finite {
            negative,
            significand: fraction + 0x10_0000_0000_0000,
            shift: (exponent - 1) as nat,
        }
    }
}

impl View for Float {
    type V = FloatView;

    open spec fn view(&self) -> FloatView {
        value_of_bits(self.bits)
    }
}

impl FloatView {
    /// A finite value without its sign, in units of `2^-1074`.
    pub open spec fn magnitude(self) -> nat {
        match self {
            FloatView::Finite { negative, significand, shift } => significand * pow2(shift),
            _ => 0,
        }
    }

    /// A finite value in units of `2^-1074`.
    pub open spec fn amount(self) -> int {
        match self {
            FloatView::Finite { negative, .. } => if negative {
                -(self.magnitude() as int)
            } else {
                self.magnitude() as int
            },
            _ => 0,
        }
    }
}

/// The finite value of the given digits and power of two, in units of
/// `2^-1074`, or an infinite one where the power is too high.
pub open spec fn finite_or_infinite(negative: bool, mk: (nat, nat)) -> FloatView {
    if mk.1 > 2045 {
        FloatView::Infinity { negative }
    } else {
        FloatView::Finite { negative, significand: mk.0, shift: mk.1 }
    }
}

/// The digits and power of two of a finite value at a width, in units of the
/// width.
pub open spec fn narrowed(w: FloatWidth, magnitude: nat) -> (nat, nat) {
    match w {
        FloatWidth::Float4 => nearest(24, magnitude, pow2(925)),
        FloatWidth::Float8 => nearest(53, magnitude, 1),
    }
}

/// The value of the given digits and power of two at a width.
pub open spec fn carried(w: FloatWidth, negative: bool, mk: (nat, nat)) -> FloatView {
    if mk.1 > w.most() {
        FloatView::Infinity { negative }
    } else {
        match w {
            FloatWidth::Float4 => finite_or_infinite(
                negative,
                nearest(53, mk.0 * pow2(mk.1 + 925), 1),
            ),
            FloatWidth::Float8 => finite_or_infinite(negative, mk),
        }
    }
}

/// The nearest value that the width holds.
pub open spec fn rounded(w: FloatWidth, v: FloatView) -> FloatView {
    match v {
        FloatView::Finite { negative, .. } => carried(w, negative, narrowed(w, v.magnitude())),
        _ => v,
    }
}

/// A value taken apart.
pub(crate) enum Decoded {
    NaN,
    Infinity { negative: bool },
    Finite { negative: bool, significand: u64, shift: u128 },
}

impl Decoded {
    pub(crate) open spec fn view(&self) -> FloatView {
        match self {
            Decoded::NaN => FloatView::NaN,
            Decoded::Infinity { negative } => FloatView::Infinity { negative: *negative },
            Decoded::Finite { negative, significand, shift } => FloatView::Finite {
                negative: *negative,
                significand: *significand as nat,
                shift: *shift as nat,
            },
        }
    }
}

/// A finite value's digits fill the precision, unless its power of two is the
/// lowest.
pub proof fn finite_values_are_normal(f: Float)
    ensures
        f@ matches FloatView::Finite { negative, significand, shift } ==> normal(
            53,
            significand,
            shift,
        ) && shift <= 2045,
{
    small_powers();
}

impl Float {
    /// The value that the bits spell.
    pub fn from_bits(bits: u64) -> (r: Float)
        ensures
            r.bits == bits,
            r@ == value_of_bits(bits),
    {
        Float { bits }
    }

    /// The bits that spell the value.
    pub fn to_bits(self) -> (r: u64)
        ensures
            r == self.bits,
    {
        self.bits
    }

    pub(crate) fn decode(self) -> (r: Decoded)
        ensures
            r.view() == self@,
            r matches Decoded::Finite { negative, significand, shift } ==> shift <= 2045,
    {
        let negative = self.bits >= 0x8000_0000_0000_0000;
        let rest: u64 = self.bits % 0x8000_0000_0000_0000;
        let exponent: u64 = rest / 0x10_0000_0000_0000;
        let fraction: u64 = rest % 0x10_0000_0000_0000;
        if exponent == 2047 {
            if fraction == 0 {
                Decoded::Infinity { negative }
            } else {
                Decoded::NaN
            }
        } else if exponent == 0 {
            Decoded::Finite { negative, significand: fraction, shift: 0 }
        } else {
            Decoded::Finite {
                negative,
                significand: fraction + 0x10_0000_0000_0000,
                shift: (exponent - 1) as u128,
            }
        }
    }

    pub(crate) fn nan() -> (r: Float)
        ensures
            r@ == FloatView::NaN,
    {
        Float { bits: 0x7ff8_0000_0000_0000 }
    }

    pub(crate) fn infinity(negative: bool) -> (r: Float)
        ensures
            r@ == (FloatView::Infinity { negative }),
    {
        if negative {
            Float { bits: 0xfff0_0000_0000_0000 }
        } else {
            Float { bits: 0x7ff0_0000_0000_0000 }
        }
    }

    /// The value of the given digits and power of two.
    fn encode(negative: bool, significand: u64, shift: u128) -> (r: Float)
        requires
            normal(53, significand as nat, shift as nat),
        ensures
            r@ == finite_or_infinite(negative, (significand as nat, shift as nat)),
    {
        proof {
            small_powers();
        }
        if shift > 2045 {
            return Float::infinity(negative);
        }
        let sign: u64 = if negative {
            0x8000_0000_0000_0000
        } else {
            0
        };
        let body: u64 = if significand < 0x10_0000_0000_0000 {
            significand
        } else {
            (shift as u64 + 1) * 0x10_0000_0000_0000 + (significand - 0x10_0000_0000_0000)
        };
        let bits: u64 = sign + body;
        assert(bits as nat % 0x8000_0000_0000_0000 == body);
        if significand >= 0x10_0000_0000_0000 {
            assert(body / 0x10_0000_0000_0000 == shift + 1);
            assert(body % 0x10_0000_0000_0000 == significand - 0x10_0000_0000_0000);
        }
        Float { bits }
    }
}

/// A finite value without its sign, in units of `2^-1074`.
pub(crate) fn magnitude_of(significand: u64, shift: u128) -> (r: Natural)
    ensures
        r@ == significand as nat * pow2(shift as nat),
{
    Natural::from_u128(significand as u128).doubled(shift)
}

/// The digits and power of two at a width.
pub(crate) fn narrow(w: FloatWidth, magnitude: &Natural) -> (r: (u64, u128))
    ensures
        (r.0 as nat, r.1 as nat) == narrowed(w, magnitude@),
        normal(w.precision(), r.0 as nat, r.1 as nat),
{
    let one = Natural::from_u128(1);
    proof {
        pow2_positive(925);
        assert(1 * pow2(925) == pow2(925)) by (nonlinear_arith);
        nearest_is_normal(24, magnitude@, pow2(925));
        nearest_is_normal(53, magnitude@, 1);
    }
    match w {
        FloatWidth::Float4 => round_binary(24, magnitude, &one.doubled(925)),
        FloatWidth::Float8 => round_binary(53, magnitude, &one),
    }
}

/// The value of the given digits and power of two at a width.
pub(crate) fn carry(w: FloatWidth, negative: bool, m: u64, k: u128) -> (r: Float)
    requires
        normal(w.precision(), m as nat, k as nat),
    ensures
        r@ == carried(w, negative, (m as nat, k as nat)),
{
    match w {
        FloatWidth::Float4 => {
            if k > 253 {
                return Float::infinity(negative);
            }
            let n = Natural::from_u128(m as u128).doubled(k + 925);
            let one = Natural::from_u128(1);
            let (m8, k8) = round_binary(53, &n, &one);
            proof {
                nearest_is_normal(53, n@, 1);
            }
            Float::encode(negative, m8, k8)
        },
        FloatWidth::Float8 => Float::encode(negative, m, k),
    }
}

impl FloatWidth {
    /// The nearest value that the width holds.
    pub fn round(self, value: Float) -> (r: Float)
        ensures
            r@ == rounded(self, value@),
    {
        match value.decode() {
            Decoded::Finite { negative, significand, shift } => {
                let n = magnitude_of(significand, shift);
                let (m, k) = narrow(self, &n);
                carry(self, negative, m, k)
            },
            _ => value,
        }
    }
}

/// The digits and power of two of a value at a width are found again in the
/// value.
pub proof fn carried_is_narrowed_back(w: FloatWidth, negative: bool, mk: (nat, nat))
    requires
        normal(w.precision(), mk.0, mk.1),
        mk.1 <= w.most(),
    ensures
        carried(w, negative, mk) matches FloatView::Finite { negative: s, significand, shift } && s
            == negative && normal(53, significand, shift) && shift <= 2045,
        narrowed(w, carried(w, negative, mk).magnitude()) == mk,
{
    let (m, k) = mk;
    match w {
        FloatWidth::Float4 => {
            let n = m * pow2(k + 925);
            let (m8, k8) = nearest(53, n, 1);
            nearest_is_normal(53, n, 1);
            // The value has few enough digits to be kept as it is.
            small_powers();
            few_digits_are_kept(53, m, k + 925);
            pow2_adds(k, 925);
            pow2_positive(925);
            let a = pow2(k) as int;
            let b = pow2(925) as int;
            assert(m * pow2(k + 925) == m * pow2(k) * pow2(925)) by (nonlinear_arith)
                requires
                    pow2(k + 925) == a * b,
                    a == pow2(k),
                    b == pow2(925),
            ;
            nearest_is_exact(24, m, k, pow2(925));
        },
        FloatWidth::Float8 => {
            assert(m * pow2(k) * 1 == m * pow2(k)) by (nonlinear_arith);
            nearest_is_exact(53, m, k, 1);
        },
    }
}

// ---------------------------------------------------------------------------
// Order
// ---------------------------------------------------------------------------

/// Where a value comes among the kinds: below all finite ones, one of them,
/// above them, and not a number behind all.
pub open spec fn rank(v: FloatView) -> int {
    match v {
        FloatView::Infinity { negative } => if negative {
            0
        } else {
            2
        },
        FloatView::Finite { .. } => 1,
        FloatView::NaN => 3,
    }
}

/// The order of two values. Both zeros are the same, and so is what is not a
/// number.
pub open spec fn order_of_floats(a: FloatView, b: FloatView) -> Order {
    if rank(a) != rank(b) {
        if rank(a) < rank(b) {
            Order::Less
        } else {
            Order::Greater
        }
    } else if a.amount() < b.amount() {
        Order::Less
    } else if a.amount() > b.amount() {
        Order::Greater
    } else {
        Order::Same
    }
}

fn rank_of(v: &Decoded) -> (r: u8)
    ensures
        r == rank(v.view()),
{
    match v {
        Decoded::Infinity { negative } => if *negative {
            0
        } else {
            2
        },
        Decoded::Finite { .. } => 1,
        Decoded::NaN => 3,
    }
}

/// The order of two values.
pub fn order_floats(a: Float, b: Float) -> (r: Order)
    ensures
        r == order_of_floats(a@, b@),
{
    let x = a.decode();
    let y = b.decode();
    let i: u8 = rank_of(&x);
    let j: u8 = rank_of(&y);
    if i < j {
        return Order::Less;
    }
    if i > j {
        return Order::Greater;
    }
    if let (
        Decoded::Finite { negative: s, significand: m, shift: k },
        Decoded::Finite { negative: t, significand: n, shift: l },
    ) = (x, y) {
        let p = magnitude_of(m, k);
        let q = magnitude_of(n, l);
        if s == t {
            return if s {
                q.order(&p)
            } else {
                p.order(&q)
            };
        }
        if p.is_zero() && q.is_zero() {
            return Order::Same;
        }
        return if s {
            Order::Less
        } else {
            Order::Greater
        };
    }
    Order::Same
}

/// The order of two values: what is not a number equals itself and comes
/// behind all others, and both zeros are equal.
pub fn compare(a: Float, b: Float) -> (r: Ordering)
    ensures
        match order_of_floats(a@, b@) {
            Order::Less => r == Ordering::Less,
            Order::Same => r == Ordering::Equal,
            Order::Greater => r == Ordering::Greater,
        },
{
    match order_floats(a, b) {
        Order::Less => Ordering::Less,
        Order::Same => Ordering::Equal,
        Order::Greater => Ordering::Greater,
    }
}

/// Whether two values are equal in that order.
pub fn equal(a: Float, b: Float) -> (r: bool)
    ensures
        r == (order_of_floats(a@, b@) == Order::Same),
{
    match order_floats(a, b) {
        Order::Same => true,
        _ => false,
    }
}

/// The order of values is total and strict.
pub proof fn floats_are_ordered(a: FloatView, b: FloatView, c: FloatView)
    ensures
        order_of_floats(a, a) == Order::Same,
        order_of_floats(a, b) == Order::Less <==> order_of_floats(b, a) == Order::Greater,
        order_of_floats(a, b) == Order::Same <==> order_of_floats(b, a) == Order::Same,
        order_of_floats(a, b) != Order::Greater && order_of_floats(b, c) != Order::Greater
            ==> order_of_floats(a, c) != Order::Greater,
{
}

// ---------------------------------------------------------------------------
// Addition
// ---------------------------------------------------------------------------

/// The sum, rounded to the wider width.
pub open spec fn float_sum(a: FloatView, b: FloatView) -> FloatView {
    match (a, b) {
        (FloatView::NaN, _) => FloatView::NaN,
        (_, FloatView::NaN) => FloatView::NaN,
        (FloatView::Infinity { negative: s }, FloatView::Infinity { negative: t }) => if s == t {
            a
        } else {
            FloatView::NaN
        },
        (FloatView::Infinity { .. }, _) => a,
        (_, FloatView::Infinity { .. }) => b,
        (FloatView::Finite { negative: s, .. }, FloatView::Finite { negative: t, .. }) => {
            let total = a.amount() + b.amount();
            if total == 0 {
                FloatView::Finite { negative: s && t, significand: 0, shift: 0 }
            } else if total < 0 {
                finite_or_infinite(true, nearest(53, (-total) as nat, 1))
            } else {
                finite_or_infinite(false, nearest(53, total as nat, 1))
            }
        },
    }
}

/// The sum of two values of the given widths, at the wider of them; none where
/// it leaves the range though neither value does.
pub open spec fn checked_sum(
    a: FloatView,
    a_width: FloatWidth,
    b: FloatView,
    b_width: FloatWidth,
) -> Option<FloatView> {
    let sum = rounded(a_width.wider_spec(b_width), float_sum(a, b));
    if sum is Infinity && a is Finite && b is Finite {
        None
    } else {
        Some(sum)
    }
}

fn add_floats(a: Float, b: Float) -> (r: Float)
    ensures
        r@ == float_sum(a@, b@),
{
    match (a.decode(), b.decode()) {
        (Decoded::NaN, _) => Float::nan(),
        (_, Decoded::NaN) => Float::nan(),
        (Decoded::Infinity { negative: s }, Decoded::Infinity { negative: t }) => if s == t {
            a
        } else {
            Float::nan()
        },
        (Decoded::Infinity { .. }, _) => a,
        (_, Decoded::Infinity { .. }) => b,
        (
            Decoded::Finite { negative: s, significand: m, shift: k },
            Decoded::Finite { negative: t, significand: n, shift: l },
        ) => {
            let p = magnitude_of(m, k);
            let q = magnitude_of(n, l);
            if s == t {
                sum_of(s, s, &p.plus(&q))
            } else {
                match p.order(&q) {
                    Order::Less => sum_of(t, false, &q.minus(&p)),
                    _ => sum_of(s, false, &p.minus(&q)),
                }
            }
        },
    }
}

/// The value of an exact sum; `zero` is the sign that it has if it is none.
fn sum_of(negative: bool, zero: bool, total: &Natural) -> (r: Float)
    ensures
        r@ == (if total@ == 0 {
            FloatView::Finite { negative: zero, significand: 0, shift: 0 }
        } else {
            finite_or_infinite(negative, nearest(53, total@, 1))
        }),
{
    let one = Natural::from_u128(1);
    proof {
        nearest_is_normal(53, total@, 1);
    }
    let (m, k) = round_binary(53, total, &one);
    if total.is_zero() {
        Float::encode(zero, m, k)
    } else {
        Float::encode(negative, m, k)
    }
}

/// The sum of two values of the given widths, at the wider of them, as
/// Postgres adds them: a sum that leaves the range is an error, unless one of
/// the values was infinite.
pub fn checked_add(a: Float, a_width: FloatWidth, b: Float, b_width: FloatWidth) -> (r: Result<
    (Float, FloatWidth),
    FloatError,
>)
    ensures
        match r {
            Ok((sum, w)) => checked_sum(a@, a_width, b@, b_width) == Some(sum@) && w
                == a_width.wider_spec(b_width),
            Err(e) => checked_sum(a@, a_width, b@, b_width) is None && e
                == (FloatError::OutOfRange { width: a_width.wider_spec(b_width) }),
        },
{
    let width = a_width.wider(b_width);
    let sum = width.round(add_floats(a, b));
    let infinite = match sum.decode() {
        Decoded::Infinity { .. } => true,
        _ => false,
    };
    let finite = match (a.decode(), b.decode()) {
        (Decoded::Finite { .. }, Decoded::Finite { .. }) => true,
        _ => false,
    };
    if infinite && finite {
        Err(FloatError::OutOfRange { width })
    } else {
        Ok((sum, width))
    }
}

// ---------------------------------------------------------------------------
// Quotients
// ---------------------------------------------------------------------------

/// The double precision value nearest to `n / d`.
pub open spec fn double_of(negative: bool, n: nat, d: nat) -> FloatView {
    finite_or_infinite(negative, nearest(53, n * pow2(1074), d))
}

/// The double precision value nearest to `n / d`.
pub fn double_ratio(negative: bool, n: &Natural, d: &Natural) -> (r: Float)
    requires
        d@ > 0,
    ensures
        r@ == double_of(negative, n@, d@),
{
    proof {
        nearest_is_normal(53, n@ * pow2(1074), d@);
    }
    let (m, k) = round_ratio(53, n, 1074, d);
    Float::encode(negative, m, k)
}

/// The double precision value nearest to the `n`th part of `v`.
pub open spec fn part_of(v: FloatView, n: nat) -> FloatView {
    match v {
        FloatView::Finite { negative, .. } => finite_or_infinite(
            negative,
            nearest(53, v.magnitude(), n),
        ),
        _ => v,
    }
}

impl Float {
    /// The double precision value nearest to the `n`th part of this one.
    pub fn divided_by(self, n: u128) -> (r: Float)
        requires
            n > 0,
        ensures
            r@ == part_of(self@, n as nat),
    {
        match self.decode() {
            Decoded::Finite { negative, significand, shift } => {
                let total = magnitude_of(significand, shift);
                proof {
                    nearest_is_normal(53, total@, n as nat);
                }
                let (m, k) = round_binary(53, &total, &Natural::from_u128(n));
                Float::encode(negative, m, k)
            },
            _ => self,
        }
    }

    /// Whether the value is infinite.
    pub fn is_infinite(self) -> (r: bool)
        ensures
            r == (self@ is Infinity),
    {
        match self.decode() {
            Decoded::Infinity { .. } => true,
            _ => false,
        }
    }
}

/// Addition does not depend on the order of its operands.
pub proof fn float_sums_commute(
    a: FloatView,
    a_width: FloatWidth,
    b: FloatView,
    b_width: FloatWidth,
)
    ensures
        checked_sum(a, a_width, b, b_width) == checked_sum(b, b_width, a, a_width),
{
}

proof fn zero_stays(w: FloatWidth, negative: bool)
    ensures
        rounded(w, (FloatView::Finite { negative, significand: 0, shift: 0 })) is Finite,
        rounded(w, (FloatView::Finite { negative, significand: 0, shift: 0 })).amount() == 0,
{
    let zero = FloatView::Finite { negative, significand: 0, shift: 0 };
    crate::binary::small_powers();
    pow2_positive(925);
    pow2_positive(24);
    pow2_positive(53);
    assert(zero.magnitude() == 0) by (nonlinear_arith)
        requires
            zero.magnitude() == 0 * pow2(0),
    ;
    nearest_of_zero(24, pow2(925));
    nearest_of_zero(53, 1);
    assert(0 * pow2(925) == 0) by (nonlinear_arith);
    assert(0 * pow2(0) == 0) by (nonlinear_arith);
}

proof fn nearest_of_zero(p: nat, d: nat)
    requires
        d > 0,
    ensures
        nearest(p, 0, d) == (0nat, 0nat),
{
    pow2_positive(p);
    assert(pow2(0) == 1);
    assert(d * 1 == d) by (nonlinear_arith);
    vstd::arithmetic::div_mod::lemma_fundamental_div_mod_converse(0, d as int, 0, 0);
}

/// Sums of values that are the same in order are the same in order, and leave
/// the range together.
pub proof fn float_sums_keep_order(
    a: FloatView,
    b: FloatView,
    x: FloatView,
    y: FloatView,
    aw: FloatWidth,
    bw: FloatWidth,
)
    requires
        order_of_floats(a, x) == Order::Same,
        order_of_floats(b, y) == Order::Same,
    ensures
        match (checked_sum(a, aw, b, bw), checked_sum(x, aw, y, bw)) {
            (Some(s), Some(t)) => order_of_floats(s, t) == Order::Same,
            (None, None) => true,
            _ => false,
        },
{
    let w = aw.wider_spec(bw);
    zero_stays(w, true);
    zero_stays(w, false);
    if a is Finite && b is Finite {
        if a.amount() + b.amount() != 0 {
            assert(float_sum(a, b) == float_sum(x, y));
        }
    } else {
        assert(float_sum(a, b) == float_sum(x, y));
    }
}

} // verus!
