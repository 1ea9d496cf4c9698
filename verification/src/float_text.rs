//! How floating-point values are spelled: in the shortest decimal form that
//! reads back as the value.

use vstd::prelude::*;

use crate::binary::normal;
use crate::float::{
    carried, carry, magnitude_of, narrow, narrowed, rounded, Decoded, Float, FloatError, FloatView,
    FloatWidth,
};
use crate::natural::Natural;
use crate::numeric;
use crate::numeric::{numeral, zeros};
use crate::shortest;
use crate::shortest::decimal_nearest;
use crate::text;
use crate::text::decimal;

verus! {

// ---------------------------------------------------------------------------
// Writing
// ---------------------------------------------------------------------------

/// A whole number in at least two digits.
pub open spec fn two_digits(n: nat) -> Seq<char> {
    if n < 10 {
        "0"@ + decimal(n)
    } else {
        decimal(n)
    }
}

/// The value `c * 10^q`: in fixed notation where its first digit is neither too
/// far behind nor too far before the point, in scientific notation otherwise.
pub open spec fn formatted(w: FloatWidth, c: nat, q: int) -> Seq<char> {
    let s = decimal(c);
    let e = q + s.len() - 1;
    if -4 <= e < w.decimal_digits_spec() {
        if e < 0 {
            "0."@ + zeros((-e - 1) as nat) + s
        } else if s.len() <= e + 1 {
            s + zeros((e + 1 - s.len()) as nat)
        } else {
            s.take(e + 1) + "."@ + s.skip(e + 1)
        }
    } else {
        let digits = if s.len() == 1 {
            s
        } else {
            s.take(1) + "."@ + s.skip(1)
        };
        if e < 0 {
            digits + "e-"@ + two_digits((-e) as nat)
        } else {
            digits + "e+"@ + two_digits(e as nat)
        }
    }
}

/// `s` with a minus before it where `negative` is set.
pub open spec fn signed(negative: bool, s: Seq<char>) -> Seq<char> {
    if negative {
        "-"@ + s
    } else {
        s
    }
}

/// The text of a value at a width.
pub open spec fn rendered(w: FloatWidth, v: FloatView) -> Seq<char> {
    match v {
        FloatView::NaN => "NaN"@,
        FloatView::Infinity { negative } => signed(negative, "Infinity"@),
        FloatView::Finite { negative, .. } => {
            let (m, k) = narrowed(w, v.magnitude());
            signed(
                negative,
                if m == 0 {
                    "0"@
                } else {
                    formatted(
                        w,
                        shortest::digits(w.precision(), w.unit(), m, k),
                        shortest::scale(w.precision(), w.unit(), m, k),
                    )
                },
            )
        },
    }
}

/// A finite value that does not leave the range of the width.
pub open spec fn fits(w: FloatWidth, v: FloatView) -> bool {
    v is Finite ==> narrowed(w, v.magnitude()).1 <= w.most()
}

fn append_zeros(s: &mut String, n: usize)
    ensures
        final(s)@ == old(s)@ + zeros(n as nat),
{
    let mut i: usize = 0;
    assert(s@ =~= s@ + zeros(0));
    while i < n
        invariant
            0 <= i <= n,
            s@ == old(s)@ + zeros(i as nat),
        decreases n - i,
    {
        s.push('0');
        assert(s@ =~= old(s)@ + zeros((i + 1) as nat));
        i += 1;
    }
}

fn format_decimal(w: FloatWidth, c: &Natural, q: i128) -> (r: String)
    requires
        -2000 < q < 2000,
    ensures
        r@ == formatted(w, c@, q as int),
{
    let s = c.to_string();
    let cs = text::chars_of(s.as_str());
    let len: usize = cs.len();
    proof {
        text::decimal_is_digits(c@);
    }
    let e: i128 = q + len as i128 - 1;
    let mut r = String::new();
    if e >= -4 && e < w.decimal_digits() as i128 {
        if e < 0 {
            r.append("0.");
            append_zeros(&mut r, (-e - 1) as usize);
            r.append(s.as_str());
            assert(r@ =~= formatted(w, c@, q as int));
        } else if len as i128 <= e + 1 {
            r.append(s.as_str());
            append_zeros(&mut r, (e + 1 - len as i128) as usize);
            assert(r@ =~= formatted(w, c@, q as int));
        } else {
            let point: usize = (e + 1) as usize;
            r.append(text::string_of(&cs, 0, point).as_str());
            r.append(".");
            r.append(text::string_of(&cs, point, len).as_str());
            assert(cs@.subrange(0, point as int) =~= cs@.take(point as int));
            assert(cs@.subrange(point as int, len as int) =~= cs@.skip(point as int));
            assert(r@ =~= formatted(w, c@, q as int));
        }
    } else {
        if len == 1 {
            r.append(s.as_str());
        } else {
            r.append(text::string_of(&cs, 0, 1).as_str());
            r.append(".");
            r.append(text::string_of(&cs, 1, len).as_str());
            assert(cs@.subrange(0, 1) =~= cs@.take(1));
            assert(cs@.subrange(1, len as int) =~= cs@.skip(1));
        }
        let n: u128 = if e < 0 {
            r.append("e-");
            (-e) as u128
        } else {
            r.append("e+");
            e as u128
        };
        if n < 10 {
            r.append("0");
        }
        r.append(text::decimal_of(n).as_str());
        assert(r@ =~= formatted(w, c@, q as int));
    }
    r
}

fn precision_of(w: FloatWidth) -> (r: u128)
    ensures
        r == w.precision(),
{
    match w {
        FloatWidth::Float4 => 24,
        FloatWidth::Float8 => 53,
    }
}

fn unit_of(w: FloatWidth) -> (r: u128)
    ensures
        r == w.unit(),
{
    match w {
        FloatWidth::Float4 => 149,
        FloatWidth::Float8 => 1074,
    }
}

fn most_of(w: FloatWidth) -> (r: u128)
    ensures
        r == w.most(),
{
    match w {
        FloatWidth::Float4 => 253,
        FloatWidth::Float8 => 2045,
    }
}

/// The text of a value at a width, as Postgres prints it: the fewest digits
/// that read back as the value.
pub fn render(value: Float, width: FloatWidth) -> (r: String)
    requires
        fits(width, value@),
    ensures
        r@ == rendered(width, value@),
{
    match value.decode() {
        Decoded::NaN => text::owned("NaN"),
        Decoded::Infinity { negative } => if negative {
            text::cat2("-", "Infinity")
        } else {
            text::owned("Infinity")
        },
        Decoded::Finite { negative, significand, shift } => {
            let (m, k) = narrow(width, &magnitude_of(significand, shift));
            let mut r = if negative {
                text::owned("-")
            } else {
                String::new()
            };
            if m == 0 {
                r.append("0");
            } else {
                let (c, q) = shortest::shortest_decimal(
                    precision_of(width),
                    unit_of(width),
                    m,
                    k,
                );
                r.append(format_decimal(width, &c, q).as_str());
            }
            assert(r@ =~= rendered(width, value@));
            r
        },
    }
}

// ---------------------------------------------------------------------------
// Reading
// ---------------------------------------------------------------------------

/// The position of the first `e` or `E` at or behind `i`.
pub open spec fn marker_at(s: Seq<char>, i: int) -> int
    decreases s.len() - i,
{
    if i < 0 || i >= s.len() || s[i] == 'e' || s[i] == 'E' {
        i
    } else {
        marker_at(s, i + 1)
    }
}

/// The whole number that digits spell, with an optional sign.
pub open spec fn exponent_of(s: Seq<char>) -> Option<int> {
    let signed = s.len() > 0 && (s[0] == '-' || s[0] == '+');
    let digits = if signed {
        s.skip(1)
    } else {
        s
    };
    if digits.len() > 0 && numeric::only_digits(digits) {
        let n = text::digits_value(digits) as int;
        if s[0] == '-' {
            Some(-n)
        } else {
            Some(n)
        }
    } else {
        None
    }
}

/// A decimal number: its sign, its digits and its power of ten.
pub struct DecimalView {
    pub negative: bool,
    pub digits: nat,
    pub scale: int,
}

/// The decimal number that a text spells: digits with an optional sign, an
/// optional dot among them and an optional exponent.
pub open spec fn decimal_of_text(s: Seq<char>) -> Option<DecimalView> {
    let from = if s.len() > 0 && (s[0] == '-' || s[0] == '+') {
        1int
    } else {
        0
    };
    let body = s.skip(from);
    let e = marker_at(body, 0);
    match numeral(body.take(e)) {
        None => None,
        Some((digits, places)) => {
            let exponent = if e < body.len() {
                exponent_of(body.skip(e + 1))
            } else {
                Some(0int)
            };
            match exponent {
                None => None,
                Some(x) => Some(
                    DecimalView {
                        negative: from == 1 && s[0] == '-',
                        digits: text::digits_value(digits),
                        scale: x - places,
                    },
                ),
            }
        },
    }
}

/// The digits and power of two of a decimal number at a width.
pub open spec fn at_width(w: FloatWidth, d: DecimalView) -> (nat, nat) {
    decimal_nearest(w.precision(), w.unit(), d.digits, d.scale)
}

/// What reading a text as a value comes to.
pub enum Reading {
    /// The text is how the value is written.
    Value(FloatView),
    /// The number that the text spells, read in double precision, is in its
    /// range and leaves that of the width.
    OutOfRange,
    Invalid,
}

/// What reading a text as a value of a width comes to.
pub open spec fn reading(s: Seq<char>, w: FloatWidth) -> Reading {
    if s == "NaN"@ {
        Reading::Value(FloatView::NaN)
    } else if s == "Infinity"@ {
        Reading::Value(FloatView::Infinity { negative: false })
    } else if s == "-Infinity"@ {
        Reading::Value(FloatView::Infinity { negative: true })
    } else {
        match decimal_of_text(s) {
            None => Reading::Invalid,
            Some(d) => {
                let wide = carried(
                    FloatWidth::Float8,
                    d.negative,
                    at_width(FloatWidth::Float8, d),
                );
                let v = carried(w, d.negative, at_width(w, d));
                if wide is Infinity {
                    Reading::Invalid
                } else if v is Finite && rendered(w, v) == s {
                    Reading::Value(v)
                } else if rounded(w, wide) is Infinity {
                    Reading::OutOfRange
                } else {
                    Reading::Invalid
                }
            },
        }
    }
}

/// A decimal number whose power of ten may be cut down where it is far out of
/// range.
struct Decimal {
    negative: bool,
    digits: Natural,
    scale: i128,
}

fn find_marker(cs: &Vec<char>, from: usize) -> (r: usize)
    requires
        from <= cs@.len(),
    ensures
        from <= r <= cs@.len(),
        marker_at(cs@.skip(from as int), 0) == r - from,
{
    let ghost body = cs@.skip(from as int);
    let mut i: usize = from;
    while i < cs.len()
        invariant
            from <= i <= cs@.len(),
            body == cs@.skip(from as int),
            marker_at(body, 0) == marker_at(body, i - from),
        decreases cs@.len() - i,
    {
        assert(body[i - from] == cs@[i as int]);
        if cs[i] == 'e' || cs[i] == 'E' {
            return i;
        }
        i += 1;
    }
    i
}

/// So large an exponent puts a number out of range, however many digits it
/// has.
pub open spec fn far() -> int {
    0x100_0000_0000_0000_0000_0000
}

/// The exponent that is spelled from `from` on, or one as far out if it is far.
fn read_exponent(cs: &Vec<char>, from: usize) -> (r: Option<i128>)
    requires
        from <= cs@.len(),
    ensures
        match r {
            Some(x) => {
                &&& exponent_of(cs@.skip(from as int)) matches Some(e)
                &&& e == x || (x == far() && e >= far()) || (x == -far() && e <= -far())
                &&& -far() <= x <= far()
            },
            None => exponent_of(cs@.skip(from as int)) is None,
        },
{
    let n: usize = cs.len();
    let ghost s = cs@.skip(from as int);
    let signed = from < n && (cs[from] == '-' || cs[from] == '+');
    let negative = from < n && cs[from] == '-';
    let start: usize = if signed {
        from + 1
    } else {
        from
    };
    let ghost digits = cs@.skip(start as int);
    proof {
        if from < n {
            assert(s[0] == cs@[from as int]);
        }
        if signed {
            assert(digits =~= s.skip(1));
        }
    }
    if start == n {
        return None;
    }
    let mut x: i128 = 0;
    let mut i: usize = start;
    while i < n
        invariant
            from <= start <= i <= n == cs@.len(),
            start < n,
            digits == cs@.skip(start as int),
            s == cs@.skip(from as int),
            signed == (s.len() > 0 && (s[0] == '-' || s[0] == '+')),
            digits == (if signed {
                s.skip(1)
            } else {
                s
            }),
            forall|j: int| 0 <= j < i - start ==> text::ascii_digit(#[trigger] digits[j]),
            0 <= x <= far(),
            x == text::digits_value(digits.take(i - start)) || (x == far() && text::digits_value(
                digits.take(i - start),
            ) >= far()),
        decreases n - i,
    {
        if !text::is_ascii_digit(cs[i]) {
            assert(!text::ascii_digit(digits[i - start]));
            return None;
        }
        let d: u8 = text::digit_of_char(cs[i]);
        proof {
            assert(digits[i - start] == cs@[i as int]);
            assert(digits.take(i + 1 - start).drop_last() =~= digits.take(i - start));
        }
        x = 10 * x + d as i128;
        if x > 0x100_0000_0000_0000_0000_0000 {
            x = 0x100_0000_0000_0000_0000_0000;
        }
        i += 1;
    }
    assert(digits.take(n - start) =~= digits);
    assert(numeric::only_digits(digits));
    if negative {
        Some(-x)
    } else {
        Some(x)
    }
}

/// The decimal number that `s` spells; where its power of ten is far out, one
/// that is read in the same way.
fn read_text(s: &str) -> (r: Option<Decimal>)
    ensures
        match r {
            Some(d) => {
                &&& decimal_of_text(s@) matches Some(v)
                &&& d.negative == v.negative
                &&& d.digits@ == v.digits
                &&& d.scale == v.scale || (d.scale > 0x10_0000_0000_0000_0000_0000 && v.scale
                    >= d.scale) || (d.scale < -0x10_0000_0000_0000_0000_0000 && v.scale <= d.scale)
                &&& -0x1000_0000_0000_0000_0000_0000 < d.scale < 0x1000_0000_0000_0000_0000_0000
            },
            None => decimal_of_text(s@) is None,
        },
{
    let cs = text::chars_of(s);
    let n: usize = cs.len();
    let signed = n > 0 && (cs[0] == '-' || cs[0] == '+');
    let negative = n > 0 && cs[0] == '-';
    let from: usize = if signed {
        1
    } else {
        0
    };
    let ghost body = cs@.skip(from as int);
    let marker: usize = find_marker(&cs, from);
    let mut head: Vec<char> = Vec::new();
    let mut i: usize = from;
    while i < marker
        invariant
            from <= i <= marker <= cs@.len(),
            head@ == cs@.subrange(from as int, i as int),
        decreases marker - i,
    {
        head.push(cs[i]);
        assert(head@ =~= cs@.subrange(from as int, i + 1));
        i += 1;
    }
    proof {
        assert(head@ =~= body.take(marker - from));
        assert(head@.skip(0) =~= head@);
    }
    let (digits, places) = match numeric::read_numeral(&head, 0) {
        Some(x) => x,
        None => {
            return None;
        },
    };
    let exponent: i128 = if marker < n {
        assert(cs@.skip(marker + 1) =~= body.skip(marker - from + 1));
        match read_exponent(&cs, marker + 1) {
            Some(x) => x,
            None => {
                return None;
            },
        }
    } else {
        0
    };
    Some(Decimal { negative, digits, scale: exponent - places as i128 })
}

/// The digits and power of two at a width of the decimal number that a text
/// spells; none where the power is too high.
fn read_at(w: FloatWidth, d: &Decimal, v: Ghost<DecimalView>) -> (r: Option<(u64, u128)>)
    requires
        d.digits@ == v@.digits,
        d.scale == v@.scale || (d.scale > 0x10_0000_0000_0000_0000_0000 && v@.scale >= d.scale)
            || (d.scale < -0x10_0000_0000_0000_0000_0000 && v@.scale <= d.scale),
        -0x1000_0000_0000_0000_0000_0000 < d.scale < 0x1000_0000_0000_0000_0000_0000,
    ensures
        match r {
            Some((m, k)) => (m as nat, k as nat) == at_width(w, v@) && k <= w.most() && normal(
                w.precision(),
                m as nat,
                k as nat,
            ),
            None => at_width(w, v@).1 > w.most(),
        },
{
    let len: usize = d.digits.len();
    proof {
        if d.scale != v@.scale {
            shortest::far_scales_read_alike(
                w.precision(),
                w.unit(),
                d.digits@,
                len as nat,
                d.scale as int,
                v@.scale,
                w.most(),
            );
        }
        shortest::decimal_nearest_is_normal(w.precision(), w.unit(), v@.digits, v@.scale);
    }
    shortest::read_decimal(precision_of(w), unit_of(w), &d.digits, d.scale, most_of(w))
}

/// A value at a width is one that it holds.
proof fn carried_fits(w: FloatWidth, negative: bool, mk: (nat, nat))
    requires
        normal(w.precision(), mk.0, mk.1),
        mk.1 <= w.most(),
    ensures
        fits(w, carried(w, negative, mk)),
        carried(w, negative, mk) is Finite,
        narrowed(w, carried(w, negative, mk).magnitude()) == mk,
{
    crate::float::carried_is_narrowed_back(w, negative, mk);
}

/// The nearest value that a width holds is one that it holds.
pub proof fn rounded_fits(w: FloatWidth, f: Float)
    ensures
        fits(w, rounded(w, f@)),
{
    if let FloatView::Finite { negative, significand, shift } = f@ {
        let mk = narrowed(w, f@.magnitude());
        crate::binary::pow2_positive(925);
        crate::binary::nearest_is_normal(24, f@.magnitude(), crate::binary::pow2(925));
        crate::binary::nearest_is_normal(53, f@.magnitude(), 1);
        if mk.1 <= w.most() {
            carried_fits(w, negative, mk);
        }
    }
}

/// The value that a text spells at a width, if the text is exactly how the
/// value is written.
pub fn parse(s: &str, width: FloatWidth) -> (r: Result<Float, FloatError>)
    ensures
        match r {
            Ok(v) => reading(s@, width) == Reading::Value(v@),
            Err(FloatError::OutOfRange { width: w }) => reading(s@, width) is OutOfRange && w
                == width,
            Err(FloatError::Invalid { width: w, text }) => reading(s@, width) is Invalid && w
                == width && text@ == s@,
        },
{
    if *s == *"NaN" {
        return Ok(Float::nan());
    }
    if *s == *"Infinity" {
        return Ok(Float::infinity(false));
    }
    if *s == *"-Infinity" {
        return Ok(Float::infinity(true));
    }
    let d = match read_text(s) {
        Some(d) => d,
        None => {
            return Err(FloatError::Invalid { width, text: text::owned(s) });
        },
    };
    let ghost v = decimal_of_text(s@)->0;
    let wide = match read_at(FloatWidth::Float8, &d, Ghost(v)) {
        Some((m, k)) => {
            proof {
                carried_fits(FloatWidth::Float8, d.negative, (m as nat, k as nat));
            }
            carry(FloatWidth::Float8, d.negative, m, k)
        },
        None => {
            return Err(FloatError::Invalid { width, text: text::owned(s) });
        },
    };
    if let Some((m, k)) = read_at(width, &d, Ghost(v)) {
        let value = carry(width, d.negative, m, k);
        proof {
            carried_fits(width, d.negative, (m as nat, k as nat));
        }
        let written = render(value, width);
        if text::same(written.as_str(), s) {
            return Ok(value);
        }
    }
    if width.round(wide).is_infinite() {
        Err(FloatError::OutOfRange { width })
    } else {
        Err(FloatError::Invalid { width, text: text::owned(s) })
    }
}

} // verus!
