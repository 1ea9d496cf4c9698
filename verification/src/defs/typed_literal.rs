//! Constants of a named type: which types can be named, and how their
//! values must be spelled.
//!
//! A literal is accepted only in the spelling in which Postgres itself gives
//! the value back. A spelling that depends on the session or the clock would
//! make a definition mean different things at different times, and one that
//! comes back differently would make two renderings of one value differ.

use vstd::prelude::*;

use crate::defs::ast::{pg_type_name, ValueType, ValueTypeView};
use crate::defs::pg_type::{PgType, PgTypeView};
use crate::float::FloatWidth;
use crate::float_text;
use crate::float_text::reading;
use crate::integer::IntWidth;
use crate::jsonb;
use crate::netaddr;
use crate::sql;
use crate::text;

verus! {

/// One type keyword a literal may name.
#[derive(Debug, Clone, Copy)]
pub struct TypedLiteralSpec {
    /// The upper-case type keyword.
    pub keyword: &'static str,
    /// The type of the literal.
    pub value_type: ValueType,
}

/// The type that a literal with the given upper-case keyword has, if a
/// literal may name it.
pub open spec fn literal_type(keyword: Seq<char>) -> Option<ValueTypeView> {
    if keyword == "DATE"@ {
        Some(ValueTypeView::Other(PgTypeView::Date))
    } else if keyword == "TIMESTAMP"@ {
        Some(ValueTypeView::Other(PgTypeView::Timestamp))
    } else if keyword == "BYTEA"@ {
        Some(ValueTypeView::Other(PgTypeView::Bytea))
    } else if keyword == "TIME"@ {
        Some(ValueTypeView::Other(PgTypeView::Time))
    } else if keyword == "TIMETZ"@ {
        Some(ValueTypeView::Other(PgTypeView::TimeTz))
    } else if keyword == "OID"@ {
        Some(ValueTypeView::Other(PgTypeView::Oid))
    } else if keyword == "REAL"@ {
        Some(ValueTypeView::Float(FloatWidth::Float4))
    } else if keyword == "DOUBLE PRECISION"@ {
        Some(ValueTypeView::Float(FloatWidth::Float8))
    } else if keyword == "INET"@ {
        Some(ValueTypeView::Other(PgTypeView::Inet))
    } else if keyword == "CIDR"@ {
        Some(ValueTypeView::Other(PgTypeView::Cidr))
    } else if keyword == "MACADDR"@ {
        Some(ValueTypeView::Other(PgTypeView::MacAddr))
    } else if keyword == "MACADDR8"@ {
        Some(ValueTypeView::Other(PgTypeView::MacAddr8))
    } else if keyword == "VARBIT"@ {
        Some(ValueTypeView::Other(PgTypeView::VarBit))
    } else if keyword == "JSONB"@ {
        Some(ValueTypeView::Other(PgTypeView::Jsonb))
    } else {
        None
    }
}

/// The row of the type with the given upper-case keyword.
pub fn lookup_typed_literal(keyword: &str) -> (r: Option<TypedLiteralSpec>)
    ensures
        match r {
            Some(spec) => literal_type(keyword@) == Some(spec.value_type@) && spec.keyword@
                == keyword@,
            None => literal_type(keyword@) is None,
        },
{
    if *keyword == *"DATE" {
        Some(TypedLiteralSpec { keyword: "DATE", value_type: ValueType::Other(PgType::Date) })
    } else if *keyword == *"TIMESTAMP" {
        Some(TypedLiteralSpec { keyword: "TIMESTAMP", value_type: ValueType::Other(PgType::Timestamp) })
    } else if *keyword == *"BYTEA" {
        Some(TypedLiteralSpec { keyword: "BYTEA", value_type: ValueType::Other(PgType::Bytea) })
    } else if *keyword == *"TIME" {
        Some(TypedLiteralSpec { keyword: "TIME", value_type: ValueType::Other(PgType::Time) })
    } else if *keyword == *"TIMETZ" {
        Some(TypedLiteralSpec { keyword: "TIMETZ", value_type: ValueType::Other(PgType::TimeTz) })
    } else if *keyword == *"OID" {
        Some(TypedLiteralSpec { keyword: "OID", value_type: ValueType::Other(PgType::Oid) })
    } else if *keyword == *"REAL" {
        Some(TypedLiteralSpec { keyword: "REAL", value_type: ValueType::Float(FloatWidth::Float4) })
    } else if *keyword == *"DOUBLE PRECISION" {
        Some(TypedLiteralSpec { keyword: "DOUBLE PRECISION", value_type: ValueType::Float(FloatWidth::Float8) })
    } else if *keyword == *"INET" {
        Some(TypedLiteralSpec { keyword: "INET", value_type: ValueType::Other(PgType::Inet) })
    } else if *keyword == *"CIDR" {
        Some(TypedLiteralSpec { keyword: "CIDR", value_type: ValueType::Other(PgType::Cidr) })
    } else if *keyword == *"MACADDR" {
        Some(TypedLiteralSpec { keyword: "MACADDR", value_type: ValueType::Other(PgType::MacAddr) })
    } else if *keyword == *"MACADDR8" {
        Some(TypedLiteralSpec { keyword: "MACADDR8", value_type: ValueType::Other(PgType::MacAddr8) })
    } else if *keyword == *"VARBIT" {
        Some(TypedLiteralSpec { keyword: "VARBIT", value_type: ValueType::Other(PgType::VarBit) })
    } else if *keyword == *"JSONB" {
        Some(TypedLiteralSpec { keyword: "JSONB", value_type: ValueType::Other(PgType::Jsonb) })
    } else {
        None
    }
}

/// The keywords a literal may name.
pub const TYPED_LITERAL_KEYWORDS: [&'static str; 14] = [
    "DATE",
    "TIMESTAMP",
    "BYTEA",
    "TIME",
    "TIMETZ",
    "OID",
    "REAL",
    "DOUBLE PRECISION",
    "INET",
    "CIDR",
    "MACADDR",
    "MACADDR8",
    "VARBIT",
    "JSONB",
];

/// What a date literal has to look like.
pub const DATE_SHAPE: &'static str = "expected a canonical ISO-8601 date literal, `YYYY-MM-DD` (e.g. '2024-01-01'). \
     Relative spellings Postgres also accepts ('today', 'now', 'infinity') are rejected: \
     they are what makes `date_in` STABLE rather than IMMUTABLE, and ADR-0004 admits only \
     immutable constructs. Unpadded or DateStyle-dependent spellings ('2024-1-5', \
     '01/02/2024') are rejected because they do not round-trip to the text they were \
     written as";

/// What a timestamp literal has to look like.
pub const TIMESTAMP_SHAPE: &'static str = "expected a canonical ISO-8601 timestamp literal, `YYYY-MM-DD HH:MM:SS` with optional \
     `.` plus 1-6 fractional-second digits and no trailing zero (e.g. '2024-01-01 \
     12:00:00' or '2024-01-01 12:00:00.5'). Relative spellings ('now', 'epoch', \
     'infinity') are rejected as non-immutable, and non-canonical ones because they do \
     not round-trip to the text they were written as";

/// What a time literal has to look like.
pub const TIME_SHAPE: &'static str = "expected a canonical time literal, `HH:MM:SS` with optional `.` plus 1-6 \
     fractional-second digits and no trailing zero (e.g. '13:45:00' or '13:45:00.5'). \
     `24:00:00` is Postgres's legal end-of-day value and is accepted; anything past it is \
     not. Relative spellings ('now', 'allballs') are rejected as non-immutable, and \
     non-canonical ones because they do not round-trip to the text they were written as";

/// What a zoned time literal has to look like.
pub const TIMETZ_SHAPE: &'static str = "expected a canonical timetz literal, a `HH:MM:SS[.F…]` time followed by a numeric \
     UTC offset `+HH`, `+HH:MM` or `+HH:MM:SS` in -15:59:59..+15:59:59, with zero \
     minute/second offset fields omitted (e.g. '13:45:00+00' or '13:45:00.5-05:30'). A \
     zone abbreviation or name ('EST', 'America/New_York') is rejected: resolving one is \
     a lookup against the server's timezone set, which is what makes `timetz_in` STABLE \
     rather than IMMUTABLE";

/// What a byte string literal has to look like.
pub const BYTEA_SHAPE: &'static str = "expected a canonical hex bytea literal, `\\x` followed by an even number of \
     lowercase hex digits (e.g. '\\x0102ff', or '\\x' for an empty value). The legacy \
     `escape` input format and uppercase hex are rejected because `bytea_output = 'hex'` \
     — Postgres's default — never emits them, so they do not round-trip to the text they \
     were written as";

/// What an object identifier literal has to look like.
pub const OID_SHAPE: &'static str = "an unsigned decimal in 0..=4294967295, with no sign and no leading zeros";

/// What a bit string literal has to look like.
pub const VARBIT_SHAPE: &'static str = "expected a canonical bit-varying literal: a run of only `0`/`1` characters (e.g. \
     '101', or '' for a zero-length value), the spelling `varbit_out` emits";

/// What a float literal has to look like.
pub const FLOAT_SHAPE: &'static str = "a value in the shortest round-tripping decimal form `float4out`/`float8out` emits \
     for this width (no `+` sign, no trailing zeros, no `E`, exponent written as e.g. \
     `1e+30`), or one of `NaN`, `Infinity`, `-Infinity`";

// ---------------------------------------------------------------------------
// Rendering
// ---------------------------------------------------------------------------

/// A typed literal in SQL: the quoted text, cast to the type.
pub open spec fn literal_sql(value_type: ValueTypeView, text: Seq<char>) -> Seq<char> {
    sql::quoted_string(text) + "::"@ + value_type.sql_name()
}

/// A typed literal in SQL: the quoted text, cast to the type.
pub fn render_sql(value_type: ValueType, literal: &str) -> (r: String)
    requires
        value_type@.qualified(),
    ensures
        r@ == literal_sql(value_type@, literal@),
{
    let mut r = sql::quote_string(literal);
    r.append("::");
    r.append(pg_type_name(value_type).as_str());
    r
}

// ---------------------------------------------------------------------------
// Canonical spellings
// ---------------------------------------------------------------------------

/// The digits of `s` at `i` and `i + 1` are decimal digits.
pub open spec fn two_digits(s: Seq<char>, i: int) -> bool {
    text::ascii_digit(s[i]) && text::ascii_digit(s[i + 1])
}

/// The number that the two digits of `s` at `i` spell.
pub open spec fn two_digit_value(s: Seq<char>, i: int) -> int {
    10 * text::digit_value(s[i]) + text::digit_value(s[i + 1])
}

/// Years that hold a 29th of February.
pub open spec fn leap_year(year: int) -> bool {
    year % 4 == 0 && (year % 100 != 0 || year % 400 == 0)
}

/// The number of days of a month.
pub open spec fn days_in_month(year: int, month: int) -> int {
    if month == 4 || month == 6 || month == 9 || month == 11 {
        30
    } else if month == 2 {
        if leap_year(year) {
            29
        } else {
            28
        }
    } else {
        31
    }
}

/// A day of the calendar. There is no year zero.
pub open spec fn real_date(year: int, month: int, day: int) -> bool {
    &&& year >= 1
    &&& 1 <= month <= 12
    &&& 1 <= day <= days_in_month(year, month)
}

/// `YYYY-MM-DD`, naming a day of the calendar.
pub open spec fn date_text(s: Seq<char>) -> bool {
    &&& s.len() == 10
    &&& two_digits(s, 0) && two_digits(s, 2)
    &&& s[4] == '-'
    &&& two_digits(s, 5)
    &&& s[7] == '-'
    &&& two_digits(s, 8)
    &&& real_date(
        100 * two_digit_value(s, 0) + two_digit_value(s, 2),
        two_digit_value(s, 5),
        two_digit_value(s, 8),
    )
}

/// One to six digits, the last of them not zero.
pub open spec fn fraction_text(s: Seq<char>) -> bool {
    &&& 1 <= s.len() <= 6
    &&& forall|i: int| 0 <= i < s.len() ==> text::ascii_digit(#[trigger] s[i])
    &&& s.last() != '0'
}

/// `HH:MM:SS`, then nothing or a dot and a fraction, with minutes and seconds
/// below 60.
pub open spec fn clock_text(s: Seq<char>) -> bool {
    &&& s.len() >= 8
    &&& two_digits(s, 0)
    &&& s[2] == ':'
    &&& two_digits(s, 3)
    &&& s[5] == ':'
    &&& two_digits(s, 6)
    &&& two_digit_value(s, 3) <= 59
    &&& two_digit_value(s, 6) <= 59
    &&& s.len() == 8 || (s[8] == '.' && fraction_text(s.skip(9)))
}

/// A time of day: hours up to 23, or exactly `24:00:00`.
pub open spec fn time_text(s: Seq<char>) -> bool {
    &&& clock_text(s)
    &&& two_digit_value(s, 0) <= 23 || (two_digit_value(s, 0) == 24 && two_digit_value(s, 3) == 0
        && two_digit_value(s, 6) == 0 && s.len() == 8)
}

/// A date, a space and a time of day before 24 o'clock.
pub open spec fn timestamp_text(s: Seq<char>) -> bool {
    &&& s.len() >= 19
    &&& date_text(s.take(10))
    &&& s[10] == ' '
    &&& clock_text(s.skip(11))
    &&& two_digit_value(s, 11) <= 23
}

/// `HH`, `HH:MM` or `HH:MM:SS` in the shortest form: hours up to 15, no zero
/// seconds, and zero minutes only in front of seconds.
pub open spec fn offset_text(s: Seq<char>) -> bool {
    &&& s.len() == 2 || s.len() == 5 || s.len() == 8
    &&& two_digits(s, 0) && two_digit_value(s, 0) <= 15
    &&& s.len() >= 5 ==> s[2] == ':' && two_digits(s, 3) && two_digit_value(s, 3) <= 59
    &&& s.len() == 5 ==> two_digit_value(s, 3) != 0
    &&& s.len() == 8 ==> s[5] == ':' && two_digits(s, 6) && 1 <= two_digit_value(s, 6) <= 59
}

/// `+` or `-`.
pub open spec fn sign_char(c: char) -> bool {
    c == '+' || c == '-'
}

/// The offset that is no offset at all, in the shortest form.
pub open spec fn zero_offset(s: Seq<char>) -> bool {
    s.len() == 2 && s[0] == '0' && s[1] == '0'
}

/// At `k` stands the sign between a time of day and an offset from UTC. The
/// sign of no offset is `+`.
pub open spec fn signed_at(s: Seq<char>, k: int) -> bool {
    &&& 0 <= k < s.len()
    &&& sign_char(s[k])
    &&& time_text(s.take(k))
    &&& offset_text(s.skip(k + 1))
    &&& s[k] == '-' ==> !zero_offset(s.skip(k + 1))
}

/// A time of day, a sign and an offset from UTC.
pub open spec fn timetz_text(s: Seq<char>) -> bool {
    exists|k: int| signed_at(s, k)
}

/// `\x` and an even number of lower-case hex digits.
pub open spec fn bytea_text(s: Seq<char>) -> bool {
    &&& s.len() >= 2
    &&& s[0] == '\\' && s[1] == 'x'
    &&& s.len() % 2 == 0
    &&& forall|i: int| 2 <= i < s.len() ==> text::lower_hex(#[trigger] s[i])
}

/// Zeros and ones only.
pub open spec fn varbit_text(s: Seq<char>) -> bool {
    forall|i: int| 0 <= i < s.len() ==> #[trigger] s[i] == '0' || s[i] == '1'
}

/// A number from 0 to 4294967295 in decimal, without a sign or leading zeros.
pub open spec fn oid_text(s: Seq<char>) -> bool {
    &&& s.len() > 0
    &&& forall|i: int| 0 <= i < s.len() ==> text::ascii_digit(#[trigger] s[i])
    &&& s.len() > 1 ==> s[0] != '0'
    &&& text::digits_value(s) <= u32::MAX
}

/// The number that the two digits at `i` spell, where they are digits.
pub fn read_two(cs: &Vec<char>, i: usize) -> (r: Option<u32>)
    requires
        i + 2 <= cs.len(),
    ensures
        match r {
            Some(n) => two_digits(cs@, i as int) && n == two_digit_value(cs@, i as int) && n <= 99,
            None => !two_digits(cs@, i as int),
        },
{
    if text::is_ascii_digit(cs[i]) && text::is_ascii_digit(cs[i + 1]) {
        let a: u8 = text::digit_of_char(cs[i]);
        let b: u8 = text::digit_of_char(cs[i + 1]);
        Some(10 * (a as u32) + b as u32)
    } else {
        None
    }
}

fn check_ymd(year: u32, month: u32, day: u32) -> (r: bool)
    ensures
        r == real_date(year as int, month as int, day as int),
{
    if year == 0 || month < 1 || month > 12 || day == 0 {
        return false;
    }
    let max_day: u32 = if month == 4 || month == 6 || month == 9 || month == 11 {
        30
    } else if month == 2 {
        if year % 4 == 0 && (year % 100 != 0 || year % 400 == 0) {
            29
        } else {
            28
        }
    } else {
        31
    };
    day <= max_day
}

fn is_date(cs: &Vec<char>) -> (r: bool)
    ensures
        r == date_text(cs@),
{
    if cs.len() != 10 || cs[4] != '-' || cs[7] != '-' {
        return false;
    }
    match (read_two(cs, 0), read_two(cs, 2), read_two(cs, 5), read_two(cs, 8)) {
        (Some(century), Some(rest), Some(month), Some(day)) => check_ymd(
            100 * century + rest,
            month,
            day,
        ),
        _ => false,
    }
}

fn all_digits(cs: &Vec<char>, from: usize) -> (r: bool)
    requires
        from <= cs@.len(),
    ensures
        r == (forall|i: int| from <= i < cs@.len() ==> text::ascii_digit(#[trigger] cs@[i])),
{
    let mut i: usize = from;
    while i < cs.len()
        invariant
            from <= i <= cs@.len(),
            forall|j: int| from <= j < i ==> text::ascii_digit(#[trigger] cs@[j]),
        decreases cs@.len() - i,
    {
        if !text::is_ascii_digit(cs[i]) {
            return false;
        }
        i += 1;
    }
    true
}

/// The hours, minutes and seconds of a clock reading with an optional
/// fraction.
pub fn read_clock(cs: &Vec<char>) -> (r: Option<(u32, u32, u32)>)
    ensures
        match r {
            Some((h, m, s)) => {
                &&& clock_text(cs@)
                &&& h == two_digit_value(cs@, 0)
                &&& m == two_digit_value(cs@, 3)
                &&& s == two_digit_value(cs@, 6)
            },
            None => !clock_text(cs@),
        },
{
    let n: usize = cs.len();
    if n < 8 || cs[2] != ':' || cs[5] != ':' {
        return None;
    }
    match (read_two(cs, 0), read_two(cs, 3), read_two(cs, 6)) {
        (Some(h), Some(m), Some(s)) => {
            if m > 59 || s > 59 {
                return None;
            }
            if n == 8 {
                return Some((h, m, s));
            }
            let ghost f = cs@.skip(9);
            if cs[8] != '.' || n == 9 || n > 15 || !all_digits(cs, 9) || cs[n - 1] == '0' {
                proof {
                    if cs@[8] == '.' && 9 < n && n <= 15 && cs@[n - 1] != '0' {
                        let i = choose|i: int| 9 <= i < n && !text::ascii_digit(#[trigger] cs@[i]);
                        assert(!text::ascii_digit(f[i - 9]));
                    }
                    if n > 9 {
                        assert(f.last() == cs@[n - 1]);
                    }
                }
                return None;
            }
            proof {
                assert forall|i: int| 0 <= i < f.len() implies text::ascii_digit(
                    #[trigger] f[i],
                ) by {
                    assert(f[i] == cs@[i + 9]);
                }
                assert(f.last() == cs@[n - 1]);
            }
            Some((h, m, s))
        },
        _ => None,
    }
}

fn is_time(cs: &Vec<char>) -> (r: bool)
    ensures
        r == time_text(cs@),
{
    match read_clock(cs) {
        Some((h, m, s)) => h <= 23 || (h == 24 && m == 0 && s == 0 && cs.len() == 8),
        None => false,
    }
}

/// The characters from `from` up to `to`.
pub fn part(cs: &Vec<char>, from: usize, to: usize) -> (r: Vec<char>)
    requires
        from <= to <= cs@.len(),
    ensures
        r@ == cs@.subrange(from as int, to as int),
{
    let mut r: Vec<char> = Vec::new();
    let mut i: usize = from;
    while i < to
        invariant
            from <= i <= to <= cs@.len(),
            r@ =~= cs@.subrange(from as int, i as int),
        decreases to - i,
    {
        r.push(cs[i]);
        i += 1;
    }
    r
}

/// Whether the text is an offset from UTC in its shortest form.
pub fn is_offset(cs: &Vec<char>) -> (r: bool)
    ensures
        r == offset_text(cs@),
{
    let n: usize = cs.len();
    if n != 2 && n != 5 && n != 8 {
        return false;
    }
    match read_two(cs, 0) {
        Some(h) => {
            if h > 15 {
                return false;
            }
        },
        None => {
            return false;
        },
    }
    if n == 2 {
        return true;
    }
    if cs[2] != ':' {
        return false;
    }
    match read_two(cs, 3) {
        Some(m) => {
            if m > 59 || (n == 5 && m == 0) {
                return false;
            }
        },
        None => {
            return false;
        },
    }
    if n == 5 {
        return true;
    }
    if cs[5] != ':' {
        return false;
    }
    match read_two(cs, 6) {
        Some(s) => 1 <= s && s <= 59,
        None => false,
    }
}

/// Neither a time of day nor an offset holds a sign.
pub proof fn no_sign_inside(s: Seq<char>, i: int)
    requires
        time_text(s) || offset_text(s),
        0 <= i < s.len(),
    ensures
        !sign_char(s[i]),
{
    if time_text(s) && i >= 9 {
        assert(s[i] == s.skip(9)[i - 9]);
    }
    if time_text(s) {
        assert(i == 0 || i == 1 || i == 2 || i == 3 || i == 4 || i == 5 || i == 6 || i == 7 || i
            == 8 || i >= 9);
    } else {
        assert(i == 0 || i == 1 || i == 2 || i == 3 || i == 4 || i == 5 || i == 6 || i == 7);
    }
}

fn is_timetz(cs: &Vec<char>) -> (r: bool)
    ensures
        r == timetz_text(cs@),
{
    let n: usize = cs.len();
    let mut k: usize = n;
    while k > 0 && cs[k - 1] != '+' && cs[k - 1] != '-'
        invariant
            k <= n == cs@.len(),
            forall|i: int| k <= i < n ==> !sign_char(#[trigger] cs@[i]),
        decreases k,
    {
        k -= 1;
    }
    if k == 0 {
        return false;
    }
    let at: usize = k - 1;
    let time_part = part(cs, 0, at);
    let zone = part(cs, at + 1, n);
    proof {
        assert(time_part@ =~= cs@.take(at as int));
        assert(zone@ =~= cs@.skip(at + 1));
        assert(sign_char(cs@[at as int]));
        assert(signed_at(cs@, at as int) ==> timetz_text(cs@));
        if timetz_text(cs@) {
            let j = choose|j: int| signed_at(cs@, j);
            if j < at {
                no_sign_inside(cs@.skip(j + 1), at - j - 1);
                assert(cs@.skip(j + 1)[at - j - 1] == cs@[at as int]);
            }
            assert(j == at);
        }
    }
    let west_of_zero = cs[at] == '-' && zone.len() == 2 && zone[0] == '0' && zone[1] == '0';
    is_time(&time_part) && is_offset(&zone) && !west_of_zero
}

/// Checks that `literal` is a floating-point value of the width as Postgres
/// writes it.
pub fn canonical_float(literal: &str, width: FloatWidth) -> (r: Result<(), &'static str>)
    ensures
        r is Ok <==> reading(literal@, width) is Value,
        r matches Err(shape) ==> shape@ == FLOAT_SHAPE@,
{
    match float_text::parse(literal, width) {
        Ok(_) => Ok(()),
        Err(_) => Err(FLOAT_SHAPE),
    }
}

/// Checks that `literal` is a date as Postgres writes it.
pub fn canonical_date(literal: &str) -> (r: Result<(), &'static str>)
    ensures
        r is Ok <==> date_text(literal@),
        r matches Err(shape) ==> shape@ == DATE_SHAPE@,
{
    let cs = text::chars_of(literal);
    if is_date(&cs) {
        Ok(())
    } else {
        Err(DATE_SHAPE)
    }
}

/// Checks that `literal` is a timestamp as Postgres writes it.
pub fn canonical_timestamp(literal: &str) -> (r: Result<(), &'static str>)
    ensures
        r is Ok <==> timestamp_text(literal@),
        r matches Err(shape) ==> shape@ == TIMESTAMP_SHAPE@,
{
    let cs = text::chars_of(literal);
    let n: usize = cs.len();
    if n < 19 || cs[10] != ' ' {
        return Err(TIMESTAMP_SHAPE);
    }
    let date_part = part(&cs, 0, 10);
    let time_part = part(&cs, 11, n);
    proof {
        assert(date_part@ =~= cs@.take(10));
        assert(time_part@ =~= cs@.skip(11));
    }
    if !is_date(&date_part) {
        return Err(TIMESTAMP_SHAPE);
    }
    match read_clock(&time_part) {
        Some((h, _, _)) => {
            if h <= 23 {
                Ok(())
            } else {
                Err(TIMESTAMP_SHAPE)
            }
        },
        None => Err(TIMESTAMP_SHAPE),
    }
}

/// Checks that `literal` is a time of day as Postgres writes it.
pub fn canonical_time(literal: &str) -> (r: Result<(), &'static str>)
    ensures
        r is Ok <==> time_text(literal@),
        r matches Err(shape) ==> shape@ == TIME_SHAPE@,
{
    let cs = text::chars_of(literal);
    if is_time(&cs) {
        Ok(())
    } else {
        Err(TIME_SHAPE)
    }
}

/// Checks that `literal` is a zoned time of day as Postgres writes it.
pub fn canonical_timetz(literal: &str) -> (r: Result<(), &'static str>)
    ensures
        r is Ok <==> timetz_text(literal@),
        r matches Err(shape) ==> shape@ == TIMETZ_SHAPE@,
{
    let cs = text::chars_of(literal);
    if is_timetz(&cs) {
        Ok(())
    } else {
        Err(TIMETZ_SHAPE)
    }
}

/// Checks that `literal` is a byte string as Postgres writes it.
pub fn canonical_bytea(literal: &str) -> (r: Result<(), &'static str>)
    ensures
        r is Ok <==> bytea_text(literal@),
        r matches Err(shape) ==> shape@ == BYTEA_SHAPE@,
{
    let cs = text::chars_of(literal);
    let n: usize = cs.len();
    if n < 2 || cs[0] != '\\' || cs[1] != 'x' || n % 2 != 0 {
        return Err(BYTEA_SHAPE);
    }
    let mut i: usize = 2;
    while i < n
        invariant
            2 <= i <= n == cs@.len(),
            cs@ == literal@,
            forall|j: int| 2 <= j < i ==> text::lower_hex(#[trigger] cs@[j]),
        decreases n - i,
    {
        let c = cs[i];
        if !(text::is_ascii_digit(c) || ('a' <= c && c <= 'f')) {
            assert(!text::lower_hex(cs@[i as int]));
            return Err(BYTEA_SHAPE);
        }
        i += 1;
    }
    Ok(())
}

/// Checks that `literal` is a bit string as Postgres writes it.
pub fn canonical_varbit(literal: &str) -> (r: Result<(), &'static str>)
    ensures
        r is Ok <==> varbit_text(literal@),
        r matches Err(shape) ==> shape@ == VARBIT_SHAPE@,
{
    let cs = text::chars_of(literal);
    let mut i: usize = 0;
    while i < cs.len()
        invariant
            0 <= i <= cs@.len(),
            cs@ == literal@,
            forall|j: int| 0 <= j < i ==> #[trigger] cs@[j] == '0' || cs@[j] == '1',
        decreases cs@.len() - i,
    {
        if cs[i] != '0' && cs[i] != '1' {
            return Err(VARBIT_SHAPE);
        }
        i += 1;
    }
    Ok(())
}

proof fn digits_value_grows(s: Seq<char>, i: int)
    requires
        0 <= i <= s.len(),
        forall|j: int| 0 <= j < s.len() ==> text::ascii_digit(#[trigger] s[j]),
    ensures
        text::digits_value(s.take(i)) <= text::digits_value(s),
    decreases s.len() - i,
{
    if i < s.len() {
        digits_value_grows(s, i + 1);
        assert(s.take(i + 1).drop_last() =~= s.take(i));
    } else {
        assert(s.take(i) =~= s);
    }
}

/// Checks that `literal` is an object identifier as Postgres writes it.
pub fn canonical_oid(literal: &str) -> (r: Result<(), &'static str>)
    ensures
        r is Ok <==> oid_text(literal@),
        r matches Err(shape) ==> shape@ == OID_SHAPE@,
{
    let cs = text::chars_of(literal);
    if cs.len() == 0 || !all_digits(&cs, 0) {
        return Err(OID_SHAPE);
    }
    if cs.len() > 1 && cs[0] == '0' {
        return Err(OID_SHAPE);
    }
    let mut value: u64 = 0;
    let mut i: usize = 0;
    while i < cs.len()
        invariant
            0 <= i <= cs@.len(),
            cs@ == literal@,
            forall|j: int| 0 <= j < cs@.len() ==> text::ascii_digit(#[trigger] cs@[j]),
            value == text::digits_value(cs@.take(i as int)),
            value <= u32::MAX,
        decreases cs@.len() - i,
    {
        assert(cs@.take(i + 1).drop_last() =~= cs@.take(i as int));
        let d: u8 = text::digit_of_char(cs[i]);
        value = 10 * value + d as u64;
        if value > 4294967295 {
            proof {
                digits_value_grows(cs@, i + 1);
            }
            return Err(OID_SHAPE);
        }
        i += 1;
    }
    assert(cs@.take(i as int) =~= cs@);
    Ok(())
}

/// What a literal of type `t` has to look like, if `s` does not: none where
/// `s` is spelled as Postgres itself spells a value of the type, and none for
/// a type that no literal can name.
pub open spec fn literal_problem(t: ValueTypeView, s: Seq<char>) -> Option<Seq<char>> {
    match t {
        ValueTypeView::Other(PgTypeView::Date) => problem(date_text(s), DATE_SHAPE@),
        ValueTypeView::Other(PgTypeView::Timestamp) => problem(timestamp_text(s), TIMESTAMP_SHAPE@),
        ValueTypeView::Other(PgTypeView::Bytea) => problem(bytea_text(s), BYTEA_SHAPE@),
        ValueTypeView::Other(PgTypeView::Time) => problem(time_text(s), TIME_SHAPE@),
        ValueTypeView::Other(PgTypeView::TimeTz) => problem(timetz_text(s), TIMETZ_SHAPE@),
        ValueTypeView::Other(PgTypeView::Oid) => problem(oid_text(s), OID_SHAPE@),
        ValueTypeView::Other(PgTypeView::VarBit) => problem(varbit_text(s), VARBIT_SHAPE@),
        ValueTypeView::Float(w) => problem(reading(s, w) is Value, FLOAT_SHAPE@),
        ValueTypeView::Other(PgTypeView::Inet) => problem(
            netaddr::address_text(s, false),
            netaddr::INET_SHAPE@,
        ),
        ValueTypeView::Other(PgTypeView::Cidr) => problem(
            netaddr::address_text(s, true),
            netaddr::CIDR_SHAPE@,
        ),
        ValueTypeView::Other(PgTypeView::MacAddr) => problem(
            netaddr::hex_groups(s, 6),
            netaddr::MACADDR_SHAPE@,
        ),
        ValueTypeView::Other(PgTypeView::MacAddr8) => problem(
            netaddr::hex_groups(s, 8),
            netaddr::MACADDR8_SHAPE@,
        ),
        ValueTypeView::Other(PgTypeView::Jsonb) => problem(
            jsonb::document_text(s),
            jsonb::JSONB_SHAPE@,
        ),
        _ => None,
    }
}

/// `shape`, unless the text is good.
pub open spec fn problem(good: bool, shape: Seq<char>) -> Option<Seq<char>> {
    if good {
        None
    } else {
        Some(shape)
    }
}

impl TypedLiteralSpec {
    /// Checks that `literal` is spelled as Postgres itself spells a value of
    /// the type.
    pub fn canonical(&self, literal: &str) -> (r: Result<(), &'static str>)
        ensures
            match r {
                Ok(_) => literal_problem(self.value_type@, literal@) is None,
                Err(shape) => literal_problem(self.value_type@, literal@) == Some(shape@),
            },
    {
        match self.value_type {
            ValueType::Other(PgType::Date) => canonical_date(literal),
            ValueType::Other(PgType::Timestamp) => canonical_timestamp(literal),
            ValueType::Other(PgType::Bytea) => canonical_bytea(literal),
            ValueType::Other(PgType::Time) => canonical_time(literal),
            ValueType::Other(PgType::TimeTz) => canonical_timetz(literal),
            ValueType::Other(PgType::Oid) => canonical_oid(literal),
            ValueType::Other(PgType::VarBit) => canonical_varbit(literal),
            ValueType::Float(width) => canonical_float(literal, width),
            ValueType::Other(PgType::Inet) => netaddr::canonical_inet(literal),
            ValueType::Other(PgType::Cidr) => netaddr::canonical_cidr(literal),
            ValueType::Other(PgType::MacAddr) => netaddr::canonical_macaddr(literal),
            ValueType::Other(PgType::MacAddr8) => netaddr::canonical_macaddr8(literal),
            ValueType::Other(PgType::Jsonb) => jsonb::canonical_jsonb(literal),
            _ => Ok(()),
        }
    }
}

// ---------------------------------------------------------------------------
// Laws
// ---------------------------------------------------------------------------

/// The keyword of a literal is the upper-case name of its type: a literal is
/// rendered under the name that it is read under.
pub proof fn keywords_name_their_types(keyword: Seq<char>)
    requires
        literal_type(keyword) is Some,
    ensures
        keyword == text::upper((literal_type(keyword)->0).sql_name()),
        (literal_type(keyword)->0).qualified(),
{
    reveal_strlit("DATE");
    reveal_strlit("date");
    assert(text::upper("date"@) =~= "DATE"@);
    reveal_strlit("TIMESTAMP");
    reveal_strlit("timestamp");
    assert(text::upper("timestamp"@) =~= "TIMESTAMP"@);
    reveal_strlit("BYTEA");
    reveal_strlit("bytea");
    assert(text::upper("bytea"@) =~= "BYTEA"@);
    reveal_strlit("TIME");
    reveal_strlit("time");
    assert(text::upper("time"@) =~= "TIME"@);
    reveal_strlit("TIMETZ");
    reveal_strlit("timetz");
    assert(text::upper("timetz"@) =~= "TIMETZ"@);
    reveal_strlit("OID");
    reveal_strlit("oid");
    assert(text::upper("oid"@) =~= "OID"@);
    reveal_strlit("REAL");
    reveal_strlit("real");
    assert(text::upper("real"@) =~= "REAL"@);
    reveal_strlit("DOUBLE PRECISION");
    reveal_strlit("double precision");
    assert(text::upper("double precision"@) =~= "DOUBLE PRECISION"@);
    reveal_strlit("INET");
    reveal_strlit("inet");
    assert(text::upper("inet"@) =~= "INET"@);
    reveal_strlit("CIDR");
    reveal_strlit("cidr");
    assert(text::upper("cidr"@) =~= "CIDR"@);
    reveal_strlit("MACADDR");
    reveal_strlit("macaddr");
    assert(text::upper("macaddr"@) =~= "MACADDR"@);
    reveal_strlit("MACADDR8");
    reveal_strlit("macaddr8");
    assert(text::upper("macaddr8"@) =~= "MACADDR8"@);
    reveal_strlit("VARBIT");
    reveal_strlit("varbit");
    assert(text::upper("varbit"@) =~= "VARBIT"@);
    reveal_strlit("JSONB");
    reveal_strlit("jsonb");
    assert(text::upper("jsonb"@) =~= "JSONB"@);
}

/// `s` has `n` characters and starts with `a` and `b`.
spec fn starts(s: Seq<char>, n: nat, a: char, b: char) -> bool {
    s.len() == n && s[0] == a && s[1] == b
}

/// The length and the first two characters of a type's name in capitals.
proof fn name_shape(t: ValueTypeView)
    ensures
        match t {
            ValueTypeView::Other(PgTypeView::Enum(_)) => text::upper(t.sql_name())[0] == '"',
            ValueTypeView::Integer(IntWidth::Int2) => starts(text::upper(t.sql_name()), 8, 'S', 'M'),
            ValueTypeView::Integer(IntWidth::Int4) => starts(text::upper(t.sql_name()), 7, 'I', 'N'),
            ValueTypeView::Integer(IntWidth::Int8) => starts(text::upper(t.sql_name()), 6, 'B', 'I'),
            ValueTypeView::Float(FloatWidth::Float4) => starts(text::upper(t.sql_name()), 4, 'R', 'E'),
            ValueTypeView::Float(FloatWidth::Float8) => starts(text::upper(t.sql_name()), 16, 'D', 'O'),
            ValueTypeView::Numeric => starts(text::upper(t.sql_name()), 7, 'N', 'U'),
            ValueTypeView::Text => starts(text::upper(t.sql_name()), 4, 'T', 'E'),
            ValueTypeView::Boolean => starts(text::upper(t.sql_name()), 7, 'B', 'O'),
            ValueTypeView::Uuid => starts(text::upper(t.sql_name()), 4, 'U', 'U'),
            ValueTypeView::Other(PgTypeView::Oid) => starts(text::upper(t.sql_name()), 3, 'O', 'I'),
            ValueTypeView::Other(PgTypeView::Bytea) => starts(text::upper(t.sql_name()), 5, 'B', 'Y'),
            ValueTypeView::Other(PgTypeView::Date) => starts(text::upper(t.sql_name()), 4, 'D', 'A'),
            ValueTypeView::Other(PgTypeView::Time) => starts(text::upper(t.sql_name()), 4, 'T', 'I'),
            ValueTypeView::Other(PgTypeView::TimeTz) => starts(text::upper(t.sql_name()), 6, 'T', 'I'),
            ValueTypeView::Other(PgTypeView::Timestamp) => starts(text::upper(t.sql_name()), 9, 'T', 'I'),
            ValueTypeView::Other(PgTypeView::TimestampTz) => starts(text::upper(t.sql_name()), 11, 'T', 'I'),
            ValueTypeView::Other(PgTypeView::Interval) => starts(text::upper(t.sql_name()), 8, 'I', 'N'),
            ValueTypeView::Other(PgTypeView::Json) => starts(text::upper(t.sql_name()), 4, 'J', 'S'),
            ValueTypeView::Other(PgTypeView::Jsonb) => starts(text::upper(t.sql_name()), 5, 'J', 'S'),
            ValueTypeView::Other(PgTypeView::Inet) => starts(text::upper(t.sql_name()), 4, 'I', 'N'),
            ValueTypeView::Other(PgTypeView::Cidr) => starts(text::upper(t.sql_name()), 4, 'C', 'I'),
            ValueTypeView::Other(PgTypeView::MacAddr) => starts(text::upper(t.sql_name()), 7, 'M', 'A'),
            ValueTypeView::Other(PgTypeView::MacAddr8) => starts(text::upper(t.sql_name()), 8, 'M', 'A'),
            ValueTypeView::Other(PgTypeView::Bit) => starts(text::upper(t.sql_name()), 3, 'B', 'I'),
            ValueTypeView::Other(PgTypeView::VarBit) => starts(text::upper(t.sql_name()), 6, 'V', 'A'),
            ValueTypeView::Other(PgTypeView::Money) => starts(text::upper(t.sql_name()), 5, 'M', 'O'),
            ValueTypeView::Other(PgTypeView::Xml) => starts(text::upper(t.sql_name()), 3, 'X', 'M'),
            ValueTypeView::Other(PgTypeView::TsVector) => starts(text::upper(t.sql_name()), 8, 'T', 'S'),
            ValueTypeView::Other(PgTypeView::TsQuery) => starts(text::upper(t.sql_name()), 7, 'T', 'S'),
            ValueTypeView::Other(PgTypeView::Unrecognized) => starts(text::upper(t.sql_name()), 4, 'T', 'E'),
        },
{
    reveal_strlit("bigint");
    reveal_strlit("bit");
    reveal_strlit("boolean");
    reveal_strlit("bytea");
    reveal_strlit("cidr");
    reveal_strlit("date");
    reveal_strlit("double precision");
    reveal_strlit("inet");
    reveal_strlit("integer");
    reveal_strlit("interval");
    reveal_strlit("json");
    reveal_strlit("jsonb");
    reveal_strlit("macaddr");
    reveal_strlit("macaddr8");
    reveal_strlit("money");
    reveal_strlit("numeric");
    reveal_strlit("oid");
    reveal_strlit("real");
    reveal_strlit("smallint");
    reveal_strlit("text");
    reveal_strlit("time");
    reveal_strlit("timestamp");
    reveal_strlit("timestamptz");
    reveal_strlit("timetz");
    reveal_strlit("tsquery");
    reveal_strlit("tsvector");
    reveal_strlit("uuid");
    reveal_strlit("varbit");
    reveal_strlit("xml");
}

/// A literal has the type that it names.
pub proof fn literals_have_the_type_they_name(t: ValueTypeView)
    ensures
        match literal_type(text::upper(t.sql_name())) {
            Some(found) => found == t,
            None => true,
        },
{
    let keyword = text::upper(t.sql_name());
    if let Some(found) = literal_type(keyword) {
        keywords_name_their_types(keyword);
        name_shape(t);
        name_shape(found);
    }
}

} // verus!
