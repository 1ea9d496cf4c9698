//! Which roles the date and time types can take, and the order of their values.

use vstd::prelude::*;

use crate::defs::pg_type::{PgType, PgTypeView};
use crate::defs::typed_literal::{
    clock_text, date_text, days_in_month, is_offset, leap_year, no_sign_inside, offset_text, part,
    read_clock, read_two, signed_at, time_text, timestamp_text, timetz_text, two_digit_value,
    two_digits,
};
use crate::text;

verus! {

/// The types whose least and greatest value are determined by the values
/// alone. Two intervals can be equal and still be spelled differently, so
/// which of them is the greatest depends on the order they come in.
pub open spec fn has_min_max(t: PgTypeView) -> bool {
    t is Date || t is Time || t is TimeTz || t is Timestamp || t is TimestampTz
}

/// The types whose equal values are always spelled the same: a zoned
/// timestamp is spelled by the session's time zone, an interval in more than
/// one way.
pub open spec fn text_stable(t: PgTypeView) -> bool {
    t is Date || t is Time || t is TimeTz || t is Timestamp
}

/// Whether `MIN` and `MAX` are defined over the type.
pub fn supports_min_max(t: PgType) -> (r: bool)
    ensures
        r == has_min_max(t@),
{
    match t {
        PgType::Date
        | PgType::Time
        | PgType::TimeTz
        | PgType::Timestamp
        | PgType::TimestampTz => true,
        _ => false,
    }
}

/// Whether equal values of the type are always spelled the same.
pub fn is_text_stable(t: PgType) -> (r: bool)
    ensures
        r == text_stable(t@),
{
    match t {
        PgType::Date | PgType::Time | PgType::TimeTz | PgType::Timestamp => true,
        _ => false,
    }
}

// ---------------------------------------------------------------------------
// Moments
// ---------------------------------------------------------------------------

/// Where a value of a date or time type stands among the others: before or
/// after all that are finite, or at a count of microseconds; at the same
/// count, the zone further west is the later.
#[verifier::ext_equal]
pub struct MomentView {
    /// Below zero in front of everything finite, above zero behind it.
    pub side: int,
    pub micros: int,
    /// Seconds west of UTC, where the type keeps its zone.
    pub west: int,
}

/// A place in the order of the values of a date or time type.
#[derive(Clone, Copy, Debug, PartialEq, Eq)]
pub struct Moment {
    pub side: i8,
    pub micros: i128,
    pub west: i64,
}

impl View for Moment {
    type V = MomentView;

    open spec fn view(&self) -> MomentView {
        MomentView { side: self.side as int, micros: self.micros as int, west: self.west as int }
    }
}

/// `a` comes before `b`.
pub open spec fn earlier(a: MomentView, b: MomentView) -> bool {
    a.side < b.side || (a.side == b.side && (a.micros < b.micros || (a.micros == b.micros && a.west
        < b.west)))
}

/// The first place at or after `i` where `a` or `b` stands, or the end.
pub open spec fn first_of(s: Seq<char>, a: char, b: char, i: int) -> int
    decreases s.len() - i,
{
    if i >= s.len() {
        s.len() as int
    } else if s[i] == a || s[i] == b {
        i
    } else {
        first_of(s, a, b, i + 1)
    }
}

/// The millionths that the digits from `i` on stand for, the first of them
/// counted in `unit`.
pub open spec fn fraction_from(s: Seq<char>, i: int, unit: int) -> int
    decreases s.len() - i,
{
    if i >= s.len() {
        0
    } else {
        text::digit_value(s[i]) * unit + fraction_from(s, i + 1, unit / 10)
    }
}

/// The microseconds since midnight of a clock reading.
pub open spec fn clock_micros(s: Seq<char>) -> int {
    (3600 * two_digit_value(s, 0) + 60 * two_digit_value(s, 3) + two_digit_value(s, 6)) * 1_000_000
        + fraction_from(s, 9, 100_000)
}

/// The seconds of an offset from UTC.
pub open spec fn offset_seconds(s: Seq<char>) -> int {
    3600 * two_digit_value(s, 0) + (if s.len() >= 5 {
        60 * two_digit_value(s, 3)
    } else {
        0
    }) + (if s.len() >= 8 {
        two_digit_value(s, 6)
    } else {
        0
    })
}

/// The days of a year in front of a month.
pub open spec fn days_before_month(year: int, month: int) -> int
    decreases month,
{
    if month <= 1 {
        0
    } else {
        days_before_month(year, month - 1) + days_in_month(year, month - 1)
    }
}

/// The number of a day, counted from a day before every day that can be
/// spelled. The year before year 1 is year 0.
pub open spec fn day_number(year: int, month: int, day: int) -> int {
    let years = year + 10_000_000;
    365 * years + (years + 3) / 4 - (years + 99) / 100 + (years + 399) / 400 + days_before_month(
        year,
        month,
    ) + day
}

/// The text ends in ` BC`.
pub open spec fn ends_in_bc(s: Seq<char>) -> bool {
    &&& s.len() >= 3
    &&& s[s.len() - 3] == ' '
    &&& s[s.len() - 2] == 'B'
    &&& s[s.len() - 1] == 'C'
}

/// The text without ` BC` at its end.
pub open spec fn without_era(s: Seq<char>) -> Seq<char> {
    if ends_in_bc(s) {
        s.take(s.len() - 3)
    } else {
        s
    }
}

/// A year of four to seven digits, a month and a day of a month.
pub open spec fn any_date_text(s: Seq<char>) -> bool {
    let n = s.len() as int;
    &&& 10 <= n <= 13
    &&& forall|i: int| 0 <= i < n - 6 ==> text::ascii_digit(#[trigger] s[i])
    &&& s[n - 6] == '-'
    &&& two_digits(s, n - 5)
    &&& s[n - 3] == '-'
    &&& two_digits(s, n - 2)
    &&& 1 <= two_digit_value(s, n - 5) <= 12
    &&& 1 <= two_digit_value(s, n - 2) <= 31
}

/// The number of the day that a date spells, before or after the year 1.
pub open spec fn date_day(s: Seq<char>, bc: bool) -> int {
    let n = s.len() as int;
    let year = text::digits_value(s.take(n - 6));
    day_number(
        if bc {
            1 - year
        } else {
            year as int
        },
        two_digit_value(s, n - 5),
        two_digit_value(s, n - 2),
    )
}

/// The moment of a clock reading on a day.
pub open spec fn clock_moment(day: int, s: Seq<char>) -> Option<MomentView> {
    if clock_text(s) {
        Some(MomentView { side: 0, micros: day * 86_400_000_000 + clock_micros(s), west: 0 })
    } else {
        None
    }
}

/// The moment of a clock reading on a day, with an offset from UTC.
pub open spec fn zoned_moment(day: int, s: Seq<char>) -> Option<MomentView> {
    let k = first_of(s, '+', '-', 0);
    if k < s.len() && clock_text(s.take(k)) && offset_text(s.skip(k + 1)) {
        let west = if s[k] == '-' {
            offset_seconds(s.skip(k + 1))
        } else {
            -offset_seconds(s.skip(k + 1))
        };
        Some(
            MomentView {
                side: 0,
                micros: day * 86_400_000_000 + clock_micros(s.take(k)) + west * 1_000_000,
                west,
            },
        )
    } else {
        None
    }
}

/// The moment that a text of the type spells. Only a time of day keeps its
/// zone.
#[verifier::opaque]
pub open spec fn moment(t: PgTypeView, s: Seq<char>) -> Option<MomentView> {
    if t is Time {
        clock_moment(0, s)
    } else if t is TimeTz {
        zoned_moment(0, s)
    } else if t is Date || t is Timestamp || t is TimestampTz {
        if s == "infinity"@ {
            Some(MomentView { side: 1, micros: 0, west: 0 })
        } else if s == "-infinity"@ {
            Some(MomentView { side: -1, micros: 0, west: 0 })
        } else {
            let body = without_era(s);
            let k = first_of(body, ' ', ' ', 0);
            let day = date_day(body.take(k), ends_in_bc(s));
            if !any_date_text(body.take(k)) {
                None
            } else if t is Date {
                if k == body.len() {
                    Some(MomentView { side: 0, micros: day * 86_400_000_000, west: 0 })
                } else {
                    None
                }
            } else if k == body.len() {
                None
            } else if t is Timestamp {
                clock_moment(day, body.skip(k + 1))
            } else {
                match zoned_moment(day, body.skip(k + 1)) {
                    Some(m) => Some(MomentView { west: 0, ..m }),
                    None => None,
                }
            }
        }
    } else {
        None
    }
}

impl Moment {
    /// Whether this moment comes before the other.
    pub fn before(&self, other: &Moment) -> (r: bool)
        ensures
            r == earlier(self@, other@),
    {
        self.side < other.side || (self.side == other.side && (self.micros < other.micros || (
        self.micros == other.micros && self.west < other.west)))
    }
}

/// The first place where `a` or `b` stands, or the end.
pub fn find_either(cs: &Vec<char>, a: char, b: char) -> (k: usize)
    ensures
        k == first_of(cs@, a, b, 0),
        k <= cs@.len(),
        k < cs@.len() ==> cs@[k as int] == a || cs@[k as int] == b,
{
    let mut k: usize = 0;
    while k < cs.len() && cs[k] != a && cs[k] != b
        invariant
            0 <= k <= cs@.len(),
            first_of(cs@, a, b, 0) == first_of(cs@, a, b, k as int),
        decreases cs@.len() - k,
    {
        k += 1;
    }
    k
}

/// The microseconds since midnight of a clock reading.
pub fn micros_of_clock(cs: &Vec<char>) -> (r: Option<i128>)
    ensures
        match r {
            Some(n) => clock_text(cs@) && n == clock_micros(cs@) && 0 <= n <= 400_000_000_000,
            None => !clock_text(cs@),
        },
{
    match read_clock(cs) {
        None => None,
        Some((h, m, s)) => {
            assert(two_digit_value(cs@, 0) <= 99 && two_digit_value(cs@, 3) <= 99
                && two_digit_value(cs@, 6) <= 99);
            let mut n: i128 = (3600 * (h as i128) + 60 * (m as i128) + s as i128) * 1_000_000;
            let mut unit: i128 = 100_000;
            let mut i: usize = 9;
            while i < cs.len()
                invariant
                    clock_text(cs@),
                    9 <= i,
                    cs@.len() > 8 ==> i <= cs@.len() <= 15,
                    0 <= unit <= 100_000,
                    0 <= n <= 363_000_000_000 + 900_000 * (i - 9),
                    n + fraction_from(cs@, i as int, unit as int) == clock_micros(cs@),
                decreases cs@.len() - i,
            {
                assert(cs@[i as int] == cs@.skip(9)[i - 9]);
                let d: u8 = text::digit_of_char(cs[i]);
                assert(0 <= d * unit <= 900_000) by (nonlinear_arith)
                    requires
                        0 <= d < 10,
                        0 <= unit <= 100_000,
                ;
                n = n + (d as i128) * unit;
                unit = unit / 10;
                i += 1;
            }
            Some(n)
        },
    }
}

fn seconds_of_offset(cs: &Vec<char>) -> (r: Option<i64>)
    ensures
        match r {
            Some(n) => offset_text(cs@) && n == offset_seconds(cs@) && 0 <= n <= 60_000,
            None => !offset_text(cs@),
        },
{
    if !is_offset(cs) {
        return None;
    }
    let mut n: i64 = 0;
    if let Some(h) = read_two(cs, 0) {
        n = 3600 * (h as i64);
    }
    if cs.len() >= 5 {
        if let Some(m) = read_two(cs, 3) {
            n = n + 60 * (m as i64);
        }
    }
    if cs.len() >= 8 {
        if let Some(s) = read_two(cs, 6) {
            n = n + s as i64;
        }
    }
    Some(n)
}

fn days_of_month(year: i64, month: i64) -> (r: i64)
    requires
        -10_000_000 <= year <= 10_000_000,
    ensures
        r == days_in_month(year as int, month as int),
        28 <= r <= 31,
{
    if month == 4 || month == 6 || month == 9 || month == 11 {
        30
    } else if month == 2 {
        let y: i64 = year + 10_000_000;
        let leap = y % 4 == 0 && (y % 100 != 0 || y % 400 == 0);
        assert(leap == leap_year(year as int));
        if leap {
            29
        } else {
            28
        }
    } else {
        31
    }
}

fn number_of_day(year: i64, month: i64, day: i64) -> (r: i64)
    requires
        -10_000_000 <= year <= 10_000_000,
        1 <= month <= 12,
        0 <= day <= 31,
    ensures
        r == day_number(year as int, month as int, day as int),
        0 <= r <= 8_000_000_000,
{
    let years: i64 = year + 10_000_000;
    let mut before: i64 = 0;
    let mut m: i64 = 1;
    while m < month
        invariant
            -10_000_000 <= year <= 10_000_000,
            1 <= m <= month <= 12,
            0 <= before <= 31 * (m - 1),
            before == days_before_month(year as int, m as int),
        decreases month - m,
    {
        before = before + days_of_month(year, m);
        m += 1;
    }
    365 * years + (years + 3) / 4 - (years + 99) / 100 + (years + 399) / 400 + before + day
}

fn day_of_date(cs: &Vec<char>, bc: bool) -> (r: Option<i64>)
    ensures
        match r {
            Some(d) => any_date_text(cs@) && d == date_day(cs@, bc) && 0 <= d <= 8_000_000_000,
            None => !any_date_text(cs@),
        },
{
    let n: usize = cs.len();
    if n < 10 || n > 13 || cs[n - 6] != '-' || cs[n - 3] != '-' {
        return None;
    }
    let mut year: i64 = 0;
    let mut i: usize = 0;
    let mut limit: i64 = 1;
    while i < n - 6
        invariant
            10 <= n <= 13,
            n == cs@.len(),
            0 <= i <= n - 6,
            forall|j: int| 0 <= j < i ==> text::ascii_digit(#[trigger] cs@[j]),
            year == text::digits_value(cs@.take(i as int)),
            0 <= year < limit,
            i == 0 ==> limit == 1,
            i == 1 ==> limit == 10,
            i == 2 ==> limit == 100,
            i == 3 ==> limit == 1000,
            i == 4 ==> limit == 10_000,
            i == 5 ==> limit == 100_000,
            i == 6 ==> limit == 1_000_000,
            i == 7 ==> limit == 10_000_000,
        decreases n - 6 - i,
    {
        if !text::is_ascii_digit(cs[i]) {
            return None;
        }
        let d: u8 = text::digit_of_char(cs[i]);
        proof {
            assert(cs@.take(i + 1).drop_last() =~= cs@.take(i as int));
            assert(cs@.take(i + 1).last() == cs@[i as int]);
        }
        year = 10 * year + d as i64;
        limit = 10 * limit;
        i += 1;
    }
    match (read_two(cs, n - 5), read_two(cs, n - 2)) {
        (Some(month), Some(day)) => {
            if month < 1 || month > 12 || day < 1 || day > 31 {
                return None;
            }
            let y: i64 = if bc {
                1 - year
            } else {
                year
            };
            Some(number_of_day(y, month as i64, day as i64))
        },
        _ => None,
    }
}

fn read_clock_moment(day: i64, cs: &Vec<char>) -> (r: Option<Moment>)
    requires
        0 <= day <= 8_000_000_000,
    ensures
        match r {
            Some(m) => clock_moment(day as int, cs@) == Some(m@),
            None => clock_moment(day as int, cs@) is None,
        },
{
    match micros_of_clock(cs) {
        Some(n) => Some(Moment { side: 0, micros: (day as i128) * 86_400_000_000 + n, west: 0 }),
        None => None,
    }
}

fn read_zoned_moment(day: i64, cs: &Vec<char>) -> (r: Option<Moment>)
    requires
        0 <= day <= 8_000_000_000,
    ensures
        match r {
            Some(m) => zoned_moment(day as int, cs@) == Some(m@),
            None => zoned_moment(day as int, cs@) is None,
        },
{
    let k: usize = find_either(cs, '+', '-');
    if k == cs.len() {
        return None;
    }
    let clock = part(cs, 0, k);
    let zone = part(cs, k + 1, cs.len());
    assert(clock@ =~= cs@.take(k as int));
    assert(zone@ =~= cs@.skip(k + 1));
    match (micros_of_clock(&clock), seconds_of_offset(&zone)) {
        (Some(n), Some(seconds)) => {
            let west: i64 = if cs[k] == '-' {
                seconds
            } else {
                -seconds
            };
            let micros: i128 = (day as i128) * 86_400_000_000 + n + (west as i128) * 1_000_000;
            Some(Moment { side: 0, micros, west })
        },
        _ => None,
    }
}

/// The moment that a text of the type spells.
pub fn read_moment(t: PgType, s: &str) -> (r: Option<Moment>)
    ensures
        match r {
            Some(m) => moment(t@, s@) == Some(m@),
            None => moment(t@, s@) is None,
        },
{
    reveal(moment);
    let cs = text::chars_of(s);
    match t {
        PgType::Time => {
            return read_clock_moment(0, &cs);
        },
        PgType::TimeTz => {
            return read_zoned_moment(0, &cs);
        },
        PgType::Date | PgType::Timestamp | PgType::TimestampTz => {},
        _ => {
            return None;
        },
    }
    if text::same(s, "infinity") {
        return Some(Moment { side: 1, micros: 0, west: 0 });
    }
    if text::same(s, "-infinity") {
        return Some(Moment { side: -1, micros: 0, west: 0 });
    }
    let n: usize = cs.len();
    let bc = n >= 3 && cs[n - 3] == ' ' && cs[n - 2] == 'B' && cs[n - 1] == 'C';
    let body = part(
        &cs,
        0,
        if bc {
            n - 3
        } else {
            n
        },
    );
    assert(body@ =~= without_era(s@));
    let k: usize = find_either(&body, ' ', ' ');
    let date = part(&body, 0, k);
    assert(date@ =~= body@.take(k as int));
    let day: i64 = match day_of_date(&date, bc) {
        Some(d) => d,
        None => {
            return None;
        },
    };
    if let PgType::Date = t {
        return if k == body.len() {
            Some(Moment { side: 0, micros: (day as i128) * 86_400_000_000, west: 0 })
        } else {
            None
        };
    }
    if k == body.len() {
        return None;
    }
    let clock = part(&body, k + 1, body.len());
    assert(clock@ =~= body@.skip(k + 1));
    if let PgType::Timestamp = t {
        read_clock_moment(day, &clock)
    } else {
        match read_zoned_moment(day, &clock) {
            Some(m) => Some(Moment { side: m.side, micros: m.micros, west: 0 }),
            None => None,
        }
    }
}

// ---------------------------------------------------------------------------
// Laws
// ---------------------------------------------------------------------------

/// Of two different moments one is earlier, and never both; what is earlier
/// than something earlier is earlier.
pub proof fn moments_are_ordered(a: MomentView, b: MomentView, c: MomentView)
    ensures
        a != b ==> earlier(a, b) != earlier(b, a),
        !earlier(a, a),
        earlier(a, b) && earlier(b, c) ==> earlier(a, c),
{
}

proof fn months_add_up(year: int, from: int, to: int)
    requires
        1 <= from < to,
    ensures
        days_before_month(year, to) >= days_before_month(year, from) + days_in_month(year, from),
    decreases to,
{
    if to > from + 1 {
        months_add_up(year, from, to - 1);
    }
}

pub(crate) proof fn years_follow(year: int)
    ensures
        day_number(year + 1, 1, 0) == day_number(year, 1, 0) + days_before_month(year, 13),
{
    reveal_with_fuel(days_before_month, 14);
    assert(days_before_month(year, 13) == if leap_year(year) {
        366int
    } else {
        365
    });
    let n = year + 10_000_000;
    assert(leap_year(year) == (n % 4 == 0 && (n % 100 != 0 || n % 400 == 0)));
}

proof fn years_add_up(from: int, to: int)
    requires
        from < to,
    ensures
        day_number(to, 1, 0) >= day_number(from, 1, 0) + days_before_month(from, 13),
    decreases to - from,
{
    years_follow(to - 1);
    if to > from + 1 {
        years_add_up(from, to - 1);
        months_add_up(to - 1, 1, 13);
    }
}

/// A later day of the calendar has a larger number.
pub proof fn days_are_numbered_in_order(
    year: int,
    month: int,
    day: int,
    later_year: int,
    later_month: int,
    later_day: int,
)
    requires
        1 <= month <= 12,
        1 <= day <= days_in_month(year, month),
        1 <= later_month <= 12,
        1 <= later_day <= days_in_month(later_year, later_month),
        year < later_year || (year == later_year && (month < later_month || (month == later_month
            && day < later_day))),
    ensures
        day_number(year, month, day) < day_number(later_year, later_month, later_day),
{
    if year < later_year {
        years_add_up(year, later_year);
        months_add_up(year, month, 13);
        if later_month > 1 {
            months_add_up(later_year, 1, later_month);
        }
    } else if month < later_month {
        months_add_up(year, month, later_month);
    }
}

pub(crate) proof fn sign_is_first(s: Seq<char>, k: int, i: int)
    requires
        signed_at(s, k),
        0 <= i <= k,
    ensures
        first_of(s, '+', '-', i) == k,
    decreases k - i,
{
    if i < k {
        no_sign_inside(s.take(k), i);
        assert(s.take(k)[i] == s[i]);
        sign_is_first(s, k, i + 1);
    }
}

/// Every date and time in its canonical spelling has a moment.
pub proof fn canonical_spellings_have_moments(s: Seq<char>)
    ensures
        date_text(s) ==> moment(PgTypeView::Date, s) is Some,
        time_text(s) ==> moment(PgTypeView::Time, s) is Some,
        timetz_text(s) ==> moment(PgTypeView::TimeTz, s) is Some,
        timestamp_text(s) ==> moment(PgTypeView::Timestamp, s) is Some,
{
    reveal(moment);
    reveal_strlit("infinity");
    reveal_strlit("-infinity");
    if timetz_text(s) {
        let k = choose|k: int| signed_at(s, k);
        sign_is_first(s, k, 0);
    }
    if date_text(s) {
        reveal_with_fuel(first_of, 12);
        assert(first_of(s, ' ', ' ', 0) == 10);
        assert(s.take(10) =~= s);
    }
    if timestamp_text(s) {
        let clock = s.skip(11);
        assert(clock.last() == s.last());
        assert(text::ascii_digit(s.last())) by {
            if clock.len() > 8 {
                assert(clock.skip(9).last() == s.last());
            } else {
                assert(clock[7] == s.last());
            }
        }
        let date = s.take(10);
        assert(forall|i: int| 0 <= i < 10 ==> date[i] == s[i]);
        reveal_with_fuel(first_of, 12);
        assert(first_of(s, ' ', ' ', 0) == 10);
    }
}

} // verus!
