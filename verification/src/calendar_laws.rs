//! The calendar and the clock, by what they count.

use vstd::prelude::*;

use crate::defs::typed_literal::{
    date_text, days_in_month, leap_year, no_sign_inside, offset_text, real_date, signed_at,
    time_text, timestamp_text, timetz_text, two_digit_value, zero_offset,
};
use crate::defs::pg_type::PgTypeView;
use crate::temporal::{
    clock_micros, date_day, day_number, days_before_month, first_of, moment, offset_seconds,
    sign_is_first, MomentView,
};
use crate::text::{ascii_digit, digit_char, digit_value, digits_value};

verus! {

// ---------------------------------------------------------------------------
// The calendar
// ---------------------------------------------------------------------------

/// Every fourth year is a leap year, but of the hundredth years only every
/// fourth.
pub proof fn leap_years_come_every_fourth(k: int)
    ensures
        !leap_year(4 * k + 1) && !leap_year(4 * k + 2) && !leap_year(4 * k + 3),
        leap_year(400 * k),
        k % 25 != 0 ==> leap_year(4 * k),
        !leap_year(400 * k + 100) && !leap_year(400 * k + 200) && !leap_year(400 * k + 300),
{
}

/// Long and short months take turns, twice, from January to July and from
/// August to December; February has what is left of the year.
pub proof fn months_take_turns(year: int, month: int)
    requires
        1 <= month <= 12,
    ensures
        month != 2 ==> days_in_month(year, month) == 30 + (month + month / 8) % 2,
        days_before_month(year, 13) == if leap_year(year) {
            366int
        } else {
            365
        },
{
    reveal_with_fuel(days_before_month, 14);
    assert(month == 1 || month == 2 || month == 3 || month == 4 || month == 5 || month == 6 || month
        == 7 || month == 8 || month == 9 || month == 10 || month == 11 || month == 12);
}

/// The day after a day has the next number, over the ends of months and years.
pub proof fn days_are_numbered_one_by_one(year: int, month: int, day: int)
    requires
        1 <= month <= 12,
        1 <= day <= days_in_month(year, month),
    ensures
        day < days_in_month(year, month) ==> day_number(year, month, day + 1) == day_number(
            year,
            month,
            day,
        ) + 1,
        day == days_in_month(year, month) && month < 12 ==> day_number(year, month + 1, 1)
            == day_number(year, month, day) + 1,
        day == days_in_month(year, month) && month == 12 ==> day_number(year + 1, 1, 1)
            == day_number(year, month, day) + 1,
{
    if month == 12 {
        crate::temporal::years_follow(year);
    }
}

// ---------------------------------------------------------------------------
// Spelling dates and times
// ---------------------------------------------------------------------------

/// A number below a hundred in two digits.
pub open spec fn two(n: int) -> Seq<char> {
    seq![digit_char(n / 10), digit_char(n % 10)]
}

proof fn two_reads_back(n: int)
    requires
        0 <= n < 100,
    ensures
        ascii_digit(two(n)[0]),
        ascii_digit(two(n)[1]),
        two_digit_value(two(n), 0) == n,
{
    assert(0 <= n / 10 < 10 && 0 <= n % 10 < 10);
}

/// A date as `YYYY-MM-DD`.
pub open spec fn spelled_date(year: int, month: int, day: int) -> Seq<char> {
    two(year / 100) + two(year % 100) + seq!['-'] + two(month) + seq!['-'] + two(day)
}

/// A clock reading as `HH:MM:SS`.
pub open spec fn spelled_clock(hours: int, minutes: int, seconds: int) -> Seq<char> {
    two(hours) + seq![':'] + two(minutes) + seq![':'] + two(seconds)
}

/// What is spelled as a date is one exactly if the calendar has the day: from
/// year one on, one of twelve months, and before the first day of the next.
pub proof fn dates_are_days_of_the_calendar(year: int, month: int, day: int)
    requires
        0 <= year < 10_000,
        0 <= month < 100,
        0 <= day < 100,
    ensures
        date_text(spelled_date(year, month, day)) <==> year >= 1 && 1 <= month <= 12 && day >= 1
            && day_number(year, month, day) < day_number(year, month + 1, 1),
{
    let s = spelled_date(year, month, day);
    two_reads_back(year / 100);
    two_reads_back(year % 100);
    two_reads_back(month);
    two_reads_back(day);
    assert(s.len() == 10);
    assert(s[0] == two(year / 100)[0] && s[1] == two(year / 100)[1]);
    assert(s[2] == two(year % 100)[0] && s[3] == two(year % 100)[1]);
    assert(s[4] == '-' && s[7] == '-');
    assert(s[5] == two(month)[0] && s[6] == two(month)[1]);
    assert(s[8] == two(day)[0] && s[9] == two(day)[1]);
    assert(100 * (year / 100) + year % 100 == year);
    assert(date_text(s) <==> real_date(year, month, day));
}

pub(crate) proof fn clock_parts(hours: int, minutes: int, seconds: int, rest: Seq<char>)
    requires
        0 <= hours < 100,
        0 <= minutes < 100,
        0 <= seconds < 100,
    ensures
        ({
            let s = spelled_clock(hours, minutes, seconds) + rest;
            &&& s.len() == 8 + rest.len()
            &&& ascii_digit(s[0]) && ascii_digit(s[1]) && ascii_digit(s[3]) && ascii_digit(s[4])
                && ascii_digit(s[6]) && ascii_digit(s[7])
            &&& s[2] == ':' && s[5] == ':'
            &&& two_digit_value(s, 0) == hours && two_digit_value(s, 3) == minutes
                && two_digit_value(s, 6) == seconds
            &&& s.skip(8) == rest
        }),
{
    let c = spelled_clock(hours, minutes, seconds);
    let s = c + rest;
    two_reads_back(hours);
    two_reads_back(minutes);
    two_reads_back(seconds);
    assert(c[0] == two(hours)[0] && c[1] == two(hours)[1]);
    assert(c[3] == two(minutes)[0] && c[4] == two(minutes)[1]);
    assert(c[6] == two(seconds)[0] && c[7] == two(seconds)[1]);
    assert forall|i: int| 0 <= i < 8 implies s[i] == c[i] by {}
    assert(s.skip(8) =~= rest);
}

/// What is spelled as a time of day is one exactly if it is no later than
/// twenty-four hours after midnight, with minutes and seconds below sixty; its
/// moment counts the microseconds since midnight.
pub proof fn times_are_up_to_the_next_midnight(hours: int, minutes: int, seconds: int)
    requires
        0 <= hours < 100,
        0 <= minutes < 100,
        0 <= seconds < 100,
    ensures
        time_text(spelled_clock(hours, minutes, seconds)) <==> minutes < 60 && seconds < 60 && hours
            * 3600 + minutes * 60 + seconds <= 24 * 3600,
        clock_micros(spelled_clock(hours, minutes, seconds)) == (hours * 3600 + minutes * 60
            + seconds) * 1_000_000,
{
    let c = spelled_clock(hours, minutes, seconds);
    clock_parts(hours, minutes, seconds, seq![]);
    assert(c + seq![] =~= c);
}

/// A fraction of a second has up to six digits, the last of them not zero, and
/// there is none at midnight of the next day.
pub proof fn fractions_have_up_to_six_digits(
    hours: int,
    minutes: int,
    seconds: int,
    fraction: Seq<char>,
)
    requires
        0 <= hours < 100,
        0 <= minutes < 60,
        0 <= seconds < 60,
        forall|i: int| 0 <= i < fraction.len() ==> ascii_digit(#[trigger] fraction[i]),
    ensures
        time_text(spelled_clock(hours, minutes, seconds) + (seq!['.'] + fraction)) <==> hours < 24
            && 1 <= fraction.len() <= 6 && fraction.last() != '0',
{
    let rest = seq!['.'] + fraction;
    let s = spelled_clock(hours, minutes, seconds) + rest;
    clock_parts(hours, minutes, seconds, rest);
    assert(s[8] == s.skip(8)[0]);
    assert(s.skip(9) =~= fraction);
}

/// What is spelled as a date and a time is a timestamp exactly if the date is
/// one and the time is before midnight.
pub proof fn timestamps_are_dates_with_times(
    date: Seq<char>,
    hours: int,
    minutes: int,
    seconds: int,
)
    requires
        date.len() == 10,
        0 <= hours < 100,
        0 <= minutes < 100,
        0 <= seconds < 100,
    ensures
        timestamp_text(date + (seq![' '] + spelled_clock(hours, minutes, seconds))) <==> date_text(
            date,
        ) && minutes < 60 && seconds < 60 && hours * 3600 + minutes * 60 + seconds < 24 * 3600,
{
    let c = spelled_clock(hours, minutes, seconds);
    let s = date + (seq![' '] + c);
    clock_parts(hours, minutes, seconds, seq![]);
    assert(c + seq![] =~= c);
    assert(s.take(10) =~= date);
    assert(s.skip(11) =~= c);
    assert(s[10] == ' ');
    assert(s[11] == c[0] && s[12] == c[1]);
}

// ---------------------------------------------------------------------------
// Offsets from UTC
// ---------------------------------------------------------------------------

/// An offset from UTC is below sixteen hours, and spelled without what is zero
/// at its end; its seconds are what it counts.
pub proof fn offsets_are_below_sixteen_hours(hours: int, minutes: int, seconds: int)
    requires
        0 <= hours < 100,
        0 <= minutes < 100,
        0 <= seconds < 100,
    ensures
        offset_text(two(hours)) <==> hours < 16,
        offset_text(two(hours) + seq![':'] + two(minutes)) <==> hours < 16 && 0 < minutes < 60,
        offset_text(spelled_clock(hours, minutes, seconds)) <==> hours < 16 && minutes < 60 && 0
            < seconds < 60,
        offset_seconds(two(hours)) == hours * 3600,
        offset_seconds(two(hours) + seq![':'] + two(minutes)) == hours * 3600 + minutes * 60,
        offset_seconds(spelled_clock(hours, minutes, seconds)) == hours * 3600 + minutes * 60
            + seconds,
{
    let c = spelled_clock(hours, minutes, seconds);
    let m = two(hours) + seq![':'] + two(minutes);
    clock_parts(hours, minutes, seconds, seq![]);
    assert(c + seq![] =~= c);
    two_reads_back(hours);
    two_reads_back(minutes);
    assert(m.len() == 5 && m[2] == ':');
    assert(m[0] == two(hours)[0] && m[1] == two(hours)[1]);
    assert(m[3] == two(minutes)[0] && m[4] == two(minutes)[1]);
}

/// A time of day, a sign and an offset are a zoned time exactly if the time and
/// the offset are such, and no offset at all is spelled with a plus. It is later
/// the further west it is read: an offset to the east is taken off.
pub proof fn zoned_times_are_times_with_offsets(time: Seq<char>, sign: char, offset: Seq<char>)
    requires
        time_text(time),
        offset_text(offset),
        sign == '+' || sign == '-',
    ensures
        timetz_text(time + (seq![sign] + offset)) <==> !(sign == '-' && offset == two(0)),
        moment(PgTypeView::TimeTz, time + (seq![sign] + offset)) == Some(
            MomentView {
                side: 0,
                micros: clock_micros(time) + (if sign == '-' {
                    offset_seconds(offset)
                } else {
                    -offset_seconds(offset)
                }) * 1_000_000,
                west: if sign == '-' {
                    offset_seconds(offset)
                } else {
                    -offset_seconds(offset)
                },
            },
        ),
{
    reveal(moment);
    let s = time + (seq![sign] + offset);
    let k = time.len() as int;
    assert(s.take(k) =~= time);
    assert(s.skip(k + 1) =~= offset);
    assert(s[k] == sign);
    first_sign(time, s, 0);
    if offset == two(0) {
        assert(zero_offset(offset));
    }
    if zero_offset(offset) {
        assert(offset =~= two(0));
    }
    if !(sign == '-' && offset == two(0)) {
        assert(signed_at(s, k));
    } else if timetz_text(s) {
        let j = choose|j: int| signed_at(s, j);
        sign_is_first(s, j, 0);
    }
}

proof fn first_sign(time: Seq<char>, s: Seq<char>, i: int)
    requires
        time_text(time),
        0 <= i <= time.len() < s.len(),
        s.take(time.len() as int) == time,
        s[time.len() as int] == '+' || s[time.len() as int] == '-',
    ensures
        first_of(s, '+', '-', i) == time.len(),
    decreases time.len() - i,
{
    if i < time.len() {
        no_sign_inside(time, i);
        assert(s.take(time.len() as int)[i] == s[i]);
        first_sign(time, s, i + 1);
    }
}

proof fn date_days(year: int, month: int, day: int)
    requires
        0 <= year < 10_000,
        0 <= month < 100,
        0 <= day < 100,
    ensures
        date_day(spelled_date(year, month, day), false) == day_number(year, month, day),
{
    let s = spelled_date(year, month, day);
    two_reads_back(year / 100);
    two_reads_back(year % 100);
    two_reads_back(month);
    two_reads_back(day);
    assert(s.len() == 10);
    assert(s[5] == two(month)[0] && s[6] == two(month)[1]);
    assert(s[8] == two(day)[0] && s[9] == two(day)[1]);
    let y = s.take(4);
    assert(y[0] == two(year / 100)[0] && y[1] == two(year / 100)[1]);
    assert(y[2] == two(year % 100)[0] && y[3] == two(year % 100)[1]);
    let (y3, y2, y1) = (y.drop_last(), y.drop_last().drop_last(), y.take(1));
    assert(y2.drop_last() =~= y1);
    assert(y1.drop_last() =~= seq![]);
    reveal_with_fuel(digits_value, 2);
    assert(digits_value(y1) == digit_value(y[0]));
    assert(digits_value(y2) == 10 * digits_value(y1) + digit_value(y[1]));
    assert(digits_value(y3) == 10 * digits_value(y2) + digit_value(y[2]));
    assert(digits_value(y) == 10 * digits_value(y3) + digit_value(y[3]));
    assert(100 * (year / 100) + year % 100 == year);
}

/// Days and times have the moment at which they begin: a day later is a day's
/// microseconds more.
pub proof fn timestamps_are_days_and_times(year: int, month: int, day: int, clock: Seq<char>)
    requires
        date_text(spelled_date(year, month, day)),
        0 <= year < 10_000,
        0 <= month < 100,
        0 <= day < 100,
        timestamp_text(spelled_date(year, month, day) + (seq![' '] + clock)),
    ensures
        moment(PgTypeView::Timestamp, spelled_date(year, month, day) + (seq![' '] + clock)) == Some(
            MomentView {
                side: 0,
                micros: day_number(year, month, day) * 86_400_000_000 + clock_micros(clock),
                west: 0,
            },
        ),
        moment(PgTypeView::Date, spelled_date(year, month, day)) == Some(
            MomentView {
                side: 0,
                micros: day_number(year, month, day) * 86_400_000_000,
                west: 0,
            },
        ),
{
    reveal(moment);
    reveal_strlit("infinity");
    reveal_strlit("-infinity");
    let date = spelled_date(year, month, day);
    let s = date + (seq![' '] + clock);
    assert(s.take(10) =~= date);
    assert(s.skip(11) =~= clock);
    assert(s[10] == ' ');
    assert forall|i: int| 0 <= i < 10 implies s[i] == date[i] by {}
    assert(ascii_digit(s.last())) by {
        if clock.len() > 8 {
            assert(clock.skip(9).last() == s.last());
        } else {
            assert(clock[7] == s.last());
        }
    }
    reveal_with_fuel(first_of, 12);
    assert(first_of(s, ' ', ' ', 0) == 10);
    assert(first_of(date, ' ', ' ', 0) == 10);
    assert(date.take(10) =~= date);
    assert(date_day(date, false) == day_number(year, month, day)) by {
        date_days(year, month, day);
    }
}

} // verus!
