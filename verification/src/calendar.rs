//! The proleptic Gregorian calendar, counted in days and seconds from 1970-01-01.

use crate::text::{
    contents, fields, joined, law_fields_of_joined, law_number_read, parse_unsigned, split_fields,
    unsigned_up_to,
};
use vstd::prelude::*;

verus! {

/// Whether `year` has a 29th of February.
pub open spec fn is_leap(year: int) -> bool {
    year % 4 == 0 && (year % 100 != 0 || year % 400 == 0)
}

/// The number of days in `year`.
pub open spec fn days_in_year(year: int) -> int {
    if is_leap(year) {
        366
    } else {
        365
    }
}

/// The number of days in month `month` (1 to 12) of `year`.
pub open spec fn days_in_month(year: int, month: int) -> int {
    if month == 2 {
        if is_leap(year) {
            29
        } else {
            28
        }
    } else if month == 4 || month == 6 || month == 9 || month == 11 {
        30
    } else {
        31
    }
}

/// The days from 1970-01-01 to January 1st of `year`: the lengths of the years between them,
/// counted as negative before 1970.
pub open spec fn year_start(year: int) -> int
    decreases
            (if year >= 1970 {
                year - 1970
            } else {
                1970 - year
            }),
{
    if year == 1970 {
        0
    } else if year > 1970 {
        year_start(year - 1) + days_in_year(year - 1)
    } else {
        year_start(year + 1) - days_in_year(year)
    }
}

/// The days of `year` that lie before month `month`.
pub open spec fn days_before_month(year: int, month: int) -> int
    decreases month,
{
    if month <= 1 {
        0
    } else {
        days_before_month(year, month - 1) + days_in_month(year, month - 1)
    }
}

/// The days from 1970-01-01 to the given date. A `day` beyond the end of its month counts on
/// into the next one.
pub open spec fn day_number(year: int, month: int, day: int) -> int {
    year_start(year) + days_before_month(year, month) + day - 1
}

/// Whether the three numbers are a date of the calendar.
pub open spec fn is_civil_date(year: int, month: int, day: int) -> bool {
    &&& 1 <= month <= 12
    &&& 1 <= day <= days_in_month(year, month)
}

/// Whether the first date lies before the second.
pub open spec fn date_before(y1: int, m1: int, d1: int, y2: int, m2: int, d2: int) -> bool {
    y1 < y2 || (y1 == y2 && (m1 < m2 || (m1 == m2 && d1 < d2)))
}

/// What [`days_from_civil`] counts for a month number outside 1 to 12: the year is taken to
/// begin in March, and the months after February run in the same 153-days-in-five-months
/// rhythm for as long as they are counted.
pub open spec fn march_day_number(year: int, month: int, day: int) -> int {
    let y = if month <= 2 {
        year - 1
    } else {
        year
    };
    let m = if month <= 2 {
        month + 9
    } else {
        month - 3
    };
    365 * y + y / 4 - y / 100 + y / 400 + (153 * m + 2) / 5 + day - 1 - 719468
}

/// The start of a year in closed form.
proof fn lemma_year_start(year: int)
    ensures
        year_start(year) == 365 * (year - 1970) + (year - 1) / 4 - (year - 1) / 100 + (year - 1)
            / 400 - 477,
    decreases
            (if year >= 1970 {
                year - 1970
            } else {
                1970 - year
            }),
{
    if year > 1970 {
        lemma_year_start(year - 1);
        lemma_leap_days(year - 1);
    } else if year < 1970 {
        lemma_year_start(year + 1);
        lemma_leap_days(year);
    }
}

/// The days before each month, spelled out.
proof fn lemma_days_before_month(year: int, month: int)
    requires
        1 <= month <= 12,
    ensures
        days_before_month(year, month) == (if month == 1 {
            0
        } else if month == 2 {
            31
        } else {
            (153 * (month - 3) + 2) / 5 + 59 + (if is_leap(year) {
                1int
            } else {
                0int
            })
        }),
    decreases month,
{
    if month > 1 {
        lemma_days_before_month(year, month - 1);
    }
}

/// One more year counts one more leap day exactly when it is a leap year.
proof fn lemma_leap_days(year: int)
    ensures
        year / 4 - year / 100 + year / 400 == (year - 1) / 4 - (year - 1) / 100 + (year - 1) / 400
            + (if is_leap(year) {
            1int
        } else {
            0int
        }),
{
    assert(year / 4 == (year - 1) / 4 + (if year % 4 == 0 {
        1int
    } else {
        0int
    }));
    assert(year / 100 == (year - 1) / 100 + (if year % 100 == 0 {
        1int
    } else {
        0int
    }));
    assert(year / 400 == (year - 1) / 400 + (if year % 400 == 0 {
        1int
    } else {
        0int
    }));
    assert(year % 400 == 0 ==> year % 100 == 0);
    assert(year % 100 == 0 ==> year % 4 == 0);
}

/// Counting from March agrees with the calendar in every month of the year.
proof fn lemma_march_day_number(year: int, month: int, day: int)
    requires
        1 <= month <= 12,
    ensures
        march_day_number(year, month, day) == day_number(year, month, day),
{
    lemma_year_start(year);
    lemma_days_before_month(year, month);
    lemma_leap_days(year);
}

/// The days of the 400-year eras and of the years since the last of them add up to the days of
/// all the years.
proof fn lemma_eras(y: int)
    ensures
        (y / 400) * 146097 + ((y % 400) * 365 + (y % 400) / 4 - (y % 400) / 100) == 365 * y + y / 4
            - y / 100 + y / 400,
{
    let era = y / 400;
    let yoe = y % 400;
    assert(y == 400 * era + yoe);
    assert(y / 4 == 100 * era + yoe / 4);
    assert(y / 100 == 4 * era + yoe / 100);
}

/// A year begins where the year before it ends.
proof fn lemma_year_after_year(year: int)
    ensures
        year_start(year + 1) == year_start(year) + days_in_year(year),
{
    lemma_year_start(year);
    lemma_year_start(year + 1);
    lemma_leap_days(year);
}

/// A later year begins no earlier.
proof fn lemma_year_start_ordered(y1: int, y2: int)
    requires
        y1 <= y2,
    ensures
        year_start(y1) <= year_start(y2),
    decreases y2 - y1,
{
    if y1 < y2 {
        lemma_year_start_ordered(y1, y2 - 1);
        lemma_year_after_year(y2 - 1);
    }
}

/// The day after a date has the next number, across the ends of months and years.
pub proof fn law_next_day(year: int, month: int, day: int)
    requires
        is_civil_date(year, month, day),
    ensures
        day < days_in_month(year, month) ==> day_number(year, month, day + 1) == day_number(
            year,
            month,
            day,
        ) + 1,
        day == days_in_month(year, month) && month < 12 ==> day_number(year, month + 1, 1)
            == day_number(year, month, day) + 1,
        day == days_in_month(year, month) && month == 12 ==> day_number(year + 1, 1, 1)
            == day_number(year, month, day) + 1,
{
    lemma_days_before_month(year, month);
    lemma_year_after_year(year);
}

/// Later dates have larger numbers, so a number belongs to one date only.
pub proof fn law_dates_ordered(y1: int, m1: int, d1: int, y2: int, m2: int, d2: int)
    requires
        is_civil_date(y1, m1, d1),
        is_civil_date(y2, m2, d2),
        date_before(y1, m1, d1, y2, m2, d2),
    ensures
        day_number(y1, m1, d1) < day_number(y2, m2, d2),
{
    lemma_days_before_month(y1, m1);
    lemma_days_before_month(y2, m2);
    if y1 < y2 {
        lemma_year_after_year(y1);
        lemma_year_start_ordered(y1 + 1, y2);
    }
}

/// The days from 1970-01-01 to a civil date, negative before it.
pub fn days_from_civil(year: i32, month: u32, day: u32) -> (days: i64)
    requires
        month <= 2 ==> year > i32::MIN,
    ensures
        days == march_day_number(year as int, month as int, day as int),
        1 <= month <= 12 ==> days == day_number(year as int, month as int, day as int),
{
    let y: i64 = if month <= 2 {
        (year - 1) as i64
    } else {
        year as i64
    };
    let m: i64 = if month <= 2 {
        (month + 9) as i64
    } else {
        (month - 3) as i64
    };
    let d: i64 = day as i64;

    let era: i64 = y.checked_div_euclid(400).unwrap();
    let yoe: i64 = y.checked_rem_euclid(400).unwrap();
    assert(-0x8000_0001 <= y <= 0x7fff_ffff && y - 400 < 400 * era <= y && 0 <= yoe < 400);
    assert(0 <= m <= 0xffff_ffff && 0 <= d <= 0xffff_ffff);
    let doy: i64 = (153 * m + 2) / 5 + d - 1;
    let doe: i64 = yoe * 365 + yoe / 4 - yoe / 100 + doy;

    proof {
        lemma_eras(y as int);
        if 1 <= month <= 12 {
            lemma_march_day_number(year as int, month as int, day as int);
        }
    }
    era * 146097 + doe - 719468
}

/// The seconds of a day.
pub const SECONDS_PER_DAY: u32 = 86400;

/// The 32-bit timestamp of the first second of a day. Days before 1970, and days too late for 32
/// bits, wrap around.
pub open spec fn day_timestamp(day: int) -> u32 {
    ((day * SECONDS_PER_DAY) % 0x1_0000_0000) as u32
}

/// The year, month and day of a text `YYYY-MM-DD`: three unsigned numbers between dashes, of
/// which the month is 1 to 12 and the day 1 to 31.
pub open spec fn date_fields(s: Seq<char>) -> Option<(int, int, int)> {
    let list = fields(s, '-');
    if list.len() != 3 {
        None
    } else {
        match (
            unsigned_up_to(list[0], i32::MAX as nat),
            unsigned_up_to(list[1], u32::MAX as nat),
            unsigned_up_to(list[2], u32::MAX as nat),
        ) {
            (Some(y), Some(m), Some(d)) => if 1 <= m <= 12 && 1 <= d <= 31 {
                Some((y as int, m as int, d as int))
            } else {
                None
            },
            _ => None,
        }
    }
}

/// The timestamp at which the date of a text begins, if the text is a date.
pub open spec fn date_timestamp(s: Seq<char>) -> Option<u32> {
    match date_fields(s) {
        Some((y, m, d)) => Some(day_timestamp(day_number(y, m, d))),
        None => None,
    }
}

/// From 1970 to the last day that begins within 32-bit time, a day's timestamp is the seconds
/// since 1970; and the next day's, if it is among them too, begins where the day ends.
pub proof fn law_day_timestamps(day: int)
    requires
        0 <= day,
        day * SECONDS_PER_DAY <= u32::MAX,
    ensures
        day_timestamp(day) == day * SECONDS_PER_DAY,
        (day + 1) * SECONDS_PER_DAY <= u32::MAX ==> day_timestamp(day + 1) == day_timestamp(day)
            + SECONDS_PER_DAY,
{
}

/// Reads a date `YYYY-MM-DD` as the timestamp of its first second.
///
/// The month must be 1 to 12 and the day 1 to 31; a day beyond the end of its month counts on
/// into the next one.
pub fn parse_date_to_timestamp(date: &str) -> (timestamp: Option<u32>)
    ensures
        timestamp == date_timestamp(date@),
{
    let parts: Vec<Vec<char>> = split_fields(date, '-');
    assert(contents(parts@).len() == parts@.len());
    if parts.len() != 3 {
        return None;
    }
    assert(contents(parts@)[0] == parts@[0]@);
    assert(contents(parts@)[1] == parts@[1]@);
    assert(contents(parts@)[2] == parts@[2]@);
    let year: i32 = match parse_unsigned(&parts[0], i32::MAX as u64) {
        Some(v) => v as i32,
        None => return None,
    };
    let month: u32 = match parse_unsigned(&parts[1], u32::MAX as u64) {
        Some(v) => v as u32,
        None => return None,
    };
    let day: u32 = match parse_unsigned(&parts[2], u32::MAX as u64) {
        Some(v) => v as u32,
        None => return None,
    };
    if month < 1 || month > 12 || day < 1 || day > 31 {
        return None;
    }
    let days: i64 = days_from_civil(year, month, day) - days_from_civil(1970, 1, 1);
    let seconds: i64 = days * SECONDS_PER_DAY as i64;
    assert(seconds as u32 == seconds % 0x1_0000_0000) by (bit_vector);
    Some(#[verifier::truncate] (seconds as u32))
}

/// The numbers of the days follow the calendar: 1970-01-01 is day zero; each day has the number
/// after the day before it; April, June, September and November have 30 days, and so on; February
/// has 29 in every fourth year, but not at the turn of a century unless it is a fourth one.
pub proof fn law_calendar(year: int, month: int, day: int)
    requires
        1 <= month <= 12,
    ensures
        day_number(1970, 1, 1) == 0,
        day_number(year, month, day) == day_number(year, month, 1) + (day - 1),
        month == 12 ==> day_number(year + 1, 1, 1) == day_number(year, 12, 1) + 31,
        month < 12 ==> day_number(year, month + 1, 1) == day_number(year, month, 1) + (if month
            == 2 {
            if year % 400 == 0 {
                29
            } else if year % 100 == 0 {
                28
            } else if year % 4 == 0 {
                29
            } else {
                28int
            }
        } else if month == 4 || month == 6 || month == 9 || month == 11 {
            30
        } else {
            31
        }),
{
    lemma_days_before_month(year, month);
    if month == 12 {
        lemma_year_after_year(year);
    }
    assert(year % 400 == 0 ==> year % 4 == 0 && year % 100 == 0);
    assert(year % 100 == 0 ==> year % 4 == 0);
}

/// [`days_from_civil`] counts from 1970-01-01: it gives each date of a month the number of its
/// day; month zero is the December before; and five months more, after February, are always 153
/// days more, also beyond December.
pub proof fn law_days_from_civil(
    year: i32,
    month: u32,
    day: u32,
    days: i64,
    earlier: i64,
    next_five: i64,
)
    requires
        year > i32::MIN,
        month <= u32::MAX - 5,
        call_ensures(days_from_civil, (year, month, day), days),
        call_ensures(days_from_civil, ((year - 1) as i32, 12u32, day), earlier),
        call_ensures(days_from_civil, (year, (month + 5) as u32, day), next_five),
    ensures
        1 <= month <= 12 ==> days == day_number(year as int, month as int, day as int),
        month == 0 ==> days == earlier,
        month >= 3 ==> next_five == days + 153,
{
}

/// The text of a date with a year of four digits: `YYYY-MM-DD`.
pub open spec fn date_text(year: int, month: int, day: int) -> Seq<char> {
    seq![
        (48 + year / 1000) as char,
        (48 + year / 100 % 10) as char,
        (48 + year / 10 % 10) as char,
        (48 + year % 10) as char,
        '-',
        (48 + month / 10) as char,
        (48 + month % 10) as char,
        '-',
        (48 + day / 10) as char,
        (48 + day % 10) as char,
    ]
}

/// Three texts between two dashes are a date exactly where the first is a number that an `i32`
/// holds, the second one of 1 to 12 and the third one of 1 to 31; and its timestamp is then that
/// of the first second of that day of the calendar, modulo 2^32.
pub proof fn law_date_of_three(
    first: Seq<char>,
    second: Seq<char>,
    third: Seq<char>,
    date: &str,
    timestamp: Option<u32>,
)
    requires
        !first.contains('-'),
        !second.contains('-'),
        !third.contains('-'),
        date@ == first + seq!['-'] + second + seq!['-'] + third,
        call_ensures(parse_date_to_timestamp, (date,), timestamp),
    ensures
        timestamp == date_timestamp(date@),
        timestamp is Some <==> {
            &&& unsigned_up_to(first, 0x7fff_ffff) is Some
            &&& unsigned_up_to(second, 12) is Some && unsigned_up_to(second, 0) is None
            &&& unsigned_up_to(third, 31) is Some && unsigned_up_to(third, 0) is None
        },
        timestamp is Some ==> timestamp->0 == (86400 * day_number(
            unsigned_up_to(first, 0x7fff_ffff)->0 as int,
            unsigned_up_to(second, 12)->0 as int,
            unsigned_up_to(third, 31)->0 as int,
        )) % 0x1_0000_0000,
{
    let list = seq![first, second, third];
    assert(list.drop_last() =~= seq![first, second]);
    assert(list.drop_last().drop_last() =~= seq![first]);
    assert(joined(seq![first], '-') =~= first);
    assert(joined(seq![first, second], '-') =~= first + seq!['-'] + second);
    assert(joined(list, '-') =~= date@);
    law_fields_of_joined(list, '-');
}

/// A text without exactly two dashes is no date.
pub proof fn law_date_has_two_dashes(list: Seq<Seq<char>>, date: &str, timestamp: Option<u32>)
    requires
        list.len() > 0,
        list.len() != 3,
        forall|i: int| 0 <= i < list.len() ==> !(#[trigger] list[i]).contains('-'),
        date@ == joined(list, '-'),
        call_ensures(parse_date_to_timestamp, (date,), timestamp),
    ensures
        timestamp is None,
        date_timestamp(date@) is None,
{
    law_fields_of_joined(list, '-');
}

/// Two digits read as the number that they show.
proof fn lemma_two_digits(a: int, b: int, max: nat)
    requires
        0 <= a <= 9,
        0 <= b <= 9,
        10 * a + b <= max,
    ensures
        unsigned_up_to(seq![(48 + a) as char, (48 + b) as char], max) == Some((10 * a + b) as nat),
        !seq![(48 + a) as char, (48 + b) as char].contains('-'),
{
    let (p, q) = ((48 + a) as char, (48 + b) as char);
    law_number_read(Seq::empty(), p, max);
    law_number_read(seq![p], q, max);
    assert(seq![p][0] != seq!['+'][0]);
    assert(seq![p].push(q) =~= seq![p, q]);
}

/// The text `YYYY-MM-DD` of a date of the calendar reads as that date: its timestamp is 86,400
/// times the number of days from 1970-01-01 to the date, modulo 2^32.
pub proof fn law_date_text_read(
    year: int,
    month: int,
    day: int,
    date: &str,
    timestamp: Option<u32>,
)
    requires
        0 <= year <= 9999,
        is_civil_date(year, month, day),
        date@ == date_text(year, month, day),
        call_ensures(parse_date_to_timestamp, (date,), timestamp),
    ensures
        timestamp is Some,
        timestamp->0 == (86400 * day_number(year, month, day)) % 0x1_0000_0000,
        timestamp == date_timestamp(date@),
{
    let (a, b, c, d) = (year / 1000, year / 100 % 10, year / 10 % 10, year % 10);
    let head = seq![(48 + a) as char, (48 + b) as char];
    let (p, q) = ((48 + c) as char, (48 + d) as char);
    let max: nat = 0x7fff_ffff;
    assert(year == 1000 * a + 100 * b + 10 * c + d && 0 <= a <= 9);
    lemma_two_digits(a, b, max);
    assert(head[0] != seq!['+'][0]);
    law_number_read(head, p, max);
    let three = head.push(p);
    assert(three[0] != seq!['+'][0]);
    law_number_read(three, q, max);
    let first = three.push(q);
    assert(!first.contains('-'));
    let second = seq![(48 + month / 10) as char, (48 + month % 10) as char];
    let third = seq![(48 + day / 10) as char, (48 + day % 10) as char];
    lemma_two_digits(month / 10, month % 10, 12);
    lemma_two_digits(day / 10, day % 10, 31);
    assert(date@ =~= first + seq!['-'] + second + seq!['-'] + third);
    law_date_of_three(first, second, third, date, timestamp);
}

/// The day after a date of the calendar.
pub open spec fn next_date(year: int, month: int, day: int) -> (int, int, int) {
    if day < days_in_month(year, month) {
        (year, month, day + 1)
    } else if month < 12 {
        (year, month + 1, 1)
    } else {
        (year + 1, 1, 1)
    }
}

/// From 1970 to 2105 the texts of two consecutive days are 86,400 seconds apart, across the end of
/// every month and year, and 1970-01-01 is at zero.
pub proof fn law_consecutive_dates(
    year: int,
    month: int,
    day: int,
    date: &str,
    next: &str,
    timestamp: Option<u32>,
    next_timestamp: Option<u32>,
)
    requires
        1970 <= year <= 2105,
        is_civil_date(year, month, day),
        date@ == date_text(year, month, day),
        next@ == ({
            let (y, m, d) = next_date(year, month, day);
            date_text(y, m, d)
        }),
        call_ensures(parse_date_to_timestamp, (date,), timestamp),
        call_ensures(parse_date_to_timestamp, (next,), next_timestamp),
    ensures
        timestamp is Some,
        next_timestamp is Some,
        next_timestamp->0 == timestamp->0 + 86400,
        (year, month, day) == (1970int, 1int, 1int) ==> timestamp->0 == 0,
{
    let (y, m, d) = next_date(year, month, day);
    law_date_text_read(year, month, day, date, timestamp);
    law_date_text_read(y, m, d, next, next_timestamp);
    law_next_day(year, month, day);
    lemma_day_range(year, month, day);
    lemma_day_range(y, m, d);
}

/// The days of 1970 to 2105, and 2106-01-01, have numbers whose seconds fit in 32 bits.
pub(crate) proof fn lemma_day_range(year: int, month: int, day: int)
    requires
        is_civil_date(year, month, day),
        1970 <= year <= 2105 || (year, month, day) == (2106int, 1int, 1int),
    ensures
        0 <= day_number(year, month, day) <= 49673,
{
    lemma_year_start(year);
    lemma_days_before_month(year, month);
}

} // verus!
