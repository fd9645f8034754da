//! The proleptic Gregorian calendar: dates as numbers of days since 1970-01-01.
use vstd::arithmetic::div_mod::{lemma_fundamental_div_mod, lemma_mod_multiples_basic};
use vstd::prelude::*;

verus! {

pub const UNIX_EPOCH_YEAR: i64 = 1970;

pub const TIMESTAMP_MIN_YEAR: i64 = 1;

pub const TIMESTAMP_MAX_YEAR: i64 = 9999;

pub const MONTHS_PER_YEAR: u32 = 12;

pub const DAYS_PER_COMMON_YEAR: i64 = 365;

/// Whether `year` has a leap day.
pub open spec fn leap(year: int) -> bool {
    year % 4 == 0 && (year % 100 != 0 || year % 400 == 0)
}

/// The number of days of a year.
pub open spec fn days_of_year(year: int) -> int {
    if leap(year) {
        366
    } else {
        365
    }
}

/// The number of days of a month.
pub open spec fn days_of_month(year: int, month: int) -> int {
    if month == 2 {
        if leap(year) {
            29
        } else {
            28
        }
    } else if month == 4 || month == 6 || month == 9 || month == 11 {
        30
    } else {
        31
    }
}

/// Whether a date exists, in a year that is written with up to four digits.
pub open spec fn valid_date(year: int, month: int, day: int) -> bool {
    &&& TIMESTAMP_MIN_YEAR <= year <= TIMESTAMP_MAX_YEAR
    &&& 1 <= month <= 12
    &&& 1 <= day <= days_of_month(year, month)
}

/// The number of days from 1970-01-01 to the first day of a year.
pub open spec fn year_start(year: int) -> int
    decreases
            if year >= 1970 {
                year - 1970
            } else {
                1970 - year
            },
{
    if year == 1970 {
        0
    } else if year > 1970 {
        year_start(year - 1) + days_of_year(year - 1)
    } else {
        year_start(year + 1) - days_of_year(year)
    }
}

/// The number of days of a year before the first day of a month.
pub open spec fn month_start(year: int, month: int) -> int
    decreases month,
{
    if month <= 1 {
        0
    } else {
        month_start(year, month - 1) + days_of_month(year, month - 1)
    }
}

/// The number of days from 1970-01-01 to a date.
pub open spec fn day_number(year: int, month: int, day: int) -> int {
    year_start(year) + month_start(year, month) + (day - 1)
}

/// The months of a year add up to the year.
pub proof fn lemma_months_fill_the_year(year: int)
    ensures
        month_start(year, 13) == days_of_year(year),
{
    reveal_with_fuel(month_start, 14);
}

/// A year starts where the one before it ends.
pub proof fn lemma_year_start_step(year: int)
    ensures
        year_start(year + 1) == year_start(year) + days_of_year(year),
{
}

proof fn lemma_year_start_monotonic(a: int, b: int)
    requires
        a <= b,
    ensures
        year_start(b) - year_start(a) >= 365 * (b - a),
        year_start(b) - year_start(a) <= 366 * (b - a),
    decreases b - a,
{
    if a < b {
        lemma_year_start_monotonic(a, b - 1);
        lemma_year_start_step(b - 1);
    }
}

proof fn lemma_month_start_monotonic(year: int, a: int, b: int)
    requires
        1 <= a <= b <= 13,
    ensures
        month_start(year, a) <= month_start(year, b),
        a < b ==> month_start(year, a) + days_of_month(year, a) <= month_start(year, b),
    decreases b - a,
{
    if a < b {
        lemma_month_start_monotonic(year, a, b - 1);
    }
}

/// A date lies in its own year.
pub proof fn lemma_day_in_year(year: int, month: int, day: int)
    requires
        valid_date(year, month, day),
    ensures
        year_start(year) <= day_number(year, month, day) < year_start(year + 1),
{
    lemma_month_start_monotonic(year, 1, month);
    lemma_month_start_monotonic(year, month, 13);
    lemma_months_fill_the_year(year);
    lemma_year_start_step(year);
}

/// Two different dates never have the same number.
pub proof fn dates_are_counted_apart(y1: int, m1: int, d1: int, y2: int, m2: int, d2: int)
    requires
        valid_date(y1, m1, d1),
        valid_date(y2, m2, d2),
        day_number(y1, m1, d1) == day_number(y2, m2, d2),
    ensures
        y1 == y2,
        m1 == m2,
        d1 == d2,
{
    lemma_day_in_year(y1, m1, d1);
    lemma_day_in_year(y2, m2, d2);
    if y1 < y2 {
        lemma_year_start_monotonic(y1 + 1, y2);
    } else if y2 < y1 {
        lemma_year_start_monotonic(y2 + 1, y1);
    }
    if m1 < m2 {
        lemma_month_start_monotonic(y1, m1, m2);
    } else if m2 < m1 {
        lemma_month_start_monotonic(y1, m2, m1);
    }
}

/// Whether a number of days is that of some date.
pub open spec fn representable(days: int) -> bool {
    year_start(TIMESTAMP_MIN_YEAR as int) <= days < year_start(TIMESTAMP_MAX_YEAR + 1)
}

/// A date's number is representable, and within a few million days of 1970.
pub proof fn lemma_valid_is_representable(year: int, month: int, day: int)
    requires
        valid_date(year, month, day),
    ensures
        representable(day_number(year, month, day)),
        -800_000 <= day_number(year, month, day) <= 4_000_000,
{
    lemma_day_in_year(year, month, day);
    lemma_year_start_monotonic(1, year);
    lemma_year_start_monotonic(year + 1, 10000);
    lemma_year_start_monotonic(1, 1970);
    lemma_year_start_monotonic(1970, 10000);
}

/// What divides a number divides its opposite.
proof fn lemma_opposite(n: int, d: int)
    requires
        d > 0,
        n % d == 0,
    ensures
        (-n) % d == 0,
{
    lemma_fundamental_div_mod(n, d);
    assert(-n == (-(n / d)) * d) by (nonlinear_arith)
        requires
            n == d * (n / d),
    ;
    lemma_mod_multiples_basic(-(n / d), d);
}

proof fn lemma_leap_opposite(n: int)
    ensures
        leap(-n) == leap(n),
{
    assert forall|d: int| d > 0 implies (#[trigger] (n % d) == 0 <==> (-n) % d == 0) by {
        if n % d == 0 {
            lemma_opposite(n, d);
        }
        if (-n) % d == 0 {
            lemma_opposite(-n, d);
        }
    }
}

pub fn is_leap_year(year: i64) -> (r: bool)
    ensures
        r == leap(year as int),
{
    let n: u64 = if year < 0 {
        (-(year + 1)) as u64 + 1
    } else {
        year as u64
    };
    proof {
        lemma_leap_opposite(n as int);
    }
    n % 4 == 0 && (n % 100 != 0 || n % 400 == 0)
}

/// The number of days of a year.
pub fn year_length(year: i64) -> (n: i64)
    ensures
        n == days_of_year(year as int),
{
    if is_leap_year(year) {
        366
    } else {
        365
    }
}

/// The number of days of a month, if it is one.
pub fn month_length(year: i64, month: u32) -> (r: Option<i64>)
    ensures
        match r {
            Some(n) => 1 <= month <= 12 && n == days_of_month(year as int, month as int),
            None => !(1 <= month <= 12),
        },
{
    if month == 0 || month > MONTHS_PER_YEAR {
        return None;
    }
    Some(
        if month == 2 {
            if is_leap_year(year) {
                29
            } else {
                28
            }
        } else if month == 4 || month == 6 || month == 9 || month == 11 {
            30
        } else {
            31
        },
    )
}

/// The number of days from 1970-01-01 to a date, if that date exists.
pub fn days_from_civil(year: i64, month: u32, day: u32) -> (r: Option<i64>)
    ensures
        match r {
            Some(n) => valid_date(year as int, month as int, day as int) && n == day_number(
                year as int,
                month as int,
                day as int,
            ),
            None => !valid_date(year as int, month as int, day as int),
        },
{
    if year < TIMESTAMP_MIN_YEAR || year > TIMESTAMP_MAX_YEAR {
        return None;
    }
    match month_length(year, month) {
        None => {
            return None;
        },
        Some(length) => {
            if day == 0 || day as i64 > length {
                return None;
            }
        },
    }
    let mut days: i64 = 0;
    let mut walked: i64 = UNIX_EPOCH_YEAR;
    if year >= UNIX_EPOCH_YEAR {
        while walked < year
            invariant
                1970 <= walked <= year <= 9999,
                days == year_start(walked as int),
                0 <= days <= 366 * (walked - 1970),
            decreases year - walked,
        {
            proof {
                lemma_year_start_step(walked as int);
            }
            days = days + year_length(walked);
            walked = walked + 1;
        }
    } else {
        while walked > year
            invariant
                1 <= year <= walked <= 1970,
                days == year_start(walked as int),
                366 * (walked - 1970) <= days <= 0,
            decreases walked - year,
        {
            proof {
                lemma_year_start_step(walked - 1);
            }
            walked = walked - 1;
            days = days - year_length(walked);
        }
    }
    let mut m: u32 = 1;
    let ghost start = days as int;
    while m < month
        invariant
            1 <= m <= month <= 12,
            1 <= year <= 9999,
            -1_000_000 <= start <= 4_000_000,
            days == start + month_start(year as int, m as int),
            0 <= days - start <= 31 * (m - 1),
        decreases month - m,
    {
        match month_length(year, m) {
            None => {
                return None;
            },
            Some(length) => {
                days = days + length;
            },
        }
        m = m + 1;
    }
    Some(days + (day - 1) as i64)
}

/// The date with this number, if there is one.
pub fn civil_from_days(days: i64) -> (r: Option<(i64, u32, u32)>)
    ensures
        match r {
            Some((year, month, day)) => valid_date(year as int, month as int, day as int)
                && day_number(year as int, month as int, day as int) == days,
            None => !representable(days as int),
        },
{
    let mut remaining: i64 = days;
    let mut year: i64 = UNIX_EPOCH_YEAR;
    while remaining < 0
        invariant
            1 <= year <= 1970,
            days == year_start(year as int) + remaining,
        decreases year,
    {
        proof {
            lemma_year_start_step(year - 1);
        }
        year = year - 1;
        if year < TIMESTAMP_MIN_YEAR {
            return None;
        }
        remaining = remaining + year_length(year);
    }
    while remaining >= year_length(year)
        invariant
            1 <= year <= 9999,
            0 <= remaining,
            days == year_start(year as int) + remaining,
        decreases 10000 - year,
    {
        proof {
            lemma_year_start_step(year as int);
        }
        remaining = remaining - year_length(year);
        year = year + 1;
        if year > TIMESTAMP_MAX_YEAR {
            return None;
        }
    }
    proof {
        lemma_months_fill_the_year(year as int);
    }
    let ghost in_year = remaining as int;
    let mut month: u32 = 1;
    loop
        invariant
            1 <= month <= 12,
            1 <= year <= 9999,
            in_year == month_start(year as int, month as int) + remaining,
            0 <= remaining <= 366,
            in_year < days_of_year(year as int),
            days == year_start(year as int) + in_year,
            month_start(year as int, 13) == days_of_year(year as int),
        ensures
            1 <= month <= 12,
            in_year == month_start(year as int, month as int) + remaining,
            0 <= remaining < days_of_month(year as int, month as int),
        decreases 12 - month,
    {
        let length: i64 = match month_length(year, month) {
            Some(n) => n,
            None => 31,
        };
        if remaining < length {
            break;
        }
        remaining = remaining - length;
        proof {
            assert(month_start(year as int, month + 1) == month_start(year as int, month as int)
                + length);
        }
        month = month + 1;
    }
    let day: u32 = remaining as u32 + 1;
    Some((year, month, day))
}

/// A year is a leap year where four divides it, except that a century is one only where 400
/// divides it.
pub proof fn a_century_is_seldom_a_leap_year(year: int)
    ensures
        year % 400 == 0 ==> leap(year),
        year % 100 == 0 && year % 400 != 0 ==> !leap(year),
        year % 4 == 0 && year % 100 != 0 ==> leap(year),
        year % 4 != 0 ==> !leap(year),
{
}

/// How long each month is.
pub proof fn months_have_their_lengths(year: int)
    ensures
        days_of_month(year, 1) == 31,
        days_of_month(year, 2) == (if leap(year) {
            29int
        } else {
            28
        }),
        days_of_month(year, 3) == 31,
        days_of_month(year, 4) == 30,
        days_of_month(year, 5) == 31,
        days_of_month(year, 6) == 30,
        days_of_month(year, 7) == 31,
        days_of_month(year, 8) == 31,
        days_of_month(year, 9) == 30,
        days_of_month(year, 10) == 31,
        days_of_month(year, 11) == 30,
        days_of_month(year, 12) == 31,
{
}

/// The first day of 1970 has the number zero, and the next day always has the next number: within
/// a month, from one month to the next, and from one year to the next.
pub proof fn the_next_day_has_the_next_number(year: int, month: int, day: int)
    requires
        valid_date(year, month, day),
    ensures
        day_number(1970, 1, 1) == 0,
        day < days_of_month(year, month) ==> day_number(year, month, day + 1) == day_number(
            year,
            month,
            day,
        ) + 1,
        day == days_of_month(year, month) && month < 12 ==> day_number(year, month + 1, 1)
            == day_number(year, month, day) + 1,
        day == days_of_month(year, month) && month == 12 ==> day_number(year + 1, 1, 1)
            == day_number(year, month, day) + 1,
{
    lemma_months_fill_the_year(year);
    lemma_year_start_step(year);
}

/// A date exists exactly in the years 1 to 9999, in one of twelve months, on one of its days.
pub proof fn a_date_has_to_exist(year: int, month: int, day: int)
    ensures
        valid_date(year, month, day) <==> 1 <= year <= 9999 && 1 <= month <= 12 && 1 <= day
            <= days_of_month(year, month),
{
}

} // verus!
