use vstd::prelude::*;

verus! {

/// Microseconds in a second.
pub const MICROS_PER_SECOND: u64 = 1_000_000;

/// Microseconds in a minute.
pub const MICROS_PER_MINUTE: u64 = 60_000_000;

/// Microseconds in an hour.
pub const MICROS_PER_HOUR: u64 = 3_600_000_000;

/// Microseconds in a day.
pub const MICROS_PER_DAY: u64 = 86_400_000_000;

/// Days in 400 years, after which the calendar repeats.
pub const DAYS_PER_ERA: u64 = 146_097;

/// A number of years, a multiple of 400, by which every year that an
/// instant can lie in is moved above 1970.
pub const SHIFT_YEARS: u64 = 320_000;

/// The days in `SHIFT_YEARS` years.
pub const SHIFT_DAYS: u64 = 116_877_600;

/// The most days after 1970-01-01 for which `civil_from_days` finds the
/// date.
pub const DAYS_LIMIT: u64 = 250_000_000;

/// The last year whose first day lies within `DAYS_LIMIT`.
pub const YEAR_LIMIT: u64 = 700_000;

/// The first year of the calendar in which texts are written and read.
pub const EARLIEST_YEAR: i64 = -262_143;

/// Days from 1970-01-01 back to the first day of `EARLIEST_YEAR`.
pub const EARLIEST_DAY: i64 = -96_465_292;

/// Gregorian leap-year rule.
pub open spec fn is_leap(y: int) -> bool {
    y % 4 == 0 && (y % 100 != 0 || y % 400 == 0)
}

/// Number of days of month `m` in year `y`.
pub open spec fn days_in_month(y: int, m: int) -> int {
    if m == 2 {
        if is_leap(y) {
            29
        } else {
            28
        }
    } else if m == 4 || m == 6 || m == 9 || m == 11 {
        30
    } else {
        31
    }
}

/// Number of leap years among the years `1..=y`.
pub open spec fn leap_years_through(y: int) -> int {
    y / 4 - y / 100 + y / 400
}

/// Days from 1970-01-01 to the first day of year `y`.
pub open spec fn days_before_year(y: int) -> int {
    365 * (y - 1970) + leap_years_through(y - 1) - leap_years_through(1969)
}

/// Days from the first day of year `y` to the first day of its month `m`.
pub open spec fn days_before_month(y: int, m: int) -> int
    decreases m,
{
    if m <= 1 {
        0
    } else {
        days_before_month(y, m - 1) + days_in_month(y, m - 1)
    }
}

/// Days from 1970-01-01 to the given date.
pub open spec fn days_from_civil(y: int, m: int, d: int) -> int {
    days_before_year(y) + days_before_month(y, m) + d - 1
}

/// A date of the calendar: a month of the year and a day of that month.
/// Years count on from 1 backwards through 0 and below.
pub open spec fn valid_date(y: int, m: int, d: int) -> bool {
    &&& 1 <= m <= 12
    &&& 1 <= d <= days_in_month(y, m)
}

/// Stepping from `y - 1` to `y` adds one to the quotient by 4 exactly when 4
/// divides `y`.
proof fn lemma_step_4(y: int)
    ensures
        y / 4 - (y - 1) / 4 == (if y % 4 == 0 { 1int } else { 0int }),
{
}

/// From one year to the next the count of multiples of 100 grows by one
/// exactly at a multiple of 100.
proof fn lemma_step_100(y: int)
    ensures
        y / 100 - (y - 1) / 100 == (if y % 100 == 0 { 1int } else { 0int }),
{
}

/// From one year to the next the count of multiples of 400 grows by one
/// exactly at a multiple of 400.
proof fn lemma_step_400(y: int)
    ensures
        y / 400 - (y - 1) / 400 == (if y % 400 == 0 { 1int } else { 0int }),
{
}

/// What 400 divides, 100 divides, and what 100 divides, 4 divides.
proof fn lemma_divisors(y: int)
    ensures
        y % 400 == 0 ==> y % 100 == 0,
        y % 100 == 0 ==> y % 4 == 0,
{
    if y % 400 == 0 {
        let q = y / 400;
        assert(y == 400 * q);
        assert(y == 100 * (4 * q));
        vstd::arithmetic::div_mod::lemma_mod_multiples_basic(4 * q, 100);
    }
    if y % 100 == 0 {
        let q = y / 100;
        assert(y == 100 * q);
        assert(y == 4 * (25 * q));
        vstd::arithmetic::div_mod::lemma_mod_multiples_basic(25 * q, 4);
    }
}

/// A leap year adds one to the count of leap years.
pub proof fn lemma_leap_step(y: int)
    ensures
        leap_years_through(y) - leap_years_through(y - 1) == (if is_leap(y) { 1int } else { 0int }),
{
    lemma_step_4(y);
    lemma_step_100(y);
    lemma_step_400(y);
    lemma_divisors(y);
}

/// A year has 365 days, and one more if it is a leap year.
pub proof fn lemma_year_length(y: int)
    ensures
        days_before_year(y + 1) - days_before_year(y) == (if is_leap(y) { 366int } else { 365int }),
{
    lemma_leap_step(y);
}

/// The months of a year add up to its length.
pub proof fn lemma_months_fill_year(y: int)
    ensures
        days_before_month(y, 13) == (if is_leap(y) { 366int } else { 365int }),
        forall|m: int| 1 <= m <= 12 ==> #[trigger] days_before_month(y, m + 1) == days_before_month(y, m) + days_in_month(y, m),
        forall|m: int| 1 <= m <= 13 ==> 0 <= #[trigger] days_before_month(y, m) <= 366,
{
    reveal_with_fuel(days_before_month, 14);
}

/// The day count of a date lies within its year.
pub proof fn lemma_days_in_range(y: int, m: int, d: int)
    requires
        valid_date(y, m, d),
    ensures
        days_before_year(y) <= days_from_civil(y, m, d) < days_before_year(y + 1),
{
    lemma_months_fill_year(y);
    lemma_year_length(y);
    assert(days_before_month(y, m + 1) == days_before_month(y, m) + days_in_month(y, m));
    lemma_month_start_monotonic(y, m + 1, 13);
}

/// Adding a multiple of the divisor adds the factor to the quotient and
/// leaves the remainder.
proof fn lemma_plus_multiple(x: int, j: int, d: int)
    requires
        0 < d,
    ensures
        (x + j * d) / d == x / d + j,
        (x + j * d) % d == x % d,
{
    vstd::arithmetic::div_mod::lemma_hoist_over_denominator(x, j, d as nat);
    vstd::arithmetic::div_mod::lemma_fundamental_div_mod(x, d);
    vstd::arithmetic::div_mod::lemma_fundamental_div_mod(x + j * d, d);
    assert(d * (x / d + j) == d * (x / d) + j * d) by (nonlinear_arith);
}

/// After `SHIFT_YEARS` years a year is a leap year as before and begins
/// `SHIFT_DAYS` days later.
pub proof fn lemma_shift_year(y: int)
    ensures
        is_leap(y + SHIFT_YEARS) == is_leap(y),
        days_before_year(y + SHIFT_YEARS) == days_before_year(y) + SHIFT_DAYS,
{
    lemma_plus_multiple(y, 80_000, 4);
    lemma_plus_multiple(y, 3_200, 100);
    lemma_plus_multiple(y, 800, 400);
    lemma_plus_multiple(y - 1, 80_000, 4);
    lemma_plus_multiple(y - 1, 3_200, 100);
    lemma_plus_multiple(y - 1, 800, 400);
    assert(y + 320_000 == y + 80_000 * 4 && y + 320_000 == y + 3_200 * 100 && y + 320_000 == y + 800 * 400);
    assert(y + 320_000 - 1 == (y - 1) + 80_000 * 4 && y + 320_000 - 1 == (y - 1) + 3_200 * 100 && y + 320_000 - 1 == (y - 1) + 800 * 400);
    assert(leap_years_through(y + 320_000 - 1) == leap_years_through(y - 1) + 77_600);
}

/// The months of two years that are both leap years, or both none, begin
/// on the same days of the year.
pub proof fn lemma_same_months(a: int, b: int, m: int)
    requires
        is_leap(a) == is_leap(b),
        1 <= m <= 13,
    ensures
        days_before_month(a, m) == days_before_month(b, m),
        m <= 12 ==> days_in_month(a, m) == days_in_month(b, m),
    decreases m,
{
    if m > 1 {
        lemma_same_months(a, b, m - 1);
    }
}

/// After `SHIFT_YEARS` years the calendar repeats: a date is a date as
/// before and lies `SHIFT_DAYS` days later.
pub proof fn lemma_shift(y: int, m: int, d: int)
    requires
        1 <= m <= 12,
    ensures
        is_leap(y + SHIFT_YEARS) == is_leap(y),
        days_in_month(y + SHIFT_YEARS, m) == days_in_month(y, m),
        valid_date(y + SHIFT_YEARS, m, d) == valid_date(y, m, d),
        days_from_civil(y + SHIFT_YEARS, m, d) == days_from_civil(y, m, d) + SHIFT_DAYS,
{
    lemma_shift_year(y);
    lemma_same_months(y + SHIFT_YEARS, y, m);
}

/// Later years start later.
pub proof fn lemma_year_start_monotonic(a: int, b: int)
    requires
        a <= b,
    ensures
        days_before_year(a) <= days_before_year(b),
        days_before_year(b) - days_before_year(a) >= 365 * (b - a),
    decreases b - a,
{
    if a < b {
        lemma_year_start_monotonic(a, b - 1);
        lemma_year_length(b - 1);
    }
}

/// Later months start later.
pub proof fn lemma_month_start_monotonic(y: int, a: int, b: int)
    requires
        1 <= a <= b <= 13,
    ensures
        days_before_month(y, a) <= days_before_month(y, b),
    decreases b - a,
{
    if a < b {
        lemma_month_start_monotonic(y, a, b - 1);
    }
}

/// Executable leap-year test.
pub fn leap_year(y: u64) -> (b: bool)
    ensures
        b == is_leap(y as int),
{
    y % 4 == 0 && (y % 100 != 0 || y % 400 == 0)
}

/// Executable month length.
pub fn month_length(y: u64, m: u64) -> (n: u64)
    ensures
        n == days_in_month(y as int, m as int),
{
    if m == 2 {
        if leap_year(y) {
            29
        } else {
            28
        }
    } else if m == 4 || m == 6 || m == 9 || m == 11 {
        30
    } else {
        31
    }
}

/// Days from 1970-01-01 to the first day of year `y`.
pub fn year_start(y: u64) -> (n: u64)
    requires
        1970 <= y <= 1_000_000,
    ensures
        n == days_before_year(y as int),
        n >= 365 * (y - 1970),
        n <= 366 * (y - 1970),
{
    proof {
        lemma_year_start_monotonic(1970, y as int);
        lemma_year_start_bound(1970, y as int);
    }
    let p: u64 = y - 1;
    365 * (y - 1970) + (p / 4 - p / 100 + p / 400) - 477
}

/// Years are at most 366 days long.
pub proof fn lemma_year_start_bound(a: int, b: int)
    requires
        a <= b,
    ensures
        days_before_year(b) - days_before_year(a) <= 366 * (b - a),
    decreases b - a,
{
    if a < b {
        lemma_year_start_bound(a, b - 1);
        lemma_year_length(b - 1);
    }
}

/// Days from the first day of year `y` to the first day of its month `m`.
pub fn month_start(y: u64, m: u64) -> (n: u64)
    requires
        1 <= m <= 12,
    ensures
        n == days_before_month(y as int, m as int),
        n <= 366,
{
    let mut n: u64 = 0;
    let mut k: u64 = 1;
    proof {
        lemma_months_fill_year(y as int);
    }
    while k < m
        invariant
            1 <= k <= m <= 12,
            n == days_before_month(y as int, k as int),
            n <= 366,
            forall|j: int| 1 <= j <= 12 ==> #[trigger] days_before_month(y as int, j + 1) == days_before_month(y as int, j) + days_in_month(y as int, j),
            forall|j: int| 1 <= j <= 13 ==> 0 <= #[trigger] days_before_month(y as int, j) <= 366,
        decreases m - k,
    {
        assert(days_before_month(y as int, k + 1) == days_before_month(y as int, k as int) + days_in_month(y as int, k as int));
        n = n + month_length(y, k);
        k = k + 1;
    }
    n
}

/// The date that lies `days` days after 1970-01-01.
pub fn civil_from_days(days: u64) -> (date: (u64, u64, u64))
    requires
        days <= DAYS_LIMIT,
    ensures
        1970 <= date.0 <= YEAR_LIMIT,
        valid_date(date.0 as int, date.1 as int, date.2 as int),
        days_from_civil(date.0 as int, date.1 as int, date.2 as int) == days,
{
    let mut y: u64 = 1970 + (days * 400) / DAYS_PER_ERA;
    while year_start(y) > days
        invariant
            1970 <= y <= 700_000,
            days <= DAYS_LIMIT,
        decreases y,
    {
        y = y - 1;
    }
    while year_start(y + 1) <= days
        invariant
            1970 <= y <= 700_000,
            days <= DAYS_LIMIT,
            days_before_year(y as int) <= days,
        decreases days - days_before_year(y as int),
    {
        proof {
            lemma_year_length(y as int);
        }
        y = y + 1;
    }
    let mut rest: u64 = days - year_start(y);
    let mut m: u64 = 1;
    proof {
        lemma_year_length(y as int);
        lemma_months_fill_year(y as int);
    }
    while m < 12 && rest >= month_length(y, m)
        invariant
            1 <= m <= 12,
            1970 <= y <= YEAR_LIMIT,
            days_before_year(y as int) + days_before_month(y as int, m as int) + rest == days,
            days < days_before_year(y as int + 1),
            days_before_year(y as int + 1) - days_before_year(y as int) == days_before_month(y as int, 13),
            forall|j: int| 1 <= j <= 12 ==> #[trigger] days_before_month(y as int, j + 1) == days_before_month(y as int, j) + days_in_month(y as int, j),
        decreases 12 - m,
    {
        assert(days_before_month(y as int, m + 1) == days_before_month(y as int, m as int) + days_in_month(y as int, m as int));
        rest = rest - month_length(y, m);
        m = m + 1;
    }
    proof {
        assert(days_before_month(y as int, m + 1) == days_before_month(y as int, m as int) + days_in_month(y as int, m as int));
        if m == 12 {
            assert(rest < days_in_month(y as int, 12));
        }
    }
    (y, m, rest + 1)
}

/// Days from 1970-01-01 to a date of the years from 1970 on.
pub fn days_to_civil(y: u64, m: u64, d: u64) -> (days: u64)
    requires
        1970 <= y <= 1_000_000,
        valid_date(y as int, m as int, d as int),
    ensures
        days == days_from_civil(y as int, m as int, d as int),
        days <= 366 * (y - 1970) + 366,
{
    proof {
        lemma_days_in_range(y as int, m as int, d as int);
        lemma_year_start_bound(1970, y as int + 1);
    }
    year_start(y) + month_start(y, m) + d - 1
}

/// The date of the day that lies `day` days from 1970-01-01, before it or
/// after it.
pub fn date_of_day(day: i64) -> (date: (i64, u64, u64))
    requires
        -110_000_000 <= day <= 110_000_000,
    ensures
        valid_date(date.0 as int, date.1 as int, date.2 as int),
        days_from_civil(date.0 as int, date.1 as int, date.2 as int) == day,
        -320_000 <= date.0 <= 400_000,
{
    let moved: u64 = (day + 116_877_600) as u64;
    let found = civil_from_days(moved);
    let year: i64 = found.0 as i64 - 320_000;
    proof {
        lemma_shift(year as int, found.1 as int, found.2 as int);
    }
    (year, found.1, found.2)
}

/// Days from 1970-01-01 to a date, before it or after it.
pub fn day_of_date(year: i64, m: u64, d: u64) -> (day: i64)
    requires
        -300_000 <= year <= 600_000,
        valid_date(year as int, m as int, d as int),
    ensures
        day == days_from_civil(year as int, m as int, d as int),
        -120_000_000 <= day <= 220_000_000,
{
    let moved: u64 = (year + 320_000) as u64;
    proof {
        lemma_shift(year as int, m as int, d as int);
    }
    let days: u64 = days_to_civil(moved, m, d);
    proof {
        lemma_days_in_range(year as int, m as int, d as int);
        lemma_year_start_bound(-300_000, year as int);
        lemma_year_start_monotonic(-300_000, year as int);
        assert(days_before_year(-300_000) == -110_292_278);
    }
    days as i64 - 116_877_600
}

} // verus!
