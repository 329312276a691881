//! Civil (proleptic Gregorian) calendar arithmetic on day numbers.
//!
//! A [`Date`] is a count of days since 1970-01-01. The supported range of
//! dates runs from 0001-01-01 to 9999-12-31; within it, conversions between
//! day numbers and year/month/day triples are exact and invertible, and an
//! instant (a Unix timestamp) is mapped to a date through an explicit
//! local-time offset in seconds.

use vstd::arithmetic::div_mod::{
    lemma_breakdown, lemma_div_is_ordered, lemma_fundamental_div_mod,
    lemma_fundamental_div_mod_converse_div, lemma_fundamental_div_mod_converse_mod,
    lemma_hoist_over_denominator, lemma_mod_division_less_than_divisor,
};
use vstd::arithmetic::mul::lemma_mul_nonnegative;
use vstd::prelude::*;

verus! {

/// Days from 0001-01-01 to 1970-01-01.
pub const EPOCH_OFFSET_DAYS: i64 = 719162;

/// Day number of 0001-01-01 relative to the Unix epoch.
pub const MIN_DAY_NUMBER: i64 = -719162;

/// Day number of 9999-12-31 relative to the Unix epoch.
pub const MAX_DAY_NUMBER: i64 = 2932896;

/// Smallest local-clock reading (seconds) that maps to a supported date:
/// 0001-01-01 00:00:00.
pub const MIN_LOCAL_SECONDS: i64 = -62135596800;

/// Largest local-clock reading (seconds) that maps to a supported date:
/// 9999-12-31 23:59:59.
pub const MAX_LOCAL_SECONDS: i64 = 253402300799;

/// A calendar date, stored as the number of days since 1970-01-01.
#[derive(Clone, Copy, Debug, PartialEq, Eq, Structural)]
pub struct Date {
    pub days: i64,
}

/// Whether `y` is a leap year in the proleptic Gregorian calendar.
pub open spec fn spec_is_leap_year(y: int) -> bool {
    (y % 4 == 0 && y % 100 != 0) || y % 400 == 0
}

/// Number of days in year `y`.
pub open spec fn spec_days_in_year(y: int) -> int {
    if spec_is_leap_year(y) {
        366
    } else {
        365
    }
}

/// Number of days in month `m` of year `y`.
pub open spec fn spec_days_in_month(y: int, m: int) -> int {
    if m == 2 {
        if spec_is_leap_year(y) {
            29
        } else {
            28
        }
    } else if m == 4 || m == 6 || m == 9 || m == 11 {
        30
    } else {
        31
    }
}

/// Days from 0001-01-01 to January 1 of year `y` (for `y >= 1`).
pub open spec fn spec_days_before_year(y: int) -> int {
    365 * (y - 1) + (y - 1) / 4 - (y - 1) / 100 + (y - 1) / 400
}

/// Days from January 1 of year `y` to the first day of month `m`.
pub open spec fn spec_days_before_month(y: int, m: int) -> int
    decreases m,
{
    if m <= 1 {
        0
    } else {
        spec_days_before_month(y, m - 1) + spec_days_in_month(y, m - 1)
    }
}

/// Whether `(y, m, d)` is a calendar date in the supported range.
pub open spec fn valid_ymd(y: int, m: int, d: int) -> bool {
    1 <= y <= 9999 && 1 <= m <= 12 && 1 <= d <= spec_days_in_month(y, m)
}

/// Day number (days since 1970-01-01) of the date `(y, m, d)`.
pub open spec fn spec_day_number(y: int, m: int, d: int) -> int {
    spec_days_before_year(y) + spec_days_before_month(y, m) + (d - 1) - EPOCH_OFFSET_DAYS
}

/// Whether `days` lies within the supported date range.
pub open spec fn day_in_range(days: int) -> bool {
    MIN_DAY_NUMBER <= days <= MAX_DAY_NUMBER
}

/// Year containing the day `n0` counted from 0001-01-01, searched upward
/// from candidate year `y`.
pub open spec fn spec_find_year(y: int, n0: int) -> int
    decreases 9999 - y,
{
    if y < 1 || y >= 9999 {
        9999
    } else if spec_days_before_year(y + 1) <= n0 {
        spec_find_year(y + 1, n0)
    } else {
        y
    }
}

/// Year of the day number `n`.
pub open spec fn spec_year_of(n: int) -> int {
    spec_find_year(1, n + EPOCH_OFFSET_DAYS)
}

/// Month containing day `r` of year `y` (`r` counted from January 1),
/// searched upward from candidate month `m`.
pub open spec fn spec_find_month(y: int, m: int, r: int) -> int
    decreases 12 - m,
{
    if m < 1 || m >= 12 {
        12
    } else if spec_days_before_month(y, m + 1) <= r {
        spec_find_month(y, m + 1, r)
    } else {
        m
    }
}

/// Month of the day number `n`.
pub open spec fn spec_month_of(n: int) -> int {
    spec_find_month(spec_year_of(n), 1, n + EPOCH_OFFSET_DAYS - spec_days_before_year(spec_year_of(n)))
}

/// Day of the month of the day number `n`.
pub open spec fn spec_day_of_month(n: int) -> int {
    n + EPOCH_OFFSET_DAYS - spec_days_before_year(spec_year_of(n)) - spec_days_before_month(
        spec_year_of(n),
        spec_month_of(n),
    ) + 1
}

/// Weekday of day number `n`, with Monday = 0 through Sunday = 6.
/// 0001-01-01 is a Monday in the proleptic Gregorian calendar.
pub open spec fn spec_weekday(n: int) -> int {
    (n + EPOCH_OFFSET_DAYS) % 7
}

/// Whether `off` is a plausible local-time offset from UTC, in seconds.
pub open spec fn valid_offset(off: int) -> bool {
    -86400 < off < 86400
}

/// Whether the instant `ts`, read through offset `off`, falls on a
/// supported date.
pub open spec fn valid_instant(ts: int, off: int) -> bool {
    MIN_LOCAL_SECONDS <= ts + off <= MAX_LOCAL_SECONDS
}

/// Day number of the local calendar date containing instant `ts`.
pub open spec fn spec_local_day(ts: int, off: int) -> int {
    (ts + off) / 86400
}

/// Instant at which the local calendar day `day` begins (local midnight).
pub open spec fn spec_day_start(day: int, off: int) -> int {
    day * 86400 - off
}

impl Date {
    /// Whether this date lies within the supported range.
    pub open spec fn in_range(self) -> bool {
        day_in_range(self.days as int)
    }
}

/// Incrementing the dividend bumps the quotient exactly when the divisor
/// starts dividing it.
proof fn lemma_div_step(x: int, q: int)
    requires
        0 <= x,
        0 < q,
    ensures
        (x + 1) / q == x / q + if (x + 1) % q == 0 {
            1int
        } else {
            0int
        },
{
    lemma_fundamental_div_mod(x, q);
    lemma_mod_division_less_than_divisor(x, q);
    let r = x % q;
    assert(q * (x / q) == (x / q) * q) by (nonlinear_arith);
    if r + 1 < q {
        assert(x + 1 == (x / q) * q + (r + 1));
        lemma_fundamental_div_mod_converse_div(x + 1, q, x / q, r + 1);
        lemma_fundamental_div_mod_converse_mod(x + 1, q, x / q, r + 1);
    } else {
        assert(x + 1 == (x / q) * q + q);
        assert((x / q) * q + q == (x / q + 1) * q) by (nonlinear_arith);
        lemma_fundamental_div_mod_converse_div(x + 1, q, x / q + 1, 0);
        lemma_fundamental_div_mod_converse_mod(x + 1, q, x / q + 1, 0);
    }
}

/// A number divisible by `a * b` is divisible by `a`.
proof fn lemma_divides_transitive(x: int, a: int, b: int)
    requires
        0 <= x,
        0 < a,
        0 < b,
        x % (a * b) == 0,
    ensures
        x % a == 0,
{
    lemma_breakdown(x, a, b);
    lemma_mod_division_less_than_divisor(x / a, b);
    lemma_mul_nonnegative(a, (x / a) % b);
    lemma_mod_division_less_than_divisor(x, a);
}

/// One more year before the count adds exactly the length of that year.
pub proof fn lemma_days_before_year_step(y: int)
    requires
        1 <= y,
    ensures
        spec_days_before_year(y + 1) == spec_days_before_year(y) + spec_days_in_year(y),
{
    let x = y - 1;
    lemma_div_step(x, 4);
    lemma_div_step(x, 100);
    lemma_div_step(x, 400);
    if y % 400 == 0 {
        assert(400 == 100 * 4) by (nonlinear_arith);
        assert(400 == 4 * 100) by (nonlinear_arith);
        lemma_divides_transitive(y, 100, 4);
        lemma_divides_transitive(y, 4, 100);
    }
    if y % 100 == 0 {
        assert(100 == 4 * 25) by (nonlinear_arith);
        lemma_divides_transitive(y, 4, 25);
    }
}

/// The year count is monotone, growing by at least 365 days per year.
pub proof fn lemma_days_before_year_monotonic(a: int, b: int)
    requires
        1 <= a <= b,
    ensures
        spec_days_before_year(b) - spec_days_before_year(a) >= 365 * (b - a),
    decreases b - a,
{
    if a < b {
        lemma_days_before_year_monotonic(a, b - 1);
        lemma_days_before_year_step(b - 1);
    }
}

/// The days before month `m2` include the days before an earlier month `m1`.
pub proof fn lemma_days_before_month_monotonic(y: int, m1: int, m2: int)
    requires
        1 <= m1 <= m2,
    ensures
        spec_days_before_month(y, m1) <= spec_days_before_month(y, m2),
    decreases m2 - m1,
{
    if m1 < m2 {
        lemma_days_before_month_monotonic(y, m1, m2 - 1);
    }
}

/// The twelve months of a year cover exactly its days.
pub proof fn lemma_days_before_month_full(y: int)
    ensures
        spec_days_before_month(y, 13) == spec_days_in_year(y),
{
    reveal_with_fuel(spec_days_before_month, 13);
}

/// Every valid calendar date has a day number within the supported range.
pub proof fn lemma_day_number_bounds(y: int, m: int, d: int)
    requires
        valid_ymd(y, m, d),
    ensures
        day_in_range(spec_day_number(y, m, d)),
{
    lemma_days_before_year_monotonic(1, y);
    lemma_days_before_month_monotonic(y, 1, m);
    assert(spec_days_before_month(y, m + 1) == spec_days_before_month(y, m) + spec_days_in_month(
        y,
        m,
    ));
    lemma_days_before_month_monotonic(y, m + 1, 13);
    lemma_days_before_month_full(y);
    lemma_days_before_year_step(y);
    lemma_days_before_year_monotonic(y + 1, 10000);
}

/// The searched year brackets the target day count.
proof fn lemma_find_year_bracket(y: int, n0: int)
    requires
        1 <= y <= 9999,
        spec_days_before_year(y) <= n0,
        n0 < spec_days_before_year(10000),
    ensures
        1 <= spec_find_year(y, n0) <= 9999,
        spec_days_before_year(spec_find_year(y, n0)) <= n0,
        n0 < spec_days_before_year(spec_find_year(y, n0) + 1),
    decreases 9999 - y,
{
    if y < 9999 && spec_days_before_year(y + 1) <= n0 {
        lemma_find_year_bracket(y + 1, n0);
    }
}

/// The searched month brackets the target day-of-year count.
proof fn lemma_find_month_bracket(y: int, m: int, r: int)
    requires
        1 <= m <= 12,
        spec_days_before_month(y, m) <= r,
        r < spec_days_before_month(y, 13),
    ensures
        1 <= spec_find_month(y, m, r) <= 12,
        spec_days_before_month(y, spec_find_month(y, m, r)) <= r,
        r < spec_days_before_month(y, spec_find_month(y, m, r) + 1),
    decreases 12 - m,
{
    if m < 12 && spec_days_before_month(y, m + 1) <= r {
        lemma_find_month_bracket(y, m + 1, r);
    }
}

/// The year/month/day read off a day number form a valid date with that
/// same day number.
pub proof fn lemma_ymd_of_day_number(n: int)
    requires
        day_in_range(n),
    ensures
        valid_ymd(spec_year_of(n), spec_month_of(n), spec_day_of_month(n)),
        spec_day_number(spec_year_of(n), spec_month_of(n), spec_day_of_month(n)) == n,
{
    let n0 = n + EPOCH_OFFSET_DAYS;
    lemma_find_year_bracket(1, n0);
    let y = spec_year_of(n);
    let r = n0 - spec_days_before_year(y);
    lemma_days_before_year_step(y);
    lemma_days_before_month_full(y);
    lemma_find_month_bracket(y, 1, r);
    let m = spec_month_of(n);
    assert(spec_days_before_month(y, m + 1) == spec_days_before_month(y, m) + spec_days_in_month(
        y,
        m,
    ));
}

/// Whether `y` is a leap year.
pub fn is_leap_year(y: i32) -> (r: bool)
    requires
        y >= 1,
    ensures
        r == spec_is_leap_year(y as int),
{
    (y % 4 == 0 && y % 100 != 0) || y % 400 == 0
}

/// Number of days in month `m` of year `y`.
pub fn days_in_month(y: i32, m: u32) -> (r: u32)
    requires
        y >= 1,
        1 <= m <= 12,
    ensures
        r == spec_days_in_month(y as int, m as int),
{
    if m == 2 {
        if is_leap_year(y) {
            29
        } else {
            28
        }
    } else if m == 4 || m == 6 || m == 9 || m == 11 {
        30
    } else {
        31
    }
}

/// Days from 0001-01-01 to January 1 of year `y`.
pub(crate) fn days_before_year(y: i32) -> (r: i64)
    requires
        1 <= y <= 10000,
    ensures
        r == spec_days_before_year(y as int),
{
    let x: i64 = (y as i64) - 1;
    365 * x + x / 4 - x / 100 + x / 400
}

/// Days from January 1 of year `y` to the first day of month `m`.
fn days_before_month(y: i32, m: u32) -> (r: i64)
    requires
        y >= 1,
        1 <= m <= 13,
    ensures
        r == spec_days_before_month(y as int, m as int),
{
    let mut i: u32 = 1;
    let mut acc: i64 = 0;
    while i < m
        invariant
            1 <= i <= m <= 13,
            y >= 1,
            acc == spec_days_before_month(y as int, i as int),
            acc <= 31 * (i - 1),
        decreases m - i,
    {
        acc = acc + days_in_month(y, i) as i64;
        i = i + 1;
    }
    acc
}

/// Builds the date with the given year, month and day, or `None` when the
/// triple is not a valid date in the supported range.
pub fn date_from_ymd(year: i32, month: u32, day: u32) -> (r: Option<Date>)
    ensures
        match r {
            Some(dt) => valid_ymd(year as int, month as int, day as int) && dt.days
                == spec_day_number(year as int, month as int, day as int) && dt.in_range(),
            None => !valid_ymd(year as int, month as int, day as int),
        },
{
    if year < 1 || year > 9999 || month < 1 || month > 12 || day < 1 {
        return None;
    }
    if day > days_in_month(year, month) {
        return None;
    }
    proof {
        lemma_day_number_bounds(year as int, month as int, day as int);
        lemma_days_before_year_monotonic(1, year as int);
        lemma_days_before_year_monotonic(year as int, 10000);
        lemma_days_before_month_monotonic(year as int, 1, month as int);
        lemma_days_before_month_monotonic(year as int, month as int, 13);
    }
    let n = days_before_year(year) + days_before_month(year, month) + (day as i64) - 1
        - EPOCH_OFFSET_DAYS;
    Some(Date { days: n })
}

impl Date {
    /// The year, month and day of this date.
    pub fn to_ymd(&self) -> (r: (i32, u32, u32))
        requires
            self.in_range(),
        ensures
            r.0 == spec_year_of(self.days as int),
            r.1 == spec_month_of(self.days as int),
            r.2 == spec_day_of_month(self.days as int),
            valid_ymd(r.0 as int, r.1 as int, r.2 as int),
            spec_day_number(r.0 as int, r.1 as int, r.2 as int) == self.days,
    {
        let n0: i64 = self.days + EPOCH_OFFSET_DAYS;
        proof {
            lemma_ymd_of_day_number(self.days as int);
            lemma_find_year_bracket(1, n0 as int);
        }
        let mut y: i32 = 1;
        while y < 9999 && days_before_year(y + 1) <= n0
            invariant
                1 <= y <= 9999,
                n0 == self.days + EPOCH_OFFSET_DAYS,
                0 <= n0 < spec_days_before_year(10000),
                spec_days_before_year(y as int) <= n0,
                spec_find_year(y as int, n0 as int) == spec_year_of(self.days as int),
            decreases 9999 - y,
    {
            y = y + 1;
        }
        assert(y == spec_year_of(self.days as int));
        let r: i64 = n0 - days_before_year(y);
        proof {
            lemma_days_before_year_step(y as int);
            lemma_days_before_month_full(y as int);
            lemma_find_month_bracket(y as int, 1, r as int);
        }
        let mut m: u32 = 1;
        while m < 12 && days_before_month(y, m + 1) <= r
            invariant
                1 <= m <= 12,
                y >= 1,
                0 <= r <= 366,
                spec_days_before_month(y as int, m as int) <= r,
                spec_find_month(y as int, m as int, r as int) == spec_month_of(
                    self.days as int,
                ),
            decreases 12 - m,
        {
            m = m + 1;
        }
        assert(m == spec_month_of(self.days as int));
        let d: u32 = (r - days_before_month(y, m) + 1) as u32;
        (y, m, d)
    }

    /// The calendar year of this date.
    pub fn year(&self) -> (y: i32)
        requires
            self.in_range(),
        ensures
            y == spec_year_of(self.days as int),
    {
        self.to_ymd().0
    }

    /// The weekday of this date, Monday = 0 through Sunday = 6.
    pub fn weekday(&self) -> (w: u8)
        requires
            self.in_range(),
        ensures
            w == spec_weekday(self.days as int),
            0 <= w < 7,
    {
        let shifted: i64 = self.days + EPOCH_OFFSET_DAYS;
        proof {
            lemma_mod_division_less_than_divisor(shifted as int, 7);
        }
        (shifted % 7) as u8
    }
}

/// The local calendar date containing the instant `ts`.
pub fn local_date(ts: i64, offset: i64) -> (d: Date)
    requires
        valid_offset(offset as int),
        valid_instant(ts as int, offset as int),
    ensures
        d.days == spec_local_day(ts as int, offset as int),
        d.in_range(),
{
    let l: i64 = ts + offset;
    let shifted: i64 = l + 62135596800;
    proof {
        assert(shifted == l + 719162 * 86400);
        lemma_hoist_over_denominator(l as int, 719162, 86400nat);
        lemma_div_is_ordered(MIN_LOCAL_SECONDS as int, l as int, 86400);
        lemma_div_is_ordered(l as int, MAX_LOCAL_SECONDS as int, 86400);
    }
    let day = shifted / 86400 - EPOCH_OFFSET_DAYS;
    Date { days: day }
}

/// The instant at which the local calendar day of `d` begins
/// (local midnight), as a Unix timestamp.
pub fn day_start_timestamp(d: Date, offset: i64) -> (ts: i64)
    requires
        d.in_range(),
        valid_offset(offset as int),
    ensures
        ts == spec_day_start(d.days as int, offset as int),
{
    d.days * 86400 - offset
}

} // verus!
