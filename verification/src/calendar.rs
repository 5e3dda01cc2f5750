//! Civil dates as days since 1970-01-01.
use vstd::prelude::*;

verus! {

use vstd::arithmetic::div_mod::{lemma_fundamental_div_mod, lemma_fundamental_div_mod_converse};

/// Leap years of the Gregorian calendar.
pub open spec fn leap(y: int) -> bool {
    y % 4 == 0 && (y % 100 != 0 || y % 400 == 0)
}

/// One day more in leap years.
pub open spec fn leap_day(y: int) -> int {
    if leap(y) {
        1
    } else {
        0
    }
}

/// Days of a month.
pub open spec fn month_len(y: int, m: int) -> int {
    if m == 2 {
        28 + leap_day(y)
    } else if m == 4 || m == 6 || m == 9 || m == 11 {
        30
    } else {
        31
    }
}

/// Days of the year before the first of month `m`.
pub open spec fn days_before_month(y: int, m: int) -> int
    decreases m,
{
    if m <= 1 {
        0
    } else {
        days_before_month(y, m - 1) + month_len(y, m - 1)
    }
}

/// Days before the first of January of year `y`, up to a constant: a
/// year has 365 days, and one more for every leap year gone by.
pub open spec fn days_before_year(y: int) -> int {
    365 * y + (y - 1) / 4 - (y - 1) / 100 + (y - 1) / 400
}

/// Days since 1970-01-01.
pub open spec fn civil_days(y: int, m: int, d: int) -> int {
    days_before_year(y) + days_before_month(y, m) + d - 1 - days_before_year(1970)
}

/// Years are as long as the calendar says.
pub proof fn lemma_year_length(y: int)
    ensures
        days_before_year(y + 1) - days_before_year(y) == 365 + leap_day(y),
{
    lemma_divisions(y);
}

/// How the divisions by 4, 100 and 400 step over a year.
proof fn lemma_divisions(y: int)
    ensures
        y / 4 - (y - 1) / 4 == if y % 4 == 0 {
            1int
        } else {
            0
        },
        y / 100 - (y - 1) / 100 == if y % 100 == 0 {
            1int
        } else {
            0
        },
        y / 400 - (y - 1) / 400 == if y % 400 == 0 {
            1int
        } else {
            0
        },
        y % 400 == 0 ==> y % 100 == 0,
        y % 100 == 0 ==> y % 4 == 0,
{
    lemma_division_step(y, 4);
    lemma_division_step(y, 100);
    lemma_division_step(y, 400);
    if y % 400 == 0 {
        lemma_fundamental_div_mod_converse(y, 100, 4 * (y / 400), 0);
    }
    if y % 100 == 0 {
        lemma_fundamental_div_mod_converse(y, 4, 25 * (y / 100), 0);
    }
}

/// A quotient grows by one exactly at the multiples of its divisor.
proof fn lemma_division_step(y: int, k: int)
    requires
        k > 0,
    ensures
        y / k - (y - 1) / k == if y % k == 0 {
            1int
        } else {
            0
        },
{
    let q = y / k;
    let r = y % k;
    lemma_fundamental_div_mod(y, k);
    assert(0 <= r < k) by (nonlinear_arith)
        requires
            k > 0,
            r == y % k,
    ;
    if r == 0 {
        assert((q - 1) * k + (k - 1) == y - 1) by (nonlinear_arith)
            requires
                y == k * q + r,
                r == 0,
        ;
        lemma_fundamental_div_mod_converse(y - 1, k, q - 1, k - 1);
    } else {
        assert(q * k + (r - 1) == y - 1) by (nonlinear_arith)
            requires
                y == k * q + r,
        ;
        lemma_fundamental_div_mod_converse(y - 1, k, q, r - 1);
    }
}

/// The months of a year, summed.
proof fn lemma_months(y: int)
    ensures
        days_before_month(y, 1) == 0,
        days_before_month(y, 2) == 31,
        days_before_month(y, 3) == 59 + leap_day(y),
        days_before_month(y, 4) == 90 + leap_day(y),
        days_before_month(y, 5) == 120 + leap_day(y),
        days_before_month(y, 6) == 151 + leap_day(y),
        days_before_month(y, 7) == 181 + leap_day(y),
        days_before_month(y, 8) == 212 + leap_day(y),
        days_before_month(y, 9) == 243 + leap_day(y),
        days_before_month(y, 10) == 273 + leap_day(y),
        days_before_month(y, 11) == 304 + leap_day(y),
        days_before_month(y, 12) == 334 + leap_day(y),
        days_before_month(y, 13) == 365 + leap_day(y),
{
    reveal_with_fuel(days_before_month, 13);
}

/// Civil dates count days: the epoch is day zero, the day after the last
/// of a month is the first of the next, and the day after New Year's Eve
/// is New Year's Day.
pub proof fn lemma_days_are_consecutive(y: int, m: int, d: int)
    requires
        1 <= m <= 12,
    ensures
        civil_days(1970, 1, 1) == 0,
        civil_days(y, m, d + 1) == civil_days(y, m, d) + 1,
        m < 12 ==> civil_days(y, m + 1, 1) == civil_days(y, m, month_len(y, m)) + 1,
        civil_days(y + 1, 1, 1) == civil_days(y, 12, 31) + 1,
{
    lemma_year_length(y);
    lemma_months(y);
    lemma_months(y + 1);
    lemma_months(1970);
}

/// No day from the year zero on lies far before the epoch.
pub proof fn lemma_days_from_year_zero(y: int, m: int, d: int)
    requires
        0 <= y,
        1 <= m <= 12,
        1 <= d,
    ensures
        civil_days(y, m, d) >= -719_529,
{
    lemma_months(y);
    assert(days_before_year(1970) == 719_527);
    assert(days_before_year(y) >= -2);
}

/// Days since 1970-01-01 from a civil date.
pub fn days_from_civil(y: i64, m: i64, d: i64) -> (r: i64)
    requires
        1 <= m <= 12,
        i64::MIN <= civil_days(y as int, m as int, d as int) <= i64::MAX,
    ensures
        r == civil_days(y as int, m as int, d as int),
{
    count_days(y as i128, m as i128, d as i128) as i64
}

/// Days since 1970-01-01 from a civil date, counted in eras of 400 years
/// that start in March; wide enough for every year of 64 bits.
pub fn count_days(y: i128, m: i128, d: i128) -> (r: i128)
    requires
        -0x1_0000_0000_0000_0000 <= y <= 0x1_0000_0000_0000_0000,
        1 <= m <= 12,
        i64::MIN <= d <= i64::MAX,
    ensures
        r == civil_days(y as int, m as int, d as int),
{
    let yy: i128 = if m <= 2 {
        y - 1
    } else {
        y
    };
    let era: i128 = if yy >= 0 {
        yy / 400
    } else {
        -((399 - yy) / 400)
    };
    assert(era == yy as int / 400) by {
        if yy < 0 {
            let a = 399 - yy as int;
            assert(yy as int == 399 - a);
            assert(-(a / 400) == (399 - a) / 400);
        }
    }
    let yoe: i128 = yy - era * 400;
    assert(0 <= yoe < 400);
    let mp: i128 = (m + 9) % 12;
    let doy: i128 = (153 * mp + 2) / 5 + d - 1;
    let doe: i128 = yoe * 365 + yoe / 4 - yoe / 100 + doy;
    proof {
        let q = yy as int;
        assert(q == 400 * era + yoe);
        assert(q / 4 == 100 * era + yoe as int / 4);
        assert(q / 100 == 4 * era + yoe as int / 100);
        assert(era * 146_097 + doe == 365 * q + q / 4 - q / 100 + q / 400 + doy);
        lemma_months(y as int);
        lemma_divisions(y as int);
        assert(days_before_year(1970) == 719_527);
    }
    era * 146_097 + doe - 719_468
}

} // verus!
