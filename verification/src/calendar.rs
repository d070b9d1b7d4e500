//! Days and seconds since 1970 as dates and times of the Gregorian calendar.

use vstd::arithmetic::div_mod::{
    lemma_fundamental_div_mod, lemma_fundamental_div_mod_converse, lemma_hoist_over_denominator,
    lemma_mod_bound, lemma_mod_multiples_vanish,
};
use vstd::prelude::*;

use crate::clock::{unix_secs, wall_clock_shows};
use crate::number::{decimal_padded, push_decimal_padded};

verus! {

/// Whether `y` is a leap year.
pub open spec fn leap_year(y: int) -> bool {
    y % 4 == 0 && (y % 100 != 0 || y % 400 == 0)
}

/// The number of days of month `m` in year `y`.
pub open spec fn month_days(y: int, m: int) -> int {
    if m == 2 {
        if leap_year(y) {
            29
        } else {
            28
        }
    } else if m == 4 || m == 6 || m == 9 || m == 11 {
        30
    } else {
        31
    }
}

/// Whether `d` is a day of month `m` in year `y`.
pub open spec fn valid_date(y: int, m: int, d: int) -> bool {
    1 <= m <= 12 && 1 <= d <= month_days(y, m)
}

/// The number of leap years among the years from 1 to `y`.
pub open spec fn leap_years_to(y: int) -> int {
    y / 4 - y / 100 + y / 400
}

/// The days from 1970-01-01 to the first day of year `y`.
pub open spec fn days_to_year(y: int) -> int {
    365 * (y - 1970) + leap_years_to(y - 1) - leap_years_to(1969)
}

/// The days of year `y` before month `m`.
pub open spec fn days_to_month(y: int, m: int) -> int
    decreases m,
{
    if m <= 1 {
        0
    } else {
        days_to_month(y, m - 1) + month_days(y, m - 1)
    }
}

/// The days from 1970-01-01 to a date.
pub open spec fn day_number(y: int, m: int, d: int) -> int {
    days_to_year(y) + days_to_month(y, m) + d - 1
}

proof fn lemma_days_to_month(y: int, m: int)
    requires
        1 <= m <= 12,
    ensures
        m == 1 ==> days_to_month(y, m) == 0,
        m == 2 ==> days_to_month(y, m) == 31,
        m >= 3 ==> days_to_month(y, m) == (153 * (m - 3) + 2) / 5 + 59 + (if leap_year(y) {
            1int
        } else {
            0
        }),
{
    reveal_with_fuel(days_to_month, 13);
}

proof fn lemma_leap_step(y: int)
    ensures
        leap_years_to(y) == leap_years_to(y - 1) + (if leap_year(y) {
            1int
        } else {
            0
        }),
{
    lemma_quotient_step(y, 4);
    lemma_quotient_step(y, 100);
    lemma_quotient_step(y, 400);
    lemma_fundamental_div_mod(y, 100);
    lemma_fundamental_div_mod(y, 400);
    if y % 100 == 0 {
        lemma_mod_multiples_vanish(25 * (y / 100), 0, 4);
    }
    if y % 400 == 0 {
        lemma_mod_multiples_vanish(4 * (y / 400), 0, 100);
    }
}

/// A quotient grows where the divisor is met.
proof fn lemma_quotient_step(y: int, k: int)
    requires
        k > 1,
    ensures
        y / k == (y - 1) / k + (if y % k == 0 {
            1int
        } else {
            0
        }),
{
    lemma_fundamental_div_mod(y, k);
    lemma_mod_bound(y, k);
    if y % k == 0 {
        assert(y - 1 == (y / k - 1) * k + (k - 1)) by (nonlinear_arith)
            requires
                y == k * (y / k),
        ;
        lemma_fundamental_div_mod_converse(y - 1, k, y / k - 1, k - 1);
    } else {
        assert(y - 1 == (y / k) * k + (y % k - 1)) by (nonlinear_arith)
            requires
                y == k * (y / k) + y % k,
        ;
        lemma_fundamental_div_mod_converse(y - 1, k, y / k, y % k - 1);
    }
}

proof fn lemma_years_ordered(a: int, b: int)
    requires
        a < b,
    ensures
        days_to_year(a) + 365 + (if leap_year(a) {
            1int
        } else {
            0
        }) <= days_to_year(b),
    decreases b - a,
{
    if a + 1 == b {
        lemma_leap_step(a);
    } else {
        lemma_years_ordered(a, b - 1);
        lemma_leap_step(b - 1);
    }
}

proof fn lemma_months_ordered(y: int, a: int, b: int)
    requires
        1 <= a < b,
    ensures
        days_to_month(y, a) + month_days(y, a) <= days_to_month(y, b),
    decreases b - a,
{
    if a + 1 < b {
        lemma_months_ordered(y, a, b - 1);
    }
}

/// A day number belongs to one date only.
pub proof fn day_numbers_distinct(y1: int, m1: int, d1: int, y2: int, m2: int, d2: int)
    requires
        valid_date(y1, m1, d1),
        valid_date(y2, m2, d2),
        day_number(y1, m1, d1) == day_number(y2, m2, d2),
    ensures
        y1 == y2,
        m1 == m2,
        d1 == d2,
{
    lemma_days_to_month(y1, m1);
    lemma_days_to_month(y2, m2);
    lemma_days_to_month(y1, 12);
    lemma_days_to_month(y2, 12);
    if m1 < 12 {
        lemma_months_ordered(y1, m1, 12);
    }
    if m2 < 12 {
        lemma_months_ordered(y2, m2, 12);
    }
    if y1 < y2 {
        lemma_years_ordered(y1, y2);
    } else if y2 < y1 {
        lemma_years_ordered(y2, y1);
    } else if m1 < m2 {
        lemma_months_ordered(y1, m1, m2);
    } else if m2 < m1 {
        lemma_months_ordered(y1, m2, m1);
    }
}

/// The days of the first `n` years of an era that starts on the first of March.
spec fn era_year_start(n: int) -> int {
    365 * n + n / 4 - n / 100
}

/// Year of an era by day of the era.
proof fn lemma_year_of_era(doe: int, yoe: int)
    requires
        0 <= doe < 146097,
        yoe == (doe - doe / 1460 + doe / 36524 - doe / 146096) / 365,
    ensures
        0 <= yoe < 400,
        era_year_start(yoe) <= doe,
        yoe < 399 ==> doe < era_year_start(yoe + 1),
{
}

/// Month by day of a year that starts on the first of March.
proof fn lemma_month_of_year(doy: int, mp: int)
    requires
        0 <= doy <= 365,
        mp == (5 * doy + 2) / 153,
    ensures
        0 <= mp <= 11,
        (153 * mp + 2) / 5 <= doy,
        mp < 11 ==> doy < (153 * (mp + 1) + 2) / 5,
{
}

/// Leap years to a year of an era.
proof fn lemma_leap_years_of_era(era: int, yoe: int)
    requires
        0 <= yoe < 400,
    ensures
        leap_years_to(400 * era + yoe) == 97 * era + yoe / 4 - yoe / 100,
        leap_year(400 * era + yoe + 1) <==> (yoe == 399 || yoe % 4 == 3 && yoe % 100 != 99),
{
    lemma_hoist_over_denominator(yoe, 100 * era, 4);
    lemma_hoist_over_denominator(yoe, 4 * era, 100);
    lemma_hoist_over_denominator(yoe, era, 400);
    lemma_mod_multiples_vanish(100 * era, yoe + 1, 4);
    lemma_mod_multiples_vanish(4 * era, yoe + 1, 100);
    lemma_mod_multiples_vanish(era, yoe + 1, 400);
}

/// The date of a day that is given by era, year of the era and day of the
/// year, both counted from March.
proof fn lemma_date_of_day(era: int, yoe: int, doy: int, mp: int)
    requires
        0 <= yoe < 400,
        0 <= doy <= 365,
        doy == 365 ==> leap_year(400 * era + yoe + 1),
        mp == (5 * doy + 2) / 153,
    ensures
        ({
            let m = if mp < 10 {
                mp + 3
            } else {
                mp - 9
            };
            let y = 400 * era + yoe + (if m <= 2 {
                1int
            } else {
                0
            });
            let d = doy - (153 * mp + 2) / 5 + 1;
            valid_date(y, m, d) && day_number(y, m, d) == 146097 * era + era_year_start(yoe) + doy
                - 719468
        }),
{
    let y = 400 * era + yoe;
    lemma_month_of_year(doy, mp);
    lemma_leap_years_of_era(era, yoe);
    lemma_leap_step(y);
    lemma_leap_step(y + 1);
    if mp < 10 {
        lemma_days_to_month(y, mp + 3);
    } else {
        lemma_days_to_month(y + 1, mp - 9);
    }
}

/// The years are those of the Gregorian calendar: every fourth year is a leap
/// year, but of the full centuries only every fourth one.
pub proof fn gregorian_leap_years(y: int)
    ensures
        y % 400 == 0 ==> leap_year(y),
        y % 100 == 0 && y % 400 != 0 ==> !leap_year(y),
        y % 4 == 0 && y % 100 != 0 ==> leap_year(y),
        y % 4 != 0 ==> !leap_year(y),
{
}

/// Days are counted one by one from the start of 1970: the day after a date has
/// the next number, whether it is in the same month, in the next month or in
/// the next year.
pub proof fn days_are_counted_one_by_one(y: int, m: int, d: int)
    requires
        valid_date(y, m, d),
    ensures
        day_number(1970, 1, 1) == 0,
        d < month_days(y, m) ==> day_number(y, m, d + 1) == day_number(y, m, d) + 1,
        d == month_days(y, m) && m < 12 ==> day_number(y, m + 1, 1) == day_number(y, m, d) + 1,
        d == month_days(y, m) && m == 12 ==> day_number(y + 1, 1, 1) == day_number(y, m, d) + 1,
        month_days(y, 1) == 31 && month_days(y, 3) == 31 && month_days(y, 4) == 30 && month_days(
            y,
            5,
        ) == 31 && month_days(y, 6) == 30 && month_days(y, 7) == 31 && month_days(y, 8) == 31,
        month_days(y, 9) == 30 && month_days(y, 10) == 31 && month_days(y, 11) == 30 && month_days(
            y,
            12,
        ) == 31,
        month_days(y, 2) == if leap_year(y) {
            29int
        } else {
            28
        },
{
    reveal_with_fuel(days_to_month, 13);
    lemma_leap_step(y);
}

/// The date that is `z` days after 1970-01-01: year, month and day.
pub fn ymd_from_days(z: i64) -> (r: (i64, u32, u32))
    requires
        z + 719468 <= i64::MAX,
    ensures
        valid_date(r.0 as int, r.1 as int, r.2 as int),
        day_number(r.0 as int, r.1 as int, r.2 as int) == z,
{
    let z = z + 719468;
    let era: i64 = if z >= 0 {
        z / 146097
    } else {
        -((146096 - z) / 146097)
    };
    let doe = (z - era * 146097) as u64;
    let yoe = (doe - doe / 1460 + doe / 36524 - doe / 146096) / 365;
    proof {
        lemma_year_of_era(doe as int, yoe as int);
        lemma_leap_years_of_era(era as int, yoe as int);
    }
    let y = yoe as i64 + era * 400;
    let doy = doe - (365 * yoe + yoe / 4 - yoe / 100);
    let mp = (5 * doy + 2) / 153;
    proof {
        lemma_month_of_year(doy as int, mp as int);
        lemma_date_of_day(era as int, yoe as int, doy as int, mp as int);
    }
    let d = (doy - (153 * mp + 2) / 5 + 1) as u32;
    let m = (if mp < 10 {
        mp + 3
    } else {
        mp - 9
    }) as u32;
    (if m <= 2 {
        y + 1
    } else {
        y
    }, m, d)
}

/// A time of day as `HH:MM:SS`.
pub open spec fn time_text(t: nat) -> Seq<char> {
    decimal_padded(t / 3600, 2) + seq![':'] + decimal_padded((t % 3600) / 60, 2) + seq![':']
        + decimal_padded(t % 60, 2)
}

/// A date as `YYYY-MM-DD`.
pub open spec fn date_text(y: nat, m: nat, d: nat) -> Seq<char> {
    decimal_padded(y, 4) + seq!['-'] + decimal_padded(m, 2) + seq!['-'] + decimal_padded(d, 2)
}

/// Whether `text` is the moment `secs` seconds after the start of 1970, as
/// `YYYY-MM-DDTHH:MM:SS`.
pub open spec fn is_iso_text(text: Seq<char>, secs: nat) -> bool {
    exists|y: nat, m: nat, d: nat|
        {
            &&& valid_date(y as int, m as int, d as int)
            &&& day_number(y as int, m as int, d as int) == secs / 86400
            &&& text == #[trigger] date_text(y, m, d) + seq!['T'] + time_text(secs % 86400)
        }
}

/// One moment has one text.
pub proof fn iso_text_unique(a: Seq<char>, b: Seq<char>, secs: nat)
    requires
        is_iso_text(a, secs),
        is_iso_text(b, secs),
    ensures
        a == b,
{
    let (y1, m1, d1) = choose|y: nat, m: nat, d: nat|
        {
            &&& valid_date(y as int, m as int, d as int)
            &&& day_number(y as int, m as int, d as int) == secs / 86400
            &&& a == #[trigger] date_text(y, m, d) + seq!['T'] + time_text(secs % 86400)
        };
    let (y2, m2, d2) = choose|y: nat, m: nat, d: nat|
        {
            &&& valid_date(y as int, m as int, d as int)
            &&& day_number(y as int, m as int, d as int) == secs / 86400
            &&& b == #[trigger] date_text(y, m, d) + seq!['T'] + time_text(secs % 86400)
        };
    day_numbers_distinct(
        y1 as int,
        m1 as int,
        d1 as int,
        y2 as int,
        m2 as int,
        d2 as int,
    );
}

/// The moment `secs` seconds after the start of 1970, as `YYYY-MM-DDTHH:MM:SS`.
pub fn iso_from_secs(secs: u64) -> (r: String)
    ensures
        is_iso_text(r@, secs as nat),
{
    let (y, m, d) = ymd_from_days((secs / 86400) as i64);
    let t = secs % 86400;
    proof {
        lemma_days_to_month(y as int, m as int);
        if y < 1970 {
            lemma_years_ordered(y as int, 1970);
        }
    }
    let mut r = String::new();
    push_decimal_padded(&mut r, y as u64, 4);
    r.push('-');
    push_decimal_padded(&mut r, m as u64, 2);
    r.push('-');
    push_decimal_padded(&mut r, d as u64, 2);
    r.push('T');
    push_decimal_padded(&mut r, t / 3600, 2);
    r.push(':');
    push_decimal_padded(&mut r, (t % 3600) / 60, 2);
    r.push(':');
    push_decimal_padded(&mut r, t % 60, 2);
    assert(r@ =~= date_text(y as nat, m as nat, d as nat) + seq!['T'] + time_text(t as nat));
    r
}

/// The current UTC time as `YYYY-MM-DDTHH:MM:SS`.
pub fn utc_now_iso() -> (r: String)
    ensures
        exists|secs: u64| #[trigger] wall_clock_shows(secs) && is_iso_text(r@, secs as nat),
{
    let secs = unix_secs();
    iso_from_secs(secs)
}

} // verus!
