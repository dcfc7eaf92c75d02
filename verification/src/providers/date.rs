//! Date arithmetic.
//!
//! Answers "days until october 8", "days since march 1", "3 weeks from now" and
//! the like. All arithmetic happens in one integer domain, days since the Unix
//! epoch, which sidesteps every timezone and leap-year trap; the local "today"
//! is read by the program around the library and handed in.

use crate::search::{Action, Activation, Item, ItemView, Query};
use crate::search::rank::item_views;
use crate::text::{lemma_trim_ascii_upper, is_ws, trim_start, trim_end, text_lower, is_ascii_text, ascii_upper_seq, ascii_lower_seq, join, join_words, digit_char, digits_of, contains, has_infix, opt_view, append_str, chars_of, concat, copy_str, has_prefix, int_of, is_alpha, opt_int, push, seq_starts_with, slice_vec, split_words, string_from_chars, to_lowercase, trim, trim_chars, unicode_lowercase, views, words, Sep};
use vstd::prelude::*;

verus! {

pub const PROVIDER: &'static str = "date";

/// Same band as the calculator: an explicit date question outranks app matches.
pub const DATE_SCORE: i64 = 1_000_000;

/// Largest day number whose date can be read: one more, and moving it to
/// the algorithm's 0000-03-01 epoch leaves the i64 range.
pub const MAX_DAY: i64 = 9_223_372_036_854_056_339;

/// Howard Hinnant's civil-date algorithm: days since 1970-01-01 of the
/// proleptic Gregorian date (y, m, d).
pub open spec fn days_from_civil_spec(y: int, m: int, d: int) -> int {
    let yy = if m <= 2 {
        y - 1
    } else {
        y
    };
    let era = yy / 400;
    let yoe = yy % 400;
    let mp = (m + 9) % 12;
    let doy = (153 * mp + 2) / 5 + d - 1;
    let doe = yoe * 365 + yoe / 4 - yoe / 100 + doy;
    era * 146_097 + doe - 719_468
}

/// The inverse direction: the (year, month, day) of a day number.
pub open spec fn civil_from_days_spec(z: int) -> (int, int, int) {
    let zz = z + 719_468;
    let era = zz / 146_097;
    let doe = zz % 146_097;
    let yoe = (doe - doe / 1460 + doe / 36_524 - doe / 146_096) / 365;
    let y = yoe + era * 400;
    let doy = doe - (365 * yoe + yoe / 4 - yoe / 100);
    let mp = (5 * doy + 2) / 153;
    let d = doy - (153 * mp + 2) / 5 + 1;
    let m = if mp < 10 {
        mp + 3
    } else {
        mp - 9
    };
    (if m <= 2 {
        y + 1
    } else {
        y
    }, m, d)
}

pub open spec fn is_leap_spec(y: int) -> bool {
    (y % 4 == 0 && y % 100 != 0) || y % 400 == 0
}

pub open spec fn days_in_month_spec(y: int, m: int) -> int {
    if m == 1 || m == 3 || m == 5 || m == 7 || m == 8 || m == 10 || m == 12 {
        31
    } else if m == 4 || m == 6 || m == 9 || m == 11 {
        30
    } else if m == 2 && is_leap_spec(y) {
        29
    } else if m == 2 {
        28
    } else {
        0
    }
}

/// A real calendar date.
pub open spec fn valid_date(y: int, m: int, d: int) -> bool {
    1 <= m <= 12 && 1 <= d <= days_in_month_spec(y, m)
}

/// Truncating division by a positive constant rounds towards negative
/// infinity once the numerator is shifted down by `b - 1` for negatives.
proof fn lemma_floor_div(a: int, b: int)
    requires
        b > 0,
    ensures
        a >= 0 ==> a / b == a / b,
        a < 0 ==> -((b - 1 - a) / b) == a / b,
{
    if a < 0 {
        let q = a / b;
        let r = a % b;
        vstd::arithmetic::div_mod::lemma_fundamental_div_mod(a, b);
        assert(a == b * q + r && 0 <= r < b);
        let n = b - 1 - a;
        assert(n == (-q) * b + (b - 1 - r)) by (nonlinear_arith)
            requires
                a == b * q + r,
                n == b - 1 - a,
        ;
        vstd::arithmetic::div_mod::lemma_fundamental_div_mod_converse_div(n, b, -q, b - 1 - r);
    }
}

/// A value the i64 arithmetic holds.
pub open spec fn in_i64(x: int) -> bool {
    i64::MIN <= x <= i64::MAX
}

/// Every i64 step of counting the day number of (y, m, d) stays in range.
pub open spec fn civil_fits(y: int, m: int, d: int) -> bool {
    let yy = if m <= 2 {
        y - 1
    } else {
        y
    };
    let era = yy / 400;
    let yoe = yy % 400;
    let doe = yoe * 365 + yoe / 4 - yoe / 100 + (153 * ((m + 9) % 12) + 2) / 5 + d - 1;
    &&& in_i64(yy)
    &&& in_i64(yy - 399)
    &&& in_i64(era * 146_097)
    &&& in_i64(era * 146_097 + doe)
    &&& in_i64(era * 146_097 + doe - 719_468)
}

pub fn days_from_civil(y: i64, m: i64, d: i64) -> (r: i64)
    requires
        1 <= m <= 12,
        1 <= d <= 31,
        civil_fits(y as int, m as int, d as int),
    ensures
        r == days_from_civil_spec(y as int, m as int, d as int),
{
    let y = if m <= 2 {
        y - 1
    } else {
        y
    };
    let era = (if y >= 0 {
        y
    } else {
        y - 399
    }) / 400;
    proof {
        lemma_floor_div(y as int, 400);
        vstd::arithmetic::div_mod::lemma_fundamental_div_mod(y as int, 400);
    }
    assert(era == (y as int) / 400);
    let yoe = y - era * 400;
    assert(yoe == (y as int) % 400);
    let mp = (m + 9) % 12;
    let doy = (153 * mp + 2) / 5 + d - 1;
    let doe = yoe * 365 + yoe / 4 - yoe / 100 + doy;
    era * 146_097 + doe - 719_468
}

/// The day number of (y, m, d), or nothing when counting it leaves the i64
/// range.
fn checked_days_from_civil(y: i64, m: i64, d: i64) -> (r: Option<i64>)
    requires
        1 <= m <= 12,
        1 <= d <= 31,
    ensures
        match r {
            Some(v) => civil_fits(y as int, m as int, d as int) && v == days_from_civil_spec(
                y as int,
                m as int,
                d as int,
            ),
            None => !civil_fits(y as int, m as int, d as int),
        },
{
    let yy = if m <= 2 {
        match y.checked_sub(1) {
            Some(v) => v,
            None => return None,
        }
    } else {
        y
    };
    let low = match yy.checked_sub(399) {
        Some(v) => v,
        None => return None,
    };
    let era = (if yy >= 0 {
        yy
    } else {
        low
    }) / 400;
    proof {
        lemma_floor_div(yy as int, 400);
        vstd::arithmetic::div_mod::lemma_fundamental_div_mod(yy as int, 400);
    }
    assert(era == (yy as int) / 400);
    let yoe = yy - era * 400;
    assert(yoe == (yy as int) % 400);
    let mp = (m + 9) % 12;
    let doy = (153 * mp + 2) / 5 + d - 1;
    let doe = yoe * 365 + yoe / 4 - yoe / 100 + doy;
    let base = match era.checked_mul(146_097) {
        Some(v) => v,
        None => return None,
    };
    let t = match base.checked_add(doe) {
        Some(v) => v,
        None => return None,
    };
    t.checked_sub(719_468)
}

#[verifier::spinoff_prover]
#[verifier::rlimit(30)]
pub fn civil_from_days(z: i64) -> (r: (i64, i64, i64))
    requires
        z <= MAX_DAY,
    ensures
        (r.0 as int, r.1 as int, r.2 as int) == civil_from_days_spec(z as int),
{
    let z = z + 719_468;
    let era = (if z >= 0 {
        z
    } else {
        z - 146_096
    }) / 146_097;
    proof {
        lemma_floor_div(z as int, 146_097);
        vstd::arithmetic::div_mod::lemma_fundamental_div_mod(z as int, 146_097);
    }
    assert(era == (z as int) / 146_097);
    let doe = z - era * 146_097;
    assert(doe == (z as int) % 146_097);
    let yoe = (doe - doe / 1460 + doe / 36_524 - doe / 146_096) / 365;
    let y = yoe + era * 400;
    let doy = doe - (365 * yoe + yoe / 4 - yoe / 100);
    let mp = (5 * doy + 2) / 153;
    let d = doy - (153 * mp + 2) / 5 + 1;
    let m = if mp < 10 {
        mp + 3
    } else {
        mp - 9
    };
    (if m <= 2 {
        y + 1
    } else {
        y
    }, m, d)
}

/// Whether `k` divides `y`, for negative `y` too.
fn divides(y: i64, k: i64) -> (b: bool)
    requires
        0 < k <= 400,
    ensures
        b == ((y as int) % (k as int) == 0),
{
    match y.checked_rem_euclid(k) {
        Some(r) => r == 0,
        None => false,
    }
}

pub fn is_leap(y: i64) -> (b: bool)
    ensures
        b == is_leap_spec(y as int),
{
    (divides(y, 4) && !divides(y, 100)) || divides(y, 400)
}

pub fn days_in_month(y: i64, m: i64) -> (r: i64)
    ensures
        r == days_in_month_spec(y as int, m as int),
{
    if m == 1 || m == 3 || m == 5 || m == 7 || m == 8 || m == 10 || m == 12 {
        31
    } else if m == 4 || m == 6 || m == 9 || m == 11 {
        30
    } else if m == 2 && is_leap(y) {
        29
    } else if m == 2 {
        28
    } else {
        0
    }
}

/// Largest magnitude of "today" (days since the epoch) the parser accepts:
/// within it, reading today's date and counting the day number of any date
/// of today's year stay inside the i64 range.
pub const MAX_TODAY: i64 = 9_223_372_036_853_775_807;

/// The year a date is counted in when years start on 1 March, which puts the
/// leap day at the end.
pub open spec fn shifted_year(y: int, m: int) -> int {
    if m <= 2 {
        y - 1
    } else {
        y
    }
}

/// Days from 1 March to (m, d) within a March-based year.
#[verifier::opaque]
pub open spec fn march_day(m: int, d: int) -> int {
    (153 * ((m + 9) % 12) + 2) / 5 + d - 1
}

/// The day number of 1 March of the March-based year `s`.
#[verifier::opaque]
pub open spec fn year_base(s: int) -> int {
    (s / 400) * 146_097 + (s % 400) * 365 + (s % 400) / 4 - (s % 400) / 100 - 719_468
}

proof fn lemma_days_parts(y: int, m: int, d: int)
    ensures
        days_from_civil_spec(y, m, d) == year_base(shifted_year(y, m)) + march_day(m, d),
{
    reveal(year_base);
    reveal(march_day);
}

/// A March-based year has 365 or 366 days.
proof fn lemma_year_base_step(s: int)
    ensures
        365 <= year_base(s + 1) - year_base(s) <= 366,
{
    reveal(year_base);
    let e = s / 400;
    let r = s % 400;
    vstd::arithmetic::div_mod::lemma_fundamental_div_mod(s, 400);
    if r < 399 {
        vstd::arithmetic::div_mod::lemma_fundamental_div_mod_converse(s + 1, 400, e, r + 1);
        assert(365 <= (r + 1) * 365 + (r + 1) / 4 - (r + 1) / 100 - (r * 365 + r / 4 - r / 100) <= 366);
    } else {
        vstd::arithmetic::div_mod::lemma_fundamental_div_mod_converse(s + 1, 400, e + 1, 0);
    }
}

proof fn lemma_march_day_bounds(m: int, d: int)
    requires
        1 <= m <= 12,
        1 <= d <= 31,
    ensures
        m >= 3 ==> 0 <= march_day(m, d) <= 305,
        m <= 2 ==> 306 <= march_day(m, d) <= 367,
{
    reveal(march_day);
}

/// Today's year is small, and every date of it is counted within the i64
/// range, a few hundred days from today.
proof fn lemma_today_year_fits(today: int, m: int, d: int)
    requires
        -MAX_TODAY <= today <= MAX_TODAY,
        1 <= m <= 12,
        1 <= d <= 31,
    ensures
        civil_fits(civil_from_days_spec(today).0, m, d),
        -100_000_000_000_000_000 <= civil_from_days_spec(today).0 <= 100_000_000_000_000_000,
        -1000 <= days_from_civil_spec(civil_from_days_spec(today).0, m, d) - today <= 1000,
{
    let (y, m0, d0) = civil_from_days_spec(today);
    lemma_civil_round_trip(today);
    lemma_days_parts(y, m0, d0);
    lemma_days_parts(y, m, d);
    lemma_march_day_bounds(m, d);
    lemma_march_day_bounds(m0, d0);
    lemma_year_base_step(y - 1);
    let f = days_from_civil_spec(y, m, d);
    assert(-1000 <= f - today <= 1000);
    let yy = if m <= 2 {
        y - 1
    } else {
        y
    };
    let era = yy / 400;
    let yoe = yy % 400;
    vstd::arithmetic::div_mod::lemma_fundamental_div_mod(yy, 400);
    let doe = yoe * 365 + yoe / 4 - yoe / 100 + (153 * ((m + 9) % 12) + 2) / 5 + d - 1;
    assert(0 <= doe <= 150_000);
    assert(f == era * 146_097 + doe - 719_468);
    assert(-63_200_000_000_000 <= era <= 63_200_000_000_000) by (nonlinear_arith)
        requires
            era * 146_097 == f - doe + 719_468,
            0 <= doe <= 150_000,
            -1000 <= f - today <= 1000,
            -MAX_TODAY <= today <= MAX_TODAY,
    ;
    assert(-100_000_000_000_000_000 + 1 <= yy <= 100_000_000_000_000_000 - 1) by (nonlinear_arith)
        requires
            yy == 400 * era + yoe,
            0 <= yoe < 400,
            -63_200_000_000_000 <= era <= 63_200_000_000_000,
    ;
}

/// Reading a day number as a date and counting that date's day number gives
/// the day back; the date has a month in 1..=12 and a day in 1..=31.
pub proof fn lemma_civil_round_trip(z: int)
    ensures
        1 <= civil_from_days_spec(z).1 <= 12,
        1 <= civil_from_days_spec(z).2 <= 31,
        days_from_civil_spec(civil_from_days_spec(z).0, civil_from_days_spec(z).1, civil_from_days_spec(z).2)
            == z,
        march_day(civil_from_days_spec(z).1, civil_from_days_spec(z).2) <= 365,
{
    reveal(march_day);
    let zz = z + 719_468;
    let era = zz / 146_097;
    let doe = zz % 146_097;
    vstd::arithmetic::div_mod::lemma_fundamental_div_mod(zz, 146_097);
    let n = doe - doe / 1460 + doe / 36_524 - doe / 146_096;
    let yoe = n / 365;
    assert(0 <= yoe <= 399);
    let y = yoe + era * 400;
    let doy = doe - (365 * yoe + yoe / 4 - yoe / 100);
    assert(0 <= doy <= 365) by (nonlinear_arith)
        requires
            n == doe - doe / 1460 + doe / 36_524 - doe / 146_096,
            0 <= doe < 146_097,
            yoe == n / 365,
            doy == doe - (365 * yoe + yoe / 4 - yoe / 100),
    ;
    let mp = (5 * doy + 2) / 153;
    assert(0 <= mp <= 11);
    let d = doy - (153 * mp + 2) / 5 + 1;
    assert(1 <= d <= 31);
    let m = if mp < 10 {
        mp + 3
    } else {
        mp - 9
    };
    assert((m + 9) % 12 == mp);
    vstd::arithmetic::div_mod::lemma_fundamental_div_mod_converse(y, 400, era, yoe);
    assert(civil_from_days_spec(z) == (if m <= 2 {
        y + 1
    } else {
        y
    }, m, d));
}

/// The days of the March-based year `yoe` of an era: 366 when it ends in a
/// leap February.
pub open spec fn era_year_len(yoe: int) -> int {
    if (yoe + 1) % 4 == 0 && ((yoe + 1) % 100 != 0 || yoe == 399) {
        366
    } else {
        365
    }
}

proof fn lemma_year_of_era(yoe: int, md: int)
    requires
        0 <= yoe <= 399,
        0 <= md < era_year_len(yoe),
    ensures
        ({
            let doe = yoe * 365 + yoe / 4 - yoe / 100 + md;
            &&& 0 <= doe < 146_097
            &&& (doe - doe / 1460 + doe / 36_524 - doe / 146_096) / 365 == yoe
        }),
{
    let doe = yoe * 365 + yoe / 4 - yoe / 100 + md;
    let q4 = yoe / 4;
    let q100 = yoe / 100;
    assert(0 <= doe < 146_097) by (nonlinear_arith)
        requires
            0 <= yoe <= 399,
            0 <= md < 366,
            md < 365 || (yoe + 1) % 4 == 0,
            doe == yoe * 365 + yoe / 4 - yoe / 100 + md,
    ;
    assert((doe - doe / 1460 + doe / 36_524 - doe / 146_096) / 365 == yoe) by (nonlinear_arith)
        requires
            0 <= yoe <= 399,
            0 <= md,
            md < era_year_len(yoe),
            doe == yoe * 365 + yoe / 4 - yoe / 100 + md,
    ;
}

proof fn lemma_month_of_march_day(m: int, d: int)
    requires
        1 <= m <= 12,
        1 <= d <= 31,
        m == 2 ==> d <= 29,
        m == 4 || m == 6 || m == 9 || m == 11 ==> d <= 30,
    ensures
        ({
            let md = (153 * ((m + 9) % 12) + 2) / 5 + d - 1;
            let mp = (5 * md + 2) / 153;
            &&& mp == (m + 9) % 12
            &&& md - (153 * mp + 2) / 5 + 1 == d
        }),
{
}

/// Counting a real date's day number and reading it back as a date gives
/// the date back: no two dates share a day number.
pub proof fn lemma_date_round_trip(y: int, m: int, d: int)
    requires
        valid_date(y, m, d),
    ensures
        civil_from_days_spec(days_from_civil_spec(y, m, d)) == (y, m, d),
{
    let s = shifted_year(y, m);
    let era = s / 400;
    let yoe = s % 400;
    vstd::arithmetic::div_mod::lemma_fundamental_div_mod(s, 400);
    let md = (153 * ((m + 9) % 12) + 2) / 5 + d - 1;
    lemma_month_of_march_day(m, d);
    assert(0 <= md);
    assert(md < era_year_len(yoe)) by {
        if m == 2 && d == 29 {
            assert(is_leap_spec(y));
            assert(y == s + 1);
            assert((y % 4 == 0 && y % 100 != 0) || y % 400 == 0);
            assert((yoe + 1) % 4 == 0 && ((yoe + 1) % 100 != 0 || yoe == 399)) by (nonlinear_arith)
                requires
                    s == 400 * era + yoe,
                    0 <= yoe < 400,
                    y == s + 1,
                    (y % 4 == 0 && y % 100 != 0) || y % 400 == 0,
            ;
        }
    }
    lemma_year_of_era(yoe, md);
    let doe = yoe * 365 + yoe / 4 - yoe / 100 + md;
    let zz = era * 146_097 + doe;
    assert(days_from_civil_spec(y, m, d) + 719_468 == zz);
    vstd::arithmetic::div_mod::lemma_fundamental_div_mod_converse(zz, 146_097, era, doe);
    assert(yoe + era * 400 == s);
}

/// A March-based year `s` has 366 days exactly when the February it ends
/// with, in year `s + 1`, is a leap February.
proof fn lemma_year_base_len(s: int)
    ensures
        year_base(s + 1) - year_base(s) == if is_leap_spec(s + 1) {
            366int
        } else {
            365int
        },
{
    reveal(year_base);
    let e = s / 400;
    let r = s % 400;
    vstd::arithmetic::div_mod::lemma_fundamental_div_mod(s, 400);
    if r < 399 {
        let t = r + 1;
        vstd::arithmetic::div_mod::lemma_fundamental_div_mod_converse(s + 1, 400, e, t);
        vstd::arithmetic::div_mod::lemma_fundamental_div_mod_converse(s + 1, 4, 100 * e + t / 4, t % 4);
        vstd::arithmetic::div_mod::lemma_fundamental_div_mod_converse(s + 1, 100, 4 * e + t / 100, t % 100);
        assert(year_base(s + 1) - year_base(s) == 365 + (t / 4 - r / 4) - (t / 100 - r / 100));
        assert((t / 4 - r / 4 == 1) == (t % 4 == 0));
        assert((t / 100 - r / 100 == 1) == (t % 100 == 0));
        assert(0 <= t / 4 - r / 4 <= 1 && 0 <= t / 100 - r / 100 <= 1);
        assert(t % 100 == 0 ==> t % 4 == 0);
    } else {
        vstd::arithmetic::div_mod::lemma_fundamental_div_mod_converse(s + 1, 400, e + 1, 0);
        assert(s + 1 == 400 * (e + 1));
        vstd::arithmetic::div_mod::lemma_fundamental_div_mod_converse(s + 1, 4, 100 * (e + 1), 0);
    }
}

/// The date a day number is read as is a real date: its day is within the
/// month's length.
pub proof fn lemma_civil_is_valid(z: int)
    ensures
        valid_date(civil_from_days_spec(z).0, civil_from_days_spec(z).1, civil_from_days_spec(z).2),
{
    let (y, m, d) = civil_from_days_spec(z);
    lemma_civil_round_trip(z);
    reveal(march_day);
    if !valid_date(y, m, d) {
        if m == 2 {
            // Only the 29th of a common February can be left: it is 1 March.
            assert(d == 29);
            assert(!is_leap_spec(y));
            lemma_days_parts(y, 2, 29);
            lemma_days_parts(y, 3, 1);
            lemma_year_base_len(y - 1);
            assert(days_from_civil_spec(y, 3, 1) == z);
            lemma_date_round_trip(y, 3, 1);
        } else {
            // The 31st of a 30-day month is the 1st of the next one.
            assert(d == 31);
            assert(m == 4 || m == 6 || m == 9 || m == 11);
            lemma_days_parts(y, m, 31);
            lemma_days_parts(y, m + 1, 1);
            assert(days_from_civil_spec(y, m + 1, 1) == z);
            lemma_date_round_trip(y, m + 1, 1);
        }
    }
}

/// The calendar day after a real date.
pub open spec fn next_date(y: int, m: int, d: int) -> (int, int, int) {
    if d < days_in_month_spec(y, m) {
        (y, m, d + 1)
    } else if m < 12 {
        (y, m + 1, 1)
    } else {
        (y + 1, 1, 1)
    }
}

/// The day after a real date is one day number later.
pub proof fn lemma_next_date_days(y: int, m: int, d: int)
    requires
        valid_date(y, m, d),
    ensures
        valid_date(next_date(y, m, d).0, next_date(y, m, d).1, next_date(y, m, d).2),
        days_from_civil_spec(next_date(y, m, d).0, next_date(y, m, d).1, next_date(y, m, d).2)
            == days_from_civil_spec(y, m, d) + 1,
{
    reveal(march_day);
    let (y2, m2, d2) = next_date(y, m, d);
    lemma_days_parts(y, m, d);
    lemma_days_parts(y2, m2, d2);
    if d >= days_in_month_spec(y, m) && m == 2 {
        lemma_year_base_len(y - 1);
    }
}

/// Reading the next day number as a date gives the day after: day numbers
/// run through the proleptic Gregorian calendar one day at a time.
pub proof fn lemma_civil_successor(z: int)
    ensures
        civil_from_days_spec(z + 1) == next_date(
            civil_from_days_spec(z).0,
            civil_from_days_spec(z).1,
            civil_from_days_spec(z).2,
        ),
{
    let (y, m, d) = civil_from_days_spec(z);
    lemma_civil_round_trip(z);
    lemma_civil_is_valid(z);
    lemma_next_date_days(y, m, d);
    let (y2, m2, d2) = next_date(y, m, d);
    lemma_date_round_trip(y2, m2, d2);
}

/// The year a bare date is resolved to puts it on the asked-for side of today.
#[verifier::spinoff_prover]
#[verifier::rlimit(40)]
proof fn lemma_infer_year_direction(today: int, m: int, d: int, prefer: Prefer)
    requires
        1 <= m <= 12,
        1 <= d <= 31,
    ensures
        prefer == Prefer::Future ==> days_from_civil_spec(infer_year(today, m, d, prefer), m, d) >= today,
        prefer == Prefer::Past ==> days_from_civil_spec(infer_year(today, m, d, prefer), m, d) <= today,
{
    let (ty, m0, d0) = civil_from_days_spec(today);
    lemma_civil_round_trip(today);
    lemma_days_parts(ty, m0, d0);
    lemma_days_parts(ty, m, d);
    lemma_days_parts(ty + 1, m, d);
    lemma_days_parts(ty - 1, m, d);
    lemma_march_day_bounds(m, d);
    lemma_march_day_bounds(m0, d0);
    lemma_year_base_step(ty - 2);
    lemma_year_base_step(ty - 1);
    lemma_year_base_step(ty);
}

pub open spec fn month_name(i: int) -> Seq<char> {
    if i == 1 {
        "january"@
    } else if i == 2 {
        "february"@
    } else if i == 3 {
        "march"@
    } else if i == 4 {
        "april"@
    } else if i == 5 {
        "may"@
    } else if i == 6 {
        "june"@
    } else if i == 7 {
        "july"@
    } else if i == 8 {
        "august"@
    } else if i == 9 {
        "september"@
    } else if i == 10 {
        "october"@
    } else if i == 11 {
        "november"@
    } else {
        "december"@
    }
}

/// The month name with its first letter capitalised, as dates are shown.
pub open spec fn month_title(i: int) -> Seq<char> {
    if i == 1 {
        "January"@
    } else if i == 2 {
        "February"@
    } else if i == 3 {
        "March"@
    } else if i == 4 {
        "April"@
    } else if i == 5 {
        "May"@
    } else if i == 6 {
        "June"@
    } else if i == 7 {
        "July"@
    } else if i == 8 {
        "August"@
    } else if i == 9 {
        "September"@
    } else if i == 10 {
        "October"@
    } else if i == 11 {
        "November"@
    } else {
        "December"@
    }
}

fn month_str(i: i64) -> (r: &'static str)
    ensures
        r@ == month_name(i as int),
{
    if i == 1 {
        "january"
    } else if i == 2 {
        "february"
    } else if i == 3 {
        "march"
    } else if i == 4 {
        "april"
    } else if i == 5 {
        "may"
    } else if i == 6 {
        "june"
    } else if i == 7 {
        "july"
    } else if i == 8 {
        "august"
    } else if i == 9 {
        "september"
    } else if i == 10 {
        "october"
    } else if i == 11 {
        "november"
    } else {
        "december"
    }
}

fn month_title_str(i: i64) -> (r: &'static str)
    ensures
        r@ == month_title(i as int),
{
    if i == 1 {
        "January"
    } else if i == 2 {
        "February"
    } else if i == 3 {
        "March"
    } else if i == 4 {
        "April"
    } else if i == 5 {
        "May"
    } else if i == 6 {
        "June"
    } else if i == 7 {
        "July"
    } else if i == 8 {
        "August"
    } else if i == 9 {
        "September"
    } else if i == 10 {
        "October"
    } else if i == 11 {
        "November"
    } else {
        "December"
    }
}

pub open spec fn weekday_name(i: int) -> Seq<char> {
    if i == 0 {
        "Sunday"@
    } else if i == 1 {
        "Monday"@
    } else if i == 2 {
        "Tuesday"@
    } else if i == 3 {
        "Wednesday"@
    } else if i == 4 {
        "Thursday"@
    } else if i == 5 {
        "Friday"@
    } else {
        "Saturday"@
    }
}

/// 1970-01-01 was a Thursday, which is index 4 in a Sunday-first week.
pub open spec fn weekday_spec(day: int) -> Seq<char> {
    weekday_name((day + 4) % 7)
}

pub fn weekday(day: i64) -> (r: &'static str)
    requires
        day <= i64::MAX - 4,
    ensures
        r@ == weekday_spec(day as int),
{
    let x = (day + 4) % 7;
    let i = if x < 0 {
        x + 7
    } else {
        x
    };
    proof {
        lemma_floor_div(day + 4, 7);
        vstd::arithmetic::div_mod::lemma_fundamental_div_mod(day + 4, 7);
        vstd::arithmetic::div_mod::lemma_fundamental_div_mod(7 - 1 - (day + 4), 7);
    }
    assert(i == (day + 4) % 7);
    if i == 0 {
        "Sunday"
    } else if i == 1 {
        "Monday"
    } else if i == 2 {
        "Tuesday"
    } else if i == 3 {
        "Wednesday"
    } else if i == 4 {
        "Thursday"
    } else if i == 5 {
        "Friday"
    } else {
        "Saturday"
    }
}

/// "Thursday, 8 October 2026".
pub open spec fn format_date_spec(day: int) -> Seq<char> {
    let (y, m, d) = civil_from_days_spec(day);
    weekday_spec(day) + ", "@ + crate::text::decimal(d) + " "@ + month_title(m) + " "@
        + crate::text::decimal(y)
}

pub fn format_date(day: i64) -> (r: String)
    requires
        day <= MAX_DAY,
    ensures
        r@ == format_date_spec(day as int),
{
    let (y, m, d) = civil_from_days(day);
    let mut out = copy_str(weekday(day));
    append_str(&mut out, ", ");
    append_str(&mut out, crate::text::int_to_string(d).as_str());
    append_str(&mut out, " ");
    append_str(&mut out, month_title_str(m));
    append_str(&mut out, " ");
    append_str(&mut out, crate::text::int_to_string(y).as_str());
    out
}

/// The month a token names: the full name or any prefix of at least three
/// bytes (`"oct"`, `"sept"`), the first match winning.
pub open spec fn month_from(token: Seq<char>, i: int) -> Option<int>
    decreases 13 - i,
{
    if i < 1 || i > 12 {
        None
    } else if month_name(i) == token || has_prefix(month_name(i), token) {
        Some(i)
    } else {
        month_from(token, i + 1)
    }
}

pub open spec fn month_of(token: Seq<char>) -> Option<int> {
    if crate::text::byte_len(token) < 3 {
        None
    } else {
        month_from(token, 1)
    }
}

pub fn month_from_name(token: &Vec<char>) -> (r: Option<i64>)
    ensures
        opt_int(r) == month_of(token@),
{
    if crate::text::byte_len_exceeds(token, 2) == false {
        return None;
    }
    let mut i: i64 = 1;
    while i <= 12
        invariant
            1 <= i <= 13,
            crate::text::byte_len(token@) >= 3,
            month_from(token@, 1) == month_from(token@, i as int),
        decreases 13 - i,
    {
        let name = chars_of(month_str(i));
        if (name.len() == token.len() && seq_starts_with(&name, token)) || seq_starts_with(&name, token) {
            assert(month_from(token@, i as int) == Some(i as int));
            return Some(i);
        }
        proof {
            if month_name(i as int) == token@ {
                assert(name@.subrange(0, token@.len() as int) =~= name@);
            }
        }
        i += 1;
    }
    None
}

/// `s` with every trailing ASCII letter removed (`"8th"` → `"8"`).
pub open spec fn trim_end_alpha(s: Seq<char>) -> Seq<char>
    decreases s.len(),
{
    if s.len() > 0 && is_alpha(s.last()) {
        trim_end_alpha(s.drop_last())
    } else {
        s
    }
}

fn strip_trailing_letters(v: &Vec<char>) -> (r: Vec<char>)
    ensures
        r@ == trim_end_alpha(v@),
{
    let mut j = v.len();
    assert(v@.take(j as int) =~= v@);
    while j > 0 && is_alpha_char(v[j - 1])
        invariant
            j <= v.len(),
            trim_end_alpha(v@) == trim_end_alpha(v@.take(j as int)),
        decreases j,
    {
        assert(v@.take(j as int).drop_last() =~= v@.take(j - 1));
        j -= 1;
    }
    assert(v@.subrange(0, j as int) =~= v@.take(j as int));
    slice_vec(v, 0, j)
}

fn is_alpha_char(c: char) -> (b: bool)
    ensures
        b == is_alpha(c),
{
    ('a' <= c && c <= 'z') || ('A' <= c && c <= 'Z')
}

/// The month, day and year a phrase names so far.
pub struct Fields {
    pub month: Option<int>,
    pub day: Option<int>,
    pub year: Option<int>,
}

/// Reading one more token: a month name, or a number that is a year when it
/// has four characters or exceeds 31 and a day otherwise. A second month,
/// day or year rejects the phrase.
pub open spec fn step(f: Fields, tok: Seq<char>) -> Option<Fields> {
    match month_of(tok) {
        Some(m) => if f.month is Some {
            None
        } else {
            Some(Fields { month: Some(m), ..f })
        },
        None => {
            let num = trim_end_alpha(tok);
            match int_of(num) {
                None => None,
                Some(v) => if num.len() == 4 || v > 31 {
                    if f.year is Some {
                        None
                    } else {
                        Some(Fields { year: Some(v), ..f })
                    }
                } else if f.day is Some {
                    None
                } else {
                    Some(Fields { day: Some(v), ..f })
                },
            }
        },
    }
}

pub open spec fn scan(tokens: Seq<Seq<char>>) -> Option<Fields>
    decreases tokens.len(),
{
    if tokens.len() == 0 {
        Some(Fields { month: None, day: None, year: None })
    } else {
        match scan(tokens.drop_last()) {
            None => None,
            Some(f) => step(f, tokens.last()),
        }
    }
}

/// Which way a year-less date should be resolved. "days until march 1" means the
/// next 1 March; "days since march 1" means the last one.
#[derive(Clone, Copy, PartialEq, Eq, Debug, Structural)]
pub enum Prefer {
    Future,
    Past,
}

/// The year a bare date is resolved to: this year, unless that date lies on
/// the wrong side of today for the question asked.
pub open spec fn infer_year(today: int, m: int, d: int, prefer: Prefer) -> int {
    let this_year = civil_from_days_spec(today).0;
    let this = days_from_civil_spec(this_year, m, d);
    if prefer == Prefer::Future && this < today {
        this_year + 1
    } else if prefer == Prefer::Past && this > today {
        this_year - 1
    } else {
        this_year
    }
}

/// The day a date is, when it is a real date whose day number the i64
/// arithmetic reaches.
pub open spec fn checked_date(y: int, m: int, d: int) -> Option<int> {
    if valid_date(y, m, d) && civil_fits(y, m, d) {
        Some(days_from_civil_spec(y, m, d))
    } else {
        None
    }
}

/// Accepts `2026-10-08`, `october 8`, `8 october`, either with an optional year,
/// plus the three relative words people actually type.
pub open spec fn parse_date_spec(input: Seq<char>, today: int, prefer: Prefer) -> Option<int> {
    let text = trim(input);
    if text == "today"@ {
        Some(today)
    } else if text == "tomorrow"@ {
        Some(today + 1)
    } else if text == "yesterday"@ {
        Some(today - 1)
    } else if crate::text::pieces(text, Sep::Char('-')).len() == 3 {
        let iso = crate::text::pieces(text, Sep::Char('-'));
        match (int_of(iso[0]), int_of(iso[1]), int_of(iso[2])) {
            (Some(y), Some(m), Some(d)) => checked_date(y, m, d),
            _ => None,
        }
    } else {
        let tokens = words(text, Sep::WhitespaceOrComma);
        if tokens.len() == 0 || tokens.len() > 3 {
            None
        } else {
            match scan(tokens) {
                Some(f) => match (f.month, f.day) {
                    (Some(m), Some(d)) => {
                        let year = match f.year {
                            Some(y) => y,
                            None => infer_year(today, m, d, prefer),
                        };
                        checked_date(year, m, d)
                    },
                    _ => None,
                },
                None => None,
            }
        }
    }
}

/// The phrase names a month and a day but no year, so the year is inferred.
pub open spec fn names_bare_date(input: Seq<char>) -> bool {
    let text = trim(input);
    &&& text != "today"@
    &&& text != "tomorrow"@
    &&& text != "yesterday"@
    &&& crate::text::pieces(text, Sep::Char('-')).len() != 3
    &&& scan(words(text, Sep::WhitespaceOrComma)) matches Some(f)
    &&& f.year is None
}

/// A date named without a year resolves towards the question: the next such
/// date for "until" (never before today), the last one for "since" (never
/// after today).
pub proof fn lemma_bare_date_resolves_towards_question(input: Seq<char>, today: int)
    requires
        names_bare_date(input),
    ensures
        parse_date_spec(input, today, Prefer::Future) matches Some(t) ==> t >= today,
        parse_date_spec(input, today, Prefer::Past) matches Some(t) ==> t <= today,
{
    let text = trim(input);
    let tokens = words(text, Sep::WhitespaceOrComma);
    lemma_scan_ranges(tokens);
    let f = scan(tokens).unwrap();
    if let (Some(m), Some(d)) = (f.month, f.day) {
        if 1 <= d {
            lemma_infer_year_direction(today, m, d, Prefer::Future);
            lemma_infer_year_direction(today, m, d, Prefer::Past);
        }
    }
}

fn check_date(y: i64, m: i64, d: i64) -> (r: Option<i64>)
    ensures
        opt_int(r) == checked_date(y as int, m as int, d as int),
{
    if 1 <= m && m <= 12 && d >= 1 && d <= days_in_month(y, m) {
        checked_days_from_civil(y, m, d)
    } else {
        None
    }
}

fn read_fields(tokens: &Vec<Vec<char>>) -> (r: (bool, Option<i64>, Option<i64>, Option<i64>))
    ensures
        r.0 == scan(views(tokens@)) is Some,
        r.0 ==> {
            let f = scan(views(tokens@)).unwrap();
            opt_int(r.1) == f.month && opt_int(r.2) == f.day && opt_int(r.3) == f.year
        },
{
    let ghost tv = views(tokens@);
    let mut month: Option<i64> = None;
    let mut day: Option<i64> = None;
    let mut year: Option<i64> = None;
    let mut i: usize = 0;
    while i < tokens.len()
        invariant
            i <= tokens.len(),
            tv == views(tokens@),
            scan(tv.take(i as int)) == Some(
                Fields { month: opt_int(month), day: opt_int(day), year: opt_int(year) },
            ),
        decreases tokens.len() - i,
    {
        let tok = &tokens[i];
        assert(tv.take(i + 1).drop_last() =~= tv.take(i as int));
        assert(tv.take(i + 1).last() == tok@);
        proof {
            lemma_scan_stops(tv, i as int);
        }
        match month_from_name(tok) {
            Some(m) => {
                if month.is_some() {
                    return (false, None, None, None);
                }
                month = Some(m);
            },
            None => {
                let num = strip_trailing_letters(tok);
                match crate::text::parse_i64(&num) {
                    None => {
                        return (false, None, None, None);
                    },
                    Some(v) => {
                        if num.len() == 4 || v > 31 {
                            if year.is_some() {
                                return (false, None, None, None);
                            }
                            year = Some(v);
                        } else {
                            if day.is_some() {
                                return (false, None, None, None);
                            }
                            day = Some(v);
                        }
                    },
                }
            },
        }
        i += 1;
    }
    assert(tv.take(i as int) =~= tv);
    (true, month, day, year)
}

/// Once a prefix of the tokens is rejected, the whole phrase is.
proof fn lemma_scan_stops(tv: Seq<Seq<char>>, i: int)
    requires
        0 <= i < tv.len(),
    ensures
        scan(tv.take(i + 1)) is None ==> scan(tv) is None,
    decreases tv.len() - i,
{
    if i + 1 < tv.len() {
        lemma_scan_stops(tv, i + 1);
        assert(tv.take(i + 2).drop_last() =~= tv.take(i + 1));
    } else {
        assert(tv.take(i + 1) =~= tv);
    }
}

proof fn lemma_month_from_range(token: Seq<char>, i: int)
    ensures
        month_from(token, i) matches Some(m) ==> 1 <= m <= 12,
    decreases 13 - i,
{
    if 1 <= i <= 12 && !(month_name(i) == token || has_prefix(month_name(i), token)) {
        lemma_month_from_range(token, i + 1);
    }
}

proof fn lemma_scan_ranges(tokens: Seq<Seq<char>>)
    ensures
        scan(tokens) matches Some(f) ==> (f.month matches Some(m) ==> 1 <= m <= 12) && (f.day matches Some(
            d,
        ) ==> d <= 31),
    decreases tokens.len(),
{
    if tokens.len() > 0 {
        lemma_scan_ranges(tokens.drop_last());
        lemma_month_from_range(tokens.last(), 1);
    }
}

fn infer(today: i64, m: i64, d: i64, prefer: Prefer) -> (r: i64)
    requires
        -MAX_TODAY <= today <= MAX_TODAY,
        1 <= m <= 12,
        1 <= d <= 31,
    ensures
        r == infer_year(today as int, m as int, d as int, prefer),
{
    proof {
        lemma_today_year_fits(today as int, m as int, d as int);
    }
    let (this_year, _, _) = civil_from_days(today);
    let this = days_from_civil(this_year, m, d);
    if prefer == Prefer::Future && this < today {
        this_year + 1
    } else if prefer == Prefer::Past && this > today {
        this_year - 1
    } else {
        this_year
    }
}

/// Accepts `2026-10-08`, `october 8`, `8 october`, either with an optional year,
/// plus the three relative words people actually type. A date whose day
/// number leaves the i64 range is not accepted.
pub fn parse_date(input: &str, today_day: i64, prefer: Prefer) -> (r: Option<i64>)
    requires
        -MAX_TODAY <= today_day <= MAX_TODAY,
    ensures
        opt_int(r) == parse_date_spec(input@, today_day as int, prefer),
{
    let raw = chars_of(input);
    let text = trim_chars(&raw);
    if crate::text::chars_eq(&text, &chars_of("today")) {
        return Some(today_day);
    }
    if crate::text::chars_eq(&text, &chars_of("tomorrow")) {
        return Some(today_day + 1);
    }
    if crate::text::chars_eq(&text, &chars_of("yesterday")) {
        return Some(today_day - 1);
    }
    let iso = crate::text::split_pieces(&text, Sep::Char('-'));
    if iso.len() == 3 {
        assert(views(iso@)[0] == iso@[0]@ && views(iso@)[1] == iso@[1]@ && views(iso@)[2] == iso@[2]@);
        let y = crate::text::parse_i64(&iso[0]);
        let m = crate::text::parse_i64(&iso[1]);
        let d = crate::text::parse_i64(&iso[2]);
        return match (y, m, d) {
            (Some(y), Some(m), Some(d)) => check_date(y, m, d),
            _ => None,
        };
    }
    let tokens = split_words(&text, Sep::WhitespaceOrComma);
    if tokens.len() == 0 || tokens.len() > 3 {
        return None;
    }
    let (ok, month, day, year) = read_fields(&tokens);
    if !ok {
        return None;
    }
    proof {
        lemma_scan_ranges(views(tokens@));
    }
    match (month, day) {
        (Some(m), Some(d)) => {
            if d < 1 {
                return None;
            }
            let y = match year {
                Some(y) => y,
                None => infer(today_day, m, d, prefer),
            };
            check_date(y, m, d)
        },
        _ => None,
    }
}

/// "1 day", "41 days".
pub open spec fn plural_spec(n: int, unit: Seq<char>) -> Seq<char> {
    crate::text::decimal(n) + " "@ + unit + (if n == 1 {
        Seq::<char>::empty()
    } else {
        "s"@
    })
}

pub fn plural(n: i64, unit: &str) -> (r: String)
    ensures
        r@ == plural_spec(n as int, unit@),
{
    let mut out = crate::text::int_to_string(n);
    append_str(&mut out, " ");
    append_str(&mut out, unit);
    if n != 1 {
        append_str(&mut out, "s");
    } else {
        assert(out@ + Seq::<char>::empty() =~= out@);
    }
    out
}

/// The rest of `text` after the first of `prefixes` it starts with, trimmed.
pub open spec fn strip_any_spec(text: Seq<char>, prefixes: Seq<Seq<char>>) -> Option<Seq<char>>
    decreases prefixes.len(),
{
    if prefixes.len() == 0 {
        None
    } else if has_prefix(text, prefixes[0]) {
        Some(trim(text.skip(prefixes[0].len() as int)))
    } else {
        strip_any_spec(text, prefixes.drop_first())
    }
}

pub fn strip_any(text: &Vec<char>, prefixes: &Vec<&str>) -> (r: Option<Vec<char>>)
    ensures
        match r {
            Some(v) => strip_any_spec(text@, prefixes@.map_values(|p: &str| p@)) == Some(v@),
            None => strip_any_spec(text@, prefixes@.map_values(|p: &str| p@)) is None,
        },
{
    let ghost ps = prefixes@.map_values(|p: &str| p@);
    let mut i: usize = 0;
    assert(ps.skip(0) =~= ps);
    while i < prefixes.len()
        invariant
            i <= prefixes.len(),
            ps == prefixes@.map_values(|p: &str| p@),
            strip_any_spec(text@, ps) == strip_any_spec(text@, ps.skip(i as int)),
        decreases prefixes.len() - i,
    {
        let p = chars_of(prefixes[i]);
        assert(ps.skip(i as int)[0] == p@);
        assert(ps.skip(i as int).drop_first() =~= ps.skip(i + 1));
        if seq_starts_with(text, &p) {
            let rest = slice_vec(text, p.len(), text.len());
            assert(rest@ =~= text@.skip(p@.len() as int));
            return Some(trim_chars(&rest));
        }
        i += 1;
    }
    assert(ps.skip(i as int) =~= Seq::<Seq<char>>::empty());
    None
}

pub open spec fn until_words() -> Seq<Seq<char>> {
    seq!["days until "@, "days till "@, "days to "@, "days untill "@]
}

pub open spec fn since_words() -> Seq<Seq<char>> {
    seq!["days since "@, "days from "@]
}

/// An answer as text: the row's title and subtitle.
pub struct AnswerView {
    pub title: Seq<char>,
    pub subtitle: Seq<char>,
}

pub struct Answer {
    pub title: String,
    pub subtitle: String,
}

pub open spec fn answer_view(a: Option<Answer>) -> Option<AnswerView> {
    match a {
        Some(a) => Some(AnswerView { title: a.title@, subtitle: a.subtitle@ }),
        None => None,
    }
}

/// `s` with every trailing `s` removed.
pub open spec fn trim_end_s(s: Seq<char>) -> Seq<char>
    decreases s.len(),
{
    if s.len() > 0 && s.last() == 's' {
        trim_end_s(s.drop_last())
    } else {
        s
    }
}

pub open spec fn span_of(unit: Seq<char>) -> int {
    if unit == "day"@ {
        1
    } else if unit == "week"@ {
        7
    } else if unit == "fortnight"@ {
        14
    } else {
        0
    }
}

pub open spec fn direction_of(tail: Seq<char>) -> int {
    if tail == "from now"@ || tail == "from today"@ || tail == "ahead"@ {
        1
    } else if tail == "ago"@ || tail == "before now"@ || tail == "before today"@ {
        -1
    } else {
        0
    }
}

/// "<n> days from now", "<n> weeks ago" and friends. A count whose day
/// arithmetic leaves the i64 range, or lands on a day whose date cannot be
/// read, is not answered.
pub open spec fn relative_spec(text: Seq<char>, now: int) -> Option<AnswerView> {
    let tokens = words(text, Sep::Whitespace);
    if tokens.len() < 3 {
        None
    } else {
        match int_of(tokens[0]) {
            None => None,
            Some(count) => {
                let span = span_of(trim_end_s(tokens[1]));
                let direction = direction_of(join(tokens.skip(2), " "@));
                let target = now + direction * count * span;
                if span > 0 && direction != 0 && in_i64(direction * count) && in_i64(direction * count * span)
                    && in_i64(target) && target <= MAX_DAY && in_i64(count * span) {
                    Some(
                        AnswerView {
                            title: format_date_spec(target),
                            subtitle: plural_spec(count * span, "day"@) + " "@ + (if direction > 0 {
                                "from today"@
                            } else {
                                "ago"@
                            }),
                        },
                    )
                } else {
                    None
                }
            },
        }
    }
}

/// "<n> days from now" lands n days after today, "<n> weeks" 7n and
/// "<n> fortnights" 14n; "ago" and "before today" count back instead. The
/// answer names that day and says how many days away it is.
pub proof fn lemma_relative_day(text: Seq<char>, now: int, n: int, d: int, sign: int)
    requires
        words(text, Sep::Whitespace).len() >= 3,
        int_of(words(text, Sep::Whitespace)[0]) == Some(n),
        ({
            let u = words(text, Sep::Whitespace)[1];
            ||| (u == "day"@ || u == "days"@) && d == 1
            ||| (u == "week"@ || u == "weeks"@) && d == 7
            ||| (u == "fortnight"@ || u == "fortnights"@) && d == 14
        }),
        ({
            let t = join(words(text, Sep::Whitespace).skip(2), " "@);
            ||| (t == "from now"@ || t == "from today"@ || t == "ahead"@) && sign == 1
            ||| (t == "ago"@ || t == "before now"@ || t == "before today"@) && sign == -1
        }),
        in_i64(sign * n),
        in_i64(sign * n * d),
        in_i64(now + sign * n * d),
        now + sign * n * d <= MAX_DAY,
        in_i64(n * d),
    ensures
        relative_spec(text, now) == Some(
            AnswerView {
                title: format_date_spec(now + sign * n * d),
                subtitle: plural_spec(n * d, "day"@) + " "@ + (if sign > 0 {
                    "from today"@
                } else {
                    "ago"@
                }),
            },
        ),
{
    reveal_strlit("day");
    reveal_strlit("days");
    reveal_strlit("week");
    reveal_strlit("weeks");
    reveal_strlit("fortnight");
    reveal_strlit("fortnights");
    let u = words(text, Sep::Whitespace)[1];
    assert("days"@.drop_last() =~= "day"@);
    assert("weeks"@.drop_last() =~= "week"@);
    assert("fortnights"@.drop_last() =~= "fortnight"@);
    assert(trim_end_s("day"@) == "day"@);
    assert(trim_end_s("week"@) == "week"@);
    assert(trim_end_s("fortnight"@) == "fortnight"@);
    assert(span_of(trim_end_s(u)) == d);
    reveal_strlit("from now");
    reveal_strlit("from today");
    reveal_strlit("ahead");
    reveal_strlit("ago");
    reveal_strlit("before now");
    reveal_strlit("before today");
    let t = join(words(text, Sep::Whitespace).skip(2), " "@);
    assert("ago"@.len() == 3 && "ahead"@.len() == 5 && "from now"@.len() == 8);
    assert("from today"@.len() == 10 && "before now"@.len() == 10 && "before today"@.len() == 12);
    assert("from today"@[0] != "before now"@[0]);
    if sign == 1 {
        assert(direction_of(t) == 1);
    } else {
        assert(t != "from now"@ && t != "from today"@ && t != "ahead"@);
        assert(direction_of(t) == -1);
    }
}

/// The normalised question: trimmed, lowercased, with a leading "how many "
/// dropped.
pub open spec fn question_text(raw: Seq<char>) -> Seq<char> {
    let lowered = text_lower(trim(raw));
    trim(
        if has_prefix(lowered, "how many "@) {
            lowered.skip(9)
        } else {
            lowered
        },
    )
}

pub open spec fn answer_spec(raw: Seq<char>, now: int) -> Option<AnswerView> {
    let text = question_text(raw);
    match strip_any_spec(text, until_words()) {
        Some(rest) => match parse_date_spec(rest, now, Prefer::Future) {
            Some(target) => if in_i64(target - now) && target <= MAX_DAY {
                Some(
                    AnswerView {
                        title: plural_spec(target - now, "day"@),
                        subtitle: "until "@ + format_date_spec(target),
                    },
                )
            } else {
                None
            },
            None => None,
        },
        None => match strip_any_spec(text, since_words()) {
            Some(rest) => match parse_date_spec(rest, now, Prefer::Past) {
                Some(target) => if in_i64(now - target) && target <= MAX_DAY {
                    Some(
                        AnswerView {
                            title: plural_spec(now - target, "day"@),
                            subtitle: "since "@ + format_date_spec(target),
                        },
                    )
                } else {
                    None
                },
                None => None,
            },
            None => relative_spec(text, now),
        },
    }
}

/// The question is "days until" or "days since" a date named without a year.
pub open spec fn asks_about_bare_date(raw: Seq<char>) -> bool {
    let text = question_text(raw);
    match strip_any_spec(text, until_words()) {
        Some(rest) => names_bare_date(rest),
        None => match strip_any_spec(text, since_words()) {
            Some(rest) => names_bare_date(rest),
            None => false,
        },
    }
}

proof fn lemma_digits_lead(n: nat)
    ensures
        digits_of(n).len() >= 1,
        digits_of(n)[0] != '-',
    decreases n,
{
    if n >= 10 {
        lemma_digits_lead((n / 10) as nat);
    } else {
        assert(digit_char(n as int) != '-');
    }
}

/// "days until" and "days since" a date named without a year never answer
/// with a negative count.
pub proof fn lemma_bare_date_count_never_negative(raw: Seq<char>, now: int)
    requires
        asks_about_bare_date(raw),
    ensures
        answer_spec(raw, now) matches Some(a) ==> a.title.len() > 0 && a.title[0] != '-',
{
    let text = question_text(raw);
    match strip_any_spec(text, until_words()) {
        Some(rest) => {
            lemma_bare_date_resolves_towards_question(rest, now);
            if let Some(t) = parse_date_spec(rest, now, Prefer::Future) {
                lemma_digits_lead((t - now) as nat);
            }
        },
        None => {
            let rest = strip_any_spec(text, since_words()).unwrap();
            lemma_bare_date_resolves_towards_question(rest, now);
            if let Some(t) = parse_date_spec(rest, now, Prefer::Past) {
                lemma_digits_lead((now - t) as nat);
            }
        },
    }
}

/// "days until D" counts forward to the next D and "days since D" back to
/// the last one, for a date D named without a year: the count is the
/// distance between today and that day, never negative, and the subtitle
/// names the day.
pub proof fn lemma_until_and_since(raw: Seq<char>, now: int)
    requires
        asks_about_bare_date(raw),
    ensures
        match strip_any_spec(question_text(raw), until_words()) {
            Some(rest) => answer_spec(raw, now) matches Some(a) ==> (parse_date_spec(rest, now, Prefer::Future) matches Some(
                t,
            ) && t >= now && a.title == plural_spec(t - now, "day"@) && a.subtitle == "until "@ + format_date_spec(t)),
            None => match strip_any_spec(question_text(raw), since_words()) {
                Some(rest) => answer_spec(raw, now) matches Some(a) ==> (parse_date_spec(rest, now, Prefer::Past) matches Some(
                    t,
                ) && t <= now && a.title == plural_spec(now - t, "day"@) && a.subtitle == "since "@
                    + format_date_spec(t)),
                None => true,
            },
        },
{
    let text = question_text(raw);
    match strip_any_spec(text, until_words()) {
        Some(rest) => {
            lemma_bare_date_resolves_towards_question(rest, now);
        },
        None => {
            let rest = strip_any_spec(text, since_words()).unwrap();
            lemma_bare_date_resolves_towards_question(rest, now);
        },
    }
}

proof fn lemma_trim_keeps_ascii(s: Seq<char>)
    requires
        is_ascii_text(s),
    ensures
        is_ascii_text(trim_start(s)),
        is_ascii_text(trim_end(s)),
        is_ascii_text(trim(s)),
    decreases s.len(),
{
    if s.len() > 0 {
        assert(is_ascii_text(s.drop_first()));
        assert(is_ascii_text(s.drop_last()));
        lemma_trim_keeps_ascii(s.drop_first());
        lemma_trim_keeps_ascii(s.drop_last());
    }
    if is_ascii_text(trim_start(s)) {
        lemma_trim_end_keeps_ascii(trim_start(s));
    }
}

proof fn lemma_trim_end_keeps_ascii(s: Seq<char>)
    requires
        is_ascii_text(s),
    ensures
        is_ascii_text(trim_end(s)),
    decreases s.len(),
{
    if s.len() > 0 {
        assert(is_ascii_text(s.drop_last()));
        lemma_trim_end_keeps_ascii(s.drop_last());
    }
}

/// Letter case does not matter to a question asked in ASCII: asking it in
/// capitals gives the same answer.
pub proof fn lemma_answer_ignores_ascii_case(raw: Seq<char>, now: int)
    requires
        is_ascii_text(raw),
    ensures
        answer_spec(ascii_upper_seq(raw), now) == answer_spec(raw, now),
{
    let t = trim(raw);
    lemma_trim_ascii_upper(raw);
    lemma_trim_keeps_ascii(raw);
    let u = ascii_upper_seq(t);
    assert forall|i: int| 0 <= i < u.len() implies (#[trigger] u[i] as u32) < 128 by {
        crate::text::lemma_ascii_upper_char(t[i]);
    }
    assert(ascii_lower_seq(u) =~= ascii_lower_seq(t)) by {
        assert forall|i: int| 0 <= i < t.len() implies #[trigger] ascii_lower_seq(u)[i] == ascii_lower_seq(t)[i] by {
            crate::text::lemma_ascii_upper_char(t[i]);
        }
    }
    assert(question_text(ascii_upper_seq(raw)) == question_text(raw));
}

/// "how many " before a question asks the same question, for a trimmed
/// ASCII question that does not itself begin so.
pub proof fn lemma_how_many_is_the_same_question(s: Seq<char>, now: int)
    requires
        is_ascii_text(s),
        s.len() > 0,
        !is_ws(s[0]),
        !is_ws(s.last()),
        !has_prefix(ascii_lower_seq(s), "how many "@),
    ensures
        answer_spec("how many "@ + s, now) == answer_spec(s, now),
{
    reveal_strlit("how many ");
    let h = "how many "@;
    let x = h + s;
    assert(x[0] == 'h');
    assert(x.last() == s.last());
    crate::text::lemma_trim_visible(x);
    crate::text::lemma_trim_visible(s);
    assert(is_ascii_text(x)) by {
        assert forall|i: int| 0 <= i < x.len() implies (#[trigger] x[i] as u32) < 128 by {
            if i >= 9 {
                assert(x[i] == s[i - 9]);
            }
        }
    }
    let lx = ascii_lower_seq(x);
    assert(lx =~= h + ascii_lower_seq(s));
    assert(has_prefix(lx, h)) by {
        assert(lx.take(9) =~= h);
    }
    assert(lx.skip(9) =~= ascii_lower_seq(s));
    assert(question_text(x) == trim(ascii_lower_seq(s)));
    assert(question_text(s) == trim(ascii_lower_seq(s)));
}

fn strip_trailing_s(v: &Vec<char>) -> (r: Vec<char>)
    ensures
        r@ == trim_end_s(v@),
{
    let mut j = v.len();
    assert(v@.take(j as int) =~= v@);
    while j > 0 && v[j - 1] == 's'
        invariant
            j <= v.len(),
            trim_end_s(v@) == trim_end_s(v@.take(j as int)),
        decreases j,
    {
        assert(v@.take(j as int).drop_last() =~= v@.take(j - 1));
        j -= 1;
    }
    slice_vec(v, 0, j)
}

fn is_word(v: &Vec<char>, w: &str) -> (r: bool)
    ensures
        r == (v@ == w@),
{
    crate::text::chars_eq(v, &chars_of(w))
}

#[verifier::spinoff_prover]
#[verifier::rlimit(60)]
fn relative(text: &Vec<char>, now: i64) -> (r: Option<Answer>)
    ensures
        answer_view(r) == relative_spec(text@, now as int),
{
    let tokens = split_words(text, Sep::Whitespace);
    if tokens.len() < 3 {
        return None;
    }
    assert(views(tokens@)[0] == tokens@[0]@ && views(tokens@)[1] == tokens@[1]@);
    let count = match crate::text::parse_i64(&tokens[0]) {
        Some(c) => c,
        None => return None,
    };
    let unit = strip_trailing_s(&tokens[1]);
    let span: i64 = if is_word(&unit, "day") {
        1
    } else if is_word(&unit, "week") {
        7
    } else if is_word(&unit, "fortnight") {
        14
    } else {
        0
    };
    let tail = join_words(&tokens, 2);
    let direction: i64 = if is_word(&tail, "from now") || is_word(&tail, "from today") || is_word(&tail, "ahead") {
        1
    } else if is_word(&tail, "ago") || is_word(&tail, "before now") || is_word(&tail, "before today") {
        -1
    } else {
        0
    };
    if span > 0 && direction != 0 {
        let step = match direction.checked_mul(count) {
            Some(v) => v,
            None => return None,
        };
        assert(step == direction * count);
        let days = match step.checked_mul(span) {
            Some(v) => v,
            None => return None,
        };
        assert(days == direction * count * span);
        let target = match now.checked_add(days) {
            Some(v) => v,
            None => return None,
        };
        if target > MAX_DAY {
            return None;
        }
        let shown = match count.checked_mul(span) {
            Some(v) => v,
            None => return None,
        };
        let title = format_date(target);
        let mut subtitle = plural(shown, "day");
        append_str(&mut subtitle, " ");
        if direction > 0 {
            append_str(&mut subtitle, "from today");
        } else {
            append_str(&mut subtitle, "ago");
        }
        Some(Answer { title, subtitle })
    } else {
        None
    }
}

/// Answers a date question asked on day `now`, e.g. "days until october 8".
#[verifier::spinoff_prover]
#[verifier::rlimit(60)]
pub fn answer(raw: &str, now: i64) -> (r: Option<Answer>)
    requires
        -MAX_TODAY <= now <= MAX_TODAY,
    ensures
        answer_view(r) == answer_spec(raw@, now as int),
{
    let trimmed = crate::text::trim_str(raw);
    let lowered = to_lowercase(trimmed.as_str());
    assert(lowered@ == text_lower(trim(raw@)));
    let lv = chars_of(lowered.as_str());
    let how = chars_of("how many ");
    proof {
        reveal_strlit("how many ");
    }
    let rest = if seq_starts_with(&lv, &how) {
        slice_vec(&lv, 9, lv.len())
    } else {
        slice_vec(&lv, 0, lv.len())
    };
    assert(lv@.subrange(9, lv@.len() as int) =~= lv@.skip(9) || !has_prefix(lv@, "how many "@));
    assert(lv@.subrange(0, lv@.len() as int) =~= lv@);
    let text = trim_chars(&rest);
    assert(text@ == question_text(raw@));
    let mut until: Vec<&str> = Vec::new();
    until.push("days until ");
    until.push("days till ");
    until.push("days to ");
    until.push("days untill ");
    assert(until@.map_values(|p: &str| p@) =~= until_words());
    if let Some(rest) = strip_any(&text, &until) {
        let rest_str = string_from_chars(&rest);
        return match parse_date(rest_str.as_str(), now, Prefer::Future) {
            Some(target) => {
                let delta = match target.checked_sub(now) {
                    Some(v) => v,
                    None => return None,
                };
                if target > MAX_DAY {
                    return None;
                }
                let title = plural(delta, "day");
                let subtitle = concat("until ", format_date(target).as_str());
                Some(Answer { title, subtitle })
            },
            None => None,
        };
    }
    let mut since: Vec<&str> = Vec::new();
    since.push("days since ");
    since.push("days from ");
    assert(since@.map_values(|p: &str| p@) =~= since_words());
    if let Some(rest) = strip_any(&text, &since) {
        let rest_str = string_from_chars(&rest);
        return match parse_date(rest_str.as_str(), now, Prefer::Past) {
            Some(target) => {
                let delta = match now.checked_sub(target) {
                    Some(v) => v,
                    None => return None,
                };
                if target > MAX_DAY {
                    return None;
                }
                let title = plural(delta, "day");
                let subtitle = concat("since ", format_date(target).as_str());
                Some(Answer { title, subtitle })
            },
            None => None,
        };
    }
    relative(&text, now)
}

pub open spec fn eval_spec(input: Seq<char>, today: int) -> Option<Seq<char>> {
    match answer_spec(input, today) {
        Some(a) => Some(a.title + " ("@ + a.subtitle + ")"@),
        None => None,
    }
}

/// The answer as one line, "41 days (until Thursday, 8 October 2026)"; used
/// by the `omarchycastd eval` debug subcommand.
pub fn eval_once(input: &str, today: i64) -> (r: Option<String>)
    requires
        -MAX_TODAY <= today <= MAX_TODAY,
    ensures
        crate::text::opt_view(r) == eval_spec(input@, today as int),
{
    match answer(input, today) {
        Some(a) => {
            let mut s = a.title;
            append_str(&mut s, " (");
            append_str(&mut s, a.subtitle.as_str());
            append_str(&mut s, ")");
            Some(s)
        },
        None => None,
    }
}

/// Whether the question names one of the units every supported phrasing
/// contains; anything else is not looked at further.
pub open spec fn mentions_a_span(lower: Seq<char>) -> bool {
    has_infix(lower, "day"@) || has_infix(lower, "week"@) || has_infix(lower, "fortnight"@)
}

/// The row shown for an answer.
pub open spec fn date_row(a: AnswerView) -> ItemView {
    ItemView {
        id: PROVIDER@ + ":"@ + "answer"@,
        provider: PROVIDER@,
        kind: "Date"@,
        title: a.title,
        subtitle: Some(a.subtitle),
        icon: None,
        glyph: Some("\u{1f5d3}"@),
        accessory: Some("\u{21b5} copy"@),
        score: DATE_SCORE as i64,
    }
}

/// The rows the date provider shows for a query asked on day `today`.
pub open spec fn date_answer(query: Seq<char>, today: int) -> Option<AnswerView> {
    if !mentions_a_span(unicode_lowercase(query)) {
        None
    } else {
        answer_spec(query, today)
    }
}

pub open spec fn date_rows(query: Seq<char>, today: int) -> Seq<ItemView> {
    match date_answer(query, today) {
        Some(a) => seq![date_row(a)],
        None => Seq::empty(),
    }
}

/// Answers date questions; remembers the last answer so that activation
/// copies exactly what was on screen.
pub struct DateProvider {
    last: Option<String>,
}

impl DateProvider {
    /// The answer activation would copy, if any was shown yet.
    pub closed spec fn last_answer(&self) -> Option<Seq<char>> {
        opt_view(self.last)
    }

    pub fn new() -> (r: Self)
        ensures
            r.last_answer() is None,
    {
        DateProvider { last: None }
    }

    /// The rows for `q` asked on day `today`. A shown answer becomes the one
    /// that activation copies; otherwise the remembered one stays.
    pub fn answer_query(&mut self, q: &Query, today: i64) -> (items: Vec<Item>)
        requires
            -MAX_TODAY <= today <= MAX_TODAY,
        ensures
            item_views(items@) == date_rows(q.trimmed@, today as int),
            final(self).last_answer() == (match date_answer(q.trimmed@, today as int) {
                Some(a) => Some(a.title),
                None => old(self).last_answer(),
            }),
    {
        let lower = to_lowercase(q.trimmed.as_str());
        let mentions = contains(lower.as_str(), "day") || contains(lower.as_str(), "week")
            || contains(lower.as_str(), "fortnight");
        if !mentions {
            let none: Vec<Item> = Vec::new();
            assert(item_views(none@) =~= Seq::<ItemView>::empty());
            return none;
        }
        let a = match answer(q.trimmed.as_str(), today) {
            Some(a) => a,
            None => {
                let none: Vec<Item> = Vec::new();
                assert(item_views(none@) =~= Seq::<ItemView>::empty());
                return none;
            },
        };
        self.last = Some(a.title.clone());
        let mut item = Item::new(PROVIDER, "Date", copy_str("answer"), a.title);
        item.subtitle = Some(a.subtitle);
        item.glyph = Some(copy_str("\u{1f5d3}"));
        item.accessory = Some(copy_str("\u{21b5} copy"));
        item.score = DATE_SCORE;
        let mut items: Vec<Item> = Vec::new();
        items.push(item);
        assert(item_views(items@) =~= seq![items@[0]@]);
        items
    }

    /// Copies the last answer shown.
    pub fn activate(&self, _id: &str, _action: Action) -> (r: Result<Activation, String>)
        ensures
            match self.last_answer() {
                Some(t) => r matches Ok(Activation::Copy { text }) && text@ == t,
                None => r matches Err(e) && e@ == "no date result to copy"@,
            },
    {
        match &self.last {
            Some(t) => Ok(Activation::Copy { text: t.clone() }),
            None => Err(copy_str("no date result to copy")),
        }
    }
}

} // verus!
