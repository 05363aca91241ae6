//! The day a date condition names.

use super::Condition;
use crate::search_query::calendar::{
    eras_count_leap_days, is_day, march_count_agrees, march_day_number, day_number,
};
use crate::text::{
    char_position, chars_of, find_char, find_char_is_first, parse_i64, same_chars, signed_number, trim, trimmed,
};
use vstd::prelude::*;
use vstd::slice::slice_subrange;

verus! {

/// A whole number as it was written, where it is one that fits.
pub open spec fn whole(s: Seq<char>) -> Option<int> {
    match signed_number(s) {
        Some(n) => if i64::MIN <= n <= i64::MAX {
            Some(n)
        } else {
            None
        },
        None => None,
    }
}

/// The year, month and day of a `YYYY-MM-DD`: what lies between the first
/// three dashes. Whether the month has that many days is not asked.
pub open spec fn date_parts(value: Seq<char>) -> Option<(int, int, int)> {
    let t = trim(value);
    let a = find_char(t, '-', 0);
    let b = find_char(t, '-', a + 1);
    let c = find_char(t, '-', b + 1);
    if a >= t.len() || b >= t.len() {
        None
    } else {
        match (whole(t.take(a)), whole(t.subrange(a + 1, b)), whole(t.subrange(b + 1, c))) {
            (Some(y), Some(m), Some(d)) => if 1 <= m <= 12 && 1 <= d <= 31 {
                Some((y, m, d))
            } else {
                None
            },
            _ => None,
        }
    }
}

/// Midnight UTC at the start of the day a condition names.
pub open spec fn day_start(value: Seq<char>) -> Option<int> {
    match date_parts(value) {
        Some((y, m, d)) => Some(march_day_number(y, m, d) * 86_400_000),
        None => None,
    }
}

/// Whether that day, and the one after it, can be counted in milliseconds.
pub open spec fn fits(value: Seq<char>) -> bool {
    day_start(value) matches Some(at) ==> at + 86_400_000 <= i64::MAX
}

proof fn a_year_is_not_negative(t: Seq<char>, a: int)
    requires
        0 <= a <= t.len(),
        forall|i: int| 0 <= i < a ==> t[i] != '-',
    ensures
        signed_number(t.take(a)) matches Some(n) ==> n >= 0,
{
    if a > 0 {
        assert(t.take(a)[0] == t[0]);
    }
}

fn parts_of(value: &str) -> (r: Option<(i64, i64, i64)>)
    ensures
        match r {
            Some((y, m, d)) => date_parts(value@) == Some((y as int, m as int, d as int)) && y >= 0,
            None => date_parts(value@) is None,
        },
{
    let chars = chars_of(value);
    let t = trimmed(&chars);
    let a = char_position(t, '-', 0);
    if a >= t.len() {
        return None;
    }
    let b = char_position(t, '-', a + 1);
    if b >= t.len() {
        return None;
    }
    let c = char_position(t, '-', b + 1);
    proof {
        find_char_is_first(t@, '-', 0);
        a_year_is_not_negative(t@, a as int);
        assert(t@.subrange(0, a as int) =~= t@.take(a as int));
    }
    let y: i64 = match parse_i64(slice_subrange(t, 0, a)) {
        Some(n) => n,
        None => {
            return None;
        },
    };
    let m: i64 = match parse_i64(slice_subrange(t, a + 1, b)) {
        Some(n) => n,
        None => {
            return None;
        },
    };
    let d: i64 = match parse_i64(slice_subrange(t, b + 1, c)) {
        Some(n) => n,
        None => {
            return None;
        },
    };
    if 1 <= m && m <= 12 && 1 <= d && d <= 31 {
        Some((y, m, d))
    } else {
        None
    }
}

/// Whether a condition's day can be counted in milliseconds: true of anything
/// but a date condition, and of every date in the next two hundred million
/// years.
pub fn date_fits(c: &Condition) -> (r: bool)
    ensures
        r == super::can_be_dated(*c),
{
    if !same_chars(&chars_of(&c.field), &chars_of("date")) {
        return true;
    }
    match parts_of(&c.value) {
        None => true,
        Some((y, m, d)) => {
            // Further on than any day that fits.
            if y > 400_000_000 {
                proof {
                    far_years_do_not_fit(y as int, m as int, d as int);
                }
                return false;
            }
            let days = days_from_civil(y, m, d);
            days <= 106_751_991_166
        },
    }
}

proof fn far_years_do_not_fit(y: int, m: int, d: int)
    requires
        y > 400_000_000,
        1 <= m <= 12,
        1 <= d <= 31,
    ensures
        march_day_number(y, m, d) > 106_751_991_166,
{
    let v = if m <= 2 {
        y - 1
    } else {
        y
    };
    assert(v / 4 >= v / 100);
    assert(v / 400 >= 0);
}

/// Days from the first of January 1970, for a year that is not too far on.
fn days_from_civil(y: i64, m: i64, d: i64) -> (days: i64)
    requires
        0 <= y <= 400_000_000,
        1 <= m <= 12,
        1 <= d <= 31,
    ensures
        days == march_day_number(y as int, m as int, d as int),
{
    let v: i64 = if m <= 2 {
        y - 1
    } else {
        y
    };
    let era: i64 = if v >= 0 {
        v / 400
    } else {
        -1
    };
    let year_of_era: i64 = v - era * 400;
    let from_march: i64 = if m > 2 {
        m - 3
    } else {
        m + 9
    };
    let day_of_year: i64 = (153 * from_march + 2) / 5 + d - 1;
    let day_of_era: i64 = year_of_era * 365 + year_of_era / 4 - year_of_era / 100 + day_of_year;
    proof {
        eras_count_leap_days(v as int, era as int, year_of_era as int);
    }
    era * 146_097 + day_of_era - 719_468
}

/// Midnight UTC on a `YYYY-MM-DD`, for comparing against a send time.
///
/// Days rather than instants, because that is what is being asked; UTC
/// because the stored date is.
pub fn day_start_ms(ymd: &str) -> (r: Option<i64>)
    requires
        fits(ymd@),
    ensures
        match r {
            Some(at) => day_start(ymd@) == Some(at as int) && at <= i64::MAX - 86_400_000,
            None => day_start(ymd@) is None,
        },
{
    match parts_of(ymd) {
        None => None,
        Some((y, m, d)) => {
            proof {
                if y > 400_000_000 {
                    far_years_do_not_fit(y as int, m as int, d as int);
                }
            }
            let days = days_from_civil(y, m, d);
            proof {
                the_first_day(y as int, m as int, d as int);
            }
            Some(days * 86_400_000)
        },
    }
}

proof fn the_first_day(y: int, m: int, d: int)
    requires
        0 <= y,
        1 <= m <= 12,
        1 <= d <= 31,
    ensures
        march_day_number(y, m, d) >= -720_000,
{
    let v = if m <= 2 {
        y - 1
    } else {
        y
    };
    if v >= 0 {
        assert(v / 4 >= v / 100);
    }
}

/// A day the calendar has is counted as the calendar counts it.
pub proof fn days_are_counted_as_the_calendar_counts_them(value: Seq<char>)
    ensures
        date_parts(value) matches Some((y, m, d)) ==> is_day(y, m, d) ==> day_start(value) == Some(
            day_number(y, m, d) * 86_400_000,
        ),
{
    if let Some((y, m, d)) = date_parts(value) {
        if is_day(y, m, d) {
            march_count_agrees(y, m, d);
        }
    }
}

} // verus!
