//! Days, and the stretches of the calendar a date operator names.

use crate::text::{
    all_digits, append_chars, are_digits, chars_of, number, number_of, padded, padded_chars,
    padded_reads_back, power_of_ten, string_of,
};
use vstd::prelude::*;
use vstd::slice::slice_subrange;

verus! {

/// One calendar day.
#[derive(Debug, Clone, Copy, PartialEq, Eq, Structural)]
pub struct Day {
    pub year: u16,
    pub month: u8,
    pub day: u8,
}

pub open spec fn is_leap(year: int) -> bool {
    (year % 4 == 0 && year % 100 != 0) || year % 400 == 0
}

/// How many days a month has. A month past December counts as a February.
pub open spec fn month_length(year: int, month: int) -> int {
    if month == 4 || month == 6 || month == 9 || month == 11 {
        30
    } else if month == 1 || month == 3 || month == 5 || month == 7 || month == 8 || month == 10
        || month == 12 {
        31
    } else if is_leap(year) {
        29
    } else {
        28
    }
}

/// How many leap days there have been by the end of a year.
pub open spec fn leap_days_through(year: int) -> int {
    year / 4 - year / 100 + year / 400
}

/// Days from the first of January 1970 to the first of January of a year.
pub open spec fn days_before_year(year: int) -> int {
    365 * (year - 1970) + leap_days_through(year - 1) - leap_days_through(1969)
}

/// Days from the first of January to the first of a month.
pub open spec fn days_before_month(year: int, month: int) -> int
    decreases month,
{
    if month <= 1 {
        0
    } else {
        days_before_month(year, month - 1) + month_length(year, month - 1)
    }
}

/// Days from the first of January 1970.
pub open spec fn day_number(year: int, month: int, day: int) -> int {
    days_before_year(year) + days_before_month(year, month) + day - 1
}

/// Whether the calendar has this day.
pub open spec fn is_day(year: int, month: int, day: int) -> bool {
    1 <= month <= 12 && 1 <= day <= month_length(year, month)
}

/// The day number by the rule that counts years from March, so that the leap
/// day is the last day of the year it belongs to.
pub open spec fn march_day_number(year: int, month: int, day: int) -> int {
    let y = if month <= 2 {
        year - 1
    } else {
        year
    };
    let m = if month > 2 {
        month - 3
    } else {
        month + 9
    };
    365 * y + y / 4 - y / 100 + y / 400 + (153 * m + 2) / 5 + day - 1 - 719_468
}

impl Day {
    pub open spec fn is_real(self) -> bool {
        is_day(self.year as int, self.month as int, self.day as int)
    }

    /// Days from the first of January 1970.
    pub open spec fn number(self) -> int {
        day_number(self.year as int, self.month as int, self.day as int)
    }

    /// Midnight at the start of this day in UTC, in milliseconds.
    ///
    /// Dates mean the calendar day where the reader is, so the store asks for
    /// the local midnight. This is what it falls back on if nothing can say.
    pub fn utc_ms(&self) -> (ms: i64)
        ensures
            ms == march_day_number(self.year as int, self.month as int, self.day as int)
                * 86_400_000,
            self.is_real() ==> ms == self.number() * 86_400_000,
    {
        let early: i64 = if self.month <= 2 {
            1
        } else {
            0
        };
        let y: i64 = self.year as i64 - early;
        let era: i64 = if y >= 0 {
            y / 400
        } else {
            -1
        };
        let year_of_era: i64 = y - era * 400;
        let month: i64 = self.month as i64;
        let from_march: i64 = if month > 2 {
            month - 3
        } else {
            month + 9
        };
        let day_of_year: i64 = (153 * from_march + 2) / 5 + self.day as i64 - 1;
        let day_of_era: i64 = year_of_era * 365 + year_of_era / 4 - year_of_era / 100
            + day_of_year;
        proof {
            eras_count_leap_days(y as int, era as int, year_of_era as int);
            if self.is_real() {
                march_count_agrees(self.year as int, self.month as int, self.day as int);
            }
        }
        (era * 146_097 + day_of_era - 719_468) * 86_400_000
    }
}

/// Four hundred years always hold the same number of leap days.
pub proof fn eras_count_leap_days(y: int, era: int, year_of_era: int)
    requires
        y == 400 * era + year_of_era,
        0 <= year_of_era < 400,
    ensures
        365 * y + y / 4 - y / 100 + y / 400 == era * 146_097 + year_of_era * 365 + year_of_era / 4
            - year_of_era / 100,
{
    assert(y / 4 == 100 * era + year_of_era / 4);
    assert(y / 100 == 4 * era + year_of_era / 100);
    assert(y / 400 == era);
}

/// Both ways of counting days agree on every day there is.
pub proof fn march_count_agrees(year: int, month: int, day: int)
    requires
        is_day(year, month, day),
    ensures
        march_day_number(year, month, day) == day_number(year, month, day),
{
    months_counted_from_march(year, month);
    leap_days_in_a_year(year);
}

/// The months before a month, counted from March.
proof fn months_counted_from_march(year: int, month: int)
    requires
        1 <= month <= 12,
    ensures
        days_before_month(year, month) == if month > 2 {
            (153 * (month - 3) + 2) / 5 + 59 + (if is_leap(year) {
                1int
            } else {
                0
            })
        } else {
            (153 * (month + 9) + 2) / 5 - 306
        },
    decreases month,
{
    if month > 1 {
        months_counted_from_march(year, month - 1);
    }
}

/// A year is as long as its months: the first of January comes 365 days after
/// the last one, or 366.
pub proof fn years_follow_on(year: int)
    ensures
        days_before_year(year + 1) - days_before_year(year) == if is_leap(year) {
            366int
        } else {
            365
        },
        days_before_month(year, 13) == if is_leap(year) {
            366int
        } else {
            365
        },
{
    leap_days_in_a_year(year);
    reveal_with_fuel(days_before_month, 14);
}

proof fn leap_days_in_a_year(year: int)
    ensures
        leap_days_through(year) - leap_days_through(year - 1) == if is_leap(year) {
            1int
        } else {
            0
        },
{
    assert(year / 4 - (year - 1) / 4 == if year % 4 == 0 {
        1int
    } else {
        0
    });
    assert(year / 100 - (year - 1) / 100 == if year % 100 == 0 {
        1int
    } else {
        0
    });
    assert(year / 400 - (year - 1) / 400 == if year % 400 == 0 {
        1int
    } else {
        0
    });
}

/// Days are numbered in calendar order, and no two share a number.
pub proof fn later_days_have_larger_numbers(
    year: int,
    month: int,
    day: int,
    later_year: int,
    later_month: int,
    later_day: int,
)
    requires
        is_day(year, month, day),
        is_day(later_year, later_month, later_day),
        year < later_year || (year == later_year && (month < later_month || (month == later_month
            && day < later_day))),
    ensures
        day_number(year, month, day) < day_number(later_year, later_month, later_day),
{
    months_in_order(year, month, 13);
    months_in_order(later_year, 1, later_month);
    if year < later_year {
        years_follow_on(year);
        years_in_order(year, later_year);
    } else if month < later_month {
        months_in_order(year, month, later_month);
    }
}

proof fn months_in_order(year: int, month: int, later: int)
    requires
        1 <= month <= later,
    ensures
        month < later ==> days_before_month(year, month) + month_length(year, month)
            <= days_before_month(year, later),
        0 <= days_before_month(year, month) <= days_before_month(year, later),
    decreases later,
{
    if month < later {
        months_in_order(year, month, later - 1);
    } else if month > 1 {
        months_in_order(year, month - 1, month - 1);
    }
}

proof fn years_in_order(year: int, later: int)
    requires
        year < later,
    ensures
        days_before_year(year) + (if is_leap(year) {
            366int
        } else {
            365
        }) <= days_before_year(later),
    decreases later - year,
{
    years_follow_on(year);
    if year + 1 < later {
        years_in_order(year + 1, later);
    }
}

// ---------------------------------------------------------------------
// From a number of days to a date
// ---------------------------------------------------------------------
/// Any day of the calendar, whatever the year.
#[derive(Debug, Clone, Copy, PartialEq, Eq, Structural)]
pub struct CalendarDate {
    pub year: i64,
    pub month: u8,
    pub day: u8,
}

impl CalendarDate {
    pub open spec fn is_real(self) -> bool {
        is_day(self.year as int, self.month as int, self.day as int)
    }

    pub open spec fn number(self) -> int {
        day_number(self.year as int, self.month as int, self.day as int)
    }
}

/// Two dates with one number are one date.
pub proof fn a_number_names_one_day(a: CalendarDate, b: CalendarDate)
    requires
        a.is_real(),
        b.is_real(),
        a.number() == b.number(),
    ensures
        a == b,
{
    let (y, m, d) = (a.year as int, a.month as int, a.day as int);
    let (v, n, e) = (b.year as int, b.month as int, b.day as int);
    if y < v || (y == v && (m < n || (m == n && d < e))) {
        later_days_have_larger_numbers(y, m, d, v, n, e);
    } else if v < y || (v == y && (n < m || (n == m && e < d))) {
        later_days_have_larger_numbers(v, n, e, y, m, d);
    }
}

/// The first of January of the `k`th year of a cycle of four hundred.
#[verifier::opaque]
spec fn year_start(cycle: int, k: int) -> int {
    days_before_year(2000 + 400 * cycle + k)
}

spec fn is_leap_in_cycle(k: int) -> bool {
    (k % 4 == 0 && k % 100 != 0) || k == 0
}

/// Four hundred years on, the calendar repeats.
proof fn the_calendar_repeats(cycle: int, k: int)
    requires
        0 <= k < 400,
    ensures
        year_start(cycle, 0) == 10_957 + 146_097 * cycle,
        year_start(cycle, 400) == year_start(cycle, 0) + 146_097,
        year_start(cycle, k + 1) == year_start(cycle, k) + if is_leap_in_cycle(k) {
            366int
        } else {
            365
        },
        is_leap(2000 + 400 * cycle + k) == is_leap_in_cycle(k),
{
    cycles_are_alike(cycle);
    years_leap_alike(cycle, k);
    assert(year_start(cycle, k + 1) == year_start(cycle, k) + if is_leap(2000 + 400 * cycle + k) {
        366int
    } else {
        365
    }) by {
        reveal(year_start);
        years_follow_on(2000 + 400 * cycle + k);
    }
}

proof fn cycles_are_alike(cycle: int)
    ensures
        year_start(cycle, 0) == 10_957 + 146_097 * cycle,
        year_start(cycle, 400) == year_start(cycle, 0) + 146_097,
{
    reveal(year_start);
    leap_days_of_cycles(cycle);
    leap_days_of_cycles(cycle + 1);
    assert(leap_days_through(1969) == 477);
}

proof fn leap_days_of_cycles(cycle: int)
    ensures
        leap_days_through(1999 + 400 * cycle) == 484 + 97 * cycle,
{
    let y = 1999 + 400 * cycle;
    assert(y / 4 == 499 + 100 * cycle);
    assert(y / 100 == 19 + 4 * cycle);
    assert(y / 400 == 4 + cycle);
}

proof fn years_leap_alike(cycle: int, k: int)
    requires
        0 <= k < 400,
    ensures
        is_leap(2000 + 400 * cycle + k) == is_leap_in_cycle(k),
{
    let y = 2000 + 400 * cycle + k;
    vstd::arithmetic::div_mod::lemma_mod_multiples_vanish(500 + 100 * cycle, k, 4);
    vstd::arithmetic::div_mod::lemma_mod_multiples_vanish(20 + 4 * cycle, k, 100);
    vstd::arithmetic::div_mod::lemma_mod_multiples_vanish(5 + cycle, k, 400);
    assert(y == 4 * (500 + 100 * cycle) + k);
    assert(y == 100 * (20 + 4 * cycle) + k);
    assert(y == 400 * (5 + cycle) + k);
}

/// Which year of a cycle a day of it falls in, and how far into that year.
fn year_of_cycle(cycle: Ghost<int>, day: u64) -> (r: (u64, u64))
    requires
        day < 146_097,
    ensures
        r.0 < 400,
        year_start(cycle@, r.0 as int) + r.1 == year_start(cycle@, 0) + day,
        r.1 < if is_leap_in_cycle(r.0 as int) {
            366int
        } else {
            365
        },
{
    let mut k: u64 = 0;
    let mut left: u64 = day;
    loop
        invariant
            year_start(cycle@, k as int) + left == year_start(cycle@, 0) + day,
            day < 146_097,
            k < 400,
        ensures
            k < 400,
            year_start(cycle@, k as int) + left == year_start(cycle@, 0) + day,
            left < if is_leap_in_cycle(k as int) {
                366int
            } else {
                365
            },
        decreases left,
    {
        proof {
            the_calendar_repeats(cycle@, k as int);
        }
        let length: u64 = if (k % 4 == 0 && k % 100 != 0) || k == 0 {
            366
        } else {
            365
        };
        if left < length {
            break;
        }
        left -= length;
        k += 1;
    }
    (k, left)
}

/// The date of a day, by how many days it is from the first of January 1970.
pub fn date_of_number(n: i64) -> (date: CalendarDate)
    requires
        -120_000_000_000 <= n <= 120_000_000_000,
    ensures
        date.is_real(),
        date.number() == n,
{
    // Counted from so many cycles of four hundred years before 2000 that
    // nothing here is negative.
    let since: u64 = (n + 146_096_999_989_043) as u64;
    let cycles: u64 = since / 146_097;
    let day: u64 = since % 146_097;
    let ghost cycle = cycles as int - 1_000_000_000;
    let (k, left) = year_of_cycle(Ghost(cycle), day);
    let year: i64 = 2000 + 400 * (cycles as i64 - 1_000_000_000) + k as i64;
    let leap = (k % 4 == 0 && k % 100 != 0) || k == 0;
    let leap_year: u16 = if leap {
        2000
    } else {
        2001
    };
    proof {
        the_calendar_repeats(cycle, k as int);
        reveal(year_start);
        years_follow_on(year as int);
        assert(is_leap(2000));
        assert(!is_leap(2001));
    }
    let (month, day) = month_of_year(Ghost(year as int), leap_year, left);
    CalendarDate { year, month, day }
}

/// Which month of a year a day of it falls in, and which day of the month
/// that is. `like` is a year of the same length.
fn month_of_year(year: Ghost<int>, like: u16, day: u64) -> (r: (u8, u8))
    requires
        is_leap(like as int) == is_leap(year@),
        day < if is_leap(year@) {
            366int
        } else {
            365
        },
    ensures
        is_day(year@, r.0 as int, r.1 as int),
        days_before_month(year@, r.0 as int) + r.1 - 1 == day,
{
    let mut left: u64 = day;
    proof {
        years_follow_on(year@);
    }
    let mut month: u8 = 1;
    loop
        invariant
            1 <= month <= 12,
            is_leap(like as int) == is_leap(year@),
            days_before_month(year@, month as int) + left == day,
            day < days_before_month(year@, 13),
        ensures
            1 <= month <= 12,
            days_before_month(year@, month as int) + left == day,
            left < month_length(year@, month as int),
        decreases left,
    {
        let length = days_in(like, month);
        assert(length == month_length(year@, month as int));
        if left < length as u64 {
            break;
        }
        left -= length as u64;
        month += 1;
    }
    (month, left as u8 + 1)
}

pub fn days_in(year: u16, month: u8) -> (days: u8)
    ensures
        days == month_length(year as int, month as int),
{
    match month {
        1 | 3 | 5 | 7 | 8 | 10 | 12 => 31,
        4 | 6 | 9 | 11 => 30,
        _ => if (year % 4 == 0 && year % 100 != 0) || year % 400 == 0 {
            29
        } else {
            28
        },
    }
}

/// A year, a month or a day: `2026`, `2026-08`, `2026-08-14`.
///
/// The fields are private so that one of these always names a real stretch
/// of the calendar. `after:2026-02-30` is not a date, and stays text.
#[derive(Debug, Clone, Copy, PartialEq, Eq, Structural)]
pub struct Period {
    year: u16,
    month: Option<u8>,
    day: Option<u8>,
}

/// What a `Period` names.
pub struct Stretch {
    pub year: int,
    pub month: Option<int>,
    pub day: Option<int>,
}

impl Stretch {
    /// Whether this names a real stretch of the calendar, in the years that
    /// can be asked for. 9998 rather than 9999, so that the day after it is
    /// always a date with a four-figure year.
    pub open spec fn is_real(self) -> bool {
        &&& 1970 <= self.year <= 9998
        &&& match (self.month, self.day) {
            (None, None) => true,
            (None, Some(_)) => false,
            (Some(month), None) => 1 <= month <= 12,
            (Some(month), Some(day)) => is_day(self.year, month, day),
        }
    }

    /// The number of its first day.
    pub open spec fn first(self) -> int {
        day_number(
            self.year,
            match self.month {
                Some(month) => month,
                None => 1,
            },
            match self.day {
                Some(day) => day,
                None => 1,
            },
        )
    }

    /// How many days are in it.
    pub open spec fn days(self) -> int {
        match (self.month, self.day) {
            (None, _) => if is_leap(self.year) {
                366
            } else {
                365
            },
            (Some(month), None) => month_length(self.year, month),
            (Some(_), Some(_)) => 1,
        }
    }

    /// The year, month and day of the first day after it.
    pub open spec fn next(self) -> (int, int, int) {
        match (self.month, self.day) {
            (Some(month), Some(day)) if day < month_length(self.year, month) => (
                self.year,
                month,
                day + 1,
            ),
            (Some(month), _) if month < 12 => (self.year, month + 1, 1),
            _ => (self.year + 1, 1, 1),
        }
    }

    /// How it is written: `2026`, `2026-08`, `2026-08-14`.
    pub open spec fn text(self) -> Seq<char> {
        let year = padded(self.year as nat, 4);
        match (self.month, self.day) {
            (None, _) => year,
            (Some(month), None) => year + seq!['-'] + padded(month as nat, 2),
            (Some(month), Some(day)) => year + seq!['-'] + padded(month as nat, 2) + seq!['-']
                + padded(day as nat, 2),
        }
    }
}

impl View for Period {
    type V = Stretch;

    closed spec fn view(&self) -> Stretch {
        Stretch {
            year: self.year as int,
            month: match self.month {
                Some(month) => Some(month as int),
                None => None,
            },
            day: match self.day {
                Some(day) => Some(day as int),
                None => None,
            },
        }
    }
}

pub open spec fn is_date_mark(c: char) -> bool {
    c == '-' || c == '/'
}

/// Where the part that starts at `from` ends: at the next `-` or `/`.
pub open spec fn part_end(s: Seq<char>, from: int) -> int
    decreases s.len() - from,
{
    if from >= s.len() || is_date_mark(s[from]) {
        from
    } else {
        part_end(s, from + 1)
    }
}

/// The parts between the marks, from `from` on.
pub open spec fn date_parts(s: Seq<char>, from: int) -> Seq<Seq<char>>
    decreases s.len() - from,
    when 0 <= from <= s.len()
    via date_parts_shrink
{
    let end = part_end(s, from);
    if end >= s.len() {
        seq![s.subrange(from, s.len() as int)]
    } else {
        seq![s.subrange(from, end)] + date_parts(s, end + 1)
    }
}

#[via_fn]
proof fn date_parts_shrink(s: Seq<char>, from: int) {
    part_end_is_next(s, from);
}

proof fn part_end_is_next(s: Seq<char>, from: int)
    requires
        0 <= from <= s.len(),
    ensures
        from <= part_end(s, from) <= s.len(),
        forall|i: int| from <= i < part_end(s, from) ==> !is_date_mark(#[trigger] s[i]),
        part_end(s, from) < s.len() ==> is_date_mark(s[part_end(s, from)]),
    decreases s.len() - from,
{
    if from < s.len() && !is_date_mark(s[from]) {
        part_end_is_next(s, from + 1);
    }
}

/// The parts of a date, without the empty one that a mark at the end leaves.
pub open spec fn typed_date_parts(s: Seq<char>) -> Seq<Seq<char>> {
    let parts = date_parts(s, 0);
    if parts.len() > 1 && parts.last().len() == 0 {
        parts.drop_last()
    } else {
        parts
    }
}

pub open spec fn is_year_part(s: Seq<char>) -> bool {
    s.len() == 4 && all_digits(s)
}

pub open spec fn is_small_part(s: Seq<char>) -> bool {
    1 <= s.len() <= 2 && all_digits(s)
}

/// What stretch of the calendar some parts write.
pub open spec fn stretch_of(parts: Seq<Seq<char>>) -> Option<Stretch> {
    let read = Stretch {
        year: number(parts[0]) as int,
        month: if parts.len() > 1 {
            Some(number(parts[1]) as int)
        } else {
            None
        },
        day: if parts.len() > 2 {
            Some(number(parts[2]) as int)
        } else {
            None
        },
    };
    if 1 <= parts.len() <= 3 && is_year_part(parts[0]) && (parts.len() > 1 ==> is_small_part(
        parts[1],
    )) && (parts.len() > 2 ==> is_small_part(parts[2])) && read.is_real() {
        Some(read)
    } else {
        None
    }
}

/// What stretch of the calendar a text names, if it names one.
pub open spec fn date_of(s: Seq<char>) -> Option<Stretch> {
    stretch_of(typed_date_parts(s))
}

pub open spec fn viewed(p: Option<Period>) -> Option<Stretch> {
    match p {
        Some(period) => Some(period@),
        None => None,
    }
}

pub open spec fn if_real(s: Stretch) -> Option<Stretch> {
    if s.is_real() {
        Some(s)
    } else {
        None
    }
}

impl Period {
    #[verifier::type_invariant]
    spec fn is_real(self) -> bool {
        self@.is_real()
    }

    pub fn year(year: u16) -> (p: Option<Period>)
        ensures
            viewed(p) == if_real((Stretch { year: year as int, month: None, day: None })),
    {
        if 1970 <= year && year <= 9998 {
            Some(Period { year, month: None, day: None })
        } else {
            None
        }
    }

    pub fn month(year: u16, month: u8) -> (p: Option<Period>)
        ensures
            viewed(p) == if_real(
                (Stretch { year: year as int, month: Some(month as int), day: None }),
            ),
    {
        if 1970 <= year && year <= 9998 && 1 <= month && month <= 12 {
            Some(Period { year, month: Some(month), day: None })
        } else {
            None
        }
    }

    pub fn day(year: u16, month: u8, day: u8) -> (p: Option<Period>)
        ensures
            viewed(p) == if_real(
                (Stretch { year: year as int, month: Some(month as int), day: Some(day as int) }),
            ),
    {
        if 1970 <= year && year <= 9998 && 1 <= month && month <= 12 && 1 <= day && day <= days_in(
            year,
            month,
        ) {
            Some(Period { year, month: Some(month), day: Some(day) })
        } else {
            None
        }
    }

    /// ISO, and `/` for `-` because people type that too.
    ///
    /// A separator with nothing after it yet (`2026-`, `2026-08-`) is the
    /// date so far, so the results do not blink out between the month and
    /// the day. Anything actually wrong, `2026-13`, is not a date at all.
    pub fn parse(value: &str) -> (p: Option<Period>)
        ensures
            viewed(p) == date_of(value@),
    {
        let s = chars_of(value);
        let parts = typed_parts(&s);
        if parts.len() == 0 || parts.len() > 3 {
            return None;
        }
        let year: u16 = match small_number(parts[0].as_slice(), 4, 4) {
            Some(n) => n,
            None => {
                return None;
            },
        };
        if parts.len() == 1 {
            return Self::year(year);
        }
        let month: u16 = match small_number(parts[1].as_slice(), 1, 2) {
            Some(n) => n,
            None => {
                return None;
            },
        };
        proof {
            two_digits_stay_small(parts@[1]@);
        }
        if parts.len() == 2 {
            return Self::month(year, month as u8);
        }
        let day: u16 = match small_number(parts[2].as_slice(), 1, 2) {
            Some(n) => n,
            None => {
                return None;
            },
        };
        proof {
            two_digits_stay_small(parts@[2]@);
        }
        Self::day(year, month as u8, day as u8)
    }

    /// The first day inside the period.
    pub fn first_day(&self) -> (d: Day)
        ensures
            d.is_real(),
            d.year == self@.year,
            d.month == match self@.month {
                Some(month) => month,
                None => 1,
            },
            d.day == match self@.day {
                Some(day) => day,
                None => 1,
            },
            d.number() == self@.first(),
    {
        proof {
            use_type_invariant(&*self);
        }
        Day {
            year: self.year,
            month: match self.month {
                Some(month) => month,
                None => 1,
            },
            day: match self.day {
                Some(day) => day,
                None => 1,
            },
        }
    }

    /// The first day after it.
    pub fn day_after(&self) -> (d: Day)
        ensures
            d.is_real(),
            (d.year as int, d.month as int, d.day as int) == self@.next(),
            d.number() == self@.first() + self@.days(),
            d.year <= 9999,
    {
        proof {
            use_type_invariant(&*self);
            years_follow_on(self.year as int);
            reveal_with_fuel(days_before_month, 14);
        }
        let first = self.first_day();
        match (self.month, self.day) {
            (None, _) => Day { year: first.year + 1, month: 1, day: 1 },
            (Some(month), day) => {
                let last_of_month = match day {
                    Some(d) => d == days_in(first.year, month),
                    None => true,
                };
                if !last_of_month {
                    Day { year: first.year, month, day: first.day + 1 }
                } else if month == 12 {
                    Day { year: first.year + 1, month: 1, day: 1 }
                } else {
                    Day { year: first.year, month: month + 1, day: 1 }
                }
            },
        }
    }

    /// How it is written.
    pub fn to_text(&self) -> (out: String)
        ensures
            out@ == self@.text(),
    {
        let mut out = padded_chars(self.year as u64, 4);
        if let Some(month) = self.month {
            out.push('-');
            append_chars(&mut out, &padded_chars(month as u64, 2));
            if let Some(day) = self.day {
                out.push('-');
                append_chars(&mut out, &padded_chars(day as u64, 2));
            }
        }
        assert(out@ =~= self@.text());
        string_of(&out)
    }
}

proof fn two_digits_stay_small(s: Seq<char>)
    requires
        is_small_part(s),
    ensures
        number(s) <= 99,
{
    reveal_with_fuel(number, 3);
}

proof fn four_digits_stay_small(s: Seq<char>)
    requires
        s.len() <= 4,
        all_digits(s),
    ensures
        number(s) <= 9999,
{
    reveal_with_fuel(number, 5);
}

/// The number a part writes, if it is all digits and as many as it may have.
fn small_number(part: &[char], fewest: usize, most: usize) -> (r: Option<u16>)
    requires
        most <= 4,
    ensures
        match r {
            Some(n) => fewest <= part@.len() <= most && all_digits(part@) && n == number(part@),
            None => !(fewest <= part@.len() <= most && all_digits(part@)),
        },
{
    if part.len() < fewest || part.len() > most || !are_digits(part) {
        return None;
    }
    proof {
        four_digits_stay_small(part@);
    }
    match number_of(part) {
        Some(n) => Some(n as u16),
        None => None,
    }
}

pub open spec fn part_views(parts: Seq<Vec<char>>) -> Seq<Seq<char>> {
    parts.map_values(|part: Vec<char>| part@)
}

fn typed_parts(s: &[char]) -> (parts: Vec<Vec<char>>)
    ensures
        part_views(parts@) == typed_date_parts(s@),
{
    let mut parts: Vec<Vec<char>> = Vec::new();
    let mut from: usize = 0;
    let mut i: usize = 0;
    while i < s.len()
        invariant
            from <= i <= s@.len(),
            part_end(s@, from as int) == part_end(s@, i as int),
            part_views(parts@) + date_parts(s@, from as int) == date_parts(s@, 0),
        decreases s@.len() - i,
    {
        let c = s[i];
        if c == '-' || c == '/' {
            let ghost before = parts@;
            let mut part: Vec<char> = Vec::new();
            append_chars(&mut part, slice_subrange(s, from, i));
            parts.push(part);
            assert(part@ =~= s@.subrange(from as int, i as int));
            assert(part_views(parts@) =~= part_views(before).push(part@));
            assert(part_views(parts@) + date_parts(s@, i + 1) =~= part_views(before) + (
            seq![s@.subrange(from as int, i as int)] + date_parts(s@, i + 1)));
            from = i + 1;
        }
        i += 1;
    }
    let ghost before = parts@;
    let mut part: Vec<char> = Vec::new();
    append_chars(&mut part, slice_subrange(s, from, s.len()));
    parts.push(part);
    assert(part@ =~= s@.subrange(from as int, s@.len() as int));
    assert(part_views(parts@) =~= part_views(before) + seq![part@]);
    assert(part_views(parts@) == date_parts(s@, 0));
    if parts.len() > 1 && parts[parts.len() - 1].len() == 0 {
        let ghost all = parts@;
        parts.pop();
        assert(part_views(parts@) =~= part_views(all).drop_last());
    }
    parts
}

// ---------------------------------------------------------------------
// What a period's text promises
// ---------------------------------------------------------------------
proof fn no_mark_before(s: Seq<char>, from: int, end: int)
    requires
        0 <= from <= end <= s.len(),
        forall|i: int| from <= i < end ==> !is_date_mark(#[trigger] s[i]),
        end < s.len() ==> is_date_mark(s[end]),
    ensures
        part_end(s, from) == end,
    decreases end - from,
{
    if from < end {
        no_mark_before(s, from + 1, end);
    }
}

/// A period reads back from its own text as itself.
pub proof fn period_text_reads_back(p: Stretch)
    requires
        p.is_real(),
    ensures
        date_of(p.text()) == Some(p),
{
    let s = p.text();
    let year = padded(p.year as nat, 4);
    reveal_with_fuel(power_of_ten, 5);
    padded_reads_back(p.year as nat, 4);
    assert(forall|i: int| 0 <= i < 4 ==> !is_date_mark(#[trigger] year[i]));
    match (p.month, p.day) {
        (None, _) => {
            no_mark_before(s, 0, 4);
            assert(s.subrange(0, 4) =~= year);
            assert(date_parts(s, 0) =~= seq![year]);
        },
        (Some(month), None) => {
            let m = padded(month as nat, 2);
            padded_reads_back(month as nat, 2);
            assert forall|i: int| 0 <= i < 4 implies !is_date_mark(#[trigger] s[i]) by {
                assert(s[i] == year[i]);
            }
            assert forall|i: int| 5 <= i < 7 implies !is_date_mark(#[trigger] s[i]) by {
                assert(s[i] == m[i - 5]);
            }
            no_mark_before(s, 0, 4);
            no_mark_before(s, 5, 7);
            assert(s.subrange(0, 4) =~= year);
            assert(s.subrange(5, 7) =~= m);
            assert(date_parts(s, 5) =~= seq![m]);
            assert(date_parts(s, 0) =~= seq![year, m]);
        },
        (Some(month), Some(day)) => {
            let m = padded(month as nat, 2);
            let d = padded(day as nat, 2);
            padded_reads_back(month as nat, 2);
            padded_reads_back(day as nat, 2);
            assert forall|i: int| 0 <= i < 4 implies !is_date_mark(#[trigger] s[i]) by {
                assert(s[i] == year[i]);
            }
            assert forall|i: int| 5 <= i < 7 implies !is_date_mark(#[trigger] s[i]) by {
                assert(s[i] == m[i - 5]);
            }
            assert forall|i: int| 8 <= i < 10 implies !is_date_mark(#[trigger] s[i]) by {
                assert(s[i] == d[i - 8]);
            }
            no_mark_before(s, 0, 4);
            no_mark_before(s, 5, 7);
            no_mark_before(s, 8, 10);
            assert(s.subrange(0, 4) =~= year);
            assert(s.subrange(5, 7) =~= m);
            assert(s.subrange(8, 10) =~= d);
            assert(date_parts(s, 8) =~= seq![d]);
            assert(date_parts(s, 5) =~= seq![m, d]);
            assert(date_parts(s, 0) =~= seq![year, m, d]);
        },
    }
}

// ---------------------------------------------------------------------
// Laws
// ---------------------------------------------------------------------
/// Days are counted from the first of January 1970, every fourth year has one
/// more but for the centuries that are no multiple of four hundred, and four
/// hundred years are always as long.
pub proof fn the_calendar_is_the_one_in_use(year: int, month: int, day: int)
    requires
        1 <= month <= 12,
    ensures
        day_number(1970, 1, 1) == 0,
        year % 4 != 0 ==> month_length(year, 2) == 28,
        year % 4 == 0 && year % 100 != 0 ==> month_length(year, 2) == 29,
        year % 100 == 0 && year % 400 != 0 ==> month_length(year, 2) == 28,
        year % 400 == 0 ==> month_length(year, 2) == 29,
        month == 4 || month == 6 || month == 9 || month == 11 ==> month_length(year, month) == 30,
        month != 2 && month != 4 && month != 6 && month != 9 && month != 11 ==> month_length(
            year,
            month,
        ) == 31,
        day_number(year, month, day + 1) == day_number(year, month, day) + 1,
        day_number(year + 400, month, day) == day_number(year, month, day) + 146_097,
{
    assert(leap_days_through(1969) == 477);
    assert(days_before_year(1970) == 0);
    assert(days_before_month(1970, 1) == 0);
    let y = year - 1;
    assert((y + 400) / 4 == y / 4 + 100);
    assert((y + 400) / 100 == y / 100 + 4);
    assert((y + 400) / 400 == y / 400 + 1);
    assert(days_before_year(year + 400) == days_before_year(year) + 146_097);
    months_repeat(year, month);
    if year % 100 == 0 {
        assert(year % 4 == 0);
    }
}

proof fn leap_years_repeat(year: int)
    ensures
        is_leap(year + 400) == is_leap(year),
{
    assert((year + 400) % 4 == year % 4);
    assert((year + 400) % 100 == year % 100);
    assert((year + 400) % 400 == year % 400);
}

proof fn months_repeat(year: int, month: int)
    requires
        1 <= month <= 12,
    ensures
        days_before_month(year + 400, month) == days_before_month(year, month),
    decreases month,
{
    leap_years_repeat(year);
    if month > 1 {
        months_repeat(year, month - 1);
        assert(month_length(year + 400, month - 1) == month_length(year, month - 1));
    }
}

pub open spec fn dashed(s: Seq<char>) -> Seq<char> {
    s.map_values(
        |c: char|
            if c == '/' {
                '-'
            } else {
                c
            },
    )
}

proof fn parts_with_dashes(s: Seq<char>, from: int)
    requires
        0 <= from <= s.len(),
    ensures
        date_parts(dashed(s), from) == date_parts(s, from),
    decreases s.len() - from,
{
    let t = dashed(s);
    part_end_is_next(s, from);
    ends_with_dashes(s, from);
    let end = part_end(s, from);
    let part = s.subrange(from, end);
    assert(t.subrange(from, end) =~= part) by {
        assert forall|i: int| from <= i < end implies t[i] == s[i] by {
            assert(!is_date_mark(s[i]));
        }
    }
    if end >= s.len() {
        assert(t.subrange(from, t.len() as int) =~= s.subrange(from, s.len() as int));
    } else {
        parts_with_dashes(s, end + 1);
    }
}

proof fn ends_with_dashes(s: Seq<char>, from: int)
    requires
        0 <= from <= s.len(),
    ensures
        part_end(dashed(s), from) == part_end(s, from),
    decreases s.len() - from,
{
    if from < s.len() {
        assert(is_date_mark(dashed(s)[from]) == is_date_mark(s[from]));
        if !is_date_mark(s[from]) {
            ends_with_dashes(s, from + 1);
        }
    }
}

/// A date is the same date whether it is written with dashes or with slashes.
pub proof fn a_slash_is_a_dash(s: Seq<char>)
    ensures
        date_of(dashed(s)) == date_of(s),
{
    parts_with_dashes(s, 0);
}

proof fn a_mark_at_the_end(s: Seq<char>, from: int, mark: char)
    requires
        0 <= from <= s.len(),
        mark == '-' || mark == '/',
    ensures
        date_parts(s.push(mark), from) == date_parts(s, from).push(Seq::empty()),
        date_parts(s, from).len() > 0,
    decreases s.len() - from,
{
    let t = s.push(mark);
    part_end_is_next(s, from);
    end_before_the_mark(s, from, mark);
    let end = part_end(s, from);
    assert(t.subrange(from, end) =~= s.subrange(from, end));
    if end >= s.len() {
        assert(end == s.len());
        assert(part_end(t, t.len() as int) == t.len());
        assert(t.subrange(t.len() as int, t.len() as int) =~= Seq::<char>::empty());
        assert(date_parts(t, end + 1) =~= seq![Seq::<char>::empty()]);
        assert(date_parts(t, from) =~= date_parts(s, from).push(Seq::empty()));
    } else {
        a_mark_at_the_end(s, end + 1, mark);
        assert(date_parts(t, from) =~= date_parts(s, from).push(Seq::empty()));
    }
}

proof fn end_before_the_mark(s: Seq<char>, from: int, mark: char)
    requires
        0 <= from <= s.len(),
        is_date_mark(mark),
    ensures
        part_end(s.push(mark), from) == part_end(s, from),
    decreases s.len() - from,
{
    if from < s.len() {
        assert(s.push(mark)[from] == s[from]);
        if !is_date_mark(s[from]) {
            end_before_the_mark(s, from + 1, mark);
        }
    } else {
        assert(s.push(mark)[from] == mark);
    }
}

/// A date with a mark behind it and nothing after that yet is the date so far.
pub proof fn a_date_under_way_is_the_date_so_far(s: Seq<char>, mark: char)
    requires
        mark == '-' || mark == '/',
        date_parts(s, 0).last().len() > 0,
    ensures
        date_of(s.push(mark)) == date_of(s),
{
    a_mark_at_the_end(s, 0, mark);
    let parts = date_parts(s, 0);
    assert(parts.push(Seq::empty()).drop_last() =~= parts);
}

} // verus!
