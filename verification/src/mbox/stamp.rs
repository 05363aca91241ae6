//! The time on a separator line.

use crate::search_query::calendar::{
    a_number_names_one_day, date_of_number, CalendarDate,
};
use crate::text::{
    append_chars, decimal, decimal_chars, decimal_reads_back, has_char, integer, integer_chars,
    is_digit, padded, padded_chars, padded_reads_back, put, string_of,
};
use vstd::prelude::*;

verus! {

pub const DAYS: [&'static str; 7] = ["Sun", "Mon", "Tue", "Wed", "Thu", "Fri", "Sat"];

pub const MONTHS: [&'static str; 12] = [
    "Jan",
    "Feb",
    "Mar",
    "Apr",
    "May",
    "Jun",
    "Jul",
    "Aug",
    "Sep",
    "Oct",
    "Nov",
    "Dec",
];

/// The date of a moment, in UTC.
pub open spec fn date_at(ms: int) -> CalendarDate {
    choose|date: CalendarDate| date.is_real() && date.number() == ms / 86_400_000
}

/// The time of day of a moment, in seconds.
pub open spec fn seconds_at(ms: int) -> int {
    (ms % 86_400_000) / 1000
}

/// A day of the month, with a space in front where it has one figure.
pub open spec fn day_text(day: int) -> Seq<char> {
    if day < 10 {
        seq![' '] + decimal(day as nat)
    } else {
        decimal(day as nat)
    }
}

/// A moment as mbox readers expect it: `Thu Jan  1 00:00:00 1970`.
pub open spec fn asctime(ms: int) -> Seq<char> {
    let date = date_at(ms);
    let t = seconds_at(ms);
    DAYS@[(ms / 86_400_000 + 4) % 7]@ + " "@ + MONTHS@[date.month - 1]@ + " "@ + day_text(
        date.day as int,
    ) + " "@ + padded((t / 3600) as nat, 2) + ":"@ + padded(((t % 3600) / 60) as nat, 2) + ":"@
        + padded((t % 60) as nat, 2) + " "@ + integer(date.year as int)
}

/// `n / d` and `n % d`, rounded towards the past.
fn divided(n: i64, d: i64) -> (r: (i64, i64))
    requires
        d > 1,
    ensures
        r.0 == n as int / d as int,
        r.1 == n as int % d as int,
        0 <= r.1 < d,
{
    let (q, m): (i64, i64) = if n >= 0 {
        (n / d, n % d)
    } else {
        let back: i64 = -(n + 1);
        let k: i64 = back / d;
        let left: i64 = back % d;
        proof {
            vstd::arithmetic::div_mod::lemma_fundamental_div_mod(back as int, d as int);
        }
        assert(n as int == d as int * (-(k as int) - 1) + (d as int - 1 - left as int))
            by (nonlinear_arith)
            requires
                back as int == d as int * k as int + left as int,
                back == -(n + 1),
        ;
        proof {
            vstd::arithmetic::div_mod::lemma_fundamental_div_mod_converse(
                n as int,
                d as int,
                -(k as int) - 1,
                d as int - 1 - left as int,
            );
        }
        (-k - 1, d - 1 - left)
    };
    (q, m)
}

/// `Thu Jan  1 00:00:00 1970`: the shape mbox readers expect on a separator,
/// in UTC by convention.
pub fn format_asctime(ms: i64) -> (out: String)
    ensures
        out@ == asctime(ms as int),
        !has_char(out@, '\n'),
{
    let (days, in_day) = divided(ms, 86_400_000);
    assert(-120_000_000_000 <= days <= 120_000_000_000);
    let t: u64 = (in_day / 1000) as u64;
    let date = date_of_number(days);
    proof {
        assert(date.is_real() && date.number() == ms as int / 86_400_000);
        a_number_names_one_day(date, date_at(ms as int));
    }
    let (_, weekday) = divided(days + 4, 7);
    let mut out: Vec<char> = Vec::new();
    put(&mut out, DAYS[weekday as usize]);
    put(&mut out, " ");
    put(&mut out, MONTHS[date.month as usize - 1]);
    put(&mut out, " ");
    if date.day < 10 {
        out.push(' ');
    }
    append_chars(&mut out, &decimal_chars(date.day as u64));
    let ghost front = out@;
    assert(front =~= DAYS@[(ms as int / 86_400_000 + 4) % 7]@ + " "@ + MONTHS@[date.month - 1]@
        + " "@ + day_text(date.day as int));
    put(&mut out, " ");
    append_chars(&mut out, &padded_chars(t / 3600, 2));
    put(&mut out, ":");
    append_chars(&mut out, &padded_chars((t % 3600) / 60, 2));
    put(&mut out, ":");
    append_chars(&mut out, &padded_chars(t % 60, 2));
    put(&mut out, " ");
    append_chars(&mut out, &integer_chars(date.year));
    proof {
        let (h, m, sec) = (padded((t / 3600) as nat, 2), padded(((t % 3600) / 60) as nat, 2), padded(
            (t % 60) as nat,
            2,
        ));
        names_are_one_line(weekday as int, date.month as int);
        no_line_feed_in_numbers(date.day as nat, date.year as int);
        no_line_feed_in_numbers((t / 3600) as nat, 0);
        no_line_feed_in_numbers(((t % 3600) / 60) as nat, 0);
        no_line_feed_in_numbers((t % 60) as nat, 0);
        let day = day_text(date.day as int);
        if date.day < 10 {
            no_line_feed_in_either(seq![' '], decimal(date.day as nat));
        }
        let s1 = DAYS@[weekday as int]@ + " "@;
        let s2 = s1 + MONTHS@[date.month - 1]@ + " "@ + day + " "@;
        no_line_feed_in_either(DAYS@[weekday as int]@, " "@);
        no_line_feed_in_either(s1, MONTHS@[date.month - 1]@);
        no_line_feed_in_either(s1 + MONTHS@[date.month - 1]@, " "@);
        no_line_feed_in_either(s1 + MONTHS@[date.month - 1]@ + " "@, day);
        no_line_feed_in_either(s1 + MONTHS@[date.month - 1]@ + " "@ + day, " "@);
        let s3 = s2 + h + ":"@ + m + ":"@;
        no_line_feed_in_either(s2, h);
        no_line_feed_in_either(s2 + h, ":"@);
        no_line_feed_in_either(s2 + h + ":"@, m);
        no_line_feed_in_either(s2 + h + ":"@ + m, ":"@);
        no_line_feed_in_either(s3, sec);
        no_line_feed_in_either(s3 + sec, " "@);
        no_line_feed_in_either(s3 + sec + " "@, integer(date.year as int));
        assert(out@ =~= s3 + sec + " "@ + integer(date.year as int));
    }
    string_of(&out)
}

proof fn no_line_feed_in_either(a: Seq<char>, b: Seq<char>)
    requires
        !has_char(a, '\n'),
        !has_char(b, '\n'),
    ensures
        !has_char(a + b, '\n'),
{
    assert forall|i: int| 0 <= i < (a + b).len() implies (a + b)[i] != '\n' by {
        if i < a.len() {
            assert((a + b)[i] == a[i]);
        } else {
            assert((a + b)[i] == b[i - a.len()]);
        }
    }
}

proof fn no_line_feed_in_numbers(n: nat, year: int)
    ensures
        !has_char(padded(n, 2), '\n'),
        !has_char(decimal(n), '\n'),
        !has_char(integer(year), '\n'),
{
    padded_reads_back(n, 2);
    decimal_reads_back(n);
    assert forall|i: int| 0 <= i < padded(n, 2).len() implies padded(n, 2)[i] != '\n' by {
        assert(is_digit(padded(n, 2)[i]));
    }
    assert forall|i: int| 0 <= i < decimal(n).len() implies decimal(n)[i] != '\n' by {
        assert(is_digit(decimal(n)[i]));
    }
    let size = if year < 0 {
        (-year) as nat
    } else {
        year as nat
    };
    decimal_reads_back(size);
    assert forall|i: int| 0 <= i < decimal(size).len() implies decimal(size)[i] != '\n' by {
        assert(is_digit(decimal(size)[i]));
    }
    if year < 0 {
        no_line_feed_in_either(seq!['-'], decimal(size));
    }
}

proof fn names_are_one_line(weekday: int, month: int)
    requires
        0 <= weekday < 7,
        1 <= month <= 12,
    ensures
        !has_char(DAYS@[weekday]@, '\n'),
        !has_char(MONTHS@[month - 1]@, '\n'),
        !has_char(" "@, '\n'),
        !has_char(":"@, '\n'),
{
    reveal_strlit(" ");
    reveal_strlit(":");
    reveal_strlit("Sun");
    reveal_strlit("Mon");
    reveal_strlit("Tue");
    reveal_strlit("Wed");
    reveal_strlit("Thu");
    reveal_strlit("Fri");
    reveal_strlit("Sat");
    reveal_strlit("Jan");
    reveal_strlit("Feb");
    reveal_strlit("Mar");
    reveal_strlit("Apr");
    reveal_strlit("May");
    reveal_strlit("Jun");
    reveal_strlit("Jul");
    reveal_strlit("Aug");
    reveal_strlit("Sep");
    reveal_strlit("Oct");
    reveal_strlit("Nov");
    reveal_strlit("Dec");
}

/// The time written is the moment it stands for: its figures count up to it,
/// a week has seven days of which the first one there was is a Thursday, and
/// each day and month goes by its own name.
pub proof fn a_stamp_tells_its_moment(ms: i64, date: CalendarDate)
    requires
        date.is_real(),
        date.number() == ms as int / 86_400_000,
    ensures
        exists|h: nat, m: nat, s: nat|
            {
                &&& h < 24 && m < 60 && s < 60
                &&& ((date.number() * 24 + h) * 60 + m) * 60 + s == ms as int / 1000
                &&& #[trigger] stamped(date, h, m, s) == asctime(ms as int)
            },
{
    a_number_names_one_day(date, date_at(ms as int));
    let t = seconds_at(ms as int);
    let (h, m, s) = ((t / 3600) as nat, ((t % 3600) / 60) as nat, (t % 60) as nat);
    assert(((date.number() * 24 + h) * 60 + m) * 60 + s == ms as int / 1000);
    assert(DAYS@[(date.number() + 4) % 7]@ == weekday_name((date.number() + 4) % 7));
    assert(MONTHS@[date.month - 1]@ == month_name(date.month as int));
    assert(stamped(date, h, m, s) == asctime(ms as int));
}

/// A date and a time of day, as they are written.
pub open spec fn stamped(date: CalendarDate, h: nat, m: nat, s: nat) -> Seq<char> {
    weekday_name((date.number() + 4) % 7) + " "@ + month_name(date.month as int) + " "@ + (
    if date.day < 10 {
        seq![' '] + decimal(date.day as nat)
    } else {
        decimal(date.day as nat)
    }) + " "@ + padded(h, 2) + ":"@ + padded(m, 2) + ":"@ + padded(s, 2) + " "@ + integer(
        date.year as int,
    )
}

pub open spec fn weekday_name(n: int) -> Seq<char> {
    if n == 0 {
        "Sun"@
    } else if n == 1 {
        "Mon"@
    } else if n == 2 {
        "Tue"@
    } else if n == 3 {
        "Wed"@
    } else if n == 4 {
        "Thu"@
    } else if n == 5 {
        "Fri"@
    } else {
        "Sat"@
    }
}

pub open spec fn month_name(n: int) -> Seq<char> {
    if n == 1 {
        "Jan"@
    } else if n == 2 {
        "Feb"@
    } else if n == 3 {
        "Mar"@
    } else if n == 4 {
        "Apr"@
    } else if n == 5 {
        "May"@
    } else if n == 6 {
        "Jun"@
    } else if n == 7 {
        "Jul"@
    } else if n == 8 {
        "Aug"@
    } else if n == 9 {
        "Sep"@
    } else if n == 10 {
        "Oct"@
    } else if n == 11 {
        "Nov"@
    } else {
        "Dec"@
    }
}

} // verus!
