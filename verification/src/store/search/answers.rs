//! Which messages a condition picks out.
//!
//! A condition is text with values bound to it. Here each kind of condition
//! is read as SQLite reads it, over a message as the tables hold it, and what
//! it picks out is held against what was asked.

use super::sql::{predicate_text, predicate_values, BoundValue};
use crate::search_query::calendar::{
    day_number, is_day, later_days_have_larger_numbers, Stretch,
};
use crate::search_query::{Ask, State};
use crate::store::like::{
    an_escaped_name_means_the_name, escaped, escaped_from_the_front, is_wild, like,
};
use crate::store::views::{FLAGGED, SEEN};
use crate::text::{ascii_lower, ascii_lowercase, is_ascii_text, lower, replace_all};
use vstd::prelude::*;

verus! {

// ---------------------------------------------------------------------
// A message, and the reader's clock
// ---------------------------------------------------------------------
/// Somebody a message is addressed to.
pub struct Addressee {
    pub role: Seq<char>,
    pub addr: Seq<char>,
    pub display: Seq<char>,
}

/// A folder a message is in.
pub struct Spot {
    pub role: Seq<char>,
    pub path: Seq<char>,
}

/// A message, with what the other tables hold of it. What is missing there is
/// empty here, or nought.
pub struct Row {
    pub from_addr: Seq<char>,
    pub from_display: Seq<char>,
    pub addressees: Seq<Addressee>,
    pub spots: Seq<Spot>,
    pub tags: Seq<Seq<char>>,
    pub files: Seq<Seq<char>>,
    pub has_attachments: int,
    pub flags: u64,
    pub snoozed_until_ms: int,
    pub date_ms: int,
}

/// What the time is, and when each day begins where the reader is, by the
/// number of the day.
pub struct Clock {
    pub now_ms: int,
    pub midnight: spec_fn(int) -> int,
}

impl Clock {
    /// Whether each day begins after the one before it.
    pub open spec fn runs(self) -> bool {
        forall|a: int, b: int| a < b ==> #[trigger] (self.midnight)(a) < #[trigger] (self.midnight)(
            b,
        )
    }
}

// ---------------------------------------------------------------------
// Conditions
// ---------------------------------------------------------------------
/// What a column goes through before it is compared.
pub enum Through {
    Nothing,
    Lower,
    PetrelLower,
}

/// A condition on a message, as SQL has it.
pub enum Test {
    Always,
    From(Through),
    Recipient(Seq<char>, Through, bool),
    Placed(Through),
    PlacedNow(Through),
    Tagged(Through, bool),
    Attached(Through, bool),
    HasAttachments,
    NotSeen,
    Seen,
    Flagged,
    SnoozedNow,
    DateFrom,
    DateBefore,
    DateWithin,
}

pub open spec fn function(through: Through) -> Seq<char> {
    match through {
        Through::Nothing => ""@,
        Through::Lower => "lower"@,
        Through::PetrelLower => "petrel_lower"@,
    }
}

/// What SQLite makes of a text: its own `lower` folds ASCII only.
pub open spec fn made(through: Through, s: Seq<char>) -> Seq<char> {
    match through {
        Through::Nothing => s,
        Through::Lower => ascii_lowercase(s),
        Through::PetrelLower => lower(s),
    }
}

/// How a condition is written.
pub open spec fn sql(test: Test) -> Seq<char> {
    match test {
        Test::Always => "1"@,
        Test::From(through) => replace_all(
            "({lower}(coalesce(m.from_addr,'')) LIKE ? ESCAPE '\\'
                      OR {lower}(coalesce(m.from_display,'')) LIKE ? ESCAPE '\\')"@,
            "{lower}"@,
            function(through),
        ),
        Test::Recipient(role, through, walked) => replace_all(
            if walked {
                "m.id IN (SELECT a.message_id FROM message_addresses a WHERE {holds})"@
            } else {
                "EXISTS (SELECT 1 FROM message_addresses a
                                 WHERE a.message_id = m.id AND {holds})"@
            },
            "{holds}"@,
            replace_all(
                replace_all(
                    "a.role = '{role}'
                     AND (a.addr_norm LIKE ? ESCAPE '\\'
                          OR {lower}(coalesce(a.display,'')) LIKE ? ESCAPE '\\')"@,
                    "{role}"@,
                    role,
                ),
                "{lower}"@,
                function(through),
            ),
        ),
        Test::Placed(through) => replace_all(
            "EXISTS (SELECT 1 FROM placements p JOIN folders f ON f.id = p.folder_id
                             WHERE p.message_id = m.id AND {holds})"@,
            "{holds}"@,
            replace_all(
                "(f.role = ?
                      OR {lower}(f.path) = ?
                      OR {lower}(f.path) LIKE '%/' || ? ESCAPE '\\'
                      OR {lower}(f.path) LIKE '%.' || ? ESCAPE '\\')"@,
                "{lower}"@,
                function(through),
            ),
        ),
        Test::PlacedNow(through) => replace_all(
            "({placed} AND coalesce(m.snoozed_until_ms, 0)
                                       <= (strftime('%s','now') * 1000))"@,
            "{placed}"@,
            replace_all(
                "EXISTS (SELECT 1 FROM placements p JOIN folders f ON f.id = p.folder_id
                             WHERE p.message_id = m.id AND {holds})"@,
                "{holds}"@,
                replace_all(
                    "(f.role = ?
                      OR {lower}(f.path) = ?
                      OR {lower}(f.path) LIKE '%/' || ? ESCAPE '\\'
                      OR {lower}(f.path) LIKE '%.' || ? ESCAPE '\\')"@,
                    "{lower}"@,
                    function(through),
                ),
            ),
        ),
        Test::Tagged(through, walked) => replace_all(
            if walked {
                "m.id IN (SELECT mt.message_id FROM message_tags mt
                                  JOIN tags tg ON tg.id = mt.tag_id WHERE {holds})"@
            } else {
                "EXISTS (SELECT 1 FROM message_tags mt JOIN tags tg ON tg.id = mt.tag_id
                                 WHERE mt.message_id = m.id AND {holds})"@
            },
            "{holds}"@,
            replace_all("{lower}(tg.name) = ?"@, "{lower}"@, function(through)),
        ),
        Test::Attached(through, walked) => replace_all(
            if walked {
                "m.id IN (SELECT a.message_id FROM attachments a WHERE {holds})"@
            } else {
                "EXISTS (SELECT 1 FROM attachments a
                                 WHERE a.message_id = m.id AND {holds})"@
            },
            "{holds}"@,
            replace_all(
                "{lower}(coalesce(a.filename,'')) LIKE ? ESCAPE '\\'"@,
                "{lower}"@,
                function(through),
            ),
        ),
        Test::HasAttachments => "m.has_attachments = 1"@,
        Test::NotSeen => "m.flags & 1 = 0"@,
        Test::Seen => "m.flags & 1 != 0"@,
        Test::Flagged => "m.flags & 4 != 0"@,
        Test::SnoozedNow => "coalesce(m.snoozed_until_ms, 0) > (strftime('%s','now') * 1000)"@,
        Test::DateFrom => "m.date_ms >= ?"@,
        Test::DateBefore => "m.date_ms < ?"@,
        Test::DateWithin => "(m.date_ms >= ? AND m.date_ms < ?)"@,
    }
}

/// A bound value, where a text is compared with it.
pub open spec fn as_text(value: BoundValue) -> Seq<char> {
    value->Text_0
}

/// A bound value, where a time is compared with it.
pub open spec fn as_time(value: BoundValue, clock: Clock) -> int {
    match value {
        BoundValue::LocalMidnight(year, month, day) => (clock.midnight)(
            day_number(year, month, day),
        ),
        BoundValue::Int(n) => n,
        BoundValue::Text(_) => arbitrary(),
    }
}

/// Whether a folder meets the condition on folders, with four values bound.
pub open spec fn spot_meets(spot: Spot, through: Through, values: Seq<BoundValue>) -> bool {
    let path = made(through, spot.path);
    ||| spot.role == as_text(values[0])
    ||| path == as_text(values[1])
    ||| like(seq!['%', '/'] + as_text(values[2]), path)
    ||| like(seq!['%', '.'] + as_text(values[3]), path)
}

/// Whether a message meets a condition, with these values bound to it.
pub open spec fn meets(test: Test, values: Seq<BoundValue>, row: Row, clock: Clock) -> bool {
    match test {
        Test::Always => true,
        Test::From(through) => {
            ||| like(as_text(values[0]), made(through, row.from_addr))
            ||| like(as_text(values[1]), made(through, row.from_display))
        },
        Test::Recipient(role, through, _) => exists|i: int|
            0 <= i < row.addressees.len() && {
                let a = #[trigger] row.addressees[i];
                a.role == role && (like(as_text(values[0]), a.addr) || like(
                    as_text(values[1]),
                    made(through, a.display),
                ))
            },
        Test::Placed(through) => exists|i: int|
            0 <= i < row.spots.len() && spot_meets(#[trigger] row.spots[i], through, values),
        Test::PlacedNow(through) => row.snoozed_until_ms <= clock.now_ms && exists|i: int|
            0 <= i < row.spots.len() && spot_meets(#[trigger] row.spots[i], through, values),
        Test::Tagged(through, _) => exists|i: int|
            0 <= i < row.tags.len() && made(through, #[trigger] row.tags[i]) == as_text(values[0]),
        Test::Attached(through, _) => exists|i: int|
            0 <= i < row.files.len() && like(
                as_text(values[0]),
                made(through, #[trigger] row.files[i]),
            ),
        Test::HasAttachments => row.has_attachments == 1,
        Test::NotSeen => row.flags & 1 == 0,
        Test::Seen => row.flags & 1 != 0,
        Test::Flagged => row.flags & 4 != 0,
        Test::SnoozedNow => row.snoozed_until_ms > clock.now_ms,
        Test::DateFrom => row.date_ms >= as_time(values[0], clock),
        Test::DateBefore => row.date_ms < as_time(values[0], clock),
        Test::DateWithin => as_time(values[0], clock) <= row.date_ms < as_time(values[1], clock),
    }
}

// ---------------------------------------------------------------------
// Dates
// ---------------------------------------------------------------------
/// Whether a day is one of those a period names.
pub open spec fn covers(period: Stretch, year: int, month: int, day: int) -> bool {
    &&& is_day(year, month, day)
    &&& year == period.year
    &&& period.month matches Some(m) ==> month == m
    &&& period.day matches Some(d) ==> day == d
}

/// Whether one day comes before another.
pub open spec fn is_earlier(a: (int, int, int), b: (int, int, int)) -> bool {
    a.0 < b.0 || (a.0 == b.0 && (a.1 < b.1 || (a.1 == b.1 && a.2 < b.2)))
}

/// Whether a message was sent on a day, by the reader's clock.
pub open spec fn is_sent_on(row: Row, clock: Clock, year: int, month: int, day: int) -> bool {
    let n = day_number(year, month, day);
    is_day(year, month, day) && (clock.midnight)(n) <= row.date_ms < (clock.midnight)(n + 1)
}

proof fn days_in_order(a: (int, int, int), b: (int, int, int))
    requires
        is_day(a.0, a.1, a.2),
        is_day(b.0, b.1, b.2),
    ensures
        is_earlier(a, b) == (day_number(a.0, a.1, a.2) < day_number(b.0, b.1, b.2)),
{
    if is_earlier(a, b) {
        later_days_have_larger_numbers(a.0, a.1, a.2, b.0, b.1, b.2);
    } else if is_earlier(b, a) {
        later_days_have_larger_numbers(b.0, b.1, b.2, a.0, a.1, a.2);
    }
}

/// The days a period names are those from its first day up to the day after.
proof fn a_period_is_its_days(period: Stretch, x: (int, int, int))
    requires
        period.is_real(),
        is_day(x.0, x.1, x.2),
    ensures
        ({
            let first = (
                period.year,
                match period.month {
                    Some(month) => month,
                    None => 1,
                },
                match period.day {
                    Some(day) => day,
                    None => 1,
                },
            );
            let next = period.next();
            &&& covers(period, first.0, first.1, first.2)
            &&& is_day(next.0, next.1, next.2)
            &&& covers(period, x.0, x.1, x.2) ==> !is_earlier(x, first)
            &&& covers(period, x.0, x.1, x.2) == (!is_earlier(x, first) && is_earlier(x, next))
        }),
{
}

/// `after:` takes in the whole of the period it names and all that comes
/// later, `before:` all that comes earlier, and `date:` the period alone. So
/// a message is after a period or before it, never both and never neither,
/// and one sent on any day of it is after it and not before it.
pub proof fn a_date_picks_out_its_days(
    period: Stretch,
    row: Row,
    clock: Clock,
    year: int,
    month: int,
    day: int,
    snoozed: bool,
    walking: bool,
)
    requires
        period.is_real(),
        clock.runs(),
        is_sent_on(row, clock, year, month, day),
    ensures
        predicate_text(Ask::After(period), snoozed, walking) == sql(Test::DateFrom),
        predicate_text(Ask::Before(period), snoozed, walking) == sql(Test::DateBefore),
        predicate_text(Ask::On(period), snoozed, walking) == sql(Test::DateWithin),
        ({
            let after = meets(Test::DateFrom, predicate_values(Ask::After(period)), row, clock);
            let before = meets(Test::DateBefore, predicate_values(Ask::Before(period)), row, clock);
            let on = meets(Test::DateWithin, predicate_values(Ask::On(period)), row, clock);
            &&& after == exists|y: int, m: int, d: int| #[trigger]
                covers(period, y, m, d) && !is_earlier((year, month, day), (y, m, d))
            &&& before == forall|y: int, m: int, d: int| #[trigger]
                covers(period, y, m, d) ==> is_earlier((year, month, day), (y, m, d))
            &&& on == covers(period, year, month, day)
            &&& before == !after
            &&& covers(period, year, month, day) ==> after && on && !before
        }),
{
    let x = (year, month, day);
    let first = (
        period.year,
        match period.month {
            Some(month) => month,
            None => 1,
        },
        match period.day {
            Some(day) => day,
            None => 1,
        },
    );
    let next = period.next();
    a_period_is_its_days(period, x);
    days_in_order(x, first);
    days_in_order(x, next);
    let n = day_number(year, month, day);
    let a = day_number(first.0, first.1, first.2);
    let b = day_number(next.0, next.1, next.2);
    let midnight = clock.midnight;
    assert(n < a ==> midnight(n + 1) <= midnight(a));
    assert(n >= a ==> midnight(a) <= midnight(n));
    assert(n < b ==> midnight(n + 1) <= midnight(b));
    assert(n >= b ==> midnight(b) <= midnight(n));
    let after = meets(Test::DateFrom, predicate_values(Ask::After(period)), row, clock);
    let before = meets(Test::DateBefore, predicate_values(Ask::Before(period)), row, clock);
    assert(after == !is_earlier(x, first));
    assert(before == is_earlier(x, first));
    if after {
        assert(covers(period, first.0, first.1, first.2));
    }
    assert forall|y: int, m: int, d: int| is_earlier(x, first) && #[trigger]
        covers(period, y, m, d) implies is_earlier(x, (y, m, d)) by {
        a_period_is_its_days(period, (y, m, d));
    }
}

// ---------------------------------------------------------------------
// Patterns
// ---------------------------------------------------------------------
/// Whether one text stands somewhere in another.
pub open spec fn is_in(part: Seq<char>, s: Seq<char>) -> bool {
    exists|i: int|
        0 <= i <= s.len() - part.len() && #[trigger] s.subrange(i, i + part.len()) == part
}

/// Whether a text holds what somebody typed, whatever the case. Where only
/// ASCII was typed, only ASCII letters match in either case.
pub open spec fn holds(s: Seq<char>, typed: Seq<char>) -> bool {
    if is_ascii_text(typed) {
        is_in(ascii_lowercase(typed), ascii_lowercase(s))
    } else {
        is_in(ascii_lowercase(lower(typed)), ascii_lowercase(lower(s)))
    }
}

/// Whether a text ends in a name that stands behind a mark.
pub open spec fn ends_behind(s: Seq<char>, mark: char, name: Seq<char>) -> bool {
    exists|i: int|
        0 <= i < s.len() && #[trigger] s[i] == mark && ascii_lowercase(s.skip(i + 1))
            == ascii_lowercase(name)
}

/// `%` stands for any run of characters.
proof fn any_run_matches(pattern: Seq<char>, s: Seq<char>)
    requires
        pattern.len() > 0,
        pattern[0] == '%',
    ensures
        like(pattern, s) == exists|n: int|
            0 <= n <= s.len() && like(pattern.skip(1), #[trigger] s.skip(n)),
{
}

/// An escaped name with `%` behind it matches what begins with that name.
proof fn a_pattern_of_a_beginning(name: Seq<char>, s: Seq<char>)
    ensures
        like(escaped(name) + seq!['%'], s) == (name.len() <= s.len() && ascii_lowercase(
            s.take(name.len() as int),
        ) == ascii_lowercase(name)),
    decreases name.len(),
{
    let pattern = escaped(name) + seq!['%'];
    let low = ascii_lowercase(name);
    if name.len() == 0 {
        assert(pattern =~= seq!['%']);
        assert(pattern.skip(1) =~= Seq::<char>::empty());
        assert(s.skip(s.len() as int).len() == 0);
        assert(like(pattern.skip(1), s.skip(s.len() as int)));
        any_run_matches(pattern, s);
        assert(ascii_lowercase(s.take(0)) =~= low);
    } else {
        escaped_from_the_front(name);
        let rest = escaped(name.skip(1)) + seq!['%'];
        if is_wild(name[0]) {
            assert(pattern.skip(2) =~= rest);
            assert(pattern[0] == '\\' && pattern[1] == name[0]);
        } else {
            assert(pattern.skip(1) =~= rest);
            assert(pattern[0] == name[0]);
        }
        if s.len() > 0 {
            a_pattern_of_a_beginning(name.skip(1), s.skip(1));
            if name.len() <= s.len() {
                let front = s.take(name.len() as int);
                assert(s.skip(1).take(name.len() - 1) =~= front.skip(1));
                let other = ascii_lowercase(front);
                assert(ascii_lowercase(name.skip(1)) =~= low.skip(1));
                assert(ascii_lowercase(front.skip(1)) =~= other.skip(1));
                if low.skip(1) == other.skip(1) && low[0] == other[0] {
                    assert(low =~= seq![low[0]] + low.skip(1));
                    assert(other =~= seq![other[0]] + other.skip(1));
                }
                if low == other {
                    assert(low[0] == other[0]);
                }
            }
        }
    }
}

/// An escaped name with `%` on both sides matches what holds that name.
pub proof fn a_pattern_of_what_holds(name: Seq<char>, s: Seq<char>)
    ensures
        like("%"@ + escaped(name) + "%"@, s) == is_in(ascii_lowercase(name), ascii_lowercase(s)),
{
    reveal_strlit("%");
    let pattern = "%"@ + escaped(name) + "%"@;
    let low = ascii_lowercase(name);
    let all = ascii_lowercase(s);
    assert(pattern[0] == '%');
    assert(pattern.skip(1) =~= escaped(name) + seq!['%']);
    any_run_matches(pattern, s);
    if like(pattern, s) {
        let n = choose|n: int| 0 <= n <= s.len() && like(pattern.skip(1), #[trigger] s.skip(n));
        a_pattern_of_a_beginning(name, s.skip(n));
        assert(all.subrange(n, n + low.len()) =~= ascii_lowercase(
            s.skip(n).take(name.len() as int),
        ));
    }
    if is_in(low, all) {
        let i = choose|i: int|
            0 <= i <= all.len() - low.len() && #[trigger] all.subrange(i, i + low.len()) == low;
        a_pattern_of_a_beginning(name, s.skip(i));
        assert(all.subrange(i, i + low.len()) =~= ascii_lowercase(
            s.skip(i).take(name.len() as int),
        ));
        assert(like(pattern.skip(1), s.skip(i)));
    }
}

/// An escaped name behind `%` and a mark matches what ends in the mark and
/// that name.
pub proof fn a_pattern_of_an_end(mark: char, name: Seq<char>, s: Seq<char>)
    requires
        mark == '/' || mark == '.',
    ensures
        like(seq!['%', mark] + escaped(name), s) == ends_behind(s, mark, name),
{
    let pattern = seq!['%', mark] + escaped(name);
    let rest = pattern.skip(1);
    assert(pattern[0] == '%');
    assert(rest[0] == mark);
    assert(rest.skip(1) =~= escaped(name));
    any_run_matches(pattern, s);
    assert forall|n: int| 0 <= n <= s.len() implies like(rest, #[trigger] s.skip(n)) == (n < s.len()
        && s[n] == mark && ascii_lowercase(s.skip(n + 1)) == ascii_lowercase(name)) by {
        let t = s.skip(n);
        if n < s.len() {
            assert(t[0] == s[n]);
            assert(t.skip(1) =~= s.skip(n + 1));
            an_escaped_name_means_the_name(name, t.skip(1));
            assert((ascii_lower(mark) == ascii_lower(s[n])) == (s[n] == mark));
        }
    }
    if like(pattern, s) {
        let n = choose|n: int| 0 <= n <= s.len() && like(rest, #[trigger] s.skip(n));
        assert(s[n] == mark);
    }
    if ends_behind(s, mark, name) {
        let i = choose|i: int|
            0 <= i < s.len() && #[trigger] s[i] == mark && ascii_lowercase(s.skip(i + 1))
                == ascii_lowercase(name);
        assert(like(rest, s.skip(i)));
    }
}

// ---------------------------------------------------------------------
// Terms
// ---------------------------------------------------------------------
/// LIKE ignores the case of ASCII letters by itself.
pub open spec fn for_like(typed: Seq<char>) -> Through {
    if is_ascii_text(typed) {
        Through::Nothing
    } else {
        Through::PetrelLower
    }
}

pub open spec fn for_equals(typed: Seq<char>) -> Through {
    if is_ascii_text(typed) {
        Through::Lower
    } else {
        Through::PetrelLower
    }
}

proof fn a_text_holds_what_was_typed(typed: Seq<char>, s: Seq<char>)
    ensures
        like("%"@ + escaped(lower(typed)) + "%"@, made(for_like(typed), s)) == holds(s, typed),
{
    a_pattern_of_what_holds(lower(typed), made(for_like(typed), s));
    assert(ascii_lowercase(ascii_lowercase(typed)) =~= ascii_lowercase(typed));
}

/// `from:` asks for mail whose sender's address or name holds what was typed.
pub proof fn from_asks_for_its_sender(
    who: Seq<char>,
    row: Row,
    clock: Clock,
    snoozed: bool,
    walking: bool,
)
    ensures
        predicate_text(Ask::From(who), snoozed, walking) == sql(Test::From(for_like(who))),
        meets(Test::From(for_like(who)), predicate_values(Ask::From(who)), row, clock) == (holds(
            row.from_addr,
            who,
        ) || holds(row.from_display, who)),
{
    a_text_holds_what_was_typed(who, row.from_addr);
    a_text_holds_what_was_typed(who, row.from_display);
}

/// Whether a message is addressed, in a role, to somebody whose address or
/// name holds what was typed. Addresses are kept in lower case already.
pub open spec fn is_addressed(row: Row, role: Seq<char>, who: Seq<char>) -> bool {
    exists|i: int|
        0 <= i < row.addressees.len() && {
            let a = #[trigger] row.addressees[i];
            a.role == role && (is_in(ascii_lowercase(lower(who)), ascii_lowercase(a.addr)) || holds(
                a.display,
                who,
            ))
        }
}

/// `to:` asks of those the mail is sent to, and `cc:` of those it is copied
/// to, however the statement is put.
pub proof fn to_and_cc_ask_for_their_own(
    who: Seq<char>,
    row: Row,
    clock: Clock,
    snoozed: bool,
    walking: bool,
)
    ensures
        predicate_text(Ask::To(who), snoozed, walking) == sql(
            Test::Recipient("to"@, for_like(who), walking),
        ),
        predicate_text(Ask::Cc(who), snoozed, walking) == sql(
            Test::Recipient("cc"@, for_like(who), walking),
        ),
        meets(
            Test::Recipient("to"@, for_like(who), walking),
            predicate_values(Ask::To(who)),
            row,
            clock,
        ) == is_addressed(row, "to"@, who),
        meets(
            Test::Recipient("cc"@, for_like(who), walking),
            predicate_values(Ask::Cc(who)),
            row,
            clock,
        ) == is_addressed(row, "cc"@, who),
{
    assert forall|i: int| 0 <= i < row.addressees.len() implies like(
        "%"@ + escaped(lower(who)) + "%"@,
        (#[trigger] row.addressees[i]).addr,
    ) == is_in(ascii_lowercase(lower(who)), ascii_lowercase(row.addressees[i].addr)) && like(
        "%"@ + escaped(lower(who)) + "%"@,
        made(for_like(who), row.addressees[i].display),
    ) == holds(row.addressees[i].display, who) by {
        a_pattern_of_what_holds(lower(who), row.addressees[i].addr);
        a_text_holds_what_was_typed(who, row.addressees[i].display);
    }
}

/// Whether a folder goes by a name: by its role, by its whole path, or by the
/// end of its path behind a separator.
pub open spec fn goes_by(spot: Spot, name: Seq<char>) -> bool {
    let path = made(for_equals(name), spot.path);
    ||| spot.role == name
    ||| path == name
    ||| ends_behind(path, '/', name)
    ||| ends_behind(path, '.', name)
}

pub open spec fn is_in_folder(row: Row, name: Seq<char>) -> bool {
    exists|i: int| 0 <= i < row.spots.len() && goes_by(#[trigger] row.spots[i], name)
}

/// `in:` asks for mail in a folder that goes by the name. Snoozed mail is not
/// in the inbox until it comes back, unless snoozed mail is asked for.
pub proof fn in_asks_for_its_folder(
    name: Seq<char>,
    row: Row,
    clock: Clock,
    snoozed: bool,
    walking: bool,
)
    ensures
        ({
            let test = if name == "inbox"@ && !snoozed {
                Test::PlacedNow(for_equals(name))
            } else {
                Test::Placed(for_equals(name))
            };
            &&& predicate_text(Ask::In(name), snoozed, walking) == sql(test)
            &&& meets(test, predicate_values(Ask::In(name)), row, clock) == (is_in_folder(row, name)
                && (name == "inbox"@ && !snoozed ==> row.snoozed_until_ms <= clock.now_ms))
        }),
{
    let values = predicate_values(Ask::In(name));
    assert forall|i: int| 0 <= i < row.spots.len() implies spot_meets(
        #[trigger] row.spots[i],
        for_equals(name),
        values,
    ) == goes_by(row.spots[i], name) by {
        let path = made(for_equals(name), row.spots[i].path);
        a_pattern_of_an_end('/', name, path);
        a_pattern_of_an_end('.', name, path);
    }
    if is_in_folder(row, name) {
        let i = choose|i: int| 0 <= i < row.spots.len() && goes_by(#[trigger] row.spots[i], name);
        assert(spot_meets(row.spots[i], for_equals(name), values));
    }
}

/// `tag:` asks for mail with a tag of that name, whatever its case.
pub proof fn tag_asks_for_its_tag(
    name: Seq<char>,
    row: Row,
    clock: Clock,
    snoozed: bool,
    walking: bool,
)
    ensures
        predicate_text(Ask::Tag(name), snoozed, walking) == sql(
            Test::Tagged(for_equals(name), walking),
        ),
        meets(
            Test::Tagged(for_equals(name), walking),
            predicate_values(Ask::Tag(name)),
            row,
            clock,
        ) == exists|i: int|
            0 <= i < row.tags.len() && {
                let tag = #[trigger] row.tags[i];
                if is_ascii_text(name) {
                    ascii_lowercase(tag) == ascii_lowercase(name)
                } else {
                    lower(tag) == lower(name)
                }
            },
{
}

/// `filename:` asks for mail with a file whose name holds what was typed, and
/// `has:attachment` for mail that has any.
pub proof fn filename_asks_for_its_file(
    part: Seq<char>,
    row: Row,
    clock: Clock,
    snoozed: bool,
    walking: bool,
)
    ensures
        predicate_text(Ask::Filename(part), snoozed, walking) == sql(
            Test::Attached(for_like(part), walking),
        ),
        meets(
            Test::Attached(for_like(part), walking),
            predicate_values(Ask::Filename(part)),
            row,
            clock,
        ) == exists|i: int| 0 <= i < row.files.len() && holds(#[trigger] row.files[i], part),
        predicate_text(Ask::HasAttachment, snoozed, walking) == sql(Test::HasAttachments),
        meets(Test::HasAttachments, predicate_values(Ask::HasAttachment), row, clock) == (
        row.has_attachments == 1),
{
    assert forall|i: int| 0 <= i < row.files.len() implies like(
        "%"@ + escaped(lower(part)) + "%"@,
        made(for_like(part), #[trigger] row.files[i]),
    ) == holds(row.files[i], part) by {
        a_text_holds_what_was_typed(part, row.files[i]);
    }
}

/// Unread mail is what has not been seen, starred mail is what is flagged,
/// and snoozed mail is what comes back later than now.
pub proof fn a_state_is_what_its_flag_says(
    row: Row,
    clock: Clock,
    snoozed: bool,
    walking: bool,
)
    ensures
        predicate_text(Ask::Is(State::Unread), snoozed, walking) == sql(Test::NotSeen),
        predicate_text(Ask::Is(State::Read), snoozed, walking) == sql(Test::Seen),
        predicate_text(Ask::Is(State::Starred), snoozed, walking) == sql(Test::Flagged),
        predicate_text(Ask::Is(State::Snoozed), snoozed, walking) == sql(Test::SnoozedNow),
        forall|state: State| #[trigger] predicate_values(Ask::Is(state)) == Seq::<
            BoundValue,
        >::empty(),
        meets(Test::NotSeen, Seq::empty(), row, clock) == !meets(
            Test::Seen,
            Seq::empty(),
            row,
            clock,
        ),
        meets(Test::Seen, Seq::empty(), row, clock) == (row.flags & SEEN as u64 != 0),
        meets(Test::Flagged, Seq::empty(), row, clock) == (row.flags & FLAGGED as u64 != 0),
        meets(Test::SnoozedNow, Seq::empty(), row, clock) == (clock.now_ms < row.snoozed_until_ms),
{
}

} // verus!
