//! What holds of rules whatever they ask.

use super::{
    condition_holds, date_test, days, header_test, is_about_text, is_negated, planned, rule_matches,
    text_test, Actions, Condition, Envelope, Op, Rule,
};
use crate::actions::ActionKind;
use crate::search_query::calendar::{day_number, is_day};
use crate::text::{
    ascii_lowercase, decimal, decimal_reads_back, ends, first_char_is_found, has, is_digit, lower,
    occurs_at, starts, trim, trim_fixes,
};
use vstd::prelude::*;

verus! {

/// The opposite of a text question.
pub open spec fn opposite(op: Op) -> Op {
    match op {
        Op::Contains => Op::NotContains,
        Op::NotContains => Op::Contains,
        Op::Is => Op::IsNot,
        Op::IsNot => Op::Is,
        Op::StartsWith => Op::NotStartsWith,
        Op::NotStartsWith => Op::StartsWith,
        Op::EndsWith => Op::NotEndsWith,
        Op::NotEndsWith => Op::EndsWith,
        other => other,
    }
}

/// "Does not end with" means exactly "not (ends with)", and so for each of
/// the text questions, once there is something to ask for.
pub proof fn a_negation_is_the_opposite(hay: Seq<char>, op: Op, needle: Seq<char>)
    requires
        is_about_text(op),
        needle.len() > 0,
    ensures
        text_test(hay, opposite(op), needle) == !text_test(hay, op, needle),
{
}

/// The same of a header, however many copies of it a message has, and where
/// it has none.
pub proof fn a_negation_is_the_opposite_of_a_header(
    headers: Seq<(String, String)>,
    name: Seq<char>,
    op: Op,
    needle: Seq<char>,
)
    requires
        is_about_text(op),
        needle.len() > 0,
    ensures
        header_test(headers, name, opposite(op), needle) == !header_test(headers, name, op, needle),
{
    assert forall|i: int| 0 <= i < headers.len() implies text_test(
        lower((#[trigger] headers[i]).1@),
        opposite(op),
        needle,
    ) == !text_test(lower(headers[i].1@), op, needle) by {
        a_negation_is_the_opposite(lower(headers[i].1@), op, needle);
    }
    if is_negated(op) {
        if !header_test(headers, name, op, needle) {
            let i = choose|i: int|
                0 <= i < headers.len() && (#[trigger] headers[i]).0@ == name && !text_test(
                    lower(headers[i].1@),
                    op,
                    needle,
                );
            assert(headers[i].0@ == name);
        }
    } else {
        if header_test(headers, name, op, needle) {
            let i = choose|i: int|
                0 <= i < headers.len() && (#[trigger] headers[i]).0@ == name && text_test(
                    lower(headers[i].1@),
                    op,
                    needle,
                );
            assert(headers[i].0@ == name);
        }
    }
}

/// A question with nothing to ask for is never met by any text, whichever way
/// it is phrased.
pub proof fn an_empty_needle_matches_nothing(hay: Seq<char>, op: Op)
    ensures
        !text_test(hay, op, Seq::empty()),
{
}

/// A half-written condition matches nothing, whichever way it is phrased and
/// whatever it asks about: a header that is not there included.
pub proof fn a_half_written_condition_matches_nothing(c: Condition, e: Envelope)
    requires
        c.value@.len() == 0,
    ensures
        !condition_holds(c, e),
{
    assert(trim(c.value@) =~= Seq::empty());
}

/// So a rule matches nothing while any of its conditions is half written.
pub proof fn a_half_written_rule_matches_nothing(rule: Rule, i: int, e: Envelope)
    requires
        0 <= i < rule.conditions@.len(),
        rule.conditions@[i].value@.len() == 0,
    ensures
        !rule_matches(rule, e),
{
    a_half_written_condition_matches_nothing(rule.conditions@[i], e);
}

/// What is the needle starts and ends with it, what starts or ends with it
/// contains it, and a number's question asked of text never holds.
pub proof fn questions_of_text_agree(hay: Seq<char>, needle: Seq<char>)
    ensures
        text_test(hay, Op::Is, needle) ==> text_test(hay, Op::StartsWith, needle) && text_test(
            hay,
            Op::EndsWith,
            needle,
        ),
        text_test(hay, Op::StartsWith, needle) || text_test(hay, Op::EndsWith, needle)
            ==> text_test(hay, Op::Contains, needle),
        !text_test(hay, Op::Over, needle),
        !text_test(hay, Op::Under, needle),
        !text_test(hay, Op::Before, needle),
        !text_test(hay, Op::After, needle),
{
    let low = lower(needle);
    if hay == low {
        assert(occurs_at(hay, low, 0)) by {
            assert(hay.subrange(0, low.len() as int) =~= low);
        }
    }
    if starts(hay, low) {
        assert(occurs_at(hay, low, 0));
    }
    if ends(hay, low) {
        assert(occurs_at(hay, low, hay.len() - low.len()));
    }
}

/// A condition on a header asks any of its copies, its negation asks all of
/// them, and the two are opposites. Of a header that is not there the plain
/// question never holds and the negative one always does.
pub proof fn a_condition_on_a_header_asks_every_copy(
    c: Condition,
    negative: Condition,
    name: Seq<char>,
    e: Envelope,
)
    requires
        c.field@ == "header"@,
        negative.field@ == "header"@,
        c.header matches Some(typed) && ascii_lowercase(typed@) == name,
        negative.header matches Some(typed) && ascii_lowercase(typed@) == name,
        is_about_text(c.op),
        !is_negated(c.op),
        negative.op == opposite(c.op),
        negative.value@ == c.value@,
        c.value@.len() > 0,
    ensures
        condition_holds(c, e) <==> exists|i: int|
            0 <= i < e.headers@.len() && (#[trigger] e.headers@[i]).0@ == name && text_test(
                lower(e.headers@[i].1@),
                c.op,
                c.value@,
            ),
        condition_holds(negative, e) == !condition_holds(c, e),
        (forall|i: int| 0 <= i < e.headers@.len() ==> (#[trigger] e.headers@[i]).0@ != name)
            ==> !condition_holds(c, e) && condition_holds(negative, e),
{
    reveal_strlit("from");
    reveal_strlit("to");
    reveal_strlit("cc");
    reveal_strlit("subject");
    reveal_strlit("list_id");
    reveal_strlit("body");
    reveal_strlit("header");
    let field = c.field@;
    assert(field.len() == 6 && field[0] == 'h');
    a_negation_is_the_opposite_of_a_header(e.headers@, name, c.op, c.value@);
}

/// Case never matters to a needle.
pub proof fn the_case_of_a_needle_says_nothing(
    hay: Seq<char>,
    op: Op,
    one: Seq<char>,
    other: Seq<char>,
)
    requires
        lower(one) == lower(other),
        one.len() > 0,
        other.len() > 0,
    ensures
        text_test(hay, op, one) == text_test(hay, op, other),
{
}

/// A rule that is switched off, or asks nothing, matches no message.
pub proof fn an_idle_rule_matches_nothing(rule: Rule, e: Envelope)
    requires
        !rule.enabled || rule.conditions@.len() == 0,
    ensures
        !rule_matches(rule, e),
{
}

/// "Before" and "after" a day never both hold, and between them leave out
/// exactly that day.
pub proof fn before_and_after_part_the_calendar(date_ms: int, value: Seq<char>)
    ensures
        !(date_test(date_ms, Op::Before, value) && date_test(date_ms, Op::After, value)),
        days::day_start(value) matches Some(at) ==> (!date_test(date_ms, Op::Before, value)
            && !date_test(date_ms, Op::After, value) <==> at <= date_ms < at + 86_400_000),
{
}

/// Asking more matches less: a rule with conditions taken away matches
/// whatever it matched before.
pub proof fn asking_more_matches_less(rule: Rule, fewer: Rule, e: Envelope)
    requires
        fewer.enabled,
        fewer.conditions@.len() > 0,
        forall|i: int|
            0 <= i < fewer.conditions@.len() ==> rule.conditions@.contains(
                #[trigger] fewer.conditions@[i],
            ),
        rule_matches(rule, e),
    ensures
        rule_matches(fewer, e),
{
    assert forall|i: int| 0 <= i < fewer.conditions@.len() implies condition_holds(
        #[trigger] fewer.conditions@[i],
        e,
    ) by {
        let j = choose|j: int|
            0 <= j < rule.conditions@.len() && rule.conditions@[j] == fewer.conditions@[i];
        assert(condition_holds(rule.conditions@[j], e));
    }
}

/// A rule that moves a message never archives it as well, whatever else it
/// does, and what it announces changes nothing of what it does.
pub proof fn a_move_is_never_undone(a: Actions, announced: Actions)
    requires
        announced.move_to == a.move_to,
        announced.tag == a.tag,
        announced.mark_read == a.mark_read,
        announced.skip_inbox == a.skip_inbox,
    ensures
        a.move_to is Some ==> forall|i: int|
            0 <= i < planned(a).len() ==> (#[trigger] planned(a)[i]).0 != ActionKind::Archive,
        planned(announced) == planned(a),
{
}

// ---------------------------------------------------------------------
// What each condition asks
// ---------------------------------------------------------------------
proof fn fields_differ()
    ensures
        "from"@ != "to"@ && "from"@ != "cc"@ && "from"@ != "subject"@ && "from"@ != "list_id"@
            && "from"@ != "body"@ && "from"@ != "header"@ && "from"@ != "size"@ && "from"@
            != "date"@,
        "to"@ != "cc"@ && "to"@ != "subject"@ && "to"@ != "list_id"@ && "to"@ != "body"@ && "to"@
            != "header"@ && "to"@ != "size"@ && "to"@ != "date"@,
        "cc"@ != "subject"@ && "cc"@ != "list_id"@ && "cc"@ != "body"@ && "cc"@ != "header"@
            && "cc"@ != "size"@ && "cc"@ != "date"@,
        "subject"@ != "list_id"@ && "subject"@ != "body"@ && "subject"@ != "header"@ && "subject"@
            != "size"@ && "subject"@ != "date"@,
        "list_id"@ != "body"@ && "list_id"@ != "header"@ && "list_id"@ != "size"@ && "list_id"@
            != "date"@,
        "body"@ != "header"@ && "body"@ != "size"@ && "body"@ != "date"@,
        "header"@ != "size"@ && "header"@ != "date"@,
        "size"@ != "date"@,
{
    reveal_strlit("from");
    reveal_strlit("to");
    reveal_strlit("cc");
    reveal_strlit("subject");
    reveal_strlit("list_id");
    reveal_strlit("body");
    reveal_strlit("header");
    reveal_strlit("size");
    reveal_strlit("date");
    assert("from"@[0] == 'f' && "to"@[0] == 't' && "cc"@[0] == 'c' && "subject"@[0] == 's'
        && "list_id"@[0] == 'l' && "body"@[0] == 'b' && "header"@[0] == 'h' && "size"@[0] == 's'
        && "date"@[0] == 'd');
    assert("subject"@.len() == 7 && "size"@.len() == 4);
}

/// A condition on the sender asks the sender, one on the recipients the
/// recipients, and so for each field of an envelope: whatever the others hold
/// makes no difference.
pub proof fn a_condition_asks_its_own_field(c: Condition, one: Envelope, other: Envelope)
    ensures
        c.field@ == "from"@ && one.from@ == other.from@ ==> condition_holds(c, one)
            == condition_holds(c, other),
        c.field@ == "to"@ && one.to@ == other.to@ ==> condition_holds(c, one) == condition_holds(
            c,
            other,
        ),
        c.field@ == "cc"@ && one.cc@ == other.cc@ ==> condition_holds(c, one) == condition_holds(
            c,
            other,
        ),
        c.field@ == "subject"@ && one.subject@ == other.subject@ ==> condition_holds(c, one)
            == condition_holds(c, other),
        c.field@ == "list_id"@ && one.list_id@ == other.list_id@ ==> condition_holds(c, one)
            == condition_holds(c, other),
        c.field@ == "body"@ && one.body@ == other.body@ ==> condition_holds(c, one)
            == condition_holds(c, other),
        c.field@ == "header"@ && one.headers@ == other.headers@ ==> condition_holds(c, one)
            == condition_holds(c, other),
        c.field@ == "size"@ && one.size == other.size ==> condition_holds(c, one)
            == condition_holds(c, other),
        c.field@ == "date"@ && one.date_ms == other.date_ms ==> condition_holds(c, one)
            == condition_holds(c, other),
{
    fields_differ();
}

/// The text a field of an envelope holds.
pub open spec fn field_text(e: Envelope, field: Seq<char>) -> Option<Seq<char>> {
    if field == "from"@ {
        Some(e.from@)
    } else if field == "to"@ {
        Some(e.to@)
    } else if field == "cc"@ {
        Some(e.cc@)
    } else if field == "subject"@ {
        Some(e.subject@)
    } else if field == "list_id"@ {
        Some(e.list_id@)
    } else if field == "body"@ {
        Some(e.body@)
    } else {
        None
    }
}

/// What the questions of text ask, of a field in lower case and a value that
/// is not empty: that the value, in lower case, stands in it somewhere; that
/// it is all of it; that it is followed by nothing but the rest; that it is
/// preceded by nothing but the rest. Each negation is true exactly where its
/// question is not, and a number's question of text is never true.
pub proof fn a_question_of_text_asks_what_it_says(c: Condition, e: Envelope, hay: Seq<char>)
    requires
        field_text(e, c.field@) == Some(hay),
        c.value@.len() > 0,
    ensures
        ({
            let low = lower(c.value@);
            let somewhere = exists|a: Seq<char>, b: Seq<char>| #[trigger] (a + low + b) == hay;
            let first = exists|b: Seq<char>| #[trigger] (low + b) == hay;
            let last = exists|a: Seq<char>| #[trigger] (a + low) == hay;
            match c.op {
                Op::Contains => condition_holds(c, e) == somewhere,
                Op::NotContains => condition_holds(c, e) == !somewhere,
                Op::Is => condition_holds(c, e) == (hay == low),
                Op::IsNot => condition_holds(c, e) == (hay != low),
                Op::StartsWith => condition_holds(c, e) == first,
                Op::NotStartsWith => condition_holds(c, e) == !first,
                Op::EndsWith => condition_holds(c, e) == last,
                Op::NotEndsWith => condition_holds(c, e) == !last,
                Op::Over | Op::Under | Op::Before | Op::After => !condition_holds(c, e),
            }
        }),
{
    fields_differ();
    let low = lower(c.value@);
    let n = low.len() as int;
    if has(hay, low) {
        let i = choose|i: int| occurs_at(hay, low, i);
        let (a, b) = (hay.take(i), hay.skip(i + n));
        assert(a + low + b =~= hay);
    }
    assert forall|a: Seq<char>, b: Seq<char>| #[trigger] (a + low + b) == hay implies has(
        hay,
        low,
    ) by {
        assert(hay.subrange(a.len() as int, a.len() + n) =~= low);
        assert(occurs_at(hay, low, a.len() as int));
    }
    if starts(hay, low) {
        assert(low + hay.skip(n) =~= hay);
    }
    assert forall|b: Seq<char>| #[trigger] (low + b) == hay implies starts(hay, low) by {
        assert(hay.subrange(0, n) =~= low);
    }
    if ends(hay, low) {
        assert(hay.take(hay.len() - n) + low =~= hay);
    }
    assert forall|a: Seq<char>| #[trigger] (a + low) == hay implies ends(hay, low) by {
        assert(hay.subrange(hay.len() - n, hay.len() as int) =~= low);
    }
}

/// Whether a value is a number of kilobytes, as somebody types one.
pub open spec fn reads_as(value: Seq<char>, kilobytes: int) -> bool {
    trim(value) == decimal(kilobytes as nat) && 0 <= kilobytes
}

/// A condition on the size, for a value that reads as so many kilobytes: over
/// holds of a message with more bytes than that and of no other, under of one
/// with fewer and of no other. Of exactly that many neither holds. No other
/// question of a size is ever met.
pub proof fn a_size_is_measured_in_kilobytes(c: Condition, e: Envelope, kilobytes: int)
    requires
        c.field@ == "size"@,
        reads_as(c.value@, kilobytes),
        kilobytes * 1024 <= u64::MAX,
    ensures
        c.op == Op::Over ==> condition_holds(c, e) == (e.size > kilobytes * 1024),
        c.op == Op::Under ==> condition_holds(c, e) == (e.size < kilobytes * 1024),
        e.size == kilobytes * 1024 ==> !condition_holds(c, e),
        c.op != Op::Over && c.op != Op::Under ==> !condition_holds(c, e),
{
    fields_differ();
    decimal_reads_back(kilobytes as nat);
    let t = trim(c.value@);
    assert(is_digit(t[0]));
    assert(t[0] != '+');
}

/// Whatever the value, what is met by a message is met by every larger one
/// where more is asked for, and by every smaller one where less is.
pub proof fn larger_is_over_and_smaller_is_under(c: Condition, one: Envelope, other: Envelope)
    requires
        c.field@ == "size"@,
        condition_holds(c, one),
    ensures
        c.op == Op::Over || c.op == Op::Under,
        c.op == Op::Over && other.size >= one.size ==> condition_holds(c, other),
        c.op == Op::Under && other.size <= one.size ==> condition_holds(c, other),
        c.op == Op::Over ==> one.size > 0,
{
    fields_differ();
}

/// A condition on the date, for a value that names a day of the calendar:
/// before holds of what was sent on an earlier day and of nothing else, after
/// of what was sent on a later day and of nothing else. What was sent on the
/// day itself meets neither. No other question of a date is ever met.
pub proof fn a_date_is_a_whole_day(c: Condition, e: Envelope, year: int, month: int, day: int)
    requires
        c.field@ == "date"@,
        days::date_parts(c.value@) == Some((year, month, day)),
        is_day(year, month, day),
    ensures
        ({
            let sent = e.date_ms as int / 86_400_000;
            let named = day_number(year, month, day);
            &&& c.op == Op::Before ==> condition_holds(c, e) == (sent < named)
            &&& c.op == Op::After ==> condition_holds(c, e) == (sent > named)
            &&& sent == named ==> !condition_holds(c, e)
            &&& c.op != Op::Before && c.op != Op::After ==> !condition_holds(c, e)
        }),
{
    fields_differ();
    days::days_are_counted_as_the_calendar_counts_them(c.value@);
}

/// A day written `2026-08-14` names that day, however many figures it takes.
pub proof fn a_day_is_read_as_it_is_written(year: nat, month: int, day: int)
    requires
        year <= i64::MAX,
        1 <= month <= 12,
        1 <= day <= 31,
    ensures
        days::date_parts(
            decimal(year) + seq!['-'] + decimal(month as nat) + seq!['-'] + decimal(day as nat),
        ) == Some((year as int, month, day)),
{
    let (y, m, d) = (decimal(year), decimal(month as nat), decimal(day as nat));
    let t = y + seq!['-'] + m + seq!['-'] + d;
    decimal_reads_back(year);
    decimal_reads_back(month as nat);
    decimal_reads_back(day as nat);
    let a = y.len() as int;
    let b = a + 1 + m.len();
    assert forall|i: int| 0 <= i < t.len() && i != a && i != b implies is_digit(
        #[trigger] t[i],
    ) by {
        if i < a {
            assert(t[i] == y[i]);
        } else if i < b {
            assert(t[i] == m[i - a - 1]);
        } else {
            assert(t[i] == d[i - b - 1]);
        }
    }
    assert(t[a] == '-' && t[b] == '-');
    assert(is_digit(t[0]) && is_digit(t[t.len() - 1]));
    trim_fixes(t);
    first_char_is_found(t, '-', 0, a);
    first_char_is_found(t, '-', a + 1, b);
    first_char_is_found(t, '-', b + 1, t.len() as int);
    assert(t.take(a) =~= y);
    assert(t.subrange(a + 1, b) =~= m);
    assert(t.subrange(b + 1, t.len() as int) =~= d);
    assert(is_digit(y[0]) && is_digit(m[0]) && is_digit(d[0]));
}

/// A rule matches exactly what meets every one of its conditions: it is on, it
/// asks something, and one condition that is not met is enough to leave a
/// message alone.
pub proof fn a_rule_needs_every_condition(rule: Rule, e: Envelope)
    ensures
        rule_matches(rule, e) ==> rule.enabled && rule.conditions@.len() > 0,
        rule_matches(rule, e) ==> forall|i: int|
            0 <= i < rule.conditions@.len() ==> condition_holds(
                #[trigger] rule.conditions@[i],
                e,
            ),
        !rule_matches(rule, e) && rule.enabled && rule.conditions@.len() > 0 ==> exists|i: int|
            0 <= i < rule.conditions@.len() && !condition_holds(
                #[trigger] rule.conditions@[i],
                e,
            ),
{
}

/// What a matching rule queues is what it says: the move to the folder it
/// names, or the archiving it asks for instead, once; the tag it names, once;
/// the marking as read, once; each only where it is asked for.
pub proof fn a_rule_does_what_it_says(a: Actions, kind: ActionKind, target: Option<i64>)
    ensures
        planned(a).contains((kind, target)) <==> match kind {
            ActionKind::Move => a.move_to is Some && target == a.move_to,
            ActionKind::Archive => a.move_to is None && a.skip_inbox && target is None,
            ActionKind::Tag => a.tag is Some && target == a.tag,
            ActionKind::MarkRead => a.mark_read && target is None,
            _ => false,
        },
        planned(a).no_duplicates(),
        planned(a).len() <= 3,
{
    let all = planned(a);
    let filed = if a.move_to is Some || a.skip_inbox {
        1int
    } else {
        0
    };
    let tagged = if a.tag is Some {
        1int
    } else {
        0
    };
    if let Some(folder) = a.move_to {
        assert(all[0] == (ActionKind::Move, Some(folder)));
    } else if a.skip_inbox {
        assert(all[0] == (ActionKind::Archive, None::<i64>));
    }
    if let Some(tag) = a.tag {
        assert(all[filed] == (ActionKind::Tag, Some(tag)));
    }
    if a.mark_read {
        assert(all[filed + tagged] == (ActionKind::MarkRead, None::<i64>));
    }
    assert(all.len() == filed + tagged + if a.mark_read {
        1int
    } else {
        0
    });
}

} // verus!
