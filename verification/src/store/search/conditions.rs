//! Which messages a tree of conditions picks out, and which words an
//! expression asks the index for.
//!
//! Conditions are joined by AND and OR and turned round by NOT, and so are
//! words. Here what is written is read as SQLite reads it, and held against
//! what was asked.

use super::answers::{
    a_state_is_what_its_flag_says, filename_asks_for_its_file, for_equals, for_like,
    from_asks_for_its_sender, holds, in_asks_for_its_folder, is_addressed, is_in_folder, meets, sql,
    tag_asks_for_its_tag, to_and_cc_ask_for_their_own, Clock, Row, Test,
};
use super::bind::{
    bound_as, conds_bind, conds_text, refused, script_texts, BESIDE, OF_ACCOUNT,
};
use super::meaning::{both, either};
use super::plan::{any_asks_cjk, is_indexable, Column, Demand, Wording};
use super::sql::{
    cond_text, cond_texts, cond_values, conds_values, guard_text, lookup_text, predicate_text,
    predicate_values, BoundValue,
};
use super::statements::{
    any_asks_for, any_looks_up, asks_for, bracketed, fts_text, fts_texts, is_alongside, phrase_text,
    Named, Statement,
};
use crate::search_query::calendar::day_number;
use crate::search_query::{Ask, Phrase, State};
use crate::store::index_text::{any_cjk, cjk_phrases, last_run, phrase_of};
use crate::text::{ascii_lowercase, is_ascii_text, joined, lower, replace_all};
use vstd::prelude::*;

verus! {

// ---------------------------------------------------------------------
// Conditions
// ---------------------------------------------------------------------
/// A message and its account, the reader's clock, and whether the index of a
/// script finds the message by an expression.
pub struct Found {
    pub account: int,
    pub row: Row,
    pub clock: Clock,
    pub index: spec_fn(bool, Seq<char>) -> bool,
}

/// Conditions joined together.
pub enum Whole {
    One(Test),
    Not(Test),
    /// Found by words, or not found: in the index of which script.
    Words(bool, bool),
    OutOfTheBin,
    OfAccount,
    All(Seq<Whole>),
    Any(Seq<Whole>),
}

/// How conditions are written.
pub open spec fn written(w: Whole) -> Seq<char>
    decreases w,
{
    match w {
        Whole::One(test) => sql(test),
        Whole::Not(test) => "NOT ("@ + sql(test) + ")"@,
        Whole::Words(there, cjk) => (if there {
            "m.id "@
        } else {
            "m.id NOT "@
        }) + if cjk {
            "IN (SELECT rowid FROM fts_cjk WHERE fts_cjk MATCH ?)"@
        } else {
            "IN (SELECT rowid FROM fts_messages WHERE fts_messages MATCH ?)"@
        },
        Whole::OutOfTheBin => replace_all(
            "NOT EXISTS (SELECT 1 FROM placements p
                     JOIN folders f ON f.id = p.folder_id
                     WHERE p.message_id = {alias}.id
                       AND f.role IN ('trash','spam'))"@,
            "{alias}"@,
            "m"@,
        ),
        Whole::OfAccount => "m.account_id = ?"@,
        Whole::All(parts) => "("@ + joined(written_each(parts), " AND "@) + ")"@,
        Whole::Any(parts) => "("@ + joined(written_each(parts), " OR "@) + ")"@,
    }
}

pub open spec fn written_each(parts: Seq<Whole>) -> Seq<Seq<char>>
    decreases parts,
{
    if parts.len() == 0 {
        Seq::empty()
    } else {
        written_each(parts.drop_last()).push(written(parts.last()))
    }
}

/// How many values a test has bound to it.
pub open spec fn test_takes(test: Test) -> nat {
    match test {
        Test::From(_) | Test::Recipient(_, _, _) | Test::DateWithin => 2,
        Test::Placed(_) | Test::PlacedNow(_) => 4,
        Test::Tagged(_, _) | Test::Attached(_, _) | Test::DateFrom | Test::DateBefore => 1,
        _ => 0,
    }
}

/// How many values conditions have bound to them.
pub open spec fn takes(w: Whole) -> nat
    decreases w,
{
    match w {
        Whole::One(test) => test_takes(test),
        Whole::Not(test) => test_takes(test),
        Whole::Words(_, _) => 1,
        Whole::OutOfTheBin => 0,
        Whole::OfAccount => 1,
        Whole::All(parts) => takes_each(parts),
        Whole::Any(parts) => takes_each(parts),
    }
}

pub open spec fn takes_each(parts: Seq<Whole>) -> nat
    decreases parts,
{
    if parts.len() == 0 {
        0
    } else {
        takes_each(parts.drop_last()) + takes(parts.last())
    }
}

/// Whether a message is thrown away, or taken for junk.
pub open spec fn is_binned(row: Row) -> bool {
    exists|i: int|
        0 <= i < row.spots.len() && ((#[trigger] row.spots[i]).role == "trash"@
            || row.spots[i].role == "spam"@)
}

/// Whether a message meets conditions, with these values bound to them in
/// turn.
pub open spec fn is_met(w: Whole, values: Seq<BoundValue>, at: Found) -> bool
    decreases w,
{
    match w {
        Whole::One(test) => meets(test, values, at.row, at.clock),
        Whole::Not(test) => !meets(test, values, at.row, at.clock),
        Whole::Words(there, cjk) => (at.index)(cjk, values[0]->Text_0) == there,
        Whole::OutOfTheBin => !is_binned(at.row),
        Whole::OfAccount => values[0] == BoundValue::Int(at.account),
        Whole::All(parts) => all_met(parts, values, at),
        Whole::Any(parts) => any_met(parts, values, at),
    }
}

pub open spec fn all_met(parts: Seq<Whole>, values: Seq<BoundValue>, at: Found) -> bool
    decreases parts,
{
    if parts.len() == 0 {
        true
    } else {
        let n = values.len() - takes(parts.last());
        all_met(parts.drop_last(), values.take(n), at) && is_met(
            parts.last(),
            values.skip(n),
            at,
        )
    }
}

pub open spec fn any_met(parts: Seq<Whole>, values: Seq<BoundValue>, at: Found) -> bool
    decreases parts,
{
    if parts.len() == 0 {
        false
    } else {
        let n = values.len() - takes(parts.last());
        any_met(parts.drop_last(), values.take(n), at) || is_met(parts.last(), values.skip(n), at)
    }
}

// ---------------------------------------------------------------------
// What was asked
// ---------------------------------------------------------------------
/// Whether a message is what a term asks for. Words are asked of the index.
pub open spec fn term_met(term: Ask, snoozed: bool, at: Found) -> bool {
    let row = at.row;
    match term {
        Ask::Text(_) => true,
        Ask::Subject(_) => true,
        Ask::From(who) => holds(row.from_addr, who) || holds(row.from_display, who),
        Ask::To(who) => is_addressed(row, "to"@, who),
        Ask::Cc(who) => is_addressed(row, "cc"@, who),
        Ask::In(name) => is_in_folder(row, name) && (name == "inbox"@ && !snoozed
            ==> row.snoozed_until_ms <= at.clock.now_ms),
        Ask::Tag(name) => exists|i: int|
            0 <= i < row.tags.len() && {
                let tag = #[trigger] row.tags[i];
                if is_ascii_text(name) {
                    ascii_lowercase(tag) == ascii_lowercase(name)
                } else {
                    lower(tag) == lower(name)
                }
            },
        Ask::Filename(part) => exists|i: int|
            0 <= i < row.files.len() && holds(#[trigger] row.files[i], part),
        Ask::HasAttachment => row.has_attachments == 1,
        Ask::Is(State::Unread) => row.flags & 1 == 0,
        Ask::Is(State::Read) => row.flags & 1 != 0,
        Ask::Is(State::Starred) => row.flags & 4 != 0,
        Ask::Is(State::Snoozed) => row.snoozed_until_ms > at.clock.now_ms,
        Ask::After(date) => row.date_ms >= (at.clock.midnight)(date.first()),
        Ask::Before(date) => row.date_ms < (at.clock.midnight)(date.first()),
        Ask::On(date) => (at.clock.midnight)(date.first()) <= row.date_ms < (at.clock.midnight)(
            day_number(date.next().0, date.next().1, date.next().2),
        ),
    }
}

/// Whether a message is what conditions ask for. Where snoozed mail is asked
/// for alongside, the inbox has it; where one of several alternatives asks for
/// the bin, the others stay out of it, unless the bin is asked for alongside.
pub open spec fn demand_met(
    demand: Demand,
    snoozed: bool,
    binned: bool,
    typing: Option<nat>,
    at: Found,
) -> bool
    decreases demand,
{
    match demand {
        Demand::Lit(fact) => term_met(fact.term, snoozed, at) != fact.negated,
        Demand::With(column, text, spot) => is_indexable(text) ==> (at.index)(
            any_cjk(text.value),
            phrase_text(column, text, any_cjk(text.value), typing == Some(spot)),
        ),
        Demand::Without(column, text) => is_indexable(text) ==> !(at.index)(
            any_cjk(text.value),
            phrase_text(column, text, any_cjk(text.value), false),
        ),
        Demand::All(parts) => all_demands_met(
            parts,
            snoozed || is_alongside(parts, Named::Snoozed),
            binned || is_alongside(parts, Named::Bin),
            typing,
            at,
        ),
        Demand::Any(parts) => any_demand_met(
            parts,
            snoozed,
            binned,
            typing,
            !binned && any_asks_for(parts, Named::Bin),
            at,
        ),
    }
}

pub open spec fn all_demands_met(
    parts: Seq<Demand>,
    snoozed: bool,
    binned: bool,
    typing: Option<nat>,
    at: Found,
) -> bool
    decreases parts,
{
    parts.len() > 0 ==> all_demands_met(parts.drop_last(), snoozed, binned, typing, at)
        && demand_met(parts.last(), snoozed, binned, typing, at)
}

pub open spec fn any_demand_met(
    parts: Seq<Demand>,
    snoozed: bool,
    binned: bool,
    typing: Option<nat>,
    guarded: bool,
    at: Found,
) -> bool
    decreases parts,
{
    parts.len() > 0 && (any_demand_met(
        parts.drop_last(),
        snoozed,
        binned,
        typing,
        guarded,
        at,
    ) || (demand_met(parts.last(), snoozed, binned, typing, at) && (guarded && !asks_for(
        parts.last(),
        Named::Bin,
    ) ==> !is_binned(at.row))))
}

// ---------------------------------------------------------------------
// Conditions ask for what was asked
// ---------------------------------------------------------------------
proof fn a_term_is_tested(term: Ask, snoozed: bool, walking: bool) -> (t: Test)
    ensures
        sql(t) == predicate_text(term, snoozed, walking),
        test_takes(t) == predicate_values(term).len(),
        forall|at: Found| #[trigger]
            meets(t, predicate_values(term), at.row, at.clock) == term_met(term, snoozed, at),
{
    let t = match term {
        Ask::Text(_) => Test::Always,
        Ask::Subject(_) => Test::Always,
        Ask::From(who) => Test::From(for_like(who)),
        Ask::To(who) => Test::Recipient("to"@, for_like(who), walking),
        Ask::Cc(who) => Test::Recipient("cc"@, for_like(who), walking),
        Ask::In(name) => if name == "inbox"@ && !snoozed {
            Test::PlacedNow(for_equals(name))
        } else {
            Test::Placed(for_equals(name))
        },
        Ask::Tag(name) => Test::Tagged(for_equals(name), walking),
        Ask::Filename(part) => Test::Attached(for_like(part), walking),
        Ask::HasAttachment => Test::HasAttachments,
        Ask::Is(State::Unread) => Test::NotSeen,
        Ask::Is(State::Read) => Test::Seen,
        Ask::Is(State::Starred) => Test::Flagged,
        Ask::Is(State::Snoozed) => Test::SnoozedNow,
        Ask::After(_) => Test::DateFrom,
        Ask::Before(_) => Test::DateBefore,
        Ask::On(_) => Test::DateWithin,
    };
    let values = predicate_values(term);
    let some = arbitrary::<Found>();
    a_term_is_written(term, snoozed, walking, some);
    assert forall|at: Found| #[trigger]
        meets(t, values, at.row, at.clock) == term_met(term, snoozed, at) by {
        a_term_is_written(term, snoozed, walking, at);
    }
    t
}

proof fn a_term_is_written(term: Ask, snoozed: bool, walking: bool, at: Found)
    ensures
        ({
            let t = match term {
                Ask::Text(_) => Test::Always,
                Ask::Subject(_) => Test::Always,
                Ask::From(who) => Test::From(for_like(who)),
                Ask::To(who) => Test::Recipient("to"@, for_like(who), walking),
                Ask::Cc(who) => Test::Recipient("cc"@, for_like(who), walking),
                Ask::In(name) => if name == "inbox"@ && !snoozed {
                    Test::PlacedNow(for_equals(name))
                } else {
                    Test::Placed(for_equals(name))
                },
                Ask::Tag(name) => Test::Tagged(for_equals(name), walking),
                Ask::Filename(part) => Test::Attached(for_like(part), walking),
                Ask::HasAttachment => Test::HasAttachments,
                Ask::Is(State::Unread) => Test::NotSeen,
                Ask::Is(State::Read) => Test::Seen,
                Ask::Is(State::Starred) => Test::Flagged,
                Ask::Is(State::Snoozed) => Test::SnoozedNow,
                Ask::After(_) => Test::DateFrom,
                Ask::Before(_) => Test::DateBefore,
                Ask::On(_) => Test::DateWithin,
            };
            &&& sql(t) == predicate_text(term, snoozed, walking)
            &&& test_takes(t) == predicate_values(term).len()
            &&& meets(t, predicate_values(term), at.row, at.clock) == term_met(term, snoozed, at)
        }),
{
    match term {
        Ask::From(who) => from_asks_for_its_sender(who, at.row, at.clock, snoozed, walking),
        Ask::To(who) => to_and_cc_ask_for_their_own(who, at.row, at.clock, snoozed, walking),
        Ask::Cc(who) => to_and_cc_ask_for_their_own(who, at.row, at.clock, snoozed, walking),
        Ask::In(name) => in_asks_for_its_folder(name, at.row, at.clock, snoozed, walking),
        Ask::Tag(name) => tag_asks_for_its_tag(name, at.row, at.clock, snoozed, walking),
        Ask::Filename(part) => filename_asks_for_its_file(
            part,
            at.row,
            at.clock,
            snoozed,
            walking,
        ),
        Ask::Is(_) => a_state_is_what_its_flag_says(at.row, at.clock, snoozed, walking),
        _ => {},
    }
}

/// However conditions are joined, what is written of them picks out the
/// messages they ask for: with AND those that meet all, with OR those that
/// meet any, and with NOT those that do not.
pub proof fn conditions_pick_out_what_they_ask_for(
    demand: Demand,
    snoozed: bool,
    binned: bool,
    walking: bool,
    typing: Option<nat>,
) -> (w: Whole)
    ensures
        written(w) == cond_text(demand, snoozed, binned, walking),
        takes(w) == cond_values(demand, typing).len(),
        forall|at: Found| #[trigger]
            is_met(w, cond_values(demand, typing), at) == demand_met(
                demand,
                snoozed,
                binned,
                typing,
                at,
            ),
    decreases demand,
{
    match demand {
        Demand::Lit(fact) => {
            let t = a_term_is_tested(fact.term, snoozed, walking);
            let w = if fact.negated {
                Whole::Not(t)
            } else {
                Whole::One(t)
            };
            let values = cond_values(demand, typing);
            assert forall|at: Found| #[trigger]
                is_met(w, values, at) == demand_met(demand, snoozed, binned, typing, at) by {
                assert(meets(t, predicate_values(fact.term), at.row, at.clock) == term_met(
                    fact.term,
                    snoozed,
                    at,
                ));
            }
            w
        },
        Demand::With(_, text, _) => if is_indexable(text) {
            Whole::Words(true, any_cjk(text.value))
        } else {
            Whole::One(Test::Always)
        },
        Demand::Without(_, text) => if is_indexable(text) {
            Whole::Words(false, any_cjk(text.value))
        } else {
            Whole::One(Test::Always)
        },
        Demand::All(parts) => {
            let ws = each_is_met(
                parts,
                snoozed || is_alongside(parts, Named::Snoozed),
                binned || is_alongside(parts, Named::Bin),
                walking,
                typing,
                false,
            );
            let w = Whole::All(ws);
            let values = cond_values(demand, typing);
            assert forall|at: Found| #[trigger]
                is_met(w, values, at) == demand_met(demand, snoozed, binned, typing, at) by {
                assert(all_met(ws, conds_values(parts, typing), at) == all_demands_met(
                    parts,
                    snoozed || is_alongside(parts, Named::Snoozed),
                    binned || is_alongside(parts, Named::Bin),
                    typing,
                    at,
                ));
            }
            w
        },
        Demand::Any(parts) => {
            let guarded = !binned && any_asks_for(parts, Named::Bin);
            let ws = each_is_met(parts, snoozed, binned, walking, typing, guarded);
            let w = Whole::Any(ws);
            let values = cond_values(demand, typing);
            assert forall|at: Found| #[trigger]
                is_met(w, values, at) == demand_met(demand, snoozed, binned, typing, at) by {
                assert(any_met(ws, conds_values(parts, typing), at) == any_demand_met(
                    parts,
                    snoozed,
                    binned,
                    typing,
                    guarded,
                    at,
                ));
            }
            w
        },
    }
}

/// The same of each of some conditions.
proof fn each_is_met(
    parts: Seq<Demand>,
    snoozed: bool,
    binned: bool,
    walking: bool,
    typing: Option<nat>,
    guarded: bool,
) -> (ws: Seq<Whole>)
    ensures
        written_each(ws) == cond_texts(parts, snoozed, binned, walking, guarded),
        takes_each(ws) == conds_values(parts, typing).len(),
        !guarded ==> forall|at: Found| #[trigger]
            all_met(ws, conds_values(parts, typing), at) == all_demands_met(
                parts,
                snoozed,
                binned,
                typing,
                at,
            ),
        forall|at: Found| #[trigger]
            any_met(ws, conds_values(parts, typing), at) == any_demand_met(
                parts,
                snoozed,
                binned,
                typing,
                guarded,
                at,
            ),
    decreases parts,
{
    if parts.len() == 0 {
        Seq::empty()
    } else {
        let front = parts.drop_last();
        let last = parts.last();
        let ws = each_is_met(front, snoozed, binned, walking, typing, guarded);
        let w = conditions_pick_out_what_they_ask_for(last, snoozed, binned, walking, typing);
        let keep = guarded && !asks_for(last, Named::Bin);
        let one = if keep {
            Whole::All(seq![w, Whole::OutOfTheBin])
        } else {
            w
        };
        let all = ws.push(one);
        assert(all.drop_last() =~= ws);
        let values = conds_values(parts, typing);
        let before = conds_values(front, typing);
        let mine = cond_values(last, typing);
        let n = before.len() as int;
        assert(values.take(n) =~= before);
        assert(values.skip(n) =~= mine);
        if keep {
            kept_out_is_written(w);
        }
        assert(takes(one) == mine.len());
        assert forall|at: Found| #[trigger]
            is_met(one, mine, at) == (demand_met(last, snoozed, binned, typing, at) && (keep
                ==> !is_binned(at.row))) by {
            assert(is_met(w, mine, at) == demand_met(last, snoozed, binned, typing, at));
            if keep {
                kept_out_is_met(w, mine, at);
            }
        }
        assert forall|at: Found| #[trigger]
            any_met(all, values, at) == any_demand_met(
                parts,
                snoozed,
                binned,
                typing,
                guarded,
                at,
            ) by {
            assert(any_met(ws, before, at) == any_demand_met(
                front,
                snoozed,
                binned,
                typing,
                guarded,
                at,
            ));
            assert(is_met(one, mine, at) == (demand_met(last, snoozed, binned, typing, at) && (keep
                ==> !is_binned(at.row))));
        }
        if !guarded {
            assert forall|at: Found| #[trigger]
                all_met(all, values, at) == all_demands_met(
                    parts,
                    snoozed,
                    binned,
                    typing,
                    at,
                ) by {
                assert(all_met(ws, before, at) == all_demands_met(
                    front,
                    snoozed,
                    binned,
                    typing,
                    at,
                ));
                assert(is_met(one, mine, at) == (demand_met(last, snoozed, binned, typing, at) && (
                keep ==> !is_binned(at.row))));
            }
        }
        assert(written_each(all) =~= cond_texts(parts, snoozed, binned, walking, guarded));
        all
    }
}

proof fn kept_out_is_written(w: Whole)
    ensures
        written(Whole::All(seq![w, Whole::OutOfTheBin])) == "("@ + written(w) + " AND "@
            + guard_text() + ")"@,
        takes(Whole::All(seq![w, Whole::OutOfTheBin])) == takes(w),
{
    let pair = seq![w, Whole::OutOfTheBin];
    let one = seq![w];
    let none = Seq::<Whole>::empty();
    assert(pair.drop_last() =~= one);
    assert(one.drop_last() =~= none);
    assert(written_each(none) =~= Seq::<Seq<char>>::empty());
    assert(written_each(one) =~= seq![written(w)]);
    let bin = Whole::OutOfTheBin;
    assert(pair.last() == bin);
    assert(written(bin) == guard_text());
    assert(takes(bin) == 0);
    let texts = written_each(pair);
    assert(texts == written_each(one).push(written(bin)));
    assert(texts =~= seq![written(w), guard_text()]);
    assert(texts.drop_last() =~= seq![written(w)]);
    reveal_with_fuel(joined, 3);
    assert(joined(texts, " AND "@) =~= written(w) + " AND "@ + guard_text());
    assert("("@ + (written(w) + " AND "@ + guard_text()) + ")"@ =~= "("@ + written(w) + " AND "@
        + guard_text() + ")"@);
    assert(takes_each(none) == 0);
    assert(takes_each(one) == takes(w));
    assert(takes_each(pair) == takes(w));
}

proof fn kept_out_is_met(w: Whole, values: Seq<BoundValue>, at: Found)
    requires
        takes(w) == values.len(),
    ensures
        is_met(Whole::All(seq![w, Whole::OutOfTheBin]), values, at) == (is_met(w, values, at)
            && !is_binned(at.row)),
{
    let pair = seq![w, Whole::OutOfTheBin];
    let one = seq![w];
    assert(pair.drop_last() =~= one);
    assert(pair.last() == Whole::OutOfTheBin);
    assert(one.drop_last() =~= Seq::<Whole>::empty());
    assert(one.last() == w);
    assert(values.take(values.len() as int) =~= values);
    assert(values.skip(0) =~= values);
    assert(all_met(one.drop_last(), values.take(0), at));
    assert(all_met(one, values, at) == is_met(w, values, at));
    assert(is_met(Whole::OutOfTheBin, values.skip(values.len() as int), at) == !is_binned(at.row));
    assert(all_met(pair, values, at) == (all_met(one, values, at) && !is_binned(at.row)));
}

// ---------------------------------------------------------------------
// Words
// ---------------------------------------------------------------------
/// A full-text expression.
pub enum Expression {
    Phrase(Seq<char>),
    All(Seq<Expression>),
    Any(Seq<Expression>),
}

/// How an expression is written.
pub open spec fn expressed(e: Expression) -> Seq<char>
    decreases e,
{
    match e {
        Expression::Phrase(text) => text,
        Expression::All(parts) => "("@ + joined(expressed_each(parts), " AND "@) + ")"@,
        Expression::Any(parts) => "("@ + joined(expressed_each(parts), " OR "@) + ")"@,
    }
}

pub open spec fn expressed_each(parts: Seq<Expression>) -> Seq<Seq<char>>
    decreases parts,
{
    if parts.len() == 0 {
        Seq::empty()
    } else {
        expressed_each(parts.drop_last()).push(expressed(parts.last()))
    }
}

/// Whether a message matches an expression, by what it matches of the phrases.
pub open spec fn matches_it(e: Expression, index: spec_fn(Seq<char>) -> bool) -> bool
    decreases e,
{
    match e {
        Expression::Phrase(text) => index(text),
        Expression::All(parts) => matches_all(parts, index),
        Expression::Any(parts) => matches_any(parts, index),
    }
}

pub open spec fn matches_all(parts: Seq<Expression>, index: spec_fn(Seq<char>) -> bool) -> bool
    decreases parts,
{
    parts.len() > 0 ==> matches_all(parts.drop_last(), index) && matches_it(parts.last(), index)
}

pub open spec fn matches_any(parts: Seq<Expression>, index: spec_fn(Seq<char>) -> bool) -> bool
    decreases parts,
{
    parts.len() > 0 && (matches_any(parts.drop_last(), index) || matches_it(parts.last(), index))
}

/// Whether a message has the words that are asked for. A word the index does
/// not keep asks nothing.
pub open spec fn words_met(
    words: Wording,
    for_cjk: bool,
    typing: Option<nat>,
    index: spec_fn(Seq<char>) -> bool,
) -> Option<bool>
    decreases words,
{
    match words {
        Wording::Leaf(column, text, at) => if is_indexable(text) {
            Some(index(phrase_text(column, text, for_cjk, typing == Some(at))))
        } else {
            None
        },
        Wording::All(parts) => all_words_met(parts, for_cjk, typing, index),
        Wording::Any(parts) => any_words_met(parts, for_cjk, typing, index),
    }
}

pub open spec fn all_words_met(
    parts: Seq<Wording>,
    for_cjk: bool,
    typing: Option<nat>,
    index: spec_fn(Seq<char>) -> bool,
) -> Option<bool>
    decreases parts,
{
    if parts.len() == 0 {
        None
    } else {
        both(
            all_words_met(parts.drop_last(), for_cjk, typing, index),
            words_met(parts.last(), for_cjk, typing, index),
        )
    }
}

pub open spec fn any_words_met(
    parts: Seq<Wording>,
    for_cjk: bool,
    typing: Option<nat>,
    index: spec_fn(Seq<char>) -> bool,
) -> Option<bool>
    decreases parts,
{
    if parts.len() == 0 {
        None
    } else {
        either(
            any_words_met(parts.drop_last(), for_cjk, typing, index),
            words_met(parts.last(), for_cjk, typing, index),
        )
    }
}

/// However words are joined, the expression made of them asks the index for
/// the messages that have them: with AND those with all, with OR those with
/// any. Where no word is left there is no expression.
pub proof fn an_expression_asks_for_its_words(
    words: Wording,
    for_cjk: bool,
    typing: Option<nat>,
) -> (e: Expression)
    ensures
        fts_text(words, for_cjk, typing) is None ==> forall|index: spec_fn(Seq<char>) -> bool|
            #[trigger] words_met(words, for_cjk, typing, index) is None,
        fts_text(words, for_cjk, typing) is Some ==> {
            &&& expressed(e) == fts_text(words, for_cjk, typing)->0
            &&& forall|index: spec_fn(Seq<char>) -> bool| #[trigger]
                words_met(words, for_cjk, typing, index) == Some(matches_it(e, index))
        },
    decreases words,
{
    match words {
        Wording::Leaf(column, text, at) => {
            let e = Expression::Phrase(phrase_text(column, text, for_cjk, typing == Some(at)));
            assert(expressed(e) == phrase_text(column, text, for_cjk, typing == Some(at)));
            e
        },
        Wording::All(parts) => {
            let es = each_is_asked_for(parts, for_cjk, typing);
            let e = if es.len() == 1 {
                es[0]
            } else {
                Expression::All(es)
            };
            assert forall|index: spec_fn(Seq<char>) -> bool| #[trigger]
                words_met(words, for_cjk, typing, index) == if es.len() == 0 {
                None::<bool>
            } else {
                Some(matches_it(e, index))
            } by {
                assert(all_words_met(parts, for_cjk, typing, index) == if es.len() == 0 {
                    None::<bool>
                } else {
                    Some(matches_all(es, index))
                });
                one_of_one(es, index);
            }
            one_is_expressed(es);
            assert(bracketed(expressed_each(es), " AND "@) == fts_text(words, for_cjk, typing));
            e
        },
        Wording::Any(parts) => {
            let es = each_is_asked_for(parts, for_cjk, typing);
            let e = if es.len() == 1 {
                es[0]
            } else {
                Expression::Any(es)
            };
            assert forall|index: spec_fn(Seq<char>) -> bool| #[trigger]
                words_met(words, for_cjk, typing, index) == if es.len() == 0 {
                None::<bool>
            } else {
                Some(matches_it(e, index))
            } by {
                assert(any_words_met(parts, for_cjk, typing, index) == if es.len() == 0 {
                    None::<bool>
                } else {
                    Some(matches_any(es, index))
                });
                one_of_one(es, index);
            }
            one_is_expressed(es);
            assert(bracketed(expressed_each(es), " OR "@) == fts_text(words, for_cjk, typing));
            e
        },
    }
}

proof fn one_of_one(es: Seq<Expression>, index: spec_fn(Seq<char>) -> bool)
    ensures
        es.len() == 1 ==> matches_all(es, index) == matches_it(es[0], index) && matches_any(
            es,
            index,
        ) == matches_it(es[0], index),
{
    if es.len() == 1 {
        assert(es.drop_last() =~= Seq::<Expression>::empty());
        assert(matches_all(es.drop_last(), index));
        assert(!matches_any(es.drop_last(), index));
        assert(es.last() == es[0]);
    }
}

proof fn one_is_expressed(es: Seq<Expression>)
    ensures
        expressed_each(es).len() == es.len(),
        es.len() == 1 ==> expressed_each(es)[0] == expressed(es[0]),
    decreases es.len(),
{
    if es.len() > 0 {
        one_is_expressed(es.drop_last());
    }
}

proof fn each_is_asked_for(parts: Seq<Wording>, for_cjk: bool, typing: Option<nat>) -> (es: Seq<
    Expression,
>)
    ensures
        expressed_each(es) == fts_texts(parts, for_cjk, typing),
        forall|index: spec_fn(Seq<char>) -> bool| #[trigger]
            all_words_met(parts, for_cjk, typing, index) == if es.len() == 0 {
                None::<bool>
            } else {
                Some(matches_all(es, index))
            },
        forall|index: spec_fn(Seq<char>) -> bool| #[trigger]
            any_words_met(parts, for_cjk, typing, index) == if es.len() == 0 {
                None::<bool>
            } else {
                Some(matches_any(es, index))
            },
    decreases parts,
{
    if parts.len() == 0 {
        Seq::empty()
    } else {
        let front = parts.drop_last();
        let before = each_is_asked_for(front, for_cjk, typing);
        let e = an_expression_asks_for_its_words(parts.last(), for_cjk, typing);
        let asked = fts_text(parts.last(), for_cjk, typing) is Some;
        let es = if asked {
            before.push(e)
        } else {
            before
        };
        assert(before.push(e).drop_last() =~= before);
        assert(expressed_each(es) =~= fts_texts(parts, for_cjk, typing));
        assert forall|index: spec_fn(Seq<char>) -> bool| #[trigger]
            all_words_met(parts, for_cjk, typing, index) == if es.len() == 0 {
            None::<bool>
        } else {
            Some(matches_all(es, index))
        } by {
            none_is_all(before, index);
            assert(all_words_met(front, for_cjk, typing, index) == if before.len() == 0 {
                None::<bool>
            } else {
                Some(matches_all(before, index))
            });
            assert(words_met(parts.last(), for_cjk, typing, index) == if asked {
                Some(matches_it(e, index))
            } else {
                None::<bool>
            });
        }
        assert forall|index: spec_fn(Seq<char>) -> bool| #[trigger]
            any_words_met(parts, for_cjk, typing, index) == if es.len() == 0 {
            None::<bool>
        } else {
            Some(matches_any(es, index))
        } by {
            none_is_all(before, index);
            assert(any_words_met(front, for_cjk, typing, index) == if before.len() == 0 {
                None::<bool>
            } else {
                Some(matches_any(before, index))
            });
            assert(words_met(parts.last(), for_cjk, typing, index) == if asked {
                Some(matches_it(e, index))
            } else {
                None::<bool>
            });
        }
        es
    }
}

proof fn none_is_all(es: Seq<Expression>, index: spec_fn(Seq<char>) -> bool)
    ensures
        es.len() == 0 ==> matches_all(es, index) && !matches_any(es, index),
{
}

/// A word is asked for as a phrase; in the subject alone where that was said;
/// and as the beginning of a word while it is being typed, from the second
/// letter of its last run on. In the other index it is asked for as the runs
/// it is made of, all of them.
pub proof fn a_term_is_asked_for_as_a_phrase(text: Phrase, prefix: bool)
    ensures
        phrase_text(Column::Anywhere, text, false, false) == phrase_of(text.value),
        phrase_text(Column::Anywhere, text, false, true) == if last_run(text.value).len() >= 2 {
            phrase_of(text.value).push('*')
        } else {
            phrase_of(text.value)
        },
        cjk_phrases(text.value).len() == 1 ==> phrase_text(Column::Anywhere, text, true, prefix)
            == cjk_phrases(text.value)[0],
        cjk_phrases(text.value).len() > 1 ==> phrase_text(Column::Anywhere, text, true, prefix)
            == "("@ + joined(cjk_phrases(text.value), " AND "@) + ")"@,
        forall|cjk: bool| #[trigger]
            phrase_text(Column::Subject, text, cjk, prefix) == "subject : "@ + phrase_text(
                Column::Anywhere,
                text,
                cjk,
                prefix,
            ),
{
}

// ---------------------------------------------------------------------
// Whole statements
// ---------------------------------------------------------------------
/// Conditions one after another, each with AND before it.
pub open spec fn anded(ws: Seq<Whole>) -> Seq<char>
    decreases ws.len(),
{
    if ws.len() == 0 {
        Seq::empty()
    } else {
        anded(ws.drop_last()) + (" AND "@ + written(ws.last()))
    }
}

/// What one script's index finds a message by.
pub open spec fn in_script(index: spec_fn(bool, Seq<char>) -> bool, cjk: bool) -> spec_fn(
    Seq<char>,
) -> bool {
    |text: Seq<char>| index(cjk, text)
}

/// Whether an index reads expressions joined by AND as they are written.
pub open spec fn reads(index: spec_fn(bool, Seq<char>) -> bool) -> bool {
    forall|es: Seq<Expression>, cjk: bool|
        es.len() > 0 ==> index(cjk, joined(#[trigger] expressed_each(es), " AND "@))
            == #[trigger] matches_all(es, in_script(index, cjk))
}

/// Words to be there and words not to be, as one expression.
pub open spec fn ranked_by(wanted: Seq<Expression>, unwanted: Seq<Expression>) -> Seq<char> {
    if unwanted.len() > 0 {
        "("@ + joined(expressed_each(wanted), " AND "@) + ") NOT ("@ + joined(
            expressed_each(unwanted),
            " OR "@,
        ) + ")"@
    } else {
        joined(expressed_each(wanted), " AND "@)
    }
}

/// Whether a message has every word that is wanted, each asked of the index of
/// its own script.
pub open spec fn wanted_met(wanted: Seq<Wording>, typing: Option<nat>, at: Found) -> bool
    decreases wanted.len(),
{
    wanted.len() > 0 ==> {
        let last = wanted.last();
        wanted_met(wanted.drop_last(), typing, at) && words_met(
            last,
            last.asks_cjk(),
            typing,
            in_script(at.index, last.asks_cjk()),
        ) != Some(false)
    }
}

/// Whether a message has none of the words that are not wanted.
pub open spec fn none_refused(unwanted: Seq<(Column, Phrase)>, at: Found) -> bool
    decreases unwanted.len(),
{
    unwanted.len() > 0 ==> {
        let (column, text) = unwanted.last();
        none_refused(unwanted.drop_last(), at) && (is_indexable(text) ==> !(at.index)(
            any_cjk(text.value),
            phrase_text(column, text, any_cjk(text.value), false),
        ))
    }
}

/// Whether a message is what a statement asks for: of the account, with the
/// words that are wanted and none that are not, meeting every condition, and
/// not in the bin unless the bin is asked for.
pub open spec fn statement_met(
    statement: Statement,
    account: int,
    typing: Option<nat>,
    at: Found,
) -> bool {
    &&& at.account == account
    &&& wanted_met(statement.wanted, typing, at)
    &&& none_refused(statement.unwanted, at)
    &&& all_demands_met(
        statement.conds,
        is_alongside(statement.conds, Named::Snoozed),
        is_alongside(statement.conds, Named::Bin),
        typing,
        at,
    )
    &&& !any_asks_for(statement.conds, Named::Bin) ==> !is_binned(at.row)
}

proof fn anded_adds_up(a: Seq<Whole>, b: Seq<Whole>)
    ensures
        anded(a + b) == anded(a) + anded(b),
        takes_each(a + b) == takes_each(a) + takes_each(b),
    decreases b.len(),
{
    if b.len() == 0 {
        assert(a + b =~= a);
        assert(anded(a) + anded(b) =~= anded(a));
    } else {
        assert((a + b).drop_last() =~= a + b.drop_last());
        anded_adds_up(a, b.drop_last());
        assert(anded(a + b) =~= anded(a) + anded(b));
    }
}

proof fn all_met_adds_up(
    a: Seq<Whole>,
    b: Seq<Whole>,
    x: Seq<BoundValue>,
    y: Seq<BoundValue>,
    at: Found,
)
    requires
        takes_each(a) == x.len(),
        takes_each(b) == y.len(),
    ensures
        all_met(a + b, x + y, at) == (all_met(a, x, at) && all_met(b, y, at)),
    decreases b.len(),
{
    if b.len() == 0 {
        assert(a + b =~= a);
        assert(x + y =~= x);
    } else {
        let front = b.drop_last();
        let last = b.last();
        assert((a + b).drop_last() =~= a + front);
        assert((a + b).last() == last);
        let k = y.len() - takes(last);
        let n = (x + y).len() - takes(last);
        assert((x + y).take(n) =~= x + y.take(k));
        assert((x + y).skip(n) =~= y.skip(k));
        all_met_adds_up(a, front, x, y.take(k), at);
    }
}

proof fn one_is_anded(w: Whole)
    ensures
        anded(seq![w]) == " AND "@ + written(w),
        takes_each(seq![w]) == takes(w),
        forall|values: Seq<BoundValue>, at: Found|
            values.len() == takes(w) ==> #[trigger] all_met(seq![w], values, at) == is_met(
                w,
                values,
                at,
            ),
{
    let list = seq![w];
    let none = Seq::<Whole>::empty();
    assert(list.drop_last() =~= none);
    assert(list.last() == w);
    assert(anded(none) =~= Seq::<char>::empty());
    assert(anded(list) =~= " AND "@ + written(w));
    assert(takes_each(none) == 0);
    assert forall|values: Seq<BoundValue>, at: Found| values.len() == takes(w) implies
        #[trigger] all_met(list, values, at) == is_met(w, values, at) by {
        assert(values.skip(0) =~= values);
        assert(all_met(none, values.take(0), at));
    }
}

proof fn each_condition_is_met(
    conds: Seq<Demand>,
    snoozed: bool,
    binned: bool,
    walking: bool,
    typing: Option<nat>,
) -> (ws: Seq<Whole>)
    ensures
        anded(ws) == conds_text(conds, snoozed, binned, walking),
        takes_each(ws) == conds_bind(conds, typing).len(),
        forall|at: Found| #[trigger]
            all_met(ws, conds_bind(conds, typing), at) == all_demands_met(
                conds,
                snoozed,
                binned,
                typing,
                at,
            ),
    decreases conds.len(),
{
    if conds.len() == 0 {
        Seq::empty()
    } else {
        let front = conds.drop_last();
        let ws = each_condition_is_met(front, snoozed, binned, walking, typing);
        let w = conditions_pick_out_what_they_ask_for(
            conds.last(),
            snoozed,
            binned,
            walking,
            typing,
        );
        let all = ws + seq![w];
        let x = conds_bind(front, typing);
        let y = cond_values(conds.last(), typing);
        anded_adds_up(ws, seq![w]);
        one_is_anded(w);
        assert forall|at: Found| #[trigger]
            all_met(all, conds_bind(conds, typing), at) == all_demands_met(
                conds,
                snoozed,
                binned,
                typing,
                at,
            ) by {
            all_met_adds_up(ws, seq![w], x, y, at);
            assert(all_met(seq![w], y, at) == is_met(w, y, at));
            assert(is_met(w, y, at) == demand_met(conds.last(), snoozed, binned, typing, at));
            assert(all_met(ws, x, at) == all_demands_met(front, snoozed, binned, typing, at));
        }
        all
    }
}

/// What must not be there, inside the expression and beside it.
proof fn each_refusal_is_met(unwanted: Seq<(Column, Phrase)>, ranked: bool, cjk: bool) -> (r: (
    Seq<Expression>,
    Seq<Whole>,
))
    ensures
        expressed_each(r.0) == refused(unwanted, ranked, cjk).inside,
        !ranked ==> r.0.len() == 0,
        anded(r.1) == refused(unwanted, ranked, cjk).sql,
        takes_each(r.1) == refused(unwanted, ranked, cjk).values.len(),
        forall|at: Found|
            (all_met(r.1, refused(unwanted, ranked, cjk).values, at) && !matches_any(
                r.0,
                in_script(at.index, cjk),
            )) == #[trigger] none_refused(unwanted, at),
    decreases unwanted.len(),
{
    let now = refused(unwanted, ranked, cjk);
    if unwanted.len() == 0 {
        (Seq::empty(), Seq::empty())
    } else {
        let front = unwanted.drop_last();
        let before = refused(front, ranked, cjk);
        let (es, ws) = each_refusal_is_met(front, ranked, cjk);
        let (column, text) = unwanted.last();
        let phrase = phrase_text(column, text, any_cjk(text.value), false);
        if !is_indexable(text) {
            assert forall|at: Found|
                (all_met(ws, now.values, at) && !matches_any(es, in_script(at.index, cjk)))
                    == #[trigger] none_refused(unwanted, at) by {
                assert((all_met(ws, before.values, at) && !matches_any(
                    es,
                    in_script(at.index, cjk),
                )) == none_refused(front, at));
            }
            (es, ws)
        } else if ranked && cjk == any_cjk(text.value) {
            let e = Expression::Phrase(phrase);
            let more = es.push(e);
            assert(more.drop_last() =~= es);
            assert(expressed(e) == phrase);
            assert(expressed_each(more) =~= now.inside);
            assert forall|at: Found|
                (all_met(ws, now.values, at) && !matches_any(more, in_script(at.index, cjk)))
                    == #[trigger] none_refused(unwanted, at) by {
                let index = in_script(at.index, cjk);
                assert((all_met(ws, before.values, at) && !matches_any(es, index))
                    == none_refused(front, at));
                assert(matches_it(e, index) == index(phrase));
                assert(index(phrase) == (at.index)(cjk, phrase));
                assert(matches_any(more, index) == (matches_any(es, index) || matches_it(
                    e,
                    index,
                )));
            }
            (more, ws)
        } else {
            let w = Whole::Words(false, any_cjk(text.value));
            let value = seq![BoundValue::Text(phrase)];
            let more = ws + seq![w];
            anded_adds_up(ws, seq![w]);
            one_is_anded(w);
            assert(written(w) == lookup_text(text, false));
            assert(takes(w) == 1);
            assert(now.values =~= before.values + value);
            assert(anded(more) =~= now.sql);
            assert forall|at: Found|
                (all_met(more, now.values, at) && !matches_any(es, in_script(at.index, cjk)))
                    == #[trigger] none_refused(unwanted, at) by {
                assert((all_met(ws, before.values, at) && !matches_any(
                    es,
                    in_script(at.index, cjk),
                )) == none_refused(front, at));
                all_met_adds_up(ws, seq![w], before.values, value, at);
                assert(all_met(seq![w], value, at) == is_met(w, value, at));
                assert(is_met(w, value, at) == ((at.index)(any_cjk(text.value), phrase) == false));
            }
            (es, more)
        }
    }
}

/// Whether a message has the words of one script that are wanted.
pub open spec fn script_met(
    wanted: Seq<Wording>,
    script: bool,
    for_cjk: bool,
    typing: Option<nat>,
    index: spec_fn(Seq<char>) -> bool,
) -> bool
    decreases wanted.len(),
{
    wanted.len() > 0 ==> script_met(wanted.drop_last(), script, for_cjk, typing, index) && (
    wanted.last().asks_cjk() == script ==> words_met(wanted.last(), for_cjk, typing, index)
        != Some(false))
}

proof fn a_script_is_asked(
    wanted: Seq<Wording>,
    script: bool,
    for_cjk: bool,
    typing: Option<nat>,
) -> (es: Seq<Expression>)
    ensures
        expressed_each(es) == script_texts(wanted, script, for_cjk, typing),
        es.len() == script_texts(wanted, script, for_cjk, typing).len(),
        forall|index: spec_fn(Seq<char>) -> bool| #[trigger]
            matches_all(es, index) == script_met(wanted, script, for_cjk, typing, index),
    decreases wanted.len(),
{
    if wanted.len() == 0 {
        Seq::empty()
    } else {
        let front = wanted.drop_last();
        let before = a_script_is_asked(front, script, for_cjk, typing);
        let e = an_expression_asks_for_its_words(wanted.last(), for_cjk, typing);
        let asked = wanted.last().asks_cjk() == script && fts_text(
            wanted.last(),
            for_cjk,
            typing,
        ) is Some;
        let es = if asked {
            before.push(e)
        } else {
            before
        };
        assert(before.push(e).drop_last() =~= before);
        assert(expressed_each(es) =~= script_texts(wanted, script, for_cjk, typing));
        assert forall|index: spec_fn(Seq<char>) -> bool| #[trigger]
            matches_all(es, index) == script_met(wanted, script, for_cjk, typing, index) by {
            assert(matches_all(before, index) == script_met(front, script, for_cjk, typing, index));
            let last = words_met(wanted.last(), for_cjk, typing, index);
            if asked {
                assert(last == Some(matches_it(e, index)));
            }
        }
        es
    }
}

proof fn each_word_is_of_one_script(
    wanted: Seq<Wording>,
    cjk: bool,
    typing: Option<nat>,
    at: Found,
)
    requires
        !cjk ==> !any_asks_cjk(wanted),
    ensures
        wanted_met(wanted, typing, at) == (script_met(
            wanted,
            cjk,
            cjk,
            typing,
            in_script(at.index, cjk),
        ) && script_met(wanted, !cjk, false, typing, in_script(at.index, false))),
    decreases wanted.len(),
{
    if wanted.len() > 0 {
        each_word_is_of_one_script(wanted.drop_last(), cjk, typing, at);
    }
}

/// A statement finds the messages it asks for, and no others: its expression,
/// where it has one, and its conditions with their values hold of exactly
/// those.
pub proof fn a_statement_finds_what_it_asks_for(
    statement: Statement,
    account: int,
    typing: Option<nat>,
    at: Found,
) -> (r: (Seq<Expression>, Seq<Expression>, Seq<Whole>))
    requires
        reads(at.index),
        bound_as(statement, account, typing) is Some,
    ensures
        ({
            let w = bound_as(statement, account, typing)->0;
            let index = in_script(at.index, any_asks_cjk(statement.wanted));
            &&& w.asked matches Some(asked) ==> asked.expr == ranked_by(r.0, r.1) && asked.cjk
                == any_asks_cjk(statement.wanted)
            &&& w.asked is None ==> r.0.len() == 0 && r.1.len() == 0
            &&& w.conditions == anded(r.2)
            &&& w.values.len() == takes_each(r.2)
            &&& (matches_all(r.0, index) && !matches_any(r.1, index) && all_met(
                r.2,
                w.values,
                at,
            )) == statement_met(statement, account, typing, at)
        }),
{
    let w = bound_as(statement, account, typing)->0;
    let cjk = any_asks_cjk(statement.wanted);
    let index = in_script(at.index, cjk);
    let wanted = script_texts(statement.wanted, cjk, cjk, typing);
    let beside = script_texts(statement.wanted, !cjk, false, typing);
    let ranked = wanted.len() > 0;
    let walking = wanted.len() == 0 && !any_looks_up(statement.conds);
    let snoozed = is_alongside(statement.conds, Named::Snoozed);
    let binned = is_alongside(statement.conds, Named::Bin);
    let guarded = !any_asks_for(statement.conds, Named::Bin);
    let es = a_script_is_asked(statement.wanted, cjk, cjk, typing);
    let bes = a_script_is_asked(statement.wanted, !cjk, false, typing);
    let (inside, rws) = each_refusal_is_met(statement.unwanted, ranked, cjk);
    let cws = each_condition_is_met(statement.conds, snoozed, binned, walking, typing);
    one_is_expressed(inside);
    let no_ws = Seq::<Whole>::empty();
    let no_values = Seq::<BoundValue>::empty();
    let words = Whole::Words(true, false);
    let bws = if beside.len() > 0 {
        seq![words]
    } else {
        no_ws
    };
    let bvalues = if beside.len() > 0 {
        seq![BoundValue::Text(joined(beside, " AND "@))]
    } else {
        no_values
    };
    let aws = seq![Whole::OfAccount];
    let avalues = seq![BoundValue::Int(account)];
    let gws = if guarded {
        seq![Whole::OutOfTheBin]
    } else {
        no_ws
    };
    let rvalues = refused(statement.unwanted, ranked, cjk).values;
    let cvalues = conds_bind(statement.conds, typing);
    let ws = bws + aws + gws + rws + cws;
    fixed_parts_are_written();
    one_is_anded(words);
    one_is_anded(Whole::OfAccount);
    one_is_anded(Whole::OutOfTheBin);
    anded_adds_up(bws, aws);
    anded_adds_up(bws + aws, gws);
    anded_adds_up(bws + aws + gws, rws);
    anded_adds_up(bws + aws + gws + rws, cws);
    assert(takes_each(bws) == bvalues.len());
    assert(takes_each(aws) == avalues.len());
    assert(takes_each(gws) == no_values.len());
    all_met_adds_up(bws, aws, bvalues, avalues, at);
    all_met_adds_up(bws + aws, gws, bvalues + avalues, no_values, at);
    assert(bvalues + avalues + no_values =~= bvalues + avalues);
    all_met_adds_up(bws + aws + gws, rws, bvalues + avalues, rvalues, at);
    all_met_adds_up(bws + aws + gws + rws, cws, bvalues + avalues + rvalues, cvalues, at);
    assert(w.values =~= bvalues + avalues + rvalues + cvalues);
    assert(anded(bws) =~= if beside.len() > 0 {
        BESIDE@
    } else {
        Seq::empty()
    });
    assert(anded(aws) =~= OF_ACCOUNT@);
    assert(anded(gws) =~= if guarded {
        " AND "@ + guard_text()
    } else {
        Seq::empty()
    });
    assert(w.conditions =~= anded(ws));
    assert(all_met(aws, avalues, at) == (at.account == account)) by {
        assert(all_met(aws, avalues, at) == is_met(Whole::OfAccount, avalues, at));
    }
    assert(all_met(gws, no_values, at) == (guarded ==> !is_binned(at.row))) by {
        if guarded {
            assert(all_met(gws, no_values, at) == is_met(Whole::OutOfTheBin, no_values, at));
        }
    }
    let other = in_script(at.index, false);
    assert(all_met(bws, bvalues, at) == matches_all(bes, other)) by {
        if beside.len() > 0 {
            assert(all_met(bws, bvalues, at) == is_met(words, bvalues, at));
            assert((at.index)(false, joined(expressed_each(bes), " AND "@)) == matches_all(
                bes,
                in_script(at.index, false),
            ));
        }
    }
    assert(matches_all(es, index) == script_met(statement.wanted, cjk, cjk, typing, index));
    assert(matches_all(bes, other) == script_met(statement.wanted, !cjk, false, typing, other));
    each_word_is_of_one_script(statement.wanted, cjk, typing, at);
    assert((all_met(rws, rvalues, at) && !matches_any(inside, index)) == none_refused(
        statement.unwanted,
        at,
    ));
    assert(all_met(cws, cvalues, at) == all_demands_met(
        statement.conds,
        snoozed,
        binned,
        typing,
        at,
    ));
    (es, inside, ws)
}

proof fn fixed_parts_are_written()
    ensures
        " AND "@ + written(Whole::Words(true, false)) == BESIDE@,
        " AND "@ + written(Whole::OfAccount) == OF_ACCOUNT@,
        written(Whole::OutOfTheBin) == guard_text(),
        takes(Whole::Words(true, false)) == 1,
        takes(Whole::OfAccount) == 1,
        takes(Whole::OutOfTheBin) == 0,
{
    reveal_strlit(" AND ");
    reveal_strlit("m.id ");
    reveal_strlit("IN (SELECT rowid FROM fts_messages WHERE fts_messages MATCH ?)");
    reveal_strlit(" AND m.id IN (SELECT rowid FROM fts_messages WHERE fts_messages MATCH ?)");
    reveal_strlit("m.account_id = ?");
    reveal_strlit(" AND m.account_id = ?");
    let words = Whole::Words(true, false);
    assert(written(words) == "m.id "@
        + "IN (SELECT rowid FROM fts_messages WHERE fts_messages MATCH ?)"@);
    assert(" AND "@ + written(words) =~= BESIDE@);
    let account = Whole::OfAccount;
    assert(written(account) == "m.account_id = ?"@);
    assert(" AND "@ + written(account) =~= OF_ACCOUNT@);
    let bin = Whole::OutOfTheBin;
    assert(written(bin) == guard_text());
    assert(takes(words) == 1 && takes(account) == 1 && takes(bin) == 0);
}

} // verus!
